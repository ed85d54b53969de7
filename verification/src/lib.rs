//! A verified codec and handshake core for a length-prefixed, checksummed,
//! optionally XTEA-ciphered wire protocol, together with the middleware that
//! proxies such connections: frame encoding and decoding, the login and game
//! handshakes that install the session key, and the character-list rewrite
//! that steers clients through the proxy.

pub mod buffer;
pub mod checksum;
pub mod client;
pub mod codec;
pub mod error;
pub mod game;
pub mod login;
pub mod proxy;
pub mod rsa;
pub mod world;
pub mod xtea;
