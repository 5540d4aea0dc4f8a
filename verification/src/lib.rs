//! The decisions, formats and state of a NAT traversal proxy for a game engine.
//!
//! A game server connects to the proxy, asks it to allocate an endpoint, and players connect to
//! that endpoint. The proxy relays streams and datagrams between the two sides and serves the
//! assets of the game over HTTP. Everything here works on plain values: the program around it owns
//! the sockets, the tasks and the clock.
pub mod asset_store;
pub mod assets;
pub mod bytes;
pub mod client;
pub mod configuration;
pub mod error;
pub mod http;
pub mod ids;
pub mod management;
pub mod messaging;
pub mod numbers;
pub mod paths;
pub mod pending;
pub mod player;
pub mod ports;
pub mod protocol;
pub mod proxy;
pub mod streams;
pub mod table;
pub mod telemetry;
pub mod text;
pub mod totals;
pub mod wire;
