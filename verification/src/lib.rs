//! A content-addressed blob database: its wire protocol, its hashing and
//! naming rules, and the decisions of its server and client, verified.
pub mod types;
pub mod funcs;
pub mod wire;
pub mod frames;
pub mod send_recv;
pub mod frame_laws;
pub mod serialize;
pub mod server;
pub mod client;
pub mod persister;
pub mod assoc;
pub mod model;
