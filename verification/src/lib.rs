//! Remote workspace connections: the rules for the connections that a user
//! saves, the order of the database and secret store requests that carry each
//! operation out, and the TLS settings of the server.

pub mod app_error;
pub mod connection;
pub mod create;
pub mod header;
pub mod listener;
pub mod migrate;
pub mod outcome;
pub mod protocol;
pub mod queue;
pub mod read;
pub mod remove;
pub mod reorder;
pub mod roundtrip;
pub mod text;
pub mod tls;
pub mod typed;
pub mod update;
pub mod validate;
pub mod views;
pub mod world;
