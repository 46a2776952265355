//! A Redis-protocol key/value server core: the RESP codec and stream framer,
//! the keyspace with per-key expiry, the command dispatcher, and the
//! replication bookkeeping of primaries and replicas.
pub mod decimal;
pub mod resp;
pub mod parse;
pub mod framer;
pub mod store;
pub mod database;
pub mod command;
pub mod replication;
pub mod dispatch_model;
pub mod interpreter;
pub mod utils;
pub mod responder;
pub mod replica;
pub mod slaves;
pub mod round_trip;
