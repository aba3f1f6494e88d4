//! A node for the Maelstrom workbench that serves list-append transactions
//! from a linearizable key-value service.
//!
//! The node is a machine without input or output of its own: it takes one
//! message at a time and gives the messages to send for it. [`codec`] turns
//! lines into messages and back, [`node`] routes them, [`transactor2`] runs
//! the transactions, and [`snapshot`] says what a transaction answers.
pub mod codec;
pub mod fields;
pub mod idgen;
pub mod json;
pub mod message_handlers;
pub mod messages;
pub mod node;
pub mod snapshot;
pub mod storage;
pub mod table;
pub mod text;
pub mod thunk;
pub mod transactor;
pub mod transactor2;

pub use crate::transactor2::Transactor;
