//! Client library for the BOINC GUI RPC protocol: element trees, frame
//! handling, reply classification, record codecs and the session and
//! transport state machines.
pub mod errors;
pub mod text;
pub mod tree;
pub mod reply;
pub mod frame;
pub mod session;
pub mod transport;
pub mod shape;
pub mod models;
pub mod messages;
pub mod client;
