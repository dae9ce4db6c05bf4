//! Request routing, argument parsing, command formatting and the in-memory
//! document store of a small HTTP server and its companion client.
pub mod text;
pub mod decimal;
pub mod response;
pub mod json;
pub mod store;
pub mod request;
pub mod args;
pub mod client;
pub mod shell;
