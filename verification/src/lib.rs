//! Keeps the managed block of a hosts file in step with a shared table of
//! host names and addresses.
//!
//! An agent reads its hosts file ([`parsing`]), finds the block that it owns
//! ([`region`]), reports itself to the service and asks for the shared table
//! ([`agent`]), and writes that table into the block ([`render`]). The
//! service merges each report into the one table it keeps ([`service`],
//! [`table`]). What holds of these steps together is stated and proved in
//! [`laws`].

pub mod agent;
pub mod chars;
pub mod laws;
pub mod lines;
pub mod order;
pub mod parsing;
pub mod region;
pub mod render;
pub mod service;
pub mod table;
