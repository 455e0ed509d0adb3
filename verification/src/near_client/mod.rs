//! A client that follows the chain: what it asks of single peers, and how it
//! catches up with them.
pub mod client;
pub mod client_actor;
pub mod locator;
pub mod locator_laws;
pub mod sync;
pub mod sync_laws;
