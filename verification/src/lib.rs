//! Fetches a chain from its network as fast as the network lets it: headers from
//! a given block on, the block of each header, and the chunks of each block.
//!
//! The library holds what is decided and computed on the way, as plain state and
//! functions on it. It does not lock, wait or talk: an operation returns what is
//! to be sent and who is to be woken, and takes what came in and the time as
//! arguments.
//!
//! * [`concurrency`]: contexts and their cancellation, values set once, delivery
//!   by key, scopes of tasks, rate limits; [`async_ctx`] for contexts that do not
//!   pass cancellation on.
//! * [`network`]: who asked for what, whom to ask, and what becomes of what comes
//!   in.
//! * [`fetch_chain`]: which tasks follow from which.
//! * [`near_client`]: a client that asks single peers and catches up with them.
//! * [`cli`], [`config`], [`nearcore`]: what a run starts from.
pub mod async_ctx;
pub mod cli;
pub mod clock;
pub mod concurrency;
pub mod config;
pub mod fetch_chain;
pub mod headers;
pub mod keyed;
pub mod near_client;
pub mod nearcore;
pub mod network;
pub mod random;
pub mod seqs;
pub mod types;
