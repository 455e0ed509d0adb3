//! Cancellation, one-shot values, keyed delivery, task scopes and rate limits,
//! each as plain state: whoever holds the state decides how it is shared, and
//! performs the wake-ups that the operations return.
pub mod cancel;
pub mod ctx;
pub mod ctx_laws;
pub mod dispatcher;
pub mod eventual;
pub mod rate_limiter;
pub mod scope;
pub mod tree;
pub mod tree_laws;
