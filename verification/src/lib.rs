//! Drop checking: instrumented tokens whose destruction is recorded in a set,
//! so that a leak (a token destroyed zero times) or a double drop (a token
//! destroyed more than once) cannot go unnoticed.
//!
//! A [`DropCheck`] owns one [`DropState`] per token it has issued. A
//! [`DropToken`] names its state by position, and handing the token back to
//! [`DropCheck::drop_token`] is the one event that marks the state as dropped.
//! Leaks and double drops are ruled out by preconditions: a set can only be
//! finished once every state is dropped, and a state can only be marked once.

pub mod laws;
pub mod model;
pub mod registry;
pub mod state;

pub use registry::{DropCheck, DropToken};
pub use state::DropState;
