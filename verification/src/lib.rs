//! The help queue of a lab room: students join it, teaching assistants help them or
//! take them out of it, and everyone is told where they stand.
pub mod text;
pub mod queue;
mod links;
pub mod cookie;
pub mod session;
pub mod protocol;
pub mod laws;
