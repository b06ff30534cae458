//! An in-process broadcast hub: subscribers register a channel, published
//! events are framed as text and fanned out to every registered channel,
//! and channels whose delivery fails are pruned.

pub mod bindings;
pub mod event;
pub mod frame;
pub mod error;
pub mod pipe;
pub mod cli;
