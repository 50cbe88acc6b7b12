//! The decision logic of each subcommand.  Each takes the values the binary
//! has read (file contents, flags, whether a path exists) and says what to
//! show or write.

pub mod apply_sampling;
pub mod export;
pub mod fetch;
pub mod info;
pub mod meta;
pub mod model_card;
pub mod remove;
pub mod set;
pub mod tensors;
