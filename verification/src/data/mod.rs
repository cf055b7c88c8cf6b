//! Plain data structures shared by the other modules.

pub mod bitmap;
