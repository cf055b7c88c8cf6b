//! The virtual terminals and what is shown of them.

pub mod tty;
