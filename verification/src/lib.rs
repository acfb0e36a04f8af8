pub mod builtin;
pub mod cmdline;
pub mod error;
pub mod executor;
