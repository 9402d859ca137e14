//! A minimal FTP-like command protocol: the command grammar with its two
//! encodings (human-typed line syntax and a null-terminated wire encoding),
//! and the session state machines that order authentication before any other
//! operation.

pub mod addr;
pub mod client;
pub mod command;
pub mod error;
pub mod reply;
pub mod server;
pub mod table;
pub mod text;

pub use command::Command;
pub use error::MiniFtpError;
pub use text::is_space;
