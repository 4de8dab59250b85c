//! Decoding of single-line, space-delimited text commands.
//!
//! A command line is an unquoted command name, followed by at most one
//! argument: a quoted literal, or an unquoted run of characters that ends
//! the line. [`Deserializer`] is a cursor over one line that answers typed
//! decode requests, each consuming what it decodes; [`from_str`] decodes a
//! whole line into one [`Command`]. What each request yields is laid down
//! in [`grammar`], over sequences of characters, and every operation is
//! proved to return exactly that.

pub mod command;
pub mod de;
pub mod error;
pub mod grammar;
pub mod laws;
pub mod number;
pub mod shape;
pub mod text;
pub mod value;

pub use crate::command::from_str;
pub use crate::de::Deserializer;
pub use crate::error::Error;
pub use crate::shape::{Payload, Shape, Width};
pub use crate::value::{Command, Value};
