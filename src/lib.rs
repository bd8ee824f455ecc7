//! Runtime string formatting: templates with named placeholders are compiled
//! once into a token sequence and rendered against a value lookup.
//!
//! Tokens own their text, copied out of the template at compile time, so a
//! compiled template does not borrow the template string.

pub mod compile;
pub mod context;
pub mod format;
pub mod text;
pub mod token;
pub mod xid;

pub use compile::{compile, CompileError, CompiledFormat};
pub use context::{Context, DynPointer, TypedValue, ValueMap, ValueModel};
pub use format::{Alignment, Error as FormatError, Fill, Flags, Format, Sign, SignFlag};
pub use text::chars_of;
pub use token::{Token, TokenModel};
