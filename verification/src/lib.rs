//! Random Unicode text of an exact encoded size.
//!
//! [`rand_utf8`] builds a string whose UTF-8 encoding has exactly the number
//! of bytes asked for, mixing two character samplers so that the byte values
//! of the result spread over the whole byte range.

pub mod text;
pub mod source;
pub mod small;
pub mod full;
pub mod generate;

pub use full::CharU32Kind;
pub use generate::rand_utf8;
pub use small::CharUtf8Kind;
