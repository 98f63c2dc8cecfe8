//! GBLN: a compact, strongly typed, self-describing textual data format.
//!
//! The crate parses GBLN text into a [`value::Value`] tree, validates typed
//! scalars against their inline type hints, and serializes value trees back
//! to text in compact or pretty form.

pub mod config;
pub mod error;
pub mod io;
pub mod laws;
pub mod lexer;
pub mod numtext;
pub mod parser;
pub mod serializer;
pub mod text;
pub mod types;
pub mod value;

pub use config::GblnConfig;
pub use error::Error;
pub use error::ErrorKind;
pub use io::from_io_bytes;
pub use io::is_xz_compressed;
pub use io::to_io_bytes;
pub use lexer::Lexer;
pub use lexer::Token;
pub use parser::parse;
pub use serializer::to_string;
pub use serializer::to_string_pretty;
pub use types::TypeHint;
pub use value::Value;
