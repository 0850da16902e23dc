//! Picks the program that opens a file, from an ordered list of rules keyed
//! by file extension or by MIME type.
pub mod cli;
pub mod config;
pub mod error;
pub mod laws;
pub mod mime;
pub mod text;

pub use cli::{config_path, Cli, Invocation, CONFIG_FILE};
pub use config::{Config, KeyView, Mapping, MappingView, MimeTypeKey};
pub use error::{Error, ErrorView};
pub use mime::{MimeType, MimeView};
pub use text::{chars_of, eq_ignore_ascii_case, is_space_char, split_words, trim_text};
