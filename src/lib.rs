//! Resolution of the owners of repository paths from a CODEOWNERS file.
//!
//! A CODEOWNERS file maps gitignore-style path patterns to owners; the last
//! pattern in the file that matches a path decides who owns it.
pub mod locate;
pub mod owner;
pub mod owners;
pub mod pattern;
pub mod text;

pub use owner::{kind_of, Owner, OwnerKind};
pub use locate::{candidate_locations, first_present, join_path, locate};
pub use owners::{from_reader, parse_line, Owners, Rule};
pub use pattern::{glob_accepts, normalize_chars, owns, owns_given, pattern};
pub use text::{chars_of, split_lines, split_tokens, string_of};
