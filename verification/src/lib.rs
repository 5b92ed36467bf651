//! Symbolic-link rendering and path helpers for a directory lister.
pub mod color;
pub mod flags;
pub mod join;
pub mod meta;
pub mod path;
pub mod path_laws;
pub mod prefix;

pub use color::{ColoredString, Colors, Elem, Style, ThemeOption};
pub use flags::Flags;
pub use meta::symlink::SymLink;
pub use meta::utils::relative_path;
pub use prefix::Platform;
