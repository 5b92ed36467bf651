pub mod symlink;
pub mod utils;
pub mod verbatim_laws;
