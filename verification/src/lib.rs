//! A directory-bookmark store: short names for directories, kept as an
//! ordered collection that is read, changed and written back as a whole.

pub mod bookmark;
pub mod error;
pub mod process;
