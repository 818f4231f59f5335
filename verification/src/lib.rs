//! Reader for the "DSARC FL" archive container.
//!
//! An archive is one byte buffer: a fixed-layout header that lists the
//! contained files by name, size and offset, and the files' bytes somewhere
//! after it. [`load_bytes`] decodes the header and copies every file out of
//! the buffer; its contract says, over [`archive::load_spec`], exactly what
//! comes back for every buffer.

pub mod error;
pub mod layout;
pub mod text;
pub mod header;
pub mod archive;
pub mod lemmas;

pub use archive::{load_bytes, Archive};
pub use error::ArchiveError;
pub use header::{Header, HeaderEntry};
