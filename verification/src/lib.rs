//! An in-memory ZIP container codec.
//!
//! The encoder turns a sequence of named byte blobs into a single byte
//! stream laid out as a ZIP archive (local file headers, a central
//! directory, and an end-of-central-directory trailer), storing each
//! payload either raw ("store", method 0) or DEFLATE-compressed
//! (method 8) with a CRC-32 over the uncompressed bytes.  The decoder
//! walks such a stream local-header-by-local-header and recovers the
//! named blobs.
//!
//! Out of scope: multi-disk archives, ZIP64, encryption, archive
//! comments, extra fields, data-descriptor-terminated entries, and
//! compression methods other than store and deflate.

pub mod bytes;
pub mod decode;
pub mod encode;
pub mod entry;
pub mod layout;
pub mod laws;
pub mod parse;
pub mod trusted;

pub use decode::{decompress, unpack};
pub use encode::{compress, pack};
pub use entry::{Entry, ZipError};
