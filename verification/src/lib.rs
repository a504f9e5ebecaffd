//! Reader for CPK archives.
//!
//! An archive starts with a header table and may hold a file list, an
//! extended file list, a list of files by id and a list of groups; each of
//! them is an `@UTF` table in a small frame, stored plainly or obfuscated
//! by a keystream. The files themselves may be compressed as CRILAYLA
//! blobs. The crate works on bytes in memory: what reads an archive from
//! disk and writes the extracted files is left to the caller.
//!
//! - [`endian`]: a reader and a writer over bytes with a switchable byte
//!   order; [`byte_order`] says what the numbers in the bytes are.
//! - [`utf`]: the `@UTF` table and its parser; [`utf_format`] states the
//!   layout of a table and what holds of every parsed table.
//! - [`compression`]: the CRILAYLA decompressor; [`bits`] states its bit
//!   stream.
//! - [`cpk`]: the archive, its file table and the extraction of files;
//!   [`cpk_format`] states the layout of an archive.
//! - [`error`]: the error type; [`text`]: numbers as text, Shift-JIS and
//!   letter case.
pub mod bits;
pub mod byte_order;
pub mod compression;
pub mod cpk;
pub mod cpk_format;
pub mod endian;
pub mod error;
pub mod text;
pub mod utf;
pub mod utf_format;
