//! A writer for the PLY polygon file format.
//!
//! A document is a header and a payload. The header declares elements and
//! their properties; the payload holds the rows of each element, as text
//! or as binary fields in either byte order.
//!
//! `layout` states the bytes of a file as functions of the document, and
//! `writer` is proved to produce exactly those bytes. `laws` and `lines`
//! state what holds of every file, `reading` states how a reader takes a
//! file apart and proves that it finds what was written, and `validate`
//! decides for a document whether it will.

pub mod convert;
pub mod decimal;
pub mod error;
pub mod keymap;
pub mod laws;
pub mod layout;
pub mod lines;
pub mod ply;
pub mod reading;
pub mod validate;
pub mod wire;
pub mod writer;
