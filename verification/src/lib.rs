//! Markdown documents as literate programs: the fenced code blocks of a
//! document that name a file are written out to that file.
//!
//! [`tangle::tangle`] takes a document and gives the files to write.
//! [`assemble`] gathers the code blocks from the events of the document,
//! [`info`] reads the header of a block, and [`emit`] picks the blocks that go
//! to files. [`render`] and [`outline`] write the events of a document out
//! again, as Markdown and as a listing.

pub mod assemble;
pub mod assemble_laws;
pub mod decimal;
pub mod emit;
pub mod event;
pub mod info;
pub mod info_laws;
pub mod outline;
pub mod render;
pub mod store;
pub mod tangle;
pub mod text;
