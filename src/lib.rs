//! Line extraction from decompressed text streams.
//!
//! A plain stream is split on newlines. An archive stream comes in blocks of 512 bytes;
//! blocks that carry the archive magic are metadata: they yield no line and end the
//! pending one. `LineSplitter` holds the bytes of the line in progress between blocks,
//! `decode_lines` turns the byte lines into text, and `mode_for_stem` tells the two kinds
//! of file apart by name. The driver that reads files, decompresses them and runs them in
//! parallel lives outside this library.

pub mod block;
pub mod lemmas;
pub mod mode;
pub mod split;
pub mod text;
