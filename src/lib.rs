//! The editing core of a minimal terminal text editor: a UTF-8 scanner, a
//! glyph segmenter over byte buffers, a byte-oriented text buffer with a
//! cursor, and the decision step of the editor loop.
pub mod editor;
pub mod utf8_utils;
