//! Verified cores of four classic text tools: echo joins its words, head keeps
//! the first lines or bytes of a text, uniq collapses runs of equal lines, and
//! wc counts lines, words, bytes and characters. Reading files and parsing the
//! command line are left to the caller; every function here takes and returns
//! plain values.

pub mod echo;
pub mod numtext;
pub mod lines;
pub mod head;
pub mod uniq;
pub mod wc;
