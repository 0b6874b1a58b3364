//! Counting the segments that a delimiter divides a byte stream into.
//!
//! The stream is read chunk by chunk and never held as a whole. A chunk may end anywhere:
//! inside a character, inside a delimiter. The count is that of the whole stream all the
//! same.
//!
//! - [`processor`] holds the segment counter, the model of a stream that its contracts
//!   speak of, and what holds of every stream.
//! - [`decoder`] turns the bytes of a stream into text, chunk by chunk.
//! - [`scanner`] counts the occurrences of a delimiter in text that comes in pieces, and
//!   [`scan`] says what an occurrence is and finds them in one piece.
//! - [`raw`] counts a delimiter of one ASCII byte without decoding anything.
//! - [`terminal`] turns a count of occurrences into a count of segments.
//! - [`encoding`] reads the name of an encoding, guesses one from a sample, and decodes a
//!   whole buffer.
//! - [`delimiter`] expands the escapes in a delimiter as a user writes it.
//!
//! Decoding is done by `encoding_rs`, counting single bytes by `memchr`. What is taken on
//! trust of them, and of the standard library's change to lower case, is said above each
//! function that calls them; everything else is proved.

pub mod decoder;
pub mod delimiter;
pub mod encoding;
pub mod processor;
pub mod raw;
pub mod scan;
pub mod scanner;
pub mod terminal;
