//! Batched line reading: a reader that hands out the lines of a line source
//! one at a time or in groups of a fixed maximum size.
//!
//! A [`LineSource`] is anything that can read one line into a buffer.
//! [`MaxLinesIterator::max_lines`] wraps it in a [`MaxLines`], whose `single`
//! reads a line and whose `next` reads a batch of lines. A line comes
//! without its terminator, `\n` or `\r\n`; a read that fails gives a failure
//! in the place of its line, and reading goes on behind it.
//!
//! [`TextSource`] is a source over a text in memory. For a reader over it
//! the lines and batches are known in advance: `text_reader` says which
//! they are.

mod encoding;
pub mod line;
pub mod reader;
pub mod source;
pub mod text;
pub mod text_reader;
pub mod text_source;

pub use reader::MaxLines;
pub use reader::MaxLinesIterator;
pub use source::LineSource;
pub use text_source::TextSource;
