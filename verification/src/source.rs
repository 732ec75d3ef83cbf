//! Line sources: what a reader draws its lines from.

use vstd::prelude::*;
use vstd::utf8::encode_utf8;

verus! {

/// `std::io::Error`: the failure that a read reports. Its contents are not
/// looked into; a failure is only handed on.
#[verifier::external_type_specification]
#[verifier::external_body]
pub struct ExIoError(std::io::Error);

/// Whether `raw` and `outcome` fit together as what one read of a line
/// appends and reports. A read that succeeds reports the number of bytes
/// that it appended, and appends at most one line: a `\n` can only be the
/// last character. Of a read that fails nothing is said.
pub open spec fn is_line_read(raw: Seq<char>, outcome: Result<usize, std::io::Error>) -> bool {
    outcome matches Ok(count) ==> {
        &&& count == encode_utf8(raw).len()
        &&& forall|i: int| 0 <= i < raw.len() - 1 ==> raw[i] != '\n'
    }
}

/// A buffered stream of text that can be read line by line.
///
/// What is proved of a reader holds for a source whose `read_line_into`
/// keeps to the contract below. For a source written outside this crate
/// nothing checks that it does.
pub trait LineSource: Sized {
    /// Whether one read can take the source from `self` to `after` while it
    /// appends `raw` to the caller's buffer and reports `outcome`.
    ///
    /// A source that knows what it will deliver says so here. One that
    /// cannot know, because it reads from outside the program, leaves this
    /// as it is: any read is possible.
    open spec fn reads(
        self,
        after: Self,
        raw: Seq<char>,
        outcome: Result<usize, std::io::Error>,
    ) -> bool {
        true
    }

    /// Reads up to and including the next `\n` and appends what it read to
    /// `buf`. Returns the number of bytes read; zero means that the stream
    /// has ended.
    fn read_line_into(&mut self, buf: &mut String) -> (outcome: Result<usize, std::io::Error>)
        ensures
            old(buf)@.is_prefix_of(final(buf)@),
            old(self).reads(*final(self), final(buf)@.skip(old(buf)@.len() as int), outcome),
            is_line_read(final(buf)@.skip(old(buf)@.len() as int), outcome),
    ;
}

} // verus!
