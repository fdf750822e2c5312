//! The shared terminal buffer: the single growable text buffer that the
//! session reader appends to and the render loop snapshots.
//!
//! Raw bytes from the child process are decoded as UTF-8 (lossily, with the
//! substitution character for invalid sequences) before they are appended,
//! so no reader ever observes a partially decoded multi-byte character.

use vstd::prelude::*;
use vstd::string::StringExecFns;

verus! {

/// The characters that a byte sequence decodes to under lossy UTF-8
/// decoding (invalid sequences become the substitution character).
/// The result is a function of the bytes alone.
pub uninterp spec fn utf8_lossy(bytes: Seq<u8>) -> Seq<char>;

/// Relies on `String::from_utf8_lossy`: decodes the bytes as UTF-8,
/// replacing invalid sequences with U+FFFD; the result depends on the
/// bytes alone, and an empty input decodes to an empty string.
#[verifier::external_body]
fn decode_utf8_lossy(bytes: &[u8]) -> (r: String)
    ensures
        r@ == utf8_lossy(bytes@),
        bytes@.len() == 0 ==> r@.len() == 0,
{
    String::from_utf8_lossy(bytes).into_owned()
}

/// The shared terminal buffer. The host wraps a value of this type in a
/// mutual-exclusion lock; each method call is one critical section.
pub struct TermBuffer {
    text: String,
}

impl View for TermBuffer {
    type V = Seq<char>;

    closed spec fn view(&self) -> Seq<char> {
        self.text@
    }
}

impl TermBuffer {
    /// Creates the empty buffer that a session starts with.
    pub fn new() -> (r: TermBuffer)
        ensures
            r@ == Seq::<char>::empty(),
    {
        TermBuffer { text: String::new() }
    }

    /// Appends already-decoded text; the new contents are exactly the old
    /// contents followed by `piece`.
    pub fn append_str(&mut self, piece: &str)
        ensures
            final(self)@ == old(self)@ + piece@,
    {
        self.text.append(piece);
    }

    /// Appends one chunk of raw output from the child process, decoding it
    /// first; the new contents are exactly the old contents followed by the
    /// decoded chunk.
    pub fn append_bytes(&mut self, bytes: &[u8])
        ensures
            final(self)@ == old(self)@ + utf8_lossy(bytes@),
    {
        let decoded = decode_utf8_lossy(bytes);
        self.append_str(decoded.as_str());
    }

    /// Clones the current contents for one rendered frame.
    pub fn snapshot(&self) -> (r: String)
        ensures
            r@ == self@,
    {
        self.text.clone()
    }
}

/// The concatenation of a sequence of text fragments, in order.
pub open spec fn concat_frags(frags: Seq<Seq<char>>) -> Seq<char>
    decreases frags.len(),
{
    if frags.len() == 0 {
        Seq::empty()
    } else {
        frags[0] + concat_frags(frags.drop_first())
    }
}

/// The buffer contents after appending each fragment in order to a buffer
/// that starts with contents `init`, one append per fragment, exactly as
/// `append_str` and `append_bytes` extend the buffer.
pub open spec fn fold_appends(init: Seq<char>, frags: Seq<Seq<char>>) -> Seq<char>
    decreases frags.len(),
{
    if frags.len() == 0 {
        init
    } else {
        fold_appends(init + frags[0], frags.drop_first())
    }
}

/// Law: after appending fragments s1..sN one at a time, the buffer holds
/// exactly its initial contents followed by s1 + ... + sN. Snapshots taken
/// between appends do not affect this: `snapshot` leaves the buffer
/// unchanged, so the final contents are independent of read timing.
pub proof fn lemma_appends_concat(init: Seq<char>, frags: Seq<Seq<char>>)
    ensures
        fold_appends(init, frags) == init + concat_frags(frags),
    decreases frags.len(),
{
    if frags.len() == 0 {
        assert(init + concat_frags(frags) =~= init);
    } else {
        lemma_appends_concat(init + frags[0], frags.drop_first());
        assert((init + frags[0]) + concat_frags(frags.drop_first()) =~= init + concat_frags(
            frags,
        ));
    }
}

} // verus!
