//! Byte stream cursor: a strictly forward, single-pass reader over the
//! input text, exposing one raw byte or one hex-decoded byte at a time.

use vstd::prelude::*;

use crate::hex::spec_decode_byte;
use crate::hex::two_char_to_byte;

verus! {

/// The hex byte encoded at position `i` of the input: the decode of the
/// two characters there, or nothing when fewer than two characters
/// remain or either is not a hex digit.
pub open spec fn spec_hex_byte(s: Seq<u8>, i: int) -> Option<u8> {
    if 0 <= i && i + 2 <= s.len() {
        spec_decode_byte(s[i], s[i + 1])
    } else {
        None
    }
}

/// Forward-only cursor over the input bytes. The underlying source has
/// already been drained into `data`; `index` is the read position.
pub struct Reader {
    data: Vec<u8>,
    index: usize,
}

impl Reader {
    /// The whole input this cursor reads from.
    pub closed spec fn bytes(self) -> Seq<u8> {
        self.data@
    }

    /// The current read position.
    pub closed spec fn pos(self) -> int {
        self.index as int
    }

    /// The cursor never points past the end of the input.
    pub open spec fn wf(self) -> bool {
        0 <= self.pos() <= self.bytes().len()
    }

    /// Make a cursor over the given input bytes, positioned at the
    /// start.
    pub fn new(data: Vec<u8>) -> (r: Reader)
        ensures
            r.wf(),
            r.bytes() == data@,
            r.pos() == 0,
    {
        Reader { data, index: 0 }
    }

    /// The next raw input byte, or nothing once the input is exhausted.
    pub fn read_char(&mut self) -> (r: Option<u8>)
        requires
            old(self).wf(),
        ensures
            final(self).wf(),
            final(self).bytes() == old(self).bytes(),
            old(self).pos() < old(self).bytes().len() ==> r == Some(
                old(self).bytes()[old(self).pos()],
            ) && final(self).pos() == old(self).pos() + 1,
            old(self).pos() == old(self).bytes().len() ==> r is None && final(self).pos() == old(
                self,
            ).pos(),
    {
        if self.index == self.data.len() {
            None
        } else {
            let b = self.data[self.index];
            self.index = self.index + 1;
            Some(b)
        }
    }

    /// The next hex-decoded byte: two raw characters combined into one
    /// byte. Exhaustion on either character and digit invalidity both
    /// collapse to `None`; on success the cursor has advanced by two,
    /// on exhaustion it rests at the end of the input.
    pub fn read_byte(&mut self) -> (r: Option<u8>)
        requires
            old(self).wf(),
        ensures
            final(self).wf(),
            final(self).bytes() == old(self).bytes(),
            r == spec_hex_byte(old(self).bytes(), old(self).pos()),
            old(self).pos() + 2 <= old(self).bytes().len() ==> final(self).pos() == old(self).pos()
                + 2,
            old(self).pos() + 2 > old(self).bytes().len() ==> final(self).pos() == old(
                self,
            ).bytes().len(),
    {
        let c1 = match self.read_char() {
            Some(c) => c,
            None => {
                return None;
            },
        };
        let c2 = match self.read_char() {
            Some(c) => c,
            None => {
                return None;
            },
        };
        two_char_to_byte(c1, c2)
    }
}

} // verus!
