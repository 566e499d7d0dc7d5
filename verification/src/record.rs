//! Record decoder: assembles one Intel-HEX record per call from the
//! byte stream cursor, validating its checksum.

use vstd::prelude::*;

use vstd::arithmetic::div_mod::lemma_add_mod_noop_right;
use vstd::arithmetic::div_mod::lemma_mod_sub_multiples_vanish;
use vstd::arithmetic::div_mod::lemma_small_mod;

use crate::reader::Reader;
use crate::reader::spec_hex_byte;

verus! {

/// The position of the first `:` start-of-record marker at or after
/// `i`, or nothing when no marker remains.
pub open spec fn seek_colon(s: Seq<u8>, i: int) -> Option<int>
    decreases s.len() - i,
{
    if i < 0 || i >= s.len() {
        None
    } else if s[i] == ':' as u8 {
        Some(i)
    } else {
        seek_colon(s, i + 1)
    }
}

/// The `n` hex bytes encoded starting at position `i` (two characters
/// each), or nothing as soon as one of them does not decode.
pub open spec fn spec_hex_bytes(s: Seq<u8>, i: int, n: nat) -> Option<Seq<u8>>
    decreases n,
{
    if n == 0 {
        Some(Seq::empty())
    } else {
        match spec_hex_byte(s, i) {
            None => None,
            Some(b) => match spec_hex_bytes(s, i + 2, (n - 1) as nat) {
                None => None,
                Some(rest) => Some(seq![b] + rest),
            },
        }
    }
}

/// The sum of a sequence of bytes, over the integers.
pub open spec fn sum_bytes(s: Seq<u8>) -> int
    decreases s.len(),
{
    if s.len() == 0 {
        0
    } else {
        sum_bytes(s.drop_last()) + s.last()
    }
}

/// A record is accepted exactly when all of its bytes, the checksum
/// byte included, sum to zero modulo 256.
pub open spec fn checksum_ok(
    len: u8,
    addr_high: u8,
    addr_low: u8,
    kind: u8,
    payload: Seq<u8>,
    checksum: u8,
) -> bool {
    (len + addr_high + addr_low + kind + sum_bytes(payload) + checksum) % 256 == 0
}

/// The record whose `:` marker stands at position `j`: length byte,
/// two address bytes, type byte, `length` payload bytes and a checksum
/// byte, all as pairs of hex digits. The result carries the 16-bit
/// address, the type, the payload, and the position just past the
/// record; it is nothing when any field fails to decode or the
/// checksum does not balance.
pub open spec fn parse_after_colon(s: Seq<u8>, j: int) -> Option<(u16, u8, Seq<u8>, int)> {
    let len_o = spec_hex_byte(s, j + 1);
    let b1_o = spec_hex_byte(s, j + 3);
    let b2_o = spec_hex_byte(s, j + 5);
    let kind_o = spec_hex_byte(s, j + 7);
    if len_o is Some && b1_o is Some && b2_o is Some && kind_o is Some {
        let len = len_o->Some_0;
        let payload_o = spec_hex_bytes(s, j + 9, len as nat);
        let chk_o = spec_hex_byte(s, j + 9 + 2 * (len as int));
        if payload_o is Some && chk_o is Some {
            if checksum_ok(len, b1_o->Some_0, b2_o->Some_0, kind_o->Some_0, payload_o->Some_0,
                chk_o->Some_0) {
                Some(
                    (
                        (b1_o->Some_0 as u16 * 256 + b2_o->Some_0 as u16) as u16,
                        kind_o->Some_0,
                        payload_o->Some_0,
                        j + 11 + 2 * (len as int),
                    ),
                )
            } else {
                None
            }
        } else {
            None
        }
    } else {
        None
    }
}

/// One decoded Intel-HEX record: 16-bit address, type byte, payload.
#[derive(Debug)]
pub struct Record {
    pub addr: u16,
    pub kind: u8,
    pub data: Vec<u8>,
}

/// Why no record could be produced: the input ran out before any `:`
/// marker (clean end of input), or a marker was found but the record
/// after it is truncated, not hex, or fails its checksum.
#[derive(Clone, Copy, PartialEq, Eq, Structural, Debug)]
pub enum RecordError {
    EndOfInput,
    Malformed,
}

/// A found marker lies between the search start and the end of the
/// input, and the byte there is the marker itself.
pub proof fn lemma_seek_colon_some(s: Seq<u8>, i: int)
    requires
        seek_colon(s, i) is Some,
    ensures
        i <= seek_colon(s, i)->Some_0 < s.len(),
        s[seek_colon(s, i)->Some_0] == ':' as u8,
    decreases s.len() - i,
{
    if i < 0 || i >= s.len() {
    } else if s[i] == ':' as u8 {
    } else {
        lemma_seek_colon_some(s, i + 1);
    }
}

/// A decoded run of hex bytes has the requested length and fits inside
/// the input.
pub proof fn lemma_hex_bytes_some(s: Seq<u8>, i: int, n: nat)
    requires
        spec_hex_bytes(s, i, n) is Some,
    ensures
        spec_hex_bytes(s, i, n)->Some_0.len() == n,
        n > 0 ==> 0 <= i && i + 2 * n <= s.len(),
    decreases n,
{
    if n > 0 {
        lemma_hex_bytes_some(s, i + 2, (n - 1) as nat);
    }
}

/// A run of already-decoded bytes prefixed onto the outcome of
/// decoding the rest, keeping failure.
pub open spec fn prepend_decoded(p: Seq<u8>, rest: Option<Seq<u8>>) -> Option<Seq<u8>> {
    match rest {
        None => None,
        Some(r) => Some(p + r),
    }
}

/// Decoding `n > 0` hex bytes peels off the first byte and decodes the
/// remaining `n - 1` two characters later.
pub proof fn lemma_hex_bytes_step(s: Seq<u8>, i: int, n: nat, b: u8)
    requires
        n > 0,
        spec_hex_byte(s, i) == Some(b),
    ensures
        spec_hex_bytes(s, i, n) == prepend_decoded(seq![b], spec_hex_bytes(s, i + 2, (n - 1) as nat)),
{
}

/// Moving one byte from the undecoded rest into the decoded prefix.
pub proof fn lemma_prepend_decoded_push(p: Seq<u8>, b: u8, rest: Option<Seq<u8>>)
    ensures
        prepend_decoded(p, prepend_decoded(seq![b], rest)) == prepend_decoded(p.push(b), rest),
{
    match rest {
        None => {},
        Some(r) => {
            assert(p + (seq![b] + r) =~= p.push(b) + r);
        },
    }
}

/// Appending one byte adds its value to the byte sum.
pub proof fn lemma_sum_bytes_push(p: Seq<u8>, b: u8)
    ensures
        sum_bytes(p.push(b)) == sum_bytes(p) + b,
{
    assert(p.push(b).drop_last() =~= p);
}

/// A sum of bytes is never negative.
pub proof fn lemma_sum_bytes_nonneg(p: Seq<u8>)
    ensures
        sum_bytes(p) >= 0,
    decreases p.len(),
{
    if p.len() > 0 {
        lemma_sum_bytes_nonneg(p.drop_last());
    }
}

/// A parsed record ends past its marker and within the input.
pub proof fn lemma_parse_after_colon_some(s: Seq<u8>, j: int)
    requires
        parse_after_colon(s, j) is Some,
    ensures
        j + 11 <= parse_after_colon(s, j)->Some_0.3 <= s.len(),
        parse_after_colon(s, j)->Some_0.2.len() <= 255,
{
    let len = spec_hex_byte(s, j + 1)->Some_0;
    lemma_hex_bytes_some(s, j + 9, len as nat);
}

/// A record whose fields all decode is accepted exactly when its
/// length, address, type, payload and checksum bytes sum to zero
/// modulo 256.
pub proof fn lemma_record_accepted_iff_checksum(
    s: Seq<u8>,
    j: int,
    len: u8,
    b1: u8,
    b2: u8,
    kind: u8,
    payload: Seq<u8>,
    chk: u8,
)
    requires
        spec_hex_byte(s, j + 1) == Some(len),
        spec_hex_byte(s, j + 3) == Some(b1),
        spec_hex_byte(s, j + 5) == Some(b2),
        spec_hex_byte(s, j + 7) == Some(kind),
        spec_hex_bytes(s, j + 9, len as nat) == Some(payload),
        spec_hex_byte(s, j + 9 + 2 * (len as int)) == Some(chk),
    ensures
        parse_after_colon(s, j) is Some <==> (len + b1 + b2 + kind + sum_bytes(payload) + chk)
            % 256 == 0,
{
}

/// Fold one more byte into the running 8-bit checksum accumulator,
/// with modular wraparound. `t` is the exact integer sum accumulated
/// so far, of which `acc` is the residue.
fn checksum_add(acc: u8, b: u8, Ghost(t): Ghost<int>) -> (r: u8)
    requires
        t >= 0,
        acc == t % 256,
    ensures
        r == (t + b) % 256,
{
    let r = acc.wrapping_add(b);
    proof {
        lemma_add_mod_noop_right(b as int, t, 256);
        if acc + b < 256 {
            lemma_small_mod((acc + b) as nat, 256);
        } else {
            lemma_mod_sub_multiples_vanish((acc + b) as int, 256);
            lemma_small_mod((acc + b - 256) as nat, 256);
        }
    }
    r
}

impl Reader {
    /// Consume raw bytes up to and including the next `:` start-of-record
    /// marker. Reports whether a marker was found; without one the whole
    /// input has been consumed.
    fn seek_record_start(&mut self) -> (found: bool)
        requires
            old(self).wf(),
        ensures
            final(self).wf(),
            final(self).bytes() == old(self).bytes(),
            match seek_colon(old(self).bytes(), old(self).pos()) {
                None => !found && final(self).pos() == old(self).bytes().len(),
                Some(j) => found && final(self).pos() == j + 1,
            },
    {
        let ghost s = old(self).bytes();
        let ghost i0 = old(self).pos();
        loop
            invariant_except_break
                seek_colon(s, i0) == seek_colon(s, self.pos()),
            invariant
                self.wf(),
                self.bytes() == s,
                s == old(self).bytes(),
                i0 == old(self).pos(),
            ensures
                self.wf(),
                self.bytes() == s,
                seek_colon(s, i0) is Some,
                self.pos() == seek_colon(s, i0)->Some_0 + 1,
            decreases s.len() - self.pos(),
        {
            let c = match self.read_char() {
                Some(c) => c,
                None => {
                    return false;
                },
            };
            if c == ':' as u8 {
                break;
            }
        }
        true
    }

    /// Decode the next record: skip to the next `:` marker, then read
    /// length, address, type, payload and checksum as hex bytes.
    ///
    /// `EndOfInput` reports that the input ran out before any marker
    /// (the normal end of a record stream); `Malformed` reports a
    /// record that is truncated, contains a non-hex character, or
    /// fails its checksum.
    #[verifier::loop_isolation(false)]
    #[verifier::rlimit(60)]
    pub fn read_line(&mut self) -> (r: Result<Record, RecordError>)
        requires
            old(self).wf(),
        ensures
            final(self).wf(),
            final(self).bytes() == old(self).bytes(),
            match seek_colon(old(self).bytes(), old(self).pos()) {
                None => r == Err::<Record, RecordError>(RecordError::EndOfInput)
                    && final(self).pos() == old(self).bytes().len(),
                Some(j) => match parse_after_colon(old(self).bytes(), j) {
                    None => r == Err::<Record, RecordError>(RecordError::Malformed),
                    Some(rec) => {
                        &&& r is Ok
                        &&& r->Ok_0.addr == rec.0
                        &&& r->Ok_0.kind == rec.1
                        &&& r->Ok_0.data@ == rec.2
                        &&& final(self).pos() == rec.3
                    },
                },
            },
    {
        let ghost s = old(self).bytes();
        let ghost i0 = old(self).pos();

        let found = self.seek_record_start();
        if !found {
            return Err(RecordError::EndOfInput);
        }
        let ghost j = seek_colon(s, i0)->Some_0;
        proof {
            lemma_seek_colon_some(s, i0);
        }

        let len = match self.read_byte() {
            Some(v) => v,
            None => {
                return Err(RecordError::Malformed);
            },
        };
        let mut sum: u8 = len;
        proof {
            lemma_small_mod(len as nat, 256);
        }

        let b1 = match self.read_byte() {
            Some(v) => v,
            None => {
                return Err(RecordError::Malformed);
            },
        };
        sum = checksum_add(sum, b1, Ghost(len as int));

        let b2 = match self.read_byte() {
            Some(v) => v,
            None => {
                return Err(RecordError::Malformed);
            },
        };
        sum = checksum_add(sum, b2, Ghost(len + b1 as int));

        let addr: u16 = (b1 as u16) * 256 + (b2 as u16);

        let kind = match self.read_byte() {
            Some(v) => v,
            None => {
                return Err(RecordError::Malformed);
            },
        };
        sum = checksum_add(sum, kind, Ghost(len + b1 + b2 as int));

        let ghost pstart = self.pos();
        let mut payload: Vec<u8> = Vec::new();
        let mut k: usize = 0;
        proof {
            assert(Seq::<u8>::empty() + spec_hex_bytes(s, pstart, len as nat)->Some_0
                =~= spec_hex_bytes(s, pstart, len as nat)->Some_0);
        }
        while k < len as usize
            invariant
                self.wf(),
                self.bytes() == s,
                k <= len as usize,
                payload@.len() == k,
                pstart == j + 9,
                self.pos() == pstart + 2 * k,
                self.pos() <= s.len(),
                spec_hex_bytes(s, pstart, len as nat) == prepend_decoded(
                    payload@,
                    spec_hex_bytes(s, self.pos(), (len as nat - k) as nat),
                ),
                sum == (len + b1 + b2 + kind + sum_bytes(payload@)) % 256,
            decreases len as usize - k,
        {
            let ghost pos0 = self.pos();
            let b = match self.read_byte() {
                Some(v) => v,
                None => {
                    proof {
                        assert(spec_hex_bytes(s, pos0, (len as nat - k) as nat) is None);
                    }
                    return Err(RecordError::Malformed);
                },
            };
            proof {
                lemma_hex_bytes_step(s, pos0, (len as nat - k) as nat, b);
                lemma_prepend_decoded_push(
                    payload@,
                    b,
                    spec_hex_bytes(s, pos0 + 2, (len as nat - k - 1) as nat),
                );
                lemma_sum_bytes_push(payload@, b);
                lemma_sum_bytes_nonneg(payload@);
            }
            sum = checksum_add(sum, b, Ghost(len + b1 + b2 + kind + sum_bytes(payload@)));
            payload.push(b);
            k = k + 1;
        }
        proof {
            assert(payload@ + Seq::<u8>::empty() =~= payload@);
        }

        let chk = match self.read_byte() {
            Some(v) => v,
            None => {
                return Err(RecordError::Malformed);
            },
        };
        proof {
            lemma_sum_bytes_nonneg(payload@);
        }
        sum = checksum_add(sum, chk, Ghost(len + b1 + b2 + kind + sum_bytes(payload@)));

        if sum == 0 {
            Ok(Record { addr, kind, data: payload })
        } else {
            Err(RecordError::Malformed)
        }
    }
}

} // verus!
