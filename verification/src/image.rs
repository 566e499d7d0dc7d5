//! Image assembler: folds a stream of records into a fixed-size memory
//! image, pre-filled with the unprogrammed sentinel value.

use vstd::prelude::*;

use vstd::pervasive::VecAdditionalExecFns;

use crate::reader::Reader;
use crate::record::RecordError;
use crate::record::lemma_parse_after_colon_some;
use crate::record::lemma_seek_colon_some;
use crate::record::parse_after_colon;
use crate::record::seek_colon;

verus! {

/// Capacity of the assembled memory image, in bytes.
pub const FLASH_SIZE: usize = 8192;

/// The sentinel value that unprogrammed image bytes keep.
pub const FILL_BYTE: u8 = 0xff;

/// Why assembly failed: the input ran out before an end-of-file record,
/// a record was corrupt, a record had a type outside the supported set,
/// or a data record reached past the end of the image.
#[derive(Clone, Copy, PartialEq, Eq, Structural, Debug)]
pub enum ImageError {
    PrematureEnd,
    MalformedRecord,
    UnsupportedRecordType,
    AddressOutOfRange,
}

/// The image with `payload` written at offset `addr` and every other
/// byte unchanged.
pub open spec fn write_payload(img: Seq<u8>, addr: int, payload: Seq<u8>) -> Seq<u8> {
    Seq::new(
        img.len(),
        |k: int|
            if addr <= k && k < addr + payload.len() {
                payload[k - addr]
            } else {
                img[k]
            },
    )
}

/// The image that remains after folding the records of `s` from
/// position `i` into `img`, record by record in file order: a data
/// record (type 0) copies its payload at its address, an end-of-file
/// record (type 1) stops assembly, a type-4 record is accepted and
/// ignored, and anything else is fatal. The fuel bounds the recursion;
/// a record consumes at least one input byte, so `s.len() + 1` units
/// always suffice (`lemma_assemble_fuel`).
pub open spec fn spec_assemble(s: Seq<u8>, i: int, img: Seq<u8>, fuel: nat) -> Result<
    Seq<u8>,
    ImageError,
>
    decreases fuel,
{
    if fuel == 0 {
        Err(ImageError::PrematureEnd)
    } else {
        match seek_colon(s, i) {
            None => Err(ImageError::PrematureEnd),
            Some(j) => match parse_after_colon(s, j) {
                None => Err(ImageError::MalformedRecord),
                Some(rec) => if rec.1 == 4 {
                    spec_assemble(s, rec.3, img, (fuel - 1) as nat)
                } else if rec.1 == 1 {
                    Ok(img)
                } else if rec.1 == 0 {
                    if rec.0 + rec.2.len() <= img.len() {
                        spec_assemble(
                            s,
                            rec.3,
                            write_payload(img, rec.0 as int, rec.2),
                            (fuel - 1) as nat,
                        )
                    } else {
                        Err(ImageError::AddressOutOfRange)
                    }
                } else {
                    Err(ImageError::UnsupportedRecordType)
                },
            },
        }
    }
}

/// The memory image every assembly starts from: `FLASH_SIZE` bytes of
/// the sentinel fill value.
pub open spec fn initial_image() -> Seq<u8> {
    Seq::new(FLASH_SIZE as nat, |k: int| FILL_BYTE)
}

/// The outcome of converting the input bytes `s` from position `i`:
/// the assembled image, or the first fatal failure.
pub open spec fn spec_convert(s: Seq<u8>, i: int) -> Result<Seq<u8>, ImageError> {
    spec_assemble(s, i, initial_image(), (s.len() + 1) as nat)
}

/// The assembly outcome does not depend on the fuel, as long as the
/// fuel exceeds the number of input bytes left.
pub proof fn lemma_assemble_fuel(s: Seq<u8>, i: int, img: Seq<u8>, f1: nat, f2: nat)
    requires
        f1 > s.len() - i,
        f2 > s.len() - i,
    ensures
        spec_assemble(s, i, img, f1) == spec_assemble(s, i, img, f2),
    decreases f1 + f2,
{
    match seek_colon(s, i) {
        None => {},
        Some(j) => {
            lemma_seek_colon_some(s, i);
            match parse_after_colon(s, j) {
                None => {},
                Some(rec) => {
                    lemma_parse_after_colon_some(s, j);
                    if rec.1 == 4 {
                        lemma_assemble_fuel(s, rec.3, img, (f1 - 1) as nat, (f2 - 1) as nat);
                    } else if rec.1 == 0 && rec.0 + rec.2.len() <= img.len() {
                        lemma_assemble_fuel(
                            s,
                            rec.3,
                            write_payload(img, rec.0 as int, rec.2),
                            (f1 - 1) as nat,
                            (f2 - 1) as nat,
                        );
                    }
                },
            }
        },
    }
}

impl Reader {
    /// Drive the record decoder to the end-of-file record and return
    /// the assembled memory image: data records copy their payload at
    /// their address over the sentinel fill, type-4 records are
    /// accepted and ignored, and any other record type, a corrupt
    /// record, a data record reaching past the image, or input that
    /// runs out before the end-of-file record is a fatal failure.
    #[verifier::loop_isolation(false)]
    pub fn read(&mut self) -> (r: Result<Vec<u8>, ImageError>)
        requires
            old(self).wf(),
        ensures
            final(self).wf(),
            final(self).bytes() == old(self).bytes(),
            match spec_convert(old(self).bytes(), old(self).pos()) {
                Ok(img) => r is Ok && r->Ok_0@ == img,
                Err(e) => r == Err::<Vec<u8>, ImageError>(e),
            },
    {
        let ghost s = old(self).bytes();
        let ghost i0 = old(self).pos();
        let ghost f = (s.len() + 1) as nat;

        let mut result: Vec<u8> = Vec::new();
        let mut n: usize = 0;
        while n < FLASH_SIZE
            invariant
                n <= FLASH_SIZE,
                result@.len() == n,
                forall|k: int| 0 <= k < n ==> result@[k] == FILL_BYTE,
            decreases FLASH_SIZE - n,
        {
            result.push(FILL_BYTE);
            n = n + 1;
        }
        proof {
            assert(result@ =~= initial_image());
        }

        loop
            invariant
                self.wf(),
                self.bytes() == s,
                result@.len() == FLASH_SIZE,
                spec_assemble(s, self.pos(), result@, f) == spec_convert(s, i0),
            decreases s.len() - self.pos(),
        {
            let ghost prev = *self;
            let ghost img_prev = result@;
            match self.read_line() {
                Err(RecordError::EndOfInput) => {
                    return Err(ImageError::PrematureEnd);
                },
                Err(RecordError::Malformed) => {
                    return Err(ImageError::MalformedRecord);
                },
                Ok(rec) => {
                    let ghost j = seek_colon(s, prev.pos())->Some_0;
                    proof {
                        lemma_seek_colon_some(s, prev.pos());
                        lemma_parse_after_colon_some(s, j);
                    }
                    if rec.kind == 4 {
                        proof {
                            lemma_assemble_fuel(s, self.pos(), result@, (f - 1) as nat, f);
                        }
                    } else if rec.kind == 1 {
                        return Ok(result);
                    } else if rec.kind == 0 {
                        if rec.addr as usize + rec.data.len() > result.len() {
                            return Err(ImageError::AddressOutOfRange);
                        }
                        let mut idx: usize = 0;
                        while idx < rec.data.len()
                            invariant
                                idx <= rec.data.len(),
                                result@.len() == FLASH_SIZE,
                                rec.addr as int + rec.data@.len() <= FLASH_SIZE,
                                forall|k: int|
                                    rec.addr <= k < rec.addr + idx ==> result@[k] == rec.data@[k
                                        - rec.addr],
                                forall|k: int|
                                    0 <= k < FLASH_SIZE && !(rec.addr <= k < rec.addr + idx)
                                        ==> result@[k] == img_prev[k],
                            decreases rec.data@.len() - idx,
                        {
                            result.set(rec.addr as usize + idx, rec.data[idx]);
                            idx = idx + 1;
                        }
                        proof {
                            assert(result@ =~= write_payload(img_prev, rec.addr as int, rec.data@));
                            lemma_assemble_fuel(s, self.pos(), result@, (f - 1) as nat, f);
                        }
                    } else {
                        return Err(ImageError::UnsupportedRecordType);
                    }
                },
            }
        }
    }
}

/// An end-of-file record stops assembly at once and leaves the image
/// as it stands; a file whose first record is end-of-file therefore
/// keeps every byte at the sentinel fill.
pub proof fn lemma_eof_record_stops(s: Seq<u8>, i: int, img: Seq<u8>, fuel: nat)
    requires
        fuel > 0,
        seek_colon(s, i) is Some,
        parse_after_colon(s, seek_colon(s, i)->Some_0) is Some,
        parse_after_colon(s, seek_colon(s, i)->Some_0)->Some_0.1 == 1,
    ensures
        spec_assemble(s, i, img, fuel) == Ok::<Seq<u8>, ImageError>(img),
{
}

/// A record of a type outside the supported set {0, 1, 4} that
/// assembly reaches is a fatal failure, never a silently skipped
/// record.
pub proof fn lemma_unsupported_type_is_fatal(s: Seq<u8>, i: int, img: Seq<u8>, fuel: nat)
    requires
        fuel > 0,
        seek_colon(s, i) is Some,
        parse_after_colon(s, seek_colon(s, i)->Some_0) is Some,
        parse_after_colon(s, seek_colon(s, i)->Some_0)->Some_0.1 != 0,
        parse_after_colon(s, seek_colon(s, i)->Some_0)->Some_0.1 != 1,
        parse_after_colon(s, seek_colon(s, i)->Some_0)->Some_0.1 != 4,
    ensures
        spec_assemble(s, i, img, fuel) == Err::<Seq<u8>, ImageError>(
            ImageError::UnsupportedRecordType,
        ),
{
}

/// A data record with address `addr` and payload `payload` writes
/// `payload[i]` to image offset `addr + i` for every `i`, and leaves
/// every byte outside that range untouched.
pub proof fn lemma_write_payload(img: Seq<u8>, addr: int, payload: Seq<u8>)
    ensures
        write_payload(img, addr, payload).len() == img.len(),
        forall|i: int|
            0 <= i < payload.len() && 0 <= addr + i < img.len() ==> write_payload(
                img,
                addr,
                payload,
            )[addr + i] == payload[i],
        forall|k: int|
            0 <= k < img.len() && !(addr <= k < addr + payload.len()) ==> write_payload(
                img,
                addr,
                payload,
            )[k] == img[k],
{
}

/// Two data records applied in sequence: wherever the later record
/// writes, its byte wins; wherever only the earlier record writes, its
/// byte stays; everywhere else the image is untouched. Records at
/// disjoint address ranges therefore never interfere, and overlapping
/// ranges resolve in file order.
pub proof fn lemma_two_data_records(
    img: Seq<u8>,
    addr1: int,
    payload1: Seq<u8>,
    addr2: int,
    payload2: Seq<u8>,
)
    ensures
        forall|k: int|
            0 <= k < img.len() && addr2 <= k < addr2 + payload2.len() ==> write_payload(
                write_payload(img, addr1, payload1),
                addr2,
                payload2,
            )[k] == payload2[k - addr2],
        forall|k: int|
            0 <= k < img.len() && addr1 <= k < addr1 + payload1.len() && !(addr2 <= k < addr2
                + payload2.len()) ==> write_payload(
                write_payload(img, addr1, payload1),
                addr2,
                payload2,
            )[k] == payload1[k - addr1],
        forall|k: int|
            0 <= k < img.len() && !(addr1 <= k < addr1 + payload1.len()) && !(addr2 <= k < addr2
                + payload2.len()) ==> write_payload(
                write_payload(img, addr1, payload1),
                addr2,
                payload2,
            )[k] == img[k],
{
}

} // verus!
