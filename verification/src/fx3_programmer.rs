//! Firmware image parsing, checksum validation, and chunked control-write
//! planning for loading executable firmware into device RAM.
//!
//! An image is an ordered sequence of segments, each a load address plus a
//! payload whose length is a multiple of four, terminated by a sentinel
//! segment of payload length zero whose address field is the entry address,
//! and followed by one trailing little-endian 32-bit expected checksum.
//! The checksum is the wrap-around sum of every little-endian 32-bit word
//! of every payload, in order; an image whose trailing value differs is
//! rejected and must never be jumped to.
//!
//! The USB control transfers that carry the payloads to the device are
//! issued by the caller; [`ChunkedWrite`] plans them, splitting one logical
//! write at the device's 4096-byte control-transfer limit and advancing by
//! the byte count each transfer actually reported.

use vstd::prelude::*;

verus! {

use crate::words::le_value;
use crate::words::lemma_le_value_bound;
use crate::words::decode_word;
use vstd::arithmetic::div_mod::lemma_add_mod_noop;
use vstd::arithmetic::div_mod::lemma_small_mod;
use vstd::arithmetic::div_mod::lemma_fundamental_div_mod;
use vstd::slice::slice_subrange;
use vstd::slice::slice_to_vec;

/// Why a firmware image was rejected.
///
/// Transport failures of the USB layer are reported separately by the
/// caller that owns the device handle; every kind here is decided by the
/// image bytes alone and is fatal to the current load attempt.
#[derive(Debug, Clone, Copy, PartialEq, Eq, Structural)]
pub enum Error {
    /// The image does not begin with the ASCII magic "CY".
    MissingMagic,
    /// The low bit of the third header byte is set: the image holds no
    /// executable code.
    NotExecutable,
    /// The fourth header byte is not the marker of a normal firmware
    /// binary with a checksum.
    AbnormalFirmware,
    /// The accumulated checksum differs from the trailing expected value.
    InvalidChecksum,
    /// A header field or a payload runs past the end of the image.
    TruncatedData,
}

/// The wrap-around modulus of the 32-bit checksum accumulator.
pub const CHECKSUM_MODULUS: u64 = 0x1_0000_0000;

/// Sum of the little-endian 32-bit words of `data`, without wrap-around.
pub open spec fn sum_words(data: Seq<u8>) -> int
    decreases data.len(),
{
    if data.len() < 4 {
        0
    } else {
        le_value(data.take(4)) + sum_words(data.skip(4))
    }
}

pub proof fn lemma_sum_words_nonneg(data: Seq<u8>)
    ensures
        0 <= sum_words(data),
    decreases data.len(),
{
    if data.len() < 4 {
    } else {
        lemma_le_value_bound(data.take(4));
        lemma_sum_words_nonneg(data.skip(4));
    }
}

/// 32-bit checksum accumulator: wrap-around addition of every
/// little-endian 32-bit word folded into it.
pub struct Checksum {
    pub value: u32,
}

impl Checksum {
    pub fn new() -> (r: Checksum)
        ensures
            r.value == 0,
    {
        Checksum { value: 0 }
    }

    /// Folds every 32-bit little-endian word of `data` into the
    /// accumulator with wrap-around addition.
    pub fn update(&mut self, data: &[u8]) -> (r: Result<(), Error>)
        requires
            data@.len() % 4 == 0,
        ensures
            r is Ok,
            final(self).value == (old(self).value + sum_words(data@)) % (CHECKSUM_MODULUS as int),
    {
        let ghost v0 = self.value;
        let len = data.len();
        let mut offset: usize = 0;
        proof {
            assert(data@.skip(0) =~= data@);
            lemma_sum_words_nonneg(data@);
            lemma_small_mod(v0 as nat, CHECKSUM_MODULUS as nat);
            lemma_add_mod_noop(v0 as int, sum_words(data@), CHECKSUM_MODULUS as int);
        }
        while 4 <= len - offset
            invariant
                len == data@.len(),
                0 <= offset <= len,
                offset % 4 == 0,
                len % 4 == 0,
                self.value < CHECKSUM_MODULUS,
                (self.value + sum_words(data@.skip(offset as int))) % (CHECKSUM_MODULUS as int)
                    == (v0 + sum_words(data@)) % (CHECKSUM_MODULUS as int),
            decreases len - offset,
        {
            let word = decode_word(data, offset, 4);
            let ghost rest = data@.skip(offset as int);
            proof {
                assert(rest.take(4) =~= data@.subrange(offset as int, offset + 4));
                assert(rest.skip(4) =~= data@.skip(offset + 4));
                assert(sum_words(rest) == le_value(rest.take(4)) + sum_words(rest.skip(4)));
                lemma_sum_words_nonneg(rest.skip(4));
                let m = CHECKSUM_MODULUS as int;
                let next = (self.value + word) as int;
                lemma_add_mod_noop(next, sum_words(rest.skip(4)), m);
                lemma_add_mod_noop(next % m, sum_words(rest.skip(4)), m);
                lemma_small_mod(((next % m) % m) as nat, CHECKSUM_MODULUS as nat);
                lemma_small_mod((next % m) as nat, CHECKSUM_MODULUS as nat);
            }
            self.value = (((self.value as u64) + (word as u64)) % CHECKSUM_MODULUS) as u32;
            offset = offset + 4;
        }
        proof {
            assert(offset == len) by {
                lemma_fundamental_div_mod(offset as int, 4);
                lemma_fundamental_div_mod(len as int, 4);
            }
            assert(data@.skip(offset as int).len() < 4);
            lemma_small_mod(self.value as nat, CHECKSUM_MODULUS as nat);
        }
        Ok(())
    }
}

/// Ghost-level model of one firmware segment: payload bytes to be
/// written to device RAM starting at `address`.
pub struct SegmentModel {
    pub address: u32,
    pub data: Seq<u8>,
}

/// One firmware segment held in memory.
#[derive(Debug)]
pub struct Segment {
    pub address: u32,
    pub data: Vec<u8>,
}

impl View for Segment {
    type V = SegmentModel;

    open spec fn view(&self) -> SegmentModel {
        SegmentModel { address: self.address, data: self.data@ }
    }
}

/// Ghost-level model of a parsed firmware image.
pub struct ImageModel {
    pub segments: Seq<SegmentModel>,
    pub entry_address: u32,
    pub checksum: u32,
}

/// A validated firmware image: its segments in load order, the entry
/// address taken from the sentinel segment, and the trailing checksum,
/// which the segment payloads have been checked to match.
#[derive(Debug)]
pub struct FirmwareImage {
    pub segments: Vec<Segment>,
    pub entry_address: u32,
    pub checksum: u32,
}

impl View for FirmwareImage {
    type V = ImageModel;

    open spec fn view(&self) -> ImageModel {
        ImageModel {
            segments: self.segments@.map(|i: int, s: Segment| s@),
            entry_address: self.entry_address,
            checksum: self.checksum,
        }
    }
}

pub open spec fn seg_views(v: Seq<Segment>) -> Seq<SegmentModel> {
    v.map(|i: int, s: Segment| s@)
}

/// The segment list encoded at `offset`: repeated (word count, address)
/// headers, each followed by `4 * count` payload bytes, up to the
/// sentinel of count zero whose address field is the entry address.
/// Returns the segments, the entry address, and the offset just past the
/// sentinel.
pub open spec fn spec_parse_segments(bytes: Seq<u8>, offset: int) -> Result<
    (Seq<SegmentModel>, u32, int),
    Error,
>
    decreases bytes.len() - offset,
{
    if offset < 0 || offset + 8 > bytes.len() {
        Err(Error::TruncatedData)
    } else {
        let words = le_value(bytes.subrange(offset, offset + 4));
        let address = le_value(bytes.subrange(offset + 4, offset + 8)) as u32;
        if words <= 0 {
            Ok((Seq::empty(), address, offset + 8))
        } else if offset + 8 + 4 * words > bytes.len() {
            Err(Error::TruncatedData)
        } else {
            let data = bytes.subrange(offset + 8, offset + 8 + 4 * words);
            match spec_parse_segments(bytes, offset + 8 + 4 * words) {
                Ok((segs, entry, end)) => Ok(
                    (seq![SegmentModel { address, data }] + segs, entry, end),
                ),
                Err(e) => Err(e),
            }
        }
    }
}

/// Sum of all 32-bit words of all segment payloads, in order.
pub open spec fn segments_sum(segs: Seq<SegmentModel>) -> int
    decreases segs.len(),
{
    if segs.len() == 0 {
        0
    } else {
        sum_words(segs[0].data) + segments_sum(segs.skip(1))
    }
}

pub proof fn lemma_segments_sum_nonneg(segs: Seq<SegmentModel>)
    ensures
        0 <= segments_sum(segs),
    decreases segs.len(),
{
    if segs.len() == 0 {
    } else {
        lemma_sum_words_nonneg(segs[0].data);
        lemma_segments_sum_nonneg(segs.skip(1));
    }
}

/// The image format: the ASCII magic "CY", an executable-image flag, the
/// checksummed-binary marker, the segment list, and the trailing
/// expected checksum, which must equal the wrap-around sum of all
/// payload words for the image to be accepted.
pub open spec fn spec_parse_image(bytes: Seq<u8>) -> Result<ImageModel, Error> {
    if bytes.len() < 4 {
        Err(Error::TruncatedData)
    } else if bytes[0] != 0x43 || bytes[1] != 0x59 {
        Err(Error::MissingMagic)
    } else if bytes[2] % 2 != 0 {
        Err(Error::NotExecutable)
    } else if bytes[3] != 0xb0 {
        Err(Error::AbnormalFirmware)
    } else {
        match spec_parse_segments(bytes, 4) {
            Err(e) => Err(e),
            Ok((segs, entry, end)) => if end + 4 > bytes.len() {
                Err(Error::TruncatedData)
            } else {
                let expected = le_value(bytes.subrange(end, end + 4)) as u32;
                if segments_sum(segs) % (CHECKSUM_MODULUS as int) != expected {
                    Err(Error::InvalidChecksum)
                } else {
                    Ok(ImageModel { segments: segs, entry_address: entry, checksum: expected })
                }
            },
        }
    }
}

/// An accepted image always satisfies the checksum invariant: the
/// wrap-around sum of its segment payload words equals the trailing
/// expected checksum.  Rejection on mismatch is `Error::InvalidChecksum`.
pub proof fn lemma_accepted_image_checksum(bytes: Seq<u8>)
    ensures
        spec_parse_image(bytes) matches Ok(m) ==> segments_sum(m.segments) % (
        CHECKSUM_MODULUS as int) == m.checksum,
{
}

fn parse_segments(program: &[u8], offset: usize, segs: &mut Vec<Segment>, ck: &mut Checksum) -> (r:
    Result<(u32, usize), Error>)
    requires
        offset <= program@.len(),
    ensures
        match (r, spec_parse_segments(program@, offset as int)) {
            (Ok((entry, end)), Ok(m)) => {
                &&& entry == m.1
                &&& end == m.2
                &&& offset <= end <= program@.len()
                &&& seg_views(final(segs)@) == seg_views(old(segs)@) + m.0
                &&& final(ck).value == (old(ck).value + segments_sum(m.0)) % (
                CHECKSUM_MODULUS as int)
            },
            (Err(e), Err(me)) => e == me,
            _ => false,
        },
    decreases program@.len() - offset,
{
    let len = program.len();
    if len - offset < 8 {
        return Err(Error::TruncatedData);
    }
    let words = decode_word(program, offset, 4);
    let address = decode_word(program, offset + 4, 4);
    proof {
        lemma_le_value_bound(program@.subrange(offset as int, offset + 4));
    }
    if words == 0 {
        proof {
            assert(seg_views(segs@) + Seq::<SegmentModel>::empty() =~= seg_views(segs@));
            lemma_small_mod(ck.value as nat, CHECKSUM_MODULUS as nat);
        }
        return Ok((address, offset + 8));
    }
    let avail = len - offset - 8;
    if (avail as u64) < (words as u64) * 4 {
        return Err(Error::TruncatedData);
    }
    let byte_len = (words as usize) * 4;
    let data = slice_to_vec(slice_subrange(program, offset + 8, offset + 8 + byte_len));
    proof {
        vstd::arithmetic::div_mod::lemma_mod_multiples_basic(words as int, 4);
    }
    let ghost ck0 = ck.value;
    let _ = ck.update(data.as_slice());
    let ghost seg_model = SegmentModel { address, data: data@ };
    segs.push(Segment { address, data });
    let ghost segs1 = segs@;
    match parse_segments(program, offset + 8 + byte_len, segs, ck) {
        Err(e) => Err(e),
        Ok((entry, end)) => {
            proof {
                let bytes = program@;
                let m = spec_parse_segments(bytes, offset + 8 + 4 * (words as int));
                let rest = m->Ok_0.0;
                assert(seg_views(segs1) =~= seg_views(segs1.drop_last()).push(seg_model));
                assert(seg_views(segs1.drop_last()).push(seg_model) + rest =~= seg_views(
                    segs1.drop_last(),
                ) + (seq![seg_model] + rest));
                assert(segs1.drop_last() =~= old(segs)@);
                assert((seq![seg_model] + rest).skip(1) =~= rest);
                lemma_sum_words_nonneg(seg_model.data);
                lemma_segments_sum_nonneg(rest);
                let mm = CHECKSUM_MODULUS as int;
                lemma_add_mod_noop(ck0 + sum_words(seg_model.data), segments_sum(rest), mm);
                lemma_add_mod_noop(
                    (ck0 + sum_words(seg_model.data)) % mm,
                    segments_sum(rest),
                    mm,
                );
                lemma_small_mod(
                    (((ck0 + sum_words(seg_model.data)) % mm) % mm) as nat,
                    CHECKSUM_MODULUS as nat,
                );
                lemma_small_mod(
                    ((ck0 + sum_words(seg_model.data)) % mm) as nat,
                    CHECKSUM_MODULUS as nat,
                );
            }
            Ok((entry, end))
        },
    }
}

/// Parses and validates a firmware image.
///
/// Every violation of the format is reported as the matching error kind;
/// an image is returned only when its trailing checksum equals the
/// wrap-around sum of all segment payload words, so a returned image may
/// be loaded and jumped to.
pub fn parse_image(program: &[u8]) -> (r: Result<FirmwareImage, Error>)
    ensures
        match (r, spec_parse_image(program@)) {
            (Ok(img), Ok(m)) => img@ == m,
            (Err(e), Err(me)) => e == me,
            _ => false,
        },
{
    let len = program.len();
    if len < 4 {
        return Err(Error::TruncatedData);
    }
    if program[0] != 0x43 || program[1] != 0x59 {
        return Err(Error::MissingMagic);
    }
    if program[2] % 2 != 0 {
        return Err(Error::NotExecutable);
    }
    if program[3] != 0xb0 {
        return Err(Error::AbnormalFirmware);
    }
    let mut segs: Vec<Segment> = Vec::new();
    let mut ck = Checksum::new();
    match parse_segments(program, 4, &mut segs, &mut ck) {
        Err(e) => Err(e),
        Ok((entry_address, end)) => {
            let ghost m = spec_parse_segments(program@, 4)->Ok_0;
            proof {
                assert(seg_views(Seq::<Segment>::empty()) =~= Seq::<SegmentModel>::empty());
                assert(Seq::<SegmentModel>::empty() + m.0 =~= m.0);
                lemma_segments_sum_nonneg(m.0);
                lemma_small_mod(ck.value as nat, CHECKSUM_MODULUS as nat);
            }
            if len - end < 4 {
                return Err(Error::TruncatedData);
            }
            let expected = decode_word(program, end, 4);
            proof {
                lemma_le_value_bound(program@.subrange(end as int, end + 4));
            }
            if ck.value != expected {
                return Err(Error::InvalidChecksum);
            }
            Ok(FirmwareImage { segments: segs, entry_address, checksum: expected })
        },
    }
}

/// The device accepts at most this many bytes per control OUT transfer.
pub const MAX_CHUNK: u32 = 4096;

/// Planner for one logical write of a payload to consecutive device
/// addresses, split at the control-transfer size limit.
///
/// The caller issues one control transfer per chunk and feeds back the
/// byte count the transfer actually reported, which may be less than was
/// requested; the address and offset cursors advance by that count, so a
/// partial write never corrupts the target address of the next chunk.
pub struct ChunkedWrite {
    /// Target device address of the next chunk.
    pub address: u32,
    /// Payload bytes acknowledged so far.
    pub offset: u32,
    /// Total payload length in bytes.
    pub total: u32,
}

impl ChunkedWrite {
    /// The cursors stay inside the payload and the address range stays
    /// representable.
    pub open spec fn wf(&self) -> bool {
        &&& self.offset <= self.total
        &&& self.address + (self.total - self.offset) <= u32::MAX
    }

    /// Bytes not yet acknowledged.
    pub open spec fn spec_remaining(&self) -> int {
        self.total - self.offset
    }

    /// Length of the next control transfer: all remaining bytes, capped
    /// at the transfer size limit.
    pub open spec fn spec_chunk_len(&self) -> int {
        if self.spec_remaining() > MAX_CHUNK {
            MAX_CHUNK as int
        } else {
            self.spec_remaining()
        }
    }

    pub fn begin(address: u32, total: u32) -> (w: ChunkedWrite)
        requires
            address + total <= u32::MAX,
        ensures
            w.wf(),
            w.address == address,
            w.offset == 0,
            w.total == total,
    {
        ChunkedWrite { address, offset: 0, total }
    }

    /// Whether every payload byte has been acknowledged.
    pub fn done(&self) -> (r: bool)
        ensures
            r == (self.offset == self.total),
    {
        self.offset == self.total
    }

    pub fn remaining(&self) -> (r: u32)
        requires
            self.wf(),
        ensures
            r == self.spec_remaining(),
    {
        self.total - self.offset
    }

    pub fn chunk_len(&self) -> (r: u32)
        requires
            self.wf(),
        ensures
            r == self.spec_chunk_len(),
    {
        let rem = self.total - self.offset;
        if rem > MAX_CHUNK {
            MAX_CHUNK
        } else {
            rem
        }
    }

    /// Acknowledges `written` bytes: both the device address and the
    /// payload offset advance by exactly the reported count.
    pub fn advance(&mut self, written: u32)
        requires
            old(self).wf(),
            written <= old(self).spec_remaining(),
        ensures
            final(self).wf(),
            *final(self) == spec_advance(*old(self), written),
            final(self).address == old(self).address + written,
            final(self).offset == old(self).offset + written,
            final(self).total == old(self).total,
    {
        self.address = self.address + written;
        self.offset = self.offset + written;
    }
}

/// The state after one acknowledged transfer of `written` bytes.
pub open spec fn spec_advance(w: ChunkedWrite, written: u32) -> ChunkedWrite {
    ChunkedWrite {
        address: (w.address + written) as u32,
        offset: (w.offset + written) as u32,
        total: w.total,
    }
}

/// The state after a whole sequence of acknowledged transfer counts.
pub open spec fn spec_run(w: ChunkedWrite, counts: Seq<u32>) -> ChunkedWrite
    decreases counts.len(),
{
    if counts.len() == 0 {
        w
    } else {
        spec_run(spec_advance(w, counts[0]), counts.skip(1))
    }
}

/// Each acknowledged count fits in what remains at that point.
pub open spec fn counts_valid(w: ChunkedWrite, counts: Seq<u32>) -> bool
    decreases counts.len(),
{
    counts.len() == 0 || (counts[0] <= w.spec_remaining() && counts_valid(
        spec_advance(w, counts[0]),
        counts.skip(1),
    ))
}

pub open spec fn sum_counts(counts: Seq<u32>) -> int
    decreases counts.len(),
{
    if counts.len() == 0 {
        0
    } else {
        counts[0] + sum_counts(counts.skip(1))
    }
}

/// Over any run of acknowledged transfers, the target address and the
/// payload offset advance by exactly the sum of the reported byte
/// counts, and the write is complete precisely when that sum equals the
/// whole payload length.
pub proof fn lemma_chunked_write_run(w: ChunkedWrite, counts: Seq<u32>)
    requires
        w.wf(),
        counts_valid(w, counts),
    ensures
        spec_run(w, counts).wf(),
        spec_run(w, counts).address == w.address + sum_counts(counts),
        spec_run(w, counts).offset == w.offset + sum_counts(counts),
        spec_run(w, counts).total == w.total,
        (spec_run(w, counts).offset == w.total) <==> (sum_counts(counts) == w.spec_remaining()),
    decreases counts.len(),
{
    if counts.len() == 0 {
    } else {
        lemma_chunked_write_run(spec_advance(w, counts[0]), counts.skip(1));
    }
}

/// Splits a device RAM address into the value and index fields of the
/// firmware-write control transfer: the low 16 bits go in the value
/// field, the high 16 bits in the index field.
pub fn address_fields(address: u32) -> (r: (u16, u16))
    ensures
        r.0 == address % 0x10000,
        r.1 == address / 0x10000,
        r.0 + 0x10000 * r.1 == address,
{
    let value = (address & 0xffff) as u16;
    let index = (address >> 16) as u16;
    proof {
        assert((address & 0xffff) == address % 0x10000) by (bit_vector);
        assert((address >> 16) == address / 0x10000) by (bit_vector);
        assert(address % 0x10000 + 0x10000 * (address / 0x10000) == address) by {
            lemma_fundamental_div_mod(address as int, 0x10000);
        }
    }
    (value, index)
}

} // verus!
