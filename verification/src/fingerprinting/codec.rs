//! The portable form of a signature: a tagged binary payload with the peaks of each
//! band behind their count.
//!
//! All numbers are little-endian. The payload is a header of seven 32-bit words (the
//! tag, the sample rate, the number of samples and the peak count of each band, lowest
//! band first) and then the peaks band by band, eight bytes each: the pass number in
//! 32 bits, the magnitude and the corrected bin in 16 bits each.

use vstd::prelude::*;
use crate::fingerprinting::signature_format::{
    DecodedSignature, FrequencyPeak, SignatureModel, BAND_COUNT,
};

verus! {

/// The tag that opens every payload; it names the format and its version.
pub const FORMAT_TAG: u32 = 0x3147_4953;

/// Bytes in the header.
pub const HEADER_SIZE: usize = 28;

/// Bytes in the record of one peak.
pub const RECORD_SIZE: usize = 8;

/// Why a payload is not a signature.
#[derive(Debug, Clone, Copy, PartialEq, Eq, Structural)]
pub enum DecodeError {
    /// The text does not open with the prefix of a signature.
    BadPrefix,
    /// Behind the prefix stands something else than pairs of hexadecimal digits.
    BadText,
    /// The payload is shorter than a header.
    Truncated,
    /// The payload does not open with the tag.
    BadTag,
    /// The payload is not as long as its peak counts say.
    BadLength,
}

/// Why a signature has no portable form.
#[derive(Debug, Clone, Copy, PartialEq, Eq, Structural)]
pub enum EncodeError {
    /// A band holds more peaks than a 32-bit count can say.
    TooManyPeaks,
}

/// Byte `k` of a 32-bit number, lowest first.
#[verifier::opaque]
pub open spec fn le_byte(x: u32, k: int) -> u8 {
    if k == 0 {
        (x % 256) as u8
    } else if k == 1 {
        (x / 0x100 % 256) as u8
    } else if k == 2 {
        (x / 0x1_0000 % 256) as u8
    } else {
        (x / 0x100_0000 % 256) as u8
    }
}

/// The four bytes of a 32-bit number, lowest first.
pub open spec fn u32_le(x: u32) -> Seq<u8> {
    seq![le_byte(x, 0), le_byte(x, 1), le_byte(x, 2), le_byte(x, 3)]
}

/// The two bytes of a 16-bit number, lowest first.
pub open spec fn u16_le(x: u16) -> Seq<u8> {
    seq![le_byte(x as u32, 0), le_byte(x as u32, 1)]
}

/// The 32-bit number whose bytes stand at an offset, lowest first.
#[verifier::opaque]
pub open spec fn read_u32(bytes: Seq<u8>, at: int) -> u32 {
    (bytes[at] as int + 0x100 * bytes[at + 1] as int + 0x1_0000 * bytes[at + 2] as int + 0x100_0000
        * bytes[at + 3] as int) as u32
}

/// The 16-bit number whose bytes stand at an offset, lowest first.
#[verifier::opaque]
pub open spec fn read_u16(bytes: Seq<u8>, at: int) -> u16 {
    (bytes[at] as int + 0x100 * bytes[at + 1] as int) as u16
}

/// The record of a peak.
pub open spec fn record_bytes(peak: FrequencyPeak) -> Seq<u8> {
    u32_le(peak.fft_pass_number) + u16_le(peak.peak_magnitude) + u16_le(
        peak.corrected_peak_frequency_bin,
    )
}

/// The records of the peaks of a band, one behind the other.
pub open spec fn records(peaks: Seq<FrequencyPeak>) -> Seq<u8>
    decreases peaks.len(),
{
    if peaks.len() == 0 {
        Seq::empty()
    } else {
        records(peaks.drop_last()) + record_bytes(peaks.last())
    }
}

/// The peak whose record stands at an offset.
pub open spec fn read_record(bytes: Seq<u8>, at: int) -> FrequencyPeak {
    FrequencyPeak {
        fft_pass_number: read_u32(bytes, at),
        peak_magnitude: read_u16(bytes, at + 4),
        corrected_peak_frequency_bin: read_u16(bytes, at + 6),
    }
}

/// The peaks whose records start at an offset, `count` of them.
pub open spec fn read_records(bytes: Seq<u8>, at: int, count: nat) -> Seq<FrequencyPeak> {
    Seq::new(count, |j: int| read_record(bytes, at + RECORD_SIZE * j))
}

impl SignatureModel {
    /// Every band's peak count fits in 32 bits.
    pub open spec fn encodable(self) -> bool {
        forall|b: int| 0 <= b < self.peaks.len() ==> (#[trigger] self.peaks[b]).len() <= u32::MAX
    }

    /// Word `w` of the header: the tag, the sample rate, the number of samples, then
    /// the peak count of each band.
    pub open spec fn header_word(self, w: int) -> u32 {
        if w == 0 {
            FORMAT_TAG
        } else if w == 1 {
            self.sample_rate_hz
        } else if w == 2 {
            self.number_samples
        } else {
            self.peaks[w - 3].len() as u32
        }
    }

    /// The header of the payload: seven words of four bytes each.
    pub open spec fn header(self) -> Seq<u8> {
        Seq::new(HEADER_SIZE as nat, |i: int| le_byte(self.header_word(i / 4), i % 4))
    }

    /// The payload of a signature.
    pub open spec fn payload(self) -> Seq<u8> {
        self.header() + records(self.peaks[0]) + records(self.peaks[1]) + records(self.peaks[2])
            + records(self.peaks[3])
    }
}

/// The peak count of a band as the header of a payload gives it.
pub open spec fn count_at(bytes: Seq<u8>, band: int) -> nat {
    read_u32(bytes, 12 + 4 * band) as nat
}

/// The peaks that a payload holds in the bands below a band, by its header.
pub open spec fn peaks_before(bytes: Seq<u8>, band: int) -> nat {
    (if band > 0 {
        count_at(bytes, 0)
    } else {
        0
    }) + (if band > 1 {
        count_at(bytes, 1)
    } else {
        0
    }) + (if band > 2 {
        count_at(bytes, 2)
    } else {
        0
    }) + (if band > 3 {
        count_at(bytes, 3)
    } else {
        0
    })
}

/// Where the records of a band start in a payload; for a band of four, where the
/// payload ends.
pub open spec fn records_start(bytes: Seq<u8>, band: int) -> int {
    HEADER_SIZE + RECORD_SIZE * peaks_before(bytes, band)
}

/// Whether bytes are the payload of a signature: they hold a whole header, open with
/// the tag, and are as long as the peak counts say.
pub open spec fn is_payload(bytes: Seq<u8>) -> bool {
    &&& bytes.len() >= HEADER_SIZE
    &&& read_u32(bytes, 0) == FORMAT_TAG
    &&& bytes.len() == records_start(bytes, BAND_COUNT as int)
}

/// The signature that a payload holds.
pub open spec fn signature_of(bytes: Seq<u8>) -> SignatureModel {
    SignatureModel {
        sample_rate_hz: read_u32(bytes, 4),
        number_samples: read_u32(bytes, 8),
        peaks: Seq::new(
            BAND_COUNT as nat,
            |b: int| read_records(bytes, records_start(bytes, b), count_at(bytes, b)),
        ),
    }
}

/// Reading the bytes of a 32-bit number gives the number back.
pub proof fn lemma_read_u32_of_bytes(bytes: Seq<u8>, at: int, x: u32)
    requires
        bytes[at] == le_byte(x, 0),
        bytes[at + 1] == le_byte(x, 1),
        bytes[at + 2] == le_byte(x, 2),
        bytes[at + 3] == le_byte(x, 3),
    ensures
        read_u32(bytes, at) == x,
{
    reveal(le_byte);
    reveal(read_u32);
    let v = x as int;
    assert(v == v % 256 + 0x100 * (v / 0x100 % 256) + 0x1_0000 * (v / 0x1_0000 % 256) + 0x100_0000
        * (v / 0x100_0000 % 256)) by {
        assert(v == 0x100 * (v / 0x100) + v % 0x100);
        assert(v / 0x100 == 0x100 * (v / 0x1_0000) + v / 0x100 % 0x100);
        assert(v / 0x1_0000 == 0x100 * (v / 0x100_0000) + v / 0x1_0000 % 0x100);
        assert(v / 0x100_0000 < 256);
    }
}

/// Reading the bytes of a 16-bit number gives the number back.
pub proof fn lemma_read_u16_of_bytes(bytes: Seq<u8>, at: int, x: u16)
    requires
        bytes[at] == le_byte(x as u32, 0),
        bytes[at + 1] == le_byte(x as u32, 1),
    ensures
        read_u16(bytes, at) == x,
{
    reveal(le_byte);
    reveal(read_u16);
    let v = x as int;
    assert(v == 0x100 * (v / 0x100) + v % 0x100);
    assert(v / 0x100 < 256);
}

/// The bytes of a number read from bytes are those bytes.
pub proof fn lemma_bytes_of_read_u32(bytes: Seq<u8>, at: int, k: int)
    requires
        0 <= k < 4,
    ensures
        le_byte(read_u32(bytes, at), k) == bytes[at + k],
{
    reveal(le_byte);
    reveal(read_u32);
    let b0 = bytes[at] as int;
    let b1 = bytes[at + 1] as int;
    let b2 = bytes[at + 2] as int;
    let b3 = bytes[at + 3] as int;
    let v = b0 + 0x100 * b1 + 0x1_0000 * b2 + 0x100_0000 * b3;
    assert(0 <= v <= u32::MAX);
    assert(v % 256 == b0) by {
        assert(v == 256 * (b1 + 0x100 * b2 + 0x1_0000 * b3) + b0);
        assert(v == 256 * (v / 256) + v % 256);
    }
    assert(v / 0x100 == b1 + 0x100 * b2 + 0x1_0000 * b3);
    assert(v / 0x100 % 256 == b1) by {
        let w = v / 0x100;
        assert(w == 256 * (b2 + 0x100 * b3) + b1);
        assert(w == 256 * (w / 256) + w % 256);
    }
    assert(v / 0x1_0000 == b2 + 0x100 * b3);
    assert(v / 0x1_0000 % 256 == b2) by {
        let w = v / 0x1_0000;
        assert(w == 256 * b3 + b2);
        assert(w == 256 * (w / 256) + w % 256);
    }
    assert(v / 0x100_0000 == b3);
}

/// The bytes of a 16-bit number read from bytes are those bytes.
pub proof fn lemma_bytes_of_read_u16(bytes: Seq<u8>, at: int, k: int)
    requires
        0 <= k < 2,
    ensures
        le_byte(read_u16(bytes, at) as u32, k) == bytes[at + k],
{
    reveal(le_byte);
    reveal(read_u16);
    let b0 = bytes[at] as int;
    let b1 = bytes[at + 1] as int;
    let v = b0 + 0x100 * b1;
    assert(0 <= v <= u16::MAX);
    assert(v % 256 == b0) by {
        assert(v == 256 * (v / 256) + v % 256);
    }
    assert(v / 0x100 == b1);
}

/// The records of a band take eight bytes for each peak, and the bytes of a peak
/// stand at eight times its position.
pub proof fn lemma_records_layout(peaks: Seq<FrequencyPeak>)
    ensures
        records(peaks).len() == RECORD_SIZE * peaks.len(),
        forall|j: int, k: int|
            0 <= j < peaks.len() && 0 <= k < RECORD_SIZE ==> records(peaks)[RECORD_SIZE * j + k]
                == #[trigger] record_bytes(peaks[j])[k],
    decreases peaks.len(),
{
    if peaks.len() > 0 {
        let front = peaks.drop_last();
        lemma_records_layout(front);
        assert(record_bytes(peaks.last()).len() == RECORD_SIZE);
        assert forall|j: int, k: int| 0 <= j < peaks.len() && 0 <= k < RECORD_SIZE implies records(
            peaks,
        )[RECORD_SIZE * j + k] == #[trigger] record_bytes(peaks[j])[k] by {
            if j < front.len() {
                assert(front[j] == peaks[j]);
                assert(records(front)[RECORD_SIZE * j + k] == record_bytes(front[j])[k]);
            }
        }
    }
}

/// The record of a peak, read back, is the peak.
pub proof fn lemma_read_record(bytes: Seq<u8>, at: int, peak: FrequencyPeak)
    requires
        forall|k: int| 0 <= k < RECORD_SIZE ==> bytes[at + k] == #[trigger] record_bytes(peak)[k],
    ensures
        read_record(bytes, at) == peak,
{
    let record = record_bytes(peak);
    assert(bytes[at] == record[0]);
    assert(bytes[at + 1] == record[1]);
    assert(bytes[at + 2] == record[2]);
    assert(bytes[at + 3] == record[3]);
    assert(bytes[at + 4] == record[4]);
    assert(bytes[at + 5] == record[5]);
    assert(bytes[at + 6] == record[6]);
    assert(bytes[at + 7] == record[7]);
    lemma_read_u32_of_bytes(bytes, at, peak.fft_pass_number);
    lemma_read_u16_of_bytes(bytes, at + 4, peak.peak_magnitude);
    lemma_read_u16_of_bytes(bytes, at + 6, peak.corrected_peak_frequency_bin);
}

/// Where the records of a band stand in bytes, the band is read back from them.
pub proof fn lemma_read_records(bytes: Seq<u8>, at: int, peaks: Seq<FrequencyPeak>)
    requires
        0 <= at,
        at + RECORD_SIZE * peaks.len() <= bytes.len(),
        bytes.subrange(at, at + RECORD_SIZE * peaks.len()) == records(peaks),
    ensures
        read_records(bytes, at, peaks.len()) == peaks,
{
    lemma_records_layout(peaks);
    let part = bytes.subrange(at, at + RECORD_SIZE * peaks.len());
    assert forall|j: int| 0 <= j < peaks.len() implies read_record(bytes, at + RECORD_SIZE * j)
        == peaks[j] by {
        assert forall|k: int| 0 <= k < RECORD_SIZE implies bytes[at + RECORD_SIZE * j + k]
            == #[trigger] record_bytes(peaks[j])[k] by {
            assert(part[RECORD_SIZE * j + k] == bytes[at + RECORD_SIZE * j + k]);
        }
        lemma_read_record(bytes, at + RECORD_SIZE * j, peaks[j]);
    }
    assert(read_records(bytes, at, peaks.len()) =~= peaks);
}

/// The peaks read from bytes have those bytes as their records.
pub proof fn lemma_records_of_read(bytes: Seq<u8>, at: int, count: nat)
    requires
        0 <= at,
        at + RECORD_SIZE * count <= bytes.len(),
    ensures
        records(read_records(bytes, at, count)) == bytes.subrange(at, at + RECORD_SIZE * count),
    decreases count,
{
    let peaks = read_records(bytes, at, count);
    if count == 0 {
        assert(records(peaks) =~= bytes.subrange(at, at + RECORD_SIZE * count));
    } else {
        let fewer = (count - 1) as nat;
        lemma_records_of_read(bytes, at, fewer);
        assert(peaks.drop_last() =~= read_records(bytes, at, fewer));
        let last_at = at + RECORD_SIZE * fewer;
        assert(peaks.last() == read_record(bytes, last_at));
        let record = record_bytes(peaks.last());
        assert(record =~= bytes.subrange(last_at, last_at + RECORD_SIZE)) by {
            lemma_bytes_of_read_u32(bytes, last_at, 0);
            lemma_bytes_of_read_u32(bytes, last_at, 1);
            lemma_bytes_of_read_u32(bytes, last_at, 2);
            lemma_bytes_of_read_u32(bytes, last_at, 3);
            lemma_bytes_of_read_u16(bytes, last_at + 4, 0);
            lemma_bytes_of_read_u16(bytes, last_at + 4, 1);
            lemma_bytes_of_read_u16(bytes, last_at + 6, 0);
            lemma_bytes_of_read_u16(bytes, last_at + 6, 1);
        }
        assert(records(peaks) =~= bytes.subrange(at, at + RECORD_SIZE * count));
    }
}

/// A word of the header of a signature, read back, is that word.
proof fn lemma_read_header_word(signature: SignatureModel, bytes: Seq<u8>, w: int)
    requires
        0 <= w < 7,
        bytes.len() >= HEADER_SIZE,
        bytes.subrange(0, HEADER_SIZE as int) == signature.header(),
    ensures
        read_u32(bytes, 4 * w) == signature.header_word(w),
{
    let header = signature.header();
    let part = bytes.subrange(0, HEADER_SIZE as int);
    assert forall|k: int| 0 <= k < 4 implies bytes[4 * w + k] == le_byte(
        signature.header_word(w),
        k,
    ) by {
        assert(part[4 * w + k] == bytes[4 * w + k]);
        assert((4 * w + k) / 4 == w);
        assert((4 * w + k) % 4 == k);
    }
    lemma_read_u32_of_bytes(bytes, 4 * w, signature.header_word(w));
}

/// The header of a signature, read back, gives the signature's numbers.
pub proof fn lemma_read_header(signature: SignatureModel, bytes: Seq<u8>)
    requires
        signature.wf(),
        signature.encodable(),
        bytes.len() >= HEADER_SIZE,
        bytes.subrange(0, HEADER_SIZE as int) == signature.header(),
    ensures
        read_u32(bytes, 0) == FORMAT_TAG,
        read_u32(bytes, 4) == signature.sample_rate_hz,
        read_u32(bytes, 8) == signature.number_samples,
        count_at(bytes, 0) == signature.peaks[0].len(),
        count_at(bytes, 1) == signature.peaks[1].len(),
        count_at(bytes, 2) == signature.peaks[2].len(),
        count_at(bytes, 3) == signature.peaks[3].len(),
{
    lemma_read_header_word(signature, bytes, 0);
    lemma_read_header_word(signature, bytes, 1);
    lemma_read_header_word(signature, bytes, 2);
    lemma_read_header_word(signature, bytes, 3);
    lemma_read_header_word(signature, bytes, 4);
    lemma_read_header_word(signature, bytes, 5);
    lemma_read_header_word(signature, bytes, 6);
}

/// Five runs of bytes, one behind the other, can be cut apart again.
proof fn lemma_cut_apart(h: Seq<u8>, a: Seq<u8>, b: Seq<u8>, c: Seq<u8>, d: Seq<u8>)
    ensures
        ({
            let all = h + a + b + c + d;
            let p = h.len() as int;
            let q = p + a.len();
            let r = q + b.len();
            let t = r + c.len();
            &&& all.len() == t + d.len()
            &&& all.subrange(0, p) == h
            &&& all.subrange(p, q) == a
            &&& all.subrange(q, r) == b
            &&& all.subrange(r, t) == c
            &&& all.subrange(t, t + d.len()) == d
        }),
{
    let all = h + a + b + c + d;
    let p = h.len() as int;
    let q = p + a.len();
    let r = q + b.len();
    let t = r + c.len();
    assert(all.subrange(0, p) =~= h);
    assert(all.subrange(p, q) =~= a);
    assert(all.subrange(q, r) =~= b);
    assert(all.subrange(r, t) =~= c);
    assert(all.subrange(t, t + d.len()) =~= d);
}

/// Bytes cut at four places are the five parts, one behind the other.
proof fn lemma_joined(bytes: Seq<u8>, p: int, q: int, r: int, t: int)
    requires
        0 <= p <= q <= r <= t <= bytes.len(),
    ensures
        bytes.subrange(0, p) + bytes.subrange(p, q) + bytes.subrange(q, r) + bytes.subrange(r, t)
            + bytes.subrange(t, bytes.len() as int) == bytes,
{
    assert(bytes.subrange(0, p) + bytes.subrange(p, q) + bytes.subrange(q, r) + bytes.subrange(
        r,
        t,
    ) + bytes.subrange(t, bytes.len() as int) =~= bytes);
}

/// A header is 28 bytes long.
proof fn lemma_header_len(signature: SignatureModel)
    ensures
        signature.header().len() == HEADER_SIZE,
{
}

/// The header of the signature read from bytes is the first 28 of those bytes.
proof fn lemma_header_of_read(bytes: Seq<u8>)
    requires
        bytes.len() >= HEADER_SIZE,
        read_u32(bytes, 0) == FORMAT_TAG,
    ensures
        signature_of(bytes).header() == bytes.subrange(0, HEADER_SIZE as int),
{
    let signature = signature_of(bytes);
    let header = signature.header();
    assert forall|i: int| 0 <= i < HEADER_SIZE implies header[i] == bytes[i] by {
        let w = i / 4;
        let k = i % 4;
        assert(signature.header_word(w) == read_u32(bytes, 4 * w)) by {
            if w >= 3 {
                assert(signature.peaks[w - 3].len() == count_at(bytes, w - 3));
            }
        }
        lemma_bytes_of_read_u32(bytes, 4 * w, k);
    }
    assert(header =~= bytes.subrange(0, HEADER_SIZE as int));
}

/// A payload that is read and written again is the same payload, and what is read
/// from it is a signature that can be written.
pub proof fn lemma_payload_of_signature_of(bytes: Seq<u8>)
    requires
        is_payload(bytes),
    ensures
        signature_of(bytes).wf(),
        signature_of(bytes).encodable(),
        signature_of(bytes).payload() == bytes,
{
    let signature = signature_of(bytes);
    let start0 = records_start(bytes, 0);
    let start1 = records_start(bytes, 1);
    let start2 = records_start(bytes, 2);
    let start3 = records_start(bytes, 3);
    let end = records_start(bytes, 4);
    lemma_header_of_read(bytes);
    lemma_records_of_read(bytes, start0, count_at(bytes, 0));
    lemma_records_of_read(bytes, start1, count_at(bytes, 1));
    lemma_records_of_read(bytes, start2, count_at(bytes, 2));
    lemma_records_of_read(bytes, start3, count_at(bytes, 3));
    assert(signature.peaks[0] == read_records(bytes, start0, count_at(bytes, 0)));
    assert(signature.peaks[1] == read_records(bytes, start1, count_at(bytes, 1)));
    assert(signature.peaks[2] == read_records(bytes, start2, count_at(bytes, 2)));
    assert(signature.peaks[3] == read_records(bytes, start3, count_at(bytes, 3)));
    lemma_joined(bytes, start0, start1, start2, start3);
}

/// Round trip: the payload of a signature is a payload, and the signature read from it
/// is the signature that was written, in every band and in every field of every peak.
pub proof fn lemma_round_trip(signature: SignatureModel)
    requires
        signature.wf(),
        signature.encodable(),
    ensures
        is_payload(signature.payload()),
        signature_of(signature.payload()) == signature,
{
    let bytes = signature.payload();
    let header = signature.header();
    let r0 = records(signature.peaks[0]);
    let r1 = records(signature.peaks[1]);
    let r2 = records(signature.peaks[2]);
    let r3 = records(signature.peaks[3]);
    lemma_header_len(signature);
    lemma_records_layout(signature.peaks[0]);
    lemma_records_layout(signature.peaks[1]);
    lemma_records_layout(signature.peaks[2]);
    lemma_records_layout(signature.peaks[3]);
    lemma_cut_apart(header, r0, r1, r2, r3);
    lemma_read_header(signature, bytes);
    assert(count_at(bytes, 0) == signature.peaks[0].len());
    assert(count_at(bytes, 1) == signature.peaks[1].len());
    assert(count_at(bytes, 2) == signature.peaks[2].len());
    assert(count_at(bytes, 3) == signature.peaks[3].len());
    lemma_read_records(bytes, records_start(bytes, 0), signature.peaks[0]);
    lemma_read_records(bytes, records_start(bytes, 1), signature.peaks[1]);
    lemma_read_records(bytes, records_start(bytes, 2), signature.peaks[2]);
    lemma_read_records(bytes, records_start(bytes, 3), signature.peaks[3]);
    lemma_peaks_read(signature, bytes);
}

/// A signature whose numbers and bands are read from bytes is the signature read
/// from those bytes.
proof fn lemma_peaks_read(signature: SignatureModel, bytes: Seq<u8>)
    requires
        signature.wf(),
        read_u32(bytes, 4) == signature.sample_rate_hz,
        read_u32(bytes, 8) == signature.number_samples,
        forall|b: int|
            0 <= b < BAND_COUNT ==> read_records(
                bytes,
                records_start(bytes, b),
                count_at(bytes, b),
            ) == #[trigger] signature.peaks[b],
    ensures
        signature_of(bytes) == signature,
{
    assert(signature_of(bytes).peaks =~= signature.peaks);
}

/// The header is its seven words, one behind the other.
proof fn lemma_header_words(signature: SignatureModel)
    ensures
        signature.header() == u32_le(signature.header_word(0)) + u32_le(signature.header_word(1))
            + u32_le(signature.header_word(2)) + u32_le(signature.header_word(3)) + u32_le(
            signature.header_word(4),
        ) + u32_le(signature.header_word(5)) + u32_le(signature.header_word(6)),
{
    let header = signature.header();
    let words = u32_le(signature.header_word(0)) + u32_le(signature.header_word(1)) + u32_le(
        signature.header_word(2),
    ) + u32_le(signature.header_word(3)) + u32_le(signature.header_word(4)) + u32_le(
        signature.header_word(5),
    ) + u32_le(signature.header_word(6));
    assert(words.len() == HEADER_SIZE);
    assert forall|i: int| 0 <= i < HEADER_SIZE implies header[i] == words[i] by {
        let w = i / 4;
        let k = i % 4;
        assert(i == 4 * w + k);
        assert(words[i] == u32_le(signature.header_word(w))[k]);
    }
    assert(header =~= words);
}

/// Appends the four bytes of a number.
fn push_u32(out: &mut Vec<u8>, x: u32)
    ensures
        final(out)@ == old(out)@ + u32_le(x),
{
    out.push((x % 256) as u8);
    out.push((x / 0x100 % 256) as u8);
    out.push((x / 0x1_0000 % 256) as u8);
    out.push((x / 0x100_0000 % 256) as u8);
    proof {
        reveal(le_byte);
        assert(out@ =~= old(out)@ + u32_le(x));
    }
}

/// Appends the two bytes of a number.
fn push_u16(out: &mut Vec<u8>, x: u16)
    ensures
        final(out)@ == old(out)@ + u16_le(x),
{
    out.push((x % 256) as u8);
    out.push((x / 0x100 % 256) as u8);
    proof {
        reveal(le_byte);
        assert(out@ =~= old(out)@ + u16_le(x));
    }
}

/// Appends the records of a band.
fn push_records(out: &mut Vec<u8>, peaks: &Vec<FrequencyPeak>)
    ensures
        final(out)@ == old(out)@ + records(peaks@),
{
    let ghost before = out@;
    let mut i: usize = 0;
    proof {
        assert(peaks@.take(0) =~= Seq::<FrequencyPeak>::empty());
        assert(out@ =~= before + records(peaks@.take(0)));
    }
    while i < peaks.len()
        invariant
            i <= peaks@.len(),
            out@ == before + records(peaks@.take(i as int)),
        decreases peaks@.len() - i,
    {
        let peak = peaks[i];
        let ghost written = out@;
        push_u32(out, peak.fft_pass_number);
        push_u16(out, peak.peak_magnitude);
        push_u16(out, peak.corrected_peak_frequency_bin);
        proof {
            let next = peaks@.take(i + 1);
            assert(next.drop_last() =~= peaks@.take(i as int));
            assert(next.last() == peak);
            assert(out@ =~= written + record_bytes(peak));
            assert(out@ =~= before + records(next));
        }
        i += 1;
    }
    proof {
        assert(peaks@.take(peaks@.len() as int) =~= peaks@);
    }
}

/// The number whose four bytes stand at an offset.
fn get_u32(bytes: &Vec<u8>, at: usize) -> (x: u32)
    requires
        at + 4 <= bytes.len(),
    ensures
        x == read_u32(bytes@, at as int),
{
    proof {
        reveal(read_u32);
    }
    let b0: u32 = bytes[at] as u32;
    let b1: u32 = bytes[at + 1] as u32;
    let b2: u32 = bytes[at + 2] as u32;
    let b3: u32 = bytes[at + 3] as u32;
    assert(b0 <= 255 && b1 <= 255 && b2 <= 255 && b3 <= 255);
    b0 + 0x100 * b1 + 0x1_0000 * b2 + 0x100_0000 * b3
}

/// The number whose two bytes stand at an offset.
fn get_u16(bytes: &Vec<u8>, at: usize) -> (x: u16)
    requires
        at + 2 <= bytes.len(),
    ensures
        x == read_u16(bytes@, at as int),
{
    proof {
        reveal(read_u16);
    }
    let b0: u16 = bytes[at] as u16;
    let b1: u16 = bytes[at + 1] as u16;
    assert(b0 <= 255 && b1 <= 255);
    b0 + 0x100 * b1
}

/// The peaks whose records start at an offset.
fn get_records(bytes: &Vec<u8>, at: usize, count: usize) -> (peaks: Vec<FrequencyPeak>)
    requires
        at + RECORD_SIZE * count <= bytes.len(),
    ensures
        peaks@ == read_records(bytes@, at as int, count as nat),
{
    let mut peaks: Vec<FrequencyPeak> = Vec::new();
    let mut j: usize = 0;
    while j < count
        invariant
            j <= count,
            at + RECORD_SIZE * count <= bytes.len(),
            peaks@.len() == j,
            forall|i: int|
                0 <= i < j ==> #[trigger] peaks@[i] == read_record(bytes@, at + RECORD_SIZE * i),
        decreases count - j,
    {
        let start: usize = at + RECORD_SIZE * j;
        peaks.push(
            FrequencyPeak {
                fft_pass_number: get_u32(bytes, start),
                peak_magnitude: get_u16(bytes, start + 4),
                corrected_peak_frequency_bin: get_u16(bytes, start + 6),
            },
        );
        j += 1;
    }
    proof {
        assert(peaks@ =~= read_records(bytes@, at as int, count as nat));
    }
    peaks
}

impl DecodedSignature {
    /// Writes the signature as a payload. Only a signature with more than 2^32 - 1
    /// peaks in one band has none.
    pub fn encode_to_binary(&self) -> (result: Result<Vec<u8>, EncodeError>)
        ensures
            match result {
                Ok(bytes) => self@.encodable() && bytes@ == self@.payload(),
                Err(error) => !self@.encodable() && error == EncodeError::TooManyPeaks,
            },
    {
        let limit: usize = u32::MAX as usize;
        if self.peaks_250_520.len() > limit || self.peaks_520_1450.len() > limit
            || self.peaks_1450_3500.len() > limit || self.peaks_3500_5500.len() > limit {
            proof {
                assert(self@.peaks[0] == self.peaks_250_520@);
                assert(self@.peaks[1] == self.peaks_520_1450@);
                assert(self@.peaks[2] == self.peaks_1450_3500@);
                assert(self@.peaks[3] == self.peaks_3500_5500@);
            }
            return Err(EncodeError::TooManyPeaks);
        }
        let mut out: Vec<u8> = Vec::new();
        push_u32(&mut out, FORMAT_TAG);
        push_u32(&mut out, self.sample_rate_hz);
        push_u32(&mut out, self.number_samples);
        push_u32(&mut out, self.peaks_250_520.len() as u32);
        push_u32(&mut out, self.peaks_520_1450.len() as u32);
        push_u32(&mut out, self.peaks_1450_3500.len() as u32);
        push_u32(&mut out, self.peaks_3500_5500.len() as u32);
        proof {
            lemma_header_words(self@);
            assert(out@ =~= self@.header());
        }
        push_records(&mut out, &self.peaks_250_520);
        push_records(&mut out, &self.peaks_520_1450);
        push_records(&mut out, &self.peaks_1450_3500);
        push_records(&mut out, &self.peaks_3500_5500);
        Ok(out)
    }

    /// Reads a signature from a payload. It is read from exactly the payloads that
    /// `encode_to_binary` writes.
    pub fn decode_from_binary(bytes: &Vec<u8>) -> (result: Result<DecodedSignature, DecodeError>)
        ensures
            match result {
                Ok(signature) => is_payload(bytes@) && signature@ == signature_of(bytes@),
                Err(DecodeError::Truncated) => bytes@.len() < HEADER_SIZE,
                Err(DecodeError::BadTag) => bytes@.len() >= HEADER_SIZE && read_u32(bytes@, 0)
                    != FORMAT_TAG,
                Err(DecodeError::BadLength) => bytes@.len() >= HEADER_SIZE && read_u32(bytes@, 0)
                    == FORMAT_TAG && bytes@.len() != records_start(bytes@, BAND_COUNT as int),
                Err(_) => false,
            },
    {
        if bytes.len() < HEADER_SIZE {
            return Err(DecodeError::Truncated);
        }
        if get_u32(bytes, 0) != FORMAT_TAG {
            return Err(DecodeError::BadTag);
        }
        let count0 = get_u32(bytes, 12);
        let count1 = get_u32(bytes, 16);
        let count2 = get_u32(bytes, 20);
        let count3 = get_u32(bytes, 24);
        let total: u64 = count0 as u64 + count1 as u64 + count2 as u64 + count3 as u64;
        assert(total <= 4 * 0xFFFF_FFFF);
        let record_size: u64 = 8;
        let expected: u64 = HEADER_SIZE as u64 + record_size * total;
        if bytes.len() as u64 != expected {
            return Err(DecodeError::BadLength);
        }
        let start0: usize = HEADER_SIZE;
        let start1: usize = start0 + RECORD_SIZE * (count0 as usize);
        let start2: usize = start1 + RECORD_SIZE * (count1 as usize);
        let start3: usize = start2 + RECORD_SIZE * (count2 as usize);
        let signature = DecodedSignature {
            sample_rate_hz: get_u32(bytes, 4),
            number_samples: get_u32(bytes, 8),
            peaks_250_520: get_records(bytes, start0, count0 as usize),
            peaks_520_1450: get_records(bytes, start1, count1 as usize),
            peaks_1450_3500: get_records(bytes, start2, count2 as usize),
            peaks_3500_5500: get_records(bytes, start3, count3 as usize),
        };
        proof {
            assert(signature@.peaks =~= signature_of(bytes@).peaks);
        }
        Ok(signature)
    }
}

} // verus!
