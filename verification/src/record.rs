//! The on-disk record format.
//!
//! A record is a 26-byte header followed by the key and the value:
//!
//! | bytes  | field                                   |
//! |--------|-----------------------------------------|
//! | 0..4   | magic `0x42444231`, little-endian       |
//! | 4      | format version (1)                      |
//! | 5      | flags (0 normal, 1 tombstone)           |
//! | 6..10  | CRC32 of every byte but these four      |
//! | 10..18 | timestamp                               |
//! | 18..22 | key length                              |
//! | 22..26 | value length                            |
use crate::codec::{copy_range, push_all, push_u32_le, push_u64_le, read_u32_le, read_u64_le, spec_u32_at, spec_u64_at};
use crate::crc::{compute_crc, crc32_of, frame_crc_input};
use crate::error::BitdbError;
use vstd::bytes::*;
use vstd::prelude::*;

verus! {

/// The first four bytes of every record.
pub const RECORD_MAGIC: u32 = 0x4244_4231;

/// The record format version this library reads and writes.
pub const RECORD_VERSION: u8 = 1;

/// The length of a record header in bytes.
pub const HEADER_LEN: usize = 26;

/// Whether a record carries a value or marks its key deleted.
#[derive(Clone, Copy, Debug, PartialEq, Eq, Structural)]
pub enum RecordFlags {
    Normal,
    Tombstone,
}

impl RecordFlags {
    /// The flags byte written for these flags.
    pub open spec fn spec_to_u8(self) -> u8 {
        match self {
            RecordFlags::Normal => 0,
            RecordFlags::Tombstone => 1,
        }
    }

    fn to_u8(self) -> (b: u8)
        ensures
            b == self.spec_to_u8(),
            b == (if self == RecordFlags::Tombstone {
                1u8
            } else {
                0u8
            }),
    {
        match self {
            RecordFlags::Normal => 0,
            RecordFlags::Tombstone => 1,
        }
    }

    fn from_u8(value: u8) -> (r: Result<Self, BitdbError>)
        ensures
            r == spec_flags_from_u8(value),
    {
        match value {
            0 => Ok(RecordFlags::Normal),
            1 => Ok(RecordFlags::Tombstone),
            _ => Err(BitdbError::InvalidRecordFlags(value)),
        }
    }
}

/// The flags a flags byte stands for.
pub open spec fn spec_flags_from_u8(value: u8) -> Result<RecordFlags, BitdbError> {
    if value == 0 {
        Ok(RecordFlags::Normal)
    } else if value == 1 {
        Ok(RecordFlags::Tombstone)
    } else {
        Err(BitdbError::InvalidRecordFlags(value))
    }
}

/// One entry of the log: a key, its value, when it was written, and
/// whether it deletes the key.
#[derive(Clone, Debug, PartialEq, Eq)]
pub struct Record {
    pub timestamp: u64,
    pub key: Vec<u8>,
    pub value: Vec<u8>,
    pub flags: RecordFlags,
}

/// A record as a mathematical value.
pub struct RecordView {
    pub timestamp: u64,
    pub key: Seq<u8>,
    pub value: Seq<u8>,
    pub flags: RecordFlags,
}

impl View for Record {
    type V = RecordView;

    open spec fn view(&self) -> RecordView {
        RecordView {
            timestamp: self.timestamp,
            key: self.key@,
            value: self.value@,
            flags: self.flags,
        }
    }
}

impl Record {
    pub fn new(timestamp: u64, key: Vec<u8>, value: Vec<u8>, flags: RecordFlags) -> (r: Self)
        ensures
            r.timestamp == timestamp,
            r.key == key,
            r.value == value,
            r.flags == flags,
    {
        Record { timestamp, key, value, flags }
    }
}

/// A decoded record and the number of input bytes it occupied.
#[derive(Clone, Debug, PartialEq, Eq)]
pub struct DecodeResult {
    pub record: Record,
    pub bytes_read: usize,
}

/// The fixed-size header of a record, with its lengths already checked to
/// fit in `usize`.
#[derive(Clone, Copy, Debug, PartialEq, Eq, Structural)]
pub struct RecordHeader {
    pub flags: RecordFlags,
    pub expected_crc: u32,
    pub timestamp: u64,
    pub key_len: usize,
    pub value_len: usize,
    pub total_len: usize,
}

// ---- specification of the format -------------------------------------------
/// The header bytes for the given fields.
pub open spec fn header_bytes(
    flags: RecordFlags,
    crc: u32,
    timestamp: u64,
    key_len: u32,
    value_len: u32,
) -> Seq<u8> {
    spec_u32_to_le_bytes(RECORD_MAGIC) + seq![RECORD_VERSION, flags.spec_to_u8()]
        + spec_u32_to_le_bytes(crc) + spec_u64_to_le_bytes(timestamp) + spec_u32_to_le_bytes(
        key_len,
    ) + spec_u32_to_le_bytes(value_len)
}

/// The bytes of a record with the given value in its checksum field.  The
/// length fields hold the key and value lengths cut to 32 bits.
pub open spec fn frame_with_crc(r: RecordView, crc: u32) -> Seq<u8> {
    header_bytes(r.flags, crc, r.timestamp, r.key.len() as u32, r.value.len() as u32) + r.key
        + r.value
}

/// The encoding of a record: its frame, carrying the checksum of the frame.
pub open spec fn spec_encode(r: RecordView) -> Seq<u8> {
    frame_with_crc(r, crc32_of(frame_crc_input(frame_with_crc(r, 0))))
}

/// The header found at the start of `input`, or why there is none.
pub open spec fn spec_parse_header(input: Seq<u8>) -> Result<RecordHeader, BitdbError> {
    if input.len() < HEADER_LEN {
        Err(BitdbError::TruncatedRecord)
    } else if spec_u32_at(input, 0) != RECORD_MAGIC {
        Err(BitdbError::InvalidRecordMagic(spec_u32_at(input, 0)))
    } else if input[4] != RECORD_VERSION {
        Err(BitdbError::InvalidRecordVersion(input[4]))
    } else if spec_flags_from_u8(input[5]) is Err {
        Err(BitdbError::InvalidRecordFlags(input[5]))
    } else {
        let key_len = spec_u32_at(input, 18);
        let value_len = spec_u32_at(input, 22);
        let total = HEADER_LEN + key_len + value_len;
        if total > usize::MAX {
            Err(BitdbError::TruncatedRecord)
        } else if input.len() < total {
            Err(BitdbError::TruncatedRecord)
        } else {
            Ok(
                RecordHeader {
                    flags: spec_flags_from_u8(input[5])->Ok_0,
                    expected_crc: spec_u32_at(input, 6),
                    timestamp: spec_u64_at(input, 10),
                    key_len: key_len as usize,
                    value_len: value_len as usize,
                    total_len: total as usize,
                },
            )
        }
    }
}

/// What decoding yields once the header is known and the checksum of the
/// record's bytes is `actual_crc`.
pub open spec fn spec_decode_body(input: Seq<u8>, h: RecordHeader, actual_crc: u32) -> Result<
    (RecordView, nat),
    BitdbError,
> {
    if h.expected_crc != actual_crc {
        Err(BitdbError::ChecksumMismatch { expected: h.expected_crc, actual: actual_crc })
    } else {
        Ok(
            (
                RecordView {
                    timestamp: h.timestamp,
                    key: input.subrange(HEADER_LEN as int, HEADER_LEN + h.key_len),
                    value: input.subrange(HEADER_LEN + h.key_len, h.total_len as int),
                    flags: h.flags,
                },
                h.total_len as nat,
            ),
        )
    }
}

/// The record at the start of `input` and its length, or why there is none.
pub open spec fn spec_decode_one(input: Seq<u8>) -> Result<(RecordView, nat), BitdbError> {
    match spec_parse_header(input) {
        Err(e) => Err(e),
        Ok(h) => spec_decode_body(
            input,
            h,
            crc32_of(frame_crc_input(input.subrange(0, h.total_len as int))),
        ),
    }
}

/// Whether an executable decode result is the specified one.
pub open spec fn decode_matches(
    r: Result<DecodeResult, BitdbError>,
    s: Result<(RecordView, nat), BitdbError>,
) -> bool {
    match (r, s) {
        (Ok(d), Ok((rv, n))) => d.record@ == rv && d.bytes_read == n,
        (Err(e1), Err(e2)) => e1 == e2,
        _ => false,
    }
}

// ---- executable code --------------------------------------------------------
/// Encodes a record as its header, key and value, with the checksum set.
/// The length fields hold the lengths cut to 32 bits.
pub fn encode(record: &Record) -> (out: Vec<u8>)
    requires
        HEADER_LEN + record.key@.len() + record.value@.len() <= usize::MAX,
    ensures
        out@ == spec_encode(record@),
{
    #[verifier::truncate]
    let key_len = record.key.len() as u32;
    #[verifier::truncate]
    let value_len = record.value.len() as u32;

    let mut out: Vec<u8> = Vec::with_capacity(HEADER_LEN + record.key.len() + record.value.len());
    push_u32_le(&mut out, RECORD_MAGIC);
    out.push(RECORD_VERSION);
    out.push(record.flags.to_u8());
    push_u32_le(&mut out, 0);
    push_u64_le(&mut out, record.timestamp);
    push_u32_le(&mut out, key_len);
    push_u32_le(&mut out, value_len);
    push_all(&mut out, record.key.as_slice());
    push_all(&mut out, record.value.as_slice());
    proof {
        lemma_auto_spec_u32_to_from_le_bytes();
        lemma_auto_spec_u64_to_from_le_bytes();
        assert(out@ =~= frame_with_crc(record@, 0));
    }

    let crc = compute_crc(out.as_slice());
    let crc_bytes = u32_to_le_bytes(crc);
    let ghost zeroed = out@;
    out.set(6, crc_bytes[0]);
    out.set(7, crc_bytes[1]);
    out.set(8, crc_bytes[2]);
    out.set(9, crc_bytes[3]);
    proof {
        lemma_frames_differ_only_in_crc(record@, 0, crc);
        assert(out@ =~= frame_with_crc(record@, crc));
    }
    out
}

/// Reads and checks the header at the start of `input`.
pub fn parse_header(input: &[u8]) -> (r: Result<RecordHeader, BitdbError>)
    ensures
        r == spec_parse_header(input@),
{
    if input.len() < HEADER_LEN {
        return Err(BitdbError::TruncatedRecord);
    }
    let magic = read_u32_le(input, 0);
    if magic != RECORD_MAGIC {
        return Err(BitdbError::InvalidRecordMagic(magic));
    }
    let version = input[4];
    if version != RECORD_VERSION {
        return Err(BitdbError::InvalidRecordVersion(version));
    }
    let flags = match RecordFlags::from_u8(input[5]) {
        Ok(f) => f,
        Err(e) => return Err(e),
    };
    let expected_crc = read_u32_le(input, 6);
    let timestamp = read_u64_le(input, 10);
    let key_len = read_u32_le(input, 18) as usize;
    let value_len = read_u32_le(input, 22) as usize;
    let total_len = match HEADER_LEN.checked_add(key_len) {
        Some(v) => match v.checked_add(value_len) {
            Some(t) => t,
            None => return Err(BitdbError::TruncatedRecord),
        },
        None => return Err(BitdbError::TruncatedRecord),
    };
    if input.len() < total_len {
        return Err(BitdbError::TruncatedRecord);
    }
    Ok(RecordHeader { flags, expected_crc, timestamp, key_len, value_len, total_len })
}

/// Finishes decoding once the header is known and `actual_crc` is the
/// checksum computed over the record's bytes.
pub fn decode_body(input: &[u8], header: &RecordHeader, actual_crc: u32) -> (r: Result<
    DecodeResult,
    BitdbError,
>)
    requires
        spec_parse_header(input@) == Ok::<RecordHeader, BitdbError>(*header),
    ensures
        decode_matches(r, spec_decode_body(input@, *header, actual_crc)),
{
    if header.expected_crc != actual_crc {
        return Err(
            BitdbError::ChecksumMismatch { expected: header.expected_crc, actual: actual_crc },
        );
    }
    let key_start = HEADER_LEN;
    let value_start = key_start + header.key_len;
    let record = Record {
        timestamp: header.timestamp,
        key: copy_range(input, key_start, value_start),
        value: copy_range(input, value_start, header.total_len),
        flags: header.flags,
    };
    Ok(DecodeResult { record, bytes_read: header.total_len })
}

/// Decodes the record at the start of `input`.
///
/// Fails with `TruncatedRecord` when the input ends before the record,
/// with the magic, version or flags error when the header is malformed,
/// and with `ChecksumMismatch` when the stored checksum is wrong.
pub fn decode_one(input: &[u8]) -> (r: Result<DecodeResult, BitdbError>)
    ensures
        decode_matches(r, spec_decode_one(input@)),
{
    let header = match parse_header(input) {
        Ok(h) => h,
        Err(e) => return Err(e),
    };
    let actual_crc = compute_crc(&input[0..header.total_len]);
    decode_body(input, &header, actual_crc)
}

// ---- lemmas -----------------------------------------------------------------
/// Frames of one record that differ in their checksum field differ only
/// there, so both give the same checksum input.
pub proof fn lemma_frames_differ_only_in_crc(r: RecordView, c1: u32, c2: u32)
    ensures
        frame_with_crc(r, c1).len() == frame_with_crc(r, c2).len(),
        frame_with_crc(r, c1).len() == HEADER_LEN + r.key.len() + r.value.len(),
        frame_crc_input(frame_with_crc(r, c1)) == frame_crc_input(frame_with_crc(r, c2)),
        forall|i: int|
            0 <= i < frame_with_crc(r, c1).len() && !(6 <= i < 10) ==> #[trigger] frame_with_crc(
                r,
                c1,
            )[i] == frame_with_crc(r, c2)[i],
{
    lemma_auto_spec_u32_to_from_le_bytes();
    lemma_auto_spec_u64_to_from_le_bytes();
    let f1 = frame_with_crc(r, c1);
    let f2 = frame_with_crc(r, c2);
    assert(f1.len() == f2.len());
    assert(forall|i: int| 0 <= i < f1.len() && !(6 <= i < 10) ==> f1[i] == f2[i]);
    assert(frame_crc_input(f1) =~= frame_crc_input(f2));
}

/// Whether a record can be written and read back: its key and value
/// lengths fit the 32-bit length fields and the whole record fits in memory.
pub open spec fn encodable(r: RecordView) -> bool {
    &&& r.key.len() <= u32::MAX
    &&& r.value.len() <= u32::MAX
    &&& HEADER_LEN + r.key.len() + r.value.len() <= usize::MAX
}

/// The encoding of a record is its header, key and value.
pub proof fn lemma_encode_len(r: RecordView)
    ensures
        spec_encode(r).len() == HEADER_LEN + r.key.len() + r.value.len(),
{
    lemma_frames_differ_only_in_crc(r, 0, crc32_of(frame_crc_input(frame_with_crc(r, 0))));
}

/// Decoding gives back what encoding wrote: decoding the encoding of an
/// encodable record, followed by any other bytes, yields that record and
/// the length of its encoding.
pub proof fn law_decode_inverts_encode(r: RecordView, rest: Seq<u8>)
    requires
        encodable(r),
    ensures
        spec_decode_one(spec_encode(r) + rest) == Ok::<(RecordView, nat), BitdbError>(
            (r, spec_encode(r).len()),
        ),
{
    lemma_auto_spec_u32_to_from_le_bytes();
    lemma_auto_spec_u64_to_from_le_bytes();
    let crc = crc32_of(frame_crc_input(frame_with_crc(r, 0)));
    lemma_frames_differ_only_in_crc(r, 0, crc);
    let enc = spec_encode(r);
    let input = enc + rest;
    let k = r.key.len();
    let v = r.value.len();
    assert(enc == frame_with_crc(r, crc));
    assert(input.subrange(0, 4) =~= spec_u32_to_le_bytes(RECORD_MAGIC));
    assert(input.subrange(6, 10) =~= spec_u32_to_le_bytes(crc));
    assert(input.subrange(10, 18) =~= spec_u64_to_le_bytes(r.timestamp));
    assert(input.subrange(18, 22) =~= spec_u32_to_le_bytes(k as u32));
    assert(input.subrange(22, 26) =~= spec_u32_to_le_bytes(v as u32));
    assert(input[4] == RECORD_VERSION);
    assert(input[5] == r.flags.spec_to_u8());
    let h = spec_parse_header(input)->Ok_0;
    assert(spec_parse_header(input) is Ok);
    assert(h.total_len == enc.len());
    assert(input.subrange(0, h.total_len as int) =~= enc);
    assert(input.subrange(HEADER_LEN as int, HEADER_LEN + k) =~= r.key);
    assert(input.subrange(HEADER_LEN + k, h.total_len as int) =~= r.value);
}

/// Bytes after a record do not change how it decodes.
pub proof fn lemma_decode_prefix(x: Seq<u8>, y: Seq<u8>)
    requires
        spec_decode_one(x) is Ok,
    ensures
        spec_decode_one(x + y) == spec_decode_one(x),
{
    lemma_auto_spec_u32_to_from_le_bytes();
    lemma_auto_spec_u64_to_from_le_bytes();
    let xy = x + y;
    assert(xy.subrange(0, 4) =~= x.subrange(0, 4));
    assert(xy.subrange(6, 10) =~= x.subrange(6, 10));
    assert(xy.subrange(10, 18) =~= x.subrange(10, 18));
    assert(xy.subrange(18, 22) =~= x.subrange(18, 22));
    assert(xy.subrange(22, 26) =~= x.subrange(22, 26));
    assert(xy[4] == x[4]);
    assert(xy[5] == x[5]);
    let h = spec_parse_header(x)->Ok_0;
    assert(spec_parse_header(xy) == spec_parse_header(x));
    assert(xy.subrange(0, h.total_len as int) =~= x.subrange(0, h.total_len as int));
    assert(xy.subrange(HEADER_LEN as int, HEADER_LEN + h.key_len) =~= x.subrange(
        HEADER_LEN as int,
        HEADER_LEN + h.key_len,
    ));
    assert(xy.subrange(HEADER_LEN + h.key_len, h.total_len as int) =~= x.subrange(
        HEADER_LEN + h.key_len,
        h.total_len as int,
    ));
}

/// The flags byte of an encoded record, at offset 5, is 0 for a record
/// holding a value and 1 for a tombstone.
pub proof fn law_encoded_flags_byte(r: RecordView)
    ensures
        spec_encode(r).len() > 5,
        spec_encode(r)[5] == (if r.flags == RecordFlags::Tombstone {
            1u8
        } else {
            0u8
        }),
{
    lemma_auto_spec_u32_to_from_le_bytes();
    lemma_auto_spec_u64_to_from_le_bytes();
    let crc = crc32_of(frame_crc_input(frame_with_crc(r, 0)));
    let enc = spec_encode(r);
    assert(enc == frame_with_crc(r, crc));
    assert(spec_u32_to_le_bytes(RECORD_MAGIC).len() == 4);
}

/// Decoding reads the flags byte the same way: a decoded record holds a
/// value exactly when byte 5 is 0 and is a tombstone exactly when it is 1,
/// and a well-framed header with any other flags byte is refused with
/// `InvalidRecordFlags` of that byte.
pub proof fn law_decoded_flags_byte(input: Seq<u8>)
    ensures
        spec_decode_one(input) matches Ok((r, _)) ==> {
            &&& input.len() > 5
            &&& (r.flags == RecordFlags::Normal <==> input[5] == 0)
            &&& (r.flags == RecordFlags::Tombstone <==> input[5] == 1)
        },
        input.len() >= HEADER_LEN && spec_u32_at(input, 0) == RECORD_MAGIC && input[4]
            == RECORD_VERSION && input[5] > 1 ==> spec_decode_one(input)
            == Err::<(RecordView, nat), BitdbError>(BitdbError::InvalidRecordFlags(input[5])),
{
}

/// Decoding checks the header in order and reports the first fault: fewer
/// bytes than a header is an unfinished record; a wrong magic is reported
/// with the value found; then a wrong version with the byte found.  These
/// errors, unlike a record cut short, mean the bytes are damaged.
pub proof fn law_decode_header_faults(input: Seq<u8>)
    ensures
        input.len() < HEADER_LEN ==> spec_decode_one(input) == Err::<(RecordView, nat), BitdbError>(
            BitdbError::TruncatedRecord,
        ),
        input.len() >= HEADER_LEN && spec_u32_at(input, 0) != RECORD_MAGIC ==> {
            &&& spec_decode_one(input) == Err::<(RecordView, nat), BitdbError>(
                BitdbError::InvalidRecordMagic(spec_u32_at(input, 0)),
            )
            &&& BitdbError::InvalidRecordMagic(spec_u32_at(input, 0)).spec_is_corruption()
        },
        input.len() >= HEADER_LEN && spec_u32_at(input, 0) == RECORD_MAGIC && input[4]
            != RECORD_VERSION ==> {
            &&& spec_decode_one(input) == Err::<(RecordView, nat), BitdbError>(
                BitdbError::InvalidRecordVersion(input[4]),
            )
            &&& BitdbError::InvalidRecordVersion(input[4]).spec_is_corruption()
        },
        !BitdbError::TruncatedRecord.spec_is_corruption(),
{
}

} // verus!
