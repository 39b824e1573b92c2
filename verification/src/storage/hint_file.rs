//! Hint files: a compact summary of one data file, one entry per record,
//! so that startup can rebuild the KeyDir without decoding values.
//!
//! Layout: magic `0x48494e54` (4 bytes, little-endian), version 1 (1 byte),
//! entry count (4 bytes), then per entry: key length (4), file id (4),
//! offset (8), record size (4), timestamp (8), tombstone flag (1, 0 or 1),
//! and the key.
use crate::codec::{
    copy_range, push_all, push_u32_le, push_u64_le, read_u32_le, read_u64_le, spec_u32_at,
    spec_u64_at,
};
use crate::error::BitdbError;
use crate::index::keydir::KeyDirEntry;
use vstd::bytes::*;
use vstd::prelude::*;

verus! {

/// The first four bytes of every hint file.
pub const HINT_MAGIC: u32 = 0x4849_4e54;

/// The hint file format version.
pub const HINT_VERSION: u8 = 1;

/// Bytes before the first entry.
pub const HINT_HEADER_LEN: usize = 9;

/// Bytes of an entry before its key.
pub const HINT_ENTRY_FIXED_LEN: usize = 29;

/// One record of a data file, as summarised in a hint file.
#[derive(Clone, Debug, PartialEq, Eq)]
pub struct HintEntry {
    pub key: Vec<u8>,
    pub file_id: u32,
    pub offset: u64,
    pub size_bytes: u32,
    pub timestamp: u64,
    pub is_tombstone: bool,
}

/// A hint entry as a mathematical value.
pub struct HintEntryView {
    pub key: Seq<u8>,
    pub file_id: u32,
    pub offset: u64,
    pub size_bytes: u32,
    pub timestamp: u64,
    pub is_tombstone: bool,
}

impl View for HintEntry {
    type V = HintEntryView;

    open spec fn view(&self) -> HintEntryView {
        HintEntryView {
            key: self.key@,
            file_id: self.file_id,
            offset: self.offset,
            size_bytes: self.size_bytes,
            timestamp: self.timestamp,
            is_tombstone: self.is_tombstone,
        }
    }
}

/// The KeyDir entry that a hint entry stands for.
pub open spec fn hint_to_keydir_entry(h: HintEntryView) -> KeyDirEntry {
    KeyDirEntry {
        file_id: h.file_id,
        offset: h.offset,
        size_bytes: h.size_bytes,
        timestamp: h.timestamp,
        is_tombstone: h.is_tombstone,
    }
}

impl HintEntry {
    /// The KeyDir entry for this record.
    pub fn to_keydir_entry(&self) -> (e: KeyDirEntry)
        ensures
            e == hint_to_keydir_entry(self@),
    {
        KeyDirEntry {
            file_id: self.file_id,
            offset: self.offset,
            size_bytes: self.size_bytes,
            timestamp: self.timestamp,
            is_tombstone: self.is_tombstone,
        }
    }
}

// ---- specification of the format -------------------------------------------
/// The bytes of one entry.  The key length field holds the length cut to
/// 32 bits.
pub open spec fn spec_encode_hint_entry(e: HintEntryView) -> Seq<u8> {
    spec_u32_to_le_bytes(e.key.len() as u32) + spec_u32_to_le_bytes(e.file_id)
        + spec_u64_to_le_bytes(e.offset) + spec_u32_to_le_bytes(e.size_bytes)
        + spec_u64_to_le_bytes(e.timestamp) + seq![if e.is_tombstone { 1u8 } else { 0u8 }] + e.key
}

/// The bytes of a run of entries.
pub open spec fn spec_encode_hint_entries(s: Seq<HintEntryView>) -> Seq<u8>
    decreases s.len(),
{
    if s.len() == 0 {
        Seq::empty()
    } else {
        spec_encode_hint_entries(s.drop_last()) + spec_encode_hint_entry(s.last())
    }
}

/// The bytes before the entries of a file of `count` entries.
pub open spec fn spec_hint_header(count: u32) -> Seq<u8> {
    spec_u32_to_le_bytes(HINT_MAGIC) + seq![HINT_VERSION] + spec_u32_to_le_bytes(count)
}

/// The bytes of a hint file.  The count field holds the number of entries
/// cut to 32 bits.
pub open spec fn spec_encode_hint_file(s: Seq<HintEntryView>) -> Seq<u8> {
    spec_hint_header(s.len() as u32) + spec_encode_hint_entries(s)
}

/// The entry stored at `buf[at..]` and the position after it, if well formed.
pub open spec fn spec_parse_hint_entry(buf: Seq<u8>, at: int) -> Option<(HintEntryView, int)> {
    if at + HINT_ENTRY_FIXED_LEN > buf.len() {
        None
    } else {
        let key_len = spec_u32_at(buf, at);
        let flag = buf[at + 28];
        let key_start = at + HINT_ENTRY_FIXED_LEN;
        if flag > 1 {
            None
        } else if key_start + key_len > buf.len() {
            None
        } else {
            Some(
                (
                    HintEntryView {
                        key: buf.subrange(key_start, key_start + key_len),
                        file_id: spec_u32_at(buf, at + 4),
                        offset: spec_u64_at(buf, at + 8),
                        size_bytes: spec_u32_at(buf, at + 16),
                        timestamp: spec_u64_at(buf, at + 20),
                        is_tombstone: flag == 1,
                    },
                    key_start + key_len,
                ),
            )
        }
    }
}

/// `count` consecutive entries stored from `buf[at..]` on, if all are well
/// formed.
pub open spec fn spec_parse_hint_entries(buf: Seq<u8>, at: int, count: nat) -> Option<
    Seq<HintEntryView>,
>
    decreases count,
{
    if count == 0 {
        Some(Seq::empty())
    } else {
        match spec_parse_hint_entry(buf, at) {
            None => None,
            Some((e, next)) => match spec_parse_hint_entries(buf, next, (count - 1) as nat) {
                None => None,
                Some(rest) => Some(seq![e] + rest),
            },
        }
    }
}

/// The entries a hint file holds, if it is well formed.  Bytes after the
/// last counted entry are ignored.
pub open spec fn spec_parse_hint_file(buf: Seq<u8>) -> Option<Seq<HintEntryView>> {
    if buf.len() < HINT_HEADER_LEN {
        None
    } else if spec_u32_at(buf, 0) != HINT_MAGIC {
        None
    } else if buf[4] != HINT_VERSION {
        None
    } else {
        spec_parse_hint_entries(buf, HINT_HEADER_LEN as int, spec_u32_at(buf, 5) as nat)
    }
}

/// Whether executable entries are the given mathematical ones.
pub open spec fn hint_entries_match(v: Seq<HintEntry>, s: Seq<HintEntryView>) -> bool {
    &&& v.len() == s.len()
    &&& forall|i: int| 0 <= i < v.len() ==> #[trigger] v[i]@ == s[i]
}

// ---- executable code --------------------------------------------------------
fn push_hint_entry(out: &mut Vec<u8>, e: &HintEntry)
    ensures
        final(out)@ == old(out)@ + spec_encode_hint_entry(e@),
{
    #[verifier::truncate]
    let key_len = e.key.len() as u32;
    push_u32_le(out, key_len);
    push_u32_le(out, e.file_id);
    push_u64_le(out, e.offset);
    push_u32_le(out, e.size_bytes);
    push_u64_le(out, e.timestamp);
    out.push(if e.is_tombstone { 1u8 } else { 0u8 });
    push_all(out, e.key.as_slice());
    proof {
        assert(final(out)@ =~= old(out)@ + spec_encode_hint_entry(e@));
    }
}

/// The bytes of a hint file holding `entries`.  The count and key length
/// fields hold their values cut to 32 bits.
pub fn encode_hint_file(entries: &[HintEntry]) -> (out: Vec<u8>)
    ensures
        out@ == spec_encode_hint_file(entries@.map_values(|e: HintEntry| e@)),
{
    let ghost views = entries@.map_values(|e: HintEntry| e@);
    let mut out: Vec<u8> = Vec::new();
    push_u32_le(&mut out, HINT_MAGIC);
    out.push(HINT_VERSION);
    #[verifier::truncate]
    let count = entries.len() as u32;
    push_u32_le(&mut out, count);
    proof {
        assert(out@ =~= spec_hint_header(views.len() as u32));
    }
    let mut i: usize = 0;
    while i < entries.len()
        invariant
            i <= entries@.len(),
            views == entries@.map_values(|e: HintEntry| e@),
            out@ == spec_hint_header(views.len() as u32) + spec_encode_hint_entries(
                views.take(i as int),
            ),
        decreases entries@.len() - i,
    {
        let ghost before = out@;
        push_hint_entry(&mut out, &entries[i]);
        proof {
            let t = views.take(i + 1);
            assert(t.drop_last() =~= views.take(i as int));
            assert(t.last() == entries@[i as int]@);
            assert(out@ =~= spec_hint_header(views.len() as u32) + spec_encode_hint_entries(t));
        }
        i = i + 1;
    }
    proof {
        assert(views.take(entries@.len() as int) =~= views);
    }
    out
}

fn parse_hint_entry(buf: &[u8], at: usize) -> (r: Option<(HintEntry, usize)>)
    requires
        at <= buf@.len(),
    ensures
        match (r, spec_parse_hint_entry(buf@, at as int)) {
            (Some((e, next)), Some((ev, snext))) => e@ == ev && next == snext,
            (None, None) => true,
            _ => false,
        },
{
    let n = buf.len();
    if n - at < HINT_ENTRY_FIXED_LEN {
        return None;
    }
    let key_len = read_u32_le(buf, at) as usize;
    let file_id = read_u32_le(buf, at + 4);
    let offset = read_u64_le(buf, at + 8);
    let size_bytes = read_u32_le(buf, at + 16);
    let timestamp = read_u64_le(buf, at + 20);
    let flag = buf[at + 28];
    let is_tombstone = match flag {
        0 => false,
        1 => true,
        _ => return None,
    };
    let key_start = at + HINT_ENTRY_FIXED_LEN;
    if n - key_start < key_len {
        return None;
    }
    let key = copy_range(buf, key_start, key_start + key_len);
    Some((HintEntry { key, file_id, offset, size_bytes, timestamp, is_tombstone }, key_start + key_len))
}

/// Reads the entries of a hint file.  Fails with `InvalidHintFile` when the
/// header is wrong or an entry is cut short or has a flag other than 0 or 1.
pub fn parse_hint_file(buf: &[u8]) -> (r: Result<Vec<HintEntry>, BitdbError>)
    ensures
        match (r, spec_parse_hint_file(buf@)) {
            (Ok(v), Some(s)) => hint_entries_match(v@, s),
            (Err(e), None) => e == BitdbError::InvalidHintFile,
            _ => false,
        },
{
    if buf.len() < HINT_HEADER_LEN {
        return Err(BitdbError::InvalidHintFile);
    }
    let magic = read_u32_le(buf, 0);
    if magic != HINT_MAGIC {
        return Err(BitdbError::InvalidHintFile);
    }
    if buf[4] != HINT_VERSION {
        return Err(BitdbError::InvalidHintFile);
    }
    let count = read_u32_le(buf, 5);
    let ghost total = spec_parse_hint_entries(buf@, HINT_HEADER_LEN as int, count as nat);
    let mut offset: usize = HINT_HEADER_LEN;
    let mut entries: Vec<HintEntry> = Vec::new();
    let mut i: u32 = 0;
    while i < count
        invariant
            i <= count,
            offset <= buf@.len(),
            total == spec_parse_hint_entries(buf@, HINT_HEADER_LEN as int, count as nat),
            total == spec_parse_hint_file(buf@),
            total == match spec_parse_hint_entries(buf@, offset as int, (count - i) as nat) {
                None => None,
                Some(rest) => Some(entries@.map_values(|e: HintEntry| e@) + rest),
            },
        decreases count - i,
    {
        match parse_hint_entry(buf, offset) {
            None => {
                proof {
                    assert(spec_parse_hint_entries(buf@, offset as int, (count - i) as nat) is None);
                }
                return Err(BitdbError::InvalidHintFile);
            },
            Some((e, next)) => {
                proof {
                    let old_views = entries@.map_values(|e: HintEntry| e@);
                    let new_views = entries@.push(e).map_values(|e: HintEntry| e@);
                    assert(new_views =~= old_views + seq![e@]);
                    match spec_parse_hint_entries(buf@, next as int, (count - i - 1) as nat) {
                        None => {},
                        Some(rest) => {
                            assert(old_views + (seq![e@] + rest) =~= new_views + rest);
                        },
                    }
                }
                entries.push(e);
                offset = next;
            },
        }
        i = i + 1;
    }
    proof {
        let views = entries@.map_values(|e: HintEntry| e@);
        assert(views + Seq::<HintEntryView>::empty() =~= views);
        assert(hint_entries_match(entries@, views));
    }
    Ok(entries)
}

// ---- laws -------------------------------------------------------------------
/// Whether entries can be written to a hint file and read back: there are
/// at most `u32::MAX` of them and every key length fits in 32 bits.
pub open spec fn hint_encodable(s: Seq<HintEntryView>) -> bool {
    &&& s.len() <= u32::MAX
    &&& forall|i: int| 0 <= i < s.len() ==> #[trigger] s[i].key.len() <= u32::MAX
}

proof fn lemma_encode_entries_front(s: Seq<HintEntryView>)
    requires
        s.len() > 0,
    ensures
        spec_encode_hint_entries(s) == spec_encode_hint_entry(s[0]) + spec_encode_hint_entries(
            s.drop_first(),
        ),
    decreases s.len(),
{
    if s.len() == 1 {
        assert(s.drop_last() =~= Seq::<HintEntryView>::empty());
        assert(s.drop_first() =~= Seq::<HintEntryView>::empty());
        assert(spec_encode_hint_entries(s.drop_last()) == Seq::<u8>::empty());
        assert(spec_encode_hint_entries(s.drop_first()) == Seq::<u8>::empty());
        assert(s.last() == s[0]);
        assert(spec_encode_hint_entries(s) =~= spec_encode_hint_entry(s[0]));
    } else {
        lemma_encode_entries_front(s.drop_last());
        assert(s.drop_last().drop_first() =~= s.drop_first().drop_last());
        assert(s.drop_first().last() == s.last());
        assert(s.drop_last()[0] == s[0]);
        assert(spec_encode_hint_entries(s) =~= spec_encode_hint_entry(s[0])
            + spec_encode_hint_entries(s.drop_first()));
    }
}

proof fn lemma_parse_one_entry(p: Seq<u8>, e: HintEntryView, tail: Seq<u8>)
    requires
        e.key.len() <= u32::MAX,
    ensures
        spec_parse_hint_entry(p + spec_encode_hint_entry(e) + tail, p.len() as int) == Some(
            (e, (p.len() + spec_encode_hint_entry(e).len()) as int),
        ),
        spec_encode_hint_entry(e).len() == HINT_ENTRY_FIXED_LEN + e.key.len(),
{
    lemma_auto_spec_u32_to_from_le_bytes();
    lemma_auto_spec_u64_to_from_le_bytes();
    let buf = p + spec_encode_hint_entry(e) + tail;
    let at = p.len() as int;
    assert(buf.subrange(at, at + 4) =~= spec_u32_to_le_bytes(e.key.len() as u32));
    assert(buf.subrange(at + 4, at + 8) =~= spec_u32_to_le_bytes(e.file_id));
    assert(buf.subrange(at + 8, at + 16) =~= spec_u64_to_le_bytes(e.offset));
    assert(buf.subrange(at + 16, at + 20) =~= spec_u32_to_le_bytes(e.size_bytes));
    assert(buf.subrange(at + 20, at + 28) =~= spec_u64_to_le_bytes(e.timestamp));
    assert(buf[at + 28] == if e.is_tombstone { 1u8 } else { 0u8 });
    let ks = at + HINT_ENTRY_FIXED_LEN;
    assert(buf.subrange(ks, ks + e.key.len()) =~= e.key);
}

proof fn lemma_parse_entries(p: Seq<u8>, s: Seq<HintEntryView>, tail: Seq<u8>)
    requires
        forall|i: int| 0 <= i < s.len() ==> #[trigger] s[i].key.len() <= u32::MAX,
    ensures
        spec_parse_hint_entries(p + spec_encode_hint_entries(s) + tail, p.len() as int, s.len())
            == Some(s),
    decreases s.len(),
{
    if s.len() == 0 {
        assert(spec_parse_hint_entries(p + spec_encode_hint_entries(s) + tail, p.len() as int, 0)
            == Some(Seq::<HintEntryView>::empty()));
        assert(s =~= Seq::<HintEntryView>::empty());
    } else {
        lemma_encode_entries_front(s);
        let e = s[0];
        let rest = s.drop_first();
        let enc_e = spec_encode_hint_entry(e);
        let buf = p + spec_encode_hint_entries(s) + tail;
        assert(buf =~= p + enc_e + (spec_encode_hint_entries(rest) + tail));
        lemma_parse_one_entry(p, e, spec_encode_hint_entries(rest) + tail);
        assert(buf =~= (p + enc_e) + spec_encode_hint_entries(rest) + tail);
        assert forall|i: int| 0 <= i < rest.len() implies #[trigger] rest[i].key.len()
            <= u32::MAX by {
            assert(rest[i] == s[i + 1]);
        }
        lemma_parse_entries(p + enc_e, rest, tail);
        assert(seq![e] + rest =~= s);
    }
}

/// Reading a hint file gives back the entries it was written from: parsing
/// the encoding of encodable entries, followed by any other bytes, yields
/// exactly those entries.
pub proof fn law_parse_hint_file_inverts_encode(s: Seq<HintEntryView>, tail: Seq<u8>)
    requires
        hint_encodable(s),
    ensures
        spec_parse_hint_file(spec_encode_hint_file(s) + tail) == Some(s),
{
    lemma_auto_spec_u32_to_from_le_bytes();
    let buf = spec_encode_hint_file(s) + tail;
    let h = spec_hint_header(s.len() as u32);
    assert(h.len() == HINT_HEADER_LEN);
    assert(buf.subrange(0, 4) =~= spec_u32_to_le_bytes(HINT_MAGIC));
    assert(buf[4] == HINT_VERSION);
    assert(buf.subrange(5, 9) =~= spec_u32_to_le_bytes(s.len() as u32));
    assert(buf =~= h + spec_encode_hint_entries(s) + tail);
    lemma_parse_entries(h, s, tail);
}

proof fn lemma_encode_entries_concat(a: Seq<HintEntryView>, b: Seq<HintEntryView>)
    ensures
        spec_encode_hint_entries(a + b) == spec_encode_hint_entries(a) + spec_encode_hint_entries(
            b,
        ),
    decreases b.len(),
{
    if b.len() == 0 {
        assert(a + b =~= a);
        assert(spec_encode_hint_entries(a) + spec_encode_hint_entries(b) =~= spec_encode_hint_entries(
            a,
        ));
    } else {
        lemma_encode_entries_concat(a, b.drop_last());
        assert((a + b).drop_last() =~= a + b.drop_last());
        assert((a + b).last() == b.last());
        assert(spec_encode_hint_entries(a + b) =~= spec_encode_hint_entries(a)
            + spec_encode_hint_entries(b));
    }
}

/// Reading a hint file written from any number of entries gives back the
/// entries its count field covers: all of them when there are at most
/// `u32::MAX`, otherwise the first (count cut to 32 bits) of them.
pub proof fn lemma_parse_counted_prefix(s: Seq<HintEntryView>, tail: Seq<u8>)
    requires
        forall|i: int| 0 <= i < s.len() ==> #[trigger] s[i].key.len() <= u32::MAX,
    ensures
        (s.len() as u32) <= s.len(),
        s.len() <= u32::MAX ==> (s.len() as u32) == s.len(),
        spec_parse_hint_file(spec_encode_hint_file(s) + tail) == Some(
            s.take((s.len() as u32) as int),
        ),
{
    lemma_auto_spec_u32_to_from_le_bytes();
    let c = (s.len() as u32) as int;
    let a = s.take(c);
    let b = s.skip(c);
    assert(a + b =~= s);
    lemma_encode_entries_concat(a, b);
    let buf = spec_encode_hint_file(s) + tail;
    let h = spec_hint_header(s.len() as u32);
    assert(h.len() == HINT_HEADER_LEN);
    assert(buf.subrange(0, 4) =~= spec_u32_to_le_bytes(HINT_MAGIC));
    assert(buf[4] == HINT_VERSION);
    assert(buf.subrange(5, 9) =~= spec_u32_to_le_bytes(s.len() as u32));
    assert(buf =~= h + spec_encode_hint_entries(a) + (spec_encode_hint_entries(b) + tail));
    assert forall|i: int| 0 <= i < a.len() implies #[trigger] a[i].key.len() <= u32::MAX by {
        assert(a[i] == s[i]);
    }
    lemma_parse_entries(h, a, spec_encode_hint_entries(b) + tail);
}

/// The flag byte of an encoded hint entry, 28 bytes into it, is 1 exactly
/// for a tombstone and 0 for a key that holds a value.
pub proof fn law_hint_entry_flag_byte(e: HintEntryView)
    ensures
        spec_encode_hint_entry(e).len() > 28,
        spec_encode_hint_entry(e)[28] == (if e.is_tombstone {
            1u8
        } else {
            0u8
        }),
{
    lemma_auto_spec_u32_to_from_le_bytes();
    lemma_auto_spec_u64_to_from_le_bytes();
    assert(spec_u32_to_le_bytes(e.key.len() as u32).len() == 4);
    assert(spec_u32_to_le_bytes(e.file_id).len() == 4);
    assert(spec_u64_to_le_bytes(e.offset).len() == 8);
    assert(spec_u32_to_le_bytes(e.size_bytes).len() == 4);
    assert(spec_u64_to_le_bytes(e.timestamp).len() == 8);
}

/// Reading a hint entry takes the flag byte the same way: the entry is a
/// tombstone exactly when the byte is 1 and holds a value exactly when it
/// is 0; an entry whose flag byte is anything else is refused.
pub proof fn law_parsed_hint_flag_byte(buf: Seq<u8>, at: int)
    requires
        0 <= at,
    ensures
        spec_parse_hint_entry(buf, at) matches Some((e, _)) ==> {
            &&& at + 28 < buf.len()
            &&& (e.is_tombstone <==> buf[at + 28] == 1)
            &&& (!e.is_tombstone <==> buf[at + 28] == 0)
        },
        at + HINT_ENTRY_FIXED_LEN <= buf.len() && buf[at + 28] > 1 ==> spec_parse_hint_entry(
            buf,
            at,
        ) is None,
{
}

} // verus!
