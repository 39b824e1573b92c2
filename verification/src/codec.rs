//! Little-endian integer fields inside byte buffers.
use vstd::bytes::*;
use vstd::prelude::*;

verus! {

/// The `u32` stored little-endian at `input[at..at + 4]`.
pub open spec fn spec_u32_at(input: Seq<u8>, at: int) -> u32 {
    spec_u32_from_le_bytes(input.subrange(at, at + 4))
}

/// The `u64` stored little-endian at `input[at..at + 8]`.
pub open spec fn spec_u64_at(input: Seq<u8>, at: int) -> u64 {
    spec_u64_from_le_bytes(input.subrange(at, at + 8))
}

/// Reads the little-endian `u32` at `input[at..at + 4]`.
pub fn read_u32_le(input: &[u8], at: usize) -> (v: u32)
    requires
        at + 4 <= input@.len(),
    ensures
        v == spec_u32_at(input@, at as int),
{
    let n = input.len();
    proof {
        assert(at + 4 <= n);
    }
    u32_from_le_bytes(&input[at..at + 4])
}

/// Reads the little-endian `u64` at `input[at..at + 8]`.
pub fn read_u64_le(input: &[u8], at: usize) -> (v: u64)
    requires
        at + 8 <= input@.len(),
    ensures
        v == spec_u64_at(input@, at as int),
{
    let n = input.len();
    proof {
        assert(at + 8 <= n);
    }
    u64_from_le_bytes(&input[at..at + 8])
}

/// Appends every byte of `src` to `out`.
pub fn push_all(out: &mut Vec<u8>, src: &[u8])
    ensures
        final(out)@ == old(out)@ + src@,
{
    let ghost start = out@;
    let mut i: usize = 0;
    while i < src.len()
        invariant
            i <= src@.len(),
            out@ == start + src@.subrange(0, i as int),
        decreases src@.len() - i,
    {
        out.push(src[i]);
        i = i + 1;
        proof {
            assert(src@.subrange(0, i as int) =~= src@.subrange(0, i - 1) + seq![src@[i - 1]]);
        }
    }
    proof {
        assert(src@.subrange(0, src@.len() as int) =~= src@);
    }
}

/// Appends the little-endian bytes of `v` to `out`.
pub fn push_u32_le(out: &mut Vec<u8>, v: u32)
    ensures
        final(out)@ == old(out)@ + spec_u32_to_le_bytes(v),
{
    let b = u32_to_le_bytes(v);
    push_all(out, b.as_slice());
}

/// Appends the little-endian bytes of `v` to `out`.
pub fn push_u64_le(out: &mut Vec<u8>, v: u64)
    ensures
        final(out)@ == old(out)@ + spec_u64_to_le_bytes(v),
{
    let b = u64_to_le_bytes(v);
    push_all(out, b.as_slice());
}

/// Copies `input[start..end]` into a new vector.
pub fn copy_range(input: &[u8], start: usize, end: usize) -> (out: Vec<u8>)
    requires
        start <= end <= input@.len(),
    ensures
        out@ == input@.subrange(start as int, end as int),
{
    let mut out: Vec<u8> = Vec::new();
    push_all(&mut out, &input[start..end]);
    out
}

/// Whether two byte strings are equal.
pub fn bytes_eq(a: &[u8], b: &[u8]) -> (eq: bool)
    ensures
        eq == (a@ == b@),
{
    if a.len() != b.len() {
        return false;
    }
    let mut i: usize = 0;
    while i < a.len()
        invariant
            a@.len() == b@.len(),
            i <= a@.len(),
            forall|j: int| 0 <= j < i ==> a@[j] == b@[j],
        decreases a@.len() - i,
    {
        if a[i] != b[i] {
            return false;
        }
        i = i + 1;
    }
    proof {
        assert(a@ =~= b@);
    }
    true
}

} // verus!
