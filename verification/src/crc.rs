//! CRC32 (IEEE) checksums, computed by the `crc32fast` crate.
use crc32fast::Hasher;
use vstd::prelude::*;

verus! {

/// `crc32fast::Hasher`, an in-progress CRC32 computation.
#[verifier::external_type_specification]
#[verifier::external_body]
pub struct ExHasher(Hasher);

/// The CRC32 (IEEE polynomial, initial state 0) of a byte sequence, as
/// `crc32fast` computes it.
pub uninterp spec fn crc32_of(bytes: Seq<u8>) -> u32;

/// All bytes fed into a hasher since it was created.
pub uninterp spec fn hasher_input(h: Hasher) -> Seq<u8>;

/// `Hasher::new`: a fresh hasher has been fed no bytes.
pub assume_specification[ Hasher::new ]() -> (h: Hasher)
    ensures
        hasher_input(h) == Seq::<u8>::empty(),
;

/// `Hasher::update`: the bytes are appended to those already fed.
/// (The crate keeps a `u64` byte count, which must not overflow.)
pub assume_specification[ Hasher::update ](h: &mut Hasher, buf: &[u8])
    requires
        hasher_input(*old(h)).len() + buf@.len() <= u64::MAX,
    ensures
        hasher_input(*final(h)) == hasher_input(*old(h)) + buf@,
;

/// `Hasher::finalize`: the CRC32 of every byte fed so far.
pub assume_specification[ Hasher::finalize ](h: Hasher) -> (crc: u32)
    ensures
        crc == crc32_of(hasher_input(h)),
;

/// The checksum a record frame carries: the CRC32 of the frame with its
/// four checksum bytes (offsets 6 to 9) left out.
pub open spec fn frame_crc_input(frame: Seq<u8>) -> Seq<u8> {
    frame.subrange(0, 6) + frame.subrange(10, frame.len() as int)
}

/// Computes the checksum of a record frame: CRC32 over `frame[..6]` and
/// `frame[10..]`.
pub fn compute_crc(frame: &[u8]) -> (crc: u32)
    requires
        frame@.len() >= 10,
    ensures
        crc == crc32_of(frame_crc_input(frame@)),
{
    let mut hasher = Hasher::new();
    hasher.update(&frame[0..6]);
    hasher.update(&frame[10..frame.len()]);
    let crc = hasher.finalize();
    proof {
        assert(hasher_input(hasher) =~= frame_crc_input(frame@));
    }
    crc
}

} // verus!
