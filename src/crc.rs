//! The 16-bit checksum of MAVLink frames (CRC-16/MCRF4XX, the X.25 variant).
use vstd::prelude::*;

verus! {

/// The value the checksum starts from.
pub const CRC_INIT: u16 = 0xFFFF;

/// One step of the checksum: fold byte `b` into the running value `crc`.
pub open spec fn crc_step(crc: u16, b: u8) -> u16 {
    let t: u8 = b ^ (crc as u8);
    let t: u8 = t ^ ((t << 4u8) as u8);
    (crc >> 8u16) ^ ((t as u16) << 8u16) ^ ((t as u16) << 3u16) ^ ((t as u16) >> 4u16)
}

/// The running value after folding all of `s` into `crc`, first byte first.
pub open spec fn crc_fold(crc: u16, s: Seq<u8>) -> u16
    decreases s.len(),
{
    if s.len() == 0 {
        crc
    } else {
        crc_step(crc_fold(crc, s.drop_last()), s.last())
    }
}

/// Folds one byte into a running checksum.
pub fn crc_accumulate(crc: u16, b: u8) -> (r: u16)
    ensures
        r == crc_step(crc, b),
{
    let t: u8 = b ^ (crc as u8);
    let t: u8 = t ^ ((t << 4u8) as u8);
    (crc >> 8u16) ^ ((t as u16) << 8u16) ^ ((t as u16) << 3u16) ^ ((t as u16) >> 4u16)
}

/// Folds every byte of `s` into `crc`.
pub fn crc_accumulate_all(crc: u16, s: &[u8]) -> (r: u16)
    ensures
        r == crc_fold(crc, s@),
{
    let mut acc: u16 = crc;
    let mut i: usize = 0;
    while i < s.len()
        invariant
            i <= s@.len(),
            acc == crc_fold(crc, s@.subrange(0, i as int)),
        decreases s@.len() - i,
    {
        proof {
            let p = s@.subrange(0, i as int + 1);
            assert(p.drop_last() =~= s@.subrange(0, i as int));
        }
        acc = crc_accumulate(acc, s[i]);
        i = i + 1;
    }
    assert(s@.subrange(0, i as int) =~= s@);
    acc
}

/// Folding a concatenation is folding its two parts in turn.
pub proof fn lemma_crc_fold_append(crc: u16, a: Seq<u8>, b: Seq<u8>)
    ensures
        crc_fold(crc, a + b) == crc_fold(crc_fold(crc, a), b),
    decreases b.len(),
{
    if b.len() == 0 {
        assert(a + b =~= a);
    } else {
        assert((a + b).drop_last() =~= a + b.drop_last());
        assert((a + b).last() == b.last());
        lemma_crc_fold_append(crc, a, b.drop_last());
    }
}

/// Two different bytes folded into the same value give different values.
pub proof fn lemma_crc_step_byte_injective(crc: u16, b1: u8, b2: u8)
    requires
        b1 != b2,
    ensures
        crc_step(crc, b1) != crc_step(crc, b2),
{
    assert(b1 != b2 ==> crc_step(crc, b1) != crc_step(crc, b2)) by (bit_vector);
}

/// The same byte folded into two different values gives different values.
pub proof fn lemma_crc_step_state_injective(c1: u16, c2: u16, b: u8)
    requires
        c1 != c2,
    ensures
        crc_step(c1, b) != crc_step(c2, b),
{
    assert(c1 != c2 ==> crc_step(c1, b) != crc_step(c2, b)) by (bit_vector);
}

/// Two different running values stay different over any common suffix.
pub proof fn lemma_crc_fold_state_injective(c1: u16, c2: u16, s: Seq<u8>)
    requires
        c1 != c2,
    ensures
        crc_fold(c1, s) != crc_fold(c2, s),
    decreases s.len(),
{
    if s.len() > 0 {
        lemma_crc_fold_state_injective(c1, c2, s.drop_last());
        lemma_crc_step_state_injective(crc_fold(c1, s.drop_last()), crc_fold(c2, s.drop_last()), s.last());
    }
}

} // verus!
