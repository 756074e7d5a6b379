//! Big-endian byte-stream encoding shared by the wire protocols.
use vstd::prelude::*;
use vstd::string::StringSliceAdditionalSpecFns;

verus! {

/// The four bytes of `v`, most significant first.
pub open spec fn be32(v: u32) -> Seq<u8> {
    seq![(v >> 24u32) as u8, (v >> 16u32) as u8, (v >> 8u32) as u8, v as u8]
}

/// The eight bytes of `v`, most significant first.
pub open spec fn be64(v: u64) -> Seq<u8> {
    seq![
        (v >> 56u64) as u8, (v >> 48u64) as u8, (v >> 40u64) as u8, (v >> 32u64) as u8,
        (v >> 24u64) as u8, (v >> 16u64) as u8, (v >> 8u64) as u8, v as u8,
    ]
}

/// The value of the four bytes of `s` from `i` on, most significant first.
pub open spec fn be32_at(s: Seq<u8>, i: int) -> u32 {
    ((s[i] as u32) << 24u32) | ((s[i + 1] as u32) << 16u32) | ((s[i + 2] as u32) << 8u32) | (
    s[i + 3] as u32)
}

/// A length-prefixed byte string: its length as four bytes, then the bytes.
pub open spec fn prefixed(b: Seq<u8>) -> Seq<u8> {
    be32(b.len() as u32) + b
}

pub fn write_u8(w: &mut Vec<u8>, v: u8)
    ensures
        final(w)@ == old(w)@.push(v),
{
    w.push(v);
}

pub fn write_u32(w: &mut Vec<u8>, v: u32)
    ensures
        final(w)@ == old(w)@ + be32(v),
{
    w.push((v >> 24u32) as u8);
    w.push((v >> 16u32) as u8);
    w.push((v >> 8u32) as u8);
    w.push(v as u8);
    assert(w@ =~= old(w)@ + be32(v));
}

pub fn write_u64(w: &mut Vec<u8>, v: u64)
    ensures
        final(w)@ == old(w)@ + be64(v),
{
    w.push((v >> 56u64) as u8);
    w.push((v >> 48u64) as u8);
    w.push((v >> 40u64) as u8);
    w.push((v >> 32u64) as u8);
    w.push((v >> 24u64) as u8);
    w.push((v >> 16u64) as u8);
    w.push((v >> 8u64) as u8);
    w.push(v as u8);
    assert(w@ =~= old(w)@ + be64(v));
}

/// Appends the bytes of `b` unchanged.
pub fn write_all(w: &mut Vec<u8>, b: &[u8])
    ensures
        final(w)@ == old(w)@ + b@,
{
    let mut i: usize = 0;
    while i < b.len()
        invariant
            i <= b@.len(),
            w@ == old(w)@ + b@.subrange(0, i as int),
        decreases b@.len() - i,
    {
        w.push(b[i]);
        i = i + 1;
        assert(w@ =~= old(w)@ + b@.subrange(0, i as int));
    }
    assert(b@.subrange(0, b@.len() as int) =~= b@);
}

/// Appends `b` with its length in front.
/// A length that does not fit in 32 bits is sent truncated, as the host
/// side of the protocol expects.
pub fn write_bytes(w: &mut Vec<u8>, b: &[u8])
    ensures
        final(w)@ == old(w)@ + prefixed(b@),
{
    write_u32(w, b.len() as u32);
    write_all(w, b);
    assert(w@ =~= old(w)@ + prefixed(b@));
}

/// Appends the UTF-8 bytes of `s` with their length in front.
pub fn write_string(w: &mut Vec<u8>, s: &str)
    ensures
        final(w)@ == old(w)@ + prefixed(s.spec_bytes()),
{
    write_bytes(w, s.as_bytes());
}

proof fn lemma_be32_bytes(b0: u8, b1: u8, b2: u8, b3: u8)
    ensures
        ({
            let v = ((b0 as u32) << 24u32) | ((b1 as u32) << 16u32) | ((b2 as u32) << 8u32) | (
            b3 as u32);
            (v >> 24u32) as u8 == b0 && (v >> 16u32) as u8 == b1 && (v >> 8u32) as u8 == b2
                && v as u8 == b3
        }),
{
    assert(({
        let v = ((b0 as u32) << 24u32) | ((b1 as u32) << 16u32) | ((b2 as u32) << 8u32) | (
        b3 as u32);
        (v >> 24u32) as u8 == b0 && (v >> 16u32) as u8 == b1 && (v >> 8u32) as u8 == b2 && v as u8
            == b3
    })) by (bit_vector);
}

/// Four bytes read as a big-endian value encode back to themselves.
pub proof fn lemma_be32_at(s: Seq<u8>, i: int)
    requires
        0 <= i,
        i + 4 <= s.len(),
    ensures
        be32(be32_at(s, i)) == s.subrange(i, i + 4),
{
    lemma_be32_bytes(s[i], s[i + 1], s[i + 2], s[i + 3]);
    assert(be32(be32_at(s, i)) =~= s.subrange(i, i + 4));
}

/// Reads the four bytes at `i` as a big-endian value.
pub fn read_u32(s: &[u8], i: usize) -> (r: u32)
    requires
        i + 4 <= s@.len(),
    ensures
        r == be32_at(s@, i as int),
{
    ((s[i] as u32) << 24u32) | ((s[i + 1] as u32) << 16u32) | ((s[i + 2] as u32) << 8u32) | (s[i
        + 3] as u32)
}

} // verus!
