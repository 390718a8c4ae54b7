//! Canonical wire layout shared by every serialized value of the library:
//! little-endian integers and length-prefixed byte strings.

use vstd::prelude::*;
use vstd::bytes::{spec_u64_to_le_bytes, spec_u64_from_le_bytes, u64_to_le_bytes,
    u64_from_le_bytes, lemma_auto_spec_u64_to_from_le_bytes};
use vstd::slice::slice_subrange;

verus! {

/// Canonical encoding of a byte string: an 8-byte little-endian length
/// followed by the bytes themselves.
pub open spec fn spec_enc_bytes(b: Seq<u8>) -> Seq<u8> {
    spec_u64_to_le_bytes(b.len() as u64) + b
}

/// Canonical encoding of a `u64`.
pub open spec fn spec_enc_u64(x: u64) -> Seq<u8> {
    spec_u64_to_le_bytes(x)
}

/// Reads a `u64` at `pos`; `None` when fewer than 8 bytes remain.
pub open spec fn spec_read_u64(b: Seq<u8>, pos: int) -> Option<(u64, int)> {
    if 0 <= pos && pos + 8 <= b.len() {
        Some((spec_u64_from_le_bytes(b.subrange(pos, pos + 8)), pos + 8))
    } else {
        None
    }
}

/// Reads a length-prefixed byte string at `pos`.
pub open spec fn spec_read_bytes(b: Seq<u8>, pos: int) -> Option<(Seq<u8>, int)> {
    match spec_read_u64(b, pos) {
        None => None,
        Some((n, p)) => {
            if p + n <= b.len() {
                Some((b.subrange(p, p + n), p + n))
            } else {
                None
            }
        },
    }
}

/// Appends the canonical `u64` encoding.
pub fn append_u64(out: &mut Vec<u8>, x: u64)
    ensures
        final(out)@ == old(out)@ + spec_enc_u64(x),
{
    let mut b = u64_to_le_bytes(x);
    out.append(&mut b);
}

/// Appends raw bytes with no prefix.
pub fn append_raw(out: &mut Vec<u8>, b: &Vec<u8>)
    ensures
        final(out)@ == old(out)@ + b@,
{
    out.extend_from_slice(b.as_slice());
}

/// Appends the canonical length-prefixed encoding of `b`.
pub fn append_bytes(out: &mut Vec<u8>, b: &Vec<u8>)
    ensures
        final(out)@ == old(out)@ + spec_enc_bytes(b@),
{
    append_u64(out, b.len() as u64);
    append_raw(out, b);
    proof {
        assert(final(out)@ =~= old(out)@ + spec_enc_bytes(b@));
    }
}

/// Reads a `u64` at `pos`, returning the value and the next position.
pub fn read_u64(b: &Vec<u8>, pos: usize) -> (r: Option<(u64, usize)>)
    ensures
        match spec_read_u64(b@, pos as int) {
            None => r is None,
            Some((x, p)) => r == Some((x, p as usize)),
        },
{
    if pos <= b.len() && b.len() - pos >= 8 {
        let sub = slice_subrange(b.as_slice(), pos, pos + 8);
        let x = u64_from_le_bytes(sub);
        Some((x, pos + 8))
    } else {
        None
    }
}

/// Reads a length-prefixed byte string at `pos`, returning a copy of the
/// bytes and the next position.
pub fn read_bytes(b: &Vec<u8>, pos: usize) -> (r: Option<(Vec<u8>, usize)>)
    ensures
        match spec_read_bytes(b@, pos as int) {
            None => r is None,
            Some((s, p)) => r matches Some(t) && t.0@ == s && t.1 == p,
        },
{
    match read_u64(b, pos) {
        None => None,
        Some((n, p)) => {
            if n <= (b.len() - p) as u64 {
                let m = n as usize;
                let sub = slice_subrange(b.as_slice(), p, p + m);
                let mut v: Vec<u8> = Vec::new();
                v.extend_from_slice(sub);
                proof {
                    assert(v@ =~= b@.subrange(p as int, p + n as int));
                }
                Some((v, p + m))
            } else {
                None
            }
        },
    }
}

/// Reading an encoded byte string from the head of a longer buffer yields
/// the encoded bytes.
pub proof fn lemma_read_enc_bytes(s: Seq<u8>, rest: Seq<u8>)
    requires
        s.len() <= u64::MAX,
    ensures
        spec_read_bytes(spec_enc_bytes(s) + rest, 0)
            == Some((s, 8 + s.len() as int)),
{
    lemma_auto_spec_u64_to_from_le_bytes();
    let b = spec_enc_bytes(s) + rest;
    assert(b.subrange(0, 8) =~= spec_u64_to_le_bytes(s.len() as u64));
    assert(spec_read_u64(b, 0) == Some((s.len() as u64, 8int)));
    assert(b.subrange(8, 8 + s.len() as int) =~= s);
}

} // verus!
