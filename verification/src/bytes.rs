//! Little-endian byte packing for the fixed GPU record layouts.
//!
//! Transform matrices, material uniforms, per-instance records and
//! indirect draw arguments are all laid out as packed sequences of
//! 32-bit words.  This module defines that layout once, as a spec, and
//! provides verified encoders and decoders for it.

use vstd::prelude::*;

verus! {

/// The four bytes of a 32-bit word, least significant first.
pub open spec fn le_bytes_of_u32(x: u32) -> Seq<u8> {
    seq![
        (x & 0xff) as u8,
        ((x >> 8) & 0xff) as u8,
        ((x >> 16) & 0xff) as u8,
        ((x >> 24) & 0xff) as u8,
    ]
}

/// A sequence of words, each packed as four little-endian bytes, with
/// no padding between words.
pub open spec fn le_bytes_of_words(ws: Seq<u32>) -> Seq<u8>
    decreases ws.len(),
{
    if ws.len() == 0 {
        Seq::empty()
    } else {
        le_bytes_of_words(ws.drop_last()) + le_bytes_of_u32(ws.last())
    }
}

pub proof fn lemma_le_bytes_of_words_len(ws: Seq<u32>)
    ensures
        le_bytes_of_words(ws).len() == 4 * ws.len(),
    decreases ws.len(),
{
    if ws.len() > 0 {
        lemma_le_bytes_of_words_len(ws.drop_last());
    }
}

/// Packing distributes over concatenation of word sequences.
pub proof fn lemma_le_bytes_of_words_add(a: Seq<u32>, b: Seq<u32>)
    ensures
        le_bytes_of_words(a + b) == le_bytes_of_words(a) + le_bytes_of_words(b),
    decreases b.len(),
{
    if b.len() == 0 {
        assert(a + b =~= a);
        assert(le_bytes_of_words(b) =~= Seq::<u8>::empty());
        assert(le_bytes_of_words(a) + le_bytes_of_words(b) =~= le_bytes_of_words(a));
    } else {
        lemma_le_bytes_of_words_add(a, b.drop_last());
        assert((a + b).drop_last() =~= a + b.drop_last());
        assert((a + b).last() == b.last());
        assert(le_bytes_of_words(a) + le_bytes_of_words(b.drop_last()) + le_bytes_of_u32(b.last())
            =~= le_bytes_of_words(a) + le_bytes_of_words(b));
    }
}

proof fn lemma_u32_byte_parts(x: u32)
    ensures
        x & 0xff < 256,
        (x >> 8) & 0xff < 256,
        (x >> 16) & 0xff < 256,
        (x >> 24) & 0xff < 256,
{
    assert(x & 0xff < 256 && (x >> 8) & 0xff < 256 && (x >> 16) & 0xff < 256 && (x >> 24) & 0xff
        < 256) by (bit_vector);
}

/// Appends the four little-endian bytes of `x` to `out`.
pub fn push_u32_le(out: &mut Vec<u8>, x: u32)
    ensures
        final(out)@ == old(out)@ + le_bytes_of_u32(x),
{
    proof {
        lemma_u32_byte_parts(x);
    }
    out.push((x & 0xff) as u8);
    out.push(((x >> 8) & 0xff) as u8);
    out.push(((x >> 16) & 0xff) as u8);
    out.push(((x >> 24) & 0xff) as u8);
    assert(out@ =~= old(out)@ + le_bytes_of_u32(x));
}

/// Packs a slice of 32-bit words into little-endian bytes.
pub fn words_to_le_bytes(ws: &Vec<u32>) -> (r: Vec<u8>)
    ensures
        r@ == le_bytes_of_words(ws@),
{
    let mut out: Vec<u8> = Vec::new();
    let mut i: usize = 0;
    while i < ws.len()
        invariant
            i <= ws.len(),
            out@ == le_bytes_of_words(ws@.take(i as int)),
        decreases ws.len() - i,
    {
        push_u32_le(&mut out, ws[i]);
        proof {
            assert(ws@.take((i + 1) as int).drop_last() =~= ws@.take(i as int));
            assert(ws@.take((i + 1) as int).last() == ws@[i as int]);
        }
        i = i + 1;
    }
    assert(ws@.take(ws@.len() as int) =~= ws@);
    out
}

/// Reads the 32-bit word packed at the four little-endian bytes given.
pub fn u32_from_le(b0: u8, b1: u8, b2: u8, b3: u8) -> (r: u32)
    ensures
        le_bytes_of_u32(r) == seq![b0, b1, b2, b3],
{
    let r = (b0 as u32) | ((b1 as u32) << 8) | ((b2 as u32) << 16) | ((b3 as u32) << 24);
    proof {
        assert({
            let x = ((b0 as u32) | ((b1 as u32) << 8) | ((b2 as u32) << 16) | ((b3 as u32) << 24));
            x & 0xff == b0 as u32 && (x >> 8) & 0xff == b1 as u32 && (x >> 16) & 0xff == b2 as u32
                && (x >> 24) & 0xff == b3 as u32
        }) by (bit_vector);
        assert(le_bytes_of_u32(r) =~= seq![b0, b1, b2, b3]);
    }
    r
}

/// Unpacks little-endian bytes into the 32-bit words they encode.
pub fn words_from_le_bytes(b: &Vec<u8>) -> (r: Vec<u32>)
    requires
        b@.len() % 4 == 0,
    ensures
        le_bytes_of_words(r@) == b@,
        4 * r@.len() == b@.len(),
{
    let mut out: Vec<u32> = Vec::new();
    let mut i: usize = 0;
    while i < b.len()
        invariant
            i <= b.len(),
            i % 4 == 0,
            b@.len() % 4 == 0,
            le_bytes_of_words(out@) == b@.take(i as int),
            4 * out@.len() == i,
        decreases b.len() - i,
    {
        assert(i + 4 <= b@.len());
        let ghost prev = out@;
        let w = u32_from_le(b[i], b[i + 1], b[i + 2], b[i + 3]);
        out.push(w);
        proof {
            assert(out@.drop_last() =~= prev);
            lemma_le_bytes_of_words_len(out@);
            assert(b@.take((i + 4) as int) =~= b@.take(i as int) + seq![
                b@[i as int],
                b@[i as int + 1],
                b@[i as int + 2],
                b@[i as int + 3],
            ]);
            assert(le_bytes_of_words(out@) =~= b@.take((i + 4) as int));
        }
        i = i + 4;
    }
    assert(b@.take(b@.len() as int) =~= b@);
    out
}

/// An owned copy of a byte vector.
pub fn clone_bytes(v: &Vec<u8>) -> (r: Vec<u8>)
    ensures
        r@ == v@,
{
    let mut out: Vec<u8> = Vec::new();
    let mut i: usize = 0;
    while i < v.len()
        invariant
            i <= v@.len(),
            out@ == v@.take(i as int),
        decreases v@.len() - i,
    {
        out.push(v[i]);
        proof {
            assert(out@ =~= v@.take((i + 1) as int));
        }
        i = i + 1;
    }
    assert(out@ =~= v@);
    out
}

/// Two words with the same little-endian bytes are the same word.
pub proof fn lemma_le_bytes_of_u32_injective(x: u32, y: u32)
    requires
        le_bytes_of_u32(x) == le_bytes_of_u32(y),
    ensures
        x == y,
{
    assert(le_bytes_of_u32(x)[0] == le_bytes_of_u32(y)[0]);
    assert(le_bytes_of_u32(x)[1] == le_bytes_of_u32(y)[1]);
    assert(le_bytes_of_u32(x)[2] == le_bytes_of_u32(y)[2]);
    assert(le_bytes_of_u32(x)[3] == le_bytes_of_u32(y)[3]);
    assert(((x & 0xff) as u8 == (y & 0xff) as u8 && ((x >> 8) & 0xff) as u8 == ((y >> 8) & 0xff)
        as u8 && ((x >> 16) & 0xff) as u8 == ((y >> 16) & 0xff) as u8 && ((x >> 24) & 0xff) as u8
        == ((y >> 24) & 0xff) as u8) ==> x == y) by (bit_vector);
}

/// The word sequence a packed byte string came from is unique.
pub proof fn lemma_le_words_injective(a: Seq<u32>, b: Seq<u32>)
    requires
        a.len() == b.len(),
        le_bytes_of_words(a) == le_bytes_of_words(b),
    ensures
        a == b,
    decreases a.len(),
{
    if a.len() > 0 {
        let n = a.len() as int;
        lemma_le_bytes_of_words_len(a.drop_last());
        lemma_le_bytes_of_words_len(b.drop_last());
        assert(le_bytes_of_words(a.drop_last()) =~= le_bytes_of_words(b.drop_last())) by {
            assert forall|k: int| 0 <= k < 4 * (n - 1) implies le_bytes_of_words(a.drop_last())[k]
                == le_bytes_of_words(b.drop_last())[k] by {
                assert(le_bytes_of_words(a)[k] == le_bytes_of_words(a.drop_last())[k]);
                assert(le_bytes_of_words(b)[k] == le_bytes_of_words(b.drop_last())[k]);
            }
        }
        lemma_le_words_injective(a.drop_last(), b.drop_last());
        assert(le_bytes_of_u32(a.last()) =~= le_bytes_of_u32(b.last())) by {
            assert forall|k: int| 0 <= k < 4 implies le_bytes_of_u32(a.last())[k]
                == le_bytes_of_u32(b.last())[k] by {
                assert(le_bytes_of_u32(a.last())[k] == le_bytes_of_words(a)[4 * (n - 1) + k]);
                assert(le_bytes_of_u32(b.last())[k] == le_bytes_of_words(b)[4 * (n - 1) + k]);
            }
        }
        lemma_le_bytes_of_u32_injective(a.last(), b.last());
        assert forall|k: int| 0 <= k < n implies a[k] == b[k] by {
            if k < n - 1 {
                assert(a[k] == a.drop_last()[k]);
                assert(b[k] == b.drop_last()[k]);
            } else {
                assert(a[k] == a.last());
                assert(b[k] == b.last());
            }
        }
        assert(a =~= b);
    } else {
        assert(a =~= b);
    }
}

} // verus!
