//! Byte-level helpers over UTF-8 encoded text: copying byte ranges, locating
//! character boundaries, and stepping over whole characters.

use vstd::prelude::*;
use vstd::utf8::{
    decode_utf8, is_char_boundary, is_continuation_byte, length_of_first_scalar, pop_first_scalar,
    valid_first_scalar, valid_utf8,
};

verus! {

broadcast use vstd::utf8::group_utf8_lib;

/// A fresh copy of the bytes `v[from..to]`.
pub fn copy_range(v: &Vec<u8>, from: usize, to: usize) -> (r: Vec<u8>)
    requires
        from <= to <= v@.len(),
    ensures
        r@ == v@.subrange(from as int, to as int),
{
    let mut r: Vec<u8> = Vec::new();
    let mut i: usize = from;
    while i < to
        invariant
            from <= i <= to <= v@.len(),
            r@ == v@.subrange(from as int, i as int),
        decreases to - i,
    {
        r.push(v[i]);
        proof {
            assert(r@ =~= v@.subrange(from as int, i + 1));
        }
        i = i + 1;
    }
    r
}

/// Decodes valid UTF-8 bytes into an owned string.
///
/// Relies on `String::from_utf8`: on a valid UTF-8 byte vector it returns the
/// string whose characters are exactly the scalars those bytes encode.
#[verifier::external_body]
pub fn bytes_to_string(b: Vec<u8>) -> (r: String)
    requires
        valid_utf8(b@),
    ensures
        r@ == decode_utf8(b@),
{
    match String::from_utf8(b) {
        Ok(s) => s,
        Err(_) => String::new(),
    }
}

/// True exactly when `pos` falls on a character boundary of `v` (or at its end).
pub fn boundary_at(v: &Vec<u8>, pos: usize) -> (r: bool)
    requires
        pos <= v@.len(),
        valid_utf8(v@),
    ensures
        r == is_char_boundary(v@, pos as int),
{
    if pos == v.len() {
        true
    } else {
        proof {
            vstd::utf8::is_char_boundary_iff_not_is_continuation_byte(v@, pos as int);
        }
        let b = v[pos];
        !(0x80 <= b && b <= 0xbf)
    }
}

/// Byte length of the character that starts at `pos`.
pub fn first_scalar_len(v: &Vec<u8>, pos: usize) -> (k: usize)
    requires
        pos < v@.len(),
        valid_utf8(v@.subrange(pos as int, v@.len() as int)),
    ensures
        k == length_of_first_scalar(v@.subrange(pos as int, v@.len() as int)),
        1 <= k,
        pos + k <= v@.len(),
    no_unwind
{
    let ghost rest = v@.subrange(pos as int, v@.len() as int);
    proof {
        assert(valid_first_scalar(rest));
        assert(rest[0] == v@[pos as int]);
    }
    let b = v[pos];
    if b < 0x80 {
        1
    } else if 0xc0 <= b && b <= 0xdf {
        2
    } else if 0xe0 <= b && b <= 0xef {
        3
    } else {
        4
    }
}

/// Splitting off the first character of the text that remains from `pos`
/// leaves valid UTF-8 on both sides, and decoding distributes over the split.
pub proof fn lemma_first_char_split(text: Seq<u8>, pos: int)
    requires
        0 <= pos < text.len(),
        valid_utf8(text.subrange(pos, text.len() as int)),
    ensures
        ({
            let rest = text.subrange(pos, text.len() as int);
            let k = length_of_first_scalar(rest);
            &&& 1 <= k <= text.len() - pos
            &&& is_char_boundary(rest, k)
            &&& valid_utf8(text.subrange(pos, pos + k))
            &&& valid_utf8(text.subrange(pos + k, text.len() as int))
            &&& decode_utf8(text.subrange(pos, pos + k)).len() == 1
            &&& decode_utf8(rest) =~= decode_utf8(text.subrange(pos, pos + k)) + decode_utf8(
                text.subrange(pos + k, text.len() as int),
            )
        }),
{
    let rest = text.subrange(pos, text.len() as int);
    let k = length_of_first_scalar(rest);
    assert(valid_first_scalar(rest));
    assert(1 <= k <= rest.len());
    assert(pop_first_scalar(rest) =~= text.subrange(pos + k, text.len() as int));
    assert(is_char_boundary(rest, k)) by {
        assert(is_char_boundary(pop_first_scalar(rest), 0));
    }
    vstd::utf8::valid_utf8_split(rest, k);
    assert(rest.subrange(0, k) =~= text.subrange(pos, pos + k));
    assert(rest.subrange(k, rest.len() as int) =~= text.subrange(pos + k, text.len() as int));
    vstd::utf8::decode_utf8_split(rest, k);
    assert(decode_utf8(rest) == seq![
        vstd::utf8::decode_first_scalar(rest) as char,
    ] + decode_utf8(pop_first_scalar(rest)));
    assert(decode_utf8(rest).len() == 1 + decode_utf8(
        text.subrange(pos + k, text.len() as int),
    ).len());
}

/// Two valid UTF-8 byte sequences concatenate into a valid sequence whose
/// decoding is the concatenation of their decodings.
pub proof fn lemma_decode_concat(a: Seq<u8>, b: Seq<u8>)
    requires
        valid_utf8(a),
        valid_utf8(b),
    ensures
        valid_utf8(a + b),
        decode_utf8(a + b) =~= decode_utf8(a) + decode_utf8(b),
{
    vstd::utf8::valid_utf8_concat(a, b);
    let ab = a + b;
    assert(is_char_boundary(ab, a.len() as int)) by {
        if a.len() < ab.len() {
            assert(valid_first_scalar(b));
            assert(!is_continuation_byte(ab[a.len() as int]));
        }
    }
    vstd::utf8::decode_utf8_split(ab, a.len() as int);
    assert(ab.subrange(0, a.len() as int) =~= a);
    assert(ab.subrange(a.len() as int, ab.len() as int) =~= b);
}

/// Character boundaries compose: a boundary of the suffix that starts at a
/// boundary of the whole text is itself a boundary of the whole text.
pub proof fn lemma_boundary_offset(s: Seq<u8>, i: int, j: int)
    requires
        valid_utf8(s),
        is_char_boundary(s, i),
        is_char_boundary(s.subrange(i, s.len() as int), j),
    ensures
        0 <= i + j <= s.len(),
        is_char_boundary(s, i + j),
{
    let suf = s.subrange(i, s.len() as int);
    vstd::utf8::valid_utf8_split(s, i);
    if i + j < s.len() {
        assert(s[i + j] == suf[j]);
        assert(!is_continuation_byte(suf[j]));
    }
}

/// A stretch of text between two character boundaries is valid UTF-8.
pub proof fn lemma_subrange_valid(s: Seq<u8>, i: int, j: int)
    requires
        valid_utf8(s),
        is_char_boundary(s, i),
        is_char_boundary(s, j),
        0 <= i <= j <= s.len(),
    ensures
        valid_utf8(s.subrange(i, j)),
{
    let suf = s.subrange(i, s.len() as int);
    vstd::utf8::valid_utf8_split(s, i);
    assert(is_char_boundary(suf, j - i)) by {
        if j < s.len() {
            assert(suf[j - i] == s[j]);
            assert(!is_continuation_byte(s[j]));
        }
    }
    vstd::utf8::valid_utf8_split(suf, j - i);
    assert(suf.subrange(0, j - i) =~= s.subrange(i, j));
}

/// The least byte offset past `pos` that covers `n` whole characters, clipped
/// to the end of the text.
pub fn advance_chars(v: &Vec<u8>, pos: usize, n: usize) -> (q: usize)
    requires
        pos <= v@.len(),
        valid_utf8(v@.subrange(pos as int, v@.len() as int)),
    ensures
        pos <= q <= v@.len(),
        valid_utf8(v@.subrange(pos as int, q as int)),
        valid_utf8(v@.subrange(q as int, v@.len() as int)),
        is_char_boundary(v@.subrange(pos as int, v@.len() as int), q - pos),
        decode_utf8(v@.subrange(pos as int, v@.len() as int)) =~= decode_utf8(
            v@.subrange(pos as int, q as int),
        ) + decode_utf8(v@.subrange(q as int, v@.len() as int)),
        decode_utf8(v@.subrange(pos as int, q as int)).len() == vstd::math::min(
            n as int,
            decode_utf8(v@.subrange(pos as int, v@.len() as int)).len() as int,
        ),
    decreases n,
{
    if n == 0 || pos == v.len() {
        proof {
            assert(v@.subrange(pos as int, pos as int) =~= Seq::<u8>::empty());
            assert(decode_utf8(v@.subrange(pos as int, pos as int)) =~= Seq::<char>::empty());
        }
        pos
    } else {
        let k = first_scalar_len(v, pos);
        proof {
            lemma_first_char_split(v@, pos as int);
        }
        let q = advance_chars(v, pos + k, n - 1);
        proof {
            let head = v@.subrange(pos as int, pos + k);
            let mid = v@.subrange(pos + k, q as int);
            lemma_decode_concat(head, mid);
            assert(head + mid =~= v@.subrange(pos as int, q as int));
            let rest = v@.subrange(pos as int, v@.len() as int);
            let tail_rest = v@.subrange(pos + k, v@.len() as int);
            assert(is_char_boundary(tail_rest, q - (pos + k)));
            assert(tail_rest =~= rest.subrange(k as int, rest.len() as int));
            lemma_boundary_offset(rest, k as int, q - (pos + k));
            assert(decode_utf8(rest) =~= decode_utf8(v@.subrange(pos as int, q as int))
                + decode_utf8(v@.subrange(q as int, v@.len() as int)));
        }
        q
    }
}

} // verus!
