//! Runes in UTF-8 text: where they begin, how wide they are, and how to find
//! byte patterns and runs of runes in a byte sequence.

use vstd::prelude::*;
use vstd::string::StringSliceAdditionalSpecFns;
use vstd::utf8::{
    decode_first_scalar, decode_utf8, is_continuation_byte, length_of_first_scalar,
    pop_first_scalar, valid_first_scalar, valid_utf8,
};

verus! {

/// Index `i` is the end of `b` or holds a byte that starts a rune.
pub open spec fn boundary(b: Seq<u8>, i: int) -> bool {
    i == b.len() || (0 <= i < b.len() && !is_continuation_byte(b[i]))
}

/// The bytes of `b` from `pos` on.
pub open spec fn tail(b: Seq<u8>, pos: int) -> Seq<u8> {
    b.subrange(pos, b.len() as int)
}

/// The byte width of the rune that starts at `pos`; 0 at the end of input.
pub open spec fn rune_width(b: Seq<u8>, pos: int) -> int {
    if 0 <= pos < b.len() {
        length_of_first_scalar(tail(b, pos))
    } else {
        0
    }
}

/// The rune that starts at `pos`, if `pos` is before the end of input.
pub open spec fn rune_at(b: Seq<u8>, pos: int) -> Option<char> {
    if 0 <= pos < b.len() {
        Some(decode_first_scalar(tail(b, pos)) as char)
    } else {
        None
    }
}

/// The characters that the bytes `b[from..to)` encode.
pub open spec fn text(b: Seq<u8>, from: int, to: int) -> Seq<char> {
    decode_utf8(b.subrange(from, to))
}

/// `pat` occurs in `b` at `pos`.
pub open spec fn starts_with_at(b: Seq<u8>, pos: int, pat: Seq<u8>) -> bool {
    0 <= pos && pos + pat.len() <= b.len() && b.subrange(pos, pos + pat.len()) == pat
}

/// The first index at or after `pos` where `pat` occurs in `b`; the length of `b` if there is none.
pub open spec fn find_from(b: Seq<u8>, pos: int, pat: Seq<u8>) -> int
    decreases b.len() - pos,
{
    if pos < 0 || pos >= b.len() {
        b.len() as int
    } else if starts_with_at(b, pos, pat) {
        pos
    } else {
        find_from(b, pos + 1, pat)
    }
}

/// Before the end of input a rune is one to four bytes wide, whatever the bytes are.
pub proof fn lemma_rune_width_range(b: Seq<u8>, pos: int)
    ensures
        0 <= pos < b.len() ==> 1 <= rune_width(b, pos) <= 4,
        !(0 <= pos < b.len()) ==> rune_width(b, pos) == 0,
{
}

/// On well-formed UTF-8 the simple test on one byte agrees with the definition of a
/// character boundary by decoding from the start.
pub proof fn lemma_boundary_agrees(b: Seq<u8>, i: int)
    requires
        valid_utf8(b),
    ensures
        boundary(b, i) == vstd::utf8::is_char_boundary(b, i),
{
    if 0 <= i < b.len() {
        vstd::utf8::is_char_boundary_iff_not_is_continuation_byte(b, i);
    } else if i == b.len() {
        vstd::utf8::is_char_boundary_start_end_of_seq(b);
    }
}

/// The text from a boundary on is well-formed UTF-8.
pub proof fn lemma_tail_valid(b: Seq<u8>, pos: int)
    requires
        valid_utf8(b),
        boundary(b, pos),
    ensures
        valid_utf8(tail(b, pos)),
        valid_utf8(b.subrange(0, pos)),
{
    lemma_boundary_agrees(b, pos);
    vstd::utf8::valid_utf8_split(b, pos);
}

/// A rune that starts at a boundary ends at the next boundary, at most four bytes on.
pub proof fn lemma_rune_step(b: Seq<u8>, pos: int)
    requires
        valid_utf8(b),
        boundary(b, pos),
        0 <= pos < b.len(),
    ensures
        1 <= rune_width(b, pos) <= 4,
        pos + rune_width(b, pos) <= b.len(),
        boundary(b, pos + rune_width(b, pos)),
        forall|j: int| pos < j < pos + rune_width(b, pos) ==> !boundary(b, j),
        valid_first_scalar(tail(b, pos)),
{
    lemma_tail_valid(b, pos);
    let t = tail(b, pos);
    let w = rune_width(b, pos);
    assert(valid_first_scalar(t) && valid_utf8(pop_first_scalar(t)));
    assert(pop_first_scalar(t) =~= tail(b, pos + w));
    if pos + w < b.len() {
        let t2 = tail(b, pos + w);
        assert(valid_first_scalar(t2));
        assert(t2[0] == b[pos + w]);
    }
    assert forall|j: int| pos < j < pos + w implies !boundary(b, j) by {
        assert(t[j - pos] == b[j]);
    }
}

/// What the first rune of well-formed text decodes to is a Unicode scalar value.
pub proof fn lemma_scalar_bounds(t: Seq<u8>)
    requires
        valid_first_scalar(t),
    ensures
        decode_first_scalar(t) <= 0x10ffff,
        !(0xd800 <= decode_first_scalar(t) <= 0xdfff),
        (decode_first_scalar(t) as char) as u32 == decode_first_scalar(t),
{
    let b0 = t[0];
    if vstd::utf8::is_leading_byte_width_1(b0) {
        assert((b0 & 0x7f) as u32 <= 0x7f) by (bit_vector);
    } else if vstd::utf8::is_leading_byte_width_2(b0) {
        let b1 = t[1];
        assert((((b0 & 0x1f) as u32) << 6 | (b1 & 0x3f) as u32) <= 0x7ff) by (bit_vector);
    } else if vstd::utf8::is_leading_byte_width_3(b0) {
        let b1 = t[1];
        let b2 = t[2];
        assert((((b0 & 0x0f) as u32) << 12 | ((b1 & 0x3f) as u32) << 6 | (b2 & 0x3f) as u32)
            <= 0xffff) by (bit_vector);
    }
}

/// A byte below 0x80 is a rune of its own, and every rune below U+0080 is such a byte.
pub proof fn lemma_rune_ascii(b: Seq<u8>, pos: int)
    requires
        valid_utf8(b),
        boundary(b, pos),
        0 <= pos < b.len(),
    ensures
        b[pos] < 0x80 <==> (rune_at(b, pos)->0 as u32) < 0x80,
        b[pos] < 0x80 ==> rune_at(b, pos) == Some(b[pos] as char) && rune_width(b, pos) == 1,
{
    lemma_rune_step(b, pos);
    let t = tail(b, pos);
    let x = t[0];
    assert(x == b[pos]);
    if x < 0x80 {
        assert(x & 0x7f == x) by (bit_vector)
            requires
                x < 0x80,
        ;
    } else {
        let cp = decode_first_scalar(t);
        lemma_scalar_bounds(t);
        assert(cp >= 0x80);
    }
}

/// A pattern of well-formed UTF-8 that occurs at a boundary ends at a boundary.
pub proof fn lemma_match_ends_at_boundary(b: Seq<u8>, pos: int, pat: Seq<u8>)
    requires
        valid_utf8(b),
        valid_utf8(pat),
        boundary(b, pos),
        starts_with_at(b, pos, pat),
    ensures
        boundary(b, pos + pat.len()),
    decreases pat.len(),
{
    if pat.len() > 0 {
        lemma_rune_step(b, pos);
        let t = tail(b, pos);
        let w = length_of_first_scalar(pat);
        assert(valid_first_scalar(pat));
        assert forall|k: int| 0 <= k < pat.len() implies pat[k] == t[k] by {
            assert(b.subrange(pos, pos + pat.len())[k] == b[pos + k]);
        }
        assert(w == rune_width(b, pos));
        let rest = pop_first_scalar(pat);
        assert(rest =~= b.subrange(pos + w, pos + w + rest.len()));
        lemma_match_ends_at_boundary(b, pos + w, rest);
    }
}

/// A pattern of well-formed UTF-8 occurs only at boundaries.
pub proof fn lemma_match_is_at_boundary(b: Seq<u8>, pos: int, pat: Seq<u8>)
    requires
        valid_utf8(pat),
        pat.len() > 0,
        starts_with_at(b, pos, pat),
    ensures
        boundary(b, pos),
{
    assert(valid_first_scalar(pat));
    assert(b.subrange(pos, pos + pat.len())[0] == b[pos]);
}

/// `find_from` stays in range, finds an occurrence unless it runs to the end, and passes none.
pub proof fn lemma_find_from(b: Seq<u8>, pos: int, pat: Seq<u8>)
    requires
        0 <= pos <= b.len(),
    ensures
        pos <= find_from(b, pos, pat) <= b.len(),
        find_from(b, pos, pat) < b.len() ==> starts_with_at(b, find_from(b, pos, pat), pat),
        forall|j: int| pos <= j < find_from(b, pos, pat) ==> !starts_with_at(b, j, pat),
    decreases b.len() - pos,
{
    if pos < b.len() && !starts_with_at(b, pos, pat) {
        lemma_find_from(b, pos + 1, pat);
    }
}

/// Where no occurrence starts between `pos` and `to`, the search from `pos` is the search from `to`.
pub proof fn lemma_find_from_skip(b: Seq<u8>, pos: int, to: int, pat: Seq<u8>)
    requires
        0 <= pos <= to <= b.len(),
        forall|j: int| pos <= j < to ==> !starts_with_at(b, j, pat),
    ensures
        find_from(b, pos, pat) == find_from(b, to, pat),
    decreases to - pos,
{
    if pos < to {
        lemma_find_from_skip(b, pos + 1, to, pat);
    }
}

/// The text of a single rune is that rune.
pub proof fn lemma_text_of_rune(b: Seq<u8>, pos: int)
    requires
        valid_utf8(b),
        boundary(b, pos),
        0 <= pos < b.len(),
    ensures
        text(b, pos, pos + rune_width(b, pos)) == seq![rune_at(b, pos)->0],
{
    lemma_rune_step(b, pos);
    reveal_with_fuel(valid_utf8, 2);
    reveal_with_fuel(decode_utf8, 2);
    let t = tail(b, pos);
    let w = rune_width(b, pos);
    let sub = b.subrange(pos, pos + w);
    assert forall|k: int| 0 <= k < w implies sub[k] == t[k] by {}
    assert(valid_first_scalar(sub));
    assert(decode_first_scalar(sub) == decode_first_scalar(t));
    assert(pop_first_scalar(sub) =~= Seq::<u8>::empty());
    assert(decode_utf8(sub) =~= seq![rune_at(b, pos)->0]);
}

/// Tells whether `index` is the end of `input` or the first byte of one of its characters.
pub fn is_char_boundary(input: &str, index: usize) -> (r: bool)
    ensures
        r == boundary(input.spec_bytes(), index as int),
        r == vstd::utf8::is_char_boundary(input.spec_bytes(), index as int),
{
    proof {
        vstd::utf8::encode_utf8_valid_utf8(input@);
        lemma_boundary_agrees(input.spec_bytes(), index as int);
    }
    let bytes = input.as_bytes();
    if index == bytes.len() {
        return true;
    }
    if index > bytes.len() {
        return false;
    }
    let b = bytes[index];
    b < 128 || b >= 192
}

/// Tells whether `pat` occurs in `bytes` at `pos`.
pub fn has_prefix_at(bytes: &[u8], pos: usize, pat: &[u8]) -> (r: bool)
    ensures
        r == starts_with_at(bytes@, pos as int, pat@),
{
    if pos > bytes.len() || pat.len() > bytes.len() - pos {
        return false;
    }
    let mut i: usize = 0;
    while i < pat.len()
        invariant
            pos + pat.len() <= bytes.len(),
            i <= pat.len(),
            forall|k: int| 0 <= k < i ==> bytes@[pos + k] == pat@[k],
        decreases pat.len() - i,
    {
        if bytes[pos + i] != pat[i] {
            proof {
                assert(bytes@.subrange(pos as int, pos + pat@.len())[i as int] == bytes@[pos + i]);
            }
            return false;
        }
        i += 1;
    }
    proof {
        assert(bytes@.subrange(pos as int, pos + pat@.len()) =~= pat@);
    }
    true
}

/// Finds the first place at or after `from` where `pat` occurs in `bytes`.
pub fn find_bytes(bytes: &[u8], from: usize, pat: &[u8]) -> (r: Option<usize>)
    requires
        from <= bytes@.len(),
    ensures
        match r {
            Some(i) => i == find_from(bytes@, from as int, pat@) && i < bytes@.len(),
            None => find_from(bytes@, from as int, pat@) == bytes@.len(),
        },
{
    let mut i: usize = from;
    while i < bytes.len()
        invariant
            from <= i <= bytes@.len(),
            find_from(bytes@, i as int, pat@) == find_from(bytes@, from as int, pat@),
        decreases bytes@.len() - i,
    {
        if has_prefix_at(bytes, i, pat) {
            return Some(i);
        }
        i += 1;
    }
    None
}

} // verus!
