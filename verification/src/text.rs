//! Text as UTF-8: where a byte sequence may be cut into characters, and how
//! to take such a piece out of a string.

use vstd::prelude::*;
use vstd::string::StringSliceAdditionalSpecFns;
use vstd::utf8::{
    decode_utf8, decode_utf8_split, encode_utf8_decode_utf8, encode_utf8_valid_utf8,
    is_char_boundary, is_char_boundary_iff_is_leading_byte,
    is_char_boundary_iff_not_is_continuation_byte, is_char_boundary_start_end_of_seq,
    is_continuation_byte, pop_first_scalar, valid_utf8, valid_utf8_split,
};

verus! {

/// The characters that the bytes of `bytes` from `from` up to `to` encode.
pub open spec fn text(bytes: Seq<u8>, from: int, to: int) -> Seq<char> {
    decode_utf8(bytes.subrange(from, to))
}

/// In valid UTF-8 every index at a byte that is not a continuation byte,
/// and the end of the text, is a character boundary.
pub proof fn lemma_boundary(bytes: Seq<u8>, i: int)
    requires
        valid_utf8(bytes),
        0 <= i <= bytes.len(),
        i < bytes.len() ==> !is_continuation_byte(bytes[i]),
    ensures
        is_char_boundary(bytes, i),
{
    if i < bytes.len() {
        is_char_boundary_iff_not_is_continuation_byte(bytes, i);
    } else {
        is_char_boundary_start_end_of_seq(bytes);
    }
}

/// In valid UTF-8 an ASCII byte is a character of its own: there is a
/// character boundary before it and after it.
pub proof fn lemma_boundary_at_ascii(bytes: Seq<u8>, i: int)
    requires
        valid_utf8(bytes),
        0 <= i < bytes.len(),
        bytes[i] < 0x80,
    ensures
        is_char_boundary(bytes, i),
        is_char_boundary(bytes, i + 1),
{
    lemma_boundary(bytes, i);
    valid_utf8_split(bytes, i);
    let tail = bytes.subrange(i, bytes.len() as int);
    assert(tail[0] == bytes[i]);
    let rest = pop_first_scalar(tail);
    assert(rest =~= bytes.subrange(i + 1, bytes.len() as int));
    assert(valid_utf8(rest));
    if i + 1 < bytes.len() {
        assert(rest[0] == bytes[i + 1]);
        is_char_boundary_start_end_of_seq(rest);
        is_char_boundary_iff_is_leading_byte(rest, 0);
        is_char_boundary_iff_not_is_continuation_byte(bytes, i + 1);
    } else {
        is_char_boundary_start_end_of_seq(bytes);
    }
}

/// Between two character boundaries of valid UTF-8 lies valid UTF-8.
pub proof fn lemma_piece_valid(bytes: Seq<u8>, from: int, to: int)
    requires
        valid_utf8(bytes),
        0 <= from <= to <= bytes.len(),
        is_char_boundary(bytes, from),
        is_char_boundary(bytes, to),
    ensures
        valid_utf8(bytes.subrange(from, to)),
        is_char_boundary(bytes.subrange(0, to), from),
{
    valid_utf8_split(bytes, to);
    let head = bytes.subrange(0, to);
    if from < to {
        is_char_boundary_iff_not_is_continuation_byte(bytes, from);
        assert(head[from] == bytes[from]);
        is_char_boundary_iff_not_is_continuation_byte(head, from);
    } else {
        is_char_boundary_start_end_of_seq(head);
    }
    valid_utf8_split(head, from);
    assert(head.subrange(from, head.len() as int) =~= bytes.subrange(from, to));
}

/// Valid UTF-8 encodes no more characters than it has bytes.
pub proof fn lemma_no_more_chars_than_bytes(bytes: Seq<u8>)
    requires
        valid_utf8(bytes),
    ensures
        decode_utf8(bytes).len() <= bytes.len(),
    decreases bytes.len(),
{
    if bytes.len() > 0 {
        lemma_no_more_chars_than_bytes(pop_first_scalar(bytes));
    }
}

/// Two pieces of valid UTF-8 that follow each other decode to the
/// characters of the first followed by those of the second.
pub proof fn lemma_text_joins(bytes: Seq<u8>, from: int, mid: int, to: int)
    requires
        0 <= from <= mid <= to <= bytes.len(),
        valid_utf8(bytes.subrange(from, mid)),
        valid_utf8(bytes.subrange(mid, to)),
    ensures
        valid_utf8(bytes.subrange(from, to)),
        text(bytes, from, to) == text(bytes, from, mid) + text(bytes, mid, to),
{
    let whole = bytes.subrange(from, to);
    let first = bytes.subrange(from, mid);
    let second = bytes.subrange(mid, to);
    assert(whole =~= first + second);
    vstd::utf8::valid_utf8_concat(first, second);
    let cut = mid - from;
    if cut < whole.len() {
        if second.len() > 0 {
            is_char_boundary_start_end_of_seq(second);
            is_char_boundary_iff_not_is_continuation_byte(second, 0);
            assert(second[0] == whole[cut]);
        }
        is_char_boundary_iff_not_is_continuation_byte(whole, cut);
    } else {
        is_char_boundary_start_end_of_seq(whole);
    }
    decode_utf8_split(whole, cut);
    assert(whole.subrange(0, cut) =~= first);
    assert(whole.subrange(cut, whole.len() as int) =~= second);
}

/// Valid UTF-8 followed by valid UTF-8 decodes to the characters of the
/// first followed by those of the second.
pub proof fn lemma_decode_joins(first: Seq<u8>, second: Seq<u8>)
    requires
        valid_utf8(first),
        valid_utf8(second),
    ensures
        valid_utf8(first + second),
        decode_utf8(first + second) == decode_utf8(first) + decode_utf8(second),
{
    let whole = first + second;
    assert(whole.subrange(0, first.len() as int) =~= first);
    assert(whole.subrange(first.len() as int, whole.len() as int) =~= second);
    lemma_text_joins(whole, 0, first.len() as int, whole.len() as int);
    assert(whole.subrange(0, whole.len() as int) =~= whole);
}

/// The piece of `input` between the byte offsets `from` and `to`.
pub fn slice_text<'a>(input: &'a str, from: usize, to: usize) -> (piece: &'a str)
    requires
        from <= to <= input.spec_bytes().len(),
        is_char_boundary(input.spec_bytes(), from as int),
        is_char_boundary(input.spec_bytes(), to as int),
    ensures
        piece.spec_bytes() == input.spec_bytes().subrange(from as int, to as int),
        piece@ == text(input.spec_bytes(), from as int, to as int),
        piece@.len() <= to - from,
{
    proof {
        encode_utf8_valid_utf8(input@);
        lemma_piece_valid(input.spec_bytes(), from as int, to as int);
    }
    let (head, _) = input.split_at(to);
    let (_, piece) = head.split_at(from);
    proof {
        assert(piece.spec_bytes() =~= input.spec_bytes().subrange(from as int, to as int));
        encode_utf8_decode_utf8(piece@);
        lemma_no_more_chars_than_bytes(piece.spec_bytes());
    }
    piece
}

/// Whether two byte strings are equal.
pub fn bytes_equal(a: &[u8], b: &[u8]) -> (equal: bool)
    ensures
        equal == (a@ == b@),
{
    if a.len() != b.len() {
        return false;
    }
    let mut i: usize = 0;
    while i < a.len()
        invariant
            a@.len() == b@.len(),
            i <= a@.len(),
            a@.subrange(0, i as int) == b@.subrange(0, i as int),
        decreases a@.len() - i,
    {
        if a[i] != b[i] {
            assert(a@[i as int] != b@[i as int]);
            return false;
        }
        assert(a@.subrange(0, i + 1) =~= a@.subrange(0, i as int).push(a@[i as int]));
        assert(b@.subrange(0, i + 1) =~= b@.subrange(0, i as int).push(b@[i as int]));
        i += 1;
    }
    assert(a@ =~= a@.subrange(0, i as int));
    assert(b@ =~= b@.subrange(0, i as int));
    true
}

} // verus!
