//! Slices of a source text by byte offsets, and the source line around an
//! offset.

use vstd::prelude::*;
use vstd::string::StringSliceAdditionalSpecFns;
use vstd::utf8::{
    decode_utf8, encode_utf8, is_char_boundary, is_continuation_byte, is_leading_byte_width_1,
    length_of_first_scalar, pop_first_scalar, valid_utf8,
};

verus! {

broadcast use {
    vstd::utf8::encode_utf8_valid_utf8,
    vstd::utf8::encode_utf8_decode_utf8,
    vstd::utf8::is_char_boundary_start_end_of_seq,
    vstd::utf8::is_char_boundary_iff_not_is_continuation_byte,
    vstd::utf8::valid_utf8_split,
};

/// The UTF-8 bytes of a source text.
pub open spec fn source_bytes(source: &str) -> Seq<u8> {
    encode_utf8(source@)
}

/// `[lo, hi)` is a range of the source text between character boundaries.
pub open spec fn valid_range(source: &str, lo: int, hi: int) -> bool {
    &&& 0 <= lo <= hi <= source_bytes(source).len()
    &&& is_char_boundary(source_bytes(source), lo)
    &&& is_char_boundary(source_bytes(source), hi)
}

/// The characters that the bytes `[lo, hi)` of the source text encode.
pub open spec fn text_between(source: &str, lo: int, hi: int) -> Seq<char> {
    decode_utf8(source_bytes(source).subrange(lo, hi))
}

/// The position just after the last line feed before `off`, or 0.
pub open spec fn line_start(bytes: Seq<u8>, off: int) -> int
    decreases off,
{
    if off <= 0 {
        0
    } else if bytes[off - 1] == 10u8 {
        off
    } else {
        line_start(bytes, off - 1)
    }
}

/// The position of the first line feed at or after `off`, or the length.
pub open spec fn line_end(bytes: Seq<u8>, off: int) -> int
    decreases bytes.len() - off,
{
    if off >= bytes.len() {
        bytes.len() as int
    } else if bytes[off] == 10u8 {
        off
    } else {
        line_end(bytes, off + 1)
    }
}

/// The whole line of the source text that holds the byte offset `off`,
/// without its line feed.
pub open spec fn source_line(source: &str, off: int) -> Seq<char> {
    let b = source_bytes(source);
    text_between(source, line_start(b, off), line_end(b, off))
}

proof fn lemma_boundary_after_ascii(bytes: Seq<u8>, k: int)
    requires
        valid_utf8(bytes),
        0 <= k < bytes.len(),
        is_char_boundary(bytes, k),
        is_leading_byte_width_1(bytes[k]),
    ensures
        is_char_boundary(bytes, k + 1),
    decreases bytes.len(),
{
    reveal_with_fuel(is_char_boundary, 2);
    let l = length_of_first_scalar(bytes);
    let rest = pop_first_scalar(bytes);
    if k == 0 {
        assert(l == 1);
        assert(is_char_boundary(rest, 0));
    } else {
        assert(rest.len() == bytes.len() - l);
        assert(is_char_boundary(rest, k - l));
        if k - l > 0 {
            assert(rest[k - l] == bytes[k]);
            lemma_boundary_after_ascii(rest, k - l);
        } else {
            assert(k - l == 0);
            assert(rest[0] == bytes[k]);
            lemma_boundary_after_ascii(rest, 0);
        }
    }
}

/// A line feed is a whole character: the byte after it starts one.
proof fn lemma_boundary_after_line_feed(bytes: Seq<u8>, i: int)
    requires
        valid_utf8(bytes),
        0 < i <= bytes.len(),
        bytes[i - 1] == 10u8,
    ensures
        is_char_boundary(bytes, i),
{
    assert(!is_continuation_byte(bytes[i - 1]));
    assert(is_char_boundary(bytes, i - 1));
    lemma_boundary_after_ascii(bytes, i - 1);
}

/// A boundary of the text is a boundary of any suffix that starts at a
/// boundary before it.
proof fn lemma_boundary_in_suffix(bytes: Seq<u8>, lo: int, hi: int)
    requires
        valid_utf8(bytes),
        0 <= lo <= hi <= bytes.len(),
        is_char_boundary(bytes, lo),
        is_char_boundary(bytes, hi),
    ensures
        is_char_boundary(bytes.subrange(lo, bytes.len() as int), hi - lo),
{
    let tail = bytes.subrange(lo, bytes.len() as int);
    assert(valid_utf8(tail));
    if hi < bytes.len() {
        assert(tail[hi - lo] == bytes[hi]);
        assert(!is_continuation_byte(bytes[hi]));
    } else {
        assert(hi - lo == tail.len());
    }
}

/// The part of `source` between the byte offsets `lo` and `hi`.
pub fn substr(source: &str, lo: usize, hi: usize) -> (r: &str)
    requires
        valid_range(source, lo as int, hi as int),
    ensures
        r@ == text_between(source, lo as int, hi as int),
{
    let ghost bytes = source_bytes(source);
    proof {
        lemma_boundary_in_suffix(bytes, lo as int, hi as int);
    }
    let (_, tail) = source.split_at(lo);
    assert(tail.spec_bytes() =~= bytes.subrange(lo as int, bytes.len() as int));
    let (mid, _) = tail.split_at(hi - lo);
    assert(mid.spec_bytes() =~= bytes.subrange(lo as int, hi as int));
    assert(decode_utf8(encode_utf8(mid@)) == mid@);
    mid
}

/// The whole line of `source` that holds the byte offset `byte_offset`,
/// without its line feed.
pub fn get_source_line(source: &str, byte_offset: usize) -> (r: String)
    requires
        valid_range(source, byte_offset as int, byte_offset as int),
    ensures
        r@ == source_line(source, byte_offset as int),
{
    let bytes = source.as_bytes();
    let ghost b = source_bytes(source);
    assert(bytes@ == b);
    let n = bytes.len();
    let mut start = byte_offset;
    while start > 0 && bytes[start - 1] != 10u8
        invariant
            bytes@ == b,
            n == b.len(),
            start <= byte_offset <= n,
            line_start(b, byte_offset as int) == line_start(b, start as int),
        decreases start,
    {
        start = start - 1;
    }
    let mut end = byte_offset;
    while end < n && bytes[end] != 10u8
        invariant
            bytes@ == b,
            n == b.len(),
            byte_offset <= end <= n,
            line_end(b, byte_offset as int) == line_end(b, end as int),
        decreases n - end,
    {
        end = end + 1;
    }
    proof {
        if start > 0 {
            lemma_boundary_after_line_feed(b, start as int);
        }
        if end < n {
            assert(!is_continuation_byte(b[end as int]));
        }
    }
    substr(source, start, end).to_owned()
}

} // verus!
