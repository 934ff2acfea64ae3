//! Cutting a line of text at byte offsets.
//!
//! A line can be cut at a byte offset only where a character begins or the
//! line ends. This module says when a range of bytes can be cut out of a line,
//! what the three pieces are, and proves that an occurrence of a pattern
//! always can be cut out.

use crate::substring::{
    contains, first_occurrence, is_first_occurrence, lemma_first_occurrence_exists, occurs_at,
};
use crate::text::texts;
use vstd::prelude::*;
use vstd::utf8::*;

verus! {

/// The bytes `at .. at + len` of `line` begin and end where a character
/// begins or the line ends.
pub open spec fn sliceable(line: Seq<char>, at: int, len: int) -> bool {
    &&& 0 <= at
    &&& 0 <= len
    &&& at + len <= encode_utf8(line).len()
    &&& is_char_boundary(encode_utf8(line), at)
    &&& is_char_boundary(encode_utf8(line), at + len)
}

/// The text before byte `at`, the text of the `len` bytes from `at`, and the
/// text after them.
pub open spec fn cut(line: Seq<char>, at: int, len: int) -> Seq<Seq<char>> {
    let bytes = encode_utf8(line);
    seq![
        decode_utf8(bytes.subrange(0, at)),
        decode_utf8(bytes.subrange(at, at + len)),
        decode_utf8(bytes.subrange(at + len, bytes.len() as int)),
    ]
}

/// A boundary of the tail that starts at a boundary is a boundary of the whole.
proof fn lemma_boundary_of_tail(bytes: Seq<u8>, at: int, within: int)
    requires
        valid_utf8(bytes),
        0 <= at <= bytes.len(),
        is_char_boundary(bytes, at),
        0 <= within <= bytes.len() - at,
    ensures
        is_char_boundary(bytes.subrange(at, bytes.len() as int), within) <==> is_char_boundary(
            bytes,
            at + within,
        ),
{
    let tail = bytes.subrange(at, bytes.len() as int);
    valid_utf8_split(bytes, at);
    if at + within == bytes.len() {
        is_char_boundary_start_end_of_seq(bytes);
        is_char_boundary_start_end_of_seq(tail);
    } else {
        assert(tail[within] == bytes[at + within]);
        is_char_boundary_iff_not_is_continuation_byte(tail, within);
        is_char_boundary_iff_not_is_continuation_byte(bytes, at + within);
    }
}

/// A valid encoding that is a prefix of another ends where a character of
/// the longer one begins, or where the longer one ends.
proof fn lemma_prefix_ends_on_boundary(whole: Seq<u8>, prefix: Seq<u8>)
    requires
        valid_utf8(whole),
        valid_utf8(prefix),
        prefix.len() <= whole.len(),
        whole.subrange(0, prefix.len() as int) == prefix,
    ensures
        is_char_boundary(whole, prefix.len() as int),
    decreases prefix.len(),
{
    if prefix.len() > 0 {
        let width = length_of_first_scalar(prefix);
        assert(whole[0] == whole.subrange(0, prefix.len() as int)[0]);
        assert(width == length_of_first_scalar(whole));
        assert(1 <= width <= prefix.len());
        let whole_rest = pop_first_scalar(whole);
        let prefix_rest = pop_first_scalar(prefix);
        assert(whole_rest.subrange(0, prefix_rest.len() as int) =~= prefix_rest) by {
            assert forall|i: int| 0 <= i < prefix_rest.len() implies whole_rest[i]
                == prefix_rest[i] by {
                assert(whole.subrange(0, prefix.len() as int)[width + i] == prefix[width + i]);
            }
        }
        lemma_prefix_ends_on_boundary(whole_rest, prefix_rest);
    }
}

/// The pieces of a line that was cut at character boundaries add up to the
/// line.
pub proof fn lemma_cut_rebuilds_line(line: Seq<char>, at: int, len: int)
    requires
        sliceable(line, at, len),
    ensures
        cut(line, at, len)[0] + cut(line, at, len)[1] + cut(line, at, len)[2] == line,
{
    let bytes = encode_utf8(line);
    let tail = bytes.subrange(at, bytes.len() as int);
    encode_utf8_valid_utf8(line);
    encode_utf8_decode_utf8(line);
    decode_utf8_split(bytes, at);
    valid_utf8_split(bytes, at);
    lemma_boundary_of_tail(bytes, at, len);
    decode_utf8_split(tail, len);
    assert(tail.subrange(0, len) =~= bytes.subrange(at, at + len));
    assert(tail.subrange(len, tail.len() as int) =~= bytes.subrange(
        at + len,
        bytes.len() as int,
    ));
}

/// Each piece of a line that was cut at character boundaries has the bytes
/// of its part of the line.
pub proof fn lemma_cut_pieces(line: Seq<char>, at: int, len: int)
    requires
        sliceable(line, at, len),
    ensures
        encode_utf8(cut(line, at, len)[0]) == encode_utf8(line).subrange(0, at),
        encode_utf8(cut(line, at, len)[1]) == encode_utf8(line).subrange(at, at + len),
        encode_utf8(cut(line, at, len)[2]) == encode_utf8(line).subrange(
            at + len,
            encode_utf8(line).len() as int,
        ),
{
    let bytes = encode_utf8(line);
    let tail = bytes.subrange(at, bytes.len() as int);
    encode_utf8_valid_utf8(line);
    valid_utf8_split(bytes, at);
    lemma_boundary_of_tail(bytes, at, len);
    valid_utf8_split(tail, len);
    assert(tail.subrange(0, len) =~= bytes.subrange(at, at + len));
    assert(tail.subrange(len, tail.len() as int) =~= bytes.subrange(
        at + len,
        bytes.len() as int,
    ));
    decode_utf8_encode_utf8(bytes.subrange(0, at));
    decode_utf8_encode_utf8(bytes.subrange(at, at + len));
    decode_utf8_encode_utf8(bytes.subrange(at + len, bytes.len() as int));
}

/// The bytes of two texts joined are the bytes of the one and then those of
/// the other.
pub proof fn lemma_encode_joined(first: Seq<char>, second: Seq<char>)
    ensures
        encode_utf8(first + second) == encode_utf8(first) + encode_utf8(second),
    decreases first.len(),
{
    if first.len() == 0 {
        assert(first + second =~= second);
        assert(encode_utf8(first) + encode_utf8(second) =~= encode_utf8(second));
    } else {
        assert((first + second).drop_first() =~= first.drop_first() + second);
        lemma_encode_joined(first.drop_first(), second);
        assert(encode_utf8(first + second) =~= encode_utf8(first) + encode_utf8(second));
    }
}

/// The leftmost occurrence of one text's bytes in another's can be cut out:
/// it begins and ends where characters of the searched text do.
pub proof fn lemma_occurrence_is_sliceable(line: Seq<char>, pattern: Seq<char>, at: int)
    requires
        is_first_occurrence(encode_utf8(line), encode_utf8(pattern), at),
    ensures
        sliceable(line, at, encode_utf8(pattern).len() as int),
{
    let bytes = encode_utf8(line);
    let needle = encode_utf8(pattern);
    encode_utf8_valid_utf8(line);
    encode_utf8_valid_utf8(pattern);
    if needle.len() == 0 {
        if at > 0 {
            assert(occurs_at(bytes, needle, 0)) by {
                assert(bytes.subrange(0, 0) =~= needle);
            }
        }
    } else {
        assert(bytes[at] == bytes.subrange(at, at + needle.len())[0]);
        is_char_boundary_iff_not_is_continuation_byte(needle, 0);
        is_char_boundary_iff_not_is_continuation_byte(bytes, at);
        let tail = bytes.subrange(at, bytes.len() as int);
        valid_utf8_split(bytes, at);
        assert(tail.subrange(0, needle.len() as int) =~= needle);
        lemma_prefix_ends_on_boundary(tail, needle);
        lemma_boundary_of_tail(bytes, at, needle.len() as int);
    }
}

/// An occurrence in a text is an occurrence in its bytes, at the offset
/// that the bytes of the text before it reach.
pub proof fn lemma_occurrence_in_bytes(line: Seq<char>, pattern: Seq<char>, start: int)
    requires
        occurs_at(line, pattern, start),
    ensures
        occurs_at(
            encode_utf8(line),
            encode_utf8(pattern),
            encode_utf8(line.subrange(0, start)).len() as int,
        ),
{
    let before = line.subrange(0, start);
    let after = line.subrange(start + pattern.len(), line.len() as int);
    assert(line =~= before + pattern + after);
    lemma_encode_joined(before + pattern, after);
    lemma_encode_joined(before, pattern);
    let at = encode_utf8(before).len() as int;
    assert(encode_utf8(line).subrange(at, at + encode_utf8(pattern).len()) =~= encode_utf8(
        pattern,
    ));
}

/// The leftmost occurrence in the bytes of a text is the leftmost occurrence
/// in the text: it begins after the first piece of the cut and holds the
/// pattern itself.
pub proof fn lemma_first_occurrence_in_text(line: Seq<char>, pattern: Seq<char>, at: int)
    requires
        is_first_occurrence(encode_utf8(line), encode_utf8(pattern), at),
    ensures
        cut(line, at, encode_utf8(pattern).len() as int)[1] == pattern,
        is_first_occurrence(
            line,
            pattern,
            cut(line, at, encode_utf8(pattern).len() as int)[0].len() as int,
        ),
{
    let len = encode_utf8(pattern).len() as int;
    let pieces = cut(line, at, len);
    let start = pieces[0].len() as int;
    lemma_occurrence_is_sliceable(line, pattern, at);
    lemma_cut_pieces(line, at, len);
    lemma_cut_rebuilds_line(line, at, len);
    encode_utf8_decode_utf8(pieces[1]);
    encode_utf8_decode_utf8(pattern);
    assert(pieces[1] == pattern);
    assert(line.subrange(start, start + pattern.len()) =~= pattern);
    assert(line.subrange(0, start) =~= pieces[0]);
    assert forall|earlier: int| 0 <= earlier < start implies !occurs_at(
        line,
        pattern,
        earlier,
    ) by {
        if occurs_at(line, pattern, earlier) {
            let shorter = line.subrange(0, earlier);
            let between = line.subrange(earlier, start);
            lemma_occurrence_in_bytes(line, pattern, earlier);
            assert(pieces[0] =~= shorter + between);
            lemma_encode_joined(shorter, between);
            assert(encode_utf8(between).len() > 0) by {
                char_is_scalar(between[0]);
            }
            assert(encode_utf8(shorter).len() < at);
        }
    }
}

/// One text occurs in another exactly where its bytes occur in the bytes of
/// the other: to search the bytes is to search the text.
pub proof fn lemma_bytes_hold_text(line: Seq<char>, pattern: Seq<char>)
    ensures
        contains(encode_utf8(line), encode_utf8(pattern)) <==> contains(line, pattern),
{
    let bytes = encode_utf8(line);
    let needle = encode_utf8(pattern);
    if contains(bytes, needle) {
        lemma_first_occurrence_exists(bytes, needle);
        lemma_first_occurrence_in_text(line, pattern, first_occurrence(bytes, needle).unwrap());
    }
    if contains(line, pattern) {
        lemma_occurrence_in_bytes(line, pattern, choose|start: int| occurs_at(line, pattern, start));
    }
}

/// Tests whether the bytes `at .. at + len` of `line` can be cut out.
pub fn is_sliceable(line: &str, at: usize, len: usize) -> (yes: bool)
    ensures
        yes == sliceable(line@, at as int, len as int),
{
    let total: usize = line.as_bytes().len();
    if len > total || at > total - len {
        return false;
    }
    line.is_char_boundary(at) && line.is_char_boundary(at + len)
}

/// Cuts `line` into the text before byte `at`, the `len` bytes from `at`,
/// and the text after them.
pub fn cut_line(line: &str, at: usize, len: usize) -> (parts: Vec<String>)
    requires
        sliceable(line@, at as int, len as int),
    ensures
        texts(parts@) == cut(line@, at as int, len as int),
{
    let ghost bytes = encode_utf8(line@);
    proof {
        encode_utf8_valid_utf8(line@);
        lemma_boundary_of_tail(bytes, at as int, len as int);
    }
    let (head, rest) = line.split_at(at);
    let (middle, tail) = rest.split_at(len);
    let mut parts: Vec<String> = Vec::new();
    parts.push(head.to_owned());
    parts.push(middle.to_owned());
    parts.push(tail.to_owned());
    proof {
        encode_utf8_decode_utf8(head@);
        encode_utf8_decode_utf8(middle@);
        encode_utf8_decode_utf8(tail@);
        let rest_bytes = bytes.subrange(at as int, bytes.len() as int);
        assert(rest_bytes.subrange(0, len as int) =~= bytes.subrange(at as int, at + len));
        assert(rest_bytes.subrange(len as int, rest_bytes.len() as int) =~= bytes.subrange(
            at + len,
            bytes.len() as int,
        ));
        assert(texts(parts@) =~= cut(line@, at as int, len as int));
    }
    parts
}

} // verus!
