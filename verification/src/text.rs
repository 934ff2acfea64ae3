//! Strings as sequences of characters.

use crate::substring::matches_at;
use vstd::prelude::*;
use vstd::utf8::*;

verus! {

/// The views of a sequence of strings.
pub open spec fn texts(strings: Seq<String>) -> Seq<Seq<char>> {
    Seq::new(strings.len(), |i: int| strings[i]@)
}

/// Tests whether two strings hold the same text.
pub fn same_text(left: &str, right: &str) -> (same: bool)
    ensures
        same == (left@ == right@),
{
    let left_bytes = left.as_bytes();
    let right_bytes = right.as_bytes();
    proof {
        encode_utf8_decode_utf8(left@);
        encode_utf8_decode_utf8(right@);
    }
    if left_bytes.len() != right_bytes.len() {
        return false;
    }
    let same = matches_at(left_bytes, right_bytes, 0);
    assert(left_bytes@.subrange(0, right_bytes@.len() as int) =~= left_bytes@);
    same
}

/// Three pieces flatten to the first, then the second, then the third.
pub proof fn lemma_flatten_three(pieces: Seq<Seq<char>>)
    requires
        pieces.len() == 3,
    ensures
        pieces.flatten() == pieces[0] + pieces[1] + pieces[2],
{
    reveal_with_fuel(Seq::flatten, 4);
    assert(pieces.drop_first().drop_first().drop_first() =~= Seq::<Seq<char>>::empty());
    assert(pieces.flatten() =~= pieces[0] + pieces[1] + pieces[2]);
}

} // verus!
