//! Helpers shared by the reader of statements and the reader of rows: the
//! positions of UTF-8 text at which characters start, cutting a text at such
//! positions, and comparing texts.

use vstd::prelude::*;
use vstd::string::*;
use vstd::utf8::*;

verus! {

broadcast use {vstd::utf8::group_utf8_lib, vstd::seq::group_seq_axioms};

/// The byte at position `i` of `s` is below 0x80.
pub open spec fn ascii_at(s: Seq<u8>, i: int) -> bool {
    0 <= i < s.len() && s[i] < 0x80
}

/// In valid UTF-8 a character starts right after every ASCII byte.
pub proof fn lemma_boundary_after_ascii(s: Seq<u8>, i: int)
    requires
        valid_utf8(s),
        ascii_at(s, i),
    ensures
        is_char_boundary(s, i),
        is_char_boundary(s, i + 1),
{
    is_char_boundary_iff_not_is_continuation_byte(s, i);
    valid_utf8_split(s, i);
    let tail = s.subrange(i, s.len() as int);
    assert(tail[0] == s[i]);
    assert(valid_first_scalar(tail));
    assert(length_of_first_scalar(tail) == 1);
    let rest = pop_first_scalar(tail);
    assert(rest =~= s.subrange(i + 1, s.len() as int));
    assert(valid_utf8(rest));
    if i + 1 < s.len() {
        assert(rest[0] == s[i + 1]);
        assert(valid_first_scalar(rest));
        is_char_boundary_iff_not_is_continuation_byte(s, i + 1);
    } else {
        is_char_boundary_start_end_of_seq(s);
    }
}

/// In valid UTF-8 a character starts at every ASCII byte and at the end.
pub proof fn lemma_boundary_at_ascii_or_end(s: Seq<u8>, i: int)
    requires
        valid_utf8(s),
        i == s.len() || ascii_at(s, i),
    ensures
        is_char_boundary(s, i),
{
    if i == s.len() {
        is_char_boundary_start_end_of_seq(s);
    } else {
        is_char_boundary_iff_not_is_continuation_byte(s, i);
    }
}

/// The text between two character boundaries of `input`, as an owned string.
pub(crate) fn slice_string(input: &str, from: usize, to: usize) -> (r: String)
    requires
        from <= to <= input.spec_bytes().len(),
        is_char_boundary(input.spec_bytes(), from as int),
        is_char_boundary(input.spec_bytes(), to as int),
    ensures
        r@ == decode_utf8(input.spec_bytes().subrange(from as int, to as int)),
{
    let ghost s = input.spec_bytes();
    let (_, tail) = input.split_at(from);
    proof {
        let t = tail.spec_bytes();
        assert(t =~= s.subrange(from as int, s.len() as int));
        if to < s.len() {
            is_char_boundary_iff_not_is_continuation_byte(s, to as int);
            assert(t[to - from] == s[to as int]);
            is_char_boundary_iff_not_is_continuation_byte(t, to - from);
        } else {
            is_char_boundary_start_end_of_seq(t);
        }
    }
    let (piece, _) = tail.split_at(to - from);
    proof {
        assert(piece.spec_bytes() =~= s.subrange(from as int, to as int));
    }
    piece.to_owned()
}

/// Tells whether two texts are the same.
pub fn same_text(a: &str, b: &str) -> (r: bool)
    ensures
        r == (a@ == b@),
{
    let x = a.as_bytes();
    let y = b.as_bytes();
    proof {
        // texts with the same encoding are the same
        encode_utf8_decode_utf8(a@);
        encode_utf8_decode_utf8(b@);
    }
    if x.len() != y.len() {
        return false;
    }
    let mut k: usize = 0;
    while k < x.len()
        invariant
            x@ == a.spec_bytes(),
            y@ == b.spec_bytes(),
            x@.len() == y@.len(),
            k <= x@.len(),
            forall|j: int| 0 <= j < k ==> x@[j] == y@[j],
        decreases x@.len() - k,
    {
        if x[k] != y[k] {
            return false;
        }
        k += 1;
    }
    assert(x@ =~= y@);
    true
}

} // verus!
