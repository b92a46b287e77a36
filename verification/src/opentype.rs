//! Limits of the OpenType shaping backend: how many font faces it registers
//! and how many font bytes one face and all faces together may hold, and the
//! scalar boundaries by which a run's scalar range is found in its UTF-8 text.
use crate::text::utf8_len;
use vstd::prelude::*;
use vstd::utf8::{
    encode_utf8, encode_utf8_valid_utf8, is_char_boundary, is_char_boundary_iff_not_is_continuation_byte,
    is_continuation_byte,
};

verus! {

pub const DEFAULT_MAX_FONT_FACES: usize = 256;

pub const DEFAULT_MAX_FONT_BYTES_PER_FACE: u64 = 67108864;

pub const DEFAULT_MAX_TOTAL_FONT_BYTES: u64 = 268435456;

#[derive(Clone, Copy, Debug, PartialEq, Eq, Structural)]
pub struct OpenTypeShapingLimits {
    pub max_faces: usize,
    pub max_bytes_per_face: u64,
    pub max_total_bytes: u64,
}

impl OpenTypeShapingLimits {
    /// Every limit is non-zero and one face's budget fits in the total.
    pub open spec fn spec_is_valid(self) -> bool {
        &&& self.max_faces > 0
        &&& self.max_bytes_per_face > 0
        &&& self.max_total_bytes > 0
        &&& self.max_bytes_per_face <= self.max_total_bytes
    }

    pub fn is_valid(self) -> (r: bool)
        ensures
            r == self.spec_is_valid(),
    {
        self.max_faces > 0 && self.max_bytes_per_face > 0 && self.max_total_bytes > 0
            && self.max_bytes_per_face <= self.max_total_bytes
    }
}

impl Default for OpenTypeShapingLimits {
    fn default() -> (r: Self)
        ensures
            r == (OpenTypeShapingLimits {
                max_faces: DEFAULT_MAX_FONT_FACES,
                max_bytes_per_face: DEFAULT_MAX_FONT_BYTES_PER_FACE,
                max_total_bytes: DEFAULT_MAX_TOTAL_FONT_BYTES,
            }),
    {
        OpenTypeShapingLimits {
            max_faces: DEFAULT_MAX_FONT_FACES,
            max_bytes_per_face: DEFAULT_MAX_FONT_BYTES_PER_FACE,
            max_total_bytes: DEFAULT_MAX_TOTAL_FONT_BYTES,
        }
    }
}

/// The byte offset at which each scalar of `text` starts, in increasing
/// order, followed by the text's byte length: every char boundary of its
/// UTF-8 encoding but the end, then the end.
pub fn scalar_byte_boundaries(text: &str) -> (r: Vec<usize>)
    ensures
        r@.len() >= 1,
        r@.last() == utf8_len(text@),
        forall|p: int| 0 <= p < r@.len() - 1 ==> #[trigger] r@[p] < utf8_len(text@) && is_char_boundary(
            encode_utf8(text@),
            r@[p] as int,
        ),
        forall|p: int, q: int| 0 <= p < q < r@.len() ==> #[trigger] r@[p] < #[trigger] r@[q],
        forall|i: int|
            0 <= i < utf8_len(text@) && #[trigger] is_char_boundary(encode_utf8(text@), i) ==> exists|p: int|
                0 <= p < r@.len() - 1 && r@[p] == i,
{
    let bytes = text.as_bytes();
    let ghost b = encode_utf8(text@);
    proof {
        encode_utf8_valid_utf8(text@);
    }
    assert(bytes@ == b);
    let n = bytes.len();
    let mut r: Vec<usize> = Vec::new();
    let mut i: usize = 0;
    while i < n
        invariant
            0 <= i <= n,
            n == b.len(),
            bytes@ == b,
            vstd::utf8::valid_utf8(b),
            forall|p: int| 0 <= p < r@.len() ==> #[trigger] r@[p] < i && is_char_boundary(b, r@[p] as int),
            forall|p: int, q: int| 0 <= p < q < r@.len() ==> #[trigger] r@[p] < #[trigger] r@[q],
            forall|j: int| 0 <= j < i && #[trigger] is_char_boundary(b, j) ==> exists|p: int|
                0 <= p < r@.len() && r@[p] == j,
        decreases n - i,
    {
        let byte = bytes[i];
        let ghost before = r@;
        proof {
            is_char_boundary_iff_not_is_continuation_byte(b, i as int);
        }
        if byte < 0x80 || byte > 0xbf {
            assert(!is_continuation_byte(b[i as int]));
            r.push(i);
            assert(r@ == before.push(i));
        } else {
            assert(is_continuation_byte(b[i as int]));
            assert(!is_char_boundary(b, i as int));
        }
        proof {
            assert forall|j: int| 0 <= j < i + 1 && #[trigger] is_char_boundary(b, j) implies exists|p: int|
                0 <= p < r@.len() && r@[p] == j by {
                if j < i {
                    let p = choose|p: int| 0 <= p < before.len() && before[p] == j;
                    assert(r@[p] == before[p]);
                } else {
                    assert(!is_continuation_byte(b[i as int]));
                    assert(r@[r@.len() - 1] == i);
                }
            }
        }
        i = i + 1;
    }
    let ghost inner = r@;
    r.push(n);
    proof {
        assert(r@.drop_last() =~= inner);
        assert forall|i: int|
            0 <= i < utf8_len(text@) && #[trigger] is_char_boundary(encode_utf8(text@), i) implies exists|p: int|
                0 <= p < r@.len() - 1 && r@[p] == i by {
            let p = choose|p: int| 0 <= p < inner.len() && inner[p] == i;
            assert(r@[p] == inner[p]);
        }
    }
    r
}

} // verus!
