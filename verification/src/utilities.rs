use vstd::prelude::*;
use crate::text::{byte_offset, chars_of, lemma_byte_offset_step, lemma_encode_utf8_concat, utf8_width};

verus! {

/// The number of bytes after the first `.` of `s`, or 0 where `s` has no
/// `.`: for the decimal rendering of a number, its count of decimal places.
pub fn decimal_places(s: &str) -> (r: usize)
    ensures
        (forall|j: int| 0 <= j < s@.len() ==> s@[j] != '.') ==> r == 0,
        forall|k: int|
            0 <= k < s@.len() && s@[k] == '.' && (forall|j: int| 0 <= j < k ==> s@[j] != '.')
                ==> r == vstd::utf8::encode_utf8(#[trigger] s@.skip(k + 1)).len(),
{
    let c = chars_of(s);
    let n_bytes = s.as_bytes().len();
    let ghost t = s@;
    let mut i: usize = 0;
    let mut pos: usize = 0;
    while i < c.len()
        invariant
            c@ == t,
            t == s@,
            n_bytes == vstd::utf8::encode_utf8(t).len(),
            i <= c@.len(),
            pos == byte_offset(t, i as int),
            forall|j: int| 0 <= j < i ==> t[j] != '.',
        decreases c.len() - i,
    {
        proof {
            lemma_byte_offset_step(t, i as int);
        }
        let w = utf8_width(c[i]);
        pos = pos + w;
        if c[i] == '.' {
            proof {
                assert(t =~= t.take(i + 1) + t.skip(i + 1));
                lemma_encode_utf8_concat(t.take(i + 1), t.skip(i + 1));
                assert forall|k: int|
                    0 <= k < t.len() && t[k] == '.' && (forall|j: int| 0 <= j < k ==> t[j] != '.')
                    implies k == i by {
                    if k < i {
                    } else if k > i {
                        assert(t[i as int] == '.');
                    }
                }
            }
            return n_bytes - pos;
        }
        i += 1;
    }
    0
}

} // verus!
