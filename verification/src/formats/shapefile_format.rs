//! Shapefile attribute names.
use vstd::prelude::*;
use crate::detect::{lemma_utf8_len_prefix, lemma_utf8_len_push, utf8_len};
use crate::text::{chars_of, string_of, sub_chars};

verus! {

/// The dBase limit on field-name length, in bytes.
pub const FIELD_NAME_LIMIT: usize = 11;

/// A field name cut to the dBase limit: its longest prefix (ending on a
/// character boundary) whose UTF-8 form fits in 11 bytes.
pub open spec fn is_truncated_name(name: Seq<char>, r: Seq<char>) -> bool {
    exists|k: int|
        0 <= k <= name.len() && r == name.take(k) && utf8_len(r) <= 11 && (k == name.len()
            || utf8_len(#[trigger] name.take(k + 1)) > 11)
}

/// Truncates a field name to fit in dBase's 11-byte limit, cutting only between
/// characters; a name that fits is kept whole.
pub fn truncate_field_name(name: &str) -> (r: String)
    ensures
        is_truncated_name(name@, r@),
        utf8_len(name@) <= 11 ==> r@ == name@,
{
    let cs = chars_of(name);
    let mut acc: usize = 0;
    let mut i: usize = 0;
    assert(cs@.take(0) == Seq::<char>::empty());
    while i < cs.len()
        invariant
            i <= cs@.len(),
            acc == utf8_len(cs@.take(i as int)),
            acc <= 11,
        ensures
            i <= cs@.len(),
            acc == utf8_len(cs@.take(i as int)),
            acc <= 11,
            i == cs@.len() || utf8_len(cs@.take(i + 1)) > 11,
        decreases cs@.len() - i,
    {
        let c = cs[i];
        let u = c as u32;
        let w: usize = if u < 0x80 {
            1
        } else if u < 0x800 {
            2
        } else if u < 0x10000 {
            3
        } else {
            4
        };
        proof {
            assert(cs@.take(i + 1) == cs@.take(i as int).push(c));
            lemma_utf8_len_push(cs@.take(i as int), c);
        }
        if acc + w > 11 {
            break;
        }
        acc = acc + w;
        i = i + 1;
    }
    let r = string_of(&sub_chars(&cs, 0, i));
    assert(r@ == name@.take(i as int));
    proof {
        if i == cs@.len() {
            assert(name@.take(i as int) == name@);
            assert(is_truncated_name(name@, r@));
        } else {
            lemma_utf8_len_prefix(name@, i + 1);
            assert(utf8_len(name@.take(i + 1)) > 11);
            assert(is_truncated_name(name@, r@));
        }
    }
    r
}

} // verus!
