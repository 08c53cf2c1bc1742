//! MGRS text handling around the coordinate conversion.
use vstd::prelude::*;
use crate::text::{chars_of, string_of};

verus! {

/// An MGRS coordinate string.
#[derive(Debug, Clone)]
pub struct MgrsCoord(pub String);

/// Why an MGRS text cannot be converted.
#[derive(Debug)]
pub enum ConvertError {
    /// Nothing is left once spaces are removed.
    Empty,
}

/// `s` with every space removed.
pub open spec fn without_spaces(s: Seq<char>) -> Seq<char>
    decreases s.len(),
{
    if s.len() == 0 {
        seq![]
    } else if s.last() == ' ' {
        without_spaces(s.drop_last())
    } else {
        without_spaces(s.drop_last()).push(s.last())
    }
}

/// The MGRS text that is handed to the parser: `mgrs_str` without spaces, or
/// `Empty` when nothing is left.
pub fn normalize_mgrs(mgrs_str: &str) -> (r: Result<String, ConvertError>)
    ensures
        match r {
            Ok(n) => n@ == without_spaces(mgrs_str@) && n@.len() > 0,
            Err(ConvertError::Empty) => without_spaces(mgrs_str@).len() == 0,
        },
{
    let cs = chars_of(mgrs_str);
    let mut out: Vec<char> = Vec::new();
    let mut i: usize = 0;
    while i < cs.len()
        invariant
            i <= cs@.len(),
            out@ == without_spaces(cs@.take(i as int)),
        decreases cs@.len() - i,
    {
        assert(cs@.take(i + 1).drop_last() == cs@.take(i as int));
        if cs[i] != ' ' {
            out.push(cs[i]);
        }
        i = i + 1;
    }
    assert(cs@.take(cs@.len() as int) == cs@);
    if out.len() == 0 {
        Err(ConvertError::Empty)
    } else {
        Ok(string_of(&out))
    }
}

} // verus!
