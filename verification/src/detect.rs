//! Recognising MGRS-looking values, and finding the column that holds them.
use vstd::prelude::*;
use vstd::utf8::encode_utf8;
use crate::text::{chars_of, string_of, trim, trim_chars};

verus! {

#[verifier::external_type_specification]
#[verifier::external_body]
pub struct ExRegex(regex::Regex);

/// Whether `regex::Regex::new` accepts `pattern`.
pub uninterp spec fn regex_compiles(pattern: Seq<char>) -> bool;

/// Whether the regex compiled from `pattern` matches somewhere in `haystack`
/// (`regex::Regex::is_match`).
pub uninterp spec fn regex_is_match(pattern: Seq<char>, haystack: Seq<char>) -> bool;

/// A compiled regular expression together with the pattern it was compiled from.
/// Only `compile_pattern` makes one, so the two always belong together.
struct CompiledPattern {
    re: regex::Regex,
    pattern: Ghost<Seq<char>>,
}

/// `regex::Regex::new(pattern)`, its error dropped: `Some` exactly when the pattern
/// compiles, which depends on the pattern alone; the regex is kept with the
/// pattern it was compiled from.
#[verifier::external_body]
fn compile_pattern(pattern: &str) -> (r: Option<CompiledPattern>)
    ensures
        r is Some <==> regex_compiles(pattern@),
        r matches Some(p) ==> p.pattern@ == pattern@,
{
    match regex::Regex::new(pattern) {
        Ok(re) => Some(CompiledPattern { re, pattern: Ghost(pattern@) }),
        Err(_) => None,
    }
}

/// `regex::Regex::is_match` on the regex of `p`: whether its pattern matches
/// somewhere in `haystack`; a function of the pattern and the haystack.
#[verifier::external_body]
fn pattern_is_match(p: &CompiledPattern, haystack: &str) -> (r: bool)
    ensures
        r == regex_is_match(p.pattern@, haystack@),
{
    p.re.is_match(haystack)
}

/// One or two digits, a latitude band letter `C`..`X`, two square letters and
/// 2 to 10 digits, with optional whitespace between the parts, in any case.
pub const MGRS_PATTERN: &'static str = "(?i)\\b\\d{1,2}\\s*[C-X]\\s*[A-Z]{2}\\s*\\d{2,10}\\b";

/// Number of bytes of the UTF-8 encoding of `c`.
pub open spec fn utf8_width(c: char) -> nat {
    if (c as u32) < 0x80 {
        1
    } else if (c as u32) < 0x800 {
        2
    } else if (c as u32) < 0x10000 {
        3
    } else {
        4
    }
}

/// Number of bytes of the UTF-8 encoding of `s` (what `str::len` gives).
pub open spec fn utf8_len(s: Seq<char>) -> nat
    decreases s.len(),
{
    if s.len() == 0 {
        0
    } else {
        utf8_width(s[0]) + utf8_len(s.drop_first())
    }
}

/// `utf8_len` is the length of the encoding.
proof fn lemma_utf8_len(s: Seq<char>)
    ensures
        encode_utf8(s).len() == utf8_len(s),
    decreases s.len(),
{
    if s.len() > 0 {
        vstd::utf8::char_is_scalar(s[0]);
        lemma_utf8_len(s.drop_first());
    }
}

pub proof fn lemma_utf8_len_push(s: Seq<char>, c: char)
    ensures
        utf8_len(s.push(c)) == utf8_len(s) + utf8_width(c),
    decreases s.len(),
{
    if s.len() > 0 {
        assert(s.push(c).drop_first() == s.drop_first().push(c));
        assert(s.push(c)[0] == s[0]);
        lemma_utf8_len_push(s.drop_first(), c);
    } else {
        assert(s.push(c).drop_first() == Seq::<char>::empty());
        assert(s.push(c)[0] == c);
        assert(utf8_len(Seq::<char>::empty()) == 0);
    }
}

/// Whether `utf8_len(v) >= n`.
fn utf8_len_at_least(v: &Vec<char>, n: usize) -> (r: bool)
    requires
        n <= 1000,
    ensures
        r == (utf8_len(v@) >= n),
{
    if n == 0 {
        return true;
    }
    let mut acc: usize = 0;
    let mut i: usize = 0;
    assert(v@.take(0) == Seq::<char>::empty());
    while i < v.len()
        invariant
            i <= v@.len(),
            n <= 1000,
            acc == utf8_len(v@.take(i as int)),
            acc < n,
        decreases v@.len() - i,
    {
        let c = v[i];
        let u = c as u32;
        let w: usize = if u < 0x80 {
            1
        } else if u < 0x800 {
            2
        } else if u < 0x10000 {
            3
        } else {
            4
        };
        proof {
            assert(v@.take(i + 1) == v@.take(i as int).push(c));
            lemma_utf8_len_push(v@.take(i as int), c);
        }
        acc = acc + w;
        i = i + 1;
        if acc >= n {
            proof {
                lemma_utf8_len_prefix(v@, i as int);
            }
            return true;
        }
    }
    assert(v@.take(i as int) == v@);
    false
}

pub proof fn lemma_utf8_len_prefix(s: Seq<char>, i: int)
    requires
        0 <= i <= s.len(),
    ensures
        utf8_len(s.take(i)) <= utf8_len(s),
    decreases s.len() - i,
{
    if i < s.len() {
        lemma_utf8_len_prefix(s, i + 1);
        assert(s.take(i + 1) == s.take(i).push(s[i]));
        lemma_utf8_len_push(s.take(i), s[i]);
    } else {
        assert(s.take(i) == s);
    }
}

/// `value`, trimmed, is at least 7 bytes long in UTF-8 and matches `MGRS_PATTERN`.
pub open spec fn is_likely_mgrs_spec(value: Seq<char>) -> bool {
    let t = trim(value);
    encode_utf8(t).len() >= 7 && regex_compiles(MGRS_PATTERN@) && regex_is_match(
        MGRS_PATTERN@,
        t,
    )
}

/// Tests values against the MGRS pattern, compiled once.
pub struct MgrsDetector {
    pattern: Option<CompiledPattern>,
}

impl MgrsDetector {
    pub closed spec fn wf(&self) -> bool {
        &&& self.pattern is Some <==> regex_compiles(MGRS_PATTERN@)
        &&& self.pattern matches Some(p) ==> p.pattern@ == MGRS_PATTERN@
    }

    pub fn new() -> (r: Self)
        ensures
            r.wf(),
    {
        MgrsDetector { pattern: compile_pattern(MGRS_PATTERN) }
    }

    /// Whether `value` looks like an MGRS coordinate.
    pub fn is_likely_mgrs(&self, value: &str) -> (r: bool)
        requires
            self.wf(),
        ensures
            r == is_likely_mgrs_spec(value@),
    {
        let tc = trim_chars(&chars_of(value));
        proof {
            lemma_utf8_len(tc@);
        }
        if !utf8_len_at_least(&tc, 7) {
            return false;
        }
        let t = string_of(&tc);
        match &self.pattern {
            Some(p) => pattern_is_match(p, t.as_str()),
            None => false,
        }
    }
}

/// Whether a string value looks like an MGRS coordinate.
pub fn is_likely_mgrs(value: &str) -> (r: bool)
    ensures
        r == is_likely_mgrs_spec(value@),
{
    let d = MgrsDetector::new();
    d.is_likely_mgrs(value)
}

/// How many of the first `n` records have an MGRS-looking field in column `col`.
pub open spec fn column_score(records: Seq<Seq<Seq<char>>>, col: int, n: int) -> nat
    decreases n,
{
    if n <= 0 {
        0
    } else {
        column_score(records, col, n - 1) + if 0 <= col < records[n - 1].len()
            && is_likely_mgrs_spec(trim(records[n - 1][col])) {
            1nat
        } else {
            0nat
        }
    }
}

/// The number of records that detection samples.
pub open spec fn sample_len(records: Seq<Seq<Seq<char>>>) -> int {
    if records.len() < 100 {
        records.len() as int
    } else {
        100
    }
}

/// The score of column `col`: its MGRS-looking fields among the sampled records.
pub open spec fn score(records: Seq<Seq<Seq<char>>>, col: int) -> nat {
    column_score(records, col, sample_len(records))
}

/// `col` is the detected column: among the columns of the first record it has the
/// highest positive score, and is the last one with that score.
pub open spec fn is_detected_column(records: Seq<Seq<Seq<char>>>, col: int) -> bool {
    &&& records.len() > 0
    &&& 0 <= col < records[0].len()
    &&& score(records, col) > 0
    &&& forall|j: int| 0 <= j < records[0].len() ==> score(records, j) <= score(records, col)
    &&& forall|j: int| col < j < records[0].len() ==> score(records, j) < score(records, col)
}

/// Auto-detects which column holds MGRS coordinates: the column (counted on the
/// first record) whose fields most often look like MGRS among the first 100
/// records; the last such column on a tie; `None` when no field looks like MGRS.
/// Fields beyond the first record's width are not counted.
pub fn detect_mgrs_column(records: &Vec<Vec<String>>) -> (r: Option<usize>)
    ensures
        match r {
            Some(c) => is_detected_column(records.deep_view(), c as int),
            None => records@.len() == 0 || forall|j: int|
                0 <= j < records@[0]@.len() ==> score(records.deep_view(), j) == 0,
        },
{
    if records.len() == 0 {
        return None;
    }
    let ghost rs = records.deep_view();
    let detector = MgrsDetector::new();
    let num_columns = records[0].len();
    assert(rs[0].len() == num_columns);
    let n = if records.len() < 100 {
        records.len()
    } else {
        100
    };
    let mut scores: Vec<usize> = Vec::new();
    let mut c: usize = 0;
    while c < num_columns
        invariant
            c <= num_columns,
            scores@.len() == c,
            forall|j: int| 0 <= j < c ==> scores@[j] == 0,
        decreases num_columns - c,
    {
        scores.push(0);
        c = c + 1;
    }
    let mut i: usize = 0;
    while i < n
        invariant
            i <= n,
            n == sample_len(rs),
            n <= records@.len(),
            rs == records.deep_view(),
            detector.wf(),
            scores@.len() == num_columns,
            forall|j: int| 0 <= j < num_columns ==> scores@[j] == column_score(rs, j, i as int),
            forall|j: int| 0 <= j < num_columns ==> column_score(rs, j, i as int) <= i,
        decreases n - i,
    {
        let record = &records[i];
        assert(rs[i as int] == record.deep_view());
        let mut col: usize = 0;
        while col < record.len()
            invariant
                i < n <= records@.len(),
                record == &records@[i as int],
                rs == records.deep_view(),
                detector.wf(),
                scores@.len() == num_columns,
                forall|j: int|
                    0 <= j < num_columns ==> scores@[j] == column_score(rs, j, i as int) + (if j
                        < col && j < rs[i as int].len() && is_likely_mgrs_spec(
                        trim(rs[i as int][j]),
                    ) {
                        1nat
                    } else {
                        0nat
                    }),
                forall|j: int| 0 <= j < num_columns ==> column_score(rs, j, i as int) <= i,
            decreases record@.len() - col,
        {
            if col < num_columns {
                let field = string_of(&trim_chars(&chars_of(record[col].as_str())));
                assert(rs[i as int][col as int] == record@[col as int]@);
                if detector.is_likely_mgrs(field.as_str()) {
                    scores.set(col, scores[col] + 1);
                }
            }
            col = col + 1;
        }
        assert forall|j: int| 0 <= j < num_columns implies #[trigger] column_score(rs, j, i + 1) <= i + 1 by {
            assert(column_score(rs, j, i + 1) <= column_score(rs, j, i as int) + 1);
        }
        i = i + 1;
    }
    let mut best: usize = 0;
    let mut k: usize = 1;
    if num_columns == 0 {
        return None;
    }
    while k < num_columns
        invariant
            1 <= k <= num_columns,
            best < k,
            scores@.len() == num_columns,
            forall|j: int| 0 <= j < k ==> scores@[j] <= scores@[best as int],
            forall|j: int| best < j < k ==> scores@[j] < scores@[best as int],
        decreases num_columns - k,
    {
        if scores[k] >= scores[best] {
            best = k;
        }
        k = k + 1;
    }
    if scores[best] > 0 {
        Some(best)
    } else {
        None
    }
}

} // verus!
