//! Character-level text primitives shared by the readers and writers:
//! Unicode whitespace, trimming, substring search and replacement.
use vstd::prelude::*;

verus! {

/// Unicode `White_Space`, the set that `char::is_whitespace` and `str::trim` use.
pub open spec fn is_ws(c: char) -> bool {
    let u = c as int;
    ||| 0x09 <= u <= 0x0d
    ||| u == 0x20
    ||| u == 0x85
    ||| u == 0xa0
    ||| u == 0x1680
    ||| 0x2000 <= u <= 0x200a
    ||| u == 0x2028
    ||| u == 0x2029
    ||| u == 0x202f
    ||| u == 0x205f
    ||| u == 0x3000
}

/// `s` without its leading whitespace.
pub open spec fn trim_start(s: Seq<char>) -> Seq<char>
    decreases s.len(),
{
    if s.len() > 0 && is_ws(s[0]) {
        trim_start(s.drop_first())
    } else {
        s
    }
}

/// `s` without its trailing whitespace.
pub open spec fn trim_end(s: Seq<char>) -> Seq<char>
    decreases s.len(),
{
    if s.len() > 0 && is_ws(s.last()) {
        trim_end(s.drop_last())
    } else {
        s
    }
}

/// `s` without leading and trailing whitespace (what `str::trim` gives).
pub open spec fn trim(s: Seq<char>) -> Seq<char> {
    trim_end(trim_start(s))
}

/// `p` occurs in `h` at position `i`.
pub open spec fn matches_at(h: Seq<char>, p: Seq<char>, i: int) -> bool {
    0 <= i && i + p.len() <= h.len() && h.subrange(i, i + p.len()) == p
}

/// The first position at or after `i` where `p` occurs in `h`.
pub open spec fn find_from(h: Seq<char>, p: Seq<char>, i: int) -> Option<int>
    decreases h.len() + 1 - i,
{
    if i < 0 || i + p.len() > h.len() {
        None
    } else if matches_at(h, p, i) {
        Some(i)
    } else {
        find_from(h, p, i + 1)
    }
}

/// Every non-overlapping occurrence of `from` in `s`, left to right, replaced by `to`
/// (what `str::replace` gives).
pub open spec fn replace_all(s: Seq<char>, from: Seq<char>, to: Seq<char>) -> Seq<char>
    decreases s.len(),
{
    if s.len() == 0 || from.len() == 0 {
        s
    } else if matches_at(s, from, 0) {
        to + replace_all(s.skip(from.len() as int), from, to)
    } else {
        seq![s[0]] + replace_all(s.drop_first(), from, to)
    }
}

/// Exec test of `is_ws`.
pub fn is_whitespace(c: char) -> (r: bool)
    ensures
        r == is_ws(c),
{
    let u = c as u32;
    (0x09 <= u && u <= 0x0d) || u == 0x20 || u == 0x85 || u == 0xa0 || u == 0x1680 || (0x2000
        <= u && u <= 0x200a) || u == 0x2028 || u == 0x2029 || u == 0x202f || u == 0x205f || u
        == 0x3000
}

/// The characters of a string slice, in order.
pub fn chars_of(s: &str) -> (r: Vec<char>)
    ensures
        r@ == s@,
{
    let mut r: Vec<char> = Vec::new();
    for c in it: s.chars()
        invariant
            it.seq() == s@,
            r@ == it.seq().take(it.index()),
    {
        r.push(c);
    }
    r
}

/// `String::push`: appends one character.
#[verifier::external_body]
pub fn push_char(s: &mut String, c: char)
    ensures
        final(s)@ == old(s)@.push(c),
{
    s.push(c);
}

/// The string made of the characters `cs[lo..hi]`.
pub fn string_of_range(cs: &Vec<char>, lo: usize, hi: usize) -> (r: String)
    requires
        lo <= hi <= cs@.len(),
    ensures
        r@ == cs@.subrange(lo as int, hi as int),
{
    let mut r = String::new();
    let mut i = lo;
    while i < hi
        invariant
            lo <= i <= hi <= cs@.len(),
            r@ == cs@.subrange(lo as int, i as int),
        decreases hi - i,
    {
        push_char(&mut r, cs[i]);
        assert(cs@.subrange(lo as int, i + 1) == cs@.subrange(lo as int, i as int).push(cs@[i as int]));
        i = i + 1;
    }
    r
}

/// The string made of the characters `cs`.
pub fn string_of(cs: &Vec<char>) -> (r: String)
    ensures
        r@ == cs@,
{
    assert(cs@.subrange(0, cs@.len() as int) == cs@);
    string_of_range(cs, 0, cs.len())
}

/// Copies `v[lo..hi]`.
pub fn sub_chars(v: &Vec<char>, lo: usize, hi: usize) -> (r: Vec<char>)
    requires
        lo <= hi <= v@.len(),
    ensures
        r@ == v@.subrange(lo as int, hi as int),
{
    let mut r: Vec<char> = Vec::new();
    let mut i = lo;
    while i < hi
        invariant
            lo <= i <= hi <= v@.len(),
            r@ == v@.subrange(lo as int, i as int),
        decreases hi - i,
    {
        r.push(v[i]);
        assert(v@.subrange(lo as int, i + 1) == v@.subrange(lo as int, i as int).push(v@[i as int]));
        i = i + 1;
    }
    r
}

/// Appends the characters of `s` to `out`.
pub fn push_str_chars(out: &mut Vec<char>, s: &str)
    ensures
        final(out)@ == old(out)@ + s@,
{
    let cs = chars_of(s);
    let mut i: usize = 0;
    while i < cs.len()
        invariant
            0 <= i <= cs@.len(),
            cs@ == s@,
            out@ == old(out)@ + cs@.take(i as int),
        decreases cs@.len() - i,
    {
        out.push(cs[i]);
        assert(cs@.take(i + 1) == cs@.take(i as int).push(cs@[i as int]));
        i = i + 1;
    }
    assert(cs@.take(cs@.len() as int) == cs@);
}

/// Appends `s` to `out`.
pub fn push_chars(out: &mut Vec<char>, s: &Vec<char>)
    ensures
        final(out)@ == old(out)@ + s@,
{
    let mut i: usize = 0;
    while i < s.len()
        invariant
            0 <= i <= s@.len(),
            out@ == old(out)@ + s@.take(i as int),
        decreases s@.len() - i,
    {
        out.push(s[i]);
        assert(s@.take(i + 1) == s@.take(i as int).push(s@[i as int]));
        i = i + 1;
    }
    assert(s@.take(s@.len() as int) == s@);
}

proof fn lemma_trim_start_skip(s: Seq<char>, k: int)
    requires
        0 <= k <= s.len(),
        forall|j: int| 0 <= j < k ==> is_ws(#[trigger] s[j]),
    ensures
        trim_start(s) == trim_start(s.skip(k)),
    decreases k,
{
    if k > 0 {
        lemma_trim_start_skip(s.drop_first(), k - 1);
        assert(s.drop_first().skip(k - 1) == s.skip(k));
    } else {
        assert(s.skip(0) == s);
    }
}

proof fn lemma_trim_end_take(s: Seq<char>, k: int)
    requires
        0 <= k <= s.len(),
        forall|j: int| k <= j < s.len() ==> is_ws(#[trigger] s[j]),
    ensures
        trim_end(s) == trim_end(s.take(k)),
    decreases s.len() - k,
{
    if k < s.len() {
        lemma_trim_end_take(s.drop_last(), k);
        assert(s.drop_last().take(k) == s.take(k));
    } else {
        assert(s.take(k) == s);
    }
}

/// The bounds `(lo, hi)` of `trim(v)` within `v`.
pub fn trim_bounds(v: &Vec<char>) -> (r: (usize, usize))
    ensures
        r.0 <= r.1 <= v@.len(),
        v@.subrange(r.0 as int, r.1 as int) == trim(v@),
{
    let mut lo: usize = 0;
    while lo < v.len() && is_whitespace(v[lo])
        invariant
            lo <= v@.len(),
            forall|j: int| 0 <= j < lo ==> is_ws(#[trigger] v@[j]),
        decreases v@.len() - lo,
    {
        lo = lo + 1;
    }
    proof {
        lemma_trim_start_skip(v@, lo as int);
    }
    let ghost t = v@.skip(lo as int);
    assert(trim_start(v@) == t);
    let mut hi: usize = v.len();
    while hi > lo && is_whitespace(v[hi - 1])
        invariant
            lo <= hi <= v@.len(),
            forall|j: int| hi <= j < v@.len() ==> is_ws(#[trigger] v@[j]),
        decreases hi,
    {
        hi = hi - 1;
    }
    proof {
        assert forall|j: int| hi - lo <= j < t.len() implies is_ws(#[trigger] t[j]) by {
            assert(t[j] == v@[j + lo]);
        }
        lemma_trim_end_take(t, hi - lo);
        let u = t.take(hi - lo);
        assert(u == v@.subrange(lo as int, hi as int));
        if u.len() > 0 {
            assert(u.last() == v@[hi - 1]);
        }
    }
    (lo, hi)
}

/// `trim(v)`.
pub fn trim_chars(v: &Vec<char>) -> (r: Vec<char>)
    ensures
        r@ == trim(v@),
{
    let (lo, hi) = trim_bounds(v);
    sub_chars(v, lo, hi)
}

/// Whether `p` occurs in `h` at `i`.
pub fn matches_at_exec(h: &Vec<char>, p: &Vec<char>, i: usize) -> (r: bool)
    ensures
        r == matches_at(h@, p@, i as int),
{
    if p.len() > h.len() || i > h.len() - p.len() {
        return false;
    }
    let mut k: usize = 0;
    while k < p.len()
        invariant
            i + p@.len() <= h@.len(),
            h@.len() <= usize::MAX,
            k <= p@.len(),
            forall|j: int| 0 <= j < k ==> h@[i + j] == p@[j],
        decreases p@.len() - k,
    {
        assert(i + k < h@.len());
        if h[i + k] != p[k] {
            assert(h@.subrange(i as int, i + p@.len())[k as int] != p@[k as int]);
            return false;
        }
        k = k + 1;
    }
    assert(h@.subrange(i as int, i + p@.len()) == p@);
    true
}

/// The first position at or after `from` where `p` occurs in `h`.
pub fn find_from_exec(h: &Vec<char>, p: &Vec<char>, from: usize) -> (r: Option<usize>)
    ensures
        r matches Some(k) ==> find_from(h@, p@, from as int) == Some(k as int) && from <= k && k
            + p@.len() <= h@.len() <= usize::MAX,
        r is None ==> find_from(h@, p@, from as int) is None,
{
    proof {
        lemma_find_from(h@, p@, from as int);
    }
    if p.len() == 0 {
        if from <= h.len() {
            assert(h@.subrange(from as int, from as int) == p@);
            assert(matches_at(h@, p@, from as int));
            return Some(from);
        }
        return None;
    }
    let mut i = from;
    while p.len() <= h.len() && i <= h.len() - p.len()
        invariant
            from <= i,
            p@.len() > 0,
            find_from(h@, p@, from as int) == find_from(h@, p@, i as int),
        decreases h@.len() + 1 - i,
    {
        if matches_at_exec(h, p, i) {
            return Some(i);
        }
        i = i + 1;
    }
    None
}

/// What `find_from` gives: a match, and none before it.
pub proof fn lemma_find_from(h: Seq<char>, p: Seq<char>, i: int)
    requires
        0 <= i,
    ensures
        find_from(h, p, i) matches Some(k) ==> i <= k && k + p.len() <= h.len() && matches_at(
            h,
            p,
            k,
        ) && forall|j: int| i <= j < k ==> !matches_at(h, p, j),
        find_from(h, p, i) is None ==> forall|j: int| i <= j ==> !matches_at(h, p, j),
    decreases h.len() + 1 - i,
{
    if i < 0 || i + p.len() > h.len() {
    } else if matches_at(h, p, i) {
    } else {
        lemma_find_from(h, p, i + 1);
    }
}

/// `replace_all(v, from, to)`.
pub fn replace_all_exec(v: &Vec<char>, from: &Vec<char>, to: &Vec<char>) -> (r: Vec<char>)
    ensures
        r@ == replace_all(v@, from@, to@),
{
    let mut out: Vec<char> = Vec::new();
    if from.len() == 0 {
        push_chars(&mut out, v);
        assert(out@ == v@);
        return out;
    }
    let mut i: usize = 0;
    assert(v@.skip(0) == v@);
    while i < v.len()
        invariant
            i <= v@.len(),
            from@.len() > 0,
            out@ + replace_all(v@.skip(i as int), from@, to@) == replace_all(v@, from@, to@),
        decreases v@.len() - i,
    {
        let ghost rest = v@.skip(i as int);
        if from.len() <= v.len() - i && matches_at_exec(v, from, i) {
            assert(rest.subrange(0, from@.len() as int) == v@.subrange(i as int, i + from@.len()));
            assert(rest.skip(from@.len() as int) == v@.skip(i + from@.len()));
            push_chars(&mut out, to);
            i = i + from.len();
        } else {
            assert(!matches_at(rest, from@, 0)) by {
                if matches_at(rest, from@, 0) {
                    assert(rest.subrange(0, from@.len() as int) == v@.subrange(
                        i as int,
                        i + from@.len(),
                    ));
                }
            }
            assert(rest.drop_first() == v@.skip(i + 1));
            out.push(v[i]);
            i = i + 1;
        }
    }
    assert(v@.skip(i as int).len() == 0);
    out
}


/// Number of leading characters of `s` that are not whitespace.
pub open spec fn word_len(s: Seq<char>) -> nat
    decreases s.len(),
{
    if s.len() > 0 && !is_ws(s[0]) {
        1 + word_len(s.drop_first())
    } else {
        0
    }
}

pub proof fn lemma_word_len(s: Seq<char>)
    ensures
        word_len(s) <= s.len(),
        s.len() > 0 && !is_ws(s[0]) ==> word_len(s) >= 1,
        forall|j: int| 0 <= j < word_len(s) ==> !is_ws(#[trigger] s[j]),
        word_len(s) < s.len() ==> is_ws(s[word_len(s) as int]),
    decreases s.len(),
{
    if s.len() > 0 && !is_ws(s[0]) {
        lemma_word_len(s.drop_first());
        assert forall|j: int| 0 <= j < word_len(s) implies !is_ws(#[trigger] s[j]) by {
            if j > 0 {
                assert(s[j] == s.drop_first()[j - 1]);
            }
        }
        if word_len(s) < s.len() {
            assert(s[word_len(s) as int] == s.drop_first()[word_len(s) - 1]);
        }
    }
}

/// The whitespace-separated words of `s` (what `str::split_whitespace` gives).
pub open spec fn ws_tokens(s: Seq<char>) -> Seq<Seq<char>>
    decreases s.len(),
{
    if s.len() == 0 {
        seq![]
    } else if is_ws(s[0]) {
        ws_tokens(s.drop_first())
    } else {
        proof {
            lemma_word_len(s);
        }
        seq![s.take(word_len(s) as int)] + ws_tokens(s.skip(word_len(s) as int))
    }
}

pub proof fn lemma_word_len_exact(s: Seq<char>, n: int)
    requires
        0 <= n <= s.len(),
        forall|j: int| 0 <= j < n ==> !is_ws(#[trigger] s[j]),
        n == s.len() || is_ws(s[n]),
    ensures
        word_len(s) == n,
    decreases n,
{
    if n > 0 {
        lemma_word_len_exact(s.drop_first(), n - 1);
    }
}

/// `ws_tokens(v)`.
pub fn ws_tokens_exec(v: &Vec<char>) -> (r: Vec<Vec<char>>)
    ensures
        r@.map_values(|w: Vec<char>| w@) == ws_tokens(v@),
{
    let mut out: Vec<Vec<char>> = Vec::new();
    let mut i: usize = 0;
    assert(v@.skip(0) == v@);
    while i < v.len()
        invariant
            i <= v@.len(),
            out@.map_values(|w: Vec<char>| w@) + ws_tokens(v@.skip(i as int)) == ws_tokens(v@),
        decreases v@.len() - i,
    {
        let ghost rest = v@.skip(i as int);
        let ghost before = out@.map_values(|w: Vec<char>| w@);
        if is_whitespace(v[i]) {
            assert(rest.drop_first() == v@.skip(i + 1));
            i = i + 1;
        } else {
            let mut j = i;
            while j < v.len() && !is_whitespace(v[j])
                invariant
                    i <= j <= v@.len(),
                    forall|k: int| i <= k < j ==> !is_ws(#[trigger] v@[k]),
                decreases v@.len() - j,
            {
                j = j + 1;
            }
            proof {
                assert forall|k: int| 0 <= k < j - i implies !is_ws(#[trigger] rest[k]) by {
                    assert(rest[k] == v@[k + i]);
                }
                lemma_word_len_exact(rest, j - i);
                assert(rest.skip(j - i) == v@.skip(j as int));
            }
            let w = sub_chars(v, i, j);
            assert(w@ == rest.take(j - i));
            out.push(w);
            assert(out@.map_values(|w: Vec<char>| w@) == before.push(w@));
            assert(before.push(w@) + ws_tokens(v@.skip(j as int)) == before + (seq![w@]
                + ws_tokens(v@.skip(j as int))));
            i = j;
        }
    }
    assert(v@.skip(i as int).len() == 0);
    assert(out@.map_values(|w: Vec<char>| w@) + Seq::<Seq<char>>::empty() == out@.map_values(
        |w: Vec<char>| w@,
    ));
    out
}


/// `str::to_lowercase`: the lower case of `s` by the Unicode case tables of std.
pub uninterp spec fn unicode_lowercase(s: Seq<char>) -> Seq<char>;

/// `c` in lower case if it is an ASCII capital letter, else `c` itself.
pub open spec fn ascii_lower_char(c: char) -> char {
    if 'A' <= c <= 'Z' {
        ((c as int) + 32) as char
    } else {
        c
    }
}

/// `s` with each ASCII capital letter in lower case.
pub open spec fn ascii_lowered(s: Seq<char>) -> Seq<char> {
    s.map_values(|c: char| ascii_lower_char(c))
}

/// Whether every character of `s` is ASCII.
pub open spec fn is_ascii_text(s: Seq<char>) -> bool {
    forall|i: int| 0 <= i < s.len() ==> (#[trigger] s[i] as int) < 128
}

/// `str::to_lowercase`. Its result depends on `s` alone; on ASCII text, where
/// the Unicode lower-case mapping is that of `char::to_ascii_lowercase`, each
/// capital letter becomes its small letter and every other character stays.
#[verifier::external_body]
pub fn to_lowercase(s: &str) -> (r: String)
    ensures
        r@ == unicode_lowercase(s@),
        is_ascii_text(s@) ==> r@ == ascii_lowered(s@),
{
    s.to_lowercase()
}

/// Whether `a` and `b` hold the same characters.
pub fn chars_eq(a: &Vec<char>, b: &Vec<char>) -> (r: bool)
    ensures
        r == (a@ == b@),
{
    if a.len() != b.len() {
        return false;
    }
    let mut i: usize = 0;
    while i < a.len()
        invariant
            i <= a@.len(),
            a@.len() == b@.len(),
            forall|j: int| 0 <= j < i ==> a@[j] == b@[j],
        decreases a@.len() - i,
    {
        if a[i] != b[i] {
            return false;
        }
        i = i + 1;
    }
    assert(a@ == b@);
    true
}

/// The last position before `end` where `c` stands in `s`, or -1.
pub open spec fn last_index_of(s: Seq<char>, c: char, end: int) -> int
    decreases end,
{
    if end <= 0 {
        -1
    } else if s[end - 1] == c {
        end - 1
    } else {
        last_index_of(s, c, end - 1)
    }
}

pub proof fn lemma_last_index_of(s: Seq<char>, c: char, end: int)
    ensures
        -1 <= last_index_of(s, c, end) < if end > 0 {
            end
        } else {
            0
        },
    decreases end,
{
    if end > 0 && s[end - 1] != c {
        lemma_last_index_of(s, c, end - 1);
    }
}

/// `last_index_of(v@, c, end)`.
pub fn last_index_of_exec(v: &Vec<char>, c: char, end: usize) -> (r: Option<usize>)
    requires
        end <= v@.len(),
    ensures
        match r {
            Some(k) => last_index_of(v@, c, end as int) == k as int,
            None => last_index_of(v@, c, end as int) == -1,
        },
{
    let mut e = end;
    while e > 0
        invariant
            e <= end <= v@.len(),
            last_index_of(v@, c, end as int) == last_index_of(v@, c, e as int),
        decreases e,
    {
        if v[e - 1] == c {
            return Some(e - 1);
        }
        e = e - 1;
    }
    None
}

} // verus!

verus! {

/// Text that neither starts nor ends with whitespace is its own trim.
pub proof fn lemma_trim_id(s: Seq<char>)
    requires
        s.len() > 0,
        !is_ws(s[0]),
        !is_ws(s.last()),
    ensures
        trim(s) == s,
{
    assert(trim_start(s) == s);
    assert(trim_end(s) == s);
}

/// A leading word of `w + rest` ends where `rest` begins with whitespace.
pub proof fn lemma_ws_tokens_word(w: Seq<char>, rest: Seq<char>)
    requires
        w.len() > 0,
        forall|j: int| 0 <= j < w.len() ==> !is_ws(#[trigger] w[j]),
        rest.len() == 0 || is_ws(rest[0]),
    ensures
        ws_tokens(w + rest) == seq![w] + ws_tokens(rest),
{
    let s = w + rest;
    assert forall|j: int| 0 <= j < w.len() implies !is_ws(#[trigger] s[j]) by {
        assert(s[j] == w[j]);
    }
    if rest.len() > 0 {
        assert(s[w.len() as int] == rest[0]);
    }
    lemma_word_len_exact(s, w.len() as int);
    assert(s.take(w.len() as int) =~= w);
    assert(s.skip(w.len() as int) =~= rest);
}

/// Leading whitespace yields no word.
pub proof fn lemma_ws_tokens_space(c: char, rest: Seq<char>)
    requires
        is_ws(c),
    ensures
        ws_tokens(seq![c] + rest) == ws_tokens(rest),
{
    assert((seq![c] + rest).drop_first() =~= rest);
}

/// Searching `x + y` from inside `y` is searching `y`.
pub proof fn lemma_find_from_shift(x: Seq<char>, y: Seq<char>, p: Seq<char>, i: int)
    requires
        0 <= i,
    ensures
        find_from(x + y, p, x.len() + i) == (match find_from(y, p, i) {
            Some(k) => Some(k + x.len()),
            None => None,
        }),
    decreases y.len() + 1 - i,
{
    let s = x + y;
    let n = x.len() as int;
    if i + p.len() > y.len() {
    } else {
        assert(s.subrange(n + i, n + i + p.len()) =~= y.subrange(i, i + p.len()));
        if !matches_at(y, p, i) {
            lemma_find_from_shift(x, y, p, i + 1);
            assert(n + i + 1 == n + (i + 1));
        }
    }
}

/// The first occurrence of the character `c` at or after `i` is at `k`.
pub proof fn lemma_find_char(s: Seq<char>, c: char, i: int, k: int)
    requires
        0 <= i <= k < s.len(),
        s[k] == c,
        forall|j: int| i <= j < k ==> s[j] != c,
    ensures
        find_from(s, seq![c], i) == Some(k),
    decreases k - i,
{
    if i == k {
        assert(s.subrange(i, i + 1) =~= seq![c]);
    } else {
        assert(s.subrange(i, i + 1)[0] == s[i]);
        assert(!matches_at(s, seq![c], i));
        lemma_find_char(s, c, i + 1, k);
    }
}

/// A match of `p` at `j` fixes the characters there.
pub proof fn lemma_match_char(h: Seq<char>, p: Seq<char>, j: int, m: int)
    requires
        matches_at(h, p, j),
        0 <= m < p.len(),
    ensures
        h[j + m] == p[m],
{
    assert(h.subrange(j, j + p.len())[m] == h[j + m]);
}

/// Searching from `a` skips positions where `p` does not occur.
pub proof fn lemma_find_skip(h: Seq<char>, p: Seq<char>, a: int, b: int)
    requires
        0 <= a <= b,
        forall|j: int| a <= j < b ==> !matches_at(h, p, j),
    ensures
        find_from(h, p, a) == find_from(h, p, b),
    decreases b - a,
{
    if a < b && a + p.len() <= h.len() {
        assert(!matches_at(h, p, a));
        lemma_find_skip(h, p, a + 1, b);
    }
}

/// The first occurrence of `p` at or after `a` is at `k`.
pub proof fn lemma_find_at(h: Seq<char>, p: Seq<char>, a: int, k: int)
    requires
        0 <= a <= k,
        matches_at(h, p, k),
        forall|j: int| a <= j < k ==> !matches_at(h, p, j),
    ensures
        find_from(h, p, a) == Some(k),
{
    lemma_find_skip(h, p, a, k);
}

/// Replacement leaves alone a prefix in which the pattern starts nowhere.
pub proof fn lemma_replace_prefix(x: Seq<char>, y: Seq<char>, p: Seq<char>, r: Seq<char>)
    requires
        p.len() > 0,
        forall|j: int| 0 <= j < x.len() ==> !matches_at(x + y, p, j),
    ensures
        replace_all(x + y, p, r) == x + replace_all(y, p, r),
    decreases x.len(),
{
    if x.len() == 0 {
        assert(x + y =~= y);
        assert(x + replace_all(y, p, r) =~= replace_all(y, p, r));
    } else {
        let s = x + y;
        let x1 = x.drop_first();
        assert(!matches_at(s, p, 0));
        assert(s.drop_first() =~= x1 + y);
        assert forall|j: int| 0 <= j < x1.len() implies !matches_at(x1 + y, p, j) by {
            assert(!matches_at(s, p, j + 1));
            if j + p.len() <= (x1 + y).len() {
                assert(s.subrange(j + 1, j + 1 + p.len()) =~= (x1 + y).subrange(j, j + p.len()));
            }
        }
        lemma_replace_prefix(x1, y, p, r);
        assert(seq![s[0]] + (x1 + replace_all(y, p, r)) =~= x + replace_all(y, p, r));
    }
}

/// `y` and `p` agree as far as both go.
pub open spec fn prefix_agrees(y: Seq<char>, p: Seq<char>) -> bool {
    forall|m: int| 0 <= m < p.len() && m < y.len() ==> #[trigger] y[m] == p[m]
}

/// No occurrence of `p` can start within `x`, whatever follows `x`.
pub open spec fn no_start(x: Seq<char>, p: Seq<char>) -> bool {
    forall|j: int| 0 <= j < x.len() ==> !prefix_agrees(#[trigger] x.skip(j), p)
}

/// Where no occurrence starts in `x`, none starts there in `x + z` either.
pub proof fn lemma_no_start_match(x: Seq<char>, z: Seq<char>, p: Seq<char>)
    requires
        no_start(x, p),
    ensures
        forall|j: int| 0 <= j < x.len() ==> !matches_at(x + z, p, j),
{
    assert forall|j: int| 0 <= j < x.len() implies !matches_at(x + z, p, j) by {
        if matches_at(x + z, p, j) {
            assert forall|m: int| 0 <= m < p.len() && m < x.skip(j).len() implies #[trigger] x.skip(
                j,
            )[m] == p[m] by {
                lemma_match_char(x + z, p, j, m);
                assert((x + z)[j + m] == x[j + m]);
            }
            assert(!prefix_agrees(x.skip(j), p));
        }
    }
}

pub proof fn lemma_no_start_concat(x: Seq<char>, y: Seq<char>, p: Seq<char>)
    requires
        no_start(x, p),
        no_start(y, p),
    ensures
        no_start(x + y, p),
{
    let s = x + y;
    assert forall|j: int| 0 <= j < s.len() implies !prefix_agrees(#[trigger] s.skip(j), p) by {
        if j < x.len() {
            if prefix_agrees(s.skip(j), p) {
                assert forall|m: int| 0 <= m < p.len() && m < x.skip(j).len() implies #[trigger] x.skip(
                    j,
                )[m] == p[m] by {
                    assert(s.skip(j)[m] == x.skip(j)[m]);
                }
                assert(!prefix_agrees(x.skip(j), p));
            }
        } else {
            assert(s.skip(j) =~= y.skip(j - x.len()));
            assert(!prefix_agrees(y.skip(j - x.len()), p));
        }
    }
}

/// Text without the pattern's first character.
pub proof fn lemma_no_start_without(x: Seq<char>, p: Seq<char>)
    requires
        p.len() > 0,
        forall|j: int| 0 <= j < x.len() ==> #[trigger] x[j] != p[0],
    ensures
        no_start(x, p),
{
    assert forall|j: int| 0 <= j < x.len() implies !prefix_agrees(#[trigger] x.skip(j), p) by {
        assert(x.skip(j)[0] == x[j]);
    }
}

/// Every `<` of `x` is followed, within `x`, by characters that leave `p`.
pub open spec fn lt_diverges(x: Seq<char>, p: Seq<char>, j: int) -> bool {
    ||| j + 1 < x.len() && x[j + 1] != p[1]
    ||| j + 2 < x.len() && x[j + 1] == p[1] && x[j + 2] != p[2]
    ||| j + 3 < x.len() && x[j + 1] == p[1] && x[j + 2] == p[2] && x[j + 3] != p[3]
}

pub proof fn lemma_no_start_chars(x: Seq<char>, p: Seq<char>)
    requires
        p.len() >= 4,
        p[0] == '<',
        forall|j: int| 0 <= j < x.len() && #[trigger] x[j] == '<' ==> lt_diverges(x, p, j),
    ensures
        no_start(x, p),
{
    assert forall|j: int| 0 <= j < x.len() implies !prefix_agrees(#[trigger] x.skip(j), p) by {
        let y = x.skip(j);
        assert(y[0] == x[j]);
        if x[j] == '<' {
            assert(lt_diverges(x, p, j));
            if j + 1 < x.len() {
                assert(y[1] == x[j + 1]);
            }
            if j + 2 < x.len() {
                assert(y[2] == x[j + 2]);
            }
            if j + 3 < x.len() {
                assert(y[3] == x[j + 3]);
            }
        }
    }
}

/// Searching past text in which the pattern starts nowhere.
pub proof fn lemma_find_past(x: Seq<char>, y: Seq<char>, p: Seq<char>)
    requires
        no_start(x, p),
    ensures
        find_from(x + y, p, 0) == (match find_from(y, p, 0) {
            Some(k) => Some(k + x.len()),
            None => None,
        }),
{
    lemma_no_start_match(x, y, p);
    lemma_find_skip(x + y, p, 0, x.len() as int);
    lemma_find_from_shift(x, y, p, 0);
    assert(x.len() + 0 == x.len());
}

} // verus!
