//! Recognisers for the textual number forms the formats accept: the decimal
//! floating-point literal grammar of `f64::from_str`, and unsigned integers as
//! `usize::from_str` reads them.
use vstd::prelude::*;

verus! {

pub open spec fn is_digit(c: char) -> bool {
    '0' <= c <= '9'
}

/// Number of leading ASCII digits of `s`.
pub open spec fn digit_run(s: Seq<char>) -> nat
    decreases s.len(),
{
    if s.len() > 0 && is_digit(s[0]) {
        1 + digit_run(s.drop_first())
    } else {
        0
    }
}

pub open spec fn all_digits(s: Seq<char>) -> bool {
    forall|i: int| 0 <= i < s.len() ==> is_digit(#[trigger] s[i])
}

/// Code of `c` with ASCII upper case letters taken to lower case.
pub open spec fn ascii_lower(c: char) -> int {
    if 'A' <= c <= 'Z' {
        (c as int) + 32
    } else {
        c as int
    }
}

/// `ascii_lower(c)`.
pub fn ascii_lower_code(c: char) -> (r: u32)
    ensures
        r == ascii_lower(c),
{
    if 'A' <= c && c <= 'Z' {
        (c as u32) + 32
    } else {
        c as u32
    }
}

/// `s` and `t` are equal up to ASCII case.
pub open spec fn eq_ignore_ascii_case(s: Seq<char>, t: Seq<char>) -> bool {
    s.len() == t.len() && forall|i: int| 0 <= i < s.len() ==> ascii_lower(#[trigger] s[i])
        == ascii_lower(t[i])
}

/// `s` without one leading `+` or `-`.
pub open spec fn without_sign(s: Seq<char>) -> Seq<char> {
    if s.len() > 0 && (s[0] == '+' || s[0] == '-') {
        s.drop_first()
    } else {
        s
    }
}

/// `e` is an exponent: `e` or `E`, an optional sign, then one or more digits.
pub open spec fn is_exponent(e: Seq<char>) -> bool {
    e.len() > 0 && (e[0] == 'e' || e[0] == 'E') && {
        let d = without_sign(e.drop_first());
        d.len() > 0 && all_digits(d)
    }
}

/// `b` is `Digit+`, `Digit+ '.' Digit*` or `Digit* '.' Digit+`, followed by an optional exponent.
pub open spec fn is_decimal(b: Seq<char>) -> bool {
    let i = digit_run(b);
    let r = b.skip(i as int);
    if r.len() > 0 && r[0] == '.' {
        let f = r.drop_first();
        let j = digit_run(f);
        i + j > 0 && (f.skip(j as int).len() == 0 || is_exponent(f.skip(j as int)))
    } else {
        i > 0 && (r.len() == 0 || is_exponent(r))
    }
}

/// The strings `f64::from_str` accepts: an optional sign, then `inf`, `infinity`,
/// `nan` (in any ASCII case) or a decimal number; no surrounding whitespace.
pub open spec fn is_float_literal(s: Seq<char>) -> bool {
    let b = without_sign(s);
    ||| eq_ignore_ascii_case(b, seq!['i', 'n', 'f'])
    ||| eq_ignore_ascii_case(b, seq!['i', 'n', 'f', 'i', 'n', 'i', 't', 'y'])
    ||| eq_ignore_ascii_case(b, seq!['n', 'a', 'n'])
    ||| is_decimal(b)
}

/// Value of a string of decimal digits.
pub open spec fn digits_value(s: Seq<char>) -> nat
    decreases s.len(),
{
    if s.len() == 0 {
        0
    } else {
        digits_value(s.drop_last()) * 10 + ((s.last() as u32) - ('0' as u32)) as nat
    }
}

/// What `usize::from_str` gives: an optional `+`, then one or more digits whose
/// value fits in `usize`.
pub open spec fn parse_usize_spec(s: Seq<char>) -> Option<nat> {
    let d = if s.len() > 0 && s[0] == '+' {
        s.drop_first()
    } else {
        s
    };
    if d.len() > 0 && all_digits(d) && digits_value(d) <= usize::MAX {
        Some(digits_value(d))
    } else {
        None
    }
}

proof fn lemma_digit_run(s: Seq<char>, n: int)
    requires
        0 <= n <= s.len(),
        forall|j: int| 0 <= j < n ==> is_digit(#[trigger] s[j]),
        n == s.len() || !is_digit(s[n]),
    ensures
        digit_run(s) == n,
    decreases n,
{
    if n > 0 {
        lemma_digit_run(s.drop_first(), n - 1);
    }
}

/// `digit_run(v[k..])`.
fn digit_run_from(v: &Vec<char>, k: usize) -> (r: usize)
    requires
        k <= v@.len(),
    ensures
        k + r <= v@.len(),
        r == digit_run(v@.skip(k as int)),
{
    let mut i = k;
    while i < v.len() && '0' <= v[i] && v[i] <= '9'
        invariant
            k <= i <= v@.len(),
            forall|j: int| k <= j < i ==> is_digit(#[trigger] v@[j]),
        decreases v@.len() - i,
    {
        i = i + 1;
    }
    proof {
        let s = v@.skip(k as int);
        assert forall|j: int| 0 <= j < i - k implies is_digit(#[trigger] s[j]) by {
            assert(s[j] == v@[j + k]);
        }
        lemma_digit_run(s, i - k);
    }
    i - k
}

/// `v[k..]` equals `lit` up to ASCII case.
fn eq_ignore_ascii_case_from(v: &Vec<char>, k: usize, lit: &Vec<char>) -> (r: bool)
    requires
        k <= v@.len(),
    ensures
        r == eq_ignore_ascii_case(v@.skip(k as int), lit@),
{
    if v.len() - k != lit.len() {
        return false;
    }
    let mut i: usize = 0;
    while i < lit.len()
        invariant
            v@.len() - k == lit@.len(),
            k <= v@.len(),
            v@.len() <= usize::MAX,
            i <= lit@.len(),
            forall|j: int| 0 <= j < i ==> ascii_lower(#[trigger] v@.skip(k as int)[j]) == ascii_lower(
                lit@[j],
            ),
        decreases lit@.len() - i,
    {
        assert(k + i < v@.len());
        let a = v[k + i];
        let b = lit[i];
        let la = ascii_lower_code(a);
        let lb = ascii_lower_code(b);
        assert(v@.skip(k as int)[i as int] == a);
        if la != lb {
            return false;
        }
        i = i + 1;
    }
    true
}

fn is_exponent_from(v: &Vec<char>, k: usize) -> (r: bool)
    requires
        k <= v@.len(),
    ensures
        r == is_exponent(v@.skip(k as int)),
{
    let ghost e = v@.skip(k as int);
    if k >= v.len() || (v[k] != 'e' && v[k] != 'E') {
        return false;
    }
    let mut m = k + 1;
    if m < v.len() && (v[m] == '+' || v[m] == '-') {
        m = m + 1;
    }
    assert(without_sign(e.drop_first()) == v@.skip(m as int));
    let n = digit_run_from(v, m);
    proof {
        let d = v@.skip(m as int);
        if d.len() > 0 && all_digits(d) {
            lemma_digit_run(d, d.len() as int);
        }
        if n == d.len() {
            assert forall|j: int| 0 <= j < d.len() implies is_digit(#[trigger] d[j]) by {
                lemma_digit_run_prefix(d, j);
            }
        }
    }
    n > 0 && m + n == v.len()
}

proof fn lemma_digit_run_le(s: Seq<char>)
    ensures
        digit_run(s) <= s.len(),
    decreases s.len(),
{
    if s.len() > 0 && is_digit(s[0]) {
        lemma_digit_run_le(s.drop_first());
    }
}

proof fn lemma_digit_run_prefix(s: Seq<char>, j: int)
    requires
        0 <= j < digit_run(s),
    ensures
        is_digit(s[j]),
    decreases j,
{
    assert(s.len() > 0 && is_digit(s[0]));
    lemma_digit_run_le(s.drop_first());
    if j > 0 {
        lemma_digit_run_prefix(s.drop_first(), j - 1);
        assert(s.drop_first()[j - 1] == s[j]);
    }
}

/// Whether `v` is text that `f64::from_str` accepts.
pub fn is_float_text(v: &Vec<char>) -> (r: bool)
    ensures
        r == is_float_literal(v@),
{
    let mut k: usize = 0;
    if v.len() > 0 && (v[0] == '+' || v[0] == '-') {
        k = 1;
    }
    let ghost b = without_sign(v@);
    assert(b == v@.skip(k as int));
    let inf = vec!['i', 'n', 'f'];
    let infinity = vec!['i', 'n', 'f', 'i', 'n', 'i', 't', 'y'];
    let nan = vec!['n', 'a', 'n'];
    if eq_ignore_ascii_case_from(v, k, &inf) || eq_ignore_ascii_case_from(v, k, &infinity)
        || eq_ignore_ascii_case_from(v, k, &nan) {
        return true;
    }
    let i = digit_run_from(v, k);
    let p = k + i;
    assert(b.skip(i as int) == v@.skip(p as int));
    if p < v.len() && v[p] == '.' {
        let j = digit_run_from(v, p + 1);
        assert(v@.skip(p as int).drop_first() == v@.skip(p + 1));
        let q = p + 1 + j;
        assert(v@.skip(p + 1).skip(j as int) == v@.skip(q as int));
        i + j > 0 && (q == v.len() || is_exponent_from(v, q))
    } else {
        i > 0 && (p == v.len() || is_exponent_from(v, p))
    }
}

proof fn lemma_digits_value_push(s: Seq<char>, c: char)
    ensures
        digits_value(s.push(c)) == digits_value(s) * 10 + ((c as u32) - ('0' as u32)) as nat,
{
    assert(s.push(c).drop_last() == s);
}

/// `usize::from_str` on `v`.
pub fn parse_usize(v: &Vec<char>) -> (r: Option<usize>)
    ensures
        r matches Some(n) ==> parse_usize_spec(v@) == Some(n as nat),
        r is None ==> parse_usize_spec(v@) is None,
{
    let mut k: usize = 0;
    if v.len() > 0 && v[0] == '+' {
        k = 1;
    }
    let ghost d = v@.skip(k as int);
    assert(d == (if v@.len() > 0 && v@[0] == '+' {
        v@.drop_first()
    } else {
        v@
    }));
    if k == v.len() {
        return None;
    }
    let mut acc: usize = 0;
    let mut i = k;
    let mut overflow = false;
    while i < v.len()
        invariant
            k <= i <= v@.len(),
            d == v@.skip(k as int),
            d == (if v@.len() > 0 && v@[0] == '+' {
                v@.drop_first()
            } else {
                v@
            }),
            all_digits(v@.subrange(k as int, i as int)),
            !overflow ==> acc == digits_value(v@.subrange(k as int, i as int)),
            overflow ==> digits_value(v@.subrange(k as int, i as int)) > usize::MAX,
        decreases v@.len() - i,
    {
        let c = v[i];
        if !('0' <= c && c <= '9') {
            assert(d[i - k] == c);
            assert(!is_digit(d[i - k]));
            assert(!all_digits(d));
            assert(parse_usize_spec(v@) is None);
            return None;
        }
        let dv = (c as u32 - '0' as u32) as usize;
        proof {
            let pre = v@.subrange(k as int, i as int);
            assert(v@.subrange(k as int, i + 1) == pre.push(c));
            lemma_digits_value_push(pre, c);
            assert forall|j: int| 0 <= j < i + 1 - k implies is_digit(
                #[trigger] v@.subrange(k as int, i + 1)[j],
            ) by {
                if j < i - k {
                    assert(v@.subrange(k as int, i + 1)[j] == pre[j]);
                }
            }
        }
        if !overflow {
            match acc.checked_mul(10) {
                Some(m) => match m.checked_add(dv) {
                    Some(n) => {
                        acc = n;
                    },
                    None => {
                        overflow = true;
                    },
                },
                None => {
                    overflow = true;
                    assert(digits_value(v@.subrange(k as int, i + 1)) >= acc * 10);
                },
            }
        } else {
            assert(digits_value(v@.subrange(k as int, i + 1)) >= digits_value(
                v@.subrange(k as int, i as int),
            ) * 10) by (nonlinear_arith)
                requires
                    digits_value(v@.subrange(k as int, i + 1)) == digits_value(
                        v@.subrange(k as int, i as int),
                    ) * 10 + dv,
                    digits_value(v@.subrange(k as int, i as int)) > usize::MAX,
            ;
        }
        i = i + 1;
    }
    assert(v@.subrange(k as int, v@.len() as int) == d);
    if overflow {
        None
    } else {
        Some(acc)
    }
}


/// The characters a float literal can hold: ASCII letters and digits, signs and the point.
pub open spec fn is_float_char(c: char) -> bool {
    ||| is_digit(c)
    ||| 'a' <= c <= 'z'
    ||| 'A' <= c <= 'Z'
    ||| c == '+' || c == '-' || c == '.'
}

proof fn lemma_ci_chars(b: Seq<char>, lit: Seq<char>)
    requires
        eq_ignore_ascii_case(b, lit),
        forall|i: int| 0 <= i < lit.len() ==> 'a' <= #[trigger] lit[i] <= 'z',
    ensures
        forall|i: int| 0 <= i < b.len() ==> is_float_char(#[trigger] b[i]),
{
    assert forall|i: int| 0 <= i < b.len() implies is_float_char(#[trigger] b[i]) by {
        assert(ascii_lower(b[i]) == ascii_lower(lit[i]));
        let l = lit[i];
        let c = b[i];
        assert('a' <= l <= 'z');
        if !('A' <= c <= 'Z') {
            assert(c as int == l as int);
        }
    }
}

proof fn lemma_digit_run_chars(s: Seq<char>)
    ensures
        forall|j: int| 0 <= j < digit_run(s) ==> is_digit(#[trigger] s[j]),
        digit_run(s) <= s.len(),
{
    lemma_digit_run_le(s);
    assert forall|j: int| 0 <= j < digit_run(s) implies is_digit(#[trigger] s[j]) by {
        lemma_digit_run_prefix(s, j);
    }
}

proof fn lemma_exponent_chars(e: Seq<char>)
    requires
        is_exponent(e),
    ensures
        forall|i: int| 0 <= i < e.len() ==> is_float_char(#[trigger] e[i]),
{
    let d = without_sign(e.drop_first());
    assert forall|i: int| 0 <= i < e.len() implies is_float_char(#[trigger] e[i]) by {
        if i > 0 {
            let k = i - 1;
            assert(e[i] == e.drop_first()[k]);
            if e.drop_first().len() > 0 && (e.drop_first()[0] == '+' || e.drop_first()[0] == '-') {
                if k > 0 {
                    assert(e.drop_first()[k] == d[k - 1]);
                    assert(is_digit(d[k - 1]));
                }
            } else {
                assert(is_digit(d[k]));
            }
        }
    }
}

/// A float literal is not empty and is made of float characters.
pub proof fn lemma_float_chars(x: Seq<char>)
    requires
        is_float_literal(x),
    ensures
        x.len() > 0,
        forall|i: int| 0 <= i < x.len() ==> is_float_char(#[trigger] x[i]),
{
    let b = without_sign(x);
    let k: int = if x.len() > 0 && (x[0] == '+' || x[0] == '-') {
        1
    } else {
        0
    };
    assert(b == x.skip(k));
    assert(forall|i: int| 0 <= i < b.len() ==> b[i] == x[i + k]);
    let lits = seq![seq!['i', 'n', 'f'], seq!['i', 'n', 'f', 'i', 'n', 'i', 't', 'y'], seq!['n', 'a', 'n']];
    if eq_ignore_ascii_case(b, seq!['i', 'n', 'f']) {
        lemma_ci_chars(b, seq!['i', 'n', 'f']);
    } else if eq_ignore_ascii_case(b, seq!['i', 'n', 'f', 'i', 'n', 'i', 't', 'y']) {
        lemma_ci_chars(b, seq!['i', 'n', 'f', 'i', 'n', 'i', 't', 'y']);
    } else if eq_ignore_ascii_case(b, seq!['n', 'a', 'n']) {
        lemma_ci_chars(b, seq!['n', 'a', 'n']);
    } else {
        assert(is_decimal(b));
        let i = digit_run(b);
        lemma_digit_run_chars(b);
        let r = b.skip(i as int);
        assert(forall|j: int| 0 <= j < r.len() ==> r[j] == b[j + i]);
        if r.len() > 0 && r[0] == '.' {
            let f = r.drop_first();
            let j = digit_run(f);
            lemma_digit_run_chars(f);
            let t = f.skip(j as int);
            if t.len() > 0 {
                lemma_exponent_chars(t);
            }
            assert forall|m: int| 0 <= m < b.len() implies is_float_char(#[trigger] b[m]) by {
                if m >= i {
                    let q = m - i;
                    assert(b[m] == r[q]);
                    if q > 0 {
                        assert(r[q] == f[q - 1]);
                        if q - 1 >= j {
                            assert(f[q - 1] == t[q - 1 - j]);
                        }
                    }
                }
            }
        } else {
            if r.len() > 0 {
                lemma_exponent_chars(r);
            }
            assert forall|m: int| 0 <= m < b.len() implies is_float_char(#[trigger] b[m]) by {
                if m >= i {
                    assert(b[m] == r[m - i]);
                }
            }
        }
    }
    assert forall|m: int| 0 <= m < x.len() implies is_float_char(#[trigger] x[m]) by {
        if m >= k {
            assert(x[m] == b[m - k]);
        }
    }
}

} // verus!
