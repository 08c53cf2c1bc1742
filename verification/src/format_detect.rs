//! Choosing a format from a file name's extension.
use vstd::prelude::*;
use crate::stream::FormatKind;
use crate::lexical::{ascii_lower, eq_ignore_ascii_case};
use crate::text::{
    ascii_lower_char, ascii_lowered, chars_eq, chars_of, is_ascii_text, last_index_of,
    last_index_of_exec, lemma_last_index_of, string_of, sub_chars, to_lowercase,
    unicode_lowercase,
};

verus! {

/// The last component of `p[..end]` that is neither empty nor `.`, splitting on `/`.
pub open spec fn last_component(p: Seq<char>, end: int) -> Option<Seq<char>>
    decreases end,
{
    if end <= 0 || end > p.len() {
        None
    } else {
        let k = last_index_of(p, '/', end);
        proof {
            lemma_last_index_of(p, '/', end);
        }
        let seg = p.subrange(k + 1, end);
        if seg.len() == 0 || seg == seq!['.'] {
            if k < 0 {
                None
            } else {
                last_component(p, k)
            }
        } else {
            Some(seg)
        }
    }
}

/// The file name of a path (`Path::file_name`): its last component, unless that is `..`.
pub open spec fn file_name_spec(p: Seq<char>) -> Option<Seq<char>> {
    match last_component(p, p.len() as int) {
        Some(seg) => if seg == seq!['.', '.'] {
            None
        } else {
            Some(seg)
        },
        None => None,
    }
}

/// The extension of a path (`Path::extension`): what follows the last `.` of the
/// file name, unless the name has no `.` other than a leading one.
pub open spec fn extension_spec(p: Seq<char>) -> Option<Seq<char>> {
    match file_name_spec(p) {
        None => None,
        Some(n) => {
            let d = last_index_of(n, '.', n.len() as int);
            if d <= 0 {
                None
            } else {
                Some(n.skip(d + 1))
            }
        },
    }
}

/// The format a lower-case extension names.
pub open spec fn format_for_extension(e: Seq<char>) -> Option<FormatKind> {
    if e == seq!['c', 's', 'v'] {
        Some(FormatKind::Csv)
    } else if e == seq!['g', 'e', 'o', 'j', 's', 'o', 'n'] || e == seq!['j', 's', 'o', 'n'] {
        Some(FormatKind::GeoJson)
    } else if e == seq!['k', 'm', 'l'] {
        Some(FormatKind::Kml)
    } else if e == seq!['k', 'm', 'z'] {
        Some(FormatKind::Kmz)
    } else if e == seq!['g', 'p', 'x'] {
        Some(FormatKind::Gpx)
    } else if e == seq!['t', 'o', 'p', 'o', 'j', 's', 'o', 'n'] {
        Some(FormatKind::TopoJson)
    } else if e == seq!['w', 'k', 't'] {
        Some(FormatKind::Wkt)
    } else if e == seq!['s', 'h', 'p'] {
        Some(FormatKind::Shapefile)
    } else if e == seq!['g', 'p', 'k', 'g'] {
        Some(FormatKind::GeoPackage)
    } else if e == seq!['f', 'g', 'b'] {
        Some(FormatKind::FlatGeobuf)
    } else {
        None
    }
}

/// Each documented extension names its format: `.csv`, `.geojson` and `.json`,
/// `.kml`, `.kmz`, `.gpx`, `.topojson`, `.wkt`, `.shp`, `.gpkg`, `.fgb`.
pub proof fn lemma_format_extensions(e: Seq<char>)
    ensures
        e == seq!['c', 's', 'v'] ==> format_for_extension(e) == Some(FormatKind::Csv),
        e == seq!['g', 'e', 'o', 'j', 's', 'o', 'n'] ==> format_for_extension(e) == Some(FormatKind::GeoJson),
        e == seq!['j', 's', 'o', 'n'] ==> format_for_extension(e) == Some(FormatKind::GeoJson),
        e == seq!['k', 'm', 'l'] ==> format_for_extension(e) == Some(FormatKind::Kml),
        e == seq!['k', 'm', 'z'] ==> format_for_extension(e) == Some(FormatKind::Kmz),
        e == seq!['g', 'p', 'x'] ==> format_for_extension(e) == Some(FormatKind::Gpx),
        e == seq!['t', 'o', 'p', 'o', 'j', 's', 'o', 'n'] ==> format_for_extension(e) == Some(FormatKind::TopoJson),
        e == seq!['w', 'k', 't'] ==> format_for_extension(e) == Some(FormatKind::Wkt),
        e == seq!['s', 'h', 'p'] ==> format_for_extension(e) == Some(FormatKind::Shapefile),
        e == seq!['g', 'p', 'k', 'g'] ==> format_for_extension(e) == Some(FormatKind::GeoPackage),
        e == seq!['f', 'g', 'b'] ==> format_for_extension(e) == Some(FormatKind::FlatGeobuf),
{
}

/// The format of a path: that of its extension, in lower case.
pub open spec fn detect_format_spec(p: Seq<char>) -> Option<FormatKind> {
    match extension_spec(p) {
        Some(e) => format_for_extension(unicode_lowercase(e)),
        None => None,
    }
}

/// The format of a path whose extension is ASCII text: that of its extension
/// with its capital letters made small.
pub open spec fn detect_format_ascii(p: Seq<char>) -> Option<FormatKind> {
    match extension_spec(p) {
        Some(e) => format_for_extension(ascii_lowered(e)),
        None => None,
    }
}

/// `o` with its text lowered as `ascii_lowered` does.
pub open spec fn lowered_opt(o: Option<Seq<char>>) -> Option<Seq<char>> {
    match o {
        Some(s) => Some(ascii_lowered(s)),
        None => None,
    }
}

proof fn lemma_lower_char_separator(x: char, c: char)
    requires
        c == '/' || c == '.',
    ensures
        (ascii_lower_char(x) == c) == (x == c),
{
    if 'A' <= x <= 'Z' {
        assert(ascii_lower_char(x) as int == (x as int) + 32);
    }
}

proof fn lemma_lowered_subrange(s: Seq<char>, a: int, b: int)
    requires
        0 <= a <= b <= s.len(),
    ensures
        ascii_lowered(s).subrange(a, b) == ascii_lowered(s.subrange(a, b)),
{
    assert(ascii_lowered(s).subrange(a, b) =~= ascii_lowered(s.subrange(a, b)));
}

proof fn lemma_lowered_eq_lit(s: Seq<char>, t: Seq<char>)
    requires
        forall|i: int| 0 <= i < t.len() ==> (#[trigger] t[i] == '.'),
    ensures
        (ascii_lowered(s) == t) == (s == t),
{
    if ascii_lowered(s) == t {
        assert forall|i: int| 0 <= i < s.len() implies s[i] == t[i] by {
            assert(ascii_lowered(s)[i] == ascii_lower_char(s[i]));
            lemma_lower_char_separator(s[i], '.');
        }
        assert(s =~= t);
    }
    if s == t {
        assert forall|i: int| 0 <= i < s.len() implies ascii_lowered(s)[i] == t[i] by {
            lemma_lower_char_separator(s[i], '.');
        }
        assert(ascii_lowered(s) =~= t);
    }
}

proof fn lemma_last_index_of_lowered(p: Seq<char>, c: char, end: int)
    requires
        c == '/' || c == '.',
        end <= p.len(),
    ensures
        last_index_of(ascii_lowered(p), c, end) == last_index_of(p, c, end),
    decreases end,
{
    if end > 0 {
        lemma_lower_char_separator(p[end - 1], c);
        assert(ascii_lowered(p)[end - 1] == ascii_lower_char(p[end - 1]));
        lemma_last_index_of_lowered(p, c, end - 1);
    }
}

proof fn lemma_last_component_lowered(p: Seq<char>, end: int)
    ensures
        last_component(ascii_lowered(p), end) == lowered_opt(last_component(p, end)),
    decreases end,
{
    let q = ascii_lowered(p);
    if end <= 0 || end > p.len() {
    } else {
        let k = last_index_of(p, '/', end);
        lemma_last_index_of(p, '/', end);
        lemma_last_index_of_lowered(p, '/', end);
        lemma_lowered_subrange(p, k + 1, end);
        let seg = p.subrange(k + 1, end);
        lemma_lowered_eq_lit(seg, seq!['.']);
        if seg.len() == 0 || seg == seq!['.'] {
            if k >= 0 {
                lemma_last_component_lowered(p, k);
            }
        }
    }
}

proof fn lemma_extension_lowered(p: Seq<char>)
    ensures
        extension_spec(ascii_lowered(p)) == lowered_opt(extension_spec(p)),
{
    lemma_last_component_lowered(p, p.len() as int);
    match last_component(p, p.len() as int) {
        Some(seg) => {
            lemma_lowered_eq_lit(seg, seq!['.', '.']);
            if seg != seq!['.', '.'] {
                let n = seg;
                lemma_last_index_of_lowered(n, '.', n.len() as int);
                let d = last_index_of(n, '.', n.len() as int);
                lemma_last_index_of(n, '.', n.len() as int);
                if d > 0 {
                    assert(ascii_lowered(n).skip(d + 1) =~= ascii_lowered(n.skip(d + 1)));
                }
            }
        },
        None => {},
    }
}

proof fn lemma_last_component_ascii(p: Seq<char>, end: int)
    requires
        is_ascii_text(p),
    ensures
        match last_component(p, end) {
            Some(seg) => is_ascii_text(seg),
            None => true,
        },
    decreases end,
{
    if end <= 0 || end > p.len() {
    } else {
        let k = last_index_of(p, '/', end);
        lemma_last_index_of(p, '/', end);
        let seg = p.subrange(k + 1, end);
        if seg.len() == 0 || seg == seq!['.'] {
            if k >= 0 {
                lemma_last_component_ascii(p, k);
            }
        } else {
            assert forall|i: int| 0 <= i < seg.len() implies (#[trigger] seg[i] as int) < 128 by {
                assert(seg[i] == p[k + 1 + i]);
            }
        }
    }
}

proof fn lemma_extension_ascii(p: Seq<char>)
    requires
        is_ascii_text(p),
    ensures
        match extension_spec(p) {
            Some(e) => is_ascii_text(e),
            None => true,
        },
{
    lemma_last_component_ascii(p, p.len() as int);
    match file_name_spec(p) {
        Some(n) => {
            let d = last_index_of(n, '.', n.len() as int);
            lemma_last_index_of(n, '.', n.len() as int);
            if d > 0 {
                let e = n.skip(d + 1);
                assert forall|i: int| 0 <= i < e.len() implies (#[trigger] e[i] as int) < 128 by {
                    assert(e[i] == n[d + 1 + i]);
                }
            }
        },
        None => {},
    }
}

proof fn lemma_lowered_twice(s: Seq<char>)
    ensures
        ascii_lowered(ascii_lowered(s)) == ascii_lowered(s),
{
    assert forall|i: int| 0 <= i < s.len() implies ascii_lowered(ascii_lowered(s))[i]
        == ascii_lowered(s)[i] by {
        let c = s[i];
        if 'A' <= c <= 'Z' {
            assert(ascii_lower_char(c) as int == (c as int) + 32);
        }
    }
    assert(ascii_lowered(ascii_lowered(s)) =~= ascii_lowered(s));
}

/// Text that agrees with `b` up to the case of ASCII letters lowers to what `b` lowers to.
pub proof fn lemma_lowered_of_ignore_case(a: Seq<char>, b: Seq<char>)
    requires
        eq_ignore_ascii_case(a, b),
    ensures
        ascii_lowered(a) == ascii_lowered(b),
{
    assert forall|i: int| 0 <= i < a.len() implies ascii_lowered(a)[i] == ascii_lowered(b)[i] by {
        assert(ascii_lower(a[i]) == ascii_lower(b[i]));
        let x = a[i];
        let y = b[i];
        if 'A' <= x <= 'Z' {
            assert(ascii_lower_char(x) as int == (x as int) + 32);
        }
        if 'A' <= y <= 'Z' {
            assert(ascii_lower_char(y) as int == (y as int) + 32);
        }
        assert(ascii_lower_char(x) as int == ascii_lower_char(y) as int);
    }
    assert(ascii_lowered(a) =~= ascii_lowered(b));
}

/// Format detection ignores the case of ASCII letters: two paths that differ
/// only in the case of ASCII letters name the same format.
pub proof fn lemma_detect_format_ignores_case(a: Seq<char>, b: Seq<char>)
    requires
        eq_ignore_ascii_case(a, b),
    ensures
        detect_format_ascii(a) == detect_format_ascii(b),
{
    lemma_lowered_of_ignore_case(a, b);
    lemma_extension_lowered(a);
    lemma_extension_lowered(b);
    match extension_spec(a) {
        Some(e) => lemma_lowered_twice(e),
        None => {},
    }
    match extension_spec(b) {
        Some(e) => lemma_lowered_twice(e),
        None => {},
    }
}

fn last_component_exec(p: &Vec<char>) -> (r: Option<Vec<char>>)
    ensures
        match r {
            Some(v) => last_component(p@, p@.len() as int) == Some(v@),
            None => last_component(p@, p@.len() as int) is None,
        },
{
    let mut end = p.len();
    loop
        invariant
            end <= p@.len(),
            last_component(p@, p@.len() as int) == last_component(p@, end as int),
        decreases end,
    {
        if end == 0 {
            return None;
        }
        let k = last_index_of_exec(p, '/', end);
        proof {
            lemma_last_index_of(p@, '/', end as int);
        }
        let start = match k {
            Some(k) => k + 1,
            None => 0,
        };
        let seg = sub_chars(p, start, end);
        if seg.len() == 0 || (seg.len() == 1 && seg[0] == '.') {
            assert(seg@.len() == 0 || seg@ == seq!['.']);
            match k {
                Some(k) => {
                    end = k;
                },
                None => {
                    return None;
                },
            }
        } else {
            assert(seg@ != seq!['.']) by {
                if seg@ == seq!['.'] {
                    assert(seg@.len() == 1 && seg@[0] == '.');
                }
            }
            return Some(seg);
        }
    }
}

/// Chooses a format from the extension of `path`, ignoring case.
pub fn detect_format(path: &str) -> (r: Option<FormatKind>)
    ensures
        r == detect_format_spec(path@),
        is_ascii_text(path@) ==> r == detect_format_ascii(path@),
{
    let p = chars_of(path);
    let name = match last_component_exec(&p) {
        Some(n) => n,
        None => return None,
    };
    if name.len() == 2 && name[0] == '.' && name[1] == '.' {
        assert(name@ == seq!['.', '.']);
        return None;
    }
    assert(name@ != seq!['.', '.']) by {
        if name@ == seq!['.', '.'] {
            assert(name@[0] == '.' && name@[1] == '.');
        }
    }
    let d = match last_index_of_exec(&name, '.', name.len()) {
        Some(d) => d,
        None => return None,
    };
    proof {
        lemma_last_index_of(name@, '.', name@.len() as int);
    }
    if d == 0 {
        return None;
    }
    let ext = string_of(&sub_chars(&name, d + 1, name.len()));
    assert(ext@ == name@.skip(d + 1));
    proof {
        if is_ascii_text(path@) {
            lemma_extension_ascii(path@);
        }
    }
    let lower = chars_of(to_lowercase(ext.as_str()).as_str());
    if chars_eq(&lower, &vec!['c', 's', 'v']) {
        Some(FormatKind::Csv)
    } else if chars_eq(&lower, &vec!['g', 'e', 'o', 'j', 's', 'o', 'n']) || chars_eq(
        &lower,
        &vec!['j', 's', 'o', 'n'],
    ) {
        Some(FormatKind::GeoJson)
    } else if chars_eq(&lower, &vec!['k', 'm', 'l']) {
        Some(FormatKind::Kml)
    } else if chars_eq(&lower, &vec!['k', 'm', 'z']) {
        Some(FormatKind::Kmz)
    } else if chars_eq(&lower, &vec!['g', 'p', 'x']) {
        Some(FormatKind::Gpx)
    } else if chars_eq(&lower, &vec!['t', 'o', 'p', 'o', 'j', 's', 'o', 'n']) {
        Some(FormatKind::TopoJson)
    } else if chars_eq(&lower, &vec!['w', 'k', 't']) {
        Some(FormatKind::Wkt)
    } else if chars_eq(&lower, &vec!['s', 'h', 'p']) {
        Some(FormatKind::Shapefile)
    } else if chars_eq(&lower, &vec!['g', 'p', 'k', 'g']) {
        Some(FormatKind::GeoPackage)
    } else if chars_eq(&lower, &vec!['f', 'g', 'b']) {
        Some(FormatKind::FlatGeobuf)
    } else {
        None
    }
}

} // verus!
