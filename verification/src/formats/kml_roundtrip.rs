//! What reading gives back of a written KML document.
use vstd::prelude::*;
use crate::formats::kml::{
    data_line, data_lines, display_name, escape_char, escape_xml_spec, kml_document,
    lemma_display_name_no_lt, min_len, no_lt,
    placemark_text, DATA_CLOSE, DATA_MID, DATA_OPEN, KML_HEAD, KML_TAIL, PLACEMARK_CLOSE,
    PLACEMARK_DATA, PLACEMARK_OPEN, PLACEMARK_POINT,
};
use crate::formats::{join, lemma_join_front, sep_tail};
use crate::formats::kml_input::{
    add_keys, close_tag, coords_spec, data_close, data_open, extended_data_from, kml_fields,
    kml_headers, kml_records, lemma_unescape_escape, lookup, name_key, name_tag, number_text,
    open_tag, placemark_close, placemark_of_block, placemark_open, placemarks_from,
    tag_content_spec, unescape_spec,
};
use crate::lexical::{is_float_char, is_float_literal, lemma_float_chars};
use crate::text::{
    find_from, lemma_find_at, lemma_find_char, lemma_find_from, lemma_find_from_shift,
    lemma_find_past, lemma_find_skip, lemma_match_char, lemma_no_start_chars,
    lemma_no_start_concat, lemma_no_start_match, lemma_no_start_without, lemma_replace_prefix,
    lemma_trim_id, lt_diverges, matches_at, no_start, replace_all, trim,
};

verus! {

/// Escaped text holds neither `<` nor `"`.
proof fn lemma_escape_plain(s: Seq<char>)
    ensures
        forall|j: int|
            0 <= j < escape_xml_spec(s).len() ==> #[trigger] escape_xml_spec(s)[j] != '<'
                && escape_xml_spec(s)[j] != '"',
    decreases s.len(),
{
    if s.len() > 0 {
        lemma_escape_plain(s.drop_last());
        let a = escape_xml_spec(s.drop_last());
        let b = escape_char(s.last());
        assert forall|j: int| 0 <= j < (a + b).len() implies #[trigger] (a + b)[j] != '<' && (a
            + b)[j] != '"' by {
            if j < a.len() {
                assert((a + b)[j] == a[j]);
            } else {
                assert((a + b)[j] == b[j - a.len()]);
            }
        }
    }
}

/// The extended data of `x + y` read from inside `y` is that of `y`.
proof fn lemma_extended_shift(x: Seq<char>, y: Seq<char>, i: int)
    requires
        0 <= i,
    ensures
        extended_data_from(x + y, x.len() + i) == extended_data_from(y, i),
    decreases y.len() + 1 - i,
{
    let n = x.len() as int;
    let s = x + y;
    lemma_find_from_shift(x, y, data_open(), i);
    lemma_find_from(y, data_open(), i);
    match find_from(y, data_open(), i) {
        None => {},
        Some(st) => {
            let ns = st + 12;
            lemma_find_from_shift(x, y, seq!['"'], ns);
            lemma_find_from(y, seq!['"'], ns);
            assert(n + ns == st + n + 12);
            match find_from(y, seq!['"'], ns) {
                None => {},
                Some(ne) => {
                    lemma_find_from_shift(x, y, data_close(), st);
                    lemma_find_from(y, data_close(), st);
                    match find_from(y, data_close(), st) {
                        None => {},
                        Some(de) => {
                            assert(s.subrange(n + ns, ne + n) =~= y.subrange(ns, ne));
                            assert(s.subrange(st + n, de + n) =~= y.subrange(st, de));
                            lemma_extended_shift(x, y, de + 7);
                            assert(de + n + 7 == n + (de + 7));
                        },
                    }
                },
            }
        },
    }
}

/// Text in which no `<Data name="` starts can be passed over.
proof fn lemma_extended_past(q: Seq<char>, r: Seq<char>)
    requires
        no_start(q, data_open()),
    ensures
        extended_data_from(q + r, 0) == extended_data_from(r, 0),
{
    lemma_no_start_match(q, r, data_open());
    lemma_find_skip(q + r, data_open(), 0, q.len() as int);
    lemma_extended_shift(q, r, 0);
    assert(q.len() + 0 == q.len());
}

pub open spec fn value_tag() -> Seq<char> {
    seq!['v', 'a', 'l', 'u', 'e']
}

/// The `(name, value)` pair a written `<Data>` line reads back as.
pub open spec fn data_pair(h: Seq<char>, f: Seq<char>) -> (Seq<char>, Seq<char>) {
    (unescape_spec(escape_xml_spec(h)), unescape_spec(escape_xml_spec(f)))
}

/// The `<value>` element of a written `<Data>` element.
#[verifier::spinoff_prover]
proof fn lemma_data_value(hh: Seq<char>, ff: Seq<char>)
    requires
        no_lt(hh),
        no_lt(ff),
    ensures
        tag_content_spec(
            seq!['<', 'D', 'a', 't', 'a', ' ', 'n', 'a', 'm', 'e', '=', '"'] + hh + seq![
                '"',
                '>',
                '<',
                'v',
                'a',
                'l',
                'u',
                'e',
                '>',
            ] + ff + seq!['<', '/', 'v', 'a', 'l', 'u', 'e', '>'],
            value_tag(),
        ) == Some(unescape_spec(ff)),
{
    let sb = seq!['<', 'D', 'a', 't', 'a', ' ', 'n', 'a', 'm', 'e', '=', '"'] + hh + seq![
        '"',
        '>',
        '<',
        'v',
        'a',
        'l',
        'u',
        'e',
        '>',
    ] + ff + seq!['<', '/', 'v', 'a', 'l', 'u', 'e', '>'];
    let open = open_tag(value_tag());
    let close = close_tag(value_tag());
    let nh = hh.len() as int;
    let nf = ff.len() as int;
    let o = 12 + nh + 2;
    assert(sb.subrange(o, o + 7) =~= open);
    assert forall|j: int| 0 <= j < o implies !matches_at(sb, open, j) by {
        if matches_at(sb, open, j) {
            lemma_match_char(sb, open, j, 0);
            lemma_match_char(sb, open, j, 1);
            if 12 <= j < 12 + nh {
                assert(sb[j] == hh[j - 12]);
            }
        }
    }
    lemma_find_at(sb, open, 0, o);
    let c = o + 7;
    assert(sb.subrange(c + nf, c + nf + 8) =~= close);
    assert forall|j: int| c <= j < c + nf implies !matches_at(sb, close, j) by {
        if matches_at(sb, close, j) {
            lemma_match_char(sb, close, j, 0);
            assert(sb[j] == ff[j - c]);
        }
    }
    lemma_find_at(sb, close, c, c + nf);
    assert(sb.subrange(c, c + nf) =~= ff);
}

/// A written `<Data>` line reads back as its pair, and reading goes on after it.
#[verifier::spinoff_prover]
proof fn lemma_data_step(h: Seq<char>, f: Seq<char>, r: Seq<char>)
    ensures
        extended_data_from(data_line(h, f) + r, 0) == seq![data_pair(h, f)] + extended_data_from(
            r,
            0,
        ),
{
    reveal_strlit("        <Data name=\"");
    reveal_strlit("\"><value>");
    reveal_strlit("</value></Data>\n");
    let hh = escape_xml_spec(h);
    let ff = escape_xml_spec(f);
    lemma_escape_plain(h);
    lemma_escape_plain(f);
    let l = data_line(h, f);
    let x = l + r;
    let nh = hh.len() as int;
    let nf = ff.len() as int;
    assert forall|k: int| 0 <= k < l.len() implies #[trigger] x[k] == l[k] by {}
    // `<Data name="` after the indentation.
    assert(x.subrange(8, 20) =~= data_open());
    assert forall|j: int| 0 <= j < 8 implies !matches_at(x, data_open(), j) by {
        if matches_at(x, data_open(), j) {
            lemma_match_char(x, data_open(), j, 0);
        }
    }
    lemma_find_at(x, data_open(), 0, 8);
    // The name runs to the next quote.
    assert forall|j: int| 20 <= j < 20 + nh implies x[j] != '"' by {
        assert(x[j] == hh[j - 20]);
    }
    lemma_find_char(x, '"', 20, 20 + nh);
    assert(x.subrange(20, 20 + nh) =~= hh);
    // The element ends at the first `</Data>`.
    let de = 20 + nh + 9 + nf + 8;
    assert(x.subrange(de, de + 7) =~= data_close());
    assert forall|j: int| 8 <= j < de implies !matches_at(x, data_close(), j) by {
        if matches_at(x, data_close(), j) {
            lemma_match_char(x, data_close(), j, 0);
            lemma_match_char(x, data_close(), j, 1);
            lemma_match_char(x, data_close(), j, 2);
            if 20 <= j < 20 + nh {
                assert(x[j] == hh[j - 20]);
            } else if 29 + nh <= j < 29 + nh + nf {
                assert(x[j] == ff[j - 29 - nh]);
            }
        }
    }
    lemma_find_at(x, data_close(), 8, de);
    assert forall|j: int| 0 <= j < nh implies #[trigger] hh[j] != '<' by {}
    assert forall|j: int| 0 <= j < nf implies #[trigger] ff[j] != '<' by {}
    lemma_data_value(hh, ff);
    assert(x.subrange(8, de) =~= seq!['<', 'D', 'a', 't', 'a', ' ', 'n', 'a', 'm', 'e', '=', '"']
        + hh + seq!['"', '>', '<', 'v', 'a', 'l', 'u', 'e', '>'] + ff + seq![
        '<',
        '/',
        'v',
        'a',
        'l',
        'u',
        'e',
        '>',
    ]);
    // Reading goes on at the line's final newline.
    let rest = seq!['\n'] + r;
    assert(x =~= l.drop_last() + rest);
    lemma_extended_shift(l.drop_last(), rest, 0);
    assert(de + 7 == l.drop_last().len() + 0);
    lemma_no_start_without(seq!['\n'], data_open());
    lemma_extended_past(seq!['\n'], r);
}

/// The `<Data>` lines for pairs `i` up to `n`, in order.
pub open spec fn lines_from(hs: Seq<Seq<char>>, fs: Seq<Seq<char>>, i: int, n: int) -> Seq<char>
    decreases n - i,
{
    if i >= n {
        seq![]
    } else {
        data_line(hs[i], fs[i]) + lines_from(hs, fs, i + 1, n)
    }
}

proof fn lemma_lines_snoc(hs: Seq<Seq<char>>, fs: Seq<Seq<char>>, i: int, n: int)
    requires
        0 <= i <= n,
    ensures
        lines_from(hs, fs, i, n + 1) == lines_from(hs, fs, i, n) + data_line(hs[n], fs[n]),
    decreases n - i,
{
    if i == n {
        assert(lines_from(hs, fs, n + 1, n + 1) == Seq::<char>::empty());
        assert(lines_from(hs, fs, i, n + 1) =~= data_line(hs[n], fs[n]));
    } else {
        lemma_lines_snoc(hs, fs, i + 1, n);
        assert(lines_from(hs, fs, i, n + 1) =~= lines_from(hs, fs, i, n) + data_line(hs[n], fs[n]));
    }
}

proof fn lemma_data_lines_front(hs: Seq<Seq<char>>, fs: Seq<Seq<char>>, n: int)
    requires
        0 <= n,
    ensures
        data_lines(hs, fs, n) == lines_from(hs, fs, 0, n),
    decreases n,
{
    if n > 0 {
        lemma_data_lines_front(hs, fs, n - 1);
        lemma_lines_snoc(hs, fs, 0, n - 1);
    }
}

/// The pairs that lines `i` up to `n` read back as.
pub open spec fn data_pairs(hs: Seq<Seq<char>>, fs: Seq<Seq<char>>, i: int, n: int) -> Seq<
    (Seq<char>, Seq<char>),
> {
    Seq::new((n - i) as nat, |k: int| data_pair(hs[i + k], fs[i + k]))
}

proof fn lemma_lines_read(hs: Seq<Seq<char>>, fs: Seq<Seq<char>>, i: int, n: int, post: Seq<char>)
    requires
        0 <= i <= n,
        no_start(post, data_open()),
    ensures
        extended_data_from(lines_from(hs, fs, i, n) + post, 0) == data_pairs(hs, fs, i, n),
    decreases n - i,
{
    if i == n {
        let e = Seq::<char>::empty();
        lemma_extended_past(post, e);
        assert(post + e =~= post);
        assert(lines_from(hs, fs, i, n) + post =~= post);
        assert(data_pairs(hs, fs, i, n) =~= Seq::<(Seq<char>, Seq<char>)>::empty());
    } else {
        lemma_lines_read(hs, fs, i + 1, n, post);
        let rest = lines_from(hs, fs, i + 1, n) + post;
        lemma_data_step(hs[i], fs[i], rest);
        assert(lines_from(hs, fs, i, n) + post =~= data_line(hs[i], fs[i]) + rest);
        assert(data_pairs(hs, fs, i, n) =~= seq![data_pair(hs[i], fs[i])] + data_pairs(
            hs,
            fs,
            i + 1,
            n,
        ));
    }
}

pub open spec fn coordinates_tag() -> Seq<char> {
    seq!['c', 'o', 'o', 'r', 'd', 'i', 'n', 'a', 't', 'e', 's']
}

/// Neither `</Placemark>` nor `<coordinates>` starts within a `<Data>` line.
proof fn lemma_line_no_start(h: Seq<char>, f: Seq<char>, p: Seq<char>)
    requires
        p == placemark_close() || p == open_tag(coordinates_tag()),
    ensures
        no_start(data_line(h, f), p),
{
    reveal_strlit("        <Data name=\"");
    reveal_strlit("\"><value>");
    reveal_strlit("</value></Data>\n");
    lemma_escape_plain(h);
    lemma_escape_plain(f);
    let hh = escape_xml_spec(h);
    let ff = escape_xml_spec(f);
    assert(p.len() >= 4 && p[0] == '<');
    let a = DATA_OPEN@;
    let m = DATA_MID@;
    let c = DATA_CLOSE@;
    assert forall|j: int| 0 <= j < a.len() && #[trigger] a[j] == '<' implies crate::text::lt_diverges(
        a,
        p,
        j,
    ) by {
        assert(j == 8);
    }
    assert forall|j: int| 0 <= j < m.len() && #[trigger] m[j] == '<' implies crate::text::lt_diverges(
        m,
        p,
        j,
    ) by {
        assert(j == 2);
    }
    assert forall|j: int| 0 <= j < c.len() && #[trigger] c[j] == '<' implies crate::text::lt_diverges(
        c,
        p,
        j,
    ) by {
        assert(j == 0 || j == 8);
    }
    lemma_no_start_chars(a, p);
    lemma_no_start_chars(m, p);
    lemma_no_start_chars(c, p);
    lemma_no_start_without(hh, p);
    lemma_no_start_without(ff, p);
    lemma_no_start_concat(a, hh, p);
    lemma_no_start_concat(a + hh, m, p);
    lemma_no_start_concat(a + hh + m, ff, p);
    lemma_no_start_concat(a + hh + m + ff, c, p);
}

proof fn lemma_lines_no_start(hs: Seq<Seq<char>>, fs: Seq<Seq<char>>, i: int, n: int, p: Seq<char>)
    requires
        p == placemark_close() || p == open_tag(coordinates_tag()),
    ensures
        no_start(lines_from(hs, fs, i, n), p),
    decreases n - i,
{
    if i < n {
        lemma_lines_no_start(hs, fs, i + 1, n, p);
        lemma_line_no_start(hs[i], fs[i], p);
        lemma_no_start_concat(data_line(hs[i], fs[i]), lines_from(hs, fs, i + 1, n), p);
    }
}

/// Text without `&` is left as it is by decoding.
proof fn lemma_unescape_plain(c: Seq<char>)
    requires
        forall|j: int| 0 <= j < c.len() ==> #[trigger] c[j] != '&',
    ensures
        unescape_spec(c) == c,
{
    let e = Seq::<char>::empty();
    assert(c + e =~= c);
    let pats = seq![
        seq!['&', 'a', 'm', 'p', ';'],
        seq!['&', 'l', 't', ';'],
        seq!['&', 'g', 't', ';'],
        seq!['&', 'q', 'u', 'o', 't', ';'],
        seq!['&', 'a', 'p', 'o', 's', ';'],
    ];
    assert forall|k: int, r: Seq<char>| 0 <= k < 5 implies #[trigger] replace_all(c, pats[k], r)
        == c by {
        let p = pats[k];
        assert(p[0] == '&');
        assert forall|j: int| 0 <= j < c.len() implies !matches_at(c + e, p, j) by {
            if matches_at(c + e, p, j) {
                lemma_match_char(c + e, p, j, 0);
            }
        }
        lemma_replace_prefix(c, e, p, r);
    }
    assert(replace_all(c, pats[0], seq!['&']) == c);
    assert(replace_all(c, pats[1], seq!['<']) == c);
    assert(replace_all(c, pats[2], seq!['>']) == c);
    assert(replace_all(c, pats[3], seq!['"']) == c);
    assert(replace_all(c, pats[4], seq!['\'']) == c);
}

/// Float text holds none of the characters the KML structure relies on.
proof fn lemma_float_plain(x: Seq<char>)
    requires
        is_float_literal(x),
    ensures
        x.len() > 0,
        forall|j: int|
            0 <= j < x.len() ==> #[trigger] x[j] != '<' && x[j] != ',' && x[j] != '&'
                && !crate::text::is_ws(x[j]),
{
    lemma_float_chars(x);
    assert forall|j: int| 0 <= j < x.len() implies #[trigger] x[j] != '<' && x[j] != ',' && x[j]
        != '&' && !crate::text::is_ws(x[j]) by {
        assert(is_float_char(x[j]));
    }
}

/// A written placemark without its indentation.
pub open spec fn placemark_block(
    name: Seq<char>,
    hs: Seq<Seq<char>>,
    fs: Seq<Seq<char>>,
    lon: Seq<char>,
    lat: Seq<char>,
) -> Seq<char> {
    PLACEMARK_OPEN@.skip(4) + name + PLACEMARK_DATA@ + lines_from(hs, fs, 0, min_len(hs, fs))
        + PLACEMARK_POINT@ + lon + seq![','] + lat + PLACEMARK_CLOSE@
}

#[verifier::spinoff_prover]
proof fn lemma_block_name(
    name: Seq<char>,
    hs: Seq<Seq<char>>,
    fs: Seq<Seq<char>>,
    lon: Seq<char>,
    lat: Seq<char>,
)
    requires
        no_lt(name),
    ensures
        tag_content_spec(placemark_block(name, hs, fs, lon, lat), name_tag()) == Some(
            unescape_spec(name),
        ),
{
    reveal_strlit("    <Placemark>\n      <name>");
    reveal_strlit("</name>\n      <ExtendedData>\n");
    let b = placemark_block(name, hs, fs, lon, lat);
    let po = PLACEMARK_OPEN@.skip(4);
    let open = open_tag(name_tag());
    let close = close_tag(name_tag());
    let nm = name.len() as int;
    assert forall|k: int| 0 <= k < 24 implies #[trigger] b[k] == po[k] by {}
    assert(b.subrange(18, 24) =~= open);
    assert forall|j: int| 0 <= j < 18 implies !matches_at(b, open, j) by {
        if matches_at(b, open, j) {
            lemma_match_char(b, open, j, 0);
            lemma_match_char(b, open, j, 1);
        }
    }
    lemma_find_at(b, open, 0, 18);
    assert(b.subrange(24 + nm, 24 + nm + 7) =~= close);
    assert forall|j: int| 24 <= j < 24 + nm implies !matches_at(b, close, j) by {
        if matches_at(b, close, j) {
            lemma_match_char(b, close, j, 0);
            assert(b[j] == name[j - 24]);
        }
    }
    lemma_find_at(b, close, 24, 24 + nm);
    assert(b.subrange(24, 24 + nm) =~= name);
}

/// What precedes `<coordinates>` in a written placemark: no `<coordinates>`
/// and no `<Data name="` starts in it, past the data lines.
#[verifier::spinoff_prover]
proof fn lemma_block_pieces(
    name: Seq<char>,
    hs: Seq<Seq<char>>,
    fs: Seq<Seq<char>>,
    lon: Seq<char>,
    lat: Seq<char>,
)
    requires
        no_lt(name),
        is_float_literal(lat),
        is_float_literal(lon),
    ensures
        no_start(
            PLACEMARK_OPEN@.skip(4) + name + PLACEMARK_DATA@ + lines_from(
                hs,
                fs,
                0,
                min_len(hs, fs),
            ) + PLACEMARK_POINT@.take(44),
            open_tag(coordinates_tag()),
        ),
        no_start(PLACEMARK_OPEN@.skip(4) + name + PLACEMARK_DATA@, data_open()),
        no_start(PLACEMARK_POINT@ + lon + seq![','] + lat + PLACEMARK_CLOSE@, data_open()),
        no_start(
            PLACEMARK_OPEN@.skip(4) + name + PLACEMARK_DATA@ + lines_from(
                hs,
                fs,
                0,
                min_len(hs, fs),
            ) + PLACEMARK_POINT@ + lon + seq![','] + lat + PLACEMARK_CLOSE@.take(36),
            placemark_close(),
        ),
{
    reveal_strlit("    <Placemark>\n      <name>");
    reveal_strlit("</name>\n      <ExtendedData>\n");
    reveal_strlit("      </ExtendedData>\n      <Point>\n        <coordinates>");
    reveal_strlit(",0</coordinates>\n      </Point>\n    </Placemark>");
    lemma_float_plain(lat);
    lemma_float_plain(lon);
    let po = PLACEMARK_OPEN@.skip(4);
    let pd = PLACEMARK_DATA@;
    let pp = PLACEMARK_POINT@;
    let pc = PLACEMARK_CLOSE@;
    let d = lines_from(hs, fs, 0, min_len(hs, fs));
    let comma = seq![','];
    let co = open_tag(coordinates_tag());
    let dop = data_open();
    let pcl = placemark_close();
    assert(po.len() == 24 && pd.len() == 29 && pp.len() == 57 && pc.len() == 48);
    // The constant pieces, character by character.
    assert forall|j: int| 0 <= j < 24 && #[trigger] po[j] == '<' implies lt_diverges(po, co, j)
        && lt_diverges(po, dop, j) && lt_diverges(po, pcl, j) by {
        assert(j == 0 || j == 18);
    }
    assert forall|j: int| 0 <= j < 29 && #[trigger] pd[j] == '<' implies lt_diverges(pd, co, j)
        && lt_diverges(pd, dop, j) && lt_diverges(pd, pcl, j) by {
        assert(j == 0 || j == 14);
    }
    let pp44 = pp.take(44);
    assert forall|j: int| 0 <= j < 44 && #[trigger] pp44[j] == '<' implies lt_diverges(
        pp44,
        co,
        j,
    ) by {
        assert(pp44[j] == pp[j]);
        assert(j == 6 || j == 28);
        assert(pp44[j + 1] == pp[j + 1]);
    }
    assert forall|j: int| 0 <= j < 57 && #[trigger] pp[j] == '<' implies lt_diverges(pp, dop, j)
        && lt_diverges(pp, pcl, j) by {
        assert(j == 6 || j == 28 || j == 44);
    }
    assert forall|j: int| 0 <= j < 48 && #[trigger] pc[j] == '<' implies lt_diverges(pc, dop, j) by {
        assert(j == 2 || j == 23 || j == 36);
    }
    let pc36 = pc.take(36);
    assert forall|j: int| 0 <= j < 36 && #[trigger] pc36[j] == '<' implies lt_diverges(
        pc36,
        pcl,
        j,
    ) by {
        assert(pc36[j] == pc[j]);
        assert(j == 2 || j == 23);
        assert(pc36[j + 1] == pc[j + 1] && pc36[j + 2] == pc[j + 2] && pc36[j + 3] == pc[j + 3]);
    }
    assert(co.len() >= 4 && co[0] == '<' && dop.len() >= 4 && dop[0] == '<' && pcl.len() >= 4
        && pcl[0] == '<');
    lemma_no_start_chars(po, co);
    lemma_no_start_chars(po, dop);
    lemma_no_start_chars(po, pcl);
    lemma_no_start_chars(pd, co);
    lemma_no_start_chars(pd, dop);
    lemma_no_start_chars(pd, pcl);
    lemma_no_start_chars(pp44, co);
    lemma_no_start_chars(pp, dop);
    lemma_no_start_chars(pp, pcl);
    lemma_no_start_chars(pc, dop);
    lemma_no_start_chars(pc36, pcl);
    // The variable pieces hold no `<`.
    lemma_no_start_without(name, co);
    lemma_no_start_without(name, dop);
    lemma_no_start_without(name, pcl);
    lemma_no_start_without(lon, dop);
    lemma_no_start_without(lon, pcl);
    lemma_no_start_without(lat, dop);
    lemma_no_start_without(lat, pcl);
    lemma_no_start_without(comma, dop);
    lemma_no_start_without(comma, pcl);
    lemma_lines_no_start(hs, fs, 0, min_len(hs, fs), co);
    lemma_lines_no_start(hs, fs, 0, min_len(hs, fs), pcl);
    // Put together.
    lemma_no_start_concat(po, name, co);
    lemma_no_start_concat(po + name, pd, co);
    lemma_no_start_concat(po + name + pd, d, co);
    lemma_no_start_concat(po + name + pd + d, pp44, co);
    lemma_no_start_concat(po, name, dop);
    lemma_no_start_concat(po + name, pd, dop);
    lemma_no_start_concat(pp, lon, dop);
    lemma_no_start_concat(pp + lon, comma, dop);
    lemma_no_start_concat(pp + lon + comma, lat, dop);
    lemma_no_start_concat(pp + lon + comma + lat, pc, dop);
    lemma_no_start_concat(po, name, pcl);
    lemma_no_start_concat(po + name, pd, pcl);
    lemma_no_start_concat(po + name + pd, d, pcl);
    lemma_no_start_concat(po + name + pd + d, pp, pcl);
    lemma_no_start_concat(po + name + pd + d + pp, lon, pcl);
    lemma_no_start_concat(po + name + pd + d + pp + lon, comma, pcl);
    lemma_no_start_concat(po + name + pd + d + pp + lon + comma, lat, pcl);
    lemma_no_start_concat(po + name + pd + d + pp + lon + comma + lat, pc36, pcl);
}

#[verifier::spinoff_prover]
proof fn lemma_block_coords(
    name: Seq<char>,
    hs: Seq<Seq<char>>,
    fs: Seq<Seq<char>>,
    lon: Seq<char>,
    lat: Seq<char>,
)
    requires
        no_lt(name),
        is_float_literal(lat),
        is_float_literal(lon),
    ensures
        coords_spec(placemark_block(name, hs, fs, lon, lat)) == (Some(lat), Some(lon)),
{
    reveal_strlit("      </ExtendedData>\n      <Point>\n        <coordinates>");
    reveal_strlit(",0</coordinates>\n      </Point>\n    </Placemark>");
    lemma_block_pieces(name, hs, fs, lon, lat);
    lemma_float_plain(lat);
    lemma_float_plain(lon);
    let b = placemark_block(name, hs, fs, lon, lat);
    let po = PLACEMARK_OPEN@.skip(4);
    let pd = PLACEMARK_DATA@;
    let pp = PLACEMARK_POINT@;
    let pc = PLACEMARK_CLOSE@;
    let d = lines_from(hs, fs, 0, min_len(hs, fs));
    let comma = seq![','];
    let co = open_tag(coordinates_tag());
    let cc = close_tag(coordinates_tag());
    let pre = po + name + pd + d + pp.take(44);
    let after = pp.skip(44) + lon + comma + lat + pc;
    assert(b =~= pre + after);
    // The opening tag.
    assert(after.subrange(0, 13) =~= co);
    lemma_find_at(after, co, 0, 0);
    lemma_find_past(pre, after, co);
    let st = pre.len() + 13int;
    // The content up to the closing tag.
    let c = lon + comma + lat + seq![',', '0'];
    let nc = c.len() as int;
    assert(b.subrange(st, st + nc) =~= c);
    assert(b.subrange(st + nc, st + nc + 14) =~= cc);
    assert forall|j: int| st <= j < st + nc implies !matches_at(b, cc, j) by {
        if matches_at(b, cc, j) {
            lemma_match_char(b, cc, j, 0);
            assert(b[j] == b.subrange(st, st + nc)[j - st]);
            let k = j - st;
            if k < lon.len() {
                assert(c[k] == lon[k]);
            } else if lon.len() < k < lon.len() + 1 + lat.len() {
                assert(c[k] == lat[k - lon.len() - 1]);
            }
        }
    }
    lemma_find_at(b, cc, st, st + nc);
    assert(tag_content_spec(b, coordinates_tag()) == Some(unescape_spec(c)));
    assert forall|j: int| 0 <= j < nc implies #[trigger] c[j] != '&' by {
        if j < lon.len() {
            assert(c[j] == lon[j]);
        } else if lon.len() < j < lon.len() + 1 + lat.len() {
            assert(c[j] == lat[j - lon.len() - 1]);
        }
    }
    lemma_unescape_plain(c);
    // Trimmed, split at the commas.
    assert(c[0] == lon[0]);
    assert(c.last() == '0');
    lemma_trim_id(c);
    let nl = lon.len() as int;
    assert forall|j: int| 0 <= j < nl implies c[j] != ',' by {
        assert(c[j] == lon[j]);
    }
    lemma_find_char(c, ',', 0, nl);
    let rest = c.skip(nl + 1);
    assert(rest =~= lat + seq![',', '0']);
    assert forall|j: int| 0 <= j < lat.len() implies rest[j] != ',' by {
        assert(rest[j] == lat[j]);
    }
    lemma_find_char(rest, ',', 0, lat.len() as int);
    assert(rest.take(lat.len() as int) =~= lat);
    assert(c.take(nl) =~= lon);
    lemma_trim_id(lat);
    lemma_trim_id(lon);
}

proof fn lemma_block_data(
    name: Seq<char>,
    hs: Seq<Seq<char>>,
    fs: Seq<Seq<char>>,
    lon: Seq<char>,
    lat: Seq<char>,
)
    requires
        no_lt(name),
        is_float_literal(lat),
        is_float_literal(lon),
    ensures
        extended_data_from(placemark_block(name, hs, fs, lon, lat), 0) == data_pairs(
            hs,
            fs,
            0,
            min_len(hs, fs),
        ),
{
    lemma_block_pieces(name, hs, fs, lon, lat);
    let po = PLACEMARK_OPEN@.skip(4);
    let pd = PLACEMARK_DATA@;
    let d = lines_from(hs, fs, 0, min_len(hs, fs));
    let post = PLACEMARK_POINT@ + lon + seq![','] + lat + PLACEMARK_CLOSE@;
    let b = placemark_block(name, hs, fs, lon, lat);
    assert(b =~= (po + name + pd) + (d + post));
    lemma_extended_past(po + name + pd, d + post);
    assert(0 <= min_len(hs, fs));
    lemma_lines_read(hs, fs, 0, min_len(hs, fs), post);
}

/// A written placemark reads back as its name, coordinate and extended data.
proof fn lemma_block(
    name: Seq<char>,
    hs: Seq<Seq<char>>,
    fs: Seq<Seq<char>>,
    lon: Seq<char>,
    lat: Seq<char>,
)
    requires
        no_lt(name),
        is_float_literal(lat),
        is_float_literal(lon),
    ensures
        placemark_of_block(placemark_block(name, hs, fs, lon, lat)) == (
            unescape_spec(name),
            Some(lat),
            Some(lon),
            data_pairs(hs, fs, 0, min_len(hs, fs)),
        ),
{
    lemma_block_name(name, hs, fs, lon, lat);
    lemma_block_coords(name, hs, fs, lon, lat);
    lemma_block_data(name, hs, fs, lon, lat);
}

/// Reading from inside the second part of `x + y` reads `y`.
proof fn lemma_placemarks_shift(x: Seq<char>, y: Seq<char>, i: int)
    requires
        0 <= i,
    ensures
        placemarks_from(x + y, x.len() + i) == placemarks_from(y, i),
    decreases y.len() + 1 - i,
{
    let n = x.len() as int;
    let s = x + y;
    lemma_find_from_shift(x, y, placemark_open(), i);
    lemma_find_from(y, placemark_open(), i);
    match find_from(y, placemark_open(), i) {
        None => {},
        Some(st) => {
            lemma_find_from_shift(x, y, placemark_close(), st);
            lemma_find_from(y, placemark_close(), st);
            match find_from(y, placemark_close(), st) {
                None => {},
                Some(e0) => {
                    let e = e0 + 12;
                    assert(s.subrange(st + n, e0 + n + 12) =~= y.subrange(st, e));
                    lemma_placemarks_shift(x, y, e);
                    assert(e0 + n + 12 == n + e);
                },
            }
        },
    }
}

/// After text `q` in which no placemark starts, the first `<Placemark>` is four
/// characters into `t`, where `t` begins with four spaces and `<Placemark>`.
proof fn lemma_step_open(q: Seq<char>, t: Seq<char>)
    requires
        no_start(q, placemark_open()),
        t.len() >= 15,
        t.subrange(4, 15) == placemark_open(),
        t[0] == ' ' && t[1] == ' ' && t[2] == ' ' && t[3] == ' ',
    ensures
        find_from(q + t, placemark_open(), 0) == Some(q.len() + 4int),
{
    assert forall|j: int| 0 <= j < 4 implies !matches_at(t, placemark_open(), j) by {
        if matches_at(t, placemark_open(), j) {
            lemma_match_char(t, placemark_open(), j, 0);
        }
    }
    lemma_find_at(t, placemark_open(), 0, 4);
    lemma_find_past(q, t, placemark_open());
}

/// In a written placemark followed by anything, the first `</Placemark>` is
/// the placemark's own.
#[verifier::spinoff_prover]
proof fn lemma_step_close(
    name: Seq<char>,
    hs: Seq<Seq<char>>,
    fs: Seq<Seq<char>>,
    lon: Seq<char>,
    lat: Seq<char>,
    r: Seq<char>,
)
    requires
        no_lt(name),
        is_float_literal(lat),
        is_float_literal(lon),
    ensures
        find_from(placemark_block(name, hs, fs, lon, lat) + r, placemark_close(), 0) == Some(
            placemark_block(name, hs, fs, lon, lat).len() - 12,
        ),
{
    reveal_strlit(",0</coordinates>\n      </Point>\n    </Placemark>");
    lemma_block_pieces(name, hs, fs, lon, lat);
    let b = placemark_block(name, hs, fs, lon, lat);
    let pc = PLACEMARK_CLOSE@;
    let bb = PLACEMARK_OPEN@.skip(4) + name + PLACEMARK_DATA@ + lines_from(
        hs,
        fs,
        0,
        min_len(hs, fs),
    ) + PLACEMARK_POINT@ + lon + seq![','] + lat + pc.take(36);
    assert(pc =~= pc.take(36) + placemark_close());
    assert(b + r =~= bb + (placemark_close() + r));
    assert((placemark_close() + r).subrange(0, 12) =~= placemark_close());
    lemma_find_at(placemark_close() + r, placemark_close(), 0, 0);
    lemma_find_past(bb, placemark_close() + r, placemark_close());
}

proof fn lemma_text_block(
    name: Seq<char>,
    hs: Seq<Seq<char>>,
    fs: Seq<Seq<char>>,
    lon: Seq<char>,
    lat: Seq<char>,
)
    ensures
        placemark_text(name, hs, fs, lon, lat) == seq![' ', ' ', ' ', ' '] + placemark_block(
            name,
            hs,
            fs,
            lon,
            lat,
        ),
        placemark_block(name, hs, fs, lon, lat).len() > 60,
        placemark_block(name, hs, fs, lon, lat).subrange(0, 11) == placemark_open(),
{
    reveal_strlit("    <Placemark>\n      <name>");
    reveal_strlit(",0</coordinates>\n      </Point>\n    </Placemark>");
    assert(0 <= min_len(hs, fs));
    lemma_data_lines_front(hs, fs, min_len(hs, fs));
    let sp = seq![' ', ' ', ' ', ' '];
    assert(PLACEMARK_OPEN@ =~= sp + PLACEMARK_OPEN@.skip(4));
    let b = placemark_block(name, hs, fs, lon, lat);
    assert forall|k: int| 0 <= k < 11 implies #[trigger] b[k] == PLACEMARK_OPEN@.skip(4)[k] by {}
    assert(b.subrange(0, 11) =~= placemark_open());
}

proof fn lemma_subrange_mid(x: Seq<char>, b: Seq<char>, r: Seq<char>)
    ensures
        (x + (b + r)).subrange(x.len() as int, (x.len() + b.len()) as int) == b,
{
    assert((x + (b + r)).subrange(x.len() as int, (x.len() + b.len()) as int) =~= b);
}

/// After text `q` in which no placemark starts, four spaces and a block that
/// opens with `<Placemark>` and first closes at its end are read as that block.
#[verifier::spinoff_prover]
proof fn lemma_block_step(q: Seq<char>, b: Seq<char>, r: Seq<char>)
    requires
        no_start(q, placemark_open()),
        b.len() > 60,
        b.subrange(0, 11) == placemark_open(),
        find_from(b + r, placemark_close(), 0) == Some(b.len() - 12),
    ensures
        placemarks_from(q + (seq![' ', ' ', ' ', ' '] + b) + r, 0) == seq![placemark_of_block(b)]
            + placemarks_from(r, 0),
{
    let sp = seq![' ', ' ', ' ', ' '];
    let p = sp + b;
    let h = q + p + r;
    let o = q.len() as int;
    let t = sp + (b + r);
    assert(t.subrange(4, 15) =~= b.subrange(0, 11));
    lemma_step_open(q, t);
    assert(h =~= q + t);
    let x = q + sp;
    assert(h =~= x + (b + r));
    lemma_find_from_shift(x, b + r, placemark_close(), 0);
    lemma_subrange_mid(x, b, r);
    assert(h =~= (q + p) + r);
    lemma_placemarks_shift(q + p, r, 0);
}

/// After text `q` in which no placemark starts, a written placemark is read
/// back, and reading goes on after it.
proof fn lemma_placemark_step(
    q: Seq<char>,
    name: Seq<char>,
    hs: Seq<Seq<char>>,
    fs: Seq<Seq<char>>,
    lon: Seq<char>,
    lat: Seq<char>,
    r: Seq<char>,
)
    requires
        no_start(q, placemark_open()),
        no_lt(name),
        is_float_literal(lat),
        is_float_literal(lon),
    ensures
        placemarks_from(q + placemark_text(name, hs, fs, lon, lat) + r, 0) == seq![
            (unescape_spec(name), Some(lat), Some(lon), data_pairs(hs, fs, 0, min_len(hs, fs))),
        ] + placemarks_from(r, 0),
{
    let b = placemark_block(name, hs, fs, lon, lat);
    lemma_text_block(name, hs, fs, lon, lat);
    lemma_step_close(name, hs, fs, lon, lat, r);
    lemma_block(name, hs, fs, lon, lat);
    lemma_block_step(q, b, r);
}

/// Text in which no placemark starts holds none.
proof fn lemma_no_placemarks(h: Seq<char>)
    requires
        no_start(h, placemark_open()),
    ensures
        placemarks_from(h, 0).len() == 0,
{
    lemma_no_start_match(h, Seq::<char>::empty(), placemark_open());
    assert(h + Seq::<char>::empty() =~= h);
    lemma_find_skip(h, placemark_open(), 0, h.len() as int);
}

proof fn lemma_kml_frame()
    ensures
        no_start(KML_HEAD@, placemark_open()),
        no_start(KML_TAIL@, placemark_open()),
        no_start(seq!['\n'], placemark_open()),
{
    reveal_strlit(
        "<?xml version=\"1.0\" encoding=\"UTF-8\"?>\n<kml xmlns=\"http://www.opengis.net/kml/2.2\">\n  <Document>\n",
    );
    reveal_strlit("\n  </Document>\n</kml>\n");
    let h = KML_HEAD@;
    let t = KML_TAIL@;
    let p = placemark_open();
    assert(p.len() >= 4 && p[0] == '<');
    assert forall|j: int| 0 <= j < h.len() && #[trigger] h[j] == '<' implies lt_diverges(h, p, j) by {
        assert(j == 0 || j == 39 || j == 86);
    }
    assert forall|j: int| 0 <= j < t.len() && #[trigger] t[j] == '<' implies lt_diverges(t, p, j) by {
        assert(j == 3 || j == 15);
    }
    lemma_no_start_chars(h, p);
    lemma_no_start_chars(t, p);
    lemma_no_start_without(seq!['\n'], p);
}

proof fn lemma_writable_rest(
    pms: Seq<(Seq<char>, Seq<Seq<char>>, Seq<Seq<char>>, Seq<char>, Seq<char>)>,
)
    requires
        writable_placemarks(pms),
        pms.len() > 0,
    ensures
        writable_placemarks(pms.drop_first()),
        no_lt(pms[0].0),
        is_float_literal(pms[0].3),
        is_float_literal(pms[0].4),
{
    let rest = pms.drop_first();
    assert forall|i: int| 0 <= i < rest.len() implies no_lt(#[trigger] rest[i].0) && is_float_literal(
        rest[i].3,
    ) && is_float_literal(rest[i].4) by {
        assert(rest[i] == pms[i + 1]);
        assert(no_lt(pms[i + 1].0));
    }
    assert(no_lt(pms[0].0));
}

/// The placemark texts written for `pms`, each `(name, headers, fields, lon, lat)`.
pub open spec fn placemark_texts(
    pms: Seq<(Seq<char>, Seq<Seq<char>>, Seq<Seq<char>>, Seq<char>, Seq<char>)>,
) -> Seq<Seq<char>> {
    pms.map_values(
        |p: (Seq<char>, Seq<Seq<char>>, Seq<Seq<char>>, Seq<char>, Seq<char>)|
            placemark_text(p.0, p.1, p.2, p.3, p.4),
    )
}

/// What reading gives back for `pms`: the decoded name, the latitude and
/// longitude text, and the decoded `(header, field)` pairs.
pub open spec fn placemarks_read_back(
    pms: Seq<(Seq<char>, Seq<Seq<char>>, Seq<Seq<char>>, Seq<char>, Seq<char>)>,
) -> Seq<(Seq<char>, Option<Seq<char>>, Option<Seq<char>>, Seq<(Seq<char>, Seq<char>)>)> {
    pms.map_values(
        |p: (Seq<char>, Seq<Seq<char>>, Seq<Seq<char>>, Seq<char>, Seq<char>)|
            (unescape_spec(p.0), Some(p.4), Some(p.3), data_pairs(p.1, p.2, 0, min_len(p.1, p.2))),
    )
}

/// Placemarks whose written text reads back: names without `<`, float coordinates.
pub open spec fn writable_placemarks(
    pms: Seq<(Seq<char>, Seq<Seq<char>>, Seq<Seq<char>>, Seq<char>, Seq<char>)>,
) -> bool {
    forall|i: int|
        0 <= i < pms.len() ==> no_lt(#[trigger] pms[i].0) && is_float_literal(pms[i].3)
            && is_float_literal(pms[i].4)
}

proof fn lemma_placemarks_tail(
    pms: Seq<(Seq<char>, Seq<Seq<char>>, Seq<Seq<char>>, Seq<char>, Seq<char>)>,
)
    requires
        writable_placemarks(pms),
    ensures
        placemarks_from(sep_tail(placemark_texts(pms), seq!['\n'], KML_TAIL@), 0)
            == placemarks_read_back(pms),
    decreases pms.len(),
{
    lemma_kml_frame();
    if pms.len() == 0 {
        lemma_no_placemarks(KML_TAIL@);
        assert(placemarks_read_back(pms) =~= Seq::empty());
    } else {
        let rest = pms.drop_first();
        lemma_writable_rest(pms);
        lemma_placemarks_tail(rest);
        assert(placemark_texts(pms).drop_first() =~= placemark_texts(rest));
        let p = pms[0];
        lemma_placemark_step(
            seq!['\n'],
            p.0,
            p.1,
            p.2,
            p.3,
            p.4,
            sep_tail(placemark_texts(rest), seq!['\n'], KML_TAIL@),
        );
        assert(placemarks_read_back(pms) =~= seq![
            (unescape_spec(p.0), Some(p.4), Some(p.3), data_pairs(p.1, p.2, 0, min_len(p.1, p.2))),
        ] + placemarks_read_back(rest));
    }
}

/// A KML document written for placemarks with float-literal coordinates and
/// names without `<` reads back as the same placemarks, in order: each gives
/// the decoded name, the latitude and longitude text that was written, and its
/// decoded `(header, field)` pairs; the records carry those coordinates.
pub proof fn lemma_kml_roundtrip(
    pms: Seq<(Seq<char>, Seq<Seq<char>>, Seq<Seq<char>>, Seq<char>, Seq<char>)>,
)
    requires
        writable_placemarks(pms),
    ensures
        placemarks_from(kml_document(placemark_texts(pms)), 0) == placemarks_read_back(pms),
        kml_records(kml_document(placemark_texts(pms))).len() == pms.len(),
        forall|i: int|
            0 <= i < pms.len() ==> #[trigger] kml_records(kml_document(placemark_texts(pms)))[i].1
                == Some(pms[i].4) && kml_records(kml_document(placemark_texts(pms)))[i].2 == Some(
                pms[i].3,
            ),
{
    lemma_kml_frame();
    let ws = placemark_texts(pms);
    let doc = kml_document(ws);
    if pms.len() == 0 {
        assert(join(ws, seq!['\n']) =~= Seq::<char>::empty());
        assert(doc =~= KML_HEAD@ + KML_TAIL@);
        lemma_no_start_concat(KML_HEAD@, KML_TAIL@, placemark_open());
        lemma_no_placemarks(doc);
        assert(placemarks_read_back(pms) =~= Seq::empty());
        assert(placemarks_from(doc, 0) =~= Seq::empty());
    } else {
        lemma_join_front(ws, seq!['\n'], KML_TAIL@);
        let rest = pms.drop_first();
        lemma_writable_rest(pms);
        lemma_placemarks_tail(rest);
        assert(ws.drop_first() =~= placemark_texts(rest));
        let p = pms[0];
        let tail = sep_tail(placemark_texts(rest), seq!['\n'], KML_TAIL@);
        assert(ws[0] == placemark_text(p.0, p.1, p.2, p.3, p.4));
        assert(join(ws, seq!['\n']) + KML_TAIL@ == placemark_text(p.0, p.1, p.2, p.3, p.4) + tail);
        assert(doc =~= KML_HEAD@ + (join(ws, seq!['\n']) + KML_TAIL@));
        assert(doc =~= KML_HEAD@ + placemark_text(p.0, p.1, p.2, p.3, p.4) + tail);
        lemma_placemark_step(KML_HEAD@, p.0, p.1, p.2, p.3, p.4, tail);
        assert(placemarks_read_back(pms) =~= seq![
            (unescape_spec(p.0), Some(p.4), Some(p.3), data_pairs(p.1, p.2, 0, min_len(p.1, p.2))),
        ] + placemarks_read_back(rest));
    }
    assert forall|i: int| 0 <= i < pms.len() implies #[trigger] kml_records(doc)[i].1 == Some(
        pms[i].4,
    ) && kml_records(doc)[i].2 == Some(pms[i].3) by {
        assert(placemarks_from(doc, 0)[i] == placemarks_read_back(pms)[i]);
    }
}


/// The placemarks a writer with name column `nc` adds for `rows`, each
/// `(headers, fields, lat, lon)`.
pub open spec fn written_placemarks(
    nc: Option<Seq<char>>,
    rows: Seq<(Seq<Seq<char>>, Seq<Seq<char>>, Seq<char>, Seq<char>)>,
) -> Seq<(Seq<char>, Seq<Seq<char>>, Seq<Seq<char>>, Seq<char>, Seq<char>)> {
    rows.map_values(
        |r: (Seq<Seq<char>>, Seq<Seq<char>>, Seq<char>, Seq<char>)|
            (display_name(nc, r.0, r.1), r.0, r.1, r.3, r.2),
    )
}

/// Rows with float-literal coordinates written by a KML writer read back in
/// order, each with the decoded display name, the coordinate text written and
/// the decoded `(header, field)` pairs.
pub proof fn lemma_kml_rows_roundtrip(
    nc: Option<Seq<char>>,
    rows: Seq<(Seq<Seq<char>>, Seq<Seq<char>>, Seq<char>, Seq<char>)>,
)
    requires
        forall|i: int|
            0 <= i < rows.len() ==> is_float_literal(#[trigger] rows[i].2) && is_float_literal(
                rows[i].3,
            ),
    ensures
        placemarks_from(kml_document(placemark_texts(written_placemarks(nc, rows))), 0)
            == rows.map_values(
            |r: (Seq<Seq<char>>, Seq<Seq<char>>, Seq<char>, Seq<char>)|
                (
                    unescape_spec(display_name(nc, r.0, r.1)),
                    Some(r.2),
                    Some(r.3),
                    data_pairs(r.0, r.1, 0, min_len(r.0, r.1)),
                ),
        ),
{
    let pms = written_placemarks(nc, rows);
    assert forall|i: int| 0 <= i < pms.len() implies no_lt(#[trigger] pms[i].0) && is_float_literal(
        pms[i].3,
    ) && is_float_literal(pms[i].4) by {
        lemma_display_name_no_lt(nc, rows[i].0, rows[i].1);
        assert(is_float_literal(rows[i].2));
    }
    lemma_kml_roundtrip(pms);
    assert(placemarks_read_back(pms) =~= rows.map_values(
        |r: (Seq<Seq<char>>, Seq<Seq<char>>, Seq<char>, Seq<char>)|
            (
                unescape_spec(display_name(nc, r.0, r.1)),
                Some(r.2),
                Some(r.3),
                data_pairs(r.0, r.1, 0, min_len(r.0, r.1)),
            ),
    ));
}

/// Text that reading gives back unchanged after writing: it holds none of the
/// entities `&lt;`, `&gt;`, `&quot;` and `&apos;`.
pub open spec fn entity_free(s: Seq<char>) -> bool {
    &&& forall|i: int| !matches_at(s, seq!['&', 'l', 't', ';'], i)
    &&& forall|i: int| !matches_at(s, seq!['&', 'g', 't', ';'], i)
    &&& forall|i: int| !matches_at(s, seq!['&', 'q', 'u', 'o', 't', ';'], i)
    &&& forall|i: int| !matches_at(s, seq!['&', 'a', 'p', 'o', 's', ';'], i)
}

proof fn lemma_add_keys_contains(keys: Seq<Seq<char>>, data: Seq<(Seq<char>, Seq<char>)>)
    ensures
        forall|x: Seq<char>| keys.contains(x) ==> #[trigger] add_keys(keys, data).contains(x),
        forall|j: int| 0 <= j < data.len() ==> add_keys(keys, data).contains(#[trigger] data[j].0),
    decreases data.len(),
{
    if data.len() > 0 {
        let p = data.drop_last();
        lemma_add_keys_contains(keys, p);
        let k = add_keys(keys, p);
        assert forall|j: int| 0 <= j < data.len() implies add_keys(keys, data).contains(
            #[trigger] data[j].0,
        ) by {
            if j < data.len() - 1 {
                assert(data[j] == p[j]);
                assert(k.contains(p[j].0));
                if !k.contains(data.last().0) {
                    let t = choose|t: int| 0 <= t < k.len() && k[t] == p[j].0;
                    assert(k.push(data.last().0)[t] == p[j].0);
                }
            } else if !k.contains(data.last().0) {
                assert(k.push(data.last().0)[k.len() as int] == data.last().0);
            }
        }
        assert forall|x: Seq<char>| keys.contains(x) implies #[trigger] add_keys(
            keys,
            data,
        ).contains(x) by {
            assert(k.contains(x));
            if !k.contains(data.last().0) {
                let t = choose|t: int| 0 <= t < k.len() && k[t] == x;
                assert(k.push(data.last().0)[t] == x);
            }
        }
    }
}

/// Every extended-data name of every placemark is a column.
proof fn lemma_kml_headers_contains(
    pms: Seq<(Seq<char>, Option<Seq<char>>, Option<Seq<char>>, Seq<(Seq<char>, Seq<char>)>)>,
    i: int,
    j: int,
)
    requires
        0 <= i < pms.len(),
        0 <= j < pms[i].3.len(),
    ensures
        kml_headers(pms).contains(pms[i].3[j].0),
    decreases pms.len(),
{
    let p = pms.drop_last();
    lemma_add_keys_contains(kml_headers(p), pms.last().3);
    if i < pms.len() - 1 {
        assert(p[i] == pms[i]);
        lemma_kml_headers_contains(p, i, j);
    }
}

/// The value of a key is that of its first pair.
proof fn lemma_lookup_first(data: Seq<(Seq<char>, Seq<char>)>, key: Seq<char>, j: int)
    requires
        0 <= j < data.len(),
        data[j].0 == key,
        forall|k: int| 0 <= k < j ==> data[k].0 != key,
    ensures
        lookup(data, key) == data[j].1,
    decreases j,
{
    if j > 0 {
        assert(data[0].0 != key);
        lemma_lookup_first(data.drop_first(), key, j - 1);
    }
}

/// The records of a KML document written for rows with float-literal
/// coordinates carry each row's coordinates and, for a header that differs from
/// `Name` and from the row's earlier headers, the `(header, field)` pair written,
/// where neither holds an entity that reading decodes.
pub proof fn lemma_kml_records_roundtrip(
    nc: Option<Seq<char>>,
    rows: Seq<(Seq<Seq<char>>, Seq<Seq<char>>, Seq<char>, Seq<char>)>,
    i: int,
    j: int,
)
    requires
        forall|r: int|
            0 <= r < rows.len() ==> is_float_literal(#[trigger] rows[r].2) && is_float_literal(
                rows[r].3,
            ),
        0 <= i < rows.len(),
        0 <= j < min_len(rows[i].0, rows[i].1),
        rows[i].0[j] != name_key(),
        forall|k: int| 0 <= k <= j ==> entity_free(#[trigger] rows[i].0[k]),
        forall|k: int| 0 <= k < j ==> #[trigger] rows[i].0[k] != rows[i].0[j],
        entity_free(rows[i].1[j]),
    ensures
        ({
            let recs = kml_records(kml_document(placemark_texts(written_placemarks(nc, rows))));
            &&& recs.len() == rows.len()
            &&& recs[i].1 == Some(rows[i].2)
            &&& recs[i].2 == Some(rows[i].3)
            &&& exists|k: int|
                0 <= k < recs[i].0.len() && #[trigger] recs[i].0[k] == (rows[i].0[j], rows[i].1[j])
        }),
{
    let doc = kml_document(placemark_texts(written_placemarks(nc, rows)));
    lemma_kml_rows_roundtrip(nc, rows);
    let pms = placemarks_from(doc, 0);
    let r = rows[i];
    assert(pms[i] == (
        unescape_spec(display_name(nc, r.0, r.1)),
        Some(r.2),
        Some(r.3),
        data_pairs(r.0, r.1, 0, min_len(r.0, r.1)),
    ));
    let data = pms[i].3;
    let h = r.0[j];
    let f = r.1[j];
    lemma_unescape_escape(h);
    lemma_unescape_escape(f);
    assert(data[j] == data_pair(r.0[j], r.1[j]));
    assert(data[j] == (h, f));
    assert forall|k: int| 0 <= k < j implies data[k].0 != h by {
        lemma_unescape_escape(r.0[k]);
        assert(data[k] == data_pair(r.0[k], r.1[k]));
    }
    lemma_lookup_first(data, h, j);
    lemma_kml_headers_contains(pms, i, j);
    let keys = kml_headers(pms);
    let k = choose|k: int| 0 <= k < keys.len() && keys[k] == h;
    let recs = kml_records(doc);
    assert(recs[i].0 == kml_fields(keys, pms[i]));
    assert(recs[i].0[k] == (h, f));
}

} // verus!
