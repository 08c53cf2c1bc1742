//! KML input: placemarks, their names, coordinates and extended data.
use vstd::prelude::*;
use crate::formats::{clone_strings, record_views, InputRecord, RecordQueue};
use crate::lexical::{is_float_char, is_float_literal, is_float_text, lemma_float_chars};
use crate::formats::kml::{escape_char, escape_xml_spec};
use crate::text::{
    chars_of, find_from, find_from_exec, lemma_find_char, lemma_find_from, lemma_match_char,
    lemma_trim_id,
    lemma_replace_prefix, matches_at, replace_all, replace_all_exec, string_of, sub_chars, trim,
    trim_chars,
};

verus! {

/// XML text with the five standard entities decoded, `&amp;` first.
pub open spec fn unescape_spec(s: Seq<char>) -> Seq<char> {
    let a = replace_all(s, seq!['&', 'a', 'm', 'p', ';'], seq!['&']);
    let b = replace_all(a, seq!['&', 'l', 't', ';'], seq!['<']);
    let c = replace_all(b, seq!['&', 'g', 't', ';'], seq!['>']);
    let d = replace_all(c, seq!['&', 'q', 'u', 'o', 't', ';'], seq!['"']);
    replace_all(d, seq!['&', 'a', 'p', 'o', 's', ';'], seq!['\''])
}

/// Decodes the five standard XML entities.
pub fn unescape(s: &Vec<char>) -> (r: Vec<char>)
    ensures
        r@ == unescape_spec(s@),
{
    let amp = vec!['&', 'a', 'm', 'p', ';'];
    let lt = vec!['&', 'l', 't', ';'];
    let gt = vec!['&', 'g', 't', ';'];
    let quot = vec!['&', 'q', 'u', 'o', 't', ';'];
    let apos = vec!['&', 'a', 'p', 'o', 's', ';'];
    let c1 = vec!['&'];
    let c2 = vec!['<'];
    let c3 = vec!['>'];
    let c4 = vec!['"'];
    let c5 = vec!['\''];
    assert(amp@ == seq!['&', 'a', 'm', 'p', ';'] && lt@ == seq!['&', 'l', 't', ';'] && gt@ == seq![
        '&',
        'g',
        't',
        ';',
    ] && quot@ == seq!['&', 'q', 'u', 'o', 't', ';'] && apos@ == seq!['&', 'a', 'p', 'o', 's', ';']);
    assert(c1@ == seq!['&'] && c2@ == seq!['<'] && c3@ == seq!['>'] && c4@ == seq!['"'] && c5@
        == seq!['\'']);
    let a = replace_all_exec(s, &amp, &c1);
    let b = replace_all_exec(&a, &lt, &c2);
    let c = replace_all_exec(&b, &gt, &c3);
    let d = replace_all_exec(&c, &quot, &c4);
    replace_all_exec(&d, &apos, &c5)
}

pub open spec fn open_tag(tag: Seq<char>) -> Seq<char> {
    seq!['<'] + tag + seq!['>']
}

pub open spec fn close_tag(tag: Seq<char>) -> Seq<char> {
    seq!['<', '/'] + tag + seq!['>']
}

/// The decoded text between the first `<tag>` of `xml` and the first `</tag>` after it.
pub open spec fn tag_content_spec(xml: Seq<char>, tag: Seq<char>) -> Option<Seq<char>> {
    match find_from(xml, open_tag(tag), 0) {
        None => None,
        Some(p) => {
            let s = p + open_tag(tag).len();
            match find_from(xml, close_tag(tag), s) {
                None => None,
                Some(e) => Some(unescape_spec(xml.subrange(s, e))),
            }
        },
    }
}

/// `<tag>` or `</tag>` as characters.
fn tag_chars(tag: &str, closing: bool) -> (r: Vec<char>)
    ensures
        r@ == (if closing {
            close_tag(tag@)
        } else {
            open_tag(tag@)
        }),
{
    let mut r: Vec<char> = Vec::new();
    r.push('<');
    if closing {
        r.push('/');
    }
    crate::text::push_str_chars(&mut r, tag);
    r.push('>');
    r
}

/// The decoded content of the first `tag` element of `xml`.
pub fn tag_content(xml: &Vec<char>, tag: &str) -> (r: Option<Vec<char>>)
    ensures
        match r {
            Some(v) => tag_content_spec(xml@, tag@) == Some(v@),
            None => tag_content_spec(xml@, tag@) is None,
        },
{
    let open = tag_chars(tag, false);
    let close = tag_chars(tag, true);
    match find_from_exec(xml, &open, 0) {
        None => None,
        Some(p) => {
            proof {
                lemma_find_from(xml@, open@, 0);
            }
            let s = p + open.len();
            match find_from_exec(xml, &close, s) {
                None => None,
                Some(e) => {
                    proof {
                        lemma_find_from(xml@, close@, s as int);
                    }
                    let inner = sub_chars(xml, s, e);
                    let u = unescape(&inner);
                    Some(u)
                },
            }
        },
    }
}

/// `x` where it is a number `f64::from_str` accepts.
pub open spec fn number_text(x: Seq<char>) -> Option<Seq<char>> {
    if is_float_literal(x) {
        Some(x)
    } else {
        None
    }
}

/// `(latitude, longitude)` of a placemark: the second and first comma-separated
/// parts of its trimmed `coordinates`, each trimmed, where they are numbers.
pub open spec fn coords_spec(block: Seq<char>) -> (Option<Seq<char>>, Option<Seq<char>>) {
    match tag_content_spec(block, seq!['c', 'o', 'o', 'r', 'd', 'i', 'n', 'a', 't', 'e', 's']) {
        None => (None, None),
        Some(c) => {
            let t = trim(c);
            match find_from(t, seq![','], 0) {
                None => (None, None),
                Some(i) => {
                    let rest = t.skip(i + 1);
                    let j = match find_from(rest, seq![','], 0) {
                        Some(j) => j,
                        None => rest.len() as int,
                    };
                    (number_text(trim(rest.take(j))), number_text(trim(t.take(i))))
                },
            }
        },
    }
}

/// A number `f64::from_str` accepts holds neither a comma nor whitespace.
proof fn lemma_float_no_comma(x: Seq<char>)
    requires
        is_float_literal(x),
    ensures
        find_from(x, seq![','], 0) is None,
        trim(x) == x,
        forall|k: int| 0 <= k < x.len() ==> #[trigger] x[k] != ',',
{
    lemma_float_chars(x);
    lemma_find_from(x, seq![','], 0);
    if let Some(k) = find_from(x, seq![','], 0) {
        assert(x.subrange(k, k + 1)[0] == x[k]);
        assert(is_float_char(x[k]));
    }
    assert(is_float_char(x[0]) && is_float_char(x.last()));
    lemma_trim_id(x);
}

/// KML coordinates `lon,lat`, or `lon,lat,alt`, whose longitude and latitude
/// are numbers give the placemark that latitude and that longitude: the latitude
/// is the whole second part, whether an altitude follows or not.
pub proof fn lemma_coords_lon_lat(
    block: Seq<char>,
    c: Seq<char>,
    lon: Seq<char>,
    lat: Seq<char>,
    alt: Option<Seq<char>>,
)
    requires
        tag_content_spec(block, seq!['c', 'o', 'o', 'r', 'd', 'i', 'n', 'a', 't', 'e', 's'])
            == Some(c),
        is_float_literal(lon),
        is_float_literal(lat),
        trim(c) == match alt {
            None => lon + seq![','] + lat,
            Some(a) => lon + seq![','] + lat + seq![','] + a,
        },
    ensures
        coords_spec(block) == (Some(lat), Some(lon)),
{
    let t = trim(c);
    lemma_float_no_comma(lon);
    lemma_float_no_comma(lat);
    let i = lon.len() as int;
    assert(t[i] == ',');
    assert forall|k: int| 0 <= k < i implies t[k] != ',' by {
        assert(t[k] == lon[k]);
    }
    lemma_find_char(t, ',', 0, i);
    let rest = t.skip(i + 1);
    assert(t.take(i) =~= lon);
    match alt {
        None => {
            assert(rest =~= lat);
            assert(rest.take(rest.len() as int) =~= lat);
        },
        Some(a) => {
            assert(rest =~= lat + seq![','] + a);
            assert(rest[lat.len() as int] == ',');
            assert forall|k: int| 0 <= k < lat.len() implies rest[k] != ',' by {
                assert(rest[k] == lat[k]);
            }
            lemma_find_char(rest, ',', 0, lat.len() as int);
            assert(rest.take(lat.len() as int) =~= lat);
        },
    }
}

/// `number_text(v)` as a string.
fn number_string(v: &Vec<char>) -> (r: Option<String>)
    ensures
        r.deep_view() == number_text(v@),
{
    if is_float_text(v) {
        let s = string_of(v);
        assert(Some(s).deep_view() == Some(s@));
        Some(s)
    } else {
        None
    }
}

/// The coordinate of a placemark block as `(latitude, longitude)`.
pub fn parse_coords(block: &Vec<char>) -> (r: (Option<String>, Option<String>))
    ensures
        (r.0.deep_view(), r.1.deep_view()) == coords_spec(block@),
{
    proof {
        reveal_strlit("coordinates");
    }
    assert("coordinates"@ == seq!['c', 'o', 'o', 'r', 'd', 'i', 'n', 'a', 't', 'e', 's']);
    let c = match tag_content(block, "coordinates") {
        None => {
            return (None, None);
        },
        Some(c) => c,
    };
    let t = trim_chars(&c);
    let comma = vec![','];
    assert(comma@ == seq![',']);
    match find_from_exec(&t, &comma, 0) {
        None => (None, None),
        Some(i) => {
            proof {
                lemma_find_from(t@, seq![','], 0);
            }
            let rest = sub_chars(&t, i + 1, t.len());
            assert(rest@ == t@.skip(i + 1));
            let j = match find_from_exec(&rest, &comma, 0) {
                Some(j) => {
                    proof {
                        lemma_find_from(rest@, seq![','], 0);
                    }
                    j
                },
                None => rest.len(),
            };
            let p1 = sub_chars(&rest, 0, j);
            let p0 = sub_chars(&t, 0, i);
            assert(p1@ == rest@.take(j as int));
            assert(p0@ == t@.take(i as int));
            let lat = number_string(&trim_chars(&p1));
            let lon = number_string(&trim_chars(&p0));
            (lat, lon)
        },
    }
}

pub open spec fn data_open() -> Seq<char> {
    seq!['<', 'D', 'a', 't', 'a', ' ', 'n', 'a', 'm', 'e', '=', '"']
}

pub open spec fn data_close() -> Seq<char> {
    seq!['<', '/', 'D', 'a', 't', 'a', '>']
}

/// The `(name, value)` pairs of the `<Data name="...">` elements of `xml` from `pos` on.
pub open spec fn extended_data_from(xml: Seq<char>, pos: int) -> Seq<(Seq<char>, Seq<char>)>
    decreases xml.len() - pos,
{
    if pos < 0 {
        seq![]
    } else {
        match find_from(xml, data_open(), pos) {
            None => seq![],
            Some(s) => {
                let ns = s + data_open().len();
                match find_from(xml, seq!['"'], ns) {
                    None => seq![],
                    Some(ne) => match find_from(xml, data_close(), s) {
                        None => seq![],
                        Some(de) => {
                            proof {
                                lemma_find_from(xml, data_close(), s);
                                lemma_find_from(xml, data_open(), pos);
                            }
                            let name = unescape_spec(xml.subrange(ns, ne));
                            let value = match tag_content_spec(
                                xml.subrange(s, de),
                                seq!['v', 'a', 'l', 'u', 'e'],
                            ) {
                                Some(v) => v,
                                None => seq![],
                            };
                            seq![(name, value)] + extended_data_from(xml, de + data_close().len())
                        },
                    },
                }
            },
        }
    }
}

/// The `(name, value)` pairs of a placemark's extended data.
pub fn parse_extended_data(xml: &Vec<char>) -> (r: Vec<(String, String)>)
    ensures
        r.deep_view() == extended_data_from(xml@, 0),
{
    let mut data: Vec<(String, String)> = Vec::new();
    let open = vec!['<', 'D', 'a', 't', 'a', ' ', 'n', 'a', 'm', 'e', '=', '"'];
    let quote = vec!['"'];
    let close = vec!['<', '/', 'D', 'a', 't', 'a', '>'];
    assert(open@ == data_open() && quote@ == seq!['"'] && close@ == data_close());
    proof {
        reveal_strlit("value");
    }
    assert("value"@ == seq!['v', 'a', 'l', 'u', 'e']);
    assert(data.deep_view() == Seq::<(Seq<char>, Seq<char>)>::empty());
    let mut pos: usize = 0;
    loop
        invariant
            pos <= xml@.len(),
            open@ == data_open(),
            quote@ == seq!['"'],
            close@ == data_close(),
            "value"@ == seq!['v', 'a', 'l', 'u', 'e'],
            data.deep_view() + extended_data_from(xml@, pos as int) == extended_data_from(xml@, 0),
        ensures
            data.deep_view() == extended_data_from(xml@, 0),
        decreases xml@.len() - pos,
    {
        let ghost rest = extended_data_from(xml@, pos as int);
        let s = match find_from_exec(xml, &open, pos) {
            Some(s) => s,
            None => {
                assert(rest == Seq::<(Seq<char>, Seq<char>)>::empty());
                assert(data.deep_view() + rest == data.deep_view());
                break;
            },
        };
        let ns = s + open.len();
        let ne = match find_from_exec(xml, &quote, ns) {
            Some(ne) => ne,
            None => {
                assert(rest == Seq::<(Seq<char>, Seq<char>)>::empty());
                assert(data.deep_view() + rest == data.deep_view());
                break;
            },
        };
        let de = match find_from_exec(xml, &close, s) {
            Some(de) => de,
            None => {
                assert(rest == Seq::<(Seq<char>, Seq<char>)>::empty());
                assert(data.deep_view() + rest == data.deep_view());
                break;
            },
        };
        let name = unescape(&sub_chars(xml, ns, ne));
        let value = match tag_content(&sub_chars(xml, s, de), "value") {
            Some(v) => v,
            None => Vec::new(),
        };
        let ghost before = data.deep_view();
        data.push((string_of(&name), string_of(&value)));
        assert(data.deep_view() == before.push((name@, value@)));
        assert(rest == seq![(name@, value@)] + extended_data_from(xml@, de + 7));
        assert(before.push((name@, value@)) + extended_data_from(xml@, de + 7) == before + (seq![
            (name@, value@),
        ] + extended_data_from(xml@, de + 7)));
        pos = de + close.len();
    }
    data
}


pub open spec fn placemark_open() -> Seq<char> {
    seq!['<', 'P', 'l', 'a', 'c', 'e', 'm', 'a', 'r', 'k', '>']
}

pub open spec fn placemark_close() -> Seq<char> {
    seq!['<', '/', 'P', 'l', 'a', 'c', 'e', 'm', 'a', 'r', 'k', '>']
}

pub open spec fn name_key() -> Seq<char> {
    seq!['N', 'a', 'm', 'e']
}

/// What one placemark holds: `(name, latitude, longitude, extended data)`.
pub open spec fn placemark_of_block(block: Seq<char>) -> (
    Seq<char>,
    Option<Seq<char>>,
    Option<Seq<char>>,
    Seq<(Seq<char>, Seq<char>)>,
) {
    let name = match tag_content_spec(block, name_tag()) {
        Some(n) => n,
        None => seq![],
    };
    let c = coords_spec(block);
    (name, c.0, c.1, extended_data_from(block, 0))
}

pub open spec fn name_tag() -> Seq<char> {
    seq!['n', 'a', 'm', 'e']
}

/// The placemarks of `xml` from `pos` on: each runs from a `<Placemark>` to the
/// first `</Placemark>` after it.
pub open spec fn placemarks_from(xml: Seq<char>, pos: int) -> Seq<
    (Seq<char>, Option<Seq<char>>, Option<Seq<char>>, Seq<(Seq<char>, Seq<char>)>),
>
    decreases xml.len() - pos,
{
    if pos < 0 {
        seq![]
    } else {
        match find_from(xml, placemark_open(), pos) {
            None => seq![],
            Some(s) => match find_from(xml, placemark_close(), s) {
                None => seq![],
                Some(e0) => {
                    proof {
                        lemma_find_from(xml, placemark_close(), s);
                        lemma_find_from(xml, placemark_open(), pos);
                    }
                    let e = e0 + placemark_close().len();
                    seq![placemark_of_block(xml.subrange(s, e))] + placemarks_from(xml, e)
                },
            },
        }
    }
}

/// `keys` extended by the names of `data` not already among them, in order.
pub open spec fn add_keys(keys: Seq<Seq<char>>, data: Seq<(Seq<char>, Seq<char>)>) -> Seq<
    Seq<char>,
>
    decreases data.len(),
{
    if data.len() == 0 {
        keys
    } else {
        let k = add_keys(keys, data.drop_last());
        if k.contains(data.last().0) {
            k
        } else {
            k.push(data.last().0)
        }
    }
}

/// The columns of a KML input: `Name`, then every extended-data name in order of
/// first appearance.
pub open spec fn kml_headers(
    pms: Seq<(Seq<char>, Option<Seq<char>>, Option<Seq<char>>, Seq<(Seq<char>, Seq<char>)>)>,
) -> Seq<Seq<char>>
    decreases pms.len(),
{
    if pms.len() == 0 {
        seq![name_key()]
    } else {
        add_keys(kml_headers(pms.drop_last()), pms.last().3)
    }
}

/// The value of the first pair named `key`, or empty.
pub open spec fn lookup(data: Seq<(Seq<char>, Seq<char>)>, key: Seq<char>) -> Seq<char>
    decreases data.len(),
{
    if data.len() == 0 {
        seq![]
    } else if data[0].0 == key {
        data[0].1
    } else {
        lookup(data.drop_first(), key)
    }
}

/// A placemark's fields, one per column: the name under `Name`, else the extended-data value.
pub open spec fn kml_fields(
    keys: Seq<Seq<char>>,
    pm: (Seq<char>, Option<Seq<char>>, Option<Seq<char>>, Seq<(Seq<char>, Seq<char>)>),
) -> Seq<(Seq<char>, Seq<char>)> {
    Seq::new(
        keys.len(),
        |i: int|
            if keys[i] == name_key() {
                (name_key(), pm.0)
            } else {
                (keys[i], lookup(pm.3, keys[i]))
            },
    )
}

/// The records a KML document gives, in document order.
pub open spec fn kml_records(xml: Seq<char>) -> Seq<
    (Seq<(Seq<char>, Seq<char>)>, Option<Seq<char>>, Option<Seq<char>>),
> {
    let pms = placemarks_from(xml, 0);
    let keys = kml_headers(pms);
    Seq::new(pms.len(), |i: int| (kml_fields(keys, pms[i]), pms[i].1, pms[i].2))
}

struct Placemark {
    name: String,
    lat: Option<String>,
    lon: Option<String>,
    data: Vec<(String, String)>,
}

impl Placemark {
    closed spec fn view(&self) -> (
        Seq<char>,
        Option<Seq<char>>,
        Option<Seq<char>>,
        Seq<(Seq<char>, Seq<char>)>,
    ) {
        (self.name@, self.lat.deep_view(), self.lon.deep_view(), self.data.deep_view())
    }
}

fn parse_placemark(block: &Vec<char>) -> (r: Placemark)
    ensures
        r.view() == placemark_of_block(block@),
{
    proof {
        reveal_strlit("name");
    }
    assert("name"@ == name_tag());
    let name = match tag_content(block, "name") {
        Some(n) => string_of(&n),
        None => String::new(),
    };
    let (lat, lon) = parse_coords(block);
    let data = parse_extended_data(block);
    Placemark { name, lat, lon, data }
}

fn extract_placemarks(xml: &Vec<char>) -> (r: Vec<Placemark>)
    ensures
        r@.map_values(|p: Placemark| p.view()) == placemarks_from(xml@, 0),
{
    let mut out: Vec<Placemark> = Vec::new();
    let open = vec!['<', 'P', 'l', 'a', 'c', 'e', 'm', 'a', 'r', 'k', '>'];
    let close = vec!['<', '/', 'P', 'l', 'a', 'c', 'e', 'm', 'a', 'r', 'k', '>'];
    assert(open@ == placemark_open() && close@ == placemark_close());
    let mut pos: usize = 0;
    assert(out@.map_values(|p: Placemark| p.view()) == Seq::<
        (Seq<char>, Option<Seq<char>>, Option<Seq<char>>, Seq<(Seq<char>, Seq<char>)>),
    >::empty());
    loop
        invariant
            pos <= xml@.len(),
            open@ == placemark_open(),
            close@ == placemark_close(),
            out@.map_values(|p: Placemark| p.view()) + placemarks_from(xml@, pos as int)
                == placemarks_from(xml@, 0),
        ensures
            out@.map_values(|p: Placemark| p.view()) == placemarks_from(xml@, 0),
        decreases xml@.len() - pos,
    {
        let ghost rest = placemarks_from(xml@, pos as int);
        let ghost before = out@.map_values(|p: Placemark| p.view());
        let s = match find_from_exec(xml, &open, pos) {
            Some(s) => s,
            None => {
                assert(before + rest == before);
                break;
            },
        };
        let e0 = match find_from_exec(xml, &close, s) {
            Some(e) => e,
            None => {
                assert(before + rest == before);
                break;
            },
        };
        let e = e0 + close.len();
        let block = sub_chars(xml, s, e);
        let pm = parse_placemark(&block);
        let ghost pv = pm.view();
        out.push(pm);
        assert(out@.map_values(|p: Placemark| p.view()) == before.push(pv));
        assert(rest == seq![pv] + placemarks_from(xml@, e as int));
        assert(before.push(pv) + placemarks_from(xml@, e as int) == before + (seq![pv]
            + placemarks_from(xml@, e as int)));
        pos = e;
    }
    out
}

/// Whether `v` holds `s`.
pub fn contains_string(v: &Vec<String>, s: &String) -> (r: bool)
    ensures
        r == v.deep_view().contains(s@),
{
    let mut i: usize = 0;
    while i < v.len()
        invariant
            i <= v@.len(),
            forall|j: int| 0 <= j < i ==> v.deep_view()[j] != s@,
        decreases v@.len() - i,
    {
        if v[i] == *s {
            assert(v.deep_view()[i as int] == s@);
            return true;
        }
        i = i + 1;
    }
    false
}

/// The value of the first pair named `key`, or empty.
pub fn lookup_value(data: &Vec<(String, String)>, key: &String) -> (r: String)
    ensures
        r@ == lookup(data.deep_view(), key@),
{
    let ghost dv = data.deep_view();
    let mut i: usize = 0;
    assert(dv.skip(0) == dv);
    while i < data.len()
        invariant
            i <= data@.len(),
            dv == data.deep_view(),
            lookup(dv, key@) == lookup(dv.skip(i as int), key@),
        decreases data@.len() - i,
    {
        assert(dv.skip(i as int)[0] == dv[i as int]);
        assert(dv.skip(i as int).drop_first() == dv.skip(i + 1));
        if data[i].0 == *key {
            return data[i].1.clone();
        }
        i = i + 1;
    }
    String::new()
}

/// Extends `keys` by the names of `data` not already among them, in order.
pub fn merge_keys(keys: &mut Vec<String>, data: &Vec<(String, String)>)
    ensures
        final(keys).deep_view() == add_keys(old(keys).deep_view(), data.deep_view()),
{
    let ghost base = keys.deep_view();
    let ghost dv = data.deep_view();
    let mut j: usize = 0;
    assert(dv.take(0) == Seq::<(Seq<char>, Seq<char>)>::empty());
    while j < data.len()
        invariant
            j <= data@.len(),
            dv == data.deep_view(),
            keys.deep_view() == add_keys(base, dv.take(j as int)),
        decreases data@.len() - j,
    {
        assert(dv.take(j + 1).drop_last() == dv.take(j as int));
        if !contains_string(keys, &data[j].0) {
            let ghost kb = keys.deep_view();
            keys.push(data[j].0.clone());
            assert(keys.deep_view() =~= kb.push(dv[j as int].0));
        }
        j = j + 1;
    }
    assert(dv.take(data@.len() as int) == dv);
}

/// Reads the placemarks of a KML document.
pub struct KmlInput {
    headers: Vec<String>,
    records: RecordQueue,
}

impl KmlInput {
    /// The columns of the records.
    pub closed spec fn header_names(&self) -> Seq<Seq<char>> {
        self.headers.deep_view()
    }

    /// The records not read yet.
    pub closed spec fn remaining(&self) -> Seq<
        (Seq<(Seq<char>, Seq<char>)>, Option<Seq<char>>, Option<Seq<char>>),
    > {
        self.records.remaining()
    }

    /// A reader over the KML document `input`.
    pub fn new(input: &str) -> (r: Self)
        ensures
            r.header_names() == kml_headers(placemarks_from(input@, 0)),
            r.remaining() == kml_records(input@),
    {
        Self::from_kml_string(input)
    }

    /// A reader over the KML document `xml`.
    pub fn from_kml_string(xml: &str) -> (r: Self)
        ensures
            r.header_names() == kml_headers(placemarks_from(xml@, 0)),
            r.remaining() == kml_records(xml@),
    {
        let cs = chars_of(xml);
        let placemarks = extract_placemarks(&cs);
        let ghost pms = placemarks@.map_values(|p: Placemark| p.view());
        proof {
            reveal_strlit("Name");
        }
        assert("Name"@ == name_key());
        let name_string = "Name".to_string();
        let mut key_order: Vec<String> = Vec::new();
        key_order.push("Name".to_string());
        assert(key_order.deep_view() =~= seq![name_key()]);
        let mut i: usize = 0;
        while i < placemarks.len()
            invariant
                i <= placemarks@.len(),
                pms == placemarks@.map_values(|p: Placemark| p.view()),
                key_order.deep_view() == kml_headers(pms.take(i as int)),
            decreases placemarks@.len() - i,
        {
            assert(pms.take(i + 1).drop_last() == pms.take(i as int));
            merge_keys(&mut key_order, &placemarks[i].data);
            i = i + 1;
        }
        assert(pms.take(placemarks@.len() as int) == pms);
        let ghost keys = key_order.deep_view();
        let mut records: Vec<InputRecord> = Vec::new();
        let mut i: usize = 0;
        while i < placemarks.len()
            invariant
                i <= placemarks@.len(),
                pms == placemarks@.map_values(|p: Placemark| p.view()),
                name_string@ == name_key(),
                keys == key_order.deep_view(),
                keys == kml_headers(pms),
                record_views(records@) == Seq::new(
                    i as nat,
                    |k: int| (kml_fields(keys, pms[k]), pms[k].1, pms[k].2),
                ),
            decreases placemarks@.len() - i,
        {
            let pm = &placemarks[i];
            let mut fields: Vec<(String, String)> = Vec::new();
            let mut k: usize = 0;
            while k < key_order.len()
                invariant
                    k <= key_order@.len(),
                    keys == key_order.deep_view(),
                    name_string@ == name_key(),
                    i < pms.len(),
                    pm.view() == pms[i as int],
                    fields.deep_view() == kml_fields(keys, pms[i as int]).take(k as int),
                decreases key_order@.len() - k,
            {
                let key = &key_order[k];
                let ghost fb = fields.deep_view();
                assert(keys[k as int] == key@);
                let ghost want = kml_fields(keys, pms[i as int])[k as int];
                if *key == name_string {
                    let a = name_string.clone();
                    let b = pm.name.clone();
                    assert((a@, b@) == want);
                    fields.push((a, b));
                    assert(fields.deep_view() =~= fb.push(want));
                } else {
                    let v = lookup_value(&pm.data, key);
                    let a = key.clone();
                    assert((a@, v@) == want);
                    fields.push((a, v));
                    assert(fields.deep_view() =~= fb.push(want));
                }
                assert(fields.deep_view() =~= kml_fields(keys, pms[i as int]).take(k + 1));
                k = k + 1;
            }
            assert(kml_fields(keys, pms[i as int]).take(key_order@.len() as int) == kml_fields(
                keys,
                pms[i as int],
            ));
            let ghost rb = record_views(records@);
            records.push(
                InputRecord { fields, latitude: pm.lat.clone(), longitude: pm.lon.clone() },
            );
            assert(record_views(records@) =~= rb.push(
                (kml_fields(keys, pms[i as int]), pms[i as int].1, pms[i as int].2),
            ));
            i = i + 1;
        }
        let q = RecordQueue::new(records);
        assert(q.remaining() =~= kml_records(xml@));
        KmlInput { headers: key_order, records: q }
    }

    /// The columns of the records.
    pub fn headers(&self) -> (r: Vec<String>)
        ensures
            r.deep_view() == self.header_names(),
    {
        clone_strings(&self.headers)
    }

    /// The next record, if any.
    pub fn next_record(&mut self) -> (r: Option<InputRecord>)
        ensures
            final(self).header_names() == old(self).header_names(),
            match r {
                Some(x) => old(self).remaining().len() > 0 && x@ == old(self).remaining()[0]
                    && final(self).remaining() == old(self).remaining().drop_first(),
                None => old(self).remaining().len() == 0 && final(self).remaining() == old(
                    self,
                ).remaining(),
            },
    {
        self.records.next()
    }
}

/// The place of `c` in the order in which reading decodes the entities
/// (`&`, `<`, `>`, `"`, `'`); 5 for any other character.
pub open spec fn entity_rank(c: char) -> nat {
    if c == '&' {
        0
    } else if c == '<' {
        1
    } else if c == '>' {
        2
    } else if c == '"' {
        3
    } else if c == '\'' {
        4
    } else {
        5
    }
}

/// The character whose entity reading decodes in step `k`.
pub open spec fn decoded_char(k: nat) -> char {
    if k == 0 {
        '&'
    } else if k == 1 {
        '<'
    } else if k == 2 {
        '>'
    } else if k == 3 {
        '"'
    } else {
        '\''
    }
}

/// How `c` stands in escaped text once the first `k` entities are decoded.
pub open spec fn staged_char(c: char, k: nat) -> Seq<char> {
    if entity_rank(c) < k {
        seq![c]
    } else {
        escape_char(c)
    }
}

/// Escaped `s` once the first `k` entities are decoded.
pub open spec fn staged(s: Seq<char>, k: nat) -> Seq<char>
    decreases s.len(),
{
    if s.len() == 0 {
        seq![]
    } else {
        staged_char(s[0], k) + staged(s.drop_first(), k)
    }
}

proof fn lemma_staged_push(s: Seq<char>, c: char, k: nat)
    ensures
        staged(s.push(c), k) == staged(s, k) + staged_char(c, k),
    decreases s.len(),
{
    if s.len() == 0 {
        assert(s.push(c).drop_first() =~= Seq::<char>::empty());
        assert(staged(s.push(c).drop_first(), k) =~= Seq::<char>::empty());
        assert(s.push(c)[0] == c);
        assert(staged(s.push(c), k) =~= staged_char(c, k));
    } else {
        assert(s.push(c).drop_first() =~= s.drop_first().push(c));
        lemma_staged_push(s.drop_first(), c, k);
        assert(s.push(c)[0] == s[0]);
        assert(staged(s.push(c), k) =~= staged(s, k) + staged_char(c, k));
    }
}

proof fn lemma_staged_escape(s: Seq<char>)
    ensures
        staged(s, 0) == escape_xml_spec(s),
    decreases s.len(),
{
    if s.len() > 0 {
        lemma_staged_escape(s.drop_last());
        lemma_staged_push(s.drop_last(), s.last(), 0);
        assert(s.drop_last().push(s.last()) =~= s);
    }
}

proof fn lemma_staged_done(s: Seq<char>)
    ensures
        staged(s, 5) == s,
    decreases s.len(),
{
    if s.len() > 0 {
        lemma_staged_done(s.drop_first());
        assert(staged_char(s[0], 5) =~= seq![s[0]]);
        assert(seq![s[0]] + s.drop_first() =~= s);
    }
}

/// Escaped text that begins with characters none of which is `&` begins with
/// the same characters unescaped.
proof fn lemma_staged_prefix(t: Seq<char>, k: nat, q: Seq<char>)
    requires
        forall|m: int| 0 <= m < q.len() ==> #[trigger] q[m] != '&',
        staged(t, k).len() >= q.len(),
        staged(t, k).subrange(0, q.len() as int) == q,
    ensures
        t.len() >= q.len(),
        t.subrange(0, q.len() as int) == q,
    decreases q.len(),
{
    if q.len() > 0 {
        let h = staged(t, k);
        assert(h[0] == q[0]);
        assert(t.len() > 0);
        let e = staged_char(t[0], k);
        assert(h == e + staged(t.drop_first(), k));
        assert(h[0] == e[0]);
        assert(e =~= seq![t[0]]);
        let t1 = t.drop_first();
        let q1 = q.drop_first();
        assert forall|m: int| 0 <= m < q1.len() implies #[trigger] q1[m] != '&' by {
            assert(q1[m] == q[m + 1]);
        }
        assert(staged(t1, k) =~= h.drop_first());
        assert(staged(t1, k).subrange(0, q1.len() as int) =~= q1);
        lemma_staged_prefix(t1, k, q1);
        assert(t.subrange(0, q.len() as int) =~= seq![t[0]] + t1.subrange(0, q1.len() as int));
    }
}

/// Where the first character of `s` is not the one decoded in step `k`, the
/// entity of that step starts nowhere within the first character's text.
#[verifier::spinoff_prover]
proof fn lemma_no_match_head(s: Seq<char>, k: nat)
    requires
        s.len() > 0,
        k < 5,
        entity_rank(s[0]) != k,
        k >= 1 ==> !matches_at(s, escape_char(decoded_char(k)), 0),
    ensures
        forall|j: int|
            0 <= j < staged_char(s[0], k).len() ==> !matches_at(
                staged(s, k),
                escape_char(decoded_char(k)),
                j,
            ),
{
    let pat = escape_char(decoded_char(k));
    let c = s[0];
    let t = s.drop_first();
    let e = staged_char(c, k);
    let h = staged(s, k);
    assert(h == e + staged(t, k));
    assert forall|j: int| 0 <= j < e.len() implies !matches_at(h, pat, j) by {
        if matches_at(h, pat, j) {
            lemma_match_char(h, pat, j, 0);
            assert(h[j] == e[j]);
            if entity_rank(c) < k {
                assert(e =~= seq![c]);
                let q = pat.drop_first();
                assert forall|m: int| 0 <= m < q.len() implies #[trigger] q[m] != '&' by {
                    assert(q[m] == pat[m + 1]);
                }
                assert(h.drop_first() =~= staged(t, k));
                assert(h.subrange(0, pat.len() as int) =~= pat);
                assert(staged(t, k).subrange(0, q.len() as int) =~= q);
                lemma_staged_prefix(t, k, q);
                assert(seq![pat[0]] + q =~= pat);
                assert(s.subrange(0, pat.len() as int) =~= seq![c] + t.subrange(0, q.len() as int));
            } else if entity_rank(c) < 5 {
                lemma_match_char(h, pat, j, 1);
                lemma_match_char(h, pat, j, 2);
                assert(h[j + 1] == e[j + 1]);
                assert(h[j + 2] == e[j + 2]);
            }
        }
    }
}

/// Decoding step `k` turns escaped text at step `k` into escaped text at step
/// `k + 1`, where the text does not itself hold the entity of that step (for the
/// steps after `&amp;`).
#[verifier::spinoff_prover]
proof fn lemma_decode_step(s: Seq<char>, k: nat)
    requires
        k < 5,
        k >= 1 ==> forall|i: int| !matches_at(s, escape_char(decoded_char(k)), i),
    ensures
        replace_all(staged(s, k), escape_char(decoded_char(k)), seq![decoded_char(k)]) == staged(
            s,
            k + 1,
        ),
    decreases s.len(),
{
    let pat = escape_char(decoded_char(k));
    let rep = seq![decoded_char(k)];
    if s.len() > 0 {
        let c = s[0];
        let t = s.drop_first();
        let e = staged_char(c, k);
        let h = staged(s, k);
        assert(h == e + staged(t, k));
        if k >= 1 {
            assert forall|i: int| !matches_at(t, pat, i) by {
                if matches_at(t, pat, i) {
                    assert(s.subrange(i + 1, i + 1 + pat.len()) =~= t.subrange(i, i + pat.len()));
                    assert(matches_at(s, pat, i + 1));
                }
            }
        }
        lemma_decode_step(t, k);
        if entity_rank(c) == k {
            assert(e == pat);
            assert(h.subrange(0, pat.len() as int) =~= pat);
            assert(h.skip(pat.len() as int) =~= staged(t, k));
            assert(staged_char(c, k + 1) =~= rep);
        } else {
            assert(e == staged_char(c, k + 1));
            lemma_no_match_head(s, k);
            lemma_replace_prefix(e, staged(t, k), pat, rep);
        }
    }
}

/// Reading decodes what writing escaped: text that holds none of `&lt;`,
/// `&gt;`, `&quot;` and `&apos;` comes back unchanged.
pub proof fn lemma_unescape_escape(s: Seq<char>)
    requires
        forall|i: int| !matches_at(s, seq!['&', 'l', 't', ';'], i),
        forall|i: int| !matches_at(s, seq!['&', 'g', 't', ';'], i),
        forall|i: int| !matches_at(s, seq!['&', 'q', 'u', 'o', 't', ';'], i),
        forall|i: int| !matches_at(s, seq!['&', 'a', 'p', 'o', 's', ';'], i),
    ensures
        unescape_spec(escape_xml_spec(s)) == s,
{
    lemma_staged_escape(s);
    assert(escape_char(decoded_char(0)) == seq!['&', 'a', 'm', 'p', ';']);
    assert(escape_char(decoded_char(1)) == seq!['&', 'l', 't', ';']);
    assert(escape_char(decoded_char(2)) == seq!['&', 'g', 't', ';']);
    assert(escape_char(decoded_char(3)) == seq!['&', 'q', 'u', 'o', 't', ';']);
    assert(escape_char(decoded_char(4)) == seq!['&', 'a', 'p', 'o', 's', ';']);
    lemma_decode_step(s, 0);
    lemma_decode_step(s, 1);
    lemma_decode_step(s, 2);
    lemma_decode_step(s, 3);
    lemma_decode_step(s, 4);
    lemma_staged_done(s);
}

} // verus!
