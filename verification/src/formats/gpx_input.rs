//! GPX input: waypoints, their names and coordinates.
use vstd::prelude::*;
use crate::formats::gpx::{gpx_document, waypoint_text, GPX_HEAD, GPX_TAIL};
use crate::formats::kml::{display_name, lemma_display_name_no_lt, no_lt};
use crate::formats::kml_input::{
    name_key, name_tag, number_text, tag_content, tag_content_spec, unescape_spec,
};
use crate::formats::{
    clone_strings, join, lemma_join_front, record_views, sep_tail, InputRecord, RecordQueue,
};
use crate::lexical::{is_float_char, is_float_literal, is_float_text, lemma_float_chars};
use crate::text::{
    chars_of, find_from, find_from_exec, lemma_find_at, lemma_find_char, lemma_find_from,
    lemma_find_from_shift, lemma_find_skip, lemma_match_char, matches_at, string_of, sub_chars,
};

verus! {

/// The text between `name="` and the next `"` in `tag`, at the first `name="`.
pub open spec fn attr_spec(tag: Seq<char>, name: Seq<char>) -> Option<Seq<char>> {
    let pat = name + seq!['=', '"'];
    match find_from(tag, pat, 0) {
        None => None,
        Some(p) => {
            let s = p + pat.len();
            match find_from(tag, seq!['"'], s) {
                None => None,
                Some(e) => Some(tag.subrange(s, e)),
            }
        },
    }
}

/// The value of attribute `name` in `tag`.
pub fn attr(tag: &Vec<char>, name: &str) -> (r: Option<Vec<char>>)
    ensures
        match r {
            Some(v) => attr_spec(tag@, name@) == Some(v@),
            None => attr_spec(tag@, name@) is None,
        },
{
    let mut pat = chars_of(name);
    pat.push('=');
    pat.push('"');
    assert(pat@ == name@ + seq!['=', '"']);
    let quote = vec!['"'];
    assert(quote@ == seq!['"']);
    match find_from_exec(tag, &pat, 0) {
        None => None,
        Some(p) => {
            let s = p + pat.len();
            match find_from_exec(tag, &quote, s) {
                None => None,
                Some(e) => Some(sub_chars(tag, s, e)),
            }
        },
    }
}

pub open spec fn wpt_open() -> Seq<char> {
    seq!['<', 'w', 'p', 't', ' ']
}

pub open spec fn wpt_close() -> Seq<char> {
    seq!['<', '/', 'w', 'p', 't', '>']
}

pub open spec fn lat_name() -> Seq<char> {
    seq!['l', 'a', 't']
}

pub open spec fn lon_name() -> Seq<char> {
    seq!['l', 'o', 'n']
}

/// `attr_spec(block, name)` where it is a number.
pub open spec fn number_attr(block: Seq<char>, name: Seq<char>) -> Option<Seq<char>> {
    match attr_spec(block, name) {
        Some(v) => number_text(v),
        None => None,
    }
}

/// What one waypoint holds: `(name, latitude, longitude)`.
pub open spec fn waypoint_of_block(block: Seq<char>) -> (
    Seq<char>,
    Option<Seq<char>>,
    Option<Seq<char>>,
) {
    let name = match tag_content_spec(block, name_tag()) {
        Some(n) => n,
        None => seq![],
    };
    (name, number_attr(block, lat_name()), number_attr(block, lon_name()))
}

/// The waypoints of `xml` from `pos` on: each runs from a `<wpt ` to the first
/// `</wpt>` after it.
pub open spec fn waypoints_from(xml: Seq<char>, pos: int) -> Seq<
    (Seq<char>, Option<Seq<char>>, Option<Seq<char>>),
>
    decreases xml.len() - pos,
{
    if pos < 0 {
        seq![]
    } else {
        match find_from(xml, wpt_open(), pos) {
            None => seq![],
            Some(s) => match find_from(xml, wpt_close(), s) {
                None => seq![],
                Some(e0) => {
                    proof {
                        lemma_find_from(xml, wpt_close(), s);
                        lemma_find_from(xml, wpt_open(), pos);
                    }
                    let e = e0 + wpt_close().len();
                    seq![waypoint_of_block(xml.subrange(s, e))] + waypoints_from(xml, e)
                },
            },
        }
    }
}

/// The record of a waypoint: its name under `Name`, and its coordinate.
pub open spec fn gpx_record(w: (Seq<char>, Option<Seq<char>>, Option<Seq<char>>)) -> (
    Seq<(Seq<char>, Seq<char>)>,
    Option<Seq<char>>,
    Option<Seq<char>>,
) {
    (seq![(name_key(), w.0)], w.1, w.2)
}

/// The records a GPX document gives, in document order.
pub open spec fn gpx_records(xml: Seq<char>) -> Seq<
    (Seq<(Seq<char>, Seq<char>)>, Option<Seq<char>>, Option<Seq<char>>),
> {
    waypoints_from(xml, 0).map_values(
        |w: (Seq<char>, Option<Seq<char>>, Option<Seq<char>>)| gpx_record(w),
    )
}

fn number_attr_exec(block: &Vec<char>, name: &str) -> (r: Option<String>)
    ensures
        r.deep_view() == number_attr(block@, name@),
{
    match attr(block, name) {
        None => None,
        Some(v) => {
            if is_float_text(&v) {
                let s = string_of(&v);
                assert(Some(s).deep_view() == Some(s@));
                Some(s)
            } else {
                None
            }
        },
    }
}

fn waypoint_record(block: &Vec<char>) -> (r: InputRecord)
    ensures
        r@ == gpx_record(waypoint_of_block(block@)),
{
    proof {
        reveal_strlit("name");
        reveal_strlit("lat");
        reveal_strlit("lon");
        reveal_strlit("Name");
    }
    assert("name"@ == name_tag() && "lat"@ == lat_name() && "lon"@ == lon_name() && "Name"@
        == name_key());
    let lat = number_attr_exec(block, "lat");
    let lon = number_attr_exec(block, "lon");
    let name = match tag_content(block, "name") {
        Some(n) => string_of(&n),
        None => String::new(),
    };
    let mut fields: Vec<(String, String)> = Vec::new();
    let key = "Name".to_string();
    fields.push((key, name));
    let r = InputRecord { fields, latitude: lat, longitude: lon };
    assert(r.fields.deep_view() =~= seq![(name_key(), name@)]);
    r
}

/// Reads the waypoints of a GPX document.
pub struct GpxInput {
    headers: Vec<String>,
    records: RecordQueue,
}

impl GpxInput {
    /// The columns of the records: `Name`.
    pub closed spec fn header_names(&self) -> Seq<Seq<char>> {
        self.headers.deep_view()
    }

    /// The records not read yet.
    pub closed spec fn remaining(&self) -> Seq<
        (Seq<(Seq<char>, Seq<char>)>, Option<Seq<char>>, Option<Seq<char>>),
    > {
        self.records.remaining()
    }

    /// A reader over the GPX document `input`.
    pub fn new(input: &str) -> (r: Self)
        ensures
            r.header_names() == seq![name_key()],
            r.remaining() == gpx_records(input@),
    {
        let xml = chars_of(input);
        let open = vec!['<', 'w', 'p', 't', ' '];
        let close = vec!['<', '/', 'w', 'p', 't', '>'];
        assert(open@ == wpt_open() && close@ == wpt_close());
        let mut records: Vec<InputRecord> = Vec::new();
        let mut pos: usize = 0;
        let ghost all = waypoints_from(xml@, 0).map_values(
            |w: (Seq<char>, Option<Seq<char>>, Option<Seq<char>>)| gpx_record(w),
        );
        assert(record_views(records@) == Seq::<
            (Seq<(Seq<char>, Seq<char>)>, Option<Seq<char>>, Option<Seq<char>>),
        >::empty());
        loop
            invariant
                pos <= xml@.len(),
                open@ == wpt_open(),
                close@ == wpt_close(),
                all == waypoints_from(xml@, 0).map_values(
                    |w: (Seq<char>, Option<Seq<char>>, Option<Seq<char>>)| gpx_record(w),
                ),
                record_views(records@) + waypoints_from(xml@, pos as int).map_values(
                    |w: (Seq<char>, Option<Seq<char>>, Option<Seq<char>>)| gpx_record(w),
                ) == all,
            ensures
                record_views(records@) == all,
            decreases xml@.len() - pos,
        {
            let ghost rest = waypoints_from(xml@, pos as int);
            let ghost before = record_views(records@);
            let s = match find_from_exec(&xml, &open, pos) {
                Some(s) => s,
                None => {
                    assert(rest.map_values(
                        |w: (Seq<char>, Option<Seq<char>>, Option<Seq<char>>)| gpx_record(w),
                    ) =~= Seq::empty());
                    assert(before + Seq::empty() == before);
                    break;
                },
            };
            let e0 = match find_from_exec(&xml, &close, s) {
                Some(e) => e,
                None => {
                    assert(rest.map_values(
                        |w: (Seq<char>, Option<Seq<char>>, Option<Seq<char>>)| gpx_record(w),
                    ) =~= Seq::empty());
                    assert(before + Seq::empty() == before);
                    break;
                },
            };
            let e = e0 + close.len();
            let block = sub_chars(&xml, s, e);
            let rec = waypoint_record(&block);
            let ghost rv = rec@;
            records.push(rec);
            let ghost tail = waypoints_from(xml@, e as int);
            assert(rest == seq![waypoint_of_block(xml@.subrange(s as int, e as int))] + tail);
            assert(rest.map_values(
                |w: (Seq<char>, Option<Seq<char>>, Option<Seq<char>>)| gpx_record(w),
            ) =~= seq![rv] + tail.map_values(
                |w: (Seq<char>, Option<Seq<char>>, Option<Seq<char>>)| gpx_record(w),
            ));
            assert(record_views(records@) =~= before.push(rv));
            assert(before.push(rv) + tail.map_values(
                |w: (Seq<char>, Option<Seq<char>>, Option<Seq<char>>)| gpx_record(w),
            ) =~= before + (seq![rv] + tail.map_values(
                |w: (Seq<char>, Option<Seq<char>>, Option<Seq<char>>)| gpx_record(w),
            )));
            pos = e;
        }
        let mut headers: Vec<String> = Vec::new();
        proof {
            reveal_strlit("Name");
        }
        assert("Name"@ == name_key());
        headers.push("Name".to_string());
        assert(headers.deep_view() =~= seq![name_key()]);
        GpxInput { headers, records: RecordQueue::new(records) }
    }

    /// The columns of the records.
    pub fn headers(&self) -> (r: Vec<String>)
        ensures
            r.deep_view() == self.header_names(),
    {
        clone_strings(&self.headers)
    }

    /// The next record, if any.
    pub fn next_record(&mut self) -> (r: Option<InputRecord>)
        ensures
            final(self).header_names() == old(self).header_names(),
            match r {
                Some(x) => old(self).remaining().len() > 0 && x@ == old(self).remaining()[0]
                    && final(self).remaining() == old(self).remaining().drop_first(),
                None => old(self).remaining().len() == 0 && final(self).remaining() == old(
                    self,
                ).remaining(),
            },
    {
        self.records.next()
    }
}


/// The waypoint text `waypoint_text(lat, lon, name)` without its two leading spaces.
pub open spec fn waypoint_block(lat: Seq<char>, lon: Seq<char>, name: Seq<char>) -> Seq<char> {
    seq!['<', 'w', 'p', 't', ' ', 'l', 'a', 't', '=', '"'] + lat + seq!['"', ' ', 'l', 'o', 'n', '=', '"']
        + lon + seq!['"', '>', '\n', ' ', ' ', ' ', ' ', '<', 'n', 'a', 'm', 'e', '>'] + name + seq![
        '<',
        '/',
        'n',
        'a',
        'm',
        'e',
        '>',
        '\n',
        ' ',
        ' ',
        '<',
        '/',
        'w',
        'p',
        't',
        '>',
    ]
}

proof fn lemma_float_plain(x: Seq<char>)
    requires
        is_float_literal(x),
    ensures
        forall|j: int|
            0 <= j < x.len() ==> #[trigger] x[j] != '<' && x[j] != '"' && x[j] != '=' && x[j]
                != '>',
{
    lemma_float_chars(x);
    assert forall|j: int| 0 <= j < x.len() implies #[trigger] x[j] != '<' && x[j] != '"' && x[j]
        != '=' && x[j] != '>' by {
        assert(is_float_char(x[j]));
    }
}

/// A written waypoint reads back as its name, latitude and longitude.
#[verifier::spinoff_prover]
proof fn lemma_waypoint_block(lat: Seq<char>, lon: Seq<char>, name: Seq<char>)
    requires
        is_float_literal(lat),
        is_float_literal(lon),
        no_lt(name),
    ensures
        waypoint_of_block(waypoint_block(lat, lon, name)) == (
            unescape_spec(name),
            Some(lat),
            Some(lon),
        ),
{
    lemma_float_plain(lat);
    lemma_float_plain(lon);
    let b = waypoint_block(lat, lon, name);
    let nl = lat.len() as int;
    let nn = lon.len() as int;
    let nm = name.len() as int;
    // `lat="` at 5, its value up to the next quote.
    let pat_lat = lat_name() + seq!['=', '"'];
    assert(b.subrange(5, 10) =~= pat_lat);
    assert forall|j: int| 0 <= j < 5 implies !matches_at(b, pat_lat, j) by {
        if matches_at(b, pat_lat, j) {
            lemma_match_char(b, pat_lat, j, 0);
        }
    }
    lemma_find_at(b, pat_lat, 0, 5);
    assert forall|j: int| 10 <= j < 10 + nl implies b[j] != '"' by {
        assert(b[j] == lat[j - 10]);
    }
    lemma_find_char(b, '"', 10, 10 + nl);
    assert(b.subrange(10, 10 + nl) =~= lat);
    // `lon="` after the latitude.
    let pat_lon = lon_name() + seq!['=', '"'];
    let ol = 10 + nl + 2;
    assert(b.subrange(ol, ol + 5) =~= pat_lon);
    assert forall|j: int| 0 <= j < ol implies !matches_at(b, pat_lon, j) by {
        if matches_at(b, pat_lon, j) {
            lemma_match_char(b, pat_lon, j, 1);
            lemma_match_char(b, pat_lon, j, 3);
            if 10 <= j + 3 < 10 + nl {
                assert(b[j + 3] == lat[j + 3 - 10]);
            }
        }
    }
    lemma_find_at(b, pat_lon, 0, ol);
    assert forall|j: int| ol + 5 <= j < ol + 5 + nn implies b[j] != '"' by {
        assert(b[j] == lon[j - ol - 5]);
    }
    lemma_find_char(b, '"', ol + 5, ol + 5 + nn);
    assert(b.subrange(ol + 5, ol + 5 + nn) =~= lon);
    // The name element.
    let open = crate::formats::kml_input::open_tag(name_tag());
    let close = crate::formats::kml_input::close_tag(name_tag());
    let on = ol + 5 + nn + 7;
    assert(b.subrange(on, on + 6) =~= open);
    assert forall|j: int| 0 <= j < on implies !matches_at(b, open, j) by {
        if matches_at(b, open, j) {
            lemma_match_char(b, open, j, 0);
            lemma_match_char(b, open, j, 1);
            if 10 <= j < 10 + nl {
                assert(b[j] == lat[j - 10]);
            } else if ol + 5 <= j < ol + 5 + nn {
                assert(b[j] == lon[j - ol - 5]);
            }
        }
    }
    lemma_find_at(b, open, 0, on);
    let cs = on + 6;
    assert(b.subrange(cs + nm, cs + nm + 7) =~= close);
    assert forall|j: int| cs <= j < cs + nm implies !matches_at(b, close, j) by {
        if matches_at(b, close, j) {
            lemma_match_char(b, close, j, 0);
            assert(b[j] == name[j - cs]);
        }
    }
    lemma_find_at(b, close, cs, cs + nm);
    assert(b.subrange(cs, cs + nm) =~= name);
}

/// No `<` of `q` is followed by `w`: no `<wpt ` starts in `q`.
pub open spec fn no_wpt_start(q: Seq<char>) -> bool {
    forall|j: int|
        0 <= j < q.len() && #[trigger] q[j] == '<' ==> j + 1 < q.len() && q[j + 1] != 'w'
}

/// Reading from inside the second part of `x + y` reads `y`.
proof fn lemma_waypoints_shift(x: Seq<char>, y: Seq<char>, i: int)
    requires
        0 <= i,
    ensures
        waypoints_from(x + y, x.len() + i) == waypoints_from(y, i),
    decreases y.len() + 1 - i,
{
    let n = x.len() as int;
    let s = x + y;
    lemma_find_from_shift(x, y, wpt_open(), i);
    lemma_find_from(y, wpt_open(), i);
    match find_from(y, wpt_open(), i) {
        None => {},
        Some(st) => {
            lemma_find_from_shift(x, y, wpt_close(), st);
            lemma_find_from(y, wpt_close(), st);
            match find_from(y, wpt_close(), st) {
                None => {},
                Some(e0) => {
                    let e = e0 + 6;
                    assert(s.subrange(st + n, e0 + n + 6) =~= y.subrange(st, e));
                    lemma_waypoints_shift(x, y, e);
                    assert(e0 + n + 6 == n + e);
                },
            }
        },
    }
}

/// In a written waypoint followed by anything, the first `</wpt>` is the waypoint's own.
#[verifier::spinoff_prover]
proof fn lemma_block_close(lat: Seq<char>, lon: Seq<char>, name: Seq<char>, r: Seq<char>)
    requires
        is_float_literal(lat),
        is_float_literal(lon),
        no_lt(name),
    ensures
        find_from(waypoint_block(lat, lon, name) + r, wpt_close(), 0) == Some(
            waypoint_block(lat, lon, name).len() - 6,
        ),
{
    lemma_float_plain(lat);
    lemma_float_plain(lon);
    let b = waypoint_block(lat, lon, name);
    let h = b + r;
    let nl = lat.len() as int;
    let nn = lon.len() as int;
    let nm = name.len() as int;
    let ce = b.len() - 6;
    assert(h.subrange(ce, ce + 6) =~= wpt_close());
    assert forall|k: int| 0 <= k < ce implies !matches_at(h, wpt_close(), k) by {
        if matches_at(h, wpt_close(), k) {
            lemma_match_char(h, wpt_close(), k, 0);
            lemma_match_char(h, wpt_close(), k, 1);
            lemma_match_char(h, wpt_close(), k, 2);
            assert(h[k] == b[k]);
            assert(h[k + 1] == b[k + 1]);
            assert(h[k + 2] == b[k + 2]);
            if 10 <= k < 10 + nl {
                assert(b[k] == lat[k - 10]);
            } else if 17 + nl <= k < 17 + nl + nn {
                assert(b[k] == lon[k - 17 - nl]);
            } else if 30 + nl + nn <= k < 30 + nl + nn + nm {
                assert(b[k] == name[k - 30 - nl - nn]);
            }
        }
    }
    lemma_find_at(h, wpt_close(), 0, ce);
}

/// After text `q` in which no waypoint starts, the first `<wpt ` is two
/// characters into `t`, where `t` begins with two spaces and `<wpt `.
proof fn lemma_open_after(q: Seq<char>, t: Seq<char>)
    requires
        no_wpt_start(q),
        t.len() >= 7,
        t.take(7) == seq![' ', ' ', '<', 'w', 'p', 't', ' '],
    ensures
        find_from(q + t, wpt_open(), 0) == Some(q.len() + 2int),
{
    let h = q + t;
    let o = q.len() as int;
    assert(t[2] == t.take(7)[2] && t[3] == t.take(7)[3] && t[4] == t.take(7)[4] && t[5] == t.take(
        7,
    )[5] && t[6] == t.take(7)[6] && t[0] == t.take(7)[0] && t[1] == t.take(7)[1]);
    assert(h.subrange(o + 2, o + 7) =~= wpt_open());
    assert forall|j: int| 0 <= j < o + 2 implies !matches_at(h, wpt_open(), j) by {
        if matches_at(h, wpt_open(), j) {
            lemma_match_char(h, wpt_open(), j, 0);
            lemma_match_char(h, wpt_open(), j, 1);
            if j < o {
                assert(h[j] == q[j]);
                assert(h[j + 1] == q[j + 1]);
            }
        }
    }
    lemma_find_at(h, wpt_open(), 0, o + 2);
}

/// After text `q` in which no waypoint starts, a written waypoint is read back,
/// and reading goes on after it.
#[verifier::spinoff_prover]
proof fn lemma_waypoint_step(
    q: Seq<char>,
    lat: Seq<char>,
    lon: Seq<char>,
    name: Seq<char>,
    r: Seq<char>,
)
    requires
        no_wpt_start(q),
        is_float_literal(lat),
        is_float_literal(lon),
        no_lt(name),
    ensures
        waypoints_from(q + waypoint_text(lat, lon, name) + r, 0) == seq![
            (unescape_spec(name), Some(lat), Some(lon)),
        ] + waypoints_from(r, 0),
{
    reveal_strlit("  <wpt lat=\"");
    reveal_strlit("\" lon=\"");
    reveal_strlit("\">\n    <name>");
    reveal_strlit("</name>\n  </wpt>");
    let b = waypoint_block(lat, lon, name);
    let w = waypoint_text(lat, lon, name);
    let sp = seq![' ', ' '];
    assert(w =~= sp + b);
    let h = q + w + r;
    let o = q.len() as int;
    assert((w + r).take(7) =~= seq![' ', ' ', '<', 'w', 'p', 't', ' ']);
    assert(h =~= q + (w + r));
    lemma_open_after(q, w + r);
    lemma_waypoint_block(lat, lon, name);
    lemma_block_close(lat, lon, name, r);
    assert(h =~= (q + sp) + (b + r));
    lemma_find_from_shift(q + sp, b + r, wpt_close(), 0);
    assert((q + sp).len() + 0 == o + 2);
    assert(h.subrange(o + 2, o + 2 + b.len()) =~= b);
    assert(h =~= (q + w) + r);
    lemma_waypoints_shift(q + w, r, 0);
    assert(o + 2 + b.len() == (q + w).len() + 0);
}

/// Text in which no waypoint starts holds no waypoint.
proof fn lemma_no_waypoints(h: Seq<char>)
    requires
        no_wpt_start(h),
    ensures
        waypoints_from(h, 0) == Seq::<(Seq<char>, Option<Seq<char>>, Option<Seq<char>>)>::empty(),
{
    assert forall|j: int| 0 <= j < h.len() implies !matches_at(h, wpt_open(), j) by {
        if matches_at(h, wpt_open(), j) {
            lemma_match_char(h, wpt_open(), j, 0);
            lemma_match_char(h, wpt_open(), j, 1);
        }
    }
    lemma_find_skip(h, wpt_open(), 0, h.len() as int);
}

#[verifier::spinoff_prover]
proof fn lemma_gpx_frame()
    ensures
        no_wpt_start(GPX_HEAD@),
        no_wpt_start(GPX_TAIL@),
        no_wpt_start(seq!['\n']),
        no_wpt_start(GPX_HEAD@ + GPX_TAIL@),
{
    reveal_strlit(
        "<?xml version=\"1.0\" encoding=\"UTF-8\"?>\n<gpx version=\"1.1\" creator=\"mgrs\"\n     xmlns=\"http://www.topografix.com/GPX/1/1\">\n",
    );
    reveal_strlit("\n</gpx>\n");
    let h = GPX_HEAD@;
    let t = GPX_TAIL@;
    assert(forall|j: int| 0 <= j < h.len() ==> (#[trigger] h[j] == '<' ==> j == 0 || j == 39));
    assert(forall|j: int| 0 <= j < t.len() ==> (#[trigger] t[j] == '<' ==> j == 1));
    let ht = h + t;
    assert forall|j: int| 0 <= j < ht.len() && #[trigger] ht[j] == '<' implies j + 1 < ht.len()
        && ht[j + 1] != 'w' by {
        if j < h.len() {
            assert(ht[j] == h[j]);
            assert(ht[j + 1] == h[j + 1]);
        } else {
            assert(ht[j] == t[j - h.len()]);
            assert(ht[j + 1] == t[j + 1 - h.len()]);
        }
    }
}

/// The waypoint texts of `points`, each `(lat, lon, name)`.
pub open spec fn waypoint_texts(points: Seq<(Seq<char>, Seq<char>, Seq<char>)>) -> Seq<Seq<char>> {
    points.map_values(|p: (Seq<char>, Seq<char>, Seq<char>)| waypoint_text(p.0, p.1, p.2))
}

/// What reading gives back for `points`.
pub open spec fn points_read_back(points: Seq<(Seq<char>, Seq<char>, Seq<char>)>) -> Seq<
    (Seq<char>, Option<Seq<char>>, Option<Seq<char>>),
> {
    points.map_values(
        |p: (Seq<char>, Seq<char>, Seq<char>)| (unescape_spec(p.2), Some(p.0), Some(p.1)),
    )
}

/// The conditions under which a written waypoint reads back.
pub open spec fn writable_points(points: Seq<(Seq<char>, Seq<char>, Seq<char>)>) -> bool {
    forall|i: int|
        0 <= i < points.len() ==> is_float_literal(#[trigger] points[i].0) && is_float_literal(
            points[i].1,
        ) && no_lt(points[i].2)
}

proof fn lemma_waypoints_tail(points: Seq<(Seq<char>, Seq<char>, Seq<char>)>)
    requires
        writable_points(points),
    ensures
        waypoints_from(sep_tail(waypoint_texts(points), seq!['\n'], GPX_TAIL@), 0)
            == points_read_back(points),
    decreases points.len(),
{
    lemma_gpx_frame();
    let ws = waypoint_texts(points);
    if points.len() == 0 {
        lemma_no_waypoints(GPX_TAIL@);
        assert(points_read_back(points) =~= Seq::empty());
    } else {
        let rest = points.drop_first();
        assert(writable_points(rest)) by {
            assert forall|i: int| 0 <= i < rest.len() implies is_float_literal(
                #[trigger] rest[i].0,
            ) && is_float_literal(rest[i].1) && no_lt(rest[i].2) by {
                assert(rest[i] == points[i + 1]);
            }
        }
        lemma_waypoints_tail(rest);
        assert(ws.drop_first() =~= waypoint_texts(rest));
        let p = points[0];
        assert(is_float_literal(points[0].0));
        lemma_waypoint_step(
            seq!['\n'],
            p.0,
            p.1,
            p.2,
            sep_tail(waypoint_texts(rest), seq!['\n'], GPX_TAIL@),
        );
        assert(points_read_back(points) =~= seq![(unescape_spec(p.2), Some(p.0), Some(p.1))]
            + points_read_back(rest));
    }
}

/// A GPX document written for waypoints with float-literal coordinates and names
/// without `<` reads back as the same waypoints, in order: each gives the
/// decoded name and the latitude and longitude text that was written.
pub proof fn lemma_gpx_roundtrip(points: Seq<(Seq<char>, Seq<char>, Seq<char>)>)
    requires
        writable_points(points),
    ensures
        gpx_records(gpx_document(waypoint_texts(points))) == points_read_back(points).map_values(
            |w: (Seq<char>, Option<Seq<char>>, Option<Seq<char>>)| gpx_record(w),
        ),
{
    lemma_gpx_frame();
    let ws = waypoint_texts(points);
    let doc = gpx_document(ws);
    if points.len() == 0 {
        assert(join(ws, seq!['\n']) =~= Seq::<char>::empty());
        assert(doc =~= GPX_HEAD@ + GPX_TAIL@);
        lemma_no_waypoints(doc);
        assert(points_read_back(points) =~= Seq::empty());
    } else {
        lemma_join_front(ws, seq!['\n'], GPX_TAIL@);
        let rest = points.drop_first();
        assert(writable_points(rest)) by {
            assert forall|i: int| 0 <= i < rest.len() implies is_float_literal(
                #[trigger] rest[i].0,
            ) && is_float_literal(rest[i].1) && no_lt(rest[i].2) by {
                assert(rest[i] == points[i + 1]);
            }
        }
        lemma_waypoints_tail(rest);
        assert(ws.drop_first() =~= waypoint_texts(rest));
        let p = points[0];
        assert(is_float_literal(points[0].0));
        let tail = sep_tail(waypoint_texts(rest), seq!['\n'], GPX_TAIL@);
        assert(ws[0] == waypoint_text(p.0, p.1, p.2));
        assert(join(ws, seq!['\n']) + GPX_TAIL@ == waypoint_text(p.0, p.1, p.2) + tail);
        assert(doc =~= GPX_HEAD@ + (join(ws, seq!['\n']) + GPX_TAIL@));
        assert(doc =~= GPX_HEAD@ + waypoint_text(p.0, p.1, p.2) + tail);
        lemma_waypoint_step(GPX_HEAD@, p.0, p.1, p.2, tail);
        assert(points_read_back(points) =~= seq![(unescape_spec(p.2), Some(p.0), Some(p.1))]
            + points_read_back(rest));
    }
}


/// The waypoints a writer with name column `nc` adds for `rows`, each
/// `(headers, fields, lat, lon)`.
pub open spec fn written_waypoints(
    nc: Option<Seq<char>>,
    rows: Seq<(Seq<Seq<char>>, Seq<Seq<char>>, Seq<char>, Seq<char>)>,
) -> Seq<(Seq<char>, Seq<char>, Seq<char>)> {
    rows.map_values(
        |r: (Seq<Seq<char>>, Seq<Seq<char>>, Seq<char>, Seq<char>)|
            (r.2, r.3, display_name(nc, r.0, r.1)),
    )
}

/// Rows with float-literal coordinates written by a GPX writer read back in
/// order, each with the decoded display name and the coordinate text written.
pub proof fn lemma_gpx_rows_roundtrip(
    nc: Option<Seq<char>>,
    rows: Seq<(Seq<Seq<char>>, Seq<Seq<char>>, Seq<char>, Seq<char>)>,
)
    requires
        forall|i: int|
            0 <= i < rows.len() ==> is_float_literal(#[trigger] rows[i].2) && is_float_literal(
                rows[i].3,
            ),
    ensures
        gpx_records(gpx_document(waypoint_texts(written_waypoints(nc, rows)))) == rows.map_values(
            |r: (Seq<Seq<char>>, Seq<Seq<char>>, Seq<char>, Seq<char>)|
                gpx_record((unescape_spec(display_name(nc, r.0, r.1)), Some(r.2), Some(r.3))),
        ),
{
    let points = written_waypoints(nc, rows);
    assert forall|i: int| 0 <= i < points.len() implies is_float_literal(#[trigger] points[i].0)
        && is_float_literal(points[i].1) && no_lt(points[i].2) by {
        lemma_display_name_no_lt(nc, rows[i].0, rows[i].1);
        assert(is_float_literal(rows[i].2));
    }
    lemma_gpx_roundtrip(points);
    assert(points_read_back(points).map_values(
        |w: (Seq<char>, Option<Seq<char>>, Option<Seq<char>>)| gpx_record(w),
    ) =~= rows.map_values(
        |r: (Seq<Seq<char>>, Seq<Seq<char>>, Seq<char>, Seq<char>)|
            gpx_record((unescape_spec(display_name(nc, r.0, r.1)), Some(r.2), Some(r.3))),
    ));
}

} // verus!
