//! WKT: one `POINT(lon lat)` per line.
use vstd::prelude::*;
use crate::formats::{record_views, ConvertedRow, InputRecord, RecordQueue};
use crate::lexical::{eq_ignore_ascii_case, is_float_char, is_float_literal, is_float_text, lemma_float_chars};
use crate::text::{
    chars_of, find_from, find_from_exec, is_ws, lemma_find_char, lemma_find_from,
    lemma_find_from_shift, lemma_trim_id, lemma_ws_tokens_space, lemma_ws_tokens_word,
    push_str_chars, string_of, sub_chars, trim, trim_bounds, trim_chars, ws_tokens,
    ws_tokens_exec,
};

verus! {

/// The line a row with coordinate `(lat, lon)` becomes.
pub open spec fn wkt_line(lat: Seq<char>, lon: Seq<char>) -> Seq<char> {
    seq!['P', 'O', 'I', 'N', 'T', '('] + lon + seq![' '] + lat + seq![')', '\n']
}

/// Writes `POINT(lon lat)` lines.
pub struct WktOutput {}

impl WktOutput {
    pub fn new() -> Self {
        WktOutput {  }
    }

    /// WKT has no header row.
    pub fn write_header(&mut self, headers: &Vec<String>) {
    }

    /// The text to append for `row`: its point line, or nothing when it has no coordinate.
    pub fn write_row(&mut self, row: &ConvertedRow) -> (r: String)
        ensures
            r@ == (match (row.latitude, row.longitude) {
                (Some(lat), Some(lon)) => wkt_line(lat@, lon@),
                _ => Seq::<char>::empty(),
            }),
    {
        match (&row.latitude, &row.longitude) {
            (Some(lat), Some(lon)) => {
                let mut out: Vec<char> = Vec::new();
                out.push('P');
                out.push('O');
                out.push('I');
                out.push('N');
                out.push('T');
                out.push('(');
                push_str_chars(&mut out, lon.as_str());
                out.push(' ');
                push_str_chars(&mut out, lat.as_str());
                out.push(')');
                out.push('\n');
                assert(out@ == wkt_line(lat@, lon@));
                string_of(&out)
            },
            _ => String::new(),
        }
    }
}

pub open spec fn point_word() -> Seq<char> {
    seq!['P', 'O', 'I', 'N', 'T']
}

/// `(lon, lat)` of a `POINT(lon lat)` text: `POINT` in any case, then, after
/// optional whitespace, two numbers separated by whitespace within parentheses.
pub open spec fn wkt_point_spec(s: Seq<char>) -> Option<(Seq<char>, Seq<char>)> {
    let t = trim(s);
    if t.len() < 5 || !eq_ignore_ascii_case(t.take(5), point_word()) {
        None
    } else {
        let rest = trim(t.skip(5));
        if rest.len() >= 2 && rest[0] == '(' && rest.last() == ')' {
            let parts = ws_tokens(rest.subrange(1, rest.len() - 1));
            if parts.len() == 2 && is_float_literal(parts[0]) && is_float_literal(parts[1]) {
                Some((parts[0], parts[1]))
            } else {
                None
            }
        } else {
            None
        }
    }
}

/// Parses one `POINT(lon lat)` text into `(lon, lat)`.
pub fn parse_wkt_point(s: &Vec<char>) -> (r: Option<(String, String)>)
    ensures
        match r {
            Some(p) => wkt_point_spec(s@) == Some((p.0@, p.1@)),
            None => wkt_point_spec(s@) is None,
        },
{
    let t = trim_chars(s);
    if t.len() < 5 {
        return None;
    }
    let word = vec!['P', 'O', 'I', 'N', 'T'];
    let head = sub_chars(&t, 0, 5);
    assert(head@ == t@.take(5));
    assert(word@ == point_word());
    let mut k: usize = 0;
    while k < 5
        invariant
            k <= 5,
            head@.len() == 5,
            head@ == t@.take(5),
            t@ == trim(s@),
            word@ == point_word(),
            forall|j: int| 0 <= j < k ==> crate::lexical::ascii_lower(#[trigger] head@[j])
                == crate::lexical::ascii_lower(word@[j]),
        decreases 5 - k,
    {
        let a = head[k];
        let la = crate::lexical::ascii_lower_code(a);
        let b = word[k];
        let lb = crate::lexical::ascii_lower_code(b);
        if la != lb {
            assert(crate::lexical::ascii_lower(head@[k as int]) != crate::lexical::ascii_lower(
                word@[k as int],
            ));
            assert(!eq_ignore_ascii_case(t@.take(5), point_word()));
            return None;
        }
        k = k + 1;
    }
    let after = sub_chars(&t, 5, t.len());
    assert(after@ == t@.skip(5));
    let rest = trim_chars(&after);
    let n = rest.len();
    if n < 2 || rest[0] != '(' || rest[n - 1] != ')' {
        return None;
    }
    let inner = sub_chars(&rest, 1, n - 1);
    let parts = ws_tokens_exec(&inner);
    assert(parts@.map_values(|w: Vec<char>| w@).len() == parts@.len());
    if parts.len() != 2 {
        return None;
    }
    assert(parts@.map_values(|w: Vec<char>| w@)[0] == parts@[0]@);
    assert(parts@.map_values(|w: Vec<char>| w@)[1] == parts@[1]@);
    if !is_float_text(&parts[0]) || !is_float_text(&parts[1]) {
        return None;
    }
    Some((string_of(&parts[0]), string_of(&parts[1])))
}

pub open spec fn latitude_key() -> Seq<char> {
    seq!['L', 'a', 't', 'i', 't', 'u', 'd', 'e']
}

pub open spec fn longitude_key() -> Seq<char> {
    seq!['L', 'o', 'n', 'g', 'i', 't', 'u', 'd', 'e']
}

/// The record of a point `(lon, lat)`.
pub open spec fn wkt_record(p: (Seq<char>, Seq<char>)) -> (
    Seq<(Seq<char>, Seq<char>)>,
    Option<Seq<char>>,
    Option<Seq<char>>,
) {
    (seq![(latitude_key(), p.1), (longitude_key(), p.0)], Some(p.1), Some(p.0))
}

/// The point of one line, where it holds one.
pub open spec fn line_points(line: Seq<char>) -> Seq<(Seq<char>, Seq<char>)> {
    if trim(line).len() > 0 {
        match wkt_point_spec(trim(line)) {
            Some(p) => seq![p],
            None => seq![],
        }
    } else {
        seq![]
    }
}

/// The points `(lon, lat)` of the lines of `s` from `pos` on; lines that are blank
/// or are no point are left out.
pub open spec fn wkt_points_from(s: Seq<char>, pos: int) -> Seq<(Seq<char>, Seq<char>)>
    decreases s.len() - pos,
{
    if pos < 0 || pos > s.len() {
        seq![]
    } else {
        proof {
            lemma_find_from(s, seq!['\n'], pos);
        }
        match find_from(s, seq!['\n'], pos) {
            Some(e) => line_points(s.subrange(pos, e)) + wkt_points_from(s, e + 1),
            None => line_points(s.subrange(pos, s.len() as int)),
        }
    }
}

/// The records a WKT text gives.
pub open spec fn wkt_records(s: Seq<char>) -> Seq<
    (Seq<(Seq<char>, Seq<char>)>, Option<Seq<char>>, Option<Seq<char>>),
> {
    wkt_points_from(s, 0).map_values(|p: (Seq<char>, Seq<char>)| wkt_record(p))
}

/// Reads the points of a WKT text.
pub struct WktInput {
    records: RecordQueue,
}

impl WktInput {
    /// The records not read yet.
    pub closed spec fn remaining(&self) -> Seq<
        (Seq<(Seq<char>, Seq<char>)>, Option<Seq<char>>, Option<Seq<char>>),
    > {
        self.records.remaining()
    }

    /// A reader over the WKT text `input`.
    pub fn new(input: &str) -> (r: Self)
        ensures
            r.remaining() == wkt_records(input@),
    {
        proof {
            reveal_strlit("Latitude");
            reveal_strlit("Longitude");
        }
        assert("Latitude"@ == latitude_key() && "Longitude"@ == longitude_key());
        let s = chars_of(input);
        let nl = vec!['\n'];
        assert(nl@ == seq!['\n']);
        let ghost all = wkt_records(s@);
        let mut records: Vec<InputRecord> = Vec::new();
        let mut pos: usize = 0;
        assert(record_views(records@) == Seq::<
            (Seq<(Seq<char>, Seq<char>)>, Option<Seq<char>>, Option<Seq<char>>),
        >::empty());
        loop
            invariant_except_break
                record_views(records@) + wkt_points_from(s@, pos as int).map_values(
                    |p: (Seq<char>, Seq<char>)| wkt_record(p),
                ) == all,
            invariant
                pos <= s@.len(),
                nl@ == seq!['\n'],
                "Latitude"@ == latitude_key(),
                "Longitude"@ == longitude_key(),
                all == wkt_records(s@),
            ensures
                record_views(records@) == all,
            decreases s@.len() - pos,
        {
            let ghost before = record_views(records@);
            let ghost rest = wkt_points_from(s@, pos as int);
            let found = find_from_exec(&s, &nl, pos);
            let e = match found {
                Some(e) => e,
                None => s.len(),
            };
            let line = sub_chars(&s, pos, e);
            let t = trim_chars(&line);
            let mut here: Vec<InputRecord> = Vec::new();
            if t.len() > 0 {
                match parse_wkt_point(&t) {
                    Some((lon, lat)) => {
                        let mut fields: Vec<(String, String)> = Vec::new();
                        fields.push(("Latitude".to_string(), lat.clone()));
                        fields.push(("Longitude".to_string(), lon.clone()));
                        let rec = InputRecord { fields, latitude: Some(lat), longitude: Some(lon) };
                        assert(rec.fields.deep_view() =~= wkt_record((lon@, lat@)).0);
                        here.push(rec);
                    },
                    None => {},
                }
            }
            let ghost tail = match found {
                Some(e) => wkt_points_from(s@, e + 1),
                None => Seq::<(Seq<char>, Seq<char>)>::empty(),
            };
            assert(rest =~= line_points(line@) + tail);
            let ghost hv = record_views(here@);
            assert(rest.map_values(|p: (Seq<char>, Seq<char>)| wkt_record(p)) =~= hv
                + tail.map_values(|p: (Seq<char>, Seq<char>)| wkt_record(p)));
            records.append(&mut here);
            assert(record_views(records@) =~= before + hv);
            assert(before + hv + tail.map_values(|p: (Seq<char>, Seq<char>)| wkt_record(p))
                == before + (hv + tail.map_values(|p: (Seq<char>, Seq<char>)| wkt_record(p))));
            match found {
                Some(e) => {
                    pos = e + 1;
                },
                None => {
                    assert(tail =~= Seq::<(Seq<char>, Seq<char>)>::empty());
                    assert(record_views(records@) + Seq::empty() == record_views(records@));
                    break ;
                },
            }
        }
        WktInput { records: RecordQueue::new(records) }
    }

    /// WKT records carry `Latitude` and `Longitude`.
    pub fn headers(&self) -> (r: Vec<String>)
        ensures
            r.deep_view() == seq![latitude_key(), longitude_key()],
    {
        proof {
            reveal_strlit("Latitude");
            reveal_strlit("Longitude");
        }
        assert("Latitude"@ == latitude_key() && "Longitude"@ == longitude_key());
        let mut h: Vec<String> = Vec::new();
        h.push("Latitude".to_string());
        h.push("Longitude".to_string());
        assert(h.deep_view() =~= seq![latitude_key(), longitude_key()]);
        h
    }

    /// The next record, if any.
    pub fn next_record(&mut self) -> (r: Option<InputRecord>)
        ensures
            match r {
                Some(x) => old(self).remaining().len() > 0 && x@ == old(self).remaining()[0]
                    && final(self).remaining() == old(self).remaining().drop_first(),
                None => old(self).remaining().len() == 0 && final(self).remaining() == old(
                    self,
                ).remaining(),
            },
    {
        self.records.next()
    }
}


/// The text of rows with coordinates `coords`, each a `(lat, lon)` pair, written in order.
pub open spec fn wkt_text(coords: Seq<(Seq<char>, Seq<char>)>) -> Seq<char>
    decreases coords.len(),
{
    if coords.len() == 0 {
        seq![]
    } else {
        wkt_line(coords[0].0, coords[0].1) + wkt_text(coords.drop_first())
    }
}

proof fn lemma_float_no_ws(x: Seq<char>)
    requires
        is_float_literal(x),
    ensures
        x.len() > 0,
        forall|j: int| 0 <= j < x.len() ==> !is_ws(#[trigger] x[j]) && x[j] != '\n' && x[j] != ')',
{
    lemma_float_chars(x);
    assert forall|j: int| 0 <= j < x.len() implies !is_ws(#[trigger] x[j]) && x[j] != '\n' && x[j]
        != ')' by {
        assert(is_float_char(x[j]));
    }
}

/// The point text of one line reads back as `(lon, lat)`.
#[verifier::spinoff_prover]
proof fn lemma_wkt_line_point(lat: Seq<char>, lon: Seq<char>)
    requires
        is_float_literal(lat),
        is_float_literal(lon),
    ensures
        line_points(seq!['P', 'O', 'I', 'N', 'T', '('] + lon + seq![' '] + lat + seq![')'])
            == seq![(lon, lat)],
{
    lemma_float_no_ws(lat);
    lemma_float_no_ws(lon);
    let inner = lon + seq![' '] + lat;
    let paren = seq!['('] + inner + seq![')'];
    let line = point_word() + paren;
    assert(line =~= seq!['P', 'O', 'I', 'N', 'T', '('] + lon + seq![' '] + lat + seq![')']);
    lemma_trim_id(line);
    assert(line.take(5) =~= point_word());
    assert(line.skip(5) =~= paren);
    lemma_trim_id(paren);
    assert(paren.subrange(1, paren.len() - 1) =~= inner);
    lemma_ws_tokens_word(lat, seq![]);
    assert(lat + seq![] =~= lat);
    assert(ws_tokens(Seq::<char>::empty()) == Seq::<Seq<char>>::empty());
    lemma_ws_tokens_space(' ', lat);
    lemma_ws_tokens_word(lon, seq![' '] + lat);
    assert(inner =~= lon + (seq![' '] + lat));
    assert(ws_tokens(inner) =~= seq![lon, lat]);
}

/// Reading from inside the second part of `x + y` reads `y`.
proof fn lemma_wkt_points_shift(x: Seq<char>, y: Seq<char>, i: int)
    requires
        0 <= i,
    ensures
        wkt_points_from(x + y, x.len() + i) == wkt_points_from(y, i),
    decreases y.len() + 1 - i,
{
    let s = x + y;
    let n = x.len() as int;
    if i > y.len() {
    } else {
        lemma_find_from_shift(x, y, seq!['\n'], i);
        lemma_find_from(y, seq!['\n'], i);
        match find_from(y, seq!['\n'], i) {
            Some(e) => {
                assert(s.subrange(n + i, e + n) =~= y.subrange(i, e));
                lemma_wkt_points_shift(x, y, e + 1);
                assert(e + n + 1 == n + (e + 1));
            },
            None => {
                assert(s.subrange(n + i, s.len() as int) =~= y.subrange(i, y.len() as int));
            },
        }
    }
}

/// Text written for points with float-literal coordinates reads back as the
/// same points, in order: each record carries the latitude and longitude text
/// that was written.
pub proof fn lemma_wkt_roundtrip(coords: Seq<(Seq<char>, Seq<char>)>)
    requires
        forall|i: int|
            0 <= i < coords.len() ==> is_float_literal(#[trigger] coords[i].0) && is_float_literal(
                coords[i].1,
            ),
    ensures
        wkt_records(wkt_text(coords)) == coords.map_values(
            |c: (Seq<char>, Seq<char>)| wkt_record((c.1, c.0)),
        ),
    decreases coords.len(),
{
    lemma_wkt_points(coords);
    assert(wkt_records(wkt_text(coords)) =~= coords.map_values(
        |c: (Seq<char>, Seq<char>)| wkt_record((c.1, c.0)),
    ));
}

#[verifier::spinoff_prover]
proof fn lemma_wkt_points(coords: Seq<(Seq<char>, Seq<char>)>)
    requires
        forall|i: int|
            0 <= i < coords.len() ==> is_float_literal(#[trigger] coords[i].0) && is_float_literal(
                coords[i].1,
            ),
    ensures
        wkt_points_from(wkt_text(coords), 0) == coords.map_values(
            |c: (Seq<char>, Seq<char>)| (c.1, c.0),
        ),
    decreases coords.len(),
{
    if coords.len() == 0 {
        assert(wkt_text(coords) =~= Seq::<char>::empty());
        assert(find_from(Seq::<char>::empty(), seq!['\n'], 0) is None);
        assert(Seq::<char>::empty().subrange(0, 0) =~= Seq::<char>::empty());
        assert(trim(Seq::<char>::empty()) =~= Seq::<char>::empty());
        assert(coords.map_values(|c: (Seq<char>, Seq<char>)| (c.1, c.0)) =~= seq![]);
    } else {
        let lat = coords[0].0;
        let lon = coords[0].1;
        assert(is_float_literal(coords[0].0));
        lemma_float_no_ws(lat);
        lemma_float_no_ws(lon);
        let rest = coords.drop_first();
        assert forall|i: int| 0 <= i < rest.len() implies is_float_literal(#[trigger] rest[i].0)
            && is_float_literal(rest[i].1) by {
            assert(rest[i] == coords[i + 1]);
        }
        lemma_wkt_points(rest);
        let body = seq!['P', 'O', 'I', 'N', 'T', '('] + lon + seq![' '] + lat + seq![')'];
        let x = wkt_line(lat, lon);
        let y = wkt_text(rest);
        let s = x + y;
        assert(x =~= body + seq!['\n']);
        assert(s == wkt_text(coords));
        let k = body.len() as int;
        assert(s[k] == '\n');
        assert forall|j: int| 0 <= j < k implies s[j] != '\n' by {
            assert(s[j] == body[j]);
            if 6 <= j < 6 + lon.len() {
                assert(body[j] == lon[j - 6]);
            } else if 7 + lon.len() <= j < 7 + lon.len() + lat.len() {
                assert(body[j] == lat[j - 7 - lon.len()]);
            }
        }
        lemma_find_char(s, '\n', 0, k);
        assert(s.subrange(0, k) =~= body);
        lemma_wkt_line_point(lat, lon);
        lemma_wkt_points_shift(x, y, 0);
        assert(x.len() + 0 == k + 1);
        assert(coords.map_values(|c: (Seq<char>, Seq<char>)| (c.1, c.0)) =~= seq![(lon, lat)]
            + rest.map_values(|c: (Seq<char>, Seq<char>)| (c.1, c.0)));
    }
}

} // verus!
