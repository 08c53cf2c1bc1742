//! KML output: one `<Placemark>` per row that has a coordinate.
use vstd::prelude::*;
use crate::formats::{join, join_strings, ConvertedRow};
use crate::lexical::{is_float_literal, is_float_text};
use crate::text::{chars_of, push_chars, push_str_chars, string_of, trim, trim_bounds};

verus! {

/// The characters that stand for `c` in XML text.
pub open spec fn escape_char(c: char) -> Seq<char> {
    if c == '&' {
        seq!['&', 'a', 'm', 'p', ';']
    } else if c == '<' {
        seq!['&', 'l', 't', ';']
    } else if c == '>' {
        seq!['&', 'g', 't', ';']
    } else if c == '"' {
        seq!['&', 'q', 'u', 'o', 't', ';']
    } else if c == '\'' {
        seq!['&', 'a', 'p', 'o', 's', ';']
    } else {
        seq![c]
    }
}

/// `s` with each of `& < > " '` replaced by its XML entity.
pub open spec fn escape_xml_spec(s: Seq<char>) -> Seq<char>
    decreases s.len(),
{
    if s.len() == 0 {
        seq![]
    } else {
        escape_xml_spec(s.drop_last()) + escape_char(s.last())
    }
}

/// Escapes the five XML special characters.
pub fn escape_xml(s: &str) -> (r: String)
    ensures
        r@ == escape_xml_spec(s@),
{
    let cs = chars_of(s);
    let out = escape_chars(&cs);
    string_of(&out)
}

/// `escape_xml_spec(cs)` as characters.
pub fn escape_chars(cs: &Vec<char>) -> (r: Vec<char>)
    ensures
        r@ == escape_xml_spec(cs@),
{
    let mut out: Vec<char> = Vec::new();
    let mut i: usize = 0;
    while i < cs.len()
        invariant
            i <= cs@.len(),
            out@ == escape_xml_spec(cs@.take(i as int)),
        decreases cs@.len() - i,
    {
        let c = cs[i];
        assert(cs@.take(i + 1).drop_last() == cs@.take(i as int));
        if c == '&' {
            out.push('&');
            out.push('a');
            out.push('m');
            out.push('p');
            out.push(';');
        } else if c == '<' {
            out.push('&');
            out.push('l');
            out.push('t');
            out.push(';');
        } else if c == '>' {
            out.push('&');
            out.push('g');
            out.push('t');
            out.push(';');
        } else if c == '"' {
            out.push('&');
            out.push('q');
            out.push('u');
            out.push('o');
            out.push('t');
            out.push(';');
        } else if c == '\'' {
            out.push('&');
            out.push('a');
            out.push('p');
            out.push('o');
            out.push('s');
            out.push(';');
        } else {
            out.push(c);
        }
        assert(out@ == escape_xml_spec(cs@.take(i + 1)));
        i = i + 1;
    }
    assert(cs@.take(cs@.len() as int) == cs@);
    out
}

/// The field paired with the first header equal to `name`, scanning from `i`
/// over the pairs of `headers` and `fields`.
pub open spec fn header_field(
    headers: Seq<Seq<char>>,
    fields: Seq<Seq<char>>,
    name: Seq<char>,
    i: int,
) -> Option<Seq<char>>
    decreases headers.len() - i,
{
    if i < 0 || i >= headers.len() || i >= fields.len() {
        None
    } else if headers[i] == name {
        Some(fields[i])
    } else {
        header_field(headers, fields, name, i + 1)
    }
}

/// The first field from `i` on that is not blank and is not a number.
pub open spec fn first_text_field(fields: Seq<Seq<char>>, i: int) -> Option<Seq<char>>
    decreases fields.len() - i,
{
    if i < 0 || i >= fields.len() {
        None
    } else if trim(fields[i]).len() > 0 && !is_float_literal(fields[i]) {
        Some(fields[i])
    } else {
        first_text_field(fields, i + 1)
    }
}

pub const UNNAMED: &'static str = "Unnamed";

/// The (escaped) name a placemark or waypoint gets: the field of the name column
/// where there is one, else the first text field, else `Unnamed`.
pub open spec fn display_name(
    name_column: Option<Seq<char>>,
    headers: Seq<Seq<char>>,
    fields: Seq<Seq<char>>,
) -> Seq<char> {
    let by_column = match name_column {
        Some(nc) => header_field(headers, fields, nc, 0),
        None => None,
    };
    match by_column {
        Some(v) => escape_xml_spec(v),
        None => match first_text_field(fields, 0) {
            Some(v) => escape_xml_spec(v),
            None => UNNAMED@,
        },
    }
}

/// The name chosen for a row, escaped.
pub fn choose_name(name_column: &Option<String>, row: &ConvertedRow) -> (r: String)
    ensures
        r@ == display_name(name_column.deep_view(), row.headers.deep_view(), row.fields.deep_view()),
{
    let ghost hs = row.headers.deep_view();
    let ghost fs = row.fields.deep_view();
    if let Some(nc) = name_column {
        let mut i: usize = 0;
        while i < row.headers.len() && i < row.fields.len()
            invariant
                hs == row.headers.deep_view(),
                fs == row.fields.deep_view(),
                header_field(hs, fs, nc@, 0) == header_field(hs, fs, nc@, i as int),
                name_column.deep_view() == Some(nc@),
            decreases row.headers@.len() - i,
        {
            if row.headers[i] == *nc {
                let fc = chars_of(row.fields[i].as_str());
                assert(hs[i as int] == row.headers@[i as int]@);
                assert(fs[i as int] == fc@);
                assert(name_column.deep_view() == Some(nc@));
                return string_of(&escape_chars(&fc));
            }
            assert(hs[i as int] == row.headers@[i as int]@);
            i = i + 1;
        }
        assert(name_column.deep_view() == Some(nc@));
    }
    let mut j: usize = 0;
    while j < row.fields.len()
        invariant
            fs == row.fields.deep_view(),
            hs == row.headers.deep_view(),
            first_text_field(fs, 0) == first_text_field(fs, j as int),
            match name_column.deep_view() {
                Some(nc) => header_field(hs, fs, nc, 0) is None,
                None => true,
            },
        decreases row.fields@.len() - j,
    {
        let fc = chars_of(row.fields[j].as_str());
        let (lo, hi) = trim_bounds(&fc);
        assert(fs[j as int] == fc@);
        if lo < hi && !is_float_text(&fc) {
            assert(trim(fs[j as int]).len() > 0);
            return string_of(&escape_chars(&fc));
        }
        j = j + 1;
    }
    UNNAMED.to_string()
}

pub const DATA_OPEN: &'static str = "        <Data name=\"";

pub const DATA_MID: &'static str = "\"><value>";

pub const DATA_CLOSE: &'static str = "</value></Data>\n";

/// One `<Data>` line of a placemark's extended data.
pub open spec fn data_line(header: Seq<char>, field: Seq<char>) -> Seq<char> {
    DATA_OPEN@ + escape_xml_spec(header) + DATA_MID@ + escape_xml_spec(field) + DATA_CLOSE@
}

/// The `<Data>` lines for the first `n` header/field pairs.
pub open spec fn data_lines(headers: Seq<Seq<char>>, fields: Seq<Seq<char>>, n: int) -> Seq<char>
    decreases n,
{
    if n <= 0 {
        seq![]
    } else {
        data_lines(headers, fields, n - 1) + data_line(headers[n - 1], fields[n - 1])
    }
}

pub open spec fn min_len(a: Seq<Seq<char>>, b: Seq<Seq<char>>) -> int {
    if a.len() <= b.len() {
        a.len() as int
    } else {
        b.len() as int
    }
}

pub const PLACEMARK_OPEN: &'static str = "    <Placemark>\n      <name>";

pub const PLACEMARK_DATA: &'static str = "</name>\n      <ExtendedData>\n";

pub const PLACEMARK_POINT: &'static str = "      </ExtendedData>\n      <Point>\n        <coordinates>";

pub const PLACEMARK_CLOSE: &'static str = ",0</coordinates>\n      </Point>\n    </Placemark>";

/// The placemark text for a row with coordinate `(lat, lon)`.
pub open spec fn placemark_text(
    name: Seq<char>,
    headers: Seq<Seq<char>>,
    fields: Seq<Seq<char>>,
    lon: Seq<char>,
    lat: Seq<char>,
) -> Seq<char> {
    PLACEMARK_OPEN@ + name + PLACEMARK_DATA@ + data_lines(headers, fields, min_len(headers, fields))
        + PLACEMARK_POINT@ + lon + seq![','] + lat + PLACEMARK_CLOSE@
}

pub const KML_HEAD: &'static str = "<?xml version=\"1.0\" encoding=\"UTF-8\"?>\n<kml xmlns=\"http://www.opengis.net/kml/2.2\">\n  <Document>\n";

pub const KML_TAIL: &'static str = "\n  </Document>\n</kml>\n";

/// A KML document holding `placemarks`.
pub open spec fn kml_document(placemarks: Seq<Seq<char>>) -> Seq<char> {
    KML_HEAD@ + join(placemarks, seq!['\n']) + KML_TAIL@
}

/// The placemarks of a writer for name column `nc` holding `pms`, after `row`:
/// one more where the row has both coordinates.
pub open spec fn placemarks_after_row(
    nc: Option<Seq<char>>,
    pms: Seq<Seq<char>>,
    row: ConvertedRow,
) -> Seq<Seq<char>> {
    match (row.latitude, row.longitude) {
        (Some(lat), Some(lon)) => pms.push(
            placemark_text(
                display_name(nc, row.headers.deep_view(), row.fields.deep_view()),
                row.headers.deep_view(),
                row.fields.deep_view(),
                lon@,
                lat@,
            ),
        ),
        _ => pms,
    }
}

/// Collects placemarks, and gives the KML document on `finish`.
pub struct KmlOutput {
    name_column: Option<String>,
    placemarks: Vec<String>,
}

impl KmlOutput {
    /// The column whose field names each placemark.
    pub closed spec fn name_column(&self) -> Option<Seq<char>> {
        self.name_column.deep_view()
    }

    /// The placemarks so far, in order.
    pub closed spec fn placemarks(&self) -> Seq<Seq<char>> {
        self.placemarks.deep_view()
    }

    /// A writer with no placemarks yet.
    pub fn new(name_column: Option<String>) -> (r: Self)
        ensures
            r.name_column() == name_column.deep_view(),
            r.placemarks() == Seq::<Seq<char>>::empty(),
    {
        let r = KmlOutput { name_column, placemarks: Vec::new() };
        assert(r.placemarks() == Seq::<Seq<char>>::empty());
        r
    }

    /// KML has no header row.
    pub fn write_header(&mut self, headers: &Vec<String>)
        ensures
            final(self).name_column() == old(self).name_column(),
            final(self).placemarks() == old(self).placemarks(),
    {
    }

    /// The placemark of `row`, whose coordinate is `(lat, lon)`.
    pub fn placemark(&self, row: &ConvertedRow, lat: &String, lon: &String) -> (r: String)
        ensures
            r@ == placemark_text(
                display_name(self.name_column(), row.headers.deep_view(), row.fields.deep_view()),
                row.headers.deep_view(),
                row.fields.deep_view(),
                lon@,
                lat@,
            ),
    {
        let name = choose_name(&self.name_column, row);
        let ghost hs = row.headers.deep_view();
        let ghost fs = row.fields.deep_view();
        let mut out: Vec<char> = Vec::new();
        push_str_chars(&mut out, PLACEMARK_OPEN);
        push_str_chars(&mut out, name.as_str());
        push_str_chars(&mut out, PLACEMARK_DATA);
        let ghost before = out@;
        let n = if row.headers.len() <= row.fields.len() {
            row.headers.len()
        } else {
            row.fields.len()
        };
        let mut i: usize = 0;
        while i < n
            invariant
                i <= n,
                n == min_len(hs, fs),
                n <= row.headers@.len(),
                n <= row.fields@.len(),
                hs == row.headers.deep_view(),
                fs == row.fields.deep_view(),
                out@ == before + data_lines(hs, fs, i as int),
            decreases n - i,
        {
            push_str_chars(&mut out, DATA_OPEN);
            push_chars(&mut out, &escape_chars(&chars_of(row.headers[i].as_str())));
            push_str_chars(&mut out, DATA_MID);
            push_chars(&mut out, &escape_chars(&chars_of(row.fields[i].as_str())));
            push_str_chars(&mut out, DATA_CLOSE);
            assert(out@ == before + data_lines(hs, fs, i + 1));
            i = i + 1;
        }
        push_str_chars(&mut out, PLACEMARK_POINT);
        push_str_chars(&mut out, lon.as_str());
        out.push(',');
        push_str_chars(&mut out, lat.as_str());
        push_str_chars(&mut out, PLACEMARK_CLOSE);
        string_of(&out)
    }

    /// Adds the placemark of `row` when it has both coordinates; otherwise nothing.
    pub fn write_row(&mut self, row: &ConvertedRow)
        ensures
            final(self).name_column() == old(self).name_column(),
            final(self).placemarks() == placemarks_after_row(
                old(self).name_column(),
                old(self).placemarks(),
                *row,
            ),
    {
        match (&row.latitude, &row.longitude) {
            (Some(lat), Some(lon)) => {
                let p = self.placemark(row, lat, lon);
                self.placemarks.push(p);
                assert(self.placemarks.deep_view() == old(self).placemarks.deep_view().push(p@));
            },
            _ => {},
        }
    }

    /// The document that `finish` gives.
    pub open spec fn document(&self) -> Seq<char> {
        kml_document(self.placemarks())
    }

    /// The KML document with all placemarks written so far.
    pub fn finish(&self) -> (r: String)
        ensures
            r@ == self.document(),
    {
        let mut out = KML_HEAD.to_string();
        let body = join_strings(&self.placemarks, "\n");
        out.append(body.as_str());
        out.append(KML_TAIL);
        proof {
            reveal_strlit("\n");
        }
        assert("\n"@ == seq!['\n']);
        out
    }
}

/// Text without `<`.
pub open spec fn no_lt(s: Seq<char>) -> bool {
    forall|j: int| 0 <= j < s.len() ==> #[trigger] s[j] != '<'
}

/// Escaped text holds no `<`.
pub proof fn lemma_escape_no_lt(s: Seq<char>)
    ensures
        no_lt(escape_xml_spec(s)),
    decreases s.len(),
{
    if s.len() > 0 {
        lemma_escape_no_lt(s.drop_last());
        let a = escape_xml_spec(s.drop_last());
        let b = escape_char(s.last());
        assert forall|j: int| 0 <= j < (a + b).len() implies #[trigger] (a + b)[j] != '<' by {
            if j < a.len() {
                assert((a + b)[j] == a[j]);
            } else {
                assert((a + b)[j] == b[j - a.len()]);
            }
        }
    }
}

/// The name a placemark or waypoint is written with holds no `<`.
pub proof fn lemma_display_name_no_lt(
    name_column: Option<Seq<char>>,
    headers: Seq<Seq<char>>,
    fields: Seq<Seq<char>>,
)
    ensures
        no_lt(display_name(name_column, headers, fields)),
{
    reveal_strlit("Unnamed");
    let by_column = match name_column {
        Some(nc) => header_field(headers, fields, nc, 0),
        None => None,
    };
    match by_column {
        Some(v) => lemma_escape_no_lt(v),
        None => match first_text_field(fields, 0) {
            Some(v) => lemma_escape_no_lt(v),
            None => {},
        },
    }
}

} // verus!
