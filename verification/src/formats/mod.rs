//! Rows and records exchanged between the readers, the conversion and the writers.
//!
//! Coordinates travel as the decimal text of the number (for instance `38.8977`),
//! exactly as a writer prints it and as a reader finds it.
pub mod kml;
pub mod kml_input;
pub mod kml_roundtrip;
pub mod gpx;
pub mod gpx_input;
pub mod wkt;
pub mod csv_format;
pub mod csv_input;
pub mod shapefile_format;
pub mod geopackage;
pub mod kmz;
pub mod geojson_input;
pub mod topojson;
pub mod json;
pub mod flatgeobuf_format;

use vstd::prelude::*;

verus! {

/// A row ready for an output format.
pub struct ConvertedRow {
    /// The row's fields.
    pub fields: Vec<String>,
    /// The header names that go with `fields`.
    pub headers: Vec<String>,
    /// Latitude text (`None` when no coordinate was obtained).
    pub latitude: Option<String>,
    /// Longitude text (`None` when no coordinate was obtained).
    pub longitude: Option<String>,
    /// The MGRS text the coordinate came from.
    pub mgrs_source: Option<String>,
}

/// A record produced by an input format reader.
pub struct InputRecord {
    /// `(column, value)` pairs.
    pub fields: Vec<(String, String)>,
    /// Latitude text, where the record has one.
    pub latitude: Option<String>,
    /// Longitude text, where the record has one.
    pub longitude: Option<String>,
}

/// What a record holds: its `(column, value)` pairs, latitude and longitude.
impl View for InputRecord {
    type V = (Seq<(Seq<char>, Seq<char>)>, Option<Seq<char>>, Option<Seq<char>>);

    open spec fn view(&self) -> Self::V {
        (self.fields.deep_view(), self.latitude.deep_view(), self.longitude.deep_view())
    }
}

/// The views of `records`.
pub open spec fn record_views(records: Seq<InputRecord>) -> Seq<
    (Seq<(Seq<char>, Seq<char>)>, Option<Seq<char>>, Option<Seq<char>>),
> {
    records.map_values(|r: InputRecord| r@)
}

/// Records handed out one at a time, in order.
pub struct RecordQueue {
    /// Pending records, the next one last.
    pending: Vec<InputRecord>,
}

impl RecordQueue {
    /// The records not handed out yet, next first.
    pub closed spec fn remaining(&self) -> Seq<
        (Seq<(Seq<char>, Seq<char>)>, Option<Seq<char>>, Option<Seq<char>>),
    > {
        Seq::new(self.pending@.len(), |i: int| self.pending@[self.pending@.len() - 1 - i]@)
    }

    /// A queue that hands out `records` in order.
    pub fn new(records: Vec<InputRecord>) -> (r: Self)
        ensures
            r.remaining() == record_views(records@),
    {
        let ghost orig = records@;
        let mut records = records;
        let mut pending: Vec<InputRecord> = Vec::new();
        while records.len() > 0
            invariant
                records@ == orig.take(records@.len() as int),
                records@.len() <= orig.len(),
                pending@.len() == orig.len() - records@.len(),
                forall|j: int|
                    0 <= j < pending@.len() ==> #[trigger] pending@[j] == orig[orig.len() - 1 - j],
            decreases records@.len(),
        {
            let r = records.pop().unwrap();
            pending.push(r);
            assert(records@ == orig.take(records@.len() as int));
        }
        let q = RecordQueue { pending };
        assert(q.remaining() =~= record_views(orig));
        q
    }

    /// The next record, if any.
    pub fn next(&mut self) -> (r: Option<InputRecord>)
        ensures
            match r {
                Some(x) => old(self).remaining().len() > 0 && x@ == old(self).remaining()[0]
                    && final(self).remaining() == old(self).remaining().drop_first(),
                None => old(self).remaining().len() == 0 && final(self).remaining() == old(
                    self,
                ).remaining(),
            },
    {
        let r = self.pending.pop();
        assert(self.remaining() =~= old(self).remaining().drop_first() || r is None);
        r
    }
}

/// A copy of `v`.
pub fn clone_strings(v: &Vec<String>) -> (r: Vec<String>)
    ensures
        r.deep_view() == v.deep_view(),
{
    let mut r: Vec<String> = Vec::new();
    let mut i: usize = 0;
    while i < v.len()
        invariant
            i <= v@.len(),
            r.deep_view() == v.deep_view().take(i as int),
        decreases v@.len() - i,
    {
        let ghost before = r.deep_view();
        let c = v[i].clone();
        assert(c@ == v@[i as int]@);
        r.push(c);
        assert(r.deep_view() =~= before.push(c@));
        assert(r.deep_view() =~= v.deep_view().take(i + 1));
        i = i + 1;
    }
    assert(v.deep_view().take(v@.len() as int) == v.deep_view());
    r
}

/// Concatenation of `list` with `sep` between consecutive elements.
pub open spec fn join(list: Seq<Seq<char>>, sep: Seq<char>) -> Seq<char>
    decreases list.len(),
{
    if list.len() == 0 {
        seq![]
    } else if list.len() == 1 {
        list[0]
    } else {
        join(list.drop_last(), sep) + sep + list.last()
    }
}

/// Concatenation of all of `list`.
pub open spec fn concat_all(list: Seq<Seq<char>>) -> Seq<char>
    decreases list.len(),
{
    if list.len() == 0 {
        seq![]
    } else {
        concat_all(list.drop_last()) + list.last()
    }
}

/// `list` joined with `sep`.
pub fn join_strings(list: &Vec<String>, sep: &str) -> (r: String)
    ensures
        r@ == join(list.deep_view(), sep@),
{
    let mut out = String::new();
    let ghost dv = list.deep_view();
    let mut i: usize = 0;
    while i < list.len()
        invariant
            i <= list@.len(),
            dv == list.deep_view(),
            out@ == join(dv.take(i as int), sep@),
        decreases list@.len() - i,
    {
        assert(dv.take(i + 1).drop_last() == dv.take(i as int));
        if i > 0 {
            out.append(sep);
        }
        out.append(list[i].as_str());
        i = i + 1;
    }
    assert(dv.take(list@.len() as int) == dv);
    out
}

/// `end` preceded by each element of `list`, each after a `sep`.
pub open spec fn sep_tail(list: Seq<Seq<char>>, sep: Seq<char>, end: Seq<char>) -> Seq<char>
    decreases list.len(),
{
    if list.len() == 0 {
        end
    } else {
        sep + list[0] + sep_tail(list.drop_first(), sep, end)
    }
}

proof fn lemma_sep_tail_push(m: Seq<Seq<char>>, a: Seq<char>, sep: Seq<char>, end: Seq<char>)
    ensures
        sep_tail(m.push(a), sep, end) == sep_tail(m, sep, sep + a + end),
    decreases m.len(),
{
    if m.len() == 0 {
        assert(m.push(a).drop_first() =~= Seq::<Seq<char>>::empty());
        assert(m.push(a)[0] == a);
        assert(sep_tail(Seq::<Seq<char>>::empty(), sep, end) == end);
        assert(sep_tail(m.push(a), sep, end) == sep + a + end);
        assert(sep_tail(m, sep, sep + a + end) == sep + a + end);
    } else {
        assert(m.push(a).drop_first() =~= m.drop_first().push(a));
        lemma_sep_tail_push(m.drop_first(), a, sep, end);
        assert(m.push(a)[0] == m[0]);
        assert(sep_tail(m.push(a), sep, end) == sep + m[0] + sep_tail(m.drop_first().push(a), sep, end));
    }
}

/// A joined list followed by `end`, read from the front.
pub proof fn lemma_join_front(list: Seq<Seq<char>>, sep: Seq<char>, end: Seq<char>)
    requires
        list.len() > 0,
    ensures
        join(list, sep) + end == list[0] + sep_tail(list.drop_first(), sep, end),
    decreases list.len(),
{
    if list.len() == 1 {
        assert(list.drop_first() =~= Seq::<Seq<char>>::empty());
    } else {
        let dl = list.drop_last();
        lemma_join_front(dl, sep, sep + list.last() + end);
        assert(dl[0] == list[0]);
        assert(list.drop_first() =~= dl.drop_first().push(list.last()));
        lemma_sep_tail_push(dl.drop_first(), list.last(), sep, end);
        assert(join(list, sep) + end =~= join(dl, sep) + (sep + list.last() + end));
    }
}

} // verus!
