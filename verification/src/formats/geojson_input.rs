//! GeoJSON and TopoJSON input: features with properties and a point.
//!
//! The JSON text is parsed outside this module into `Feature` values; this module
//! decides the columns and the records.
use vstd::prelude::*;
use crate::formats::kml_input::{add_keys, lookup, lookup_value, merge_keys};
use crate::formats::{clone_strings, record_views, InputRecord, RecordQueue};

verus! {

/// A geometry as a reader sees it: its `type` where that is a string, and its
/// `coordinates` where they are an array, each element as the text of the
/// number it is (`None` for an element that is no number).
pub struct Geometry {
    pub kind: Option<String>,
    pub coordinates: Option<Vec<Option<String>>>,
}

impl View for Geometry {
    type V = (Option<Seq<char>>, Option<Seq<Option<Seq<char>>>>);

    open spec fn view(&self) -> Self::V {
        (self.kind.deep_view(), self.coordinates.deep_view())
    }
}

pub open spec fn point_word() -> Seq<char> {
    seq!['P', 'o', 'i', 'n', 't']
}

/// `(latitude, longitude)` of a geometry: the second and first coordinates of a
/// `Point` whose first two coordinates are numbers; nothing otherwise.
pub open spec fn point_spec(g: Option<(Option<Seq<char>>, Option<Seq<Option<Seq<char>>>>)>) -> (
    Option<Seq<char>>,
    Option<Seq<char>>,
) {
    match g {
        Some((Some(k), Some(c))) => if k == point_word() && c.len() >= 2 && c[0] is Some
            && c[1] is Some {
            (c[1], c[0])
        } else {
            (None, None)
        },
        _ => (None, None),
    }
}

pub open spec fn geometry_view(g: Option<Geometry>) -> Option<
    (Option<Seq<char>>, Option<Seq<Option<Seq<char>>>>),
> {
    match g {
        Some(x) => Some(x@),
        None => None,
    }
}

/// The point of a geometry, as `(latitude, longitude)`.
pub fn point_of(g: &Option<Geometry>) -> (r: (Option<String>, Option<String>))
    ensures
        (r.0.deep_view(), r.1.deep_view()) == point_spec(geometry_view(*g)),
{
    proof {
        reveal_strlit("Point");
    }
    assert("Point"@ == point_word());
    match g {
        Some(geom) => match (&geom.kind, &geom.coordinates) {
            (Some(k), Some(c)) => {
                let word = "Point".to_string();
                if *k == word && c.len() >= 2 {
                    assert(c.deep_view()[0] == c@[0].deep_view());
                    assert(c.deep_view()[1] == c@[1].deep_view());
                    match (&c[0], &c[1]) {
                        (Some(lon), Some(lat)) => (Some(lat.clone()), Some(lon.clone())),
                        _ => (None, None),
                    }
                } else {
                    (None, None)
                }
            },
            _ => (None, None),
        },
        None => (None, None),
    }
}

/// A feature as a reader sees it: its properties as text in the order of the
/// JSON object (`None` where the feature has no properties object), and its
/// geometry (`None` where it has none, or it is null).
pub struct Feature {
    pub properties: Option<Vec<(String, String)>>,
    pub geometry: Option<Geometry>,
}

/// What a feature holds: its properties and its point as `(latitude, longitude)`.
impl View for Feature {
    type V = (Option<Seq<(Seq<char>, Seq<char>)>>, Option<Seq<char>>, Option<Seq<char>>);

    open spec fn view(&self) -> Self::V {
        let p = point_spec(geometry_view(self.geometry));
        (self.properties.deep_view(), p.0, p.1)
    }
}

/// The columns of a feature collection: every property name, in order of first appearance.
pub open spec fn feature_keys(
    fs: Seq<(Option<Seq<(Seq<char>, Seq<char>)>>, Option<Seq<char>>, Option<Seq<char>>)>,
) -> Seq<Seq<char>>
    decreases fs.len(),
{
    if fs.len() == 0 {
        seq![]
    } else {
        match fs.last().0 {
            Some(p) => add_keys(feature_keys(fs.drop_last()), p),
            None => feature_keys(fs.drop_last()),
        }
    }
}

/// The record of a feature: one field per column (the property's value, or empty)
/// where it has properties, none where it has not; and its point.
pub open spec fn feature_record(
    keys: Seq<Seq<char>>,
    f: (Option<Seq<(Seq<char>, Seq<char>)>>, Option<Seq<char>>, Option<Seq<char>>),
) -> (Seq<(Seq<char>, Seq<char>)>, Option<Seq<char>>, Option<Seq<char>>) {
    let fields = match f.0 {
        Some(p) => Seq::new(keys.len(), |i: int| (keys[i], lookup(p, keys[i]))),
        None => seq![],
    };
    (fields, f.1, f.2)
}

/// The columns and the records of a feature collection.
pub fn feature_table(features: Vec<Feature>) -> (r: (Vec<String>, Vec<InputRecord>))
    ensures
        r.0.deep_view() == feature_keys(features@.map_values(|f: Feature| f@)),
        record_views(r.1@) == features@.map_values(
            |f: Feature| feature_record(feature_keys(features@.map_values(|f: Feature| f@)), f@),
        ),
{
    let ghost fs = features@.map_values(|f: Feature| f@);
    let mut keys: Vec<String> = Vec::new();
    let mut i: usize = 0;
    assert(keys.deep_view() =~= feature_keys(fs.take(0)));
    while i < features.len()
        invariant
            i <= features@.len(),
            fs == features@.map_values(|f: Feature| f@),
            keys.deep_view() == feature_keys(fs.take(i as int)),
        decreases features@.len() - i,
    {
        assert(fs.take(i + 1).drop_last() == fs.take(i as int));
        assert(fs[i as int] == features@[i as int]@);
        match &features[i].properties {
            Some(p) => merge_keys(&mut keys, p),
            None => {},
        }
        i = i + 1;
    }
    assert(fs.take(features@.len() as int) == fs);
    let ghost ks = keys.deep_view();
    let mut records: Vec<InputRecord> = Vec::new();
    let mut features = features;
    let ghost orig = features@;
    let mut i: usize = 0;
    while i < features.len()
        invariant
            i <= features@.len(),
            features@ == orig,
            fs == orig.map_values(|f: Feature| f@),
            ks == keys.deep_view(),
            ks == feature_keys(fs),
            record_views(records@) == orig.take(i as int).map_values(
                |f: Feature| feature_record(ks, f@),
            ),
        decreases features@.len() - i,
    {
        let f = &features[i];
        let fields: Vec<(String, String)> = match &f.properties {
            Some(p) => {
                let mut out: Vec<(String, String)> = Vec::new();
                let mut k: usize = 0;
                while k < keys.len()
                    invariant
                        k <= keys@.len(),
                        ks == keys.deep_view(),
                        out.deep_view() == Seq::new(
                            keys@.len(),
                            |j: int| (ks[j], lookup(p.deep_view(), ks[j])),
                        ).take(k as int),
                    decreases keys@.len() - k,
                {
                    let v = lookup_value(p, &keys[k]);
                    let key = keys[k].clone();
                    let ghost b = out.deep_view();
                    out.push((key, v));
                    assert(out.deep_view() =~= b.push((key@, v@)));
                    assert(out.deep_view() =~= Seq::new(
                        keys@.len(),
                        |j: int| (ks[j], lookup(p.deep_view(), ks[j])),
                    ).take(k + 1));
                    k = k + 1;
                }
                out
            },
            None => Vec::new(),
        };
        let (latitude, longitude) = point_of(&f.geometry);
        let rec = InputRecord { fields, latitude, longitude };
        assert(rec@ == feature_record(ks, f@)) by {
            assert(rec.fields.deep_view() =~= feature_record(ks, f@).0);
        }
        let ghost rb = record_views(records@);
        records.push(rec);
        assert(record_views(records@) =~= rb.push(feature_record(ks, orig[i as int]@)));
        assert(orig.take(i + 1).map_values(|f: Feature| feature_record(ks, f@)) =~= orig.take(
            i as int,
        ).map_values(|f: Feature| feature_record(ks, f@)).push(feature_record(ks, orig[i as int]@)));
        i = i + 1;
    }
    assert(orig.take(orig.len() as int) == orig);
    (keys, records)
}

/// Why a JSON document gives no records.
#[derive(Debug, Clone, Copy, PartialEq, Eq, Structural)]
pub enum JsonInputError {
    /// A GeoJSON document without a `features` array.
    MissingFeatures,
    /// A TopoJSON document whose `type` is not `Topology`.
    NotTopology,
    /// A TopoJSON document without an `objects` object.
    MissingObjects,
}

/// Reads the features of a GeoJSON feature collection.
pub struct GeoJsonInput {
    headers: Vec<String>,
    records: RecordQueue,
}

impl GeoJsonInput {
    pub closed spec fn header_names(&self) -> Seq<Seq<char>> {
        self.headers.deep_view()
    }

    pub closed spec fn remaining(&self) -> Seq<
        (Seq<(Seq<char>, Seq<char>)>, Option<Seq<char>>, Option<Seq<char>>),
    > {
        self.records.remaining()
    }

    /// A reader over the features of a collection, given the members of the
    /// document's `features` array (`None` where the document has no such array,
    /// which is an error).
    pub fn new(features: Option<Vec<Feature>>) -> (r: Result<Self, JsonInputError>)
        ensures
            match features {
                None => r matches Err(JsonInputError::MissingFeatures),
                Some(fs) => r matches Ok(x) && x.header_names() == feature_keys(
                    fs@.map_values(|f: Feature| f@),
                ) && x.remaining() == fs@.map_values(
                    |f: Feature| feature_record(feature_keys(fs@.map_values(|f: Feature| f@)), f@),
                ),
            },
    {
        match features {
            None => Err(JsonInputError::MissingFeatures),
            Some(fs) => {
                let (headers, records) = feature_table(fs);
                Ok(GeoJsonInput { headers, records: RecordQueue::new(records) })
            },
        }
    }

    pub fn headers(&self) -> (r: Vec<String>)
        ensures
            r.deep_view() == self.header_names(),
    {
        clone_strings(&self.headers)
    }

    pub fn next_record(&mut self) -> (r: Option<InputRecord>)
        ensures
            final(self).header_names() == old(self).header_names(),
            match r {
                Some(x) => old(self).remaining().len() > 0 && x@ == old(self).remaining()[0]
                    && final(self).remaining() == old(self).remaining().drop_first(),
                None => old(self).remaining().len() == 0 && final(self).remaining() == old(
                    self,
                ).remaining(),
            },
    {
        self.records.next()
    }
}

} // verus!
