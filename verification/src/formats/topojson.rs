//! TopoJSON input: the point geometries of all objects of a topology.
use vstd::prelude::*;
use crate::formats::geojson_input::{
    feature_keys, feature_record, feature_table, Feature, JsonInputError,
};
use crate::formats::{clone_strings, InputRecord, RecordQueue};

verus! {

/// An object of a topology as a reader sees it: the members of its
/// `geometries` array (`None` where it has no such array).
pub struct TopoObject {
    pub geometries: Option<Vec<Feature>>,
}

/// A TopoJSON document as a reader sees it: its `type` where that is a string,
/// and the members of its `objects` object in order (`None` where it has no
/// such object).
pub struct TopoJsonDocument {
    pub kind: Option<String>,
    pub objects: Option<Vec<TopoObject>>,
}

pub open spec fn topology_word() -> Seq<char> {
    seq!['T', 'o', 'p', 'o', 'l', 'o', 'g', 'y']
}

/// The geometries of the objects `os`, object after object.
pub open spec fn object_geometries(os: Seq<TopoObject>) -> Seq<Feature>
    decreases os.len(),
{
    if os.len() == 0 {
        seq![]
    } else {
        object_geometries(os.drop_last()) + match os.last().geometries {
            Some(g) => g@,
            None => seq![],
        }
    }
}

/// All geometries of `objects`, object after object.
fn all_geometries(objects: Vec<TopoObject>) -> (r: Vec<Feature>)
    ensures
        r@ == object_geometries(objects@),
{
    let ghost orig = objects@;
    let mut objs = objects;
    let mut out: Vec<Feature> = Vec::new();
    let mut k: usize = 0;
    let n = objs.len();
    assert(orig.take(0) == Seq::<TopoObject>::empty());
    while objs.len() > 0
        invariant
            k <= orig.len(),
            orig.len() == n,
            objs@ == orig.skip(k as int),
            out@ == object_geometries(orig.take(k as int)),
        decreases objs@.len(),
    {
        let o = objs.remove(0);
        assert(o == orig[k as int]);
        assert(orig.take(k + 1).drop_last() == orig.take(k as int));
        assert(orig.take(k + 1).last() == orig[k as int]);
        match o.geometries {
            Some(g) => {
                let mut g = g;
                out.append(&mut g);
            },
            None => {
                assert(out@ + Seq::<Feature>::empty() == out@);
            },
        }
        assert(objs@ =~= orig.skip(k + 1));
        k = k + 1;
    }
    assert(orig.take(k as int) == orig);
    out
}

/// Reads the point geometries of all objects of a TopoJSON topology.
pub struct TopoJsonInput {
    headers: Vec<String>,
    records: RecordQueue,
}

impl TopoJsonInput {
    pub closed spec fn header_names(&self) -> Seq<Seq<char>> {
        self.headers.deep_view()
    }

    pub closed spec fn remaining(&self) -> Seq<
        (Seq<(Seq<char>, Seq<char>)>, Option<Seq<char>>, Option<Seq<char>>),
    > {
        self.records.remaining()
    }

    /// A reader over the geometries of a topology, all objects in order. A
    /// document whose `type` is not `Topology`, or that has no objects, is an error.
    pub fn new(doc: TopoJsonDocument) -> (r: Result<Self, JsonInputError>)
        ensures
            doc.kind.deep_view() != Some(topology_word()) ==> r matches Err(
                JsonInputError::NotTopology,
            ),
            doc.kind.deep_view() == Some(topology_word()) ==> match doc.objects {
                None => r matches Err(JsonInputError::MissingObjects),
                Some(os) => {
                    let gs = object_geometries(os@);
                    r matches Ok(x) && x.header_names() == feature_keys(
                        gs.map_values(|f: Feature| f@),
                    ) && x.remaining() == gs.map_values(
                        |f: Feature| feature_record(feature_keys(gs.map_values(|f: Feature| f@)), f@),
                    )
                },
            },
    {
        proof {
            reveal_strlit("Topology");
        }
        assert("Topology"@ == topology_word());
        let is_topology = match &doc.kind {
            Some(k) => *k == "Topology".to_string(),
            None => false,
        };
        if !is_topology {
            return Err(JsonInputError::NotTopology);
        }
        match doc.objects {
            None => Err(JsonInputError::MissingObjects),
            Some(os) => {
                let geometries = all_geometries(os);
                let (headers, records) = feature_table(geometries);
                Ok(TopoJsonInput { headers, records: RecordQueue::new(records) })
            },
        }
    }

    pub fn headers(&self) -> (r: Vec<String>)
        ensures
            r.deep_view() == self.header_names(),
    {
        clone_strings(&self.headers)
    }

    pub fn next_record(&mut self) -> (r: Option<InputRecord>)
        ensures
            final(self).header_names() == old(self).header_names(),
            match r {
                Some(x) => old(self).remaining().len() > 0 && x@ == old(self).remaining()[0]
                    && final(self).remaining() == old(self).remaining().drop_first(),
                None => old(self).remaining().len() == 0 && final(self).remaining() == old(
                    self,
                ).remaining(),
            },
    {
        self.records.next()
    }
}

} // verus!
