//! FlatGeobuf feature properties.
use vstd::prelude::*;

verus! {

/// Collects the properties of a feature as `(column name, value)` pairs.
pub struct PropCollector {
    props: Vec<(String, String)>,
    col_names: Vec<String>,
}

impl PropCollector {
    pub closed spec fn columns(&self) -> Seq<Seq<char>> {
        self.col_names.deep_view()
    }

    /// The properties collected so far.
    pub closed spec fn collected(&self) -> Seq<(Seq<char>, Seq<char>)> {
        self.props.deep_view()
    }

    /// A collector for a dataset with columns `col_names`.
    pub fn new(col_names: Vec<String>) -> (r: Self)
        ensures
            r.columns() == col_names.deep_view(),
            r.collected() == Seq::<(Seq<char>, Seq<char>)>::empty(),
    {
        let r = PropCollector { props: Vec::new(), col_names };
        assert(r.collected() =~= Seq::<(Seq<char>, Seq<char>)>::empty());
        r
    }

    /// The properties collected.
    pub fn into_props(self) -> (r: Vec<(String, String)>)
        ensures
            r.deep_view() == self.collected(),
    {
        self.props
    }

    /// Records property `idx` with `value`, under its column's name (empty where
    /// there is no such column); `false`, so that processing goes on.
    pub fn property(&mut self, idx: usize, value: String) -> (r: bool)
        ensures
            !r,
            final(self).columns() == old(self).columns(),
            final(self).collected() == old(self).collected().push(
                (
                    if idx < old(self).columns().len() {
                        old(self).columns()[idx as int]
                    } else {
                        Seq::empty()
                    },
                    value@,
                ),
            ),
    {
        let name = if idx < self.col_names.len() {
            assert(self.col_names.deep_view()[idx as int] == self.col_names@[idx as int]@);
            self.col_names[idx].clone()
        } else {
            String::new()
        };
        let ghost b = self.props.deep_view();
        let ghost nv = name@;
        self.props.push((name, value));
        assert(self.props.deep_view() =~= b.push((nv, value@)));
        false
    }
}

} // verus!
