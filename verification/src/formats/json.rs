//! JSON documents as the GeoJSON and TopoJSON readers walk them.
//!
//! The JSON text is parsed outside this module; each parsed value is handed in
//! one for one as a `JsonValue`, which keeps the text the readers need: a
//! number's JSON text and the text of its value as a coordinate, and the JSON
//! text of arrays, objects and booleans.
use vstd::prelude::*;
use crate::formats::geojson_input::{geometry_view, Feature, Geometry};
use crate::formats::topojson::{TopoJsonDocument, TopoObject};
use crate::text::{chars_eq, chars_of};

verus! {

/// A parsed JSON value.
pub enum JsonValue {
    Null,
    /// A string, with its contents.
    Text(String),
    /// `true` or `false`, with its JSON text.
    Boolean(String),
    /// A number: its JSON text, and its value written as a coordinate (where it
    /// has a floating-point value).
    Number { json: String, coordinate: Option<String> },
    /// An array: its JSON text and its items.
    Array { json: String, items: Vec<JsonValue> },
    /// An object: its JSON text and its members, in order, each name once.
    Object { json: String, members: Vec<(String, JsonValue)> },
}

/// The value of the member `key` of `ms`, where there is one.
pub open spec fn member(ms: Seq<(String, JsonValue)>, key: Seq<char>) -> Option<JsonValue>
    decreases ms.len(),
{
    if ms.len() == 0 {
        None
    } else if ms[0].0@ == key {
        Some(ms[0].1)
    } else {
        member(ms.drop_first(), key)
    }
}

/// The member `key` of `v` where `v` is an object that has it.
pub open spec fn get(v: JsonValue, key: Seq<char>) -> Option<JsonValue> {
    match v {
        JsonValue::Object { members, .. } => member(members@, key),
        _ => None,
    }
}

/// A value as the text of a property: a string's contents, nothing for
/// `null`, else the value's JSON text.
pub open spec fn json_text(v: JsonValue) -> Seq<char> {
    match v {
        JsonValue::Null => seq![],
        JsonValue::Text(s) => s@,
        JsonValue::Boolean(j) => j@,
        JsonValue::Number { json, .. } => json@,
        JsonValue::Array { json, .. } => json@,
        JsonValue::Object { json, .. } => json@,
    }
}

pub open spec fn properties_key() -> Seq<char> {
    seq!['p', 'r', 'o', 'p', 'e', 'r', 't', 'i', 'e', 's']
}

pub open spec fn type_key() -> Seq<char> {
    seq!['t', 'y', 'p', 'e']
}

pub open spec fn coordinates_key() -> Seq<char> {
    seq!['c', 'o', 'o', 'r', 'd', 'i', 'n', 'a', 't', 'e', 's']
}

pub open spec fn geometry_key() -> Seq<char> {
    seq!['g', 'e', 'o', 'm', 'e', 't', 'r', 'y']
}

pub open spec fn features_key() -> Seq<char> {
    seq!['f', 'e', 'a', 't', 'u', 'r', 'e', 's']
}

pub open spec fn objects_key() -> Seq<char> {
    seq!['o', 'b', 'j', 'e', 'c', 't', 's']
}

pub open spec fn geometries_key() -> Seq<char> {
    seq!['g', 'e', 'o', 'm', 'e', 't', 'r', 'i', 'e', 's']
}

/// The properties of `v`: the members of its `properties` object, each value as
/// text; `None` where it has no such object.
pub open spec fn properties_of(v: JsonValue) -> Option<Seq<(Seq<char>, Seq<char>)>> {
    match get(v, properties_key()) {
        Some(JsonValue::Object { members, .. }) => Some(
            members@.map_values(|m: (String, JsonValue)| (m.0@, json_text(m.1))),
        ),
        _ => None,
    }
}

/// A coordinate item: the value of a number, nothing for anything else.
pub open spec fn coordinate_of(v: JsonValue) -> Option<Seq<char>> {
    match v {
        JsonValue::Number { coordinate, .. } => coordinate.deep_view(),
        _ => None,
    }
}

/// The geometry `g` as a reader sees it: none where it is missing or `null`;
/// else its `type` where that is a string, and its `coordinates` where they are
/// an array.
pub open spec fn geometry_of(g: Option<JsonValue>) -> Option<
    (Option<Seq<char>>, Option<Seq<Option<Seq<char>>>>),
> {
    match g {
        None => None,
        Some(JsonValue::Null) => None,
        Some(x) => Some(
            (
                match get(x, type_key()) {
                    Some(JsonValue::Text(t)) => Some(t@),
                    _ => None,
                },
                match get(x, coordinates_key()) {
                    Some(JsonValue::Array { items, .. }) => Some(
                        items@.map_values(|i: JsonValue| coordinate_of(i)),
                    ),
                    _ => None,
                },
            ),
        ),
    }
}

/// `f` is the feature read from `v`, whose geometry is `g`.
pub open spec fn is_feature_of(f: Feature, v: JsonValue, g: Option<JsonValue>) -> bool {
    f.properties.deep_view() == properties_of(v) && geometry_view(f.geometry) == geometry_of(g)
}

/// The member `key` of `v`, where `v` is an object that has it.
pub fn get_member<'a>(v: &'a JsonValue, key: &str) -> (r: Option<&'a JsonValue>)
    ensures
        match r {
            Some(x) => get(*v, key@) == Some(*x),
            None => get(*v, key@) is None,
        },
{
    match v {
        JsonValue::Object { members, .. } => {
            let k = chars_of(key);
            let mut i: usize = 0;
            assert(members@.skip(0) =~= members@);
            while i < members.len()
                invariant
                    i <= members@.len(),
                    k@ == key@,
                    get(*v, key@) == member(members@, key@),
                    member(members@, key@) == member(members@.skip(i as int), key@),
                decreases members@.len() - i,
            {
                let ghost rest = members@.skip(i as int);
                assert(rest.drop_first() =~= members@.skip(i + 1));
                assert(rest[0] == members@[i as int]);
                let name = chars_of(members[i].0.as_str());
                if chars_eq(&name, &k) {
                    assert(rest[0].0@ == key@);
                    assert(member(rest, key@) == Some(rest[0].1));
                    return Some(&members[i].1);
                }
                i = i + 1;
            }
            assert(members@.skip(i as int) =~= Seq::<(String, JsonValue)>::empty());
            None
        },
        _ => None,
    }
}

/// The text of a property keeps every value but `null`: a string gives its
/// contents, `true`, `false`, a number, an array and an object give their JSON
/// text, and only `null` gives the empty text.
pub proof fn lemma_property_text(v: JsonValue)
    ensures
        (v is Null) ==> json_text(v) == Seq::<char>::empty(),
        v matches JsonValue::Text(s) ==> json_text(v) == s@,
        v matches JsonValue::Boolean(j) ==> json_text(v) == j@,
        v matches JsonValue::Number { json, .. } ==> json_text(v) == json@,
        v matches JsonValue::Array { json, .. } ==> json_text(v) == json@,
        v matches JsonValue::Object { json, .. } ==> json_text(v) == json@,
{
}

/// `v` as the text of a property.
pub fn value_text(v: &JsonValue) -> (r: String)
    ensures
        r@ == json_text(*v),
        (*v is Null) ==> r@ == Seq::<char>::empty(),
        *v matches JsonValue::Text(s) ==> r@ == s@,
        *v matches JsonValue::Boolean(j) ==> r@ == j@,
        *v matches JsonValue::Number { json, .. } ==> r@ == json@,
        *v matches JsonValue::Array { json, .. } ==> r@ == json@,
        *v matches JsonValue::Object { json, .. } ==> r@ == json@,
{
    match v {
        JsonValue::Null => String::new(),
        JsonValue::Text(s) => s.clone(),
        JsonValue::Boolean(j) => j.clone(),
        JsonValue::Number { json, .. } => json.clone(),
        JsonValue::Array { json, .. } => json.clone(),
        JsonValue::Object { json, .. } => json.clone(),
    }
}

/// The properties of `v`, each value as text.
pub fn properties(v: &JsonValue) -> (r: Option<Vec<(String, String)>>)
    ensures
        r.deep_view() == properties_of(*v),
{
    proof {
        reveal_strlit("properties");
    }
    assert("properties"@ == properties_key());
    match get_member(v, "properties") {
        Some(JsonValue::Object { members, .. }) => {
            let ghost want = members@.map_values(
                |m: (String, JsonValue)| (m.0@, json_text(m.1)),
            );
            let mut out: Vec<(String, String)> = Vec::new();
            let mut i: usize = 0;
            while i < members.len()
                invariant
                    i <= members@.len(),
                    want == members@.map_values(|m: (String, JsonValue)| (m.0@, json_text(m.1))),
                    out.deep_view() == want.take(i as int),
                decreases members@.len() - i,
            {
                let k = members[i].0.clone();
                let t = value_text(&members[i].1);
                let ghost b = out.deep_view();
                out.push((k, t));
                assert(out.deep_view() =~= b.push((k@, t@)));
                assert(want.take(i + 1) =~= want.take(i as int).push(want[i as int]));
                i = i + 1;
            }
            assert(want.take(members@.len() as int) =~= want);
            Some(out)
        },
        _ => None,
    }
}

/// The geometry `g` as a reader sees it.
pub fn geometry(g: Option<&JsonValue>) -> (r: Option<Geometry>)
    ensures
        geometry_view(r) == geometry_of(
            match g {
                Some(x) => Some(*x),
                None => None,
            },
        ),
{
    proof {
        reveal_strlit("type");
        reveal_strlit("coordinates");
    }
    assert("type"@ == type_key() && "coordinates"@ == coordinates_key());
    let x = match g {
        None => return None,
        Some(JsonValue::Null) => return None,
        Some(x) => x,
    };
    let kind = match get_member(x, "type") {
        Some(JsonValue::Text(t)) => Some(t.clone()),
        _ => None,
    };
    let coordinates = match get_member(x, "coordinates") {
        Some(JsonValue::Array { items, .. }) => {
            let ghost want = items@.map_values(|i: JsonValue| coordinate_of(i));
            let mut out: Vec<Option<String>> = Vec::new();
            let mut i: usize = 0;
            while i < items.len()
                invariant
                    i <= items@.len(),
                    want == items@.map_values(|i: JsonValue| coordinate_of(i)),
                    out.deep_view() == want.take(i as int),
                decreases items@.len() - i,
            {
                let c = match &items[i] {
                    JsonValue::Number { coordinate, .. } => match coordinate {
                        Some(c) => Some(c.clone()),
                        None => None,
                    },
                    _ => None,
                };
                let ghost b = out.deep_view();
                out.push(c);
                assert(out.deep_view() =~= b.push(c.deep_view()));
                assert(want.take(i + 1) =~= want.take(i as int).push(want[i as int]));
                i = i + 1;
            }
            assert(want.take(items@.len() as int) =~= want);
            Some(out)
        },
        _ => None,
    };
    Some(Geometry { kind, coordinates })
}

/// The features of a list of JSON values; `geometry_of_member` tells whether each
/// feature's geometry is its `geometry` member (GeoJSON) or the value itself
/// (TopoJSON).
fn features_of(items: &Vec<JsonValue>, geometry_of_member: bool) -> (r: Vec<Feature>)
    ensures
        r@.len() == items@.len(),
        forall|i: int|
            0 <= i < items@.len() ==> is_feature_of(
                #[trigger] r@[i],
                items@[i],
                if geometry_of_member {
                    get(items@[i], geometry_key())
                } else {
                    Some(items@[i])
                },
            ),
{
    proof {
        reveal_strlit("geometry");
    }
    assert("geometry"@ == geometry_key());
    let mut out: Vec<Feature> = Vec::new();
    let mut i: usize = 0;
    while i < items.len()
        invariant
            i <= items@.len(),
            out@.len() == i,
            "geometry"@ == geometry_key(),
            forall|j: int|
                0 <= j < i ==> is_feature_of(
                    #[trigger] out@[j],
                    items@[j],
                    if geometry_of_member {
                        get(items@[j], geometry_key())
                    } else {
                        Some(items@[j])
                    },
                ),
        decreases items@.len() - i,
    {
        let v = &items[i];
        let g = if geometry_of_member {
            get_member(v, "geometry")
        } else {
            Some(v)
        };
        let f = Feature { properties: properties(v), geometry: geometry(g) };
        out.push(f);
        i = i + 1;
    }
    out
}

/// The features of a GeoJSON document: one per item of its `features` array,
/// with the item's properties and its `geometry` member; `None` where the
/// document has no `features` array.
pub fn geojson_features(doc: &JsonValue) -> (r: Option<Vec<Feature>>)
    ensures
        match get(*doc, features_key()) {
            Some(JsonValue::Array { items, .. }) => r matches Some(fs) && fs@.len() == items@.len()
                && forall|i: int|
                0 <= i < items@.len() ==> is_feature_of(
                    #[trigger] fs@[i],
                    items@[i],
                    get(items@[i], geometry_key()),
                ),
            _ => r is None,
        },
{
    proof {
        reveal_strlit("features");
    }
    assert("features"@ == features_key());
    match get_member(doc, "features") {
        Some(JsonValue::Array { items, .. }) => Some(features_of(items, true)),
        _ => None,
    }
}

/// A TopoJSON document as the reader sees it: its `type` where that is a
/// string, and, where its `objects` member is an object, each object's
/// `geometries` array in order, every item a feature whose geometry is the item.
pub fn topojson_document(doc: &JsonValue) -> (r: TopoJsonDocument)
    ensures
        r.kind.deep_view() == match get(*doc, type_key()) {
            Some(JsonValue::Text(t)) => Some(t@),
            _ => None,
        },
        match get(*doc, objects_key()) {
            Some(JsonValue::Object { members, .. }) => r.objects matches Some(os) && os@.len()
                == members@.len() && forall|i: int|
                0 <= i < members@.len() ==> match get(members@[i].1, geometries_key()) {
                    Some(JsonValue::Array { items, .. }) => (#[trigger] os@[i]).geometries matches Some(
                        gs,
                    ) && gs@.len() == items@.len() && forall|j: int|
                        0 <= j < items@.len() ==> is_feature_of(
                            #[trigger] gs@[j],
                            items@[j],
                            Some(items@[j]),
                        ),
                    _ => os@[i].geometries is None,
                },
            _ => r.objects is None,
        },
{
    proof {
        reveal_strlit("type");
        reveal_strlit("objects");
        reveal_strlit("geometries");
    }
    assert("type"@ == type_key() && "objects"@ == objects_key() && "geometries"@
        == geometries_key());
    let kind = match get_member(doc, "type") {
        Some(JsonValue::Text(t)) => Some(t.clone()),
        _ => None,
    };
    let objects = match get_member(doc, "objects") {
        Some(JsonValue::Object { members, .. }) => {
            let mut os: Vec<TopoObject> = Vec::new();
            let mut i: usize = 0;
            while i < members.len()
                invariant
                    i <= members@.len(),
                    os@.len() == i,
                    "geometries"@ == geometries_key(),
                    forall|k: int|
                        0 <= k < i ==> match get(members@[k].1, geometries_key()) {
                            Some(JsonValue::Array { items, .. }) => (#[trigger] os@[k]).geometries matches Some(
                                gs,
                            ) && gs@.len() == items@.len() && forall|j: int|
                                0 <= j < items@.len() ==> is_feature_of(
                                    #[trigger] gs@[j],
                                    items@[j],
                                    Some(items@[j]),
                                ),
                            _ => os@[k].geometries is None,
                        },
                decreases members@.len() - i,
            {
                let geometries = match get_member(&members[i].1, "geometries") {
                    Some(JsonValue::Array { items, .. }) => Some(features_of(items, false)),
                    _ => None,
                };
                os.push(TopoObject { geometries });
                i = i + 1;
            }
            Some(os)
        },
        _ => None,
    };
    TopoJsonDocument { kind, objects }
}

} // verus!
