use mgrs::formats::geojson_input::{GeoJsonInput, JsonInputError};
use mgrs::formats::json::{geojson_features, get_member, properties, topojson_document, JsonValue};
use mgrs::formats::topojson::TopoJsonInput;

fn text(s: &str) -> JsonValue {
    JsonValue::Text(s.to_string())
}

fn num(json: &str) -> JsonValue {
    JsonValue::Number { json: json.to_string(), coordinate: Some(json.to_string()) }
}

fn obj(members: Vec<(&str, JsonValue)>) -> JsonValue {
    JsonValue::Object {
        json: "{}".to_string(),
        members: members.into_iter().map(|(k, v)| (k.to_string(), v)).collect(),
    }
}

fn arr(items: Vec<JsonValue>) -> JsonValue {
    JsonValue::Array { json: "[]".to_string(), items }
}

fn point(lon: &str, lat: &str) -> JsonValue {
    obj(vec![("type", text("Point")), ("coordinates", arr(vec![num(lon), num(lat)]))])
}

// {"type":"FeatureCollection","features":[{"type":"Feature",
//  "geometry":{"type":"Point","coordinates":[-77.0365,38.8977]},
//  "properties":{"Name":"White House","Floors":6,"Note":null}}]}
fn collection() -> JsonValue {
    obj(vec![
        ("type", text("FeatureCollection")),
        (
            "features",
            arr(vec![obj(vec![
                ("type", text("Feature")),
                ("geometry", point("-77.0365", "38.8977")),
                (
                    "properties",
                    obj(vec![("Name", text("White House")), ("Floors", num("6")), ("Note", JsonValue::Null)]),
                ),
            ])]),
        ),
    ])
}

#[test]
fn members_are_found_by_name() {
    let doc = collection();
    assert!(matches!(get_member(&doc, "type"), Some(JsonValue::Text(t)) if t == "FeatureCollection"));
    assert!(get_member(&doc, "nothing").is_none());
    assert!(get_member(&text("x"), "type").is_none());
}

#[test]
fn property_values_become_text() {
    let feat = obj(vec![("properties", obj(vec![("a", text("x")), ("b", num("2.50")), ("c", JsonValue::Null)]))]);
    assert_eq!(
        properties(&feat),
        Some(vec![
            ("a".to_string(), "x".to_string()),
            ("b".to_string(), "2.50".to_string()),
            ("c".to_string(), String::new()),
        ])
    );
    assert_eq!(properties(&obj(vec![("properties", text("no"))])), None);
}

#[test]
fn geojson_documents_give_their_features() {
    let fs = geojson_features(&collection()).unwrap();
    let mut r = GeoJsonInput::new(Some(fs)).unwrap();
    assert_eq!(r.headers(), vec!["Name".to_string(), "Floors".to_string(), "Note".to_string()]);
    let rec = r.next_record().unwrap();
    assert_eq!(rec.latitude.as_deref(), Some("38.8977"));
    assert_eq!(rec.longitude.as_deref(), Some("-77.0365"));
    assert_eq!(rec.fields[1], ("Floors".to_string(), "6".to_string()));
    assert!(geojson_features(&obj(vec![("type", text("FeatureCollection"))])).is_none());
    assert!(matches!(
        GeoJsonInput::new(geojson_features(&obj(vec![("features", text("x"))]))),
        Err(JsonInputError::MissingFeatures)
    ));
}

#[test]
fn topojson_documents_give_their_geometries() {
    // {"type":"Topology","objects":{"points":{"type":"GeometryCollection",
    //  "geometries":[{"type":"Point","coordinates":[-77.0365,38.8977],
    //  "properties":{"Name":"DC"}}]}},"arcs":[]}
    let g = obj(vec![
        ("type", text("Point")),
        ("coordinates", arr(vec![num("-77.0365"), num("38.8977")])),
        ("properties", obj(vec![("Name", text("DC"))])),
    ]);
    let doc = obj(vec![
        ("type", text("Topology")),
        ("objects", obj(vec![("points", obj(vec![("type", text("GeometryCollection")), ("geometries", arr(vec![g]))]))])),
        ("arcs", arr(vec![])),
    ]);
    let mut r = TopoJsonInput::new(topojson_document(&doc)).unwrap();
    let rec = r.next_record().unwrap();
    assert_eq!(rec.latitude.as_deref(), Some("38.8977"));
    assert_eq!(rec.fields, vec![("Name".to_string(), "DC".to_string())]);
    assert!(r.next_record().is_none());
    let not_topology = obj(vec![("type", text("FeatureCollection")), ("objects", obj(vec![]))]);
    assert!(matches!(TopoJsonInput::new(topojson_document(&not_topology)), Err(JsonInputError::NotTopology)));
    let no_objects = obj(vec![("type", text("Topology"))]);
    assert!(matches!(TopoJsonInput::new(topojson_document(&no_objects)), Err(JsonInputError::MissingObjects)));
}
