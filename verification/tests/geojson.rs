use mgrs::formats::geojson_input::{
    feature_table, point_of, Feature, GeoJsonInput, Geometry, JsonInputError,
};
use mgrs::formats::topojson::{TopoJsonDocument, TopoJsonInput, TopoObject};

fn props(p: &[(&str, &str)]) -> Option<Vec<(String, String)>> {
    Some(p.iter().map(|(k, v)| (k.to_string(), v.to_string())).collect())
}

fn point(lat: f64, lon: f64) -> Option<Geometry> {
    Some(Geometry {
        kind: Some("Point".to_string()),
        coordinates: Some(vec![Some(lon.to_string()), Some(lat.to_string())]),
    })
}

// The features of the collection
// {"type":"FeatureCollection","features":[
//   {"geometry":{"type":"Point","coordinates":[-77.0365,38.8977]},
//    "properties":{"Name":"White House","MGRS":"18SUJ2337006519"}},
//   {"geometry":{"type":"Point","coordinates":[-0.0754,51.5055]},
//    "properties":{"Name":"Tower Bridge","MGRS":"30UXC9983606474"}}]}
// as the JSON reader hands them over (object keys in sorted order).
fn sample() -> Vec<Feature> {
    vec![
        Feature {
            properties: props(&[("MGRS", "18SUJ2337006519"), ("Name", "White House")]),
            geometry: point(38.8977, -77.0365),
        },
        Feature {
            properties: props(&[("MGRS", "30UXC9983606474"), ("Name", "Tower Bridge")]),
            geometry: point(51.5055, -0.0754),
        },
    ]
}

#[test]
fn test_reads_features() {
    let mut r = GeoJsonInput::new(Some(sample())).unwrap();
    assert!(r.next_record().is_some());
    assert!(r.next_record().is_some());
    assert!(r.next_record().is_none());
}

#[test]
fn geojson_input_test_extracts_coordinates() {
    let mut r = GeoJsonInput::new(Some(sample())).unwrap();
    let rec = r.next_record().unwrap();
    assert!((rec.latitude.unwrap().parse::<f64>().unwrap() - 38.8977).abs() < 0.0001);
    assert!((rec.longitude.unwrap().parse::<f64>().unwrap() - (-77.0365)).abs() < 0.0001);
}

#[test]
fn test_extracts_properties() {
    let mut r = GeoJsonInput::new(Some(sample())).unwrap();
    let hdrs = r.headers();
    assert!(hdrs.contains(&"Name".to_string()));
    let rec = r.next_record().unwrap();
    let name = rec.fields.iter().find(|(k, _)| k == "Name").unwrap();
    assert_eq!(name.1, "White House");
}

// {"type":"Topology","objects":{"points":{"type":"GeometryCollection",
//  "geometries":[{"type":"Point","coordinates":[-77.0365,38.8977],
//  "properties":{"Name":"DC"}}]}},"arcs":[]}
#[test]
fn test_input_reads_topology() {
    let geoms = vec![Feature { properties: props(&[("Name", "DC")]), geometry: point(38.8977, -77.0365) }];
    let doc = TopoJsonDocument {
        kind: Some("Topology".to_string()),
        objects: Some(vec![TopoObject { geometries: Some(geoms) }]),
    };
    let mut r = TopoJsonInput::new(doc).unwrap();
    let rec = r.next_record().unwrap();
    assert!((rec.latitude.unwrap().parse::<f64>().unwrap() - 38.8977).abs() < 0.0001);
}

#[test]
fn feature_columns_follow_first_appearance() {
    let fs = vec![
        Feature { properties: props(&[("B", "1"), ("A", "2")]), geometry: None },
        Feature { properties: None, geometry: None },
        Feature { properties: props(&[("C", "3"), ("B", "4")]), geometry: None },
    ];
    let (keys, records) = feature_table(fs);
    assert_eq!(keys, vec!["B".to_string(), "A".to_string(), "C".to_string()]);
    assert_eq!(records[0].fields, vec![
        ("B".to_string(), "1".to_string()),
        ("A".to_string(), "2".to_string()),
        ("C".to_string(), String::new()),
    ]);
    assert!(records[1].fields.is_empty());
    assert_eq!(records[2].fields[0], ("B".to_string(), "4".to_string()));
}

#[test]
fn features_without_point_have_no_coordinate() {
    let fs = vec![Feature { properties: props(&[("Name", "X")]), geometry: None }];
    let mut r = GeoJsonInput::new(Some(fs)).unwrap();
    let rec = r.next_record().unwrap();
    assert!(rec.latitude.is_none() && rec.longitude.is_none());
    assert!(r.next_record().is_none());
}

#[test]
fn only_points_with_numeric_coordinates_have_a_coordinate() {
    let g = |kind: &str, c: Vec<Option<&str>>| {
        Some(Geometry {
            kind: Some(kind.to_string()),
            coordinates: Some(c.into_iter().map(|x| x.map(|s| s.to_string())).collect()),
        })
    };
    assert_eq!(point_of(&g("Point", vec![Some("-77"), Some("38.5")])), (Some("38.5".to_string()), Some("-77".to_string())));
    assert_eq!(point_of(&g("Point", vec![Some("1"), Some("2"), Some("3")])), (Some("2".to_string()), Some("1".to_string())));
    assert_eq!(point_of(&g("LineString", vec![Some("1"), Some("2")])), (None, None));
    assert_eq!(point_of(&g("Point", vec![Some("1")])), (None, None));
    assert_eq!(point_of(&g("Point", vec![None, Some("2")])), (None, None));
    assert_eq!(point_of(&Some(Geometry { kind: None, coordinates: None })), (None, None));
    assert_eq!(point_of(&None), (None, None));
}

#[test]
fn geojson_without_features_is_refused() {
    assert!(matches!(GeoJsonInput::new(None), Err(JsonInputError::MissingFeatures)));
}

#[test]
fn topojson_documents_are_checked() {
    let doc = |kind: Option<&str>, objects: Option<Vec<TopoObject>>| TopoJsonDocument {
        kind: kind.map(|k| k.to_string()),
        objects,
    };
    assert!(matches!(
        TopoJsonInput::new(doc(Some("FeatureCollection"), Some(vec![]))),
        Err(JsonInputError::NotTopology)
    ));
    assert!(matches!(TopoJsonInput::new(doc(None, Some(vec![]))), Err(JsonInputError::NotTopology)));
    assert!(matches!(TopoJsonInput::new(doc(Some("Topology"), None)), Err(JsonInputError::MissingObjects)));
}

#[test]
fn topojson_geometries_come_object_after_object() {
    let f = |name: &str| Feature { properties: props(&[("Name", name)]), geometry: point(1.0, 2.0) };
    let objects = vec![
        TopoObject { geometries: Some(vec![f("a"), f("b")]) },
        TopoObject { geometries: None },
        TopoObject { geometries: Some(vec![f("c")]) },
    ];
    let mut r = TopoJsonInput::new(TopoJsonDocument { kind: Some("Topology".to_string()), objects: Some(objects) })
        .unwrap();
    let mut names = Vec::new();
    while let Some(rec) = r.next_record() {
        names.push(rec.fields[0].1.clone());
    }
    assert_eq!(names, vec!["a", "b", "c"]);
}
