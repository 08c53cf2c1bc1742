use mgrs::formats::wkt::{parse_wkt_point, WktInput, WktOutput};
use mgrs::formats::ConvertedRow;

fn row(lat: Option<f64>, lon: Option<f64>) -> ConvertedRow {
    ConvertedRow {
        fields: vec![],
        headers: vec![],
        latitude: lat.map(|v| v.to_string()),
        longitude: lon.map(|v| v.to_string()),
        mgrs_source: None,
    }
}

#[test]
fn test_wkt_output_single_point() {
    let mut w = WktOutput::new();
    w.write_header(&vec!["Name".to_string()]);
    let mut out = String::new();
    let mut r = row(Some(38.8977), Some(-77.0365));
    r.fields = vec!["DC".to_string()];
    r.headers = vec!["Name".to_string()];
    out.push_str(&w.write_row(&r));
    assert_eq!(out.trim(), "POINT(-77.0365 38.8977)");
}

#[test]
fn test_wkt_output_multiple_points() {
    let mut w = WktOutput::new();
    w.write_header(&vec![]);
    let mut out = String::new();
    for i in 0..3 {
        out.push_str(&w.write_row(&row(Some(38.0 + i as f64), Some(-77.0 + i as f64))));
    }
    let lines: Vec<&str> = out.trim().lines().collect();
    assert_eq!(lines.len(), 3);
}

#[test]
fn test_wkt_output_skips_missing_coords() {
    let mut w = WktOutput::new();
    w.write_header(&vec![]);
    let out = w.write_row(&row(None, None));
    assert!(out.trim().is_empty());
}

#[test]
fn test_wkt_input_parses_point() {
    let data = "POINT(-77.0365 38.8977)\n";
    let mut r = WktInput::new(data);
    let rec = r.next_record().unwrap();
    assert!((rec.latitude.unwrap().parse::<f64>().unwrap() - 38.8977).abs() < 0.0001);
    assert!((rec.longitude.unwrap().parse::<f64>().unwrap() - (-77.0365)).abs() < 0.0001);
}

#[test]
fn test_wkt_input_handles_whitespace() {
    let data = "  POINT( -77.0365  38.8977 )  \n";
    let mut r = WktInput::new(data);
    assert!(r.next_record().unwrap().latitude.is_some());
}

#[test]
fn test_wkt_roundtrip() {
    let mut w = WktOutput::new();
    w.write_header(&vec![]);
    let buf = w.write_row(&row(Some(38.8977), Some(-77.0365)));
    let mut r = WktInput::new(&buf);
    let rec = r.next_record().unwrap();
    assert!((rec.latitude.unwrap().parse::<f64>().unwrap() - 38.8977).abs() < 0.0001);
    assert!(r.next_record().is_none());
}

#[test]
fn wkt_line_is_exact() {
    let mut w = WktOutput::new();
    assert_eq!(w.write_row(&row(Some(1.5), Some(-2.0))), "POINT(-2 1.5)\n");
}

#[test]
fn wkt_records_carry_latitude_and_longitude_fields() {
    let mut r = WktInput::new("point(1 2)\n\nnot a point\r\nPOINT (3.5 -4)");
    assert_eq!(r.headers(), vec!["Latitude".to_string(), "Longitude".to_string()]);
    let a = r.next_record().unwrap();
    assert_eq!(a.fields, vec![
        ("Latitude".to_string(), "2".to_string()),
        ("Longitude".to_string(), "1".to_string()),
    ]);
    let b = r.next_record().unwrap();
    assert_eq!(b.latitude.as_deref(), Some("-4"));
    assert_eq!(b.longitude.as_deref(), Some("3.5"));
    assert!(r.next_record().is_none());
}

#[test]
fn wkt_point_parsing_edge_cases() {
    let p = |s: &str| parse_wkt_point(&s.chars().collect());
    assert_eq!(p("POINT(1 2)"), Some(("1".to_string(), "2".to_string())));
    assert_eq!(p("POINT(1e3 +2.)"), Some(("1e3".to_string(), "+2.".to_string())));
    assert_eq!(p("POINT(1 2 3)"), None);
    assert_eq!(p("POINT(1)"), None);
    assert_eq!(p("POINT(a b)"), None);
    assert_eq!(p("POINT 1 2"), None);
    assert_eq!(p("LINE(1 2)"), None);
    assert_eq!(p("POIN"), None);
}

#[test]
fn wkt_roundtrip_of_many_points() {
    let mut w = WktOutput::new();
    let mut doc = String::new();
    let coords = [(10.5, 20.25), (-33.0, 151.0), (0.001, -0.002)];
    for (lat, lon) in coords.iter() {
        doc.push_str(&w.write_row(&row(Some(*lat), Some(*lon))));
    }
    let mut r = WktInput::new(&doc);
    for (lat, lon) in coords.iter() {
        let rec = r.next_record().unwrap();
        assert_eq!(rec.latitude, Some(lat.to_string()));
        assert_eq!(rec.longitude, Some(lon.to_string()));
    }
    assert!(r.next_record().is_none());
}
