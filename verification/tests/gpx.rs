use mgrs::formats::gpx::GpxOutput;
use mgrs::formats::gpx_input::{attr, GpxInput};
use mgrs::formats::ConvertedRow;

fn strings(v: &[&str]) -> Vec<String> {
    v.iter().map(|s| s.to_string()).collect()
}

fn row(fields: &[&str], headers: &[&str], lat: Option<f64>, lon: Option<f64>) -> ConvertedRow {
    ConvertedRow {
        fields: strings(fields),
        headers: strings(headers),
        latitude: lat.map(|v| v.to_string()),
        longitude: lon.map(|v| v.to_string()),
        mgrs_source: None,
    }
}

fn sample() -> &'static str {
    r#"<?xml version="1.0" encoding="UTF-8"?>
<gpx version="1.1" creator="mgrs" xmlns="http://www.topografix.com/GPX/1/1">
  <wpt lat="38.8977" lon="-77.0365"><name>White House</name></wpt>
  <wpt lat="51.5055" lon="-0.0754"><name>Tower Bridge</name></wpt>
</gpx>"#
}

#[test]
fn test_gpx_output_valid_structure() {
    let mut writer = GpxOutput::new(None);
    writer.write_header(&strings(&["Name"]));
    writer.write_row(&row(&["White House"], &["Name"], Some(38.8977), Some(-77.0365)));
    let output = writer.finish();
    assert!(output.contains("<?xml"));
    assert!(output.contains("<gpx"));
    assert!(output.contains("<wpt"));
    assert!(output.contains("lat=\"38.8977\""));
    assert!(output.contains("lon=\"-77.0365\""));
    assert!(output.contains("<name>White House</name>"));
}

#[test]
fn test_gpx_skips_rows_without_coordinates() {
    let mut writer = GpxOutput::new(None);
    writer.write_header(&strings(&["Name"]));
    writer.write_row(&row(&["NoCoords"], &["Name"], None, None));
    let output = writer.finish();
    assert!(!output.contains("<wpt"));
}

#[test]
fn test_gpx_uses_name_column() {
    let mut writer = GpxOutput::new(Some("Site".to_string()));
    writer.write_header(&strings(&["ID", "Site"]));
    writer.write_row(&row(&["1", "Alpha"], &["ID", "Site"], Some(51.0), Some(-0.1)));
    let output = writer.finish();
    assert!(output.contains("<name>Alpha</name>"));
}

#[test]
fn test_reads_waypoints() {
    let mut r = GpxInput::new(sample());
    assert!(r.next_record().is_some());
    assert!(r.next_record().is_some());
    assert!(r.next_record().is_none());
}

#[test]
fn gpx_input_test_extracts_coordinates() {
    let mut r = GpxInput::new(sample());
    let rec = r.next_record().unwrap();
    assert!((rec.latitude.unwrap().parse::<f64>().unwrap() - 38.8977).abs() < 0.0001);
    assert!((rec.longitude.unwrap().parse::<f64>().unwrap() - (-77.0365)).abs() < 0.0001);
}

#[test]
fn test_extracts_names() {
    let mut r = GpxInput::new(sample());
    let rec = r.next_record().unwrap();
    let name = rec.fields.iter().find(|(k, _)| k == "Name").unwrap();
    assert_eq!(name.1, "White House");
}

#[test]
fn gpx_input_test_roundtrip() {
    let mut w = GpxOutput::new(None);
    w.write_header(&strings(&["Name"]));
    w.write_row(&row(&["DC"], &["Name"], Some(38.8977), Some(-77.0365)));
    let buf = w.finish();
    let mut r = GpxInput::new(&buf);
    let rec = r.next_record().unwrap();
    assert!((rec.latitude.unwrap().parse::<f64>().unwrap() - 38.8977).abs() < 0.0001);
}

#[test]
fn gpx_waypoint_text_is_exact() {
    let mut w = GpxOutput::new(None);
    w.write_row(&row(&["A&B"], &["Name"], Some(1.25), Some(-2.5)));
    assert_eq!(
        w.finish(),
        "<?xml version=\"1.0\" encoding=\"UTF-8\"?>\n<gpx version=\"1.1\" creator=\"mgrs\"\n     xmlns=\"http://www.topografix.com/GPX/1/1\">\n  <wpt lat=\"1.25\" lon=\"-2.5\">\n    <name>A&amp;B</name>\n  </wpt>\n</gpx>\n"
    );
}

#[test]
fn gpx_roundtrip_keeps_order_names_and_text() {
    let mut w = GpxOutput::new(None);
    w.write_row(&row(&["First <1>"], &["Name"], Some(10.5), Some(20.25)));
    w.write_row(&row(&["Second"], &["Name"], Some(-1.0), Some(1e-7)));
    let doc = w.finish();
    let mut r = GpxInput::new(&doc);
    assert_eq!(r.headers(), strings(&["Name"]));
    let a = r.next_record().unwrap();
    assert_eq!(a.fields, vec![("Name".to_string(), "First <1>".to_string())]);
    assert_eq!(a.latitude.as_deref(), Some("10.5"));
    assert_eq!(a.longitude.as_deref(), Some("20.25"));
    let b = r.next_record().unwrap();
    assert_eq!(b.latitude.as_deref(), Some("-1"));
    assert_eq!(b.longitude.as_deref(), Some("0.0000001"));
    assert!(r.next_record().is_none());
}

#[test]
fn gpx_waypoint_without_name_reads_empty_name() {
    let mut r = GpxInput::new("<wpt lat=\"1\" lon=\"2\"></wpt>");
    let rec = r.next_record().unwrap();
    assert_eq!(rec.fields, vec![("Name".to_string(), String::new())]);
    assert_eq!(rec.latitude.as_deref(), Some("1"));
}

#[test]
fn gpx_attribute_values() {
    let tag: Vec<char> = "<wpt lat=\"38.5\" lon=\"x\">".chars().collect();
    let lat: String = attr(&tag, "lat").unwrap().into_iter().collect();
    assert_eq!(lat, "38.5");
    assert!(attr(&tag, "ele").is_none());
    let mut r = GpxInput::new("<wpt lat=\"38.5\" lon=\"x\"></wpt>");
    assert!(r.next_record().unwrap().longitude.is_none());
}
