use mgrs::formats::kml::{escape_xml, KmlOutput};
use mgrs::formats::kml_input::{unescape, KmlInput};
use mgrs::formats::ConvertedRow;

fn strings(v: &[&str]) -> Vec<String> {
    v.iter().map(|s| s.to_string()).collect()
}

fn row(fields: &[&str], headers: &[&str], lat: Option<f64>, lon: Option<f64>) -> ConvertedRow {
    ConvertedRow {
        fields: strings(fields),
        headers: strings(headers),
        latitude: lat.map(|v| v.to_string()),
        longitude: lon.map(|v| v.to_string()),
        mgrs_source: None,
    }
}

fn sample() -> &'static str {
    r#"<?xml version="1.0" encoding="UTF-8"?>
<kml xmlns="http://www.opengis.net/kml/2.2"><Document>
    <Placemark><name>White House</name>
      <ExtendedData>
        <Data name="Name"><value>White House</value></Data>
        <Data name="MGRS"><value>18SUJ2337006519</value></Data>
      </ExtendedData>
      <Point><coordinates>-77.0365,38.8977,0</coordinates></Point>
    </Placemark>
</Document></kml>"#
}

#[test]
fn test_kml_output_valid_structure() {
    let mut writer = KmlOutput::new(None);
    writer.write_header(&strings(&["Name", "MGRS"]));
    let mut r = row(
        &["White House", "18SUJ2337006519"],
        &["Name", "MGRS"],
        Some(38.8977),
        Some(-77.0365),
    );
    r.mgrs_source = Some("18SUJ2337006519".to_string());
    writer.write_row(&r);
    let output = writer.finish();
    assert!(output.contains("<?xml"));
    assert!(output.contains("<kml"));
    assert!(output.contains("<Placemark>"));
    assert!(output.contains("<name>White House</name>"));
    assert!(output.contains("-77.0365,38.8977"));
}

#[test]
fn test_kml_uses_name_column() {
    let mut writer = KmlOutput::new(Some("Location".to_string()));
    writer.write_header(&strings(&["ID", "Location"]));
    writer.write_row(&row(&["1", "My Place"], &["ID", "Location"], Some(38.0), Some(-77.0)));
    let output = writer.finish();
    assert!(output.contains("<name>My Place</name>"));
}

#[test]
fn test_kml_skips_rows_without_coordinates() {
    let mut writer = KmlOutput::new(None);
    writer.write_header(&strings(&["Name"]));
    writer.write_row(&row(&["NoCoords"], &["Name"], None, None));
    let output = writer.finish();
    assert!(!output.contains("<Placemark>"));
}

#[test]
fn test_reads_placemarks() {
    let mut r = KmlInput::new(sample());
    assert!(r.next_record().is_some());
    assert!(r.next_record().is_none());
}

#[test]
fn kml_input_test_extracts_coordinates() {
    let mut r = KmlInput::new(sample());
    let rec = r.next_record().unwrap();
    assert!((rec.latitude.unwrap().parse::<f64>().unwrap() - 38.8977).abs() < 0.0001);
    assert!((rec.longitude.unwrap().parse::<f64>().unwrap() - (-77.0365)).abs() < 0.0001);
}

#[test]
fn test_extracts_extended_data() {
    let mut r = KmlInput::new(sample());
    assert!(r.headers().contains(&"MGRS".to_string()));
    let rec = r.next_record().unwrap();
    let name = rec.fields.iter().find(|(k, _)| k == "Name").unwrap();
    assert_eq!(name.1, "White House");
}

#[test]
fn kml_input_test_roundtrip() {
    let mut w = KmlOutput::new(None);
    w.write_header(&strings(&["Name"]));
    w.write_row(&row(&["DC"], &["Name"], Some(38.8977), Some(-77.0365)));
    let buf = w.finish();
    let mut r = KmlInput::new(&buf);
    let rec = r.next_record().unwrap();
    assert!((rec.latitude.unwrap().parse::<f64>().unwrap() - 38.8977).abs() < 0.0001);
}

#[test]
fn kml_escapes_names_and_data() {
    let mut w = KmlOutput::new(None);
    w.write_header(&strings(&["Name", "Note"]));
    w.write_row(&row(&["A & B <C>", "\"q\" 'a'"], &["Name", "Note"], Some(1.5), Some(2.5)));
    let out = w.finish();
    assert!(out.contains("<name>A &amp; B &lt;C&gt;</name>"));
    assert!(out.contains("<Data name=\"Note\"><value>&quot;q&quot; &apos;a&apos;</value></Data>"));
    assert!(out.contains("<coordinates>2.5,1.5,0</coordinates>"));
}

#[test]
fn kml_names_fall_back_to_first_text_field_then_unnamed() {
    let mut w = KmlOutput::new(Some("Missing".to_string()));
    w.write_header(&strings(&["A", "B"]));
    w.write_row(&row(&["12.5", "Harbor"], &["A", "B"], Some(1.0), Some(2.0)));
    w.write_row(&row(&["12.5", "  "], &["A", "B"], Some(1.0), Some(2.0)));
    let out = w.finish();
    assert!(out.contains("<name>Harbor</name>"));
    assert!(out.contains("<name>Unnamed</name>"));
}

#[test]
fn kml_document_frame_is_exact() {
    let w = KmlOutput::new(None);
    assert_eq!(
        w.finish(),
        "<?xml version=\"1.0\" encoding=\"UTF-8\"?>\n<kml xmlns=\"http://www.opengis.net/kml/2.2\">\n  <Document>\n\n  </Document>\n</kml>\n"
    );
}

#[test]
fn kml_roundtrip_keeps_names_data_and_coordinates() {
    let mut w = KmlOutput::new(None);
    w.write_header(&strings(&["Name", "Code"]));
    w.write_row(&row(&["Fish & Chips", "20001"], &["Name", "Code"], Some(51.5055), Some(-0.0754)));
    w.write_row(&row(&["<Second>", "x"], &["Name", "Code"], Some(-33.5), Some(151.25)));
    let doc = w.finish();
    let mut r = KmlInput::new(&doc);
    assert_eq!(r.headers(), strings(&["Name", "Code"]));
    let a = r.next_record().unwrap();
    assert_eq!(a.fields, vec![
        ("Name".to_string(), "Fish & Chips".to_string()),
        ("Code".to_string(), "20001".to_string()),
    ]);
    assert_eq!(a.latitude.as_deref(), Some("51.5055"));
    assert_eq!(a.longitude.as_deref(), Some("-0.0754"));
    let b = r.next_record().unwrap();
    assert_eq!(b.fields[0].1, "<Second>");
    assert_eq!(b.latitude.as_deref(), Some("-33.5"));
    assert!(r.next_record().is_none());
}

#[test]
fn kml_input_rejects_non_numeric_coordinates() {
    let doc = "<Placemark><name>X</name><coordinates>abc,def,0</coordinates></Placemark>";
    let mut r = KmlInput::new(doc);
    let rec = r.next_record().unwrap();
    assert!(rec.latitude.is_none());
    assert!(rec.longitude.is_none());
}

#[test]
fn escape_xml_replaces_the_five_specials() {
    assert_eq!(escape_xml("a&b<c>d\"e'f"), "a&amp;b&lt;c&gt;d&quot;e&apos;f");
    assert_eq!(escape_xml("plain"), "plain");
}

#[test]
fn unescape_decodes_amp_first() {
    let s: Vec<char> = "&amp;lt; &lt;x&gt; &quot;&apos;".chars().collect();
    let u: String = unescape(&s).into_iter().collect();
    assert_eq!(u, "< <x> \"'");
}

#[test]
fn unescape_undoes_escape() {
    for s in ["plain", "A & B", "<tag attr=\"v\">", "it's", "&amp; stays", "&&;"] {
        let e: Vec<char> = escape_xml(s).chars().collect();
        let back: String = unescape(&e).into_iter().collect();
        assert_eq!(back, s);
    }
    // text that already holds an entity other than `&amp;` does not come back
    let e: Vec<char> = escape_xml("&lt;").chars().collect();
    let back: String = unescape(&e).into_iter().collect();
    assert_eq!(back, "<");
}

#[test]
fn kml_records_carry_each_written_header_and_field() {
    let mut w = KmlOutput::new(None);
    w.write_row(&row(&["A & B", "<1>"], &["Site", "Code"], Some(1.5), Some(2.5)));
    w.write_row(&row(&["7", "\"q\""], &["Code", "Extra"], Some(-3.0), Some(4.0)));
    let doc = w.finish();
    let mut r = KmlInput::new(&doc);
    assert_eq!(r.headers(), strings(&["Name", "Site", "Code", "Extra"]));
    let a = r.next_record().unwrap();
    assert!(a.fields.contains(&("Site".to_string(), "A & B".to_string())));
    assert!(a.fields.contains(&("Code".to_string(), "<1>".to_string())));
    let b = r.next_record().unwrap();
    assert!(b.fields.contains(&("Code".to_string(), "7".to_string())));
    assert!(b.fields.contains(&("Extra".to_string(), "\"q\"".to_string())));
    assert_eq!(b.latitude.as_deref(), Some("-3"));
}
