use std::io::{Cursor, Read};
use mgrs::formats::kmz::{KmzError, KmzInput, KmzOutput};
use mgrs::formats::ConvertedRow;

fn dc_archive() -> Vec<u8> {
    let mut w = KmzOutput::new(None);
    w.write_header(&vec!["Name".to_string()]);
    w.write_row(&ConvertedRow {
        fields: vec!["DC".to_string()],
        headers: vec!["Name".to_string()],
        latitude: Some(38.8977_f64.to_string()),
        longitude: Some((-77.0365_f64).to_string()),
        mgrs_source: None,
    });
    w.finish().unwrap()
}

#[test]
fn test_output_is_valid_zip() {
    let buf = dc_archive();
    let archive = zip::ZipArchive::new(Cursor::new(&buf)).expect("output should be valid ZIP");
    assert!(!archive.is_empty());
}

#[test]
fn test_output_contains_doc_kml() {
    let buf = dc_archive();
    let mut archive = zip::ZipArchive::new(Cursor::new(&buf)).unwrap();
    let kml_file = archive.by_name("doc.kml").expect("should contain doc.kml");
    assert!(kml_file.size() > 0);
}

#[test]
fn test_kml_content_valid() {
    let buf = dc_archive();
    let mut archive = zip::ZipArchive::new(Cursor::new(&buf)).unwrap();
    let mut kml_content = String::new();
    archive.by_name("doc.kml").unwrap().read_to_string(&mut kml_content).unwrap();
    assert!(kml_content.contains("<?xml"));
    assert!(kml_content.contains("<kml"));
    assert!(kml_content.contains("<Placemark>"));
    assert!(kml_content.contains("<name>DC</name>"));
}

#[test]
fn test_input_reads_doc_kml() {
    let buf = dc_archive();
    let mut r = KmzInput::new(&buf).unwrap();
    let rec = r.next_record().unwrap();
    assert!((rec.latitude.unwrap().parse::<f64>().unwrap() - 38.8977).abs() < 0.001);
}

#[test]
fn kmz_test_roundtrip() {
    let mut w = KmzOutput::new(Some("Location".to_string()));
    w.write_header(&vec!["ID".to_string(), "Location".to_string()]);
    w.write_row(&ConvertedRow {
        fields: vec!["1".to_string(), "Pentagon".to_string()],
        headers: vec!["ID".to_string(), "Location".to_string()],
        latitude: Some(38.8719_f64.to_string()),
        longitude: Some((-77.0563_f64).to_string()),
        mgrs_source: None,
    });
    let buf = w.finish().unwrap();
    let mut r = KmzInput::new(&buf).unwrap();
    let rec = r.next_record().unwrap();
    assert!((rec.latitude.unwrap().parse::<f64>().unwrap() - 38.8719).abs() < 0.001);
    assert!((rec.longitude.unwrap().parse::<f64>().unwrap() - (-77.0563)).abs() < 0.001);
    assert!(r.next_record().is_none());
}

#[test]
fn kmz_archive_holds_exactly_the_kml_document() {
    let mut kml = mgrs::formats::kml::KmlOutput::new(None);
    kml.write_header(&vec!["Name".to_string()]);
    kml.write_row(&ConvertedRow {
        fields: vec!["DC".to_string()],
        headers: vec!["Name".to_string()],
        latitude: Some("38.8977".to_string()),
        longitude: Some("-77.0365".to_string()),
        mgrs_source: None,
    });
    let expected = kml.finish();
    let buf = dc_archive();
    let mut archive = zip::ZipArchive::new(Cursor::new(&buf)).unwrap();
    assert_eq!(archive.len(), 1);
    let mut text = String::new();
    archive.by_name("doc.kml").unwrap().read_to_string(&mut text).unwrap();
    assert_eq!(text, expected);
}

#[test]
fn kmz_input_reports_bad_archives() {
    assert!(matches!(KmzInput::new(b"not a zip"), Err(KmzError::Archive)));
    let mut buf = Cursor::new(Vec::new());
    {
        let mut z = zip::ZipWriter::new(&mut buf);
        z.start_file("other.kml", zip::write::SimpleFileOptions::default()).unwrap();
        std::io::Write::write_all(&mut z, b"<kml/>").unwrap();
        z.finish().unwrap();
    }
    assert!(matches!(KmzInput::new(&buf.into_inner()), Err(KmzError::MissingEntry)));
}
