use mgrs::formats::csv_format::CsvOutput;
use mgrs::formats::csv_input::{CsvError, CsvInput};
use mgrs::formats::ConvertedRow;

fn to_csv(records: &[Vec<String>]) -> String {
    let mut w = csv::Writer::from_writer(Vec::new());
    for r in records {
        w.write_record(r).unwrap();
    }
    String::from_utf8(w.into_inner().unwrap()).unwrap()
}

fn read_csv(data: &str) -> CsvInput {
    CsvInput::from_csv_bytes(data.as_bytes()).unwrap()
}

#[test]
fn test_csv_output_writes_headers_with_latlon() {
    let mut writer = CsvOutput::new();
    let header = writer.write_header(&vec!["Name".to_string(), "MGRS".to_string()]);
    let output = to_csv(&[header]);
    assert!(output.contains("Name"));
    assert!(output.contains("MGRS"));
    assert!(output.contains("Latitude"));
    assert!(output.contains("Longitude"));
}

#[test]
fn test_csv_output_writes_row_with_coordinates() {
    let mut writer = CsvOutput::new();
    let header = writer.write_header(&vec!["Name".to_string(), "MGRS".to_string()]);
    let rec = writer.write_row(&ConvertedRow {
        fields: vec!["DC".to_string(), "18SUJ2337006519".to_string()],
        headers: vec!["Name".to_string(), "MGRS".to_string()],
        latitude: Some(38.8977_f64.to_string()),
        longitude: Some((-77.0365_f64).to_string()),
        mgrs_source: Some("18SUJ2337006519".to_string()),
    });
    let output = to_csv(&[header, rec]);
    assert!(output.contains("38.8977"));
    assert!(output.contains("-77.0365"));
}

#[test]
fn test_csv_output_writes_empty_on_failed_conversion() {
    let mut writer = CsvOutput::new();
    let header = writer.write_header(&vec!["Name".to_string()]);
    let rec = writer.write_row(&ConvertedRow {
        fields: vec!["Place".to_string()],
        headers: vec!["Name".to_string()],
        latitude: None,
        longitude: None,
        mgrs_source: None,
    });
    let output = to_csv(&[header, rec]);
    let lines: Vec<&str> = output.trim().lines().collect();
    assert_eq!(lines.len(), 2);
    assert!(lines[1].ends_with(",,"));
}

#[test]
fn test_csv_input_reads_headers() {
    let data = "Name,MGRS,Notes\nWhite House,18SUJ2337006519,DC\n";
    let reader = read_csv(data);
    assert_eq!(reader.headers(), vec!["Name", "MGRS", "Notes"]);
}

#[test]
fn test_csv_input_iterates_records() {
    let data = "Name,MGRS\nA,18SUJ2337006519\nB,30UXC9983606474\n";
    let mut reader = read_csv(data);
    let rec1 = reader.next_record().unwrap();
    assert_eq!(rec1.fields, vec![
        ("Name".to_string(), "A".to_string()),
        ("MGRS".to_string(), "18SUJ2337006519".to_string()),
    ]);
    assert!(rec1.latitude.is_none());
    let rec2 = reader.next_record().unwrap();
    assert_eq!(rec2.fields[0].1, "B");
}

#[test]
fn test_csv_input_exhaustion_returns_none() {
    let data = "Name\nA\n";
    let mut reader = read_csv(data);
    assert!(reader.next_record().is_some());
    assert!(reader.next_record().is_none());
    assert!(reader.next_record().is_none());
}

#[test]
fn csv_output_records_are_exact() {
    let mut writer = CsvOutput::new();
    assert_eq!(
        writer.write_header(&vec!["A".to_string()]),
        vec!["A".to_string(), "Latitude".to_string(), "Longitude".to_string()]
    );
    let rec = writer.write_row(&ConvertedRow {
        fields: vec!["x".to_string()],
        headers: vec!["A".to_string()],
        latitude: Some("1.5".to_string()),
        longitude: None,
        mgrs_source: None,
    });
    assert_eq!(rec, vec!["x".to_string(), "1.5".to_string(), String::new()]);
}

#[test]
fn csv_input_pairs_only_as_far_as_both_go() {
    let mut r = CsvInput::new(
        vec!["A".to_string(), "B".to_string()],
        vec![vec!["1".to_string()], vec!["1".to_string(), "2".to_string(), "3".to_string()]],
    );
    assert_eq!(r.next_record().unwrap().fields, vec![("A".to_string(), "1".to_string())]);
    assert_eq!(r.next_record().unwrap().fields.len(), 2);
}

#[test]
fn csv_bytes_are_parsed_with_quoting() {
    let mut r = read_csv("Name,Note\n\"Smith, J\",\"say \"\"hi\"\"\"\n");
    assert_eq!(r.headers(), vec!["Name".to_string(), "Note".to_string()]);
    assert_eq!(r.next_record().unwrap().fields, vec![
        ("Name".to_string(), "Smith, J".to_string()),
        ("Note".to_string(), "say \"hi\"".to_string()),
    ]);
}

#[test]
fn csv_bytes_with_unequal_records_are_refused() {
    assert!(matches!(CsvInput::from_csv_bytes(b"A,B\n1,2,3\n"), Err(CsvError::Parse)));
    assert!(matches!(CsvInput::from_csv_bytes(b"A\n\xff\n"), Err(CsvError::Parse)));
}
