use mgrs::detect::MgrsDetector;
use mgrs::formats::InputRecord;
use mgrs::stream::{
    cell_outcome, convert_input_record, exit_status, find_latlon_columns, latlon_cell, mgrs_cell,
    mgrs_output_headers,
    parse_column, parse_format, plan_run, process_record, process_record_path,
    resolve_mgrs_column, to_mgrs_row, CellOutcome, ColumnSpec, FormatKind, LatLonCell, MgrsCell,
    MgrsOutcome, Pipeline, ProcessStats, StreamError,
};

fn strings(v: &[&str]) -> Vec<String> {
    v.iter().map(|s| s.to_string()).collect()
}

fn zero() -> ProcessStats {
    ProcessStats { total_rows: 0, succeeded_rows: 0, failed_rows: 0 }
}

#[test]
fn format_names_ignore_case() {
    assert!(matches!(parse_format("GeoJSON"), Ok(FormatKind::GeoJson)));
    assert!(matches!(parse_format("shp"), Ok(FormatKind::Shapefile)));
    assert!(matches!(parse_format("gpkg"), Ok(FormatKind::GeoPackage)));
    assert!(matches!(parse_format("FGB"), Ok(FormatKind::FlatGeobuf)));
    match parse_format("xml") {
        Err(StreamError::UnknownFormat(n)) => assert_eq!(n, "xml"),
        _ => panic!("xml is no format"),
    }
}

#[test]
fn column_arguments() {
    assert!(matches!(parse_column("3"), ColumnSpec::Index(3)));
    match parse_column("Grid Ref") {
        ColumnSpec::Name(n) => assert_eq!(n, "Grid Ref"),
        _ => panic!("a name"),
    }
    let hs = strings(&["Name", "MGRS", "MGRS"]);
    assert_eq!(resolve_mgrs_column(&hs, &Some(ColumnSpec::Name("MGRS".to_string()))).unwrap(), Some(1));
    assert_eq!(resolve_mgrs_column(&hs, &Some(ColumnSpec::Index(7))).unwrap(), Some(7));
    assert_eq!(resolve_mgrs_column(&hs, &None).unwrap(), None);
    assert!(matches!(
        resolve_mgrs_column(&hs, &Some(ColumnSpec::Name("Grid".to_string()))),
        Err(StreamError::ColumnNotFound(_))
    ));
}

#[test]
fn mgrs_cells_are_classified() {
    let d = MgrsDetector::new();
    let rec = strings(&["White House", " 18SUJ2337006519 ", "  "]);
    assert!(matches!(mgrs_cell(&rec, 1, &d), MgrsCell::Candidate(v) if v == "18SUJ2337006519"));
    assert!(matches!(mgrs_cell(&rec, 0, &d), MgrsCell::NotMgrs(v) if v == "White House"));
    assert!(matches!(mgrs_cell(&rec, 2, &d), MgrsCell::Empty));
    assert!(matches!(mgrs_cell(&rec, 9, &d), MgrsCell::Empty));
}

#[test]
fn process_record_counts_and_builds_rows() {
    let hs = strings(&["Name", "MGRS"]);
    let rec = strings(&["DC", "18SUJ2337006519"]);
    let mut stats = zero();
    let row = process_record(
        &rec,
        &hs,
        CellOutcome::Converted {
            value: "18SUJ2337006519".to_string(),
            latitude: "38.8977".to_string(),
            longitude: "-77.0365".to_string(),
        },
        &mut stats,
        false,
    )
    .unwrap();
    assert_eq!(row.fields, rec);
    assert_eq!(row.latitude.as_deref(), Some("38.8977"));
    assert_eq!(row.mgrs_source.as_deref(), Some("18SUJ2337006519"));
    let row2 = process_record(&rec, &hs, CellOutcome::Empty, &mut stats, false).unwrap();
    assert!(row2.latitude.is_none() && row2.mgrs_source.is_none());
    assert_eq!((stats.total_rows, stats.succeeded_rows, stats.failed_rows), (2, 1, 1));
}

#[test]
fn strict_mode_ends_on_the_first_bad_row() {
    let hs = strings(&["MGRS"]);
    let rec = strings(&["hello"]);
    let mut stats = zero();
    match process_record(&rec, &hs, CellOutcome::NotMgrs("hello".to_string()), &mut stats, true) {
        Err(StreamError::StrictNotMgrs { row, value }) => {
            assert_eq!(row, 1);
            assert_eq!(value, "hello");
        },
        _ => panic!("strict mode stops"),
    }
    let failed = CellOutcome::Failed { value: "99ZZZ".to_string(), message: "bad".to_string() };
    match process_record(&rec, &hs, failed, &mut stats, true) {
        Err(StreamError::StrictConversion { row, message }) => {
            assert_eq!(row, 2);
            assert_eq!(message, "bad");
        },
        _ => panic!("strict mode stops"),
    }
    // a run to a path-based format stops on a value that is not MGRS too
    match process_record_path(&rec, &hs, CellOutcome::NotMgrs("hello".to_string()), &mut stats, true) {
        Err(StreamError::StrictNotMgrs { row, value }) => {
            assert_eq!(row, 3);
            assert_eq!(value, "hello");
        },
        _ => panic!("strict mode stops"),
    }
    assert_eq!((stats.total_rows, stats.succeeded_rows, stats.failed_rows), (3, 0, 3));
    let row = process_record_path(&rec, &hs, CellOutcome::NotMgrs("hello".to_string()), &mut stats, false)
        .unwrap();
    assert!(row.latitude.is_none());
    assert_eq!((stats.total_rows, stats.succeeded_rows, stats.failed_rows), (4, 0, 4));
}

#[test]
fn failed_conversions_keep_the_source_when_not_strict() {
    let hs = strings(&["MGRS"]);
    let rec = strings(&["99ZZZ1234567"]);
    let mut stats = zero();
    let failed = CellOutcome::Failed { value: "99ZZZ1234567".to_string(), message: "bad".to_string() };
    let row = process_record(&rec, &hs, failed, &mut stats, false).unwrap();
    assert!(row.latitude.is_none());
    assert_eq!(row.mgrs_source.as_deref(), Some("99ZZZ1234567"));
}

#[test]
fn input_records_become_rows_by_header() {
    let hs = strings(&["Name", "Code", "Missing"]);
    let rec = InputRecord {
        fields: vec![
            ("Code".to_string(), "1".to_string()),
            ("Name".to_string(), "A".to_string()),
            ("Code".to_string(), "2".to_string()),
        ],
        latitude: Some("1".to_string()),
        longitude: None,
    };
    let mut stats = zero();
    let row = convert_input_record(&hs, rec, &mut stats);
    assert_eq!(row.fields, strings(&["A", "1", ""]));
    assert_eq!(row.headers, hs);
    assert_eq!((stats.succeeded_rows, stats.failed_rows), (0, 1));
}

#[test]
fn latlon_columns_are_found_by_name() {
    let hs = strings(&["Name", "Latitude", "Longitude"]);
    assert_eq!(find_latlon_columns(&hs, &None).unwrap(), (1, 2));
    assert_eq!(find_latlon_columns(&strings(&["LAT", "x", "Lng"]), &None).unwrap(), (0, 2));
    assert_eq!(find_latlon_columns(&hs, &Some(ColumnSpec::Index(4))).unwrap(), (4, 5));
    assert_eq!(
        find_latlon_columns(&hs, &Some(ColumnSpec::Name("LATI".to_string()))).unwrap(),
        (1, 2)
    );
    assert!(matches!(find_latlon_columns(&strings(&["a", "b"]), &None), Err(StreamError::NoLatitudeColumn)));
    assert!(matches!(find_latlon_columns(&strings(&["lat"]), &None), Err(StreamError::NoLongitudeColumn)));
    assert!(matches!(
        find_latlon_columns(&hs, &Some(ColumnSpec::Name("Height".to_string()))),
        Err(StreamError::ColumnNotFound(_))
    ));
}

#[test]
fn to_mgrs_rows_append_the_grid_reference() {
    assert_eq!(mgrs_output_headers(&strings(&["Name"])), strings(&["Name", "MGRS"]));
    let rec = strings(&["DC", "38.8977", "-77.0365"]);
    assert!(matches!(latlon_cell(&rec, 1, 2), LatLonCell::Valid { latitude, longitude }
        if latitude == "38.8977" && longitude == "-77.0365"));
    assert!(matches!(latlon_cell(&rec, 0, 2), LatLonCell::Invalid { .. }));
    let mut stats = zero();
    let out = to_mgrs_row(&rec, MgrsOutcome::Converted("18SUJ2337006519".to_string()), &mut stats, false)
        .unwrap();
    assert_eq!(out, strings(&["DC", "38.8977", "-77.0365", "18SUJ2337006519"]));
    let out = to_mgrs_row(&rec, MgrsOutcome::Invalid, &mut stats, false).unwrap();
    assert_eq!(out.last().unwrap(), "");
    assert!(matches!(
        to_mgrs_row(&rec, MgrsOutcome::Invalid, &mut stats, true),
        Err(StreamError::StrictInvalidCoordinates { row: 3 })
    ));
}

#[test]
fn run_plans() {
    let p = plan_run("in.csv", &Some("out.geojson".to_string()), &None, &None, false).unwrap();
    assert_eq!(p.input_format, FormatKind::Csv);
    assert_eq!(p.output_format, FormatKind::GeoJson);
    assert_eq!(p.pipeline, Pipeline::CsvToStream);
    assert!(p.progress);
    let p = plan_run("in.kml", &None, &None, &None, false).unwrap();
    assert_eq!(p.output_format, FormatKind::Csv);
    assert_eq!(p.pipeline, Pipeline::DataToStream);
    assert!(!p.progress);
    let p = plan_run("in.gpkg", &Some("o.shp".to_string()), &None, &None, false).unwrap();
    assert_eq!(p.pipeline, Pipeline::PathToPath);
    let p = plan_run("in.txt", &None, &None, &Some("wkt".to_string()), true).unwrap();
    assert_eq!(p.input_format, FormatKind::Wkt);
    assert_eq!(p.pipeline, Pipeline::ToMgrs);
    assert!(matches!(
        plan_run("in.csv", &None, &Some("shapefile".to_string()), &None, false),
        Err(StreamError::RequiresOutput(FormatKind::Shapefile))
    ));
    assert!(matches!(
        plan_run("in.csv", &None, &Some("nope".to_string()), &None, false),
        Err(StreamError::UnknownFormat(_))
    ));
}

#[test]
fn exit_status_follows_the_row_counts() {
    let s = |t, ok, bad| ProcessStats { total_rows: t, succeeded_rows: ok, failed_rows: bad };
    assert_eq!(exit_status(&s(3, 3, 0)), 0);
    assert_eq!(exit_status(&s(0, 0, 0)), 0);
    assert_eq!(exit_status(&s(3, 1, 2)), 2);
    assert_eq!(exit_status(&s(2, 0, 2)), 2);
}

#[test]
fn cell_outcomes_follow_the_classification_and_the_conversion() {
    assert!(matches!(cell_outcome(MgrsCell::Empty, None), CellOutcome::Empty));
    assert!(matches!(
        cell_outcome(MgrsCell::NotMgrs("x".to_string()), None),
        CellOutcome::NotMgrs(v) if v == "x"
    ));
    match cell_outcome(
        MgrsCell::Candidate("18SUJ2337006519".to_string()),
        Some(Ok(("38.8895".to_string(), "-77.0352".to_string()))),
    ) {
        CellOutcome::Converted { value, latitude, longitude } => {
            assert_eq!(value, "18SUJ2337006519");
            assert_eq!(latitude, "38.8895");
            assert_eq!(longitude, "-77.0352");
        },
        _ => panic!("converted"),
    }
    match cell_outcome(MgrsCell::Candidate("99ZZZ".to_string()), Some(Err("bad".to_string()))) {
        CellOutcome::Failed { value, message } => {
            assert_eq!(value, "99ZZZ");
            assert_eq!(message, "bad");
        },
        _ => panic!("failed"),
    }
}
