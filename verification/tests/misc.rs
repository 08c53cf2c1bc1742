use mgrs::convert::{normalize_mgrs, ConvertError, MgrsCoord};
use mgrs::formats::flatgeobuf_format::PropCollector;
use mgrs::formats::geopackage::{
    attribute_columns, decode_gpb_point, encode_gpb_point, insert_point_sql, points_table_sql,
    select_points_sql,
};
use mgrs::formats::shapefile_format::truncate_field_name;
use mgrs::lexical::{is_float_text, parse_usize};

fn chars(s: &str) -> Vec<char> {
    s.chars().collect()
}

fn strings(v: &[&str]) -> Vec<String> {
    v.iter().map(|s| s.to_string()).collect()
}

#[test]
fn gpb_point_layout() {
    let lon = (-77.0365_f64).to_bits();
    let lat = 38.8977_f64.to_bits();
    let b = encode_gpb_point(lon, lat);
    assert_eq!(b.len(), 29);
    assert_eq!(&b[..13], &[0x47, 0x50, 0, 1, 0xe6, 0x10, 0, 0, 1, 1, 0, 0, 0]);
    assert_eq!(&b[13..21], &lon.to_le_bytes());
    assert_eq!(&b[21..29], &lat.to_le_bytes());
}

#[test]
fn gpb_point_roundtrip() {
    let lon = (-0.0754_f64).to_bits();
    let lat = 51.5055_f64.to_bits();
    let b = encode_gpb_point(lon, lat);
    assert_eq!(decode_gpb_point(&b), Some((lat, lon)));
    assert_eq!(f64::from_bits(decode_gpb_point(&b).unwrap().0), 51.5055);
}

#[test]
fn gpb_decoding_rejects_other_blobs() {
    let b = encode_gpb_point(1, 2);
    assert_eq!(decode_gpb_point(&b[..28]), None);
    let mut wrong_magic = b.clone();
    wrong_magic[0] = b'X';
    assert_eq!(decode_gpb_point(&wrong_magic), None);
    let mut line = b.clone();
    line[9] = 2;
    assert_eq!(decode_gpb_point(&line), None);
}

#[test]
fn gpb_decoding_reads_big_endian_points() {
    let mut b = vec![0x47, 0x50, 0, 0, 0, 0, 0x10, 0xe6, 0, 0, 0, 0, 1];
    b.extend_from_slice(&5u64.to_be_bytes());
    b.extend_from_slice(&7u64.to_be_bytes());
    assert_eq!(decode_gpb_point(&b), Some((7, 5)));
}

#[test]
fn geopackage_sql_text() {
    let hs = strings(&["Name", "Code"]);
    assert_eq!(
        points_table_sql(&hs),
        "CREATE TABLE points (fid INTEGER PRIMARY KEY AUTOINCREMENT, geom BLOB, \"Name\" TEXT, \"Code\" TEXT)"
    );
    assert_eq!(insert_point_sql(&hs), "INSERT INTO points (geom, \"Name\", \"Code\") VALUES (?, ?, ?)");
    assert_eq!(select_points_sql(&hs), "SELECT geom, \"Name\", \"Code\" FROM points");
    assert_eq!(select_points_sql(&vec![]), "SELECT geom, 1 FROM points");
    assert_eq!(
        attribute_columns(&strings(&["fid", "geom", "Name"])),
        strings(&["Name"])
    );
}

#[test]
fn shapefile_field_names_fit_eleven_bytes() {
    assert_eq!(truncate_field_name("VeryLongFieldName"), "VeryLongFie");
    assert_eq!(truncate_field_name("Name"), "Name");
    assert_eq!(truncate_field_name("ElevenChars"), "ElevenChars");
    assert_eq!(truncate_field_name("é12345678901"), "é123456789");
    // byte 11 inside a character: the cut falls before that character
    assert_eq!(truncate_field_name("ÄÄÄÄÄÄ"), "ÄÄÄÄÄ");
    assert_eq!(truncate_field_name("abcdefghij€"), "abcdefghij");
}

#[test]
fn normalize_mgrs_removes_spaces() {
    assert_eq!(normalize_mgrs("18S UJ 23370 06519").unwrap(), "18SUJ2337006519");
    assert!(matches!(normalize_mgrs("   "), Err(ConvertError::Empty)));
    assert!(matches!(normalize_mgrs(""), Err(ConvertError::Empty)));
    let c = MgrsCoord("18SUJ".to_string());
    assert_eq!(c.0, "18SUJ");
}

#[test]
fn prop_collector_names_by_column() {
    let mut p = PropCollector::new(strings(&["Name", "Code"]));
    assert!(!p.property(1, "20001".to_string()));
    assert!(!p.property(5, "x".to_string()));
    assert_eq!(
        p.into_props(),
        vec![("Code".to_string(), "20001".to_string()), (String::new(), "x".to_string())]
    );
}

#[test]
fn float_text_follows_the_std_grammar() {
    for ok in ["38.8977", "-77.0365", "+1", "1.", ".5", "1e5", "1E-5", "inf", "-Infinity", "NaN"] {
        assert!(is_float_text(&chars(ok)), "{}", ok);
        assert!(ok.parse::<f64>().is_ok());
    }
    for bad in ["", ".", "e5", "1e", "1e+", " 1", "1 ", "abc", "--1", "0x10", "1,5", "infinit"] {
        assert!(!is_float_text(&chars(bad)), "{}", bad);
        assert!(bad.parse::<f64>().is_err());
    }
}

#[test]
fn column_numbers_follow_usize_parsing() {
    assert_eq!(parse_usize(&chars("2")), Some(2));
    assert_eq!(parse_usize(&chars("+7")), Some(7));
    assert_eq!(parse_usize(&chars("18446744073709551615")), Some(usize::MAX));
    assert_eq!(parse_usize(&chars("18446744073709551616")), None);
    assert_eq!(parse_usize(&chars("-1")), None);
    assert_eq!(parse_usize(&chars("")), None);
    assert_eq!(parse_usize(&chars("+")), None);
    assert_eq!(parse_usize(&chars("1a")), None);
}
