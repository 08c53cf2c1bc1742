use mgrs::detect::{detect_mgrs_column, is_likely_mgrs, MgrsDetector};

fn rows(data: &[&[&str]]) -> Vec<Vec<String>> {
    data.iter().map(|r| r.iter().map(|s| s.to_string()).collect()).collect()
}

#[test]
fn test_is_likely_mgrs_valid() {
    assert!(is_likely_mgrs("18SUJ2337006519"));
    assert!(is_likely_mgrs("4QFJ1234567890"));
    assert!(is_likely_mgrs("31U DQ 48251 11932"));
}

#[test]
fn test_is_likely_mgrs_invalid() {
    assert!(!is_likely_mgrs("hello"));
    assert!(!is_likely_mgrs("12345"));
    assert!(!is_likely_mgrs(""));
    assert!(!is_likely_mgrs("38.8977"));
}

#[test]
fn test_detect_mgrs_column_finds_correct_column() {
    let records = rows(&[&["Name", "18SUJ2337006519", "Note"], &["Place", "33UUP0100010000", "Info"]]);
    assert_eq!(detect_mgrs_column(&records), Some(1));
}

#[test]
fn test_detect_mgrs_column_no_mgrs() {
    let records = rows(&[&["Name", "Value", "Note"]]);
    assert_eq!(detect_mgrs_column(&records), None);
}

#[test]
fn test_detect_mgrs_column_empty() {
    let records: Vec<Vec<String>> = vec![];
    assert_eq!(detect_mgrs_column(&records), None);
}

#[test]
fn test_detect_mgrs_column_first_column() {
    let records = rows(&[&["18SUJ2337006519", "Washington DC"], &["33UUP0100010000", "Somewhere"]]);
    assert_eq!(detect_mgrs_column(&records), Some(0));
}

#[test]
fn mgrs_detection_trims_surrounding_whitespace() {
    assert!(is_likely_mgrs("  18SUJ2337006519  "));
    assert!(!is_likely_mgrs("   "));
}

#[test]
fn mgrs_detection_needs_seven_characters() {
    // a grid zone and square alone are too short
    assert!(!is_likely_mgrs("18SUJ"));
    assert!(!is_likely_mgrs("18SUJ2"));
}

#[test]
fn mgrs_detection_ignores_letter_case() {
    assert!(is_likely_mgrs("18suj2337006519"));
    assert!(!is_likely_mgrs("18sAj"));
}

#[test]
fn detector_reuses_its_pattern() {
    let d = MgrsDetector::new();
    assert!(d.is_likely_mgrs("18SUJ2337006519"));
    assert!(!d.is_likely_mgrs("White House"));
}

#[test]
fn detection_prefers_the_last_column_on_a_tie() {
    let records = rows(&[&["18SUJ2337006519", "33UUP0100010000"]]);
    assert_eq!(detect_mgrs_column(&records), Some(1));
}

#[test]
fn detection_picks_the_column_with_most_matches() {
    let records = rows(&[
        &["18SUJ2337006519", "x"],
        &["18SUJ2337006519", "33UUP0100010000"],
        &["33UUP0100010000", "y"],
    ]);
    assert_eq!(detect_mgrs_column(&records), Some(0));
}

#[test]
fn detection_ignores_fields_beyond_the_first_record() {
    let records = rows(&[&["Name"], &["Place", "18SUJ2337006519"]]);
    assert_eq!(detect_mgrs_column(&records), None);
}

#[test]
fn detection_samples_only_the_first_hundred_records() {
    let mut records = Vec::new();
    for _ in 0..100 {
        records.push(vec!["plain".to_string()]);
    }
    records.push(vec!["18SUJ2337006519".to_string()]);
    assert_eq!(detect_mgrs_column(&records), None);
}
