use mgrs::format_detect::detect_format;
use mgrs::stream::FormatKind;

#[test]
fn test_detect_csv() {
    assert!(matches!(detect_format("data.csv"), Some(FormatKind::Csv)));
}

#[test]
fn test_detect_geojson_extensions() {
    assert!(matches!(detect_format("data.geojson"), Some(FormatKind::GeoJson)));
    assert!(matches!(detect_format("data.json"), Some(FormatKind::GeoJson)));
}

#[test]
fn test_detect_kml() {
    assert!(matches!(detect_format("data.kml"), Some(FormatKind::Kml)));
}

#[test]
fn test_detect_gpx() {
    assert!(matches!(detect_format("data.gpx"), Some(FormatKind::Gpx)));
}

#[test]
fn test_detect_wkt() {
    assert!(matches!(detect_format("data.wkt"), Some(FormatKind::Wkt)));
}

#[test]
fn test_detect_topojson() {
    assert!(matches!(detect_format("data.topojson"), Some(FormatKind::TopoJson)));
}

#[test]
fn test_detect_kmz() {
    assert!(matches!(detect_format("data.kmz"), Some(FormatKind::Kmz)));
}

#[test]
fn test_detect_shapefile() {
    assert!(matches!(detect_format("data.shp"), Some(FormatKind::Shapefile)));
}

#[test]
fn test_detect_geopackage() {
    assert!(matches!(detect_format("data.gpkg"), Some(FormatKind::GeoPackage)));
}

#[test]
fn test_detect_flatgeobuf() {
    assert!(matches!(detect_format("data.fgb"), Some(FormatKind::FlatGeobuf)));
}

#[test]
fn test_detect_unknown_returns_none() {
    assert!(detect_format("data.xyz").is_none());
}

#[test]
fn test_detect_case_insensitive() {
    assert!(matches!(detect_format("data.GeoJSON"), Some(FormatKind::GeoJson)));
    assert!(matches!(detect_format("data.KML"), Some(FormatKind::Kml)));
}

#[test]
fn test_detect_with_path() {
    assert!(matches!(detect_format("/tmp/out.geojson"), Some(FormatKind::GeoJson)));
}

#[test]
fn detect_format_without_extension_is_none() {
    assert!(detect_format("data").is_none());
    assert!(detect_format("").is_none());
    assert!(detect_format("/tmp/dir/").is_none());
}

#[test]
fn detect_format_ignores_leading_dot_names() {
    // a file name that is only an extension has no extension
    assert!(detect_format(".csv").is_none());
    assert!(detect_format("dir/..").is_none());
}

#[test]
fn detect_format_uses_the_last_extension() {
    assert!(matches!(detect_format("archive.csv.kmz"), Some(FormatKind::Kmz)));
    assert!(matches!(detect_format("dir.kml/data.gpx"), Some(FormatKind::Gpx)));
}

#[test]
fn detect_format_same_for_paths_differing_in_ascii_case() {
    let pairs = [
        ("DIR/Data.GpX", "dir/data.gpx"),
        ("A.TOPOJSON", "a.topojson"),
        ("x.Gpkg", "X.GPKG"),
        ("notes.TXT", "notes.txt"),
    ];
    for (a, b) in pairs {
        assert_eq!(detect_format(a), detect_format(b));
    }
}
