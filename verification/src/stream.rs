//! The choices that drive a conversion run: formats, the coordinate column,
//! the per-record outcome, and the counts of a run.
use vstd::prelude::*;
use crate::detect::{is_likely_mgrs_spec, MgrsDetector};
use crate::formats::kml_input::{contains_string, lookup};
use crate::format_detect::{detect_format, detect_format_spec, lemma_lowered_of_ignore_case};
use crate::formats::{ConvertedRow, InputRecord};
use crate::lexical::{eq_ignore_ascii_case, is_float_literal, is_float_text, parse_usize, parse_usize_spec};
use crate::text::{
    ascii_lowered, chars_eq, chars_of, find_from, find_from_exec, is_ascii_text, string_of, trim,
    trim_chars, to_lowercase, unicode_lowercase,
};

verus! {

/// Format selection (input and output).
#[derive(Debug, Clone, Copy, PartialEq, Eq, Structural)]
pub enum FormatKind {
    Csv,
    GeoJson,
    Kml,
    Gpx,
    Wkt,
    TopoJson,
    Kmz,
    Shapefile,
    GeoPackage,
    FlatGeobuf,
}


/// Whether a format is written to a file path rather than to a stream.
pub open spec fn is_path_based(format: FormatKind) -> bool {
    format == FormatKind::Shapefile || format == FormatKind::GeoPackage
}

/// Shapefile and GeoPackage are written to a path, the others to a stream.
pub fn is_path_based_format(format: FormatKind) -> (r: bool)
    ensures
        r == is_path_based(format),
{
    match format {
        FormatKind::Shapefile | FormatKind::GeoPackage => true,
        _ => false,
    }
}

/// How to identify the source column.
#[derive(Debug, Clone)]
pub enum ColumnSpec {
    Name(String),
    Index(usize),
}

/// Configuration for stream processing.
pub struct ProcessConfig {
    pub column: Option<ColumnSpec>,
    pub strict: bool,
    pub name_column: Option<String>,
}

/// Statistics from processing.
pub struct ProcessStats {
    pub total_rows: usize,
    pub succeeded_rows: usize,
    pub failed_rows: usize,
}

impl ProcessStats {
    /// Every row counted is counted once as a success or once as a failure.
    pub open spec fn balanced(&self) -> bool {
        self.succeeded_rows + self.failed_rows == self.total_rows
    }
}

/// The exit status of a run that ended without a fatal error: 0 when every
/// row converted, 2 when some rows failed conversion.
pub fn exit_status(stats: &ProcessStats) -> (r: i32)
    ensures
        r == if stats.failed_rows == 0 {
            0i32
        } else {
            2i32
        },
{
    if stats.failed_rows == 0 {
        0
    } else {
        2
    }
}

/// Why a run or a row could not go on.
#[derive(Debug)]
pub enum StreamError {
    /// A format name that is not known.
    UnknownFormat(String),
    /// The named column is not among the headers.
    ColumnNotFound(String),
    /// No column looks like MGRS.
    NoMgrsColumn,
    /// No header looks like a latitude.
    NoLatitudeColumn,
    /// No header looks like a longitude.
    NoLongitudeColumn,
    /// Strict mode: a conversion failed at this row.
    StrictConversion { row: usize, message: String },
    /// Strict mode: a value that is not MGRS at this row.
    StrictNotMgrs { row: usize, value: String },
    /// Strict mode: coordinates that are not numbers at this row.
    StrictInvalidCoordinates { row: usize },
    /// A format that writes to the filesystem, chosen without an output path.
    RequiresOutput(FormatKind),
}

/// The format a lower-case format name stands for.
pub open spec fn format_for_name(n: Seq<char>) -> Option<FormatKind> {
    if n == seq!['c', 's', 'v'] {
        Some(FormatKind::Csv)
    } else if n == seq!['g', 'e', 'o', 'j', 's', 'o', 'n'] {
        Some(FormatKind::GeoJson)
    } else if n == seq!['k', 'm', 'l'] {
        Some(FormatKind::Kml)
    } else if n == seq!['g', 'p', 'x'] {
        Some(FormatKind::Gpx)
    } else if n == seq!['w', 'k', 't'] {
        Some(FormatKind::Wkt)
    } else if n == seq!['t', 'o', 'p', 'o', 'j', 's', 'o', 'n'] {
        Some(FormatKind::TopoJson)
    } else if n == seq!['k', 'm', 'z'] {
        Some(FormatKind::Kmz)
    } else if n == seq!['s', 'h', 'a', 'p', 'e', 'f', 'i', 'l', 'e'] || n == seq!['s', 'h', 'p'] {
        Some(FormatKind::Shapefile)
    } else if n == seq!['g', 'e', 'o', 'p', 'a', 'c', 'k', 'a', 'g', 'e'] || n == seq![
        'g',
        'p',
        'k',
        'g',
    ] {
        Some(FormatKind::GeoPackage)
    } else if n == seq!['f', 'l', 'a', 't', 'g', 'e', 'o', 'b', 'u', 'f'] || n == seq![
        'f',
        'g',
        'b',
    ] {
        Some(FormatKind::FlatGeobuf)
    } else {
        None
    }
}

/// Each documented format name stands for its format: `csv`, `geojson`,
/// `kml`, `gpx`, `wkt`, `topojson`, `kmz`, `shapefile` or `shp`, `geopackage` or
/// `gpkg`, `flatgeobuf` or `fgb`.
pub proof fn lemma_format_names(n: Seq<char>)
    ensures
        n == seq!['c', 's', 'v'] ==> format_for_name(n) == Some(FormatKind::Csv),
        n == seq!['g', 'e', 'o', 'j', 's', 'o', 'n'] ==> format_for_name(n) == Some(FormatKind::GeoJson),
        n == seq!['k', 'm', 'l'] ==> format_for_name(n) == Some(FormatKind::Kml),
        n == seq!['g', 'p', 'x'] ==> format_for_name(n) == Some(FormatKind::Gpx),
        n == seq!['w', 'k', 't'] ==> format_for_name(n) == Some(FormatKind::Wkt),
        n == seq!['t', 'o', 'p', 'o', 'j', 's', 'o', 'n'] ==> format_for_name(n) == Some(FormatKind::TopoJson),
        n == seq!['k', 'm', 'z'] ==> format_for_name(n) == Some(FormatKind::Kmz),
        n == seq!['s', 'h', 'a', 'p', 'e', 'f', 'i', 'l', 'e'] ==> format_for_name(n) == Some(FormatKind::Shapefile),
        n == seq!['s', 'h', 'p'] ==> format_for_name(n) == Some(FormatKind::Shapefile),
        n == seq!['g', 'e', 'o', 'p', 'a', 'c', 'k', 'a', 'g', 'e'] ==> format_for_name(n) == Some(FormatKind::GeoPackage),
        n == seq!['g', 'p', 'k', 'g'] ==> format_for_name(n) == Some(FormatKind::GeoPackage),
        n == seq!['f', 'l', 'a', 't', 'g', 'e', 'o', 'b', 'u', 'f'] ==> format_for_name(n) == Some(FormatKind::FlatGeobuf),
        n == seq!['f', 'g', 'b'] ==> format_for_name(n) == Some(FormatKind::FlatGeobuf),
{
}

/// The format a format name (in any case) stands for.
pub fn parse_format(s: &str) -> (r: Result<FormatKind, StreamError>)
    ensures
        match format_for_name(unicode_lowercase(s@)) {
            Some(f) => r == Ok::<FormatKind, StreamError>(f),
            None => r matches Err(StreamError::UnknownFormat(n)) && n@ == s@,
        },
        is_ascii_text(s@) ==> match format_for_name(ascii_lowered(s@)) {
            Some(f) => r == Ok::<FormatKind, StreamError>(f),
            None => r is Err,
        },
        is_ascii_text(s@) && ascii_lowered(s@) == seq!['c', 's', 'v'] ==> r == Ok::<FormatKind, StreamError>(
            FormatKind::Csv,
        ),
        is_ascii_text(s@) && ascii_lowered(s@) == seq!['g', 'e', 'o', 'j', 's', 'o', 'n'] ==> r == Ok::<FormatKind, StreamError>(
            FormatKind::GeoJson,
        ),
        is_ascii_text(s@) && ascii_lowered(s@) == seq!['k', 'm', 'l'] ==> r == Ok::<FormatKind, StreamError>(
            FormatKind::Kml,
        ),
        is_ascii_text(s@) && ascii_lowered(s@) == seq!['g', 'p', 'x'] ==> r == Ok::<FormatKind, StreamError>(
            FormatKind::Gpx,
        ),
        is_ascii_text(s@) && ascii_lowered(s@) == seq!['w', 'k', 't'] ==> r == Ok::<FormatKind, StreamError>(
            FormatKind::Wkt,
        ),
        is_ascii_text(s@) && ascii_lowered(s@) == seq!['t', 'o', 'p', 'o', 'j', 's', 'o', 'n'] ==> r == Ok::<FormatKind, StreamError>(
            FormatKind::TopoJson,
        ),
        is_ascii_text(s@) && ascii_lowered(s@) == seq!['k', 'm', 'z'] ==> r == Ok::<FormatKind, StreamError>(
            FormatKind::Kmz,
        ),
        is_ascii_text(s@) && ascii_lowered(s@) == seq!['s', 'h', 'a', 'p', 'e', 'f', 'i', 'l', 'e'] ==> r == Ok::<FormatKind, StreamError>(
            FormatKind::Shapefile,
        ),
        is_ascii_text(s@) && ascii_lowered(s@) == seq!['s', 'h', 'p'] ==> r == Ok::<FormatKind, StreamError>(
            FormatKind::Shapefile,
        ),
        is_ascii_text(s@) && ascii_lowered(s@) == seq!['g', 'e', 'o', 'p', 'a', 'c', 'k', 'a', 'g', 'e'] ==> r == Ok::<FormatKind, StreamError>(
            FormatKind::GeoPackage,
        ),
        is_ascii_text(s@) && ascii_lowered(s@) == seq!['g', 'p', 'k', 'g'] ==> r == Ok::<FormatKind, StreamError>(
            FormatKind::GeoPackage,
        ),
        is_ascii_text(s@) && ascii_lowered(s@) == seq!['f', 'l', 'a', 't', 'g', 'e', 'o', 'b', 'u', 'f'] ==> r == Ok::<FormatKind, StreamError>(
            FormatKind::FlatGeobuf,
        ),
        is_ascii_text(s@) && ascii_lowered(s@) == seq!['f', 'g', 'b'] ==> r == Ok::<FormatKind, StreamError>(
            FormatKind::FlatGeobuf,
        ),
{
    let n = chars_of(to_lowercase(s).as_str());
    if chars_eq(&n, &vec!['c', 's', 'v']) {
        Ok(FormatKind::Csv)
    } else if chars_eq(&n, &vec!['g', 'e', 'o', 'j', 's', 'o', 'n']) {
        Ok(FormatKind::GeoJson)
    } else if chars_eq(&n, &vec!['k', 'm', 'l']) {
        Ok(FormatKind::Kml)
    } else if chars_eq(&n, &vec!['g', 'p', 'x']) {
        Ok(FormatKind::Gpx)
    } else if chars_eq(&n, &vec!['w', 'k', 't']) {
        Ok(FormatKind::Wkt)
    } else if chars_eq(&n, &vec!['t', 'o', 'p', 'o', 'j', 's', 'o', 'n']) {
        Ok(FormatKind::TopoJson)
    } else if chars_eq(&n, &vec!['k', 'm', 'z']) {
        Ok(FormatKind::Kmz)
    } else if chars_eq(&n, &vec!['s', 'h', 'a', 'p', 'e', 'f', 'i', 'l', 'e']) || chars_eq(
        &n,
        &vec!['s', 'h', 'p'],
    ) {
        Ok(FormatKind::Shapefile)
    } else if chars_eq(&n, &vec!['g', 'e', 'o', 'p', 'a', 'c', 'k', 'a', 'g', 'e']) || chars_eq(
        &n,
        &vec!['g', 'p', 'k', 'g'],
    ) {
        Ok(FormatKind::GeoPackage)
    } else if chars_eq(&n, &vec!['f', 'l', 'a', 't', 'g', 'e', 'o', 'b', 'u', 'f']) || chars_eq(
        &n,
        &vec!['f', 'g', 'b'],
    ) {
        Ok(FormatKind::FlatGeobuf)
    } else {
        Err(StreamError::UnknownFormat(s.to_string()))
    }
}

/// Format names ignore the case of ASCII letters: two names that differ only
/// in it stand for the same format.
pub proof fn lemma_parse_format_ignores_case(a: Seq<char>, b: Seq<char>)
    requires
        eq_ignore_ascii_case(a, b),
    ensures
        format_for_name(ascii_lowered(a)) == format_for_name(ascii_lowered(b)),
{
    lemma_lowered_of_ignore_case(a, b);
}

/// A column argument: an index where it reads as an unsigned number, else a name.
pub fn parse_column(s: &str) -> (r: ColumnSpec)
    ensures
        match parse_usize_spec(s@) {
            Some(n) => r matches ColumnSpec::Index(i) && i == n,
            None => r matches ColumnSpec::Name(name) && name@ == s@,
        },
{
    match parse_usize(&chars_of(s)) {
        Some(idx) => ColumnSpec::Index(idx),
        None => ColumnSpec::Name(s.to_string()),
    }
}

/// The first index `i` of `v` with `v@[i]@ == s@`.
pub fn position_exec(v: &Vec<String>, s: &String) -> (r: Option<usize>)
    ensures
        match r {
            Some(i) => i < v@.len() && v.deep_view()[i as int] == s@ && forall|j: int|
                0 <= j < i ==> v.deep_view()[j] != s@,
            None => forall|j: int| 0 <= j < v@.len() ==> v.deep_view()[j] != s@,
        },
{
    let mut i: usize = 0;
    while i < v.len()
        invariant
            i <= v@.len(),
            forall|j: int| 0 <= j < i ==> v.deep_view()[j] != s@,
        decreases v@.len() - i,
    {
        if v[i] == *s {
            assert(v.deep_view()[i as int] == s@);
            return Some(i);
        }
        i = i + 1;
    }
    None
}


/// `i` is the first index of `headers` holding `name`.
pub open spec fn is_first_index(headers: Seq<Seq<char>>, name: Seq<char>, i: int) -> bool {
    0 <= i < headers.len() && headers[i] == name && forall|j: int|
        0 <= j < i ==> headers[j] != name
}

/// The MGRS column a configuration names: `Ok(Some(i))` for a column found by
/// name or given by index, `Ok(None)` when it is to be detected.
pub fn resolve_mgrs_column(headers: &Vec<String>, column: &Option<ColumnSpec>) -> (r: Result<
    Option<usize>,
    StreamError,
>)
    ensures
        match column {
            Some(ColumnSpec::Name(name)) => match r {
                Ok(Some(i)) => is_first_index(headers.deep_view(), name@, i as int),
                Ok(None) => false,
                Err(e) => (e matches StreamError::ColumnNotFound(n) && n@ == name@) && forall|j: int|
                    0 <= j < headers@.len() ==> headers.deep_view()[j] != name@,
            },
            Some(ColumnSpec::Index(idx)) => r matches Ok(Some(i)) && i == idx,
            None => r matches Ok(None),
        },
{
    match column {
        Some(ColumnSpec::Name(name)) => match position_exec(headers, name) {
            Some(i) => Ok(Some(i)),
            None => Err(StreamError::ColumnNotFound(name.clone())),
        },
        Some(ColumnSpec::Index(idx)) => Ok(Some(*idx)),
        None => Ok(None),
    }
}

/// The trimmed field of `record` at `col`, or empty where the record is shorter.
pub open spec fn cell_text(record: Seq<Seq<char>>, col: int) -> Seq<char> {
    if 0 <= col < record.len() {
        trim(record[col])
    } else {
        seq![]
    }
}

/// What the MGRS column of a record holds.
pub enum MgrsCell {
    /// Nothing (blank or missing).
    Empty,
    /// A value that does not look like MGRS.
    NotMgrs(String),
    /// A value that looks like MGRS, to be converted.
    Candidate(String),
}

/// `cell` is the classification of the (trimmed) MGRS field `v`.
pub open spec fn classifies(v: Seq<char>, cell: MgrsCell) -> bool {
    match cell {
        MgrsCell::Empty => v.len() == 0,
        MgrsCell::NotMgrs(s) => s@ == v && v.len() > 0 && !is_likely_mgrs_spec(v),
        MgrsCell::Candidate(s) => s@ == v && v.len() > 0 && is_likely_mgrs_spec(v),
    }
}

/// Classifies the (trimmed) MGRS field of `record`.
pub fn mgrs_cell(record: &Vec<String>, col: usize, detector: &MgrsDetector) -> (r: MgrsCell)
    requires
        detector.wf(),
    ensures
        classifies(cell_text(record.deep_view(), col as int), r),
{
    let v = if col < record.len() {
        assert(record.deep_view()[col as int] == record@[col as int]@);
        string_of(&trim_chars(&chars_of(record[col].as_str())))
    } else {
        String::new()
    };
    if v.as_str().is_empty() {
        MgrsCell::Empty
    } else if detector.is_likely_mgrs(v.as_str()) {
        MgrsCell::Candidate(v)
    } else {
        MgrsCell::NotMgrs(v)
    }
}

/// A record's MGRS field after conversion was tried where it applies.
pub enum CellOutcome {
    /// The field was blank.
    Empty,
    /// The field did not look like MGRS.
    NotMgrs(String),
    /// The field converted to this latitude and longitude.
    Converted { value: String, latitude: String, longitude: String },
    /// The field looked like MGRS but did not convert.
    Failed { value: String, message: String },
}

/// The outcome of a classified MGRS field. `conversion` is what converting a
/// candidate gave: its latitude and longitude text, or the error message.
pub open spec fn outcome_spec(
    cell: MgrsCell,
    conversion: Option<Result<(String, String), String>>,
) -> CellOutcome {
    match cell {
        MgrsCell::Empty => CellOutcome::Empty,
        MgrsCell::NotMgrs(v) => CellOutcome::NotMgrs(v),
        MgrsCell::Candidate(v) => match conversion {
            Some(Ok((lat, lon))) => CellOutcome::Converted { value: v, latitude: lat, longitude: lon },
            Some(Err(m)) => CellOutcome::Failed { value: v, message: m },
            None => CellOutcome::Empty,
        },
    }
}

/// The outcome of a classified MGRS field: blank and non-MGRS fields stay as
/// they are; a candidate is converted, or failed with the conversion's message.
pub fn cell_outcome(cell: MgrsCell, conversion: Option<Result<(String, String), String>>) -> (r:
    CellOutcome)
    requires
        cell is Candidate ==> conversion is Some,
    ensures
        r == outcome_spec(cell, conversion),
{
    match cell {
        MgrsCell::Empty => CellOutcome::Empty,
        MgrsCell::NotMgrs(v) => CellOutcome::NotMgrs(v),
        MgrsCell::Candidate(v) => match conversion {
            Some(Ok((lat, lon))) => CellOutcome::Converted { value: v, latitude: lat, longitude: lon },
            Some(Err(m)) => CellOutcome::Failed { value: v, message: m },
            None => CellOutcome::Empty,
        },
    }
}

/// A record's MGRS field converts, and the record counts as a success, exactly
/// when the trimmed field is non-empty, looks like MGRS, and its conversion
/// succeeded.
pub proof fn lemma_row_converts(
    v: Seq<char>,
    cell: MgrsCell,
    conversion: Option<Result<(String, String), String>>,
)
    requires
        classifies(v, cell),
        cell is Candidate ==> conversion is Some,
    ensures
        (outcome_spec(cell, conversion) is Converted) == (v.len() > 0 && is_likely_mgrs_spec(v)
            && conversion matches Some(Ok(_))),
{
}

/// The row `process_record` gives for `outcome`: the record's fields and the headers,
/// the coordinate where one was obtained, and the MGRS source where it was tried.
pub open spec fn outcome_row(
    row: ConvertedRow,
    record: Seq<Seq<char>>,
    headers: Seq<Seq<char>>,
    outcome: CellOutcome,
) -> bool {
    &&& row.fields.deep_view() == record
    &&& row.headers.deep_view() == headers
    &&& match outcome {
        CellOutcome::Converted { value, latitude, longitude } => row.latitude.deep_view() == Some(
            latitude@,
        ) && row.longitude.deep_view() == Some(longitude@) && row.mgrs_source.deep_view() == Some(
            value@,
        ),
        CellOutcome::Failed { value, message } => row.latitude is None && row.longitude is None
            && row.mgrs_source.deep_view() == Some(value@),
        _ => row.latitude is None && row.longitude is None && row.mgrs_source is None,
    }
}

fn make_row(record: &Vec<String>, headers: &Vec<String>, outcome: &CellOutcome) -> (r: ConvertedRow)
    ensures
        outcome_row(r, record.deep_view(), headers.deep_view(), *outcome),
{
    let fields = crate::formats::clone_strings(record);
    let hs = crate::formats::clone_strings(headers);
    match outcome {
        CellOutcome::Converted { value, latitude, longitude } => {
            let r = ConvertedRow {
                fields,
                headers: hs,
                latitude: Some(latitude.clone()),
                longitude: Some(longitude.clone()),
                mgrs_source: Some(value.clone()),
            };
            r
        },
        CellOutcome::Failed { value, message } => ConvertedRow {
            fields,
            headers: hs,
            latitude: None,
            longitude: None,
            mgrs_source: Some(value.clone()),
        },
        _ => ConvertedRow { fields, headers: hs, latitude: None, longitude: None, mgrs_source: None },
    }
}

/// One CSV record of an MGRS-to-coordinate run: counts it, and gives the row to
/// write, or in strict mode the error that ends the run (a conversion that
/// failed, or a value that is not MGRS).
pub fn process_record(
    record: &Vec<String>,
    headers: &Vec<String>,
    outcome: CellOutcome,
    stats: &mut ProcessStats,
    strict: bool,
) -> (r: Result<ConvertedRow, StreamError>)
    requires
        old(stats).total_rows < usize::MAX,
        old(stats).succeeded_rows < usize::MAX,
        old(stats).failed_rows < usize::MAX,
    ensures
        old(stats).balanced() ==> final(stats).balanced(),
        final(stats).total_rows == old(stats).total_rows + 1,
        final(stats).succeeded_rows == old(stats).succeeded_rows + (if outcome is Converted {
            1int
        } else {
            0int
        }),
        final(stats).failed_rows == old(stats).failed_rows + (if outcome is Converted {
            0int
        } else {
            1int
        }),
        match outcome {
            CellOutcome::Failed { value, message } => if strict {
                r matches Err(StreamError::StrictConversion { row, message: m }) && row
                    == final(stats).total_rows && m@ == message@
            } else {
                r matches Ok(row) && outcome_row(row, record.deep_view(), headers.deep_view(), outcome)
            },
            CellOutcome::NotMgrs(value) => if strict {
                r matches Err(StreamError::StrictNotMgrs { row, value: v }) && row
                    == final(stats).total_rows && v@ == value@
            } else {
                r matches Ok(row) && outcome_row(row, record.deep_view(), headers.deep_view(), outcome)
            },
            _ => r matches Ok(row) && outcome_row(row, record.deep_view(), headers.deep_view(), outcome),
        },
{
    stats.total_rows = stats.total_rows + 1;
    match &outcome {
        CellOutcome::Converted { .. } => {
            stats.succeeded_rows = stats.succeeded_rows + 1;
        },
        CellOutcome::Failed { value, message } => {
            stats.failed_rows = stats.failed_rows + 1;
            if strict {
                return Err(
                    StreamError::StrictConversion { row: stats.total_rows, message: message.clone() },
                );
            }
        },
        CellOutcome::NotMgrs(value) => {
            stats.failed_rows = stats.failed_rows + 1;
            if strict {
                return Err(StreamError::StrictNotMgrs { row: stats.total_rows, value: value.clone() });
            }
        },
        CellOutcome::Empty => {
            stats.failed_rows = stats.failed_rows + 1;
        },
    }
    Ok(make_row(record, headers, &outcome))
}

/// One CSV record of a run to a path-based format: counts it, and gives the row
/// to write, or in strict mode the error that ends the run (a conversion that
/// failed, or a value that is not MGRS), as `process_record` does.
pub fn process_record_path(
    record: &Vec<String>,
    headers: &Vec<String>,
    outcome: CellOutcome,
    stats: &mut ProcessStats,
    strict: bool,
) -> (r: Result<ConvertedRow, StreamError>)
    requires
        old(stats).total_rows < usize::MAX,
        old(stats).succeeded_rows < usize::MAX,
        old(stats).failed_rows < usize::MAX,
    ensures
        old(stats).balanced() ==> final(stats).balanced(),
        final(stats).total_rows == old(stats).total_rows + 1,
        final(stats).succeeded_rows == old(stats).succeeded_rows + (if outcome is Converted {
            1int
        } else {
            0int
        }),
        final(stats).failed_rows == old(stats).failed_rows + (if outcome is Converted {
            0int
        } else {
            1int
        }),
        match outcome {
            CellOutcome::Failed { value, message } => if strict {
                r matches Err(StreamError::StrictConversion { row, message: m }) && row
                    == final(stats).total_rows && m@ == message@
            } else {
                r matches Ok(row) && outcome_row(row, record.deep_view(), headers.deep_view(), outcome)
            },
            CellOutcome::NotMgrs(value) => if strict {
                r matches Err(StreamError::StrictNotMgrs { row, value: v }) && row
                    == final(stats).total_rows && v@ == value@
            } else {
                r matches Ok(row) && outcome_row(row, record.deep_view(), headers.deep_view(), outcome)
            },
            _ => r matches Ok(row) && outcome_row(row, record.deep_view(), headers.deep_view(), outcome),
        },
{
    process_record(record, headers, outcome, stats, strict)
}

/// The row for a record read from any input format: one field per header (the
/// record's first value under that name, else empty) and the record's
/// coordinate. The record counts as a success when it has both coordinates.
pub fn convert_input_record(
    headers: &Vec<String>,
    record: InputRecord,
    stats: &mut ProcessStats,
) -> (r: ConvertedRow)
    requires
        old(stats).total_rows < usize::MAX,
        old(stats).succeeded_rows < usize::MAX,
        old(stats).failed_rows < usize::MAX,
    ensures
        old(stats).balanced() ==> final(stats).balanced(),
        final(stats).total_rows == old(stats).total_rows + 1,
        final(stats).succeeded_rows == old(stats).succeeded_rows + (if record.latitude is Some
            && record.longitude is Some {
            1int
        } else {
            0int
        }),
        final(stats).failed_rows == old(stats).failed_rows + (if record.latitude is Some
            && record.longitude is Some {
            0int
        } else {
            1int
        }),
        r.fields.deep_view() == Seq::new(
            headers@.len(),
            |i: int| lookup(record.fields.deep_view(), headers.deep_view()[i]),
        ),
        r.headers.deep_view() == headers.deep_view(),
        r.latitude.deep_view() == record.latitude.deep_view(),
        r.longitude.deep_view() == record.longitude.deep_view(),
        r.mgrs_source is None,
{
    stats.total_rows = stats.total_rows + 1;
    let ghost want = Seq::new(
        headers@.len(),
        |i: int| lookup(record.fields.deep_view(), headers.deep_view()[i]),
    );
    let mut fields: Vec<String> = Vec::new();
    let mut i: usize = 0;
    while i < headers.len()
        invariant
            i <= headers@.len(),
            want == Seq::new(
                headers@.len(),
                |i: int| lookup(record.fields.deep_view(), headers.deep_view()[i]),
            ),
            fields.deep_view() == want.take(i as int),
        decreases headers@.len() - i,
    {
        let v = crate::formats::kml_input::lookup_value(&record.fields, &headers[i]);
        assert(headers.deep_view()[i as int] == headers@[i as int]@);
        let ghost before = fields.deep_view();
        assert(v@ == want[i as int]);
        fields.push(v);
        assert(fields.deep_view() =~= before.push(v@));
        assert(fields.deep_view() =~= want.take(i + 1));
        i = i + 1;
    }
    assert(want.take(headers@.len() as int) == want);
    if record.latitude.is_some() && record.longitude.is_some() {
        stats.succeeded_rows = stats.succeeded_rows + 1;
    } else {
        stats.failed_rows = stats.failed_rows + 1;
    }
    ConvertedRow {
        fields,
        headers: crate::formats::clone_strings(headers),
        latitude: record.latitude,
        longitude: record.longitude,
        mgrs_source: None,
    }
}


/// Whether `h`, lower-cased, contains `pat`.
pub open spec fn lower_contains(h: Seq<char>, pat: Seq<char>) -> bool {
    find_from(unicode_lowercase(h), pat, 0) is Some
}

/// A header that names a longitude: it contains `lon` or `lng`, ignoring case.
pub open spec fn is_lon_header(h: Seq<char>) -> bool {
    lower_contains(h, seq!['l', 'o', 'n']) || lower_contains(h, seq!['l', 'n', 'g'])
}

/// A header that names a latitude: it contains `lat`, ignoring case.
pub open spec fn is_lat_header(h: Seq<char>) -> bool {
    lower_contains(h, seq!['l', 'a', 't'])
}

/// `i` is the first index of `headers` whose header contains `pat` ignoring case.
pub open spec fn first_containing(headers: Seq<Seq<char>>, pat: Seq<char>, i: int) -> bool {
    0 <= i < headers.len() && lower_contains(headers[i], pat) && forall|j: int|
        0 <= j < i ==> !lower_contains(headers[j], pat)
}

/// `i` is the first index of `headers` that names a longitude.
pub open spec fn first_lon(headers: Seq<Seq<char>>, i: int) -> bool {
    0 <= i < headers.len() && is_lon_header(headers[i]) && forall|j: int|
        0 <= j < i ==> !is_lon_header(headers[j])
}

/// The first header containing `pat` once lower-cased.
fn first_header_containing(headers: &Vec<String>, pat: &Vec<char>) -> (r: Option<usize>)
    ensures
        match r {
            Some(i) => first_containing(headers.deep_view(), pat@, i as int),
            None => forall|j: int|
                0 <= j < headers@.len() ==> !lower_contains(headers.deep_view()[j], pat@),
        },
{
    let mut i: usize = 0;
    while i < headers.len()
        invariant
            i <= headers@.len(),
            forall|j: int| 0 <= j < i ==> !lower_contains(headers.deep_view()[j], pat@),
        decreases headers@.len() - i,
    {
        let h = chars_of(to_lowercase(headers[i].as_str()).as_str());
        assert(headers.deep_view()[i as int] == headers@[i as int]@);
        if find_from_exec(&h, pat, 0).is_some() {
            return Some(i);
        }
        i = i + 1;
    }
    None
}

/// The first header that names a longitude.
fn first_lon_header(headers: &Vec<String>) -> (r: Option<usize>)
    ensures
        match r {
            Some(i) => first_lon(headers.deep_view(), i as int),
            None => forall|j: int| 0 <= j < headers@.len() ==> !is_lon_header(headers.deep_view()[j]),
        },
{
    let lon = vec!['l', 'o', 'n'];
    let lng = vec!['l', 'n', 'g'];
    assert(lon@ == seq!['l', 'o', 'n'] && lng@ == seq!['l', 'n', 'g']);
    let mut i: usize = 0;
    while i < headers.len()
        invariant
            i <= headers@.len(),
            lon@ == seq!['l', 'o', 'n'],
            lng@ == seq!['l', 'n', 'g'],
            forall|j: int| 0 <= j < i ==> !is_lon_header(headers.deep_view()[j]),
        decreases headers@.len() - i,
    {
        let h = chars_of(to_lowercase(headers[i].as_str()).as_str());
        assert(headers.deep_view()[i as int] == headers@[i as int]@);
        if find_from_exec(&h, &lon, 0).is_some() || find_from_exec(&h, &lng, 0).is_some() {
            return Some(i);
        }
        i = i + 1;
    }
    None
}

/// The latitude and longitude columns of a coordinate-to-MGRS run: by name (the
/// first header containing it, ignoring case), by index (that column and the next),
/// or, without a column, the first header containing `lat`; the longitude column
/// is the first header containing `lon` or `lng`.
pub fn find_latlon_columns(headers: &Vec<String>, column: &Option<ColumnSpec>) -> (r: Result<
    (usize, usize),
    StreamError,
>)
    requires
        column matches Some(ColumnSpec::Index(i)) ==> i < usize::MAX,
    ensures
        match column {
            Some(ColumnSpec::Index(idx)) => r matches Ok((a, b)) && a == idx && b == idx + 1,
            Some(ColumnSpec::Name(name)) => {
                let pat = unicode_lowercase(name@);
                let hs = headers.deep_view();
                match r {
                    Ok((a, b)) => first_containing(hs, pat, a as int) && first_lon(hs, b as int),
                    Err(StreamError::ColumnNotFound(n)) => n@ == name@ && forall|j: int|
                        0 <= j < hs.len() ==> !lower_contains(hs[j], pat),
                    Err(StreamError::NoLongitudeColumn) => (exists|a: int|
                        first_containing(hs, pat, a)) && forall|j: int|
                        0 <= j < hs.len() ==> !is_lon_header(hs[j]),
                    _ => false,
                }
            },
            None => {
                let hs = headers.deep_view();
                match r {
                    Ok((a, b)) => first_containing(hs, seq!['l', 'a', 't'], a as int) && first_lon(
                        hs,
                        b as int,
                    ),
                    Err(StreamError::NoLatitudeColumn) => forall|j: int|
                        0 <= j < hs.len() ==> !is_lat_header(hs[j]),
                    Err(StreamError::NoLongitudeColumn) => (exists|a: int|
                        first_containing(hs, seq!['l', 'a', 't'], a)) && forall|j: int|
                        0 <= j < hs.len() ==> !is_lon_header(hs[j]),
                    _ => false,
                }
            },
        },
{
    match column {
        Some(ColumnSpec::Index(idx)) => Ok((*idx, *idx + 1)),
        Some(ColumnSpec::Name(name)) => {
            let pat = chars_of(to_lowercase(name.as_str()).as_str());
            let lat_idx = match first_header_containing(headers, &pat) {
                Some(i) => i,
                None => {
                    return Err(StreamError::ColumnNotFound(name.clone()));
                },
            };
            match first_lon_header(headers) {
                Some(j) => Ok((lat_idx, j)),
                None => Err(StreamError::NoLongitudeColumn),
            }
        },
        None => {
            let lat = vec!['l', 'a', 't'];
            assert(lat@ == seq!['l', 'a', 't']);
            let lat_idx = match first_header_containing(headers, &lat) {
                Some(i) => i,
                None => {
                    return Err(StreamError::NoLatitudeColumn);
                },
            };
            match first_lon_header(headers) {
                Some(j) => Ok((lat_idx, j)),
                None => Err(StreamError::NoLongitudeColumn),
            }
        },
    }
}

/// The coordinate fields of a record in a coordinate-to-MGRS run.
pub enum LatLonCell {
    /// Both fields are numbers: convert them.
    Valid { latitude: String, longitude: String },
    /// At least one field is not a number.
    Invalid { latitude: String, longitude: String },
}

/// Takes the trimmed latitude and longitude fields of `record`, and tells whether
/// both are numbers.
pub fn latlon_cell(record: &Vec<String>, lat_col: usize, lon_col: usize) -> (r: LatLonCell)
    ensures
        ({
            let la = cell_text(record.deep_view(), lat_col as int);
            let lo = cell_text(record.deep_view(), lon_col as int);
            match r {
                LatLonCell::Valid { latitude, longitude } => latitude@ == la && longitude@ == lo
                    && is_float_literal(la) && is_float_literal(lo),
                LatLonCell::Invalid { latitude, longitude } => latitude@ == la && longitude@ == lo
                    && !(is_float_literal(la) && is_float_literal(lo)),
            }
        }),
{
    let la = if lat_col < record.len() {
        assert(record.deep_view()[lat_col as int] == record@[lat_col as int]@);
        trim_chars(&chars_of(record[lat_col].as_str()))
    } else {
        Vec::new()
    };
    let lo = if lon_col < record.len() {
        assert(record.deep_view()[lon_col as int] == record@[lon_col as int]@);
        trim_chars(&chars_of(record[lon_col].as_str()))
    } else {
        Vec::new()
    };
    if is_float_text(&la) && is_float_text(&lo) {
        LatLonCell::Valid { latitude: string_of(&la), longitude: string_of(&lo) }
    } else {
        LatLonCell::Invalid { latitude: string_of(&la), longitude: string_of(&lo) }
    }
}

/// A record's coordinate after conversion to MGRS was tried where it applies.
pub enum MgrsOutcome {
    /// The coordinate converted to this MGRS text.
    Converted(String),
    /// The coordinate did not convert.
    Failed(String),
    /// The coordinate fields were not numbers.
    Invalid,
}

/// One record of a coordinate-to-MGRS run: counts it, and gives the output record
/// (the record with the MGRS text appended, empty where there is none), or in
/// strict mode the error that ends the run.
pub fn to_mgrs_row(
    record: &Vec<String>,
    outcome: MgrsOutcome,
    stats: &mut ProcessStats,
    strict: bool,
) -> (r: Result<Vec<String>, StreamError>)
    requires
        old(stats).total_rows < usize::MAX,
        old(stats).succeeded_rows < usize::MAX,
        old(stats).failed_rows < usize::MAX,
    ensures
        old(stats).balanced() ==> final(stats).balanced(),
        final(stats).total_rows == old(stats).total_rows + 1,
        final(stats).succeeded_rows == old(stats).succeeded_rows + (if outcome is Converted {
            1int
        } else {
            0int
        }),
        final(stats).failed_rows == old(stats).failed_rows + (if outcome is Converted {
            0int
        } else {
            1int
        }),
        match outcome {
            MgrsOutcome::Converted(m) => r matches Ok(out) && out.deep_view()
                == record.deep_view().push(m@),
            MgrsOutcome::Failed(msg) => if strict {
                r matches Err(StreamError::StrictConversion { row, message }) && row
                    == final(stats).total_rows && message@ == msg@
            } else {
                r matches Ok(out) && out.deep_view() == record.deep_view().push(Seq::empty())
            },
            MgrsOutcome::Invalid => if strict {
                r matches Err(StreamError::StrictInvalidCoordinates { row }) && row
                    == final(stats).total_rows
            } else {
                r matches Ok(out) && out.deep_view() == record.deep_view().push(Seq::empty())
            },
        },
{
    stats.total_rows = stats.total_rows + 1;
    let value = match outcome {
        MgrsOutcome::Converted(m) => {
            stats.succeeded_rows = stats.succeeded_rows + 1;
            m
        },
        MgrsOutcome::Failed(msg) => {
            stats.failed_rows = stats.failed_rows + 1;
            if strict {
                return Err(StreamError::StrictConversion { row: stats.total_rows, message: msg });
            }
            String::new()
        },
        MgrsOutcome::Invalid => {
            stats.failed_rows = stats.failed_rows + 1;
            if strict {
                return Err(StreamError::StrictInvalidCoordinates { row: stats.total_rows });
            }
            String::new()
        },
    };
    let mut out = crate::formats::clone_strings(record);
    let ghost before = out.deep_view();
    out.push(value);
    assert(out.deep_view() =~= before.push(value@));
    Ok(out)
}

pub open spec fn mgrs_key() -> Seq<char> {
    seq!['M', 'G', 'R', 'S']
}

/// The header row of a coordinate-to-MGRS run: the input headers, then `MGRS`.
pub fn mgrs_output_headers(headers: &Vec<String>) -> (r: Vec<String>)
    ensures
        r.deep_view() == headers.deep_view().push(mgrs_key()),
{
    proof {
        reveal_strlit("MGRS");
    }
    assert("MGRS"@ == mgrs_key());
    let mut out = crate::formats::clone_strings(headers);
    let ghost before = out.deep_view();
    out.push("MGRS".to_string());
    assert(out.deep_view() =~= before.push(mgrs_key()));
    out
}


/// The way a run moves records from its input to its output.
#[derive(Debug, Clone, Copy, PartialEq, Eq, Structural)]
pub enum Pipeline {
    /// CSV coordinates to CSV with an MGRS column.
    ToMgrs,
    /// CSV with MGRS to a stream format.
    CsvToStream,
    /// CSV with MGRS to a path-based format.
    CsvToPath,
    /// A path-based input to a stream format.
    PathToStream,
    /// A path-based input to a path-based format.
    PathToPath,
    /// Any other input, read whole, to a stream format.
    DataToStream,
    /// Any other input, read whole, to a path-based format.
    DataToPath,
}

/// What a run does, decided from its arguments.
pub struct RunPlan {
    pub input_format: FormatKind,
    pub output_format: FormatKind,
    pub pipeline: Pipeline,
    /// Whether a progress bar is shown (CSV input written to a file).
    pub progress: bool,
}

/// The input format: the one named, else the one of the input's extension, else CSV;
/// `None` for a name that is not a format.
pub open spec fn input_format_spec(input: Seq<char>, arg: Option<Seq<char>>) -> Option<FormatKind> {
    match arg {
        Some(a) => format_for_name(unicode_lowercase(a)),
        None => match detect_format_spec(input) {
            Some(f) => Some(f),
            None => Some(FormatKind::Csv),
        },
    }
}

/// The output format: the one named, else the one of the output path's extension,
/// else CSV; `None` for a name that is not a format.
pub open spec fn output_format_spec(output: Option<Seq<char>>, arg: Option<Seq<char>>) -> Option<
    FormatKind,
> {
    match arg {
        Some(a) => format_for_name(unicode_lowercase(a)),
        None => match output {
            Some(path) => match detect_format_spec(path) {
                Some(f) => Some(f),
                None => Some(FormatKind::Csv),
            },
            None => Some(FormatKind::Csv),
        },
    }
}

/// The pipeline for a run between `inf` and `outf`.
pub open spec fn pipeline_for(to_mgrs: bool, inf: FormatKind, outf: FormatKind) -> Pipeline {
    if to_mgrs {
        Pipeline::ToMgrs
    } else if inf == FormatKind::Csv {
        if is_path_based(outf) {
            Pipeline::CsvToPath
        } else {
            Pipeline::CsvToStream
        }
    } else if is_path_based(inf) {
        if is_path_based(outf) {
            Pipeline::PathToPath
        } else {
            Pipeline::PathToStream
        }
    } else if is_path_based(outf) {
        Pipeline::DataToPath
    } else {
        Pipeline::DataToStream
    }
}

fn format_or_csv(path: &str) -> (r: FormatKind)
    ensures
        r == (match detect_format_spec(path@) {
            Some(f) => f,
            None => FormatKind::Csv,
        }),
{
    match detect_format(path) {
        Some(f) => f,
        None => FormatKind::Csv,
    }
}

/// Decides the formats and the pipeline of a run: an unknown format name, or a
/// path-based output format without an output path, is an error.
pub fn plan_run(
    input: &str,
    output: &Option<String>,
    format: &Option<String>,
    input_format: &Option<String>,
    to_mgrs: bool,
) -> (r: Result<RunPlan, StreamError>)
    ensures
        match input_format_spec(input@, input_format.deep_view()) {
            None => r matches Err(StreamError::UnknownFormat(n)) && Some(n@)
                == input_format.deep_view(),
            Some(inf) => match output_format_spec(output.deep_view(), format.deep_view()) {
                None => r matches Err(StreamError::UnknownFormat(n)) && Some(n@)
                    == format.deep_view(),
                Some(outf) => if is_path_based(outf) && output is None {
                    r matches Err(StreamError::RequiresOutput(f)) && f == outf
                } else {
                    r matches Ok(p) && p.input_format == inf && p.output_format == outf
                        && p.pipeline == pipeline_for(to_mgrs, inf, outf) && p.progress == (
                    output is Some && inf == FormatKind::Csv)
                },
            },
        },
{
    let inf = match input_format {
        Some(f) => parse_format(f.as_str())?,
        None => format_or_csv(input),
    };
    let outf = match format {
        Some(f) => parse_format(f.as_str())?,
        None => match output {
            Some(path) => format_or_csv(path.as_str()),
            None => FormatKind::Csv,
        },
    };
    if is_path_based_format(outf) && output.is_none() {
        return Err(StreamError::RequiresOutput(outf));
    }
    let pipeline = if to_mgrs {
        Pipeline::ToMgrs
    } else if inf == FormatKind::Csv {
        if is_path_based_format(outf) {
            Pipeline::CsvToPath
        } else {
            Pipeline::CsvToStream
        }
    } else if is_path_based_format(inf) {
        if is_path_based_format(outf) {
            Pipeline::PathToPath
        } else {
            Pipeline::PathToStream
        }
    } else if is_path_based_format(outf) {
        Pipeline::DataToPath
    } else {
        Pipeline::DataToStream
    };
    Ok(
        RunPlan {
            input_format: inf,
            output_format: outf,
            pipeline,
            progress: output.is_some() && inf == FormatKind::Csv,
        },
    )
}

} // verus!
