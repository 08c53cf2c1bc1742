//! GeoPackage: the GeoPackage Binary form of a point, and the SQL text of the
//! `points` table.
//!
//! A coordinate is handled here as the 64-bit IEEE 754 pattern of the number.
use vstd::prelude::*;
use crate::formats::{join, join_strings};
use crate::text::push_str_chars;

verus! {

/// Byte `k` (0 = least significant) of `v`.
pub open spec fn byte_of(v: u64, k: u64) -> u8 {
    ((v >> (8 * k)) & 0xff) as u8
}

/// `v` as 8 little-endian bytes.
pub open spec fn le_bytes(v: u64) -> Seq<u8> {
    seq![
        byte_of(v, 0),
        byte_of(v, 1),
        byte_of(v, 2),
        byte_of(v, 3),
        byte_of(v, 4),
        byte_of(v, 5),
        byte_of(v, 6),
        byte_of(v, 7),
    ]
}

/// The GeoPackage Binary header of a point in SRS 4326 with no envelope: magic
/// `GP`, version 0, flags 1 (little-endian), SRS id 4326 as a little-endian `i32`.
pub open spec fn gpb_header() -> Seq<u8> {
    seq![0x47u8, 0x50u8, 0u8, 1u8, 0xe6u8, 0x10u8, 0u8, 0u8]
}

/// The GeoPackage Binary of the point `(lon, lat)`: the header, then a
/// little-endian WKB point (byte order 1, type 1, x = lon, y = lat).
pub open spec fn gpb_point(lon: u64, lat: u64) -> Seq<u8> {
    gpb_header() + seq![1u8, 1u8, 0u8, 0u8, 0u8] + le_bytes(lon) + le_bytes(lat)
}

/// Encodes a WGS84 point, given by the bit patterns of its coordinates, as
/// GeoPackage Binary.
pub fn encode_gpb_point(lon: u64, lat: u64) -> (r: Vec<u8>)
    ensures
        r@ == gpb_point(lon, lat),
{
    let mut buf: Vec<u8> = Vec::with_capacity(29);
    buf.push(0x47);
    buf.push(0x50);
    buf.push(0);
    buf.push(0x01);
    buf.push(0xe6);
    buf.push(0x10);
    buf.push(0);
    buf.push(0);
    buf.push(0x01);
    buf.push(1);
    buf.push(0);
    buf.push(0);
    buf.push(0);
    push_le_bytes(&mut buf, lon);
    push_le_bytes(&mut buf, lat);
    assert(buf@ =~= gpb_point(lon, lat));
    buf
}

fn push_le_bytes(buf: &mut Vec<u8>, v: u64)
    ensures
        final(buf)@ == old(buf)@ + le_bytes(v),
{
    let mut k: u64 = 0;
    while k < 8
        invariant
            k <= 8,
            buf@ == old(buf)@ + le_bytes(v).take(k as int),
        decreases 8 - k,
    {
        let b = ((v >> (8 * k)) & 0xff) as u8;
        assert(b == byte_of(v, k));
        buf.push(b);
        assert(le_bytes(v).take(k + 1) == le_bytes(v).take(k as int).push(byte_of(v, k)));
        k = k + 1;
    }
    assert(le_bytes(v).take(8) == le_bytes(v));
}

/// The `u32` of the 4 bytes of `s` at `i`, little-endian.
pub open spec fn u32_le_at(s: Seq<u8>, i: int) -> u32 {
    (s[i] as u32) | ((s[i + 1] as u32) << 8) | ((s[i + 2] as u32) << 16) | ((s[i + 3] as u32)
        << 24)
}

/// The `u32` of the 4 bytes of `s` at `i`, big-endian.
pub open spec fn u32_be_at(s: Seq<u8>, i: int) -> u32 {
    (s[i + 3] as u32) | ((s[i + 2] as u32) << 8) | ((s[i + 1] as u32) << 16) | ((s[i] as u32)
        << 24)
}

/// The `u64` of the 8 bytes of `s` at `i`, little-endian.
pub open spec fn u64_le_at(s: Seq<u8>, i: int) -> u64 {
    (s[i] as u64) | ((s[i + 1] as u64) << 8) | ((s[i + 2] as u64) << 16) | ((s[i + 3] as u64)
        << 24) | ((s[i + 4] as u64) << 32) | ((s[i + 5] as u64) << 40) | ((s[i + 6] as u64) << 48)
        | ((s[i + 7] as u64) << 56)
}

/// The `u64` of the 8 bytes of `s` at `i`, big-endian.
pub open spec fn u64_be_at(s: Seq<u8>, i: int) -> u64 {
    (s[i + 7] as u64) | ((s[i + 6] as u64) << 8) | ((s[i + 5] as u64) << 16) | ((s[i + 4] as u64)
        << 24) | ((s[i + 3] as u64) << 32) | ((s[i + 2] as u64) << 40) | ((s[i + 1] as u64) << 48)
        | ((s[i] as u64) << 56)
}

/// `(lat, lon)` of a GeoPackage Binary point: at least 29 bytes, magic `GP`, and
/// after the 8-byte header a WKB point whose byte order byte (1 = little-endian,
/// else big-endian) governs the type (which must be 1) and the coordinates.
pub open spec fn gpb_decode(data: Seq<u8>) -> Option<(u64, u64)> {
    if data.len() < 29 || data[0] != 0x47 || data[1] != 0x50 {
        None
    } else {
        let le = data[8] == 1;
        let geom_type = if le {
            u32_le_at(data, 9)
        } else {
            u32_be_at(data, 9)
        };
        if geom_type != 1 {
            None
        } else if le {
            Some((u64_le_at(data, 21), u64_le_at(data, 13)))
        } else {
            Some((u64_be_at(data, 21), u64_be_at(data, 13)))
        }
    }
}

/// Decodes a GeoPackage Binary point into the bit patterns of `(lat, lon)`.
pub fn decode_gpb_point(data: &[u8]) -> (r: Option<(u64, u64)>)
    ensures
        r == gpb_decode(data@),
{
    if data.len() < 29 {
        return None;
    }
    if data[0] != 0x47 || data[1] != 0x50 {
        return None;
    }
    let is_le = data[8] == 0x01;
    let geom_type = if is_le {
        (data[9] as u32) | ((data[10] as u32) << 8) | ((data[11] as u32) << 16) | ((data[12] as u32)
            << 24)
    } else {
        (data[12] as u32) | ((data[11] as u32) << 8) | ((data[10] as u32) << 16) | ((data[9] as u32)
            << 24)
    };
    if geom_type != 1 {
        return None;
    }
    if is_le {
        Some((read_u64_le(data, 21), read_u64_le(data, 13)))
    } else {
        Some((read_u64_be(data, 21), read_u64_be(data, 13)))
    }
}

fn read_u64_le(data: &[u8], i: usize) -> (r: u64)
    requires
        i + 8 <= data@.len(),
    ensures
        r == u64_le_at(data@, i as int),
{
    (data[i] as u64) | ((data[i + 1] as u64) << 8) | ((data[i + 2] as u64) << 16) | ((data[i
        + 3] as u64) << 24) | ((data[i + 4] as u64) << 32) | ((data[i + 5] as u64) << 40) | ((data[i
        + 6] as u64) << 48) | ((data[i + 7] as u64) << 56)
}

fn read_u64_be(data: &[u8], i: usize) -> (r: u64)
    requires
        i + 8 <= data@.len(),
    ensures
        r == u64_be_at(data@, i as int),
{
    let n = data.len();
    assert(i + 8 <= n);
    (data[i + 7] as u64) | ((data[i + 6] as u64) << 8) | ((data[i + 5] as u64) << 16) | ((data[i
        + 4] as u64) << 24) | ((data[i + 3] as u64) << 32) | ((data[i + 2] as u64) << 40) | ((data[i
        + 1] as u64) << 48) | ((data[i] as u64) << 56)
}

proof fn lemma_le_bytes_roundtrip(v: u64)
    ensures
        ({
            let b = le_bytes(v);
            (b[0] as u64) | ((b[1] as u64) << 8) | ((b[2] as u64) << 16) | ((b[3] as u64) << 24) | ((
            b[4] as u64) << 32) | ((b[5] as u64) << 40) | ((b[6] as u64) << 48) | ((b[7] as u64)
                << 56) == v
        }),
{
    let b0 = byte_of(v, 0);
    let b1 = byte_of(v, 1);
    let b2 = byte_of(v, 2);
    let b3 = byte_of(v, 3);
    let b4 = byte_of(v, 4);
    let b5 = byte_of(v, 5);
    let b6 = byte_of(v, 6);
    let b7 = byte_of(v, 7);
    assert((((v >> 0u64) & 0xff) as u8 as u64) | ((((v >> 8u64) & 0xff) as u8 as u64) << 8) | ((((v
        >> 16u64) & 0xff) as u8 as u64) << 16) | ((((v >> 24u64) & 0xff) as u8 as u64) << 24) | ((((v
        >> 32u64) & 0xff) as u8 as u64) << 32) | ((((v >> 40u64) & 0xff) as u8 as u64) << 40) | ((((v
        >> 48u64) & 0xff) as u8 as u64) << 48) | ((((v >> 56u64) & 0xff) as u8 as u64) << 56) == v)
        by (bit_vector);
}

/// Decoding the encoding of a point gives its coordinates back, as `(lat, lon)`.
pub proof fn lemma_gpb_roundtrip(lon: u64, lat: u64)
    ensures
        gpb_decode(gpb_point(lon, lat)) == Some((lat, lon)),
{
    let d = gpb_point(lon, lat);
    lemma_le_bytes_roundtrip(lon);
    lemma_le_bytes_roundtrip(lat);
    assert(d.len() == 29);
    assert(d[8] == 1u8);
    assert(u32_le_at(d, 9) == 1) by {
        assert(d[9] == 1u8 && d[10] == 0u8 && d[11] == 0u8 && d[12] == 0u8);
        assert((1u8 as u32) | ((0u8 as u32) << 8) | ((0u8 as u32) << 16) | ((0u8 as u32) << 24)
            == 1u32) by (bit_vector);
    }
    assert(d.subrange(13, 21) == le_bytes(lon));
    assert(d.subrange(21, 29) == le_bytes(lat));
    assert(u64_le_at(d, 13) == lon) by {
        let b = le_bytes(lon);
        assert(forall|k: int| 0 <= k < 8 ==> d[13 + k] == b[k]);
        assert(d[13] == b[0] && d[14] == b[1] && d[15] == b[2] && d[16] == b[3] && d[17] == b[4]
            && d[18] == b[5] && d[19] == b[6] && d[20] == b[7]);
    }
    assert(u64_le_at(d, 21) == lat) by {
        let b = le_bytes(lat);
        assert(forall|k: int| 0 <= k < 8 ==> d[21 + k] == b[k]);
        assert(d[21] == b[0] && d[22] == b[1] && d[23] == b[2] && d[24] == b[3] && d[25] == b[4]
            && d[26] == b[5] && d[27] == b[6] && d[28] == b[7]);
    }
}


/// `h` in double quotes, as an SQL identifier.
pub open spec fn quoted(h: Seq<char>) -> Seq<char> {
    seq!['"'] + h + seq!['"']
}

fn quote(h: &String) -> (r: String)
    ensures
        r@ == quoted(h@),
{
    let mut out: Vec<char> = Vec::new();
    out.push('"');
    push_str_chars(&mut out, h.as_str());
    out.push('"');
    crate::text::string_of(&out)
}

pub const FID_COLUMN: &'static str = "fid INTEGER PRIMARY KEY AUTOINCREMENT";

pub const GEOM_COLUMN: &'static str = "geom BLOB";

pub const TEXT_TYPE: &'static str = " TEXT";

pub const CREATE_POINTS: &'static str = "CREATE TABLE points (";

pub const COMMA_SEP: &'static str = ", ";

/// The column definitions of the `points` table: the feature id, the geometry,
/// then one text column per header.
pub open spec fn points_columns(headers: Seq<Seq<char>>) -> Seq<Seq<char>> {
    seq![FID_COLUMN@, GEOM_COLUMN@] + headers.map_values(|h: Seq<char>| quoted(h) + TEXT_TYPE@)
}

/// `CREATE TABLE points (...)` for `headers`.
pub open spec fn points_table_sql_spec(headers: Seq<Seq<char>>) -> Seq<char> {
    CREATE_POINTS@ + join(points_columns(headers), COMMA_SEP@) + seq![')']
}

/// The statement that creates the `points` table for `headers`.
pub fn points_table_sql(headers: &Vec<String>) -> (r: String)
    ensures
        r@ == points_table_sql_spec(headers.deep_view()),
{
    let mut defs: Vec<String> = Vec::new();
    defs.push(FID_COLUMN.to_string());
    defs.push(GEOM_COLUMN.to_string());
    let ghost hs = headers.deep_view();
    let mut i: usize = 0;
    assert(defs.deep_view() =~= seq![FID_COLUMN@, GEOM_COLUMN@] + hs.take(0).map_values(
        |h: Seq<char>| quoted(h) + TEXT_TYPE@,
    ));
    while i < headers.len()
        invariant
            i <= headers@.len(),
            hs == headers.deep_view(),
            defs.deep_view() == seq![FID_COLUMN@, GEOM_COLUMN@] + hs.take(i as int).map_values(
                |h: Seq<char>| quoted(h) + TEXT_TYPE@,
            ),
        decreases headers@.len() - i,
    {
        let mut d = quote(&headers[i]);
        d.append(TEXT_TYPE);
        let ghost b = defs.deep_view();
        defs.push(d);
        assert(hs[i as int] == headers@[i as int]@);
        assert(defs.deep_view() =~= b.push(d@));
        assert(hs.take(i + 1).map_values(|h: Seq<char>| quoted(h) + TEXT_TYPE@) =~= hs.take(
            i as int,
        ).map_values(|h: Seq<char>| quoted(h) + TEXT_TYPE@).push(quoted(hs[i as int]) + TEXT_TYPE@));
        assert(defs.deep_view() =~= seq![FID_COLUMN@, GEOM_COLUMN@] + hs.take(i + 1).map_values(
            |h: Seq<char>| quoted(h) + TEXT_TYPE@,
        ));
        i = i + 1;
    }
    assert(hs.take(headers@.len() as int) == hs);
    let mut out = CREATE_POINTS.to_string();
    out.append(join_strings(&defs, COMMA_SEP).as_str());
    out.append(")");
    proof {
        reveal_strlit(")");
    }
    assert(")"@ == seq![')']);
    out
}

pub const INSERT_POINTS: &'static str = "INSERT INTO points (geom, ";

pub const INSERT_VALUES: &'static str = ") VALUES (?";

/// `INSERT INTO points (geom, ...) VALUES (?, ...)` for `headers`.
pub open spec fn insert_point_sql_spec(headers: Seq<Seq<char>>) -> Seq<char> {
    let marks = if headers.len() == 0 {
        Seq::<char>::empty()
    } else {
        COMMA_SEP@ + join(Seq::new(headers.len(), |i: int| seq!['?']), COMMA_SEP@)
    };
    INSERT_POINTS@ + join(headers.map_values(|h: Seq<char>| quoted(h)), COMMA_SEP@) + INSERT_VALUES@
        + marks + seq![')']
}

/// The statement that inserts one point with its attributes.
pub fn insert_point_sql(headers: &Vec<String>) -> (r: String)
    ensures
        r@ == insert_point_sql_spec(headers.deep_view()),
{
    let ghost hs = headers.deep_view();
    let mut names: Vec<String> = Vec::new();
    let mut marks: Vec<String> = Vec::new();
    let mut i: usize = 0;
    proof {
        reveal_strlit("?");
    }
    assert("?"@ == seq!['?']);
    while i < headers.len()
        invariant
            i <= headers@.len(),
            hs == headers.deep_view(),
            "?"@ == seq!['?'],
            names.deep_view() == hs.take(i as int).map_values(|h: Seq<char>| quoted(h)),
            marks.deep_view() == Seq::new(i as nat, |k: int| seq!['?']),
        decreases headers@.len() - i,
    {
        let q = quote(&headers[i]);
        let ghost b = names.deep_view();
        let ghost m = marks.deep_view();
        names.push(q);
        marks.push("?".to_string());
        assert(hs[i as int] == headers@[i as int]@);
        assert(names.deep_view() =~= b.push(q@));
        assert(marks.deep_view() =~= m.push(seq!['?']));
        assert(hs.take(i + 1).map_values(|h: Seq<char>| quoted(h)) =~= hs.take(i as int).map_values(
            |h: Seq<char>| quoted(h),
        ).push(quoted(hs[i as int])));
        assert(names.deep_view() =~= hs.take(i + 1).map_values(|h: Seq<char>| quoted(h)));
        assert(marks.deep_view() =~= Seq::new((i + 1) as nat, |k: int| seq!['?']));
        i = i + 1;
    }
    assert(hs.take(headers@.len() as int) == hs);
    let mut out = INSERT_POINTS.to_string();
    out.append(join_strings(&names, COMMA_SEP).as_str());
    out.append(INSERT_VALUES);
    if headers.len() > 0 {
        out.append(COMMA_SEP);
        out.append(join_strings(&marks, COMMA_SEP).as_str());
    }
    out.append(")");
    proof {
        reveal_strlit(")");
    }
    assert(")"@ == seq![')']);
    out
}

pub const SELECT_GEOM: &'static str = "SELECT geom, ";

pub const FROM_POINTS: &'static str = " FROM points";

/// `SELECT geom, ... FROM points` for the attribute `columns` (`1` when there are none).
pub open spec fn select_points_sql_spec(columns: Seq<Seq<char>>) -> Seq<char> {
    SELECT_GEOM@ + (if columns.len() == 0 {
        seq!['1']
    } else {
        join(columns.map_values(|c: Seq<char>| quoted(c)), COMMA_SEP@)
    }) + FROM_POINTS@
}

/// The query that reads the points with their attributes.
pub fn select_points_sql(columns: &Vec<String>) -> (r: String)
    ensures
        r@ == select_points_sql_spec(columns.deep_view()),
{
    let ghost cs = columns.deep_view();
    let mut names: Vec<String> = Vec::new();
    let mut i: usize = 0;
    while i < columns.len()
        invariant
            i <= columns@.len(),
            cs == columns.deep_view(),
            names.deep_view() == cs.take(i as int).map_values(|h: Seq<char>| quoted(h)),
        decreases columns@.len() - i,
    {
        let q = quote(&columns[i]);
        let ghost b = names.deep_view();
        names.push(q);
        assert(cs[i as int] == columns@[i as int]@);
        assert(names.deep_view() =~= b.push(q@));
        assert(cs.take(i + 1).map_values(|h: Seq<char>| quoted(h)) =~= cs.take(i as int).map_values(
            |h: Seq<char>| quoted(h),
        ).push(quoted(cs[i as int])));
        assert(names.deep_view() =~= cs.take(i + 1).map_values(|h: Seq<char>| quoted(h)));
        i = i + 1;
    }
    assert(cs.take(columns@.len() as int) == cs);
    let mut out = SELECT_GEOM.to_string();
    if columns.len() == 0 {
        out.append("1");
        proof {
            reveal_strlit("1");
        }
        assert("1"@ == seq!['1']);
    } else {
        out.append(join_strings(&names, COMMA_SEP).as_str());
    }
    out.append(FROM_POINTS);
    out
}

/// The attribute columns among the columns of the `points` table: all but `fid`
/// and `geom`, in order.
pub open spec fn attribute_columns_spec(names: Seq<Seq<char>>) -> Seq<Seq<char>>
    decreases names.len(),
{
    if names.len() == 0 {
        seq![]
    } else {
        let sub = attribute_columns_spec(names.drop_last());
        let n = names.last();
        if n != seq!['f', 'i', 'd'] && n != seq!['g', 'e', 'o', 'm'] {
            sub.push(n)
        } else {
            sub
        }
    }
}

/// The attribute columns of the `points` table.
pub fn attribute_columns(names: &Vec<String>) -> (r: Vec<String>)
    ensures
        r.deep_view() == attribute_columns_spec(names.deep_view()),
{
    let fid = vec!['f', 'i', 'd'];
    let geom = vec!['g', 'e', 'o', 'm'];
    assert(fid@ == seq!['f', 'i', 'd'] && geom@ == seq!['g', 'e', 'o', 'm']);
    let ghost ns = names.deep_view();
    let mut out: Vec<String> = Vec::new();
    let mut i: usize = 0;
    while i < names.len()
        invariant
            i <= names@.len(),
            ns == names.deep_view(),
            fid@ == seq!['f', 'i', 'd'],
            geom@ == seq!['g', 'e', 'o', 'm'],
            out.deep_view() == attribute_columns_spec(ns.take(i as int)),
        decreases names@.len() - i,
    {
        let n = crate::text::chars_of(names[i].as_str());
        assert(ns[i as int] == n@);
        assert(ns.take(i + 1).drop_last() == ns.take(i as int));
        let ghost b = out.deep_view();
        if !crate::text::chars_eq(&n, &fid) && !crate::text::chars_eq(&n, &geom) {
            out.push(names[i].clone());
            assert(out.deep_view() =~= b.push(n@));
        }
        assert(out.deep_view() == attribute_columns_spec(ns.take(i + 1)));
        i = i + 1;
    }
    assert(ns.take(names@.len() as int) == ns);
    out
}

/// The GeoPackage metadata tables, with the WGS 84 reference system registered.
pub const GPKG_SCHEMA: &'static str = "
    PRAGMA journal_mode=WAL;

    CREATE TABLE gpkg_spatial_ref_sys (
        srs_name TEXT NOT NULL,
        srs_id INTEGER NOT NULL PRIMARY KEY,
        organization TEXT NOT NULL,
        organization_coordsys_id INTEGER NOT NULL,
        definition TEXT NOT NULL,
        description TEXT
    );

    INSERT INTO gpkg_spatial_ref_sys VALUES
        ('WGS 84', 4326, 'EPSG', 4326,
         'GEOGCS[\"WGS 84\",DATUM[\"WGS_1984\",SPHEROID[\"WGS 84\",6378137,298.257223563]],PRIMEM[\"Greenwich\",0],UNIT[\"degree\",0.0174532925199433]]',
         'WGS 84 geographic coordinate system');

    CREATE TABLE gpkg_contents (
        table_name TEXT NOT NULL PRIMARY KEY,
        data_type TEXT NOT NULL,
        identifier TEXT,
        description TEXT DEFAULT '',
        last_change DATETIME NOT NULL DEFAULT (strftime('%Y-%m-%dT%H:%M:%fZ','now')),
        min_x DOUBLE,
        min_y DOUBLE,
        max_x DOUBLE,
        max_y DOUBLE,
        srs_id INTEGER REFERENCES gpkg_spatial_ref_sys(srs_id)
    );

    CREATE TABLE gpkg_geometry_columns (
        table_name TEXT NOT NULL,
        column_name TEXT NOT NULL,
        geometry_type_name TEXT NOT NULL,
        srs_id INTEGER NOT NULL,
        z TINYINT NOT NULL,
        m TINYINT NOT NULL,
        CONSTRAINT pk_gc PRIMARY KEY (table_name, column_name)
    );
";

/// Registers the `points` table as features in WGS 84.
pub const REGISTER_CONTENTS: &'static str = "INSERT INTO gpkg_contents (table_name, data_type, identifier, srs_id) VALUES ('points', 'features', 'points', 4326)";

/// Registers the `geom` column of `points` as point geometry in WGS 84.
pub const REGISTER_GEOMETRY: &'static str = "INSERT INTO gpkg_geometry_columns (table_name, column_name, geometry_type_name, srs_id, z, m) VALUES ('points', 'geom', 'POINT', 4326, 0, 0)";

/// Lists the columns of the `points` table.
pub const POINTS_TABLE_INFO: &'static str = "PRAGMA table_info(points)";

} // verus!
