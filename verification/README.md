# mgrs

Bidirectional MGRS / latitude-longitude conversion across ten geospatial
formats (CSV, GeoJSON, KML, KMZ, GPX, WKT, TopoJSON, Shapefile, GeoPackage,
FlatGeobuf).

## Layout

- `src/` is the verified library (Verus). It holds the text formats the
  project reads and writes itself (KML, GPX, WKT, the KMZ framing), the record
  model shared by all readers and writers, MGRS column and format detection,
  the order in which a run processes its records, the GeoPackage point encoding and SQL, and the per-record decisions of a run.
  Coordinates travel through the library as the decimal text of the number.
  Laws proved there include: written KML, GPX and WKT documents read back as
  the placemarks, waypoints and points that were written; XML escaping is
  undone by reading; a GeoPackage point blob decodes to the point encoded;
  format names and file extensions ignore the case of ASCII letters; a run
  that detects its MGRS column processes the same records, in the same order,
  with the same column, as a run given that column; a row converts exactly
  when its trimmed MGRS field looks like MGRS and its conversion succeeds; the
  KMZ archive is the zipped document the KML writer gives for the same calls.
- `app/` is the command-line program: argument parsing, files, the coordinate
  conversion itself (floating point, through `geoconvert`), parsing JSON into
  the library's `JsonValue`, CSV, FlatGeobuf, Shapefile and SQLite I/O, and
  the exit status the library decides.
- `tests/` exercises the library.
