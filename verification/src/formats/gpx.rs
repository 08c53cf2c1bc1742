//! GPX output: one `<wpt>` waypoint per row that has a coordinate.
use vstd::prelude::*;
use crate::formats::kml::{choose_name, display_name};
use crate::formats::{join, join_strings, ConvertedRow};
use crate::text::{push_str_chars, string_of};

verus! {

pub const WPT_OPEN: &'static str = "  <wpt lat=\"";

pub const WPT_LON: &'static str = "\" lon=\"";

pub const WPT_NAME: &'static str = "\">\n    <name>";

pub const WPT_CLOSE: &'static str = "</name>\n  </wpt>";

/// The waypoint text for coordinate `(lat, lon)` named `name`.
pub open spec fn waypoint_text(lat: Seq<char>, lon: Seq<char>, name: Seq<char>) -> Seq<char> {
    WPT_OPEN@ + lat + WPT_LON@ + lon + WPT_NAME@ + name + WPT_CLOSE@
}

pub const GPX_HEAD: &'static str = "<?xml version=\"1.0\" encoding=\"UTF-8\"?>\n<gpx version=\"1.1\" creator=\"mgrs\"\n     xmlns=\"http://www.topografix.com/GPX/1/1\">\n";

pub const GPX_TAIL: &'static str = "\n</gpx>\n";

/// A GPX document holding `waypoints`.
pub open spec fn gpx_document(waypoints: Seq<Seq<char>>) -> Seq<char> {
    GPX_HEAD@ + join(waypoints, seq!['\n']) + GPX_TAIL@
}

/// Collects waypoints, and gives the GPX document on `finish`.
pub struct GpxOutput {
    name_column: Option<String>,
    waypoints: Vec<String>,
}

impl GpxOutput {
    /// The column whose field names each waypoint.
    pub closed spec fn name_column(&self) -> Option<Seq<char>> {
        self.name_column.deep_view()
    }

    /// The waypoints so far, in order.
    pub closed spec fn waypoints(&self) -> Seq<Seq<char>> {
        self.waypoints.deep_view()
    }

    /// A writer with no waypoints yet.
    pub fn new(name_column: Option<String>) -> (r: Self)
        ensures
            r.name_column() == name_column.deep_view(),
            r.waypoints() == Seq::<Seq<char>>::empty(),
    {
        let r = GpxOutput { name_column, waypoints: Vec::new() };
        assert(r.waypoints() == Seq::<Seq<char>>::empty());
        r
    }

    /// GPX has no header row.
    pub fn write_header(&mut self, headers: &Vec<String>)
        ensures
            final(self).name_column() == old(self).name_column(),
            final(self).waypoints() == old(self).waypoints(),
    {
    }

    /// Adds the waypoint of `row` when it has both coordinates; otherwise nothing.
    pub fn write_row(&mut self, row: &ConvertedRow)
        ensures
            final(self).name_column() == old(self).name_column(),
            final(self).waypoints() == (match (row.latitude, row.longitude) {
                (Some(lat), Some(lon)) => old(self).waypoints().push(
                    waypoint_text(
                        lat@,
                        lon@,
                        display_name(
                            old(self).name_column(),
                            row.headers.deep_view(),
                            row.fields.deep_view(),
                        ),
                    ),
                ),
                _ => old(self).waypoints(),
            }),
    {
        match (&row.latitude, &row.longitude) {
            (Some(lat), Some(lon)) => {
                let name = choose_name(&self.name_column, row);
                let mut out: Vec<char> = Vec::new();
                push_str_chars(&mut out, WPT_OPEN);
                push_str_chars(&mut out, lat.as_str());
                push_str_chars(&mut out, WPT_LON);
                push_str_chars(&mut out, lon.as_str());
                push_str_chars(&mut out, WPT_NAME);
                push_str_chars(&mut out, name.as_str());
                push_str_chars(&mut out, WPT_CLOSE);
                let w = string_of(&out);
                self.waypoints.push(w);
                assert(self.waypoints.deep_view() == old(self).waypoints.deep_view().push(w@));
            },
            _ => {},
        }
    }

    /// The GPX document with all waypoints written so far.
    pub fn finish(&self) -> (r: String)
        ensures
            r@ == gpx_document(self.waypoints()),
    {
        let mut out = GPX_HEAD.to_string();
        let body = join_strings(&self.waypoints, "\n");
        out.append(body.as_str());
        out.append(GPX_TAIL);
        proof {
            reveal_strlit("\n");
        }
        assert("\n"@ == seq!['\n']);
        out
    }
}

} // verus!
