//! CSV output: the input columns followed by `Latitude` and `Longitude`.
use vstd::prelude::*;
use crate::formats::{clone_strings, ConvertedRow};

verus! {

pub open spec fn latitude_header() -> Seq<char> {
    seq!['L', 'a', 't', 'i', 't', 'u', 'd', 'e']
}

pub open spec fn longitude_header() -> Seq<char> {
    seq!['L', 'o', 'n', 'g', 'i', 't', 'u', 'd', 'e']
}

/// `o`'s text, or empty.
pub open spec fn text_or_empty(o: Option<Seq<char>>) -> Seq<char> {
    match o {
        Some(t) => t,
        None => seq![],
    }
}

/// Builds the CSV records of a run; a CSV writer writes them.
pub struct CsvOutput {}

impl CsvOutput {
    pub fn new() -> Self {
        CsvOutput {  }
    }

    /// The header record: `headers`, then `Latitude` and `Longitude`.
    pub fn write_header(&mut self, headers: &Vec<String>) -> (r: Vec<String>)
        ensures
            r.deep_view() == headers.deep_view().push(latitude_header()).push(longitude_header()),
    {
        proof {
            reveal_strlit("Latitude");
            reveal_strlit("Longitude");
        }
        assert("Latitude"@ == latitude_header() && "Longitude"@ == longitude_header());
        let mut r = clone_strings(headers);
        let ghost b = r.deep_view();
        r.push("Latitude".to_string());
        r.push("Longitude".to_string());
        assert(r.deep_view() =~= b.push(latitude_header()).push(longitude_header()));
        r
    }

    /// The record of `row`: its fields, then its latitude and longitude (empty where absent).
    pub fn write_row(&mut self, row: &ConvertedRow) -> (r: Vec<String>)
        ensures
            r.deep_view() == row.fields.deep_view().push(text_or_empty(row.latitude.deep_view())).push(
                text_or_empty(row.longitude.deep_view()),
            ),
    {
        let mut r = clone_strings(&row.fields);
        let ghost b = r.deep_view();
        let lat = match &row.latitude {
            Some(l) => l.clone(),
            None => String::new(),
        };
        let lon = match &row.longitude {
            Some(l) => l.clone(),
            None => String::new(),
        };
        r.push(lat);
        r.push(lon);
        assert(r.deep_view() =~= b.push(text_or_empty(row.latitude.deep_view())).push(
            text_or_empty(row.longitude.deep_view()),
        ));
        r
    }
}

} // verus!
