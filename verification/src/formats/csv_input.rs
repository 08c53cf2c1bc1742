//! CSV input: records as `(header, value)` pairs, without a coordinate.
use vstd::prelude::*;
use crate::formats::{clone_strings, record_views, InputRecord, RecordQueue};

verus! {

/// The record of a CSV row: each header paired with the value in its place, as
/// far as both go.
pub open spec fn csv_record(headers: Seq<Seq<char>>, values: Seq<Seq<char>>) -> (
    Seq<(Seq<char>, Seq<char>)>,
    Option<Seq<char>>,
    Option<Seq<char>>,
) {
    let n = if headers.len() <= values.len() {
        headers.len()
    } else {
        values.len()
    };
    (Seq::new(n, |i: int| (headers[i], values[i])), None, None)
}

/// Why CSV bytes could not be read.
#[derive(Debug, Clone, Copy, PartialEq, Eq, Structural)]
pub enum CsvError {
    /// The bytes are not CSV the reader accepts (for instance, not UTF-8, or
    /// records of unequal length).
    Parse,
}

/// The header record and the further records of CSV bytes, each field as text,
/// as the `csv` crate reads them with default options (or the error it reports).
pub uninterp spec fn csv_table(data: Seq<u8>) -> Result<
    (Seq<Seq<char>>, Seq<Seq<Seq<char>>>),
    CsvError,
>;

/// `csv::Reader` with default options over `data`: the header record, then every
/// further record, each field as a string, or the first error the reader reports.
/// The result depends on the bytes alone.
#[verifier::external_body]
fn read_csv_table(data: &[u8]) -> (r: Result<(Vec<String>, Vec<Vec<String>>), CsvError>)
    ensures
        match r {
            Ok(t) => csv_table(data@) == Ok::<(Seq<Seq<char>>, Seq<Seq<Seq<char>>>), CsvError>(
                (t.0.deep_view(), t.1.deep_view()),
            ),
            Err(e) => csv_table(data@) == Err::<(Seq<Seq<char>>, Seq<Seq<Seq<char>>>), CsvError>(e),
        },
{
    let mut reader = csv::Reader::from_reader(data);
    let header = reader.headers().map_err(|_| CsvError::Parse)?;
    let headers: Vec<String> = header.iter().map(|h| h.to_string()).collect();
    let rows: Result<Vec<Vec<String>>, csv::Error> = reader
        .records()
        .map(|r| r.map(|rec| rec.iter().map(|f| f.to_string()).collect()))
        .collect();
    Ok((headers, rows.map_err(|_| CsvError::Parse)?))
}

/// Reads the rows of a CSV table.
pub struct CsvInput {
    headers: Vec<String>,
    records: RecordQueue,
}

impl CsvInput {
    pub closed spec fn header_names(&self) -> Seq<Seq<char>> {
        self.headers.deep_view()
    }

    /// The records not read yet.
    pub closed spec fn remaining(&self) -> Seq<
        (Seq<(Seq<char>, Seq<char>)>, Option<Seq<char>>, Option<Seq<char>>),
    > {
        self.records.remaining()
    }

    /// A reader over a table with `headers` and the rows `rows`.
    pub fn new(headers: Vec<String>, rows: Vec<Vec<String>>) -> (r: Self)
        ensures
            r.header_names() == headers.deep_view(),
            r.remaining() == Seq::new(
                rows@.len(),
                |i: int| csv_record(headers.deep_view(), rows@[i].deep_view()),
            ),
    {
        let ghost hs = headers.deep_view();
        let mut records: Vec<InputRecord> = Vec::new();
        let mut i: usize = 0;
        while i < rows.len()
            invariant
                i <= rows@.len(),
                hs == headers.deep_view(),
                record_views(records@) == Seq::new(
                    i as nat,
                    |k: int| csv_record(hs, rows@[k].deep_view()),
                ),
            decreases rows@.len() - i,
        {
            let row = &rows[i];
            let mut fields: Vec<(String, String)> = Vec::new();
            let mut j: usize = 0;
            let ghost want = csv_record(hs, row.deep_view()).0;
            while j < headers.len() && j < row.len()
                invariant
                    j <= headers@.len(),
                    j <= row@.len(),
                    hs == headers.deep_view(),
                    want == csv_record(hs, row.deep_view()).0,
                    fields.deep_view() == want.take(j as int),
                decreases headers@.len() - j,
            {
                let ghost b = fields.deep_view();
                let h = headers[j].clone();
                let v = row[j].clone();
                assert((h@, v@) == want[j as int]);
                fields.push((h, v));
                assert(fields.deep_view() =~= b.push((h@, v@)));
                assert(fields.deep_view() =~= want.take(j + 1));
                j = j + 1;
            }
            assert(want.take(j as int) == want);
            let ghost rb = record_views(records@);
            records.push(InputRecord { fields, latitude: None, longitude: None });
            assert(record_views(records@) =~= rb.push(csv_record(hs, rows@[i as int].deep_view())));
            i = i + 1;
        }
        let q = RecordQueue::new(records);
        CsvInput { headers, records: q }
    }

    /// A reader over CSV bytes: their header record and their records.
    pub fn from_csv_bytes(data: &[u8]) -> (r: Result<Self, CsvError>)
        ensures
            match csv_table(data@) {
                Ok(t) => r matches Ok(c) && c.header_names() == t.0 && c.remaining() == Seq::new(
                    t.1.len(),
                    |i: int| csv_record(t.0, t.1[i]),
                ),
                Err(e) => r matches Err(e2) && e2 == e,
            },
    {
        match read_csv_table(data) {
            Ok((headers, rows)) => Ok(CsvInput::new(headers, rows)),
            Err(e) => Err(e),
        }
    }

    /// The columns of the records.
    pub fn headers(&self) -> (r: Vec<String>)
        ensures
            r.deep_view() == self.header_names(),
    {
        clone_strings(&self.headers)
    }

    /// The next record, if any.
    pub fn next_record(&mut self) -> (r: Option<InputRecord>)
        ensures
            final(self).header_names() == old(self).header_names(),
            match r {
                Some(x) => old(self).remaining().len() > 0 && x@ == old(self).remaining()[0]
                    && final(self).remaining() == old(self).remaining().drop_first(),
                None => old(self).remaining().len() == 0 && final(self).remaining() == old(
                    self,
                ).remaining(),
            },
    {
        self.records.next()
    }
}

} // verus!
