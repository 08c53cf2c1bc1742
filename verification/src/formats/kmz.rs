//! KMZ: a KML document as `doc.kml` inside a ZIP archive.
use vstd::prelude::*;
use vstd::utf8::encode_utf8;
use crate::formats::kml::{kml_document, placemarks_after_row, KmlOutput};
use crate::formats::kml_input::{kml_headers, kml_records, placemarks_from, KmlInput};
use crate::formats::{ConvertedRow, InputRecord};

verus! {

/// Why a KMZ archive could not be written or read.
#[derive(Debug, Clone, Copy, PartialEq, Eq, Structural)]
pub enum KmzError {
    /// The archive could not be written.
    Write,
    /// The bytes are not a ZIP archive.
    Archive,
    /// The archive holds no such file.
    MissingEntry,
    /// The file could not be read as text.
    Read,
}

/// The bytes of a ZIP archive holding one file `name` with `contents`, as the
/// `zip` crate writes it with default options (or the error it reports).
pub uninterp spec fn zip_single_file(name: Seq<char>, contents: Seq<u8>) -> Result<
    Seq<u8>,
    KmzError,
>;

/// The text of the file `name` in the ZIP archive `archive`, as the `zip` crate
/// reads it (or the error it reports).
pub uninterp spec fn zip_entry_text(archive: Seq<u8>, name: Seq<char>) -> Result<
    Seq<char>,
    KmzError,
>;

/// `zip::ZipWriter` over an in-memory buffer: starts the file `name` with default
/// options, writes `contents`, finishes the archive and gives its bytes. The
/// result depends on `name` and `contents` alone (no timestamp is taken from the
/// clock: the crate is built without its `time` feature).
#[verifier::external_body]
fn write_zip_single_file(name: &str, contents: &[u8]) -> (r: Result<Vec<u8>, KmzError>)
    ensures
        match r {
            Ok(bytes) => zip_single_file(name@, contents@) == Ok::<Seq<u8>, KmzError>(bytes@),
            Err(e) => zip_single_file(name@, contents@) == Err::<Seq<u8>, KmzError>(e),
        },
{
    let mut buf = std::io::Cursor::new(Vec::new());
    let mut zip = zip::ZipWriter::new(&mut buf);
    zip.start_file(name, zip::write::SimpleFileOptions::default()).map_err(|_| KmzError::Write)?;
    std::io::Write::write_all(&mut zip, contents).map_err(|_| KmzError::Write)?;
    zip.finish().map_err(|_| KmzError::Write)?;
    Ok(buf.into_inner())
}

/// `zip::ZipArchive` over `archive`: opens it, finds the file `name` and reads it
/// to a string. The result depends on the bytes and the name alone; an archive
/// that `write_zip_single_file` made for `name` and the UTF-8 bytes of a text
/// gives that text back.
#[verifier::external_body]
fn read_zip_entry_text(archive: &[u8], name: &str) -> (r: Result<String, KmzError>)
    ensures
        match r {
            Ok(s) => zip_entry_text(archive@, name@) == Ok::<Seq<char>, KmzError>(s@) && forall|
                t: Seq<char>,
            | #[trigger] zip_single_file(name@, encode_utf8(t)) == Ok::<Seq<u8>, KmzError>(archive@) ==> s@
                == t,
            Err(e) => zip_entry_text(archive@, name@) == Err::<Seq<char>, KmzError>(e) && forall|
                t: Seq<char>,
            | #[trigger] zip_single_file(name@, encode_utf8(t)) != Ok::<Seq<u8>, KmzError>(archive@),
        },
{
    let mut zip = zip::ZipArchive::new(std::io::Cursor::new(archive)).map_err(|_| KmzError::Archive)?;
    let mut entry = zip.by_name(name).map_err(|_| KmzError::MissingEntry)?;
    let mut text = String::new();
    std::io::Read::read_to_string(&mut entry, &mut text).map_err(|_| KmzError::Read)?;
    Ok(text)
}

pub const DOC_KML: &'static str = "doc.kml";

/// Collects placemarks like `KmlOutput`, and gives the KMZ archive on `finish`.
pub struct KmzOutput {
    kml_writer: KmlOutput,
}

impl KmzOutput {
    pub closed spec fn name_column(&self) -> Option<Seq<char>> {
        self.kml_writer.name_column()
    }

    /// The placemarks so far.
    pub closed spec fn placemarks(&self) -> Seq<Seq<char>> {
        self.kml_writer.placemarks()
    }

    pub fn new(name_column: Option<String>) -> (r: Self)
        ensures
            r.name_column() == name_column.deep_view(),
            r.placemarks() == Seq::<Seq<char>>::empty(),
    {
        KmzOutput { kml_writer: KmlOutput::new(name_column) }
    }

    pub fn write_header(&mut self, headers: &Vec<String>)
        ensures
            final(self).name_column() == old(self).name_column(),
            final(self).placemarks() == old(self).placemarks(),
    {
        self.kml_writer.write_header(headers)
    }

    /// As `KmlOutput::write_row`.
    pub fn write_row(&mut self, row: &ConvertedRow)
        ensures
            final(self).name_column() == old(self).name_column(),
            final(self).placemarks() == placemarks_after_row(
                old(self).name_column(),
                old(self).placemarks(),
                *row,
            ),
    {
        self.kml_writer.write_row(row)
    }

    /// The archive that `finish` gives (or its error): the KML document of the
    /// placemarks as `doc.kml`, in UTF-8.
    pub open spec fn archive(&self) -> Result<Seq<u8>, KmzError> {
        zip_single_file(DOC_KML@, encode_utf8(kml_document(self.placemarks())))
    }

    /// The archive holding the KML document as `doc.kml` in UTF-8.
    pub fn finish(&self) -> (r: Result<Vec<u8>, KmzError>)
        ensures
            match r {
                Ok(bytes) => self.archive() == Ok::<Seq<u8>, KmzError>(bytes@),
                Err(e) => self.archive() == Err::<Seq<u8>, KmzError>(e),
            },
    {
        let doc = self.kml_writer.finish();
        write_zip_single_file(DOC_KML, doc.as_str().as_bytes())
    }
}

/// KMZ output is zipped KML output. A KMZ writer and a KML writer made for the
/// same name column and given the same calls hold the same placemarks (their
/// `new`, `write_header` and `write_row` change them alike); the KMZ writer's
/// archive is then that of the one file `doc.kml` holding, in UTF-8, exactly the
/// document the KML writer finishes with.
pub proof fn lemma_kmz_is_zipped_kml(k: KmzOutput, m: KmlOutput)
    requires
        k.placemarks() == m.placemarks(),
    ensures
        k.archive() == zip_single_file(DOC_KML@, encode_utf8(m.document())),
{
}

/// Reads the placemarks of the `doc.kml` of a KMZ archive.
pub struct KmzInput {
    inner: KmlInput,
}

impl KmzInput {
    pub closed spec fn header_names(&self) -> Seq<Seq<char>> {
        self.inner.header_names()
    }

    pub closed spec fn remaining(&self) -> Seq<
        (Seq<(Seq<char>, Seq<char>)>, Option<Seq<char>>, Option<Seq<char>>),
    > {
        self.inner.remaining()
    }

    /// A reader over the `doc.kml` of the archive `data`.
    pub fn new(data: &[u8]) -> (r: Result<Self, KmzError>)
        ensures
            match zip_entry_text(data@, DOC_KML@) {
                Ok(t) => r matches Ok(k) && k.header_names() == kml_headers(placemarks_from(t, 0))
                    && k.remaining() == kml_records(t),
                Err(e) => r matches Err(e2) && e2 == e,
            },
            (forall|t: Seq<char>|
                #[trigger] zip_single_file(DOC_KML@, encode_utf8(t)) == Ok::<Seq<u8>, KmzError>(
                    data@,
                ) ==> (r matches Ok(k) && k.header_names() == kml_headers(placemarks_from(t, 0))
                    && k.remaining() == kml_records(t))),
    {
        match read_zip_entry_text(data, DOC_KML) {
            Ok(text) => Ok(KmzInput { inner: KmlInput::from_kml_string(text.as_str()) }),
            Err(e) => Err(e),
        }
    }

    pub fn headers(&self) -> (r: Vec<String>)
        ensures
            r.deep_view() == self.header_names(),
    {
        self.inner.headers()
    }

    pub fn next_record(&mut self) -> (r: Option<InputRecord>)
        ensures
            final(self).header_names() == old(self).header_names(),
            match r {
                Some(x) => old(self).remaining().len() > 0 && x@ == old(self).remaining()[0]
                    && final(self).remaining() == old(self).remaining().drop_first(),
                None => old(self).remaining().len() == 0 && final(self).remaining() == old(
                    self,
                ).remaining(),
            },
    {
        self.inner.next_record()
    }
}

} // verus!
