//! The containers that documents come in: ZIP archives (DOCX, PPTX) read
//! with `zip`, and PDF documents read with `lopdf`. Each reader keeps the
//! bytes it was opened over, and what it reads is named as a function of
//! those bytes.

use vstd::prelude::*;

verus! {

#[verifier::external_type_specification]
#[verifier::external_body]
#[verifier::reject_recursive_types(T)]
pub struct ExCursor<T>(std::io::Cursor<T>);

#[verifier::external_type_specification]
#[verifier::external_body]
#[verifier::reject_recursive_types(R)]
pub struct ExZipArchive<R>(zip::ZipArchive<R>);

#[verifier::external_type_specification]
#[verifier::external_body]
pub struct ExPdfDocument(lopdf::Document);

/// Whether `zip::ZipArchive::new` accepts `bytes` as an archive.
pub uninterp spec fn zip_opens(bytes: Seq<u8>) -> bool;

/// The number of entries of the archive `bytes` (`ZipArchive::len`).
pub uninterp spec fn zip_entry_count(bytes: Seq<u8>) -> nat;

/// The name of entry `i` of the archive `bytes` (`by_index` and
/// `ZipFile::name`), when both succeed.
pub uninterp spec fn zip_entry_name(bytes: Seq<u8>, i: nat) -> Option<Seq<char>>;

/// The content of entry `i` of the archive `bytes` (`by_index` and
/// `read_to_end`), when both succeed.
pub uninterp spec fn zip_entry_bytes(bytes: Seq<u8>, i: nat) -> Option<Seq<u8>>;

/// The content of the entry named `name` in the archive `bytes` (`by_name`
/// and `read_to_end`), when both succeed.
pub uninterp spec fn zip_named_bytes(bytes: Seq<u8>, name: Seq<char>) -> Option<Seq<u8>>;

/// A ZIP archive opened over some bytes.
pub struct ZipReader<'a> {
    archive: zip::ZipArchive<std::io::Cursor<&'a [u8]>>,
    bytes: Ghost<Seq<u8>>,
}

impl<'a> View for ZipReader<'a> {
    /// The bytes of the archive.
    type V = Seq<u8>;

    closed spec fn view(&self) -> Seq<u8> {
        self.bytes@
    }
}

/// `zip::ZipArchive::new` over `bytes`: the archive, when the bytes hold
/// one (see [`zip_opens`]).
#[verifier::external_body]
fn zip_archive<'a>(bytes: &'a [u8]) -> (r: Option<zip::ZipArchive<std::io::Cursor<&'a [u8]>>>)
    ensures
        r is Some == zip_opens(bytes@),
{
    match zip::ZipArchive::new(std::io::Cursor::new(bytes)) {
        Ok(a) => Some(a),
        Err(_) => None,
    }
}

/// `ZipArchive::len` (see [`zip_entry_count`]).
#[verifier::external_body]
fn zip_len(z: &ZipReader) -> (n: usize)
    ensures
        n == zip_entry_count(z@),
{
    z.archive.len()
}

/// `ZipArchive::by_index` and `ZipFile::name` (see [`zip_entry_name`]).
#[verifier::external_body]
fn zip_name_at(z: &mut ZipReader, i: usize) -> (r: Option<String>)
    ensures
        final(z)@ == old(z)@,
        match r {
            Some(n) => zip_entry_name(old(z)@, i as nat) == Some(n@),
            None => zip_entry_name(old(z)@, i as nat) is None,
        },
{
    match z.archive.by_index(i) {
        Ok(entry) => match entry.name() {
            Ok(n) => Some(n.into_owned()),
            Err(_) => None,
        },
        Err(_) => None,
    }
}

/// `ZipArchive::by_index` and `read_to_end` (see [`zip_entry_bytes`]).
#[verifier::external_body]
fn zip_bytes_at(z: &mut ZipReader, i: usize) -> (r: Option<Vec<u8>>)
    ensures
        final(z)@ == old(z)@,
        match r {
            Some(b) => zip_entry_bytes(old(z)@, i as nat) == Some(b@),
            None => zip_entry_bytes(old(z)@, i as nat) is None,
        },
{
    match z.archive.by_index(i) {
        Ok(mut entry) => {
            let mut buf: Vec<u8> = Vec::new();
            match std::io::Read::read_to_end(&mut entry, &mut buf) {
                Ok(_) => Some(buf),
                Err(_) => None,
            }
        },
        Err(_) => None,
    }
}

/// `ZipArchive::by_name` and `read_to_end` (see [`zip_named_bytes`]).
#[verifier::external_body]
fn zip_bytes_named(z: &mut ZipReader, name: &str) -> (r: Option<Vec<u8>>)
    ensures
        final(z)@ == old(z)@,
        match r {
            Some(b) => zip_named_bytes(old(z)@, name@) == Some(b@),
            None => zip_named_bytes(old(z)@, name@) is None,
        },
{
    match z.archive.by_name(name) {
        Ok(mut entry) => {
            let mut buf: Vec<u8> = Vec::new();
            match std::io::Read::read_to_end(&mut entry, &mut buf) {
                Ok(_) => Some(buf),
                Err(_) => None,
            }
        },
        Err(_) => None,
    }
}

impl<'a> ZipReader<'a> {
    /// The archive held in `bytes`, if they hold one.
    pub fn open(bytes: &'a [u8]) -> (r: Option<ZipReader<'a>>)
        ensures
            r is Some == zip_opens(bytes@),
            r matches Some(z) ==> z@ == bytes@,
    {
        match zip_archive(bytes) {
            Some(a) => Some(ZipReader { archive: a, bytes: Ghost(bytes@) }),
            None => None,
        }
    }

    /// The number of entries.
    pub fn len(&self) -> (n: usize)
        ensures
            n == zip_entry_count(self@),
    {
        zip_len(self)
    }

    /// The name of entry `i`, if it can be read.
    pub fn name_at(&mut self, i: usize) -> (r: Option<String>)
        ensures
            final(self)@ == old(self)@,
            match r {
                Some(n) => zip_entry_name(old(self)@, i as nat) == Some(n@),
                None => zip_entry_name(old(self)@, i as nat) is None,
            },
    {
        zip_name_at(self, i)
    }

    /// The content of entry `i`, if it can be read.
    pub fn bytes_at(&mut self, i: usize) -> (r: Option<Vec<u8>>)
        ensures
            final(self)@ == old(self)@,
            match r {
                Some(b) => zip_entry_bytes(old(self)@, i as nat) == Some(b@),
                None => zip_entry_bytes(old(self)@, i as nat) is None,
            },
    {
        zip_bytes_at(self, i)
    }

    /// The content of the entry named `name`, if there is one and it can be
    /// read.
    pub fn bytes_named(&mut self, name: &str) -> (r: Option<Vec<u8>>)
        ensures
            final(self)@ == old(self)@,
            match r {
                Some(b) => zip_named_bytes(old(self)@, name@) == Some(b@),
                None => zip_named_bytes(old(self)@, name@) is None,
            },
    {
        zip_bytes_named(self, name)
    }
}

/// Whether `lopdf::Document::load_mem` accepts `bytes` as a PDF.
pub uninterp spec fn pdf_loads(bytes: Seq<u8>) -> bool;

/// The pages of the PDF `bytes` in page order, by object id
/// (`Document::get_pages`, its values in page-number order).
pub uninterp spec fn pdf_page_ids(bytes: Seq<u8>) -> Seq<(u32, u16)>;

/// The content of page `id` of the PDF `bytes`: its content streams
/// decoded and joined (`Document::get_page_content`).
pub uninterp spec fn pdf_page_content(bytes: Seq<u8>, id: (u32, u16)) -> Seq<u8>;

/// A PDF document loaded from some bytes.
pub struct PdfReader {
    doc: lopdf::Document,
    bytes: Ghost<Seq<u8>>,
}

impl View for PdfReader {
    /// The bytes of the document.
    type V = Seq<u8>;

    closed spec fn view(&self) -> Seq<u8> {
        self.bytes@
    }
}

/// `lopdf::Document::load_mem`: the document, when `bytes` hold one (see
/// [`pdf_loads`]).
#[verifier::external_body]
fn pdf_document(bytes: &[u8]) -> (r: Option<lopdf::Document>)
    ensures
        r is Some == pdf_loads(bytes@),
{
    match lopdf::Document::load_mem(bytes) {
        Ok(d) => Some(d),
        Err(_) => None,
    }
}

/// `Document::get_pages`, the page object ids in page order (see
/// [`pdf_page_ids`]).
#[verifier::external_body]
fn pdf_pages_in(d: &PdfReader) -> (r: Vec<(u32, u16)>)
    ensures
        r@ == pdf_page_ids(d@),
{
    d.doc.get_pages().into_values().collect()
}

/// `Document::get_page_content` (see [`pdf_page_content`]).
#[verifier::external_body]
fn pdf_content_of(d: &PdfReader, id: (u32, u16)) -> (r: Vec<u8>)
    ensures
        r@ == pdf_page_content(d@, id),
{
    d.doc.get_page_content(id)
}

impl PdfReader {
    /// The document held in `bytes`, if they hold one.
    pub fn load(bytes: &[u8]) -> (r: Option<PdfReader>)
        ensures
            r is Some == pdf_loads(bytes@),
            r matches Some(d) ==> d@ == bytes@,
    {
        match pdf_document(bytes) {
            Some(d) => Some(PdfReader { doc: d, bytes: Ghost(bytes@) }),
            None => None,
        }
    }

    /// The page object ids, in page order.
    pub fn page_ids(&self) -> (r: Vec<(u32, u16)>)
        ensures
            r@ == pdf_page_ids(self@),
    {
        pdf_pages_in(self)
    }

    /// The content of page `id`.
    pub fn page_content(&self, id: (u32, u16)) -> (r: Vec<u8>)
        ensures
            r@ == pdf_page_content(self@, id),
    {
        pdf_content_of(self, id)
    }
}

} // verus!
