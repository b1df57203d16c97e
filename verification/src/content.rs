//! Content metadata: what a photo's EXIF, an audio file's tags, a
//! document's properties or a video's container header say. The outside
//! parsers read the bytes; everything they hand back is trimmed, combined
//! and dated here. A field the file does not carry is `None`, never
//! guessed.
use vstd::prelude::*;
use vstd::multiset::Multiset;
use crate::metadata::{
    camera_spec,
    combine_make_model,
    opt_string_view,
    parse_exif_datetime,
    parse_pdf_date,
    parse_w3cdtf_date,
    pdf_date_spec,
    ymd_spec,
    DocumentMetadata,
    PhotoMetadata,
};
use crate::metadata::{AudioMetadata, VideoMetadata};
use crate::config::DateMetadata;
use crate::text::{concat, concat3, dec, dec_signed_padded, fmt_i64, fmt_u64, lower_seq, str_eq, str_trim, to_lower, trim_seq};
use lofty::file::TaggedFileExt;
use lofty::tag::ItemKey::{AlbumArtist, AlbumTitle, Genre, TrackArtist, TrackTitle};
use lofty::tag::Accessor;

verus! {

// ------------------------------------------------------------------ text

/// What `String::from_utf8_lossy` decodes `b` to.
pub uninterp spec fn utf8_lossy(b: Seq<u8>) -> Seq<char>;

/// `String::from_utf8_lossy`: `b` decoded as UTF-8, each invalid sequence
/// replaced by U+FFFD. The contract names the result only.
#[verifier::external_body]
fn decode_utf8_lossy(b: &[u8]) -> (r: String)
    ensures
        r@ == utf8_lossy(b@),
{
    String::from_utf8_lossy(b).into_owned()
}

/// A raw field value as text: decoded, trimmed, and `None` when that
/// leaves nothing.
pub open spec fn field_text(b: Option<Seq<u8>>) -> Option<Seq<char>> {
    match b {
        None => None,
        Some(x) => {
            let t = trim_seq(utf8_lossy(x));
            if t.len() == 0 {
                None
            } else {
                Some(t)
            }
        },
    }
}

fn text_of_field(b: &Option<Vec<u8>>) -> (r: Option<String>)
    ensures
        opt_string_view(r) == field_text(
            match b {
                Some(x) => Some(x@),
                None => None,
            },
        ),
{
    match b {
        None => None,
        Some(x) => {
            let s = decode_utf8_lossy(x.as_slice());
            let t = str_trim(s.as_str());
            if t.unicode_len() == 0 {
                None
            } else {
                Some(t)
            }
        },
    }
}

pub open spec fn bytes_view(b: Option<Vec<u8>>) -> Option<Seq<u8>> {
    match b {
        Some(x) => Some(x@),
        None => None,
    }
}

// ----------------------------------------------------------------- photos

/// Why no EXIF could be read: the container holds none, or another error
/// (its message).
#[derive(Debug)]
pub enum ExifReadError {
    NotFound,
    Other(String),
}

/// The first ASCII value of the primary image's `Make`, `Model` and
/// `DateTimeOriginal` fields, as raw bytes.
#[derive(Debug)]
pub struct ExifFields {
    pub make: Option<Vec<u8>>,
    pub model: Option<Vec<u8>>,
    pub taken: Option<Vec<u8>>,
}

/// What reading an EXIF block gives, by plain values: the three fields,
/// or `Err(None)` for no EXIF data and `Err(Some(message))` otherwise.
pub type ExifView = Result<(Option<Seq<u8>>, Option<Seq<u8>>, Option<Seq<u8>>), Option<Seq<char>>>;

pub open spec fn exif_view(r: Result<ExifFields, ExifReadError>) -> ExifView {
    match r {
        Ok(f) => Ok((bytes_view(f.make), bytes_view(f.model), bytes_view(f.taken))),
        Err(ExifReadError::NotFound) => Err(None),
        Err(ExifReadError::Other(m)) => Err(Some(m@)),
    }
}

/// What kamadak-exif reads from the image file `bytes` (see
/// `read_exif_fields`).
pub uninterp spec fn exif_fields(bytes: Seq<u8>) -> ExifView;

/// `exif::Reader::read_from_container` on the file's bytes, then
/// `Exif::get_field` for `Make`, `Model` and `DateTimeOriginal` in the
/// primary image, keeping the first string of an ASCII value. The
/// container (JPEG, TIFF, HEIF, PNG, WebP) is detected from the bytes.
/// The contract names the result only: it is a function of the bytes.
/// Returning on every input rests on kamadak-exif reporting malformed
/// input as an error; that it never panics is not stated.
#[verifier::external_body]
fn read_exif_fields(bytes: &[u8]) -> (r: Result<ExifFields, ExifReadError>)
    ensures
        exif_view(r) == exif_fields(bytes@),
{
    let exif = match exif::Reader::new().read_from_container(&mut std::io::Cursor::new(bytes)) {
        Ok(x) => x,
        Err(exif::Error::NotFound(_)) => return Err(ExifReadError::NotFound),
        Err(e) => return Err(ExifReadError::Other(format!("{e}"))),
    };
    let [make, model, taken] = [exif::Tag::Make, exif::Tag::Model, exif::Tag::DateTimeOriginal].map(
        |t| match exif.get_field(t, exif::In::PRIMARY).map(|f| &f.value) {
            Some(exif::Value::Ascii(v)) => v.first().cloned(),
            _ => None,
        },
    );
    Ok(ExifFields { make, model, taken })
}

pub open spec fn photo_view(p: PhotoMetadata) -> (Option<Seq<char>>, Option<Seq<char>>, Option<Seq<char>>, Option<Seq<char>>) {
    (opt_string_view(p.camera), opt_string_view(p.year), opt_string_view(p.month), opt_string_view(p.day))
}

/// The date fields of `DateTimeOriginal`'s text, all or none.
pub open spec fn exif_date(t: Option<Seq<char>>) -> (Option<Seq<char>>, Option<Seq<char>>, Option<Seq<char>>) {
    match t {
        Some(s) => match ymd_spec(s, ' ', ':') {
            Some((y, m, d)) => (Some(y), Some(m), Some(d)),
            None => (None, None, None),
        },
        None => (None, None, None),
    }
}

/// The photo metadata an EXIF read gives: none at all when the file has
/// no EXIF, an error for any other failure, otherwise the camera from
/// make and model and the capture date.
pub open spec fn photo_spec(f: ExifView) -> Result<
    (Option<Seq<char>>, Option<Seq<char>>, Option<Seq<char>>, Option<Seq<char>>),
    Seq<char>,
> {
    match f {
        Err(None) => Ok((None, None, None, None)),
        Err(Some(m)) => Err("cannot read photo metadata: "@ + m),
        Ok((make, model, taken)) => {
            let d = exif_date(field_text(taken));
            Ok((camera_spec(field_text(make), field_text(model)), d.0, d.1, d.2))
        },
    }
}

pub open spec fn photo_result_view(r: Result<PhotoMetadata, String>) -> Result<
    (Option<Seq<char>>, Option<Seq<char>>, Option<Seq<char>>, Option<Seq<char>>),
    Seq<char>,
> {
    match r {
        Ok(p) => Ok(photo_view(p)),
        Err(e) => Err(e@),
    }
}

/// The photo metadata that an EXIF read's result gives.
pub fn photo_metadata_from(fields: Result<ExifFields, ExifReadError>) -> (r: Result<PhotoMetadata, String>)
    ensures
        photo_result_view(r) == photo_spec(exif_view(fields)),
{
    match fields {
        Err(ExifReadError::NotFound) => Ok(PhotoMetadata { camera: None, year: None, month: None, day: None }),
        Err(ExifReadError::Other(m)) => Err(concat("cannot read photo metadata: ", m.as_str())),
        Ok(f) => {
            let make = text_of_field(&f.make);
            let model = text_of_field(&f.model);
            let camera = combine_make_model(make, model);
            let taken = text_of_field(&f.taken);
            let (year, month, day) = match taken {
                Some(s) => match parse_exif_datetime(s.as_str()) {
                    Some((y, m, d)) => (Some(y), Some(m), Some(d)),
                    None => (None, None, None),
                },
                None => (None, None, None),
            };
            Ok(PhotoMetadata { camera, year, month, day })
        },
    }
}

/// Camera (make and model combined) and capture date from a photo's
/// EXIF. A file with no EXIF at all gives every field `None`.
pub fn extract_photo_metadata(bytes: &[u8]) -> (r: Result<PhotoMetadata, String>)
    ensures
        photo_result_view(r) == photo_spec(exif_fields(bytes@)),
{
    photo_metadata_from(read_exif_fields(bytes))
}

// -------------------------------------------------------------- documents

/// A high (leading) surrogate.
pub open spec fn is_high_surrogate(u: u16) -> bool {
    0xD800 <= u <= 0xDBFF
}

/// A low (trailing) surrogate.
pub open spec fn is_low_surrogate(u: u16) -> bool {
    0xDC00 <= u <= 0xDFFF
}

/// UTF-16 decoding with replacement: a high surrogate followed by a low
/// one is one character; any other surrogate becomes U+FFFD; every other
/// unit is the character of that code point.
pub open spec fn utf16_lossy(u: Seq<u16>) -> Seq<char>
    decreases u.len(),
{
    if u.len() == 0 {
        Seq::empty()
    } else if u.len() >= 2 && is_high_surrogate(u[0]) && is_low_surrogate(u[1]) {
        let cp = 0x10000 + (u[0] - 0xD800) * 0x400 + (u[1] - 0xDC00);
        seq![(cp as u32) as char] + utf16_lossy(u.subrange(2, u.len() as int))
    } else if is_high_surrogate(u[0]) || is_low_surrogate(u[0]) {
        seq!['\u{FFFD}'] + utf16_lossy(u.drop_first())
    } else {
        seq![(u[0] as u32) as char] + utf16_lossy(u.drop_first())
    }
}

/// `String::from_utf16_lossy`: `u` decoded as UTF-16, each unpaired
/// surrogate replaced by U+FFFD (see `utf16_lossy`).
#[verifier::external_body]
fn decode_utf16_lossy(u: &[u16]) -> (r: String)
    ensures
        r@ == utf16_lossy(u@),
{
    String::from_utf16_lossy(u)
}

/// `b` read as big-endian 16-bit units (a trailing odd byte is dropped).
pub open spec fn be_units(b: Seq<u8>) -> Seq<u16> {
    Seq::new(b.len() / 2, |i: int| (b[2 * i] as int * 256 + b[2 * i + 1] as int) as u16)
}

fn be_units_of(b: &[u8], from: usize) -> (r: Vec<u16>)
    requires
        from <= b@.len(),
    ensures
        r@ == be_units(b@.subrange(from as int, b@.len() as int)),
{
    let ghost t = b@.subrange(from as int, b@.len() as int);
    let bl = b.len();
    let n = (bl - from) / 2;
    let mut out: Vec<u16> = Vec::new();
    let mut i: usize = 0;
    while i < n
        invariant
            i <= n,
            n == t.len() / 2,
            t.len() == b@.len() - from,
            bl == b@.len(),
            t == b@.subrange(from as int, b@.len() as int),
            from <= b@.len(),
            out@ == be_units(t).subrange(0, i as int),
        decreases n - i,
    {
        assert(2 * i + 2 <= t.len()) by (nonlinear_arith)
            requires
                i < n,
                n == t.len() / 2,
        ;
        let hi = b[from + 2 * i] as u16;
        let lo = b[from + 2 * i + 1] as u16;
        let u: u16 = hi * 256 + lo;
        proof {
            assert(t[2 * i as int] == b@[from + 2 * i]);
            assert(t[2 * i + 1] == b@[from + 2 * i + 1]);
            assert(be_units(t)[i as int] == u);
        }
        out.push(u);
        assert(out@ =~= be_units(t).subrange(0, i + 1));
        i += 1;
    }
    assert(be_units(t).subrange(0, n as int) =~= be_units(t));
    out
}

/// An `/Info` string as text: UTF-16BE after a `FE FF` mark, otherwise
/// the bytes decoded as UTF-8; trimmed, and `None` when empty.
pub open spec fn pdf_text(b: Option<Seq<u8>>) -> Option<Seq<char>> {
    match b {
        None => None,
        Some(x) => {
            let raw = if x.len() >= 2 && x[0] == 0xFEu8 && x[1] == 0xFFu8 {
                utf16_lossy(be_units(x.subrange(2, x.len() as int)))
            } else {
                utf8_lossy(x)
            };
            let t = trim_seq(raw);
            if t.len() == 0 {
                None
            } else {
                Some(t)
            }
        },
    }
}

fn pdf_text_of(b: &Option<Vec<u8>>) -> (r: Option<String>)
    ensures
        opt_string_view(r) == pdf_text(bytes_view(*b)),
{
    match b {
        None => None,
        Some(x) => {
            let raw = if x.len() >= 2 && x[0] == 0xFEu8 && x[1] == 0xFFu8 {
                let units = be_units_of(x.as_slice(), 2);
                decode_utf16_lossy(units.as_slice())
            } else {
                decode_utf8_lossy(x.as_slice())
            };
            let t = str_trim(raw.as_str());
            if t.unicode_len() == 0 {
                None
            } else {
                Some(t)
            }
        },
    }
}

/// The `Author`, `Title` and `CreationDate` strings of a PDF's `/Info`
/// dictionary, as raw bytes.
#[derive(Debug)]
pub struct PdfInfo {
    pub author: Option<Vec<u8>>,
    pub title: Option<Vec<u8>>,
    pub created: Option<Vec<u8>>,
}

pub type PdfInfoView = Result<Option<(Option<Seq<u8>>, Option<Seq<u8>>, Option<Seq<u8>>)>, Seq<char>>;

pub open spec fn pdf_info_view(r: Result<Option<PdfInfo>, String>) -> PdfInfoView {
    match r {
        Ok(Some(i)) => Ok(Some((bytes_view(i.author), bytes_view(i.title), bytes_view(i.created)))),
        Ok(None) => Ok(None),
        Err(e) => Err(e@),
    }
}

/// What lopdf reads of the PDF file `bytes` (see `read_pdf_info`).
pub uninterp spec fn pdf_info(bytes: Seq<u8>) -> PdfInfoView;

/// `lopdf::Document::load_mem` on the file's bytes, then the trailer's
/// `Info` reference, the object it names as a dictionary (`None` when any
/// of these is missing), and that dictionary's `Author`, `Title` and
/// `CreationDate` as strings. A load error gives its message. The
/// contract names the result only: it is a function of the bytes (the
/// crate is built without its `rayon` feature, so the objects are loaded
/// in cross-reference order on the calling thread).
/// Returning on every input rests on lopdf reporting malformed
/// input as an error; that it never panics is not stated.
#[verifier::external_body]
fn read_pdf_info(bytes: &[u8]) -> (r: Result<Option<PdfInfo>, String>)
    ensures
        pdf_info_view(r) == pdf_info(bytes@),
{
    let doc = lopdf::Document::load_mem(bytes).map_err(|e| format!("{e}"))?;
    let info = doc.trailer.get(b"Info").ok().and_then(|o| o.as_reference().ok())
        .and_then(|id| doc.get_object(id).ok()).and_then(|o| o.as_dict().ok());
    let field = |d: &lopdf::Dictionary, k: &[u8]| d.get(k).ok().and_then(|v| v.as_str().ok()).map(<[u8]>::to_vec);
    Ok(info.map(|d| PdfInfo { author: field(d, b"Author"), title: field(d, b"Title"), created: field(d, b"CreationDate") }))
}

/// Author, title and creation date of a document, by plain values.
pub type DocView = (Option<Seq<char>>, Option<Seq<char>>, Option<Seq<char>>, Option<Seq<char>>, Option<Seq<char>>);

pub open spec fn doc_view(d: DocumentMetadata) -> DocView {
    (
        opt_string_view(d.author),
        opt_string_view(d.title),
        opt_string_view(d.year),
        opt_string_view(d.month),
        opt_string_view(d.day),
    )
}

pub open spec fn doc_result_view(r: Result<DocumentMetadata, String>) -> Result<DocView, Seq<char>> {
    match r {
        Ok(d) => Ok(doc_view(d)),
        Err(e) => Err(e@),
    }
}

pub open spec fn no_document_metadata() -> DocView {
    (None, None, None, None, None)
}

/// The year, month and day of an optional date, all or none.
pub open spec fn ymd_fields(o: Option<(Seq<char>, Seq<char>, Seq<char>)>) -> (Option<Seq<char>>, Option<Seq<char>>, Option<Seq<char>>) {
    match o {
        Some((y, m, d)) => (Some(y), Some(m), Some(d)),
        None => (None, None, None),
    }
}

/// The document metadata a PDF read gives: an error when the file cannot
/// be loaded, none when it has no `/Info`, otherwise author, title and
/// the date of `CreationDate`.
pub open spec fn pdf_spec(i: PdfInfoView) -> Result<DocView, Seq<char>> {
    match i {
        Err(e) => Err("cannot read document metadata: "@ + e),
        Ok(None) => Ok(no_document_metadata()),
        Ok(Some((a, t, c))) => {
            let d = ymd_fields(
                match pdf_text(c) {
                    Some(s) => pdf_date_spec(s),
                    None => None,
                },
            );
            Ok((pdf_text(a), pdf_text(t), d.0, d.1, d.2))
        },
    }
}

fn empty_document() -> (r: DocumentMetadata)
    ensures
        doc_view(r) == no_document_metadata(),
{
    DocumentMetadata { author: None, title: None, year: None, month: None, day: None }
}

/// The document metadata that a PDF read's result gives.
pub fn pdf_metadata_from(info: Result<Option<PdfInfo>, String>) -> (r: Result<DocumentMetadata, String>)
    ensures
        doc_result_view(r) == pdf_spec(pdf_info_view(info)),
{
    match info {
        Err(e) => Err(concat("cannot read document metadata: ", e.as_str())),
        Ok(None) => Ok(empty_document()),
        Ok(Some(i)) => {
            let author = pdf_text_of(&i.author);
            let title = pdf_text_of(&i.title);
            let (year, month, day) = match pdf_text_of(&i.created) {
                Some(s) => match parse_pdf_date(s.as_str()) {
                    Some((y, m, d)) => (Some(y), Some(m), Some(d)),
                    None => (None, None, None),
                },
                None => (None, None, None),
            };
            Ok(DocumentMetadata { author, title, year, month, day })
        },
    }
}

/// Author, title and creation date from a PDF's `/Info` dictionary.
pub fn extract_pdf_metadata(bytes: &[u8]) -> (r: Result<DocumentMetadata, String>)
    ensures
        doc_result_view(r) == pdf_spec(pdf_info(bytes@)),
{
    pdf_metadata_from(read_pdf_info(bytes))
}

/// What a zip archive's entry read as text gives, by plain values.
pub open spec fn opt_text_result(r: Result<Option<String>, String>) -> Result<Option<Seq<char>>, Seq<char>> {
    match r {
        Ok(o) => Ok(opt_string_view(o)),
        Err(e) => Err(e@),
    }
}

/// What the zip crate reads as the text of entry `name` of the archive
/// `bytes` (see `read_zip_entry_text`).
pub uninterp spec fn zip_entry_text(bytes: Seq<u8>, name: Seq<char>) -> Result<Option<Seq<char>>, Seq<char>>;

/// `zip::ZipArchive::new` over the archive's bytes, `by_name(name)` and
/// `read_to_string` of that entry: `Ok(None)` when the archive has no
/// such entry, any other error as its message. The contract names the
/// result only: it is a function of the bytes and the name.
/// Returning on every input rests on zip reporting malformed
/// input as an error; that it never panics is not stated.
#[verifier::external_body]
fn read_zip_entry_text(bytes: &[u8], name: &str) -> (r: Result<Option<String>, String>)
    ensures
        opt_text_result(r) == zip_entry_text(bytes@, name@),
{
    let mut archive = zip::ZipArchive::new(std::io::Cursor::new(bytes)).map_err(|e| format!("{e}"))?;
    let mut entry = match archive.by_name(name) {
        Ok(x) => x,
        Err(zip::result::ZipError::FileNotFound) => return Ok(None),
        Err(e) => return Err(format!("{e}")),
    };
    let mut text = String::new();
    std::io::Read::read_to_string(&mut entry, &mut text).map_err(|e| format!("{e}"))?;
    Ok(Some(text))
}

/// One node of a parsed XML document: whether it is an element, its
/// namespace and local name (empty for other nodes), and its text.
#[derive(Debug)]
pub struct XmlNode {
    pub is_element: bool,
    pub namespace: Option<String>,
    pub name: String,
    pub text: Option<String>,
}

pub type XmlNodeView = (bool, Option<Seq<char>>, Seq<char>, Option<Seq<char>>);

pub open spec fn xml_node_view(n: XmlNode) -> XmlNodeView {
    (n.is_element, opt_string_view(n.namespace), n.name@, opt_string_view(n.text))
}

pub open spec fn xml_nodes_view(r: Result<Vec<XmlNode>, String>) -> Result<Seq<XmlNodeView>, Seq<char>> {
    match r {
        Ok(v) => Ok(v@.map_values(|n: XmlNode| xml_node_view(n))),
        Err(e) => Err(e@),
    }
}

/// What roxmltree parses `xml` to: its nodes in document order (see
/// `read_xml_nodes`).
pub uninterp spec fn xml_nodes(xml: Seq<char>) -> Result<Seq<XmlNodeView>, Seq<char>>;

/// `roxmltree::Document::parse`, then each of `descendants()` by
/// `is_element`, `tag_name()` (namespace and name) and `text()`, in
/// document order; a parse error gives its message. The contract names
/// the result only: it is a function of the text.
/// Returning on every input rests on roxmltree reporting malformed
/// input as an error; that it never panics is not stated.
#[verifier::external_body]
fn read_xml_nodes(xml: &str) -> (r: Result<Vec<XmlNode>, String>)
    ensures
        xml_nodes_view(r) == xml_nodes(xml@),
{
    let doc = roxmltree::Document::parse(xml).map_err(|e| format!("{e}"))?;
    Ok(doc.descendants().map(|n| XmlNode {
        is_element: n.is_element(),
        namespace: n.tag_name().namespace().map(str::to_string),
        name: n.tag_name().name().to_string(),
        text: n.text().map(str::to_string),
    }).collect())
}

/// The text of the first element named `name` in namespace `ns`, if it
/// has one.
pub open spec fn element_text(nodes: Seq<XmlNodeView>, ns: Seq<char>, name: Seq<char>) -> Option<Seq<char>>
    decreases nodes.len(),
{
    if nodes.len() == 0 {
        None
    } else if nodes[0].0 && nodes[0].2 == name && nodes[0].1 == Some(ns) {
        nodes[0].3
    } else {
        element_text(nodes.drop_first(), ns, name)
    }
}

/// Trimmed text, `None` when empty.
pub open spec fn nonempty_trimmed(o: Option<Seq<char>>) -> Option<Seq<char>> {
    match o {
        Some(t) => if trim_seq(t).len() == 0 {
            None
        } else {
            Some(trim_seq(t))
        },
        None => None,
    }
}

fn find_element_text(nodes: &Vec<XmlNode>, ns: &str, name: &str) -> (r: Option<String>)
    ensures
        opt_string_view(r) == nonempty_trimmed(
            element_text(nodes@.map_values(|n: XmlNode| xml_node_view(n)), ns@, name@),
        ),
{
    let ghost v = nodes@.map_values(|n: XmlNode| xml_node_view(n));
    let mut i: usize = 0;
    assert(v.subrange(0, v.len() as int) =~= v);
    while i < nodes.len()
        invariant
            i <= nodes@.len(),
            v == nodes@.map_values(|n: XmlNode| xml_node_view(n)),
            element_text(v, ns@, name@) == element_text(v.subrange(i as int, v.len() as int), ns@, name@),
        decreases nodes@.len() - i,
    {
        let ghost rest = v.subrange(i as int, v.len() as int);
        assert(rest.drop_first() =~= v.subrange(i + 1, v.len() as int));
        assert(rest[0] == xml_node_view(nodes@[i as int]));
        let n = &nodes[i];
        let ns_ok = match &n.namespace {
            Some(x) => str_eq(x.as_str(), ns),
            None => false,
        };
        if n.is_element && str_eq(n.name.as_str(), name) && ns_ok {
            return match &n.text {
                Some(t) => {
                    let tt = str_trim(t.as_str());
                    if tt.unicode_len() == 0 {
                        None
                    } else {
                        Some(tt)
                    }
                },
                None => None,
            };
        }
        i += 1;
    }
    None
}

pub open spec fn dc_ns() -> Seq<char> {
    "http://purl.org/dc/elements/1.1/"@
}

pub open spec fn dcterms_ns() -> Seq<char> {
    "http://purl.org/dc/terms/"@
}

/// The document metadata of `docProps/core.xml`'s nodes: `dc:creator`,
/// `dc:title` and the date of `dcterms:created`; a parse error is an
/// error.
pub open spec fn core_properties_spec(nodes: Result<Seq<XmlNodeView>, Seq<char>>) -> Result<DocView, Seq<char>> {
    match nodes {
        Err(e) => Err("cannot read document metadata: "@ + e),
        Ok(ns) => {
            let d = ymd_fields(
                match nonempty_trimmed(element_text(ns, dcterms_ns(), "created"@)) {
                    Some(s) => ymd_spec(s, 'T', '-'),
                    None => None,
                },
            );
            Ok((
                nonempty_trimmed(element_text(ns, dc_ns(), "creator"@)),
                nonempty_trimmed(element_text(ns, dc_ns(), "title"@)),
                d.0,
                d.1,
                d.2,
            ))
        },
    }
}

/// The document metadata that the nodes of `docProps/core.xml` give.
pub fn core_properties_from(nodes: Result<Vec<XmlNode>, String>) -> (r: Result<DocumentMetadata, String>)
    ensures
        doc_result_view(r) == core_properties_spec(xml_nodes_view(nodes)),
{
    match nodes {
        Err(e) => Err(concat("cannot read document metadata: ", e.as_str())),
        Ok(ns) => {
            proof {
                reveal_strlit("http://purl.org/dc/elements/1.1/");
                reveal_strlit("http://purl.org/dc/terms/");
            }
            let author = find_element_text(&ns, "http://purl.org/dc/elements/1.1/", "creator");
            let title = find_element_text(&ns, "http://purl.org/dc/elements/1.1/", "title");
            let (year, month, day) = match find_element_text(&ns, "http://purl.org/dc/terms/", "created") {
                Some(s) => match parse_w3cdtf_date(s.as_str()) {
                    Some((y, m, d)) => (Some(y), Some(m), Some(d)),
                    None => (None, None, None),
                },
                None => (None, None, None),
            };
            Ok(DocumentMetadata { author, title, year, month, day })
        },
    }
}

/// The document metadata of an Office file (docx, xlsx, pptx) from its
/// `docProps/core.xml` part as read from the archive: an error when the
/// archive cannot be read, none when it has no such part.
pub open spec fn office_spec(bytes: Seq<u8>) -> Result<DocView, Seq<char>> {
    match zip_entry_text(bytes, "docProps/core.xml"@) {
        Err(e) => Err("cannot read document metadata: "@ + e),
        Ok(None) => Ok(no_document_metadata()),
        Ok(Some(xml)) => core_properties_spec(xml_nodes(xml)),
    }
}

/// Author, title and creation date from an Office Open XML file's core
/// properties.
pub fn extract_office_metadata(bytes: &[u8]) -> (r: Result<DocumentMetadata, String>)
    ensures
        doc_result_view(r) == office_spec(bytes@),
{
    match read_zip_entry_text(bytes, "docProps/core.xml") {
        Err(e) => Err(concat("cannot read document metadata: ", e.as_str())),
        Ok(None) => Ok(empty_document()),
        Ok(Some(xml)) => core_properties_from(read_xml_nodes(xml.as_str())),
    }
}

/// Which reader a document's extension (compared case-insensitively)
/// calls for.
pub open spec fn document_kind(ext: Seq<char>) -> Option<bool> {
    let e = lower_seq(ext);
    if e == "pdf"@ {
        Some(true)
    } else if e == "docx"@ || e == "xlsx"@ || e == "pptx"@ {
        Some(false)
    } else {
        None
    }
}

/// Whether a file with extension `ext` is a document the `documents`
/// strategy can read.
pub fn is_document_extension(ext: &str) -> (r: bool)
    ensures
        r == document_kind(ext@) is Some,
{
    let e = to_lower(ext);
    str_eq(e.as_str(), "pdf") || str_eq(e.as_str(), "docx") || str_eq(e.as_str(), "xlsx") || str_eq(
        e.as_str(),
        "pptx",
    )
}

/// Document metadata, dispatched by the file's extension: a PDF's
/// `/Info`, or an Office file's core properties; any other extension is
/// an error naming it.
pub open spec fn document_spec(bytes: Seq<u8>, ext: Seq<char>) -> Result<DocView, Seq<char>> {
    match document_kind(ext) {
        Some(true) => pdf_spec(pdf_info(bytes)),
        Some(false) => office_spec(bytes),
        None => Err("unsupported document format \"."@ + lower_seq(ext) + "\""@),
    }
}

/// Author, title and creation date of a document whose file extension is
/// `ext` (empty when it has none).
pub fn extract_document_metadata(bytes: &[u8], ext: &str) -> (r: Result<DocumentMetadata, String>)
    ensures
        doc_result_view(r) == document_spec(bytes@, ext@),
{
    let e = to_lower(ext);
    if str_eq(e.as_str(), "pdf") {
        extract_pdf_metadata(bytes)
    } else if str_eq(e.as_str(), "docx") || str_eq(e.as_str(), "xlsx") || str_eq(e.as_str(), "pptx") {
        extract_office_metadata(bytes)
    } else {
        Err(concat3("unsupported document format \".", e.as_str(), "\""))
    }
}

// ------------------------------------------------------------------ audio

/// The common fields of one audio tag (ID3v2, Vorbis comments, MP4
/// atoms, APE, ...): text fields as the tag holds them, the recording
/// year and the track number.
#[derive(Debug)]
pub struct AudioTag {
    pub title: Option<String>,
    pub artist: Option<String>,
    pub album: Option<String>,
    pub album_artist: Option<String>,
    pub genre: Option<String>,
    pub year: Option<u16>,
    pub track: Option<u32>,
}

pub type AudioTagView = (
    Option<Seq<char>>,
    Option<Seq<char>>,
    Option<Seq<char>>,
    Option<Seq<char>>,
    Option<Seq<char>>,
    Option<u16>,
    Option<u32>,
);

pub open spec fn audio_tag_view(t: AudioTag) -> AudioTagView {
    (
        opt_string_view(t.title),
        opt_string_view(t.artist),
        opt_string_view(t.album),
        opt_string_view(t.album_artist),
        opt_string_view(t.genre),
        t.year,
        t.track,
    )
}

pub open spec fn opt_tag_view(t: Option<AudioTag>) -> Option<AudioTagView> {
    match t {
        Some(x) => Some(audio_tag_view(x)),
        None => None,
    }
}

/// A read of one tag of an audio file, by plain values.
pub open spec fn audio_tag_result_view(r: Result<Option<AudioTag>, String>) -> Result<Option<AudioTagView>, Seq<char>> {
    match r {
        Ok(t) => Ok(opt_tag_view(t)),
        Err(e) => Err(e@),
    }
}

/// What lofty reads as the primary tag of the audio file `bytes` whose
/// extension is `ext` (see `read_primary_audio_tag`).
pub uninterp spec fn audio_primary_tag(bytes: Seq<u8>, ext: Seq<char>) -> Result<Option<AudioTagView>, Seq<char>>;

/// What lofty reads as the first tag of the audio file `bytes` whose
/// extension is `ext` (see `read_first_audio_tag`).
pub uninterp spec fn audio_first_tag(bytes: Seq<u8>, ext: Seq<char>) -> Result<Option<AudioTagView>, Seq<char>>;

/// `lofty::probe::Probe` over the file's bytes, with the file type that
/// `FileType::from_ext(ext)` gives, then `read`, and the tagged file's
/// `primary_tag`, by `get_string` of its title, artist, album, album
/// artist and genre keys, `date` (its year) and `track`. A read error
/// gives its message. The contract names the result only: it is a
/// function of the bytes and the extension.
/// Returning on every input rests on lofty reporting malformed
/// input as an error; that it never panics is not stated.
#[verifier::external_body]
fn read_primary_audio_tag(bytes: &[u8], ext: &str) -> (r: Result<Option<AudioTag>, String>)
    ensures
        audio_tag_result_view(r) == audio_primary_tag(bytes@, ext@),
{
    let probe = lofty::probe::Probe::new(std::io::Cursor::new(bytes));
    let probe = match lofty::file::FileType::from_ext(ext) { Some(t) => probe.set_file_type(t), None => probe };
    let file = probe.read().map_err(|e| format!("{e}"))?;
    Ok(file.primary_tag().map(|t| {
        let [title, artist, album, album_artist, genre] = [TrackTitle, TrackArtist, AlbumTitle, AlbumArtist, Genre]
            .map(|k| t.get_string(k).map(str::to_string));
        AudioTag { title, artist, album, album_artist, genre, year: t.date().map(|d| d.year), track: t.track() }
    }))
}

/// As `read_primary_audio_tag`, with the tagged file's `first_tag`.
/// Returning on every input rests on lofty reporting malformed
/// input as an error; that it never panics is not stated.
#[verifier::external_body]
fn read_first_audio_tag(bytes: &[u8], ext: &str) -> (r: Result<Option<AudioTag>, String>)
    ensures
        audio_tag_result_view(r) == audio_first_tag(bytes@, ext@),
{
    let probe = lofty::probe::Probe::new(std::io::Cursor::new(bytes));
    let probe = match lofty::file::FileType::from_ext(ext) { Some(t) => probe.set_file_type(t), None => probe };
    let file = probe.read().map_err(|e| format!("{e}"))?;
    Ok(file.first_tag().map(|t| {
        let [title, artist, album, album_artist, genre] = [TrackTitle, TrackArtist, AlbumTitle, AlbumArtist, Genre]
            .map(|k| t.get_string(k).map(str::to_string));
        AudioTag { title, artist, album, album_artist, genre, year: t.date().map(|d| d.year), track: t.track() }
    }))
}

/// Audio metadata by plain values.
pub type AudioView = (
    Option<Seq<char>>,
    Option<Seq<char>>,
    Option<Seq<char>>,
    Option<Seq<char>>,
    Option<Seq<char>>,
    Option<Seq<char>>,
    Option<Seq<char>>,
);

pub open spec fn audio_view(a: AudioMetadata) -> AudioView {
    (
        opt_string_view(a.title),
        opt_string_view(a.artist),
        opt_string_view(a.album),
        opt_string_view(a.album_artist),
        opt_string_view(a.genre),
        opt_string_view(a.year),
        opt_string_view(a.track),
    )
}

pub open spec fn audio_result_view(r: Result<AudioMetadata, String>) -> Result<AudioView, Seq<char>> {
    match r {
        Ok(a) => Ok(audio_view(a)),
        Err(e) => Err(e@),
    }
}

pub open spec fn opt_dec_u16(o: Option<u16>) -> Option<Seq<char>> {
    match o {
        Some(n) => Some(dec(n as nat)),
        None => None,
    }
}

pub open spec fn opt_dec_u32(o: Option<u32>) -> Option<Seq<char>> {
    match o {
        Some(n) => Some(dec(n as nat)),
        None => None,
    }
}

/// The audio metadata one tag gives; every field `None` without a tag.
pub open spec fn audio_spec(t: Option<AudioTagView>) -> AudioView {
    match t {
        None => (None, None, None, None, None, None, None),
        Some(x) => (x.0, x.1, x.2, x.3, x.4, opt_dec_u16(x.5), opt_dec_u32(x.6)),
    }
}

/// The audio metadata of an audio file: an error when it cannot be read;
/// from the primary tag, or the first tag when there is no primary one.
pub open spec fn audio_file_spec(bytes: Seq<u8>, ext: Seq<char>) -> Result<AudioView, Seq<char>> {
    match audio_primary_tag(bytes, ext) {
        Err(e) => Err("cannot read audio metadata: "@ + e),
        Ok(Some(t)) => Ok(audio_spec(Some(t))),
        Ok(None) => match audio_first_tag(bytes, ext) {
            Err(e) => Err("cannot read audio metadata: "@ + e),
            Ok(f) => Ok(audio_spec(f)),
        },
    }
}

/// The audio metadata that one tag gives.
pub fn audio_metadata_from(tag: Option<AudioTag>) -> (r: AudioMetadata)
    ensures
        audio_view(r) == audio_spec(opt_tag_view(tag)),
{
    match tag {
        None => AudioMetadata {
            title: None,
            artist: None,
            album: None,
            album_artist: None,
            genre: None,
            year: None,
            track: None,
        },
        Some(x) => {
            let year = match x.year {
                Some(y) => Some(fmt_u64(y as u64, 0)),
                None => None,
            };
            let track = match x.track {
                Some(n) => Some(fmt_u64(n as u64, 0)),
                None => None,
            };
            AudioMetadata {
                title: x.title,
                artist: x.artist,
                album: x.album,
                album_artist: x.album_artist,
                genre: x.genre,
                year,
                track,
            }
        },
    }
}

/// Title, artist, album, album artist, genre, year and track from an
/// audio file's tags; the format is chosen by the extension `ext`.
pub fn extract_audio_metadata(bytes: &[u8], ext: &str) -> (r: Result<AudioMetadata, String>)
    ensures
        audio_result_view(r) == audio_file_spec(bytes@, ext@),
{
    match read_primary_audio_tag(bytes, ext) {
        Err(e) => Err(concat("cannot read audio metadata: ", e.as_str())),
        Ok(Some(t)) => Ok(audio_metadata_from(Some(t))),
        Ok(None) => match read_first_audio_tag(bytes, ext) {
            Err(e) => Err(concat("cannot read audio metadata: ", e.as_str())),
            Ok(f) => Ok(audio_metadata_from(f)),
        },
    }
}

// ------------------------------------------------------------------ video

/// One track of an MP4/MOV container: whether it is a video track, its
/// width and height, and its codec's four-character code.
#[derive(Debug)]
pub struct Mp4Track {
    pub is_video: bool,
    pub width: u16,
    pub height: u16,
    pub codec: Option<String>,
}

/// An MP4/MOV container's tracks and its movie header's creation time
/// (seconds since 1904-01-01).
#[derive(Debug)]
pub struct Mp4Header {
    pub tracks: Vec<Mp4Track>,
    pub creation_time: u64,
}

/// `mp4::Mp4Reader::read_header` over the file's bytes: each track by
/// `track_type` (whether it is video), `width`, `height` and `box_type`
/// (as text), and `moov.mvhd.creation_time`; a read error gives its
/// message. Which tracks there are, the creation time and any error are
/// functions of the bytes, and the contract names them; the tracks come in
/// the order of the crate's `HashMap`, which differs between processes, so
/// only their multiset is named. The
/// reader loops for ever on a child box of size zero inside a container
/// (it seeks back to the same header), and allocates without bound on an
/// undersized `data` box, an oversized raw child of `meta` or an `emsg`
/// box whose strings run past its size; `box_tree_ok` leaves all of these
/// out. That no other input makes it panic rests on the crate reporting
/// malformed input as an error, and is not stated.
#[verifier::external_body]
fn read_mp4_header(bytes: &[u8]) -> (r: Result<Mp4Header, String>)
    requires
        crate::box_tree::box_tree_ok(bytes@),
    ensures
        match r {
            Ok(h) => mp4_header_view(bytes@) == Ok::<(Multiset<TrackView>, u64), Seq<char>>(
                (tracks_view(h.tracks@).to_multiset(), h.creation_time),
            ),
            Err(e) => mp4_header_view(bytes@) == Err::<(Multiset<TrackView>, u64), Seq<char>>(e@),
        },
{
    let mp4 = mp4::Mp4Reader::read_header(std::io::Cursor::new(bytes), bytes.len() as u64).map_err(|e| format!("{e}"))?;
    let tracks = mp4.tracks().values().map(|t| Mp4Track {
        is_video: matches!(t.track_type(), Ok(mp4::TrackType::Video)),
        width: t.width(), height: t.height(),
        codec: t.box_type().ok().map(|c| c.to_string()),
    }).collect();
    Ok(Mp4Header { tracks, creation_time: mp4.moov.mvhd.creation_time })
}

/// One track by plain values: whether it is video, width, height, codec.
pub type TrackView = (bool, u16, u16, Option<Seq<char>>);

pub open spec fn track_view(t: Mp4Track) -> TrackView {
    (t.is_video, t.width, t.height, opt_string_view(t.codec))
}

pub open spec fn tracks_view(ts: Seq<Mp4Track>) -> Seq<TrackView> {
    ts.map_values(|t: Mp4Track| track_view(t))
}

/// What the mp4 crate reads from the file `bytes`: its tracks (as a
/// multiset: the crate keeps them in a `HashMap`, whose order is not a
/// function of the bytes) and the movie header's creation time, or the
/// error's message (see `read_mp4_header`).
pub uninterp spec fn mp4_header_view(bytes: Seq<u8>) -> Result<(Multiset<TrackView>, u64), Seq<char>>;

/// Seconds from 1904-01-01 (QuickTime's epoch) to 1970-01-01.
pub const QUICKTIME_TO_UNIX_EPOCH_SECS: u64 = 2082844800;

/// The first video track among `ts`.
pub open spec fn first_video(ts: Seq<Mp4Track>) -> Option<Mp4Track>
    decreases ts.len(),
{
    if ts.len() == 0 {
        None
    } else if ts[0].is_video {
        Some(ts[0])
    } else {
        first_video(ts.drop_first())
    }
}

/// The calendar year of a QuickTime creation time: none when it lies
/// before the Unix epoch (a zero creation time is common and means
/// unknown).
pub open spec fn creation_year_of(ct: u64) -> Option<Seq<char>> {
    if ct < QUICKTIME_TO_UNIX_EPOCH_SECS {
        None
    } else {
        Some(dec_signed_padded(crate::utils::civil_any(crate::utils::wrapped_secs(ct - QUICKTIME_TO_UNIX_EPOCH_SECS)).0, 0))
    }
}

pub type VideoView = (u32, u32, Option<Seq<char>>, Option<Seq<char>>, Option<u64>, Option<u32>);

pub open spec fn video_view(v: VideoMetadata) -> VideoView {
    (v.width, v.height, opt_string_view(v.codec), opt_string_view(v.year), v.duration_seconds, v.fps)
}

pub open spec fn video_result_view(r: Result<VideoMetadata, String>) -> Result<VideoView, Seq<char>> {
    match r {
        Ok(v) => Ok(video_view(v)),
        Err(e) => Err(e@),
    }
}

/// What an MP4 header read gives: an error when it cannot be read or has
/// no video track; otherwise the first video track's size and codec and
/// the creation year. Duration and frame rate never come from here.
/// (The creation year is exact for creation times up to `i64::MAX`
/// seconds past the Unix epoch.)
pub open spec fn mp4_video_spec(h: Result<Mp4Header, String>, r: Result<VideoMetadata, String>) -> bool {
    match h {
        Err(e) => r matches Err(m) && m@ == "cannot read video metadata: "@ + e@,
        Ok(hd) => match first_video(hd.tracks@) {
            None => r matches Err(m) && m@ == "no video track found"@,
            Some(t) => r matches Ok(v) && v.width == t.width as u32 && v.height == t.height as u32
                && opt_string_view(v.codec) == opt_string_view(t.codec) && v.duration_seconds is None
                && v.fps is None && (v.year is Some <==> hd.creation_time >= QUICKTIME_TO_UNIX_EPOCH_SECS)
                && opt_string_view(v.year) == creation_year_of(hd.creation_time),
        },
    }
}

/// The video metadata one video track and the creation time give.
pub open spec fn video_from_track(t: TrackView, ct: u64, r: Result<VideoMetadata, String>) -> bool {
    r matches Ok(v) && v.width == t.1 as u32 && v.height == t.2 as u32 && opt_string_view(v.codec) == t.3
        && v.duration_seconds is None && v.fps is None && opt_string_view(v.year) == creation_year_of(ct)
}

/// What the video metadata of a file is, given what the reader made of
/// it: its error, no video track, or one of its video tracks (which one,
/// when there are several, is the reader's order).
pub open spec fn mp4_result_spec(h: Result<(Multiset<TrackView>, u64), Seq<char>>, r: Result<VideoMetadata, String>) -> bool {
    match h {
        Err(e) => r matches Err(m) && m@ == "cannot read video metadata: "@ + e,
        Ok((ts, ct)) => if forall|t: TrackView| ts.contains(t) ==> !t.0 {
            r matches Err(m) && m@ == "no video track found"@
        } else {
            exists|t: TrackView| ts.contains(t) && t.0 && video_from_track(t, ct, r)
        },
    }
}

proof fn lemma_first_video(ts: Seq<Mp4Track>)
    ensures
        first_video(ts) matches Some(t) ==> t.is_video && tracks_view(ts).contains(track_view(t)),
        first_video(ts) is None ==> forall|i: int| 0 <= i < ts.len() ==> !ts[i].is_video,
    decreases ts.len(),
{
    if ts.len() > 0 {
        lemma_first_video(ts.drop_first());
        if ts[0].is_video {
            assert(tracks_view(ts)[0] == track_view(ts[0]));
        } else {
            if first_video(ts.drop_first()) is Some {
                let t = first_video(ts.drop_first()).unwrap();
                let w = choose|w: int| 0 <= w < tracks_view(ts.drop_first()).len() && tracks_view(ts.drop_first())[w] == track_view(t);
                assert(tracks_view(ts)[w + 1] == track_view(t));
            } else {
                assert forall|i: int| 0 <= i < ts.len() implies !ts[i].is_video by {
                    if i > 0 {
                        assert(ts[i] == ts.drop_first()[i - 1]);
                    }
                }
            }
        }
    }
}

/// The video metadata that an MP4 header read's result gives.
pub fn video_metadata_from(h: Result<Mp4Header, String>) -> (r: Result<VideoMetadata, String>)
    ensures
        mp4_video_spec(h, r),
{
    match &h {
        Err(e) => Err(concat("cannot read video metadata: ", e.as_str())),
        Ok(hd) => {
            let ghost ts = hd.tracks@;
            let mut i: usize = 0;
            assert(ts.subrange(0, ts.len() as int) =~= ts);
            while i < hd.tracks.len()
                invariant
                    i <= ts.len(),
                    ts == hd.tracks@,
                    h == Ok::<Mp4Header, String>(*hd),
                    first_video(ts) == first_video(ts.subrange(i as int, ts.len() as int)),
                decreases ts.len() - i,
            {
                let ghost rest = ts.subrange(i as int, ts.len() as int);
                assert(rest.drop_first() =~= ts.subrange(i + 1, ts.len() as int));
                assert(rest[0] == ts[i as int]);
                if hd.tracks[i].is_video {
                    let t = &hd.tracks[i];
                    assert(first_video(ts) == Some(ts[i as int]));
                    assert(*t == ts[i as int]);
                    let ct = hd.creation_time;
                    let year = if ct < QUICKTIME_TO_UNIX_EPOCH_SECS {
                        None
                    } else {
                        let u = ct - QUICKTIME_TO_UNIX_EPOCH_SECS;
                        let secs: i64 = if u <= 9223372036854775807u64 {
                            u as i64
                        } else {
                            -((18446744073709551615u64 - u) as i64) - 1
                        };
                        let d = DateMetadata::from_unix_secs(secs);
                        let y = fmt_i64(d.year, 0);
                        assert(secs as int == crate::utils::wrapped_secs(u as int));
                        Some(y)
                    };
                    let codec = match &t.codec {
                        Some(c) => Some(c.clone()),
                        None => None,
                    };
                    let v = VideoMetadata {
                        width: t.width as u32,
                        height: t.height as u32,
                        codec,
                        year,
                        duration_seconds: None,
                        fps: None,
                    };
                    return Ok(v);
                }
                i += 1;
            }
            assert(ts.subrange(ts.len() as int, ts.len() as int).len() == 0);
            proof {
                reveal_strlit("no video track found");
            }
            Err("no video track found".to_owned())
        },
    }
}

/// Width, height, codec and creation year of an MP4/MOV file's first
/// video track. Which track is first when there are several is the
/// container reader's choice. A box tree the reader cannot walk to an
/// end is refused.
pub fn extract_video_metadata_mp4(bytes: &[u8]) -> (r: Result<VideoMetadata, String>)
    ensures
        !crate::box_tree::box_tree_ok(bytes@) ==> (r matches Err(m) && m@
            == "cannot read video metadata: malformed box structure"@),
        crate::box_tree::box_tree_ok(bytes@) ==> mp4_result_spec(mp4_header_view(bytes@), r),
{
    if !crate::box_tree::box_tree_sound(bytes) {
        proof {
            reveal_strlit("cannot read video metadata: malformed box structure");
        }
        return Err("cannot read video metadata: malformed box structure".to_owned());
    }
    let h = read_mp4_header(bytes);
    let ghost hv = h;
    let r = video_metadata_from(h);
    proof {
        broadcast use vstd::seq_lib::group_to_multiset_ensures;
        match hv {
            Err(e) => {
                assert(mp4_result_spec(mp4_header_view(bytes@), r));
            },
            Ok(hd) => {
                let tv = tracks_view(hd.tracks@);
                lemma_first_video(hd.tracks@);
                match first_video(hd.tracks@) {
                    Some(t) => {
                        assert(tv.to_multiset().contains(track_view(t)));
                        assert(video_from_track(track_view(t), hd.creation_time, r));
                        assert(track_view(t).0);
                        assert(!(forall|x: TrackView| tv.to_multiset().contains(x) ==> !x.0));
                        assert(mp4_result_spec(mp4_header_view(bytes@), r));
                    },
                    None => {
                        assert forall|x: TrackView| tv.to_multiset().contains(x) implies !x.0 by {
                            assert(tv.contains(x));
                            let w = choose|w: int| 0 <= w < tv.len() && tv[w] == x;
                            assert(tv[w] == track_view(hd.tracks@[w]));
                        }
                    },
                }
            },
        }
    }
    r
}

} // verus!
