use sift::content::{
    audio_metadata_from, extract_audio_metadata, extract_document_metadata, extract_photo_metadata,
    extract_video_metadata_mp4, pdf_metadata_from, video_metadata_from, AudioTag, Mp4Header, Mp4Track, PdfInfo,
    QUICKTIME_TO_UNIX_EPOCH_SECS,
};
use std::io::Write;

fn office_file(core_xml: Option<&str>) -> Vec<u8> {
    let mut w = zip::ZipWriter::new(std::io::Cursor::new(Vec::new()));
    let opts = zip::write::SimpleFileOptions::default().compression_method(zip::CompressionMethod::Stored);
    w.start_file("[Content_Types].xml", opts).unwrap();
    w.write_all(b"<Types/>").unwrap();
    if let Some(xml) = core_xml {
        w.start_file("docProps/core.xml", opts).unwrap();
        w.write_all(xml.as_bytes()).unwrap();
    }
    w.finish().unwrap().into_inner()
}

const CORE: &str = r#"<?xml version="1.0" encoding="UTF-8"?>
<cp:coreProperties xmlns:cp="http://schemas.openxmlformats.org/package/2006/metadata/core-properties" xmlns:dc="http://purl.org/dc/elements/1.1/" xmlns:dcterms="http://purl.org/dc/terms/">
  <dc:creator>  Ada Lovelace </dc:creator>
  <dc:title>Notes</dc:title>
  <dcterms:created>2023-11-15T09:00:00Z</dcterms:created>
</cp:coreProperties>"#;

#[test]
fn office_core_properties_are_read() {
    let d = extract_document_metadata(&office_file(Some(CORE)), "DOCX").unwrap();
    assert_eq!(d.author.as_deref(), Some("Ada Lovelace"));
    assert_eq!(d.title.as_deref(), Some("Notes"));
    assert_eq!(d.year.as_deref(), Some("2023"));
    assert_eq!(d.month.as_deref(), Some("11"));
    assert_eq!(d.day.as_deref(), Some("15"));
}

#[test]
fn office_file_without_core_properties_has_no_metadata() {
    let d = extract_document_metadata(&office_file(None), "xlsx").unwrap();
    assert!(d.author.is_none() && d.title.is_none() && d.year.is_none());
}

#[test]
fn office_file_with_broken_xml_is_an_error() {
    let e = extract_document_metadata(&office_file(Some("<a><b></a>")), "pptx").unwrap_err();
    assert!(e.starts_with("cannot read document metadata: "), "{e}");
}

#[test]
fn unknown_document_extension_is_refused() {
    let e = extract_document_metadata(b"hello", "TXT").unwrap_err();
    assert_eq!(e, "unsupported document format \".txt\"");
    let e = extract_document_metadata(b"hello", "").unwrap_err();
    assert_eq!(e, "unsupported document format \".\"");
}

#[test]
fn unreadable_pdf_is_an_error() {
    let e = extract_document_metadata(b"not a pdf", "pdf").unwrap_err();
    assert!(e.starts_with("cannot read document metadata: "), "{e}");
}

#[test]
fn pdf_info_strings_are_decoded_and_dated() {
    let info = PdfInfo {
        author: Some(vec![0xFE, 0xFF, 0x00, b'A', 0x00, b'n', 0x00, b'n']),
        title: Some(b"  Report ".to_vec()),
        created: Some(b"D:20240102120000+01'00'".to_vec()),
    };
    let d = pdf_metadata_from(Ok(Some(info))).unwrap();
    assert_eq!(d.author.as_deref(), Some("Ann"));
    assert_eq!(d.title.as_deref(), Some("Report"));
    assert_eq!((d.year.as_deref(), d.month.as_deref(), d.day.as_deref()), (Some("2024"), Some("01"), Some("02")));
    let none = pdf_metadata_from(Ok(None)).unwrap();
    assert!(none.author.is_none() && none.year.is_none());
    let blank = pdf_metadata_from(Ok(Some(PdfInfo { author: Some(b"   ".to_vec()), title: None, created: Some(b"2024".to_vec()) }))).unwrap();
    assert!(blank.author.is_none() && blank.year.is_none());
}

#[test]
fn photo_without_exif_has_no_metadata() {
    // A JPEG made only of its start and end markers: no EXIF segment.
    let p = extract_photo_metadata(&[0xFF, 0xD8, 0xFF, 0xD9]).unwrap();
    assert!(p.camera.is_none() && p.year.is_none() && p.month.is_none() && p.day.is_none());
}

#[test]
fn unknown_image_format_is_an_error() {
    let e = extract_photo_metadata(b"plain text").unwrap_err();
    assert!(e.starts_with("cannot read photo metadata: "), "{e}");
}

#[test]
fn audio_tag_fields_are_rendered() {
    let tag = AudioTag {
        title: Some("Song".into()),
        artist: None,
        album: Some("Record".into()),
        album_artist: None,
        genre: None,
        year: Some(2021),
        track: Some(7),
    };
    let a = audio_metadata_from(Some(tag));
    assert_eq!(a.title.as_deref(), Some("Song"));
    assert_eq!(a.album.as_deref(), Some("Record"));
    assert_eq!(a.year.as_deref(), Some("2021"));
    assert_eq!(a.track.as_deref(), Some("7"));
    let untagged = audio_metadata_from(None);
    assert!(untagged.title.is_none() && untagged.year.is_none() && untagged.track.is_none());
}

#[test]
fn unreadable_audio_is_an_error() {
    let e = extract_audio_metadata(b"definitely not audio", "mp3").unwrap_err();
    assert!(e.starts_with("cannot read audio metadata: "), "{e}");
}

#[test]
fn video_uses_the_first_video_track_and_creation_year() {
    let header = |creation_time: u64| Mp4Header {
        tracks: vec![
            Mp4Track { is_video: false, width: 0, height: 0, codec: Some("mp4a".into()) },
            Mp4Track { is_video: true, width: 1920, height: 1080, codec: Some("avc1".into()) },
        ],
        creation_time,
    };
    let v = video_metadata_from(Ok(header(QUICKTIME_TO_UNIX_EPOCH_SECS + 1_700_000_000))).unwrap();
    assert_eq!((v.width, v.height), (1920, 1080));
    assert_eq!(v.codec.as_deref(), Some("avc1"));
    assert_eq!(v.year.as_deref(), Some("2023"));
    assert!(v.duration_seconds.is_none() && v.fps.is_none());
    assert!(video_metadata_from(Ok(header(0))).unwrap().year.is_none());
    let none = video_metadata_from(Ok(Mp4Header { tracks: vec![], creation_time: 0 })).unwrap_err();
    assert_eq!(none, "no video track found");
}

#[test]
fn unreadable_video_is_an_error() {
    let e = extract_video_metadata_mp4(b"short").unwrap_err();
    assert!(e.starts_with("cannot read video metadata: "), "{e}");
}

#[test]
fn a_box_tree_the_reader_cannot_finish_is_refused() {
    let mut bytes = vec![0, 0, 0, 16];
    bytes.extend_from_slice(b"moov");
    bytes.extend_from_slice(&[0, 0, 0, 0]);
    bytes.extend_from_slice(b"free");
    let e = extract_video_metadata_mp4(&bytes).unwrap_err();
    assert_eq!(e, "cannot read video metadata: malformed box structure");
    assert!(!sift::box_tree::box_tree_sound(&bytes));
    assert!(sift::box_tree::box_tree_sound(b"short"));
}

#[test]
fn only_an_emsg_box_whose_strings_overrun_is_refused() {
    // version 0, flags, "a\0", "b\0", then four 32-bit fields: 32 bytes in all.
    let mut ok = vec![0, 0, 0, 32];
    ok.extend_from_slice(b"emsg");
    ok.extend_from_slice(&[0, 0, 0, 0, b'a', 0, b'b', 0]);
    ok.extend_from_slice(&[0; 16]);
    assert!(sift::box_tree::box_tree_sound(&ok));
    let mut bad = ok.clone();
    bad[3] = 24;
    assert!(!sift::box_tree::box_tree_sound(&bad));
}


#[test]
fn utf16_pdf_strings_decode_pairs_and_replace_lone_surrogates() {
    let info = PdfInfo {
        author: Some(vec![0xFE, 0xFF, 0xD8, 0x3D, 0xDE, 0x00]),
        title: Some(vec![0xFE, 0xFF, 0xD8, 0x00, 0x00, b'A']),
        created: None,
    };
    let d = pdf_metadata_from(Ok(Some(info))).unwrap();
    assert_eq!(d.author.as_deref(), Some("\u{1F600}"));
    assert_eq!(d.title.as_deref(), Some("\u{FFFD}A"));
}
