use pdf_assembly::merge::FileBlob;
use pdf_assembly::mime::{get_mime_type, is_image_mime, is_pdf_mime};

#[test]
fn file_blob_keeps_data_and_declared_type() {
    let blob = FileBlob::new(vec![1, 2, 3], get_mime_type("scan.webp"));
    assert_eq!(blob.data(), &vec![1, 2, 3]);
    assert_eq!(blob.mime_type(), "image/webp");
}

#[test]
fn known_extensions_map_to_their_types() {
    assert_eq!(get_mime_type("lease.pdf"), "application/pdf");
    assert_eq!(get_mime_type("scan.jpg"), "image/jpeg");
    assert_eq!(get_mime_type("scan.jpeg"), "image/jpeg");
    assert_eq!(get_mime_type("photo.png"), "image/png");
    assert_eq!(get_mime_type("anim.gif"), "image/gif");
    assert_eq!(get_mime_type("old.bmp"), "image/bmp");
    assert_eq!(get_mime_type("new.webp"), "image/webp");
    assert_eq!(get_mime_type("logo.svg"), "image/svg+xml");
    assert_eq!(get_mime_type("notes.txt"), "text/plain");
    assert_eq!(get_mime_type("letter.doc"), "application/msword");
    assert_eq!(
        get_mime_type("letter.docx"),
        "application/vnd.openxmlformats-officedocument.wordprocessingml.document"
    );
    assert_eq!(get_mime_type("clip.mp4"), "video/mp4");
    assert_eq!(get_mime_type("song.mp3"), "audio/mpeg");
    assert_eq!(get_mime_type("pack.zip"), "application/zip");
    assert_eq!(get_mime_type("pack.7z"), "application/x-7z-compressed");
}

#[test]
fn extension_lookup_ignores_ascii_case() {
    assert_eq!(get_mime_type("REPORT.PDF"), "application/pdf");
    assert_eq!(get_mime_type("photo.JpEg"), "image/jpeg");
}

#[test]
fn last_dot_decides_the_extension() {
    assert_eq!(get_mime_type("archive.tar.zip"), "application/zip");
    assert_eq!(get_mime_type("a.b.c.png"), "image/png");
}

#[test]
fn unknown_or_missing_extensions_are_generic() {
    assert_eq!(get_mime_type("mystery.xyz"), "application/octet-stream");
    assert_eq!(get_mime_type("noextension"), "application/octet-stream");
    assert_eq!(get_mime_type("trailingdot."), "application/octet-stream");
    assert_eq!(get_mime_type(""), "application/octet-stream");
}

#[test]
fn mime_classes_are_recognized() {
    assert!(is_image_mime("image/png"));
    assert!(is_image_mime("image/jpeg"));
    assert!(!is_image_mime("application/pdf"));
    assert!(!is_image_mime("imag"));
    assert!(is_pdf_mime("application/pdf"));
    assert!(is_pdf_mime("application/x-pdf"));
    assert!(!is_pdf_mime("text/plain"));
    assert!(!is_pdf_mime("image/png"));
}
