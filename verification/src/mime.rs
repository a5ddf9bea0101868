//! MIME classification.
//!
//! The pipeline distinguishes image sources from PDF sources by their
//! declared MIME type, and maps file extensions to MIME strings when a file
//! is read into a blob.

use vstd::prelude::*;
use vstd::string::StringSliceAdditionalSpecFns;
use vstd::string::StrSliceExecFns;
use crate::textbytes::bytes_eq;

verus! {

/// Whether two string slices hold the same characters.
pub fn chars_eq(s: &str, t: &str) -> (r: bool)
    ensures
        r == (s@ == t@),
{
    let n = s.unicode_len();
    let m = t.unicode_len();
    if n != m {
        assert(s@ != t@) by {
            assert(s@.len() != t@.len());
        }
        return false;
    }
    let mut i: usize = 0;
    while i < n
        invariant
            n == s@.len() == t@.len(),
            i <= n,
            forall|k: int| 0 <= k < i ==> s@[k] == t@[k],
        decreases n - i,
    {
        if s.get_char(i) != t.get_char(i) {
            return false;
        }
        i += 1;
    }
    proof {
        assert(s@ =~= t@);
    }
    true
}

/// A declared MIME type names an image when it starts with "image/".
pub open spec fn spec_is_image_mime(m: Seq<char>) -> bool {
    m.len() >= 6 && m.subrange(0, 6) == "image/"@
}

/// A declared MIME type names a PDF when it is one of the two accepted
/// PDF types.
pub open spec fn spec_is_pdf_mime(m: Seq<char>) -> bool {
    m == "application/pdf"@ || m == "application/x-pdf"@
}

/// The merger accepts exactly images and PDFs.
pub open spec fn spec_mime_supported(m: Seq<char>) -> bool {
    spec_is_image_mime(m) || spec_is_pdf_mime(m)
}

/// No MIME string is both an image type and a PDF type: the image prefix
/// starts with 'i', the PDF types with 'a'.
pub proof fn lemma_mime_classes_disjoint(m: Seq<char>)
    ensures
        !(spec_is_image_mime(m) && spec_is_pdf_mime(m)),
{
    reveal_strlit("image/");
    reveal_strlit("application/pdf");
    reveal_strlit("application/x-pdf");
    if spec_is_image_mime(m) && spec_is_pdf_mime(m) {
        assert(m.subrange(0, 6)[0] == m[0]);
        assert(m[0] == 'i');
        assert(m[0] == 'a');
    }
}

/// Whether `m` declares an image.
pub fn is_image_mime(m: &str) -> (r: bool)
    ensures
        r == spec_is_image_mime(m@),
{
    let n = m.unicode_len();
    if n < 6 {
        return false;
    }
    chars_eq(m.substring_char(0, 6), "image/")
}

/// Whether `m` declares a PDF.
pub fn is_pdf_mime(m: &str) -> (r: bool)
    ensures
        r == spec_is_pdf_mime(m@),
{
    chars_eq(m, "application/pdf") || chars_eq(m, "application/x-pdf")
}

/// The UTF-8 bytes after the last '.' of a path; the whole path when it
/// holds no '.'.
pub open spec fn spec_extension(b: Seq<u8>) -> Seq<u8>
    decreases b.len(),
{
    if b.len() == 0 {
        Seq::empty()
    } else if b.last() == 46u8 {
        Seq::empty()
    } else {
        spec_extension(b.drop_last()) + seq![b.last()]
    }
}

/// ASCII lowercasing of one byte.
pub open spec fn spec_lower_byte(x: u8) -> u8 {
    if 65 <= x <= 90 {
        (x + 32) as u8
    } else {
        x
    }
}

/// ASCII lowercasing of a byte string.
pub open spec fn spec_lower(b: Seq<u8>) -> Seq<u8> {
    b.map_values(|x: u8| spec_lower_byte(x))
}

/// The MIME string for a lowercased file extension; unknown extensions map
/// to the generic binary type.
pub open spec fn spec_mime_for_extension(e: Seq<u8>) -> Seq<char> {
    if e == "pdf".spec_bytes() {
        "application/pdf"@
    } else if e == "doc".spec_bytes() {
        "application/msword"@
    } else if e == "docx".spec_bytes() {
        "application/vnd.openxmlformats-officedocument.wordprocessingml.document"@
    } else if e == "txt".spec_bytes() {
        "text/plain"@
    } else if e == "jpg".spec_bytes() || e == "jpeg".spec_bytes() {
        "image/jpeg"@
    } else if e == "png".spec_bytes() {
        "image/png"@
    } else if e == "gif".spec_bytes() {
        "image/gif"@
    } else if e == "bmp".spec_bytes() {
        "image/bmp"@
    } else if e == "webp".spec_bytes() {
        "image/webp"@
    } else if e == "svg".spec_bytes() {
        "image/svg+xml"@
    } else if e == "mp4".spec_bytes() {
        "video/mp4"@
    } else if e == "avi".spec_bytes() {
        "video/x-msvideo"@
    } else if e == "mov".spec_bytes() {
        "video/quicktime"@
    } else if e == "wmv".spec_bytes() {
        "video/x-ms-wmv"@
    } else if e == "mp3".spec_bytes() {
        "audio/mpeg"@
    } else if e == "wav".spec_bytes() {
        "audio/wav"@
    } else if e == "ogg".spec_bytes() {
        "audio/ogg"@
    } else if e == "zip".spec_bytes() {
        "application/zip"@
    } else if e == "rar".spec_bytes() {
        "application/x-rar-compressed"@
    } else if e == "7z".spec_bytes() {
        "application/x-7z-compressed"@
    } else if e == "xls".spec_bytes() {
        "application/vnd.ms-excel"@
    } else if e == "xlsx".spec_bytes() {
        "application/vnd.openxmlformats-officedocument.spreadsheetml.sheet"@
    } else if e == "ppt".spec_bytes() {
        "application/vnd.ms-powerpoint"@
    } else if e == "pptx".spec_bytes() {
        "application/vnd.openxmlformats-officedocument.presentationml.presentation"@
    } else {
        "application/octet-stream"@
    }
}

/// The MIME string a path maps to: its extension, ASCII-lowercased, looked
/// up in the table.
pub open spec fn spec_mime_for_path(b: Seq<u8>) -> Seq<char> {
    spec_mime_for_extension(spec_lower(spec_extension(b)))
}

/// ASCII lowercasing of one byte.
fn lower_byte(x: u8) -> (r: u8)
    ensures
        r == spec_lower_byte(x),
{
    if 65 <= x && x <= 90 {
        x + 32
    } else {
        x
    }
}

/// Maps a file path to the MIME type its extension declares. The extension
/// is whatever follows the last '.' (the whole name when there is none),
/// compared ASCII-case-insensitively; unknown extensions give the generic
/// binary type.
pub fn get_mime_type(file_path: &str) -> (r: String)
    ensures
        r@ == spec_mime_for_path(file_path.spec_bytes()),
{
    let bytes = file_path.as_bytes();
    let ghost b = file_path.spec_bytes();
    let n = bytes.len();
    let mut j: usize = n;
    proof {
        assert(b.take(n as int) =~= b);
        assert(spec_extension(b.take(n as int)) + b.skip(n as int) =~= spec_extension(b));
    }
    while j > 0 && bytes[j - 1] != 46u8
        invariant
            n == b.len(),
            bytes@ == b,
            j <= n,
            spec_extension(b) == spec_extension(b.take(j as int)) + b.skip(j as int),
        decreases j,
    {
        proof {
            assert(b.take(j as int).last() == b[j - 1]);
            assert(b.take(j as int).drop_last() =~= b.take(j - 1));
            assert(spec_extension(b.take(j as int)) =~= spec_extension(b.take(j - 1)) + seq![
                b[j - 1],
            ]);
            assert(spec_extension(b.take(j - 1)) + seq![b[j - 1]] + b.skip(j as int) =~= spec_extension(
                b.take(j - 1)) + b.skip(j - 1));
        }
        j -= 1;
    }
    proof {
        if j == 0 {
            assert(b.take(0) =~= Seq::<u8>::empty());
            assert(spec_extension(b) =~= b.skip(0));
        } else {
            assert(b.take(j as int).last() == 46u8);
            assert(spec_extension(b) =~= b.skip(j as int));
        }
    }
    let mut ext: Vec<u8> = Vec::new();
    let mut k: usize = j;
    while k < n
        invariant
            n == b.len(),
            bytes@ == b,
            j <= k <= n,
            ext@ =~= spec_lower(b.skip(j as int)).take(k - j),
        decreases n - k,
    {
        ext.push(lower_byte(bytes[k]));
        proof {
            assert(spec_lower(b.skip(j as int))[k - j] == spec_lower_byte(b[k as int]));
            assert(ext@ =~= spec_lower(b.skip(j as int)).take(k + 1 - j));
        }
        k += 1;
    }
    proof {
        assert(ext@ =~= spec_lower(spec_extension(b)));
    }
    let e = ext.as_slice();
    if bytes_eq(e, "pdf".as_bytes()) {
        String::from_str("application/pdf")
    } else if bytes_eq(e, "doc".as_bytes()) {
        String::from_str("application/msword")
    } else if bytes_eq(e, "docx".as_bytes()) {
        String::from_str("application/vnd.openxmlformats-officedocument.wordprocessingml.document")
    } else if bytes_eq(e, "txt".as_bytes()) {
        String::from_str("text/plain")
    } else if bytes_eq(e, "jpg".as_bytes()) || bytes_eq(e, "jpeg".as_bytes()) {
        String::from_str("image/jpeg")
    } else if bytes_eq(e, "png".as_bytes()) {
        String::from_str("image/png")
    } else if bytes_eq(e, "gif".as_bytes()) {
        String::from_str("image/gif")
    } else if bytes_eq(e, "bmp".as_bytes()) {
        String::from_str("image/bmp")
    } else if bytes_eq(e, "webp".as_bytes()) {
        String::from_str("image/webp")
    } else if bytes_eq(e, "svg".as_bytes()) {
        String::from_str("image/svg+xml")
    } else if bytes_eq(e, "mp4".as_bytes()) {
        String::from_str("video/mp4")
    } else if bytes_eq(e, "avi".as_bytes()) {
        String::from_str("video/x-msvideo")
    } else if bytes_eq(e, "mov".as_bytes()) {
        String::from_str("video/quicktime")
    } else if bytes_eq(e, "wmv".as_bytes()) {
        String::from_str("video/x-ms-wmv")
    } else if bytes_eq(e, "mp3".as_bytes()) {
        String::from_str("audio/mpeg")
    } else if bytes_eq(e, "wav".as_bytes()) {
        String::from_str("audio/wav")
    } else if bytes_eq(e, "ogg".as_bytes()) {
        String::from_str("audio/ogg")
    } else if bytes_eq(e, "zip".as_bytes()) {
        String::from_str("application/zip")
    } else if bytes_eq(e, "rar".as_bytes()) {
        String::from_str("application/x-rar-compressed")
    } else if bytes_eq(e, "7z".as_bytes()) {
        String::from_str("application/x-7z-compressed")
    } else if bytes_eq(e, "xls".as_bytes()) {
        String::from_str("application/vnd.ms-excel")
    } else if bytes_eq(e, "xlsx".as_bytes()) {
        String::from_str("application/vnd.openxmlformats-officedocument.spreadsheetml.sheet")
    } else if bytes_eq(e, "ppt".as_bytes()) {
        String::from_str("application/vnd.ms-powerpoint")
    } else if bytes_eq(e, "pptx".as_bytes()) {
        String::from_str(
            "application/vnd.openxmlformats-officedocument.presentationml.presentation",
        )
    } else {
        String::from_str("application/octet-stream")
    }
}

} // verus!
