use pdf_assembly::errors::MergeError;
use pdf_assembly::merge::{merge_mixed_to_pdf, MergeSource};
use pdf_assembly::pagebuild::image_to_single_page_pdf_bytes;
use pdf_assembly::raster::{rasterize, MAX_IMAGE_BYTES};

/// Builds a PDF whose pages are tagged by their MediaBox width, so page
/// order can be read back after a merge.
fn make_tagged_pdf(tags: &[i64]) -> Vec<u8> {
    let mut doc = lopdf::Document::with_version("1.5");
    let mut page_ids: Vec<lopdf::ObjectId> = Vec::new();
    for &t in tags {
        let content = lopdf::Stream::new(lopdf::Dictionary::new(), Vec::new());
        let cid = doc.add_object(lopdf::Object::Stream(content));
        let rid = doc.add_object(lopdf::Object::Dictionary(lopdf::Dictionary::new()));
        let mut page = lopdf::Dictionary::new();
        page.set("Type", lopdf::Object::Name(b"Page".to_vec()));
        page.set(
            "MediaBox",
            lopdf::Object::Array(vec![
                lopdf::Object::Integer(0),
                lopdf::Object::Integer(0),
                lopdf::Object::Integer(t),
                lopdf::Object::Integer(842),
            ]),
        );
        page.set("Resources", lopdf::Object::Reference(rid));
        page.set("Contents", lopdf::Object::Reference(cid));
        page_ids.push(doc.add_object(lopdf::Object::Dictionary(page)));
    }
    let mut pages = lopdf::Dictionary::new();
    pages.set("Type", lopdf::Object::Name(b"Pages".to_vec()));
    pages.set("Count", lopdf::Object::Integer(tags.len() as i64));
    pages.set(
        "Kids",
        lopdf::Object::Array(page_ids.iter().map(|id| lopdf::Object::Reference(*id)).collect()),
    );
    let pages_id = doc.add_object(lopdf::Object::Dictionary(pages));
    for pid in &page_ids {
        if let Ok(lopdf::Object::Dictionary(d)) = doc.get_object_mut(*pid) {
            d.set("Parent", lopdf::Object::Reference(pages_id));
        }
    }
    let mut catalog = lopdf::Dictionary::new();
    catalog.set("Type", lopdf::Object::Name(b"Catalog".to_vec()));
    catalog.set("Pages", lopdf::Object::Reference(pages_id));
    let cat_id = doc.add_object(lopdf::Object::Dictionary(catalog));
    doc.trailer.set("Root", lopdf::Object::Reference(cat_id));
    let mut out: Vec<u8> = Vec::new();
    doc.save_to(&mut std::io::Cursor::new(&mut out)).unwrap();
    out
}

/// Reads back the MediaBox width tag of every page, in page order.
fn read_tags(pdf: &[u8]) -> Vec<i64> {
    let doc = lopdf::Document::load_mem(pdf).unwrap();
    let mut tags: Vec<i64> = Vec::new();
    for (_, pid) in doc.get_pages() {
        let page = doc.get_dictionary(pid).unwrap();
        let mb = page.get(b"MediaBox").unwrap();
        if let lopdf::Object::Array(items) = mb {
            if let lopdf::Object::Integer(t) = items[2] {
                tags.push(t);
            }
        }
    }
    tags
}

fn make_png(w: u32, h: u32) -> Vec<u8> {
    let img = image::RgbImage::from_pixel(w, h, image::Rgb([120u8, 140u8, 160u8]));
    let mut buf: Vec<u8> = Vec::new();
    img.write_to(&mut std::io::Cursor::new(&mut buf), image::ImageFormat::Png)
        .unwrap();
    buf
}

fn pdf_source(data: Vec<u8>) -> MergeSource {
    MergeSource { mime_type: String::from("application/pdf"), data }
}

#[test]
fn empty_source_list_is_rejected() {
    let sources: Vec<MergeSource> = Vec::new();
    assert_eq!(merge_mixed_to_pdf(&sources), Err(MergeError::EmptyInput));
}

#[test]
fn unsupported_mime_type_aborts_before_other_sources() {
    let sources = vec![
        MergeSource { mime_type: String::from("text/plain"), data: b"hello".to_vec() },
        MergeSource { mime_type: String::from("image/png"), data: b"not an image".to_vec() },
    ];
    assert_eq!(
        merge_mixed_to_pdf(&sources),
        Err(MergeError::UnsupportedMimeType(String::from("text/plain")))
    );
}

#[test]
fn single_pdf_source_returns_identical_bytes() {
    let pdf = make_tagged_pdf(&[300]);
    let sources = vec![pdf_source(pdf.clone())];
    let out = merge_mixed_to_pdf(&sources).unwrap();
    assert_eq!(out, pdf);
}

#[test]
fn merged_pages_keep_input_order() {
    let a = make_tagged_pdf(&[101, 102]);
    let b = make_tagged_pdf(&[201]);
    let c = make_tagged_pdf(&[301, 302, 303]);
    let sources = vec![pdf_source(a), pdf_source(b), pdf_source(c)];
    let out = merge_mixed_to_pdf(&sources).unwrap();
    assert_eq!(read_tags(&out), vec![101, 102, 201, 301, 302, 303]);
}

#[test]
fn image_source_contributes_exactly_one_page() {
    let a = make_tagged_pdf(&[401, 402]);
    let png = make_png(12, 9);
    let sources = vec![
        pdf_source(a),
        MergeSource { mime_type: String::from("image/png"), data: png },
    ];
    let out = merge_mixed_to_pdf(&sources).unwrap();
    let doc = lopdf::Document::load_mem(&out).unwrap();
    assert_eq!(doc.get_pages().len(), 3);
    assert_eq!(read_tags(&out), vec![401, 402, 595]);
}

#[test]
fn x_pdf_mime_type_is_accepted() {
    let pdf = make_tagged_pdf(&[77]);
    let sources = vec![MergeSource {
        mime_type: String::from("application/x-pdf"),
        data: pdf.clone(),
    }];
    assert_eq!(merge_mixed_to_pdf(&sources).unwrap(), pdf);
}

#[test]
fn first_failure_wins_over_later_sources() {
    let good = make_tagged_pdf(&[1]);
    let sources = vec![
        pdf_source(good),
        MergeSource { mime_type: String::from("audio/mpeg"), data: b"x".to_vec() },
        pdf_source(b"broken".to_vec()),
    ];
    assert_eq!(
        merge_mixed_to_pdf(&sources),
        Err(MergeError::UnsupportedMimeType(String::from("audio/mpeg")))
    );
}

#[test]
fn invalid_pdf_payload_is_rejected() {
    let sources = vec![pdf_source(b"not a pdf at all".to_vec())];
    match merge_mixed_to_pdf(&sources) {
        Err(MergeError::InvalidPdf(msg)) => {
            assert!(msg.starts_with("source 0: "), "diagnostic names the source: {}", msg);
        },
        other => panic!("expected an invalid-PDF failure, got {:?}", other),
    }
}

#[test]
fn undecodable_image_is_rejected() {
    let sources = vec![MergeSource {
        mime_type: String::from("image/png"),
        data: b"garbage bytes".to_vec(),
    }];
    match merge_mixed_to_pdf(&sources) {
        Err(MergeError::Decode(msg)) => {
            assert!(msg.starts_with("source 0: "), "diagnostic names the source: {}", msg);
        },
        other => panic!("expected a decode failure, got {:?}", other),
    }
}

#[test]
fn oversized_image_blob_is_rejected_before_decoding() {
    let blob = vec![0u8; MAX_IMAGE_BYTES + 1];
    let sources = vec![MergeSource { mime_type: String::from("image/png"), data: blob }];
    assert_eq!(
        merge_mixed_to_pdf(&sources),
        Err(MergeError::SizeLimit(MAX_IMAGE_BYTES + 1))
    );
}

#[test]
fn oversized_blob_fails_rasterizer_for_any_content() {
    let blob = vec![0u8; MAX_IMAGE_BYTES + 7];
    assert_eq!(
        rasterize(&blob),
        Err(MergeError::SizeLimit(MAX_IMAGE_BYTES + 7))
    );
}

#[test]
fn large_image_is_downsampled_to_the_pixel_bound() {
    let png = make_png(4000, 3000);
    let raster = rasterize(&png).unwrap();
    assert_eq!(raster.width, 1920);
    assert_eq!(raster.height, 1440);
}

#[test]
fn small_image_keeps_its_dimensions() {
    let png = make_png(640, 480);
    let raster = rasterize(&png).unwrap();
    assert_eq!(raster.width, 640);
    assert_eq!(raster.height, 480);
}

#[test]
fn image_page_places_the_image_with_the_computed_transform() {
    let png = make_png(10, 8);
    let out = image_to_single_page_pdf_bytes(&png).unwrap();
    let doc = lopdf::Document::load_mem(&out).unwrap();
    let pages = doc.get_pages();
    assert_eq!(pages.len(), 1);
    let (_, pid) = pages.into_iter().next().unwrap();
    let content = doc.get_page_content(pid);
    // the reader joins content streams with an extra newline
    assert_eq!(
        String::from_utf8(content).unwrap().trim_end(),
        "q\n510.236 0 0 408.188 42.520 216.851 cm\n/Im1 Do\nQ"
    );
    let page = doc.get_dictionary(pid).unwrap();
    let resources_ref = page.get(b"Resources").unwrap();
    if let lopdf::Object::Reference(rid) = resources_ref {
        let resources = doc.get_dictionary(*rid).unwrap();
        assert!(resources.has(b"XObject"));
    } else {
        panic!("page resources should be an indirect reference");
    }
}
