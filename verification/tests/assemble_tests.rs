use pdf_assembly::assemble::{assemble, assemble_remote_prepare, resolve_documents,
    StoredDocument};
use pdf_assembly::errors::MergeError;
use pdf_assembly::remote::RemotePlan;

fn tiny_pdf(tag: i64) -> Vec<u8> {
    let mut doc = lopdf::Document::with_version("1.5");
    let mut page = lopdf::Dictionary::new();
    page.set("Type", lopdf::Object::Name(b"Page".to_vec()));
    page.set(
        "MediaBox",
        lopdf::Object::Array(vec![
            lopdf::Object::Integer(0),
            lopdf::Object::Integer(0),
            lopdf::Object::Integer(tag),
            lopdf::Object::Integer(842),
        ]),
    );
    let pid = doc.add_object(lopdf::Object::Dictionary(page));
    let mut pages = lopdf::Dictionary::new();
    pages.set("Type", lopdf::Object::Name(b"Pages".to_vec()));
    pages.set("Count", lopdf::Object::Integer(1));
    pages.set("Kids", lopdf::Object::Array(vec![lopdf::Object::Reference(pid)]));
    let pages_id = doc.add_object(lopdf::Object::Dictionary(pages));
    if let Ok(lopdf::Object::Dictionary(d)) = doc.get_object_mut(pid) {
        d.set("Parent", lopdf::Object::Reference(pages_id));
    }
    let mut catalog = lopdf::Dictionary::new();
    catalog.set("Type", lopdf::Object::Name(b"Catalog".to_vec()));
    catalog.set("Pages", lopdf::Object::Reference(pages_id));
    let cat_id = doc.add_object(lopdf::Object::Dictionary(catalog));
    doc.trailer.set("Root", lopdf::Object::Reference(cat_id));
    let mut out: Vec<u8> = Vec::new();
    doc.save_to(&mut std::io::Cursor::new(&mut out)).unwrap();
    out
}

fn store_with_two_pdfs() -> Vec<StoredDocument> {
    vec![
        StoredDocument {
            id: 1,
            name: String::from("first"),
            mime_type: String::from("application/pdf"),
            data: tiny_pdf(111),
        },
        StoredDocument {
            id: 2,
            name: String::from("second"),
            mime_type: String::from("application/pdf"),
            data: tiny_pdf(222),
        },
    ]
}

#[test]
fn missing_document_aborts_the_whole_assembly() {
    let store = store_with_two_pdfs();
    let base = tiny_pdf(5);
    let r = assemble(base, &vec![1, 2, 999], &store);
    assert_eq!(r, Err(MergeError::DocumentNotFound(999)));
}

#[test]
fn invalid_base_fails_before_resolution() {
    let store = store_with_two_pdfs();
    let r = assemble(b"junk".to_vec(), &vec![1], &store);
    assert_eq!(r, Err(MergeError::InvalidBasePdf));
}

#[test]
fn no_documents_returns_the_base_unchanged() {
    let store = store_with_two_pdfs();
    let base = tiny_pdf(5);
    let r = assemble(base.clone(), &Vec::new(), &store).unwrap();
    assert_eq!(r, base);
}

#[test]
fn assembly_appends_resolved_documents_in_id_order() {
    let store = store_with_two_pdfs();
    let base = tiny_pdf(5);
    let out = assemble(base, &vec![2, 1], &store).unwrap();
    let doc = lopdf::Document::load_mem(&out).unwrap();
    let mut tags: Vec<i64> = Vec::new();
    for (_, pid) in doc.get_pages() {
        let page = doc.get_dictionary(pid).unwrap();
        if let Ok(lopdf::Object::Array(items)) = page.get(b"MediaBox") {
            if let lopdf::Object::Integer(t) = items[2] {
                tags.push(t);
            }
        }
    }
    assert_eq!(tags, vec![5, 222, 111]);
}

#[test]
fn resolution_reports_each_first_match() {
    let store = store_with_two_pdfs();
    let r = resolve_documents(&store, &vec![2, 1, 2]).unwrap();
    assert_eq!(r, vec![1, 0, 1]);
}

#[test]
fn remote_preparation_validates_the_base() {
    let store = store_with_two_pdfs();
    let r = assemble_remote_prepare(b"junk".to_vec(), &vec![1], &store, "t", "B");
    assert_eq!(
        match r {
            Err(e) => e,
            Ok(_) => panic!("an invalid base must be refused"),
        },
        MergeError::InvalidBasePdf
    );
}

#[test]
fn remote_preparation_without_documents_short_circuits() {
    let store = store_with_two_pdfs();
    let base = tiny_pdf(5);
    match assemble_remote_prepare(base.clone(), &Vec::new(), &store, "t", "B").unwrap() {
        RemotePlan::Done(b) => assert_eq!(b, base),
        RemotePlan::Send { .. } => panic!("nothing should be sent without documents"),
    }
}

#[test]
fn remote_preparation_reports_missing_documents() {
    let store = store_with_two_pdfs();
    let base = tiny_pdf(5);
    let r = assemble_remote_prepare(base, &vec![7], &store, "t", "B");
    assert_eq!(
        match r {
            Err(e) => e,
            Ok(_) => panic!("a missing id must be refused"),
        },
        MergeError::DocumentNotFound(7)
    );
}

#[test]
fn remote_preparation_groups_documents_and_labels() {
    let mut store = store_with_two_pdfs();
    let img = image::RgbImage::from_pixel(6, 4, image::Rgb([1u8, 2u8, 3u8]));
    let mut png: Vec<u8> = Vec::new();
    img.write_to(&mut std::io::Cursor::new(&mut png), image::ImageFormat::Png)
        .unwrap();
    store.push(StoredDocument {
        id: 3,
        name: String::from("picture"),
        mime_type: String::from("image/png"),
        data: png,
    });
    let base = tiny_pdf(5);
    match assemble_remote_prepare(base, &vec![1, 3], &store, "tok", "BB").unwrap() {
        RemotePlan::Done(_) => panic!("a request should be prepared"),
        RemotePlan::Send { body, content_type, authorization } => {
            assert_eq!(authorization, "Bearer tok");
            assert_eq!(content_type, "multipart/form-data; boundary=BB");
            let text = String::from_utf8_lossy(&body).into_owned();
            // the image-derived part comes first, so its label leads
            assert!(text.contains("[\"picture\",\"first\"]"));
            assert!(text.contains("filename=\"additional-1.pdf\""));
            assert!(text.contains("filename=\"additional-2.pdf\""));
        },
    }
}

#[test]
fn unsupported_stored_document_fails_remote_preparation() {
    let mut store = store_with_two_pdfs();
    store.push(StoredDocument {
        id: 9,
        name: String::from("notes"),
        mime_type: String::from("text/plain"),
        data: b"hello".to_vec(),
    });
    let base = tiny_pdf(5);
    let r = assemble_remote_prepare(base, &vec![9], &store, "t", "B");
    assert_eq!(
        match r {
            Err(e) => e,
            Ok(_) => panic!("an unsupported type must be refused"),
        },
        MergeError::UnsupportedMimeType(String::from("text/plain"))
    );
}
