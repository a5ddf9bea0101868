use pdf_assembly::errors::MergeError;
use pdf_assembly::remote::{classify_remote_response, prepare_remote_merge, RemotePlan};

#[test]
fn status_401_maps_to_authentication_error() {
    let r = classify_remote_response(401, b"denied".to_vec());
    assert_eq!(r, Err(MergeError::Authentication));
}

#[test]
fn status_403_maps_to_authorization_error() {
    let r = classify_remote_response(403, Vec::new());
    assert_eq!(r, Err(MergeError::Authorization));
}

#[test]
fn status_413_maps_to_payload_too_large() {
    let r = classify_remote_response(413, Vec::new());
    assert_eq!(r, Err(MergeError::PayloadTooLarge));
}

#[test]
fn other_failures_carry_status_and_body() {
    let r = classify_remote_response(500, b"boom".to_vec());
    assert_eq!(r, Err(MergeError::RemoteService(500, b"boom".to_vec())));
}

#[test]
fn success_returns_the_body_verbatim() {
    let r = classify_remote_response(200, vec![1, 2, 3]);
    assert_eq!(r, Ok(vec![1, 2, 3]));
    let r2 = classify_remote_response(204, Vec::new());
    assert_eq!(r2, Ok(Vec::new()));
}

#[test]
fn no_additional_documents_short_circuits() {
    let base: Vec<u8> = vec![7, 7, 7];
    let images: Vec<Vec<u8>> = Vec::new();
    let pdfs: Vec<Vec<u8>> = Vec::new();
    let labels: Vec<String> = Vec::new();
    match prepare_remote_merge(base.clone(), &images, &pdfs, &labels, "tok", "BND").unwrap() {
        RemotePlan::Done(b) => assert_eq!(b, base),
        RemotePlan::Send { .. } => panic!("no request should be prepared without documents"),
    }
}

#[test]
fn prepared_request_carries_headers_and_parts() {
    let base: Vec<u8> = vec![0x25, 0x50, 0x44, 0x46];
    let images: Vec<Vec<u8>> = Vec::new();
    let pdfs: Vec<Vec<u8>> = vec![vec![0x41, 0x42]];
    let labels: Vec<String> = vec![String::from("attachment")];
    match prepare_remote_merge(base, &images, &pdfs, &labels, "secret", "BND").unwrap() {
        RemotePlan::Done(_) => panic!("a request should be prepared"),
        RemotePlan::Send { body, content_type, authorization } => {
            assert_eq!(authorization, "Bearer secret");
            assert_eq!(content_type, "multipart/form-data; boundary=BND");
            let text = String::from_utf8_lossy(&body).into_owned();
            assert!(text.contains("name=\"basePdf\""));
            assert!(text.contains("filename=\"additional-1.pdf\""));
            assert!(text.contains("name=\"headers\""));
            assert!(text.contains("[\"attachment\"]"));
            assert!(text.ends_with("--BND--\r\n"));
        },
    }
}

#[test]
fn undecodable_image_blob_fails_preparation() {
    let images: Vec<Vec<u8>> = vec![b"not an image".to_vec()];
    let pdfs: Vec<Vec<u8>> = Vec::new();
    let labels: Vec<String> = Vec::new();
    match prepare_remote_merge(vec![1], &images, &pdfs, &labels, "t", "B") {
        Err(MergeError::Decode(_)) => {},
        other => panic!("expected a decode failure, got {:?}", other),
    }
}
