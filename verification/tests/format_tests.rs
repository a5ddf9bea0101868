use pdf_assembly::textbytes::{push_decimal, push_mpt_text};
use pdf_assembly::remote::{bearer_header_value, build_multipart_body, json_string_array,
    multipart_content_type};

#[test]
fn decimal_digits_render_exactly() {
    let mut v: Vec<u8> = Vec::new();
    push_decimal(&mut v, 0);
    push_decimal(&mut v, 7);
    push_decimal(&mut v, 42);
    push_decimal(&mut v, 1900);
    assert_eq!(v, b"07421900".to_vec());
}

#[test]
fn millipoints_render_as_points_with_three_decimals() {
    let mut v: Vec<u8> = Vec::new();
    push_mpt_text(&mut v, 510236);
    assert_eq!(v, b"510.236".to_vec());
    let mut w: Vec<u8> = Vec::new();
    push_mpt_text(&mut w, 42520);
    assert_eq!(w, b"42.520".to_vec());
    let mut z: Vec<u8> = Vec::new();
    push_mpt_text(&mut z, 5);
    assert_eq!(z, b"0.005".to_vec());
}

#[test]
fn json_array_escapes_labels() {
    let labels: Vec<String> = vec![
        String::from("plain"),
        String::from("with \"quotes\""),
        String::from("line\nbreak\tand\\slash"),
        String::from("control\u{1}byte"),
    ];
    let json = json_string_array(&labels);
    let expected =
        "[\"plain\",\"with \\\"quotes\\\"\",\"line\\nbreak\\tand\\\\slash\",\"control\\u0001byte\"]";
    assert_eq!(json, expected.as_bytes().to_vec());
}

#[test]
fn empty_label_list_is_an_empty_array() {
    let labels: Vec<String> = Vec::new();
    assert_eq!(json_string_array(&labels), b"[]".to_vec());
}

#[test]
fn header_values_carry_token_and_boundary() {
    assert_eq!(bearer_header_value("tok123"), "Bearer tok123");
    assert_eq!(
        multipart_content_type("XbOuNdX"),
        "multipart/form-data; boundary=XbOuNdX"
    );
}

#[test]
fn multipart_body_is_byte_exact() {
    let base: Vec<u8> = vec![0x25, 0x50];
    let additionals: Vec<Vec<u8>> = vec![vec![1, 2], vec![3]];
    let labels: Vec<String> = vec![String::from("doc1")];
    let body = build_multipart_body("XYZ", &base, &additionals, &labels);
    let mut expected: Vec<u8> = Vec::new();
    expected.extend_from_slice(
        b"--XYZ\r\nContent-Disposition: form-data; name=\"basePdf\"; filename=\"base.pdf\"\r\nContent-Type: application/pdf\r\n\r\n",
    );
    expected.extend_from_slice(&[0x25, 0x50]);
    expected.extend_from_slice(
        b"\r\n--XYZ\r\nContent-Disposition: form-data; name=\"additionalPdfs\"; filename=\"additional-1.pdf\"\r\nContent-Type: application/pdf\r\n\r\n",
    );
    expected.extend_from_slice(&[1, 2]);
    expected.extend_from_slice(
        b"\r\n--XYZ\r\nContent-Disposition: form-data; name=\"additionalPdfs\"; filename=\"additional-2.pdf\"\r\nContent-Type: application/pdf\r\n\r\n",
    );
    expected.extend_from_slice(&[3]);
    expected.extend_from_slice(
        b"\r\n--XYZ\r\nContent-Disposition: form-data; name=\"headers\"\r\n\r\n[\"doc1\"]\r\n",
    );
    expected.extend_from_slice(b"--XYZ--\r\n");
    assert_eq!(body, expected);
}

#[test]
fn multipart_body_without_labels_has_no_headers_field() {
    let base: Vec<u8> = vec![9];
    let additionals: Vec<Vec<u8>> = Vec::new();
    let labels: Vec<String> = Vec::new();
    let body = build_multipart_body("B7", &base, &additionals, &labels);
    let mut expected: Vec<u8> = Vec::new();
    expected.extend_from_slice(
        b"--B7\r\nContent-Disposition: form-data; name=\"basePdf\"; filename=\"base.pdf\"\r\nContent-Type: application/pdf\r\n\r\n",
    );
    expected.extend_from_slice(&[9]);
    expected.extend_from_slice(b"\r\n--B7--\r\n");
    assert_eq!(body, expected);
}
