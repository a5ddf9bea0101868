//! The remote merge client: request construction and response
//! classification.
//!
//! The library builds the exact multipart request body and classifies the
//! response status; performing the HTTPS POST is the embedding shell's
//! work. Images destined for the remote path are first converted locally
//! into single-page PDF documents.

use vstd::prelude::*;
use vstd::string::{StringSliceAdditionalSpecFns, StringExecFns};
use vstd::utf8::encode_utf8;
use crate::errors::MergeError;
use crate::image_api::{spec_image_decodes, spec_decoded_width, spec_decoded_height};
use crate::pagebuild::image_to_single_page_pdf_bytes;
use crate::raster::MAX_IMAGE_BYTES;
use crate::textbytes::{push_text, push_bytes, push_decimal, spec_decimal};

verus! {

/// The lower-case hexadecimal digit for one value below 16.
pub open spec fn spec_hex_digit(n: u8) -> u8 {
    if n < 10 {
        (48 + n) as u8
    } else {
        (87 + n) as u8
    }
}

/// JSON escaping of one byte of a UTF-8 string: named escapes for quote,
/// backslash and the common control characters, a \u00XX escape for the
/// other control bytes, everything else verbatim.
pub open spec fn spec_json_escape_byte(b: u8) -> Seq<u8> {
    if b == 34 {
        seq![92u8, 34u8]
    } else if b == 92 {
        seq![92u8, 92u8]
    } else if b == 10 {
        seq![92u8, 110u8]
    } else if b == 13 {
        seq![92u8, 114u8]
    } else if b == 9 {
        seq![92u8, 116u8]
    } else if b < 32 {
        seq![92u8, 117u8, 48u8, 48u8, spec_hex_digit(b / 16), spec_hex_digit(b % 16)]
    } else {
        seq![b]
    }
}

/// JSON escaping of a whole byte string.
pub open spec fn spec_json_escape(bs: Seq<u8>) -> Seq<u8>
    decreases bs.len(),
{
    if bs.len() == 0 {
        Seq::empty()
    } else {
        spec_json_escape_byte(bs.first()) + spec_json_escape(bs.drop_first())
    }
}

/// Escaping distributes over appending one byte.
pub proof fn lemma_json_escape_push(bs: Seq<u8>, b: u8)
    ensures
        spec_json_escape(bs.push(b)) == spec_json_escape(bs) + spec_json_escape_byte(b),
    decreases bs.len(),
{
    reveal_with_fuel(spec_json_escape, 3);
    if bs.len() == 0 {
        assert(bs.push(b).first() == b);
        assert(bs.push(b).drop_first() =~= Seq::<u8>::empty());
        assert(spec_json_escape(bs.push(b)) =~= spec_json_escape(bs) + spec_json_escape_byte(b));
    } else {
        assert(bs.push(b).first() == bs.first());
        assert(bs.push(b).drop_first() =~= bs.drop_first().push(b));
        lemma_json_escape_push(bs.drop_first(), b);
        assert(spec_json_escape(bs.push(b)) =~= spec_json_escape(bs) + spec_json_escape_byte(b));
    }
}

/// A JSON string literal for a UTF-8 byte string.
pub open spec fn spec_json_string(bs: Seq<u8>) -> Seq<u8> {
    seq![34u8] + spec_json_escape(bs) + seq![34u8]
}

/// The comma-joined JSON string literals of a list.
pub open spec fn spec_json_items(items: Seq<Seq<u8>>) -> Seq<u8>
    decreases items.len(),
{
    if items.len() == 0 {
        Seq::empty()
    } else if items.len() == 1 {
        spec_json_string(items.first())
    } else {
        spec_json_string(items.first()) + seq![44u8] + spec_json_items(items.drop_first())
    }
}

/// Joining distributes over appending one item.
pub proof fn lemma_json_items_push(items: Seq<Seq<u8>>, x: Seq<u8>)
    ensures
        items.len() == 0 ==> spec_json_items(items.push(x)) == spec_json_string(x),
        items.len() > 0 ==> spec_json_items(items.push(x)) == spec_json_items(items) + seq![44u8]
            + spec_json_string(x),
    decreases items.len(),
{
    reveal_with_fuel(spec_json_items, 3);
    if items.len() == 0 {
        assert(items.push(x).first() == x);
    } else if items.len() == 1 {
        assert(items.push(x).first() == items.first());
        assert(items.push(x).drop_first() =~= items.drop_first().push(x));
        assert(items.push(x).drop_first().len() == 1);
        assert(items.push(x).drop_first().first() == x);
        assert(spec_json_items(items.push(x)) =~= spec_json_items(items) + seq![44u8]
            + spec_json_string(x));
    } else {
        assert(items.push(x).first() == items.first());
        assert(items.push(x).drop_first() =~= items.drop_first().push(x));
        lemma_json_items_push(items.drop_first(), x);
        assert(spec_json_items(items.push(x)) =~= spec_json_items(items) + seq![44u8]
            + spec_json_string(x));
    }
}

/// A JSON array of string literals.
pub open spec fn spec_json_string_array(items: Seq<Seq<u8>>) -> Seq<u8> {
    seq![91u8] + spec_json_items(items) + seq![93u8]
}

/// The UTF-8 byte strings of a list of labels.
pub open spec fn spec_label_bytes(labels: Seq<String>) -> Seq<Seq<u8>> {
    labels.map_values(|s: String| encode_utf8(s@))
}

/// The lower-case hexadecimal digit for one value below 16.
fn hex_digit(n: u8) -> (r: u8)
    requires
        n < 16,
    ensures
        r == spec_hex_digit(n),
{
    if n < 10 {
        48 + n
    } else {
        87 + n
    }
}

/// Appends the JSON string literal of a label.
fn push_json_string(out: &mut Vec<u8>, s: &String)
    ensures
        final(out)@ == old(out)@ + spec_json_string(encode_utf8(s@)),
{
    out.push(34u8);
    let bytes = s.as_str().as_bytes();
    let ghost bs = encode_utf8(s@);
    let n = bytes.len();
    let mut i: usize = 0;
    proof {
        assert(bs.take(0) =~= Seq::<u8>::empty());
    }
    while i < n
        invariant
            n == bs.len(),
            bytes@ == bs,
            i <= n,
            out@ == old(out)@ + seq![34u8] + spec_json_escape(bs.take(i as int)),
        decreases n - i,
    {
        let b = bytes[i];
        if b == 34 {
            out.push(92u8);
            out.push(34u8);
        } else if b == 92 {
            out.push(92u8);
            out.push(92u8);
        } else if b == 10 {
            out.push(92u8);
            out.push(110u8);
        } else if b == 13 {
            out.push(92u8);
            out.push(114u8);
        } else if b == 9 {
            out.push(92u8);
            out.push(116u8);
        } else if b < 32 {
            out.push(92u8);
            out.push(117u8);
            out.push(48u8);
            out.push(48u8);
            out.push(hex_digit(b / 16));
            out.push(hex_digit(b % 16));
        } else {
            out.push(b);
        }
        proof {
            assert(bs.take(i + 1) =~= bs.take(i as int).push(bs[i as int]));
            lemma_json_escape_push(bs.take(i as int), bs[i as int]);
            assert(out@ =~= old(out)@ + seq![34u8] + spec_json_escape(bs.take(i + 1)));
        }
        i += 1;
    }
    out.push(34u8);
    proof {
        assert(bs.take(n as int) =~= bs);
        assert(out@ =~= old(out)@ + spec_json_string(bs));
    }
}

/// Renders an ordered list of labels as a JSON array of strings.
pub fn json_string_array(labels: &Vec<String>) -> (r: Vec<u8>)
    ensures
        r@ == spec_json_string_array(spec_label_bytes(labels@)),
{
    let ghost items = spec_label_bytes(labels@);
    let mut out: Vec<u8> = Vec::new();
    out.push(91u8);
    let n = labels.len();
    let mut i: usize = 0;
    proof {
        assert(items.take(0) =~= Seq::<Seq<u8>>::empty());
    }
    while i < n
        invariant
            n == labels@.len(),
            items == spec_label_bytes(labels@),
            items.len() == n,
            i <= n,
            out@ == seq![91u8] + spec_json_items(items.take(i as int)),
        decreases n - i,
    {
        if i > 0 {
            out.push(44u8);
        }
        push_json_string(&mut out, &labels[i]);
        proof {
            assert(items.take(i + 1) =~= items.take(i as int).push(items[i as int]));
            lemma_json_items_push(items.take(i as int), items[i as int]);
            assert(items[i as int] == encode_utf8(labels@[i as int]@));
            assert(out@ =~= seq![91u8] + spec_json_items(items.take(i + 1)));
        }
        i += 1;
    }
    out.push(93u8);
    proof {
        assert(items.take(n as int) =~= items);
        assert(out@ =~= spec_json_string_array(items));
    }
    out
}

/// One file part of a multipart body: boundary line, disposition header
/// with field name and file name, the PDF content type, the payload.
pub open spec fn spec_file_part(b: Seq<u8>, name: Seq<u8>, filename: Seq<u8>, content: Seq<
    u8,
>) -> Seq<u8> {
    "--".spec_bytes() + b + "\r\nContent-Disposition: form-data; name=\"".spec_bytes() + name
        + "\"; filename=\"".spec_bytes() + filename
        + "\"\r\nContent-Type: application/pdf\r\n\r\n".spec_bytes() + content + "\r\n".spec_bytes()
}

/// One text part of a multipart body.
pub open spec fn spec_text_part(b: Seq<u8>, name: Seq<u8>, content: Seq<u8>) -> Seq<u8> {
    "--".spec_bytes() + b + "\r\nContent-Disposition: form-data; name=\"".spec_bytes() + name
        + "\"\r\n\r\n".spec_bytes() + content + "\r\n".spec_bytes()
}

/// The sequentially numbered additional-document parts, starting at
/// `idx`.
pub open spec fn spec_additional_parts(b: Seq<u8>, parts: Seq<Seq<u8>>, idx: nat) -> Seq<u8>
    decreases parts.len(),
{
    if parts.len() == 0 {
        Seq::empty()
    } else {
        spec_file_part(
            b,
            "additionalPdfs".spec_bytes(),
            "additional-".spec_bytes() + spec_decimal(idx) + ".pdf".spec_bytes(),
            parts.first(),
        ) + spec_additional_parts(b, parts.drop_first(), idx + 1)
    }
}

/// Numbered parts distribute over appending one document.
pub proof fn lemma_additional_parts_push(b: Seq<u8>, parts: Seq<Seq<u8>>, x: Seq<u8>, idx: nat)
    ensures
        spec_additional_parts(b, parts.push(x), idx) == spec_additional_parts(b, parts, idx)
            + spec_file_part(
            b,
            "additionalPdfs".spec_bytes(),
            "additional-".spec_bytes() + spec_decimal(idx + parts.len()) + ".pdf".spec_bytes(),
            x,
        ),
    decreases parts.len(),
{
    reveal_with_fuel(spec_additional_parts, 3);
    if parts.len() == 0 {
        assert(parts.push(x).first() == x);
        assert(parts.push(x).drop_first() =~= Seq::<Seq<u8>>::empty());
        assert(spec_additional_parts(b, parts.push(x), idx) =~= spec_additional_parts(b, parts, idx)
            + spec_file_part(
            b,
            "additionalPdfs".spec_bytes(),
            "additional-".spec_bytes() + spec_decimal(idx + parts.len()) + ".pdf".spec_bytes(),
            x,
        ));
    } else {
        assert(parts.push(x).first() == parts.first());
        assert(parts.push(x).drop_first() =~= parts.drop_first().push(x));
        lemma_additional_parts_push(b, parts.drop_first(), x, idx + 1);
        assert(spec_additional_parts(b, parts.push(x), idx) =~= spec_additional_parts(b, parts, idx)
            + spec_file_part(
            b,
            "additionalPdfs".spec_bytes(),
            "additional-".spec_bytes() + spec_decimal(idx + parts.len()) + ".pdf".spec_bytes(),
            x,
        ));
    }
}

/// The whole multipart body: the base document part, the numbered
/// additional parts, the optional headers field, and the closing boundary.
pub open spec fn spec_multipart_body(
    b: Seq<u8>,
    base: Seq<u8>,
    additionals: Seq<Seq<u8>>,
    labels_json: Option<Seq<u8>>,
) -> Seq<u8> {
    spec_file_part(b, "basePdf".spec_bytes(), "base.pdf".spec_bytes(), base)
        + spec_additional_parts(b, additionals, 1) + (match labels_json {
        Some(j) => spec_text_part(b, "headers".spec_bytes(), j),
        None => Seq::empty(),
    }) + "--".spec_bytes() + b + "--\r\n".spec_bytes()
}

/// Appends one file part.
#[verifier::rlimit(100)]
fn push_file_part(out: &mut Vec<u8>, boundary: &str, name: &str, number: Option<u64>, content: &Vec<
    u8,
>)
    ensures
        number is None ==> final(out)@ == old(out)@ + spec_file_part(
            boundary.spec_bytes(),
            name.spec_bytes(),
            "base.pdf".spec_bytes(),
            content@,
        ),
        number matches Some(k) ==> final(out)@ == old(out)@ + spec_file_part(
            boundary.spec_bytes(),
            name.spec_bytes(),
            "additional-".spec_bytes() + spec_decimal(k as nat) + ".pdf".spec_bytes(),
            content@,
        ),
{
    push_text(out, "--");
    push_text(out, boundary);
    push_text(out, "\r\nContent-Disposition: form-data; name=\"");
    push_text(out, name);
    push_text(out, "\"; filename=\"");
    match number {
        None => push_text(out, "base.pdf"),
        Some(k) => {
            push_text(out, "additional-");
            push_decimal(out, k);
            push_text(out, ".pdf");
        },
    }
    push_text(out, "\"\r\nContent-Type: application/pdf\r\n\r\n");
    push_bytes(out, content.as_slice());
    push_text(out, "\r\n");
    proof {
        match number {
            None => {
                assert(out@ =~= old(out)@ + spec_file_part(
                    boundary.spec_bytes(),
                    name.spec_bytes(),
                    "base.pdf".spec_bytes(),
                    content@,
                ));
            },
            Some(k) => {
                assert(out@ =~= old(out)@ + spec_file_part(
                    boundary.spec_bytes(),
                    name.spec_bytes(),
                    "additional-".spec_bytes() + spec_decimal(k as nat) + ".pdf".spec_bytes(),
                    content@,
                ));
            },
        }
    }
}

/// Builds the multipart request body for the remote merge service: the
/// base PDF as the basePdf part, each additional PDF as a sequentially
/// numbered additionalPdfs part, and, when labels are supplied, a headers
/// field holding them as a JSON array of strings.
#[verifier::rlimit(100)]
pub fn build_multipart_body(
    boundary: &str,
    base: &Vec<u8>,
    additionals: &Vec<Vec<u8>>,
    labels: &Vec<String>,
) -> (r: Vec<u8>)
    ensures
        r@ == spec_multipart_body(
            boundary.spec_bytes(),
            base@,
            additionals@.map_values(|v: Vec<u8>| v@),
            if labels@.len() == 0 {
                None
            } else {
                Some(spec_json_string_array(spec_label_bytes(labels@)))
            },
        ),
{
    let ghost parts = additionals@.map_values(|v: Vec<u8>| v@);
    let mut out: Vec<u8> = Vec::new();
    push_file_part(&mut out, boundary, "basePdf", None, base);
    let ghost head = out@;
    let n = additionals.len();
    let mut i: usize = 0;
    proof {
        assert(parts.take(0) =~= Seq::<Seq<u8>>::empty());
        assert(out@ =~= head + spec_additional_parts(boundary.spec_bytes(), parts.take(0), 1));
    }
    while i < n
        invariant
            n == additionals@.len(),
            parts == additionals@.map_values(|v: Vec<u8>| v@),
            parts.len() == n,
            i <= n,
            out@ == head + spec_additional_parts(boundary.spec_bytes(), parts.take(i as int), 1),
        decreases n - i,
    {
        push_file_part(&mut out, boundary, "additionalPdfs", Some((i as u64) + 1), &additionals[i]);
        proof {
            assert(parts.take(i + 1) =~= parts.take(i as int).push(parts[i as int]));
            lemma_additional_parts_push(boundary.spec_bytes(), parts.take(i as int), parts[i as int], 1);
            assert(parts[i as int] == additionals@[i as int]@);
            assert(1 + parts.take(i as int).len() == (i + 1) as nat);
            assert(out@ =~= head + spec_additional_parts(
                boundary.spec_bytes(),
                parts.take(i + 1),
                1,
            ));
        }
        i += 1;
    }
    proof {
        assert(parts.take(n as int) =~= parts);
    }
    if labels.len() > 0 {
        let json = json_string_array(labels);
        push_text(&mut out, "--");
        push_text(&mut out, boundary);
        push_text(&mut out, "\r\nContent-Disposition: form-data; name=\"");
        push_text(&mut out, "headers");
        push_text(&mut out, "\"\r\n\r\n");
        push_bytes(&mut out, json.as_slice());
        push_text(&mut out, "\r\n");
    }
    push_text(&mut out, "--");
    push_text(&mut out, boundary);
    push_text(&mut out, "--\r\n");
    proof {
        assert(out@ =~= spec_multipart_body(
            boundary.spec_bytes(),
            base@,
            parts,
            if labels@.len() == 0 {
                None
            } else {
                Some(spec_json_string_array(spec_label_bytes(labels@)))
            },
        ));
    }
    out
}

/// The value of the Authorization header: the bearer scheme with the
/// caller's token.
pub fn bearer_header_value(token: &str) -> (r: String)
    ensures
        r@ == "Bearer "@ + token@,
{
    let mut s = String::from_str("Bearer ");
    s.append(token);
    s
}

/// The value of the Content-Type header for a multipart body with this
/// boundary.
pub fn multipart_content_type(boundary: &str) -> (r: String)
    ensures
        r@ == "multipart/form-data; boundary="@ + boundary@,
{
    let mut s = String::from_str("multipart/form-data; boundary=");
    s.append(boundary);
    s
}

/// Classifies the remote service's answer: success bodies are the merged
/// PDF verbatim; 401, 403 and 413 map to their own failure kinds; every
/// other non-success status is a remote service error carrying status and
/// body.
pub fn classify_remote_response(status: u16, body: Vec<u8>) -> (r: Result<Vec<u8>, MergeError>)
    ensures
        status == 401 ==> r == Err::<Vec<u8>, MergeError>(MergeError::Authentication),
        status == 403 ==> r == Err::<Vec<u8>, MergeError>(MergeError::Authorization),
        status == 413 ==> r == Err::<Vec<u8>, MergeError>(MergeError::PayloadTooLarge),
        200 <= status <= 299 ==> (r matches Ok(out) && out@ == body@),
        r is Ok <==> 200 <= status <= 299,
        !(200 <= status <= 299) && status != 401 && status != 403 && status != 413 ==> r == Err::<
            Vec<u8>,
            MergeError,
        >(MergeError::RemoteService(status, body)),
{
    if 200 <= status && status <= 299 {
        Ok(body)
    } else if status == 401 {
        Err(MergeError::Authentication)
    } else if status == 403 {
        Err(MergeError::Authorization)
    } else if status == 413 {
        Err(MergeError::PayloadTooLarge)
    } else {
        Err(MergeError::RemoteService(status, body))
    }
}

/// What the orchestrator should do for a remote merge: either the answer
/// is already at hand, or a request must be sent.
#[derive(Debug)]
pub enum RemotePlan {
    /// No additional documents: the base PDF is the result and no network
    /// call is made.
    Done(Vec<u8>),
    /// The request to send: the multipart body with the Content-Type and
    /// Authorization header values to accompany it.
    Send { body: Vec<u8>, content_type: String, authorization: String },
}

/// Whether an image blob passes the rasterizer.
pub open spec fn spec_image_blob_ok(bs: Seq<u8>) -> bool {
    &&& bs.len() <= MAX_IMAGE_BYTES
    &&& spec_image_decodes(bs)
    &&& spec_decoded_width(bs) >= 1
    &&& spec_decoded_height(bs) >= 1
}

/// The error owed to a failing image blob: the exact value where it is a
/// function of the blob, the kind where the diagnostic text comes from
/// the codec.
pub open spec fn spec_image_blob_error_matches(bs: Seq<u8>, e: MergeError) -> bool {
    if bs.len() > MAX_IMAGE_BYTES {
        e == MergeError::SizeLimit(bs.len() as usize)
    } else {
        e matches MergeError::Decode(_)
    }
}

/// Prepares a remote merge: converts each image blob into a single-page
/// PDF locally, in order, appends the pass-through PDFs, and either short-
/// circuits (no additional documents) or builds the multipart request.
pub fn prepare_remote_merge(
    base_pdf: Vec<u8>,
    image_blobs: &Vec<Vec<u8>>,
    pdf_blobs: &Vec<Vec<u8>>,
    labels: &Vec<String>,
    token: &str,
    boundary: &str,
) -> (r: Result<RemotePlan, MergeError>)
    ensures
        image_blobs@.len() == 0 && pdf_blobs@.len() == 0 ==> (r matches Ok(plan)
            && plan matches RemotePlan::Done(b) && b@ == base_pdf@),
        r matches Err(e) ==> (e matches MergeError::SizeLimit(_)
            || e matches MergeError::Decode(_)),
        forall|i: int|
            0 <= i < image_blobs@.len() && (forall|j: int|
                0 <= j < i ==> spec_image_blob_ok(#[trigger] image_blobs@[j]@))
                && !spec_image_blob_ok(image_blobs@[i]@) ==> (r matches Err(e)
                && spec_image_blob_error_matches(image_blobs@[i]@, e)),
        (forall|i: int| 0 <= i < image_blobs@.len() ==> spec_image_blob_ok(
            #[trigger] image_blobs@[i]@,
        )) ==> r is Ok,
        image_blobs@.len() + pdf_blobs@.len() > 0 ==> (r matches Ok(plan)
            ==> plan is Send),
        r matches Ok(plan) ==> (plan matches RemotePlan::Send { body, content_type, authorization }
            ==> {
            &&& content_type@ == "multipart/form-data; boundary="@ + boundary@
            &&& authorization@ == "Bearer "@ + token@
            &&& exists|imgs: Seq<Seq<u8>>|
                #![trigger imgs.len()]
                imgs.len() == image_blobs@.len() && (forall|t: int|
                    0 <= t < imgs.len() ==> crate::lopdf_api::spec_pdf_parses(#[trigger] imgs[t])
                        && crate::lopdf_api::spec_pdf_page_ids(imgs[t]).len() == 1
                        && crate::lopdf_api::spec_pdf_clean(imgs[t])) && body@
                    == spec_multipart_body(
                    boundary.spec_bytes(),
                    base_pdf@,
                    imgs + pdf_blobs@.map_values(|v: Vec<u8>| v@),
                    if labels@.len() == 0 {
                        None
                    } else {
                        Some(spec_json_string_array(spec_label_bytes(labels@)))
                    },
                )
        }),
{
    let mut additionals: Vec<Vec<u8>> = Vec::new();
    let n = image_blobs.len();
    let mut i: usize = 0;
    while i < n
        invariant
            n == image_blobs@.len(),
            i <= n,
            additionals@.len() == i as int,
            forall|j: int| 0 <= j < i ==> spec_image_blob_ok(#[trigger] image_blobs@[j]@),
            forall|j: int|
                0 <= j < i ==> crate::lopdf_api::spec_pdf_parses(#[trigger] additionals@[j]@)
                    && crate::lopdf_api::spec_pdf_page_ids(additionals@[j]@).len() == 1
                    && crate::lopdf_api::spec_pdf_clean(additionals@[j]@),
        decreases n - i,
    {
        match image_to_single_page_pdf_bytes(&image_blobs[i]) {
            Ok(b) => additionals.push(b),
            Err(e) => {
                return Err(
                    match e {
                        MergeError::Decode(msg) => MergeError::Decode(
                            crate::errors::tag_index("image ", i, msg),
                        ),
                        other => other,
                    },
                );
            },
        }
        i += 1;
    }
    let ghost imgs = additionals@.map_values(|v: Vec<u8>| v@);
    let mut k: usize = 0;
    let m = pdf_blobs.len();
    while k < m
        invariant
            m == pdf_blobs@.len(),
            k <= m,
            additionals@.len() == imgs.len() + k as int,
            imgs.len() == image_blobs@.len(),
            forall|j: int| 0 <= j < imgs.len() ==> #[trigger] additionals@[j]@ == imgs[j],
            forall|j: int|
                0 <= j < imgs.len() ==> crate::lopdf_api::spec_pdf_parses(#[trigger] imgs[j])
                    && crate::lopdf_api::spec_pdf_page_ids(imgs[j]).len() == 1
                    && crate::lopdf_api::spec_pdf_clean(imgs[j]),
            forall|j: int|
                0 <= j < k ==> #[trigger] additionals@[imgs.len() + j]@ == pdf_blobs@[j]@,
        decreases m - k,
    {
        let mut copy: Vec<u8> = Vec::new();
        push_bytes(&mut copy, pdf_blobs[k].as_slice());
        additionals.push(copy);
        k += 1;
    }
    if additionals.len() == 0 {
        return Ok(RemotePlan::Done(base_pdf));
    }
    let body = build_multipart_body(boundary, &base_pdf, &additionals, labels);
    let content_type = multipart_content_type(boundary);
    let authorization = bearer_header_value(token);
    proof {
        let pviews = pdf_blobs@.map_values(|v: Vec<u8>| v@);
        let av = additionals@.map_values(|v: Vec<u8>| v@);
        assert forall|t: int| 0 <= t < av.len() implies av[t] == (imgs + pviews)[t] by {
            if t < imgs.len() {
                assert(additionals@[t]@ == imgs[t]);
            } else {
                assert(additionals@[imgs.len() + (t - imgs.len())]@ == pdf_blobs@[t - imgs.len()]@);
            }
        }
        assert(av =~= imgs + pviews);
        assert(imgs.len() == image_blobs@.len() && body@ == spec_multipart_body(
            boundary.spec_bytes(),
            base_pdf@,
            imgs + pviews,
            if labels@.len() == 0 {
                None
            } else {
                Some(spec_json_string_array(spec_label_bytes(labels@)))
            },
        ));
    }
    Ok(RemotePlan::Send { body, content_type, authorization })
}

} // verus!
