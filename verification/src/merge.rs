//! The local PDF merger: classification, validation, and splicing.
//!
//! Each source is classified by its declared MIME type before any merging
//! side effect: images become single-page PDF documents, PDF payloads are
//! validated by a full parse, anything else aborts the call. A single
//! resulting document is returned unchanged; several are spliced through
//! the object-graph arena.

use vstd::prelude::*;
use crate::errors::MergeError;
use crate::mime::{spec_is_image_mime, spec_is_pdf_mime, spec_mime_supported, is_image_mime,
    is_pdf_mime};
use crate::raster::MAX_IMAGE_BYTES;
use crate::image_api::{spec_image_decodes, spec_decoded_width, spec_decoded_height};
use crate::lopdf_api::{spec_pdf_parses, spec_pdf_page_ids, spec_pdf_page_objects, spec_pdf_clean,
    spec_doc_page_ids, spec_doc_page_objects, spec_doc_clean, spec_page_dict, spec_writable,
    load_pdf, page_ids, get_object, dict_entry_reference, pdf_error_message};
use crate::graph::{SourcePage, ParsedSource, PdfNode, build_merged_graph, spec_sources_paged,
    spec_sources_clean, spec_total_pages, spec_flat_pages, spec_pages_match, spec_page_matches,
    lemma_flat_pages_count};
use vstd::string::StringExecFns;
use crate::pagebuild::image_to_single_page_pdf_bytes;
use crate::emit::emit_graph;
use crate::textbytes::push_bytes;

verus! {

/// The merger's unit of work: a declared MIME type with a byte payload.
pub struct MergeSource {
    pub mime_type: String,
    pub data: Vec<u8>,
}

/// A file read into memory: its bytes and the MIME type its name declares.
pub struct FileBlob {
    data: Vec<u8>,
    mime_type: String,
}

impl FileBlob {
    /// The bytes of the blob.
    pub closed spec fn spec_data(&self) -> Seq<u8> {
        self.data@
    }

    /// The declared MIME type of the blob.
    pub closed spec fn spec_mime_type(&self) -> Seq<char> {
        self.mime_type@
    }

    /// Packs file contents with the MIME type its name declares.
    pub fn new(data: Vec<u8>, mime_type: String) -> (r: FileBlob)
        ensures
            r.spec_data() == data@,
            r.spec_mime_type() == mime_type@,
    {
        FileBlob { data, mime_type }
    }

    /// The bytes of the blob.
    pub fn data(&self) -> (r: &Vec<u8>)
        ensures
            r@ == self.spec_data(),
    {
        &self.data
    }

    /// The declared MIME type of the blob.
    pub fn mime_type(&self) -> (r: &String)
        ensures
            r@ == self.spec_mime_type(),
    {
        &self.mime_type
    }
}

/// Whether one source passes classification: a supported MIME type and a
/// payload its class accepts.
pub open spec fn spec_source_ok(s: MergeSource) -> bool {
    if spec_is_image_mime(s.mime_type@) {
        &&& s.data@.len() <= MAX_IMAGE_BYTES
        &&& spec_image_decodes(s.data@)
        &&& spec_decoded_width(s.data@) >= 1
        &&& spec_decoded_height(s.data@) >= 1
    } else if spec_is_pdf_mime(s.mime_type@) {
        spec_pdf_parses(s.data@)
    } else {
        false
    }
}

/// The error that classification owes a failing source: the exact value
/// where it is a function of the source, the kind where the diagnostic
/// text comes from the codec.
pub open spec fn spec_source_error_matches(s: MergeSource, e: MergeError) -> bool {
    if !spec_mime_supported(s.mime_type@) {
        e == MergeError::UnsupportedMimeType(s.mime_type)
    } else if spec_is_image_mime(s.mime_type@) {
        if s.data@.len() > MAX_IMAGE_BYTES {
            e == MergeError::SizeLimit(s.data@.len() as usize)
        } else {
            e matches MergeError::Decode(_)
        }
    } else {
        e matches MergeError::InvalidPdf(_)
    }
}

/// Every source before position `i` passes classification.
pub open spec fn spec_prefix_ok(ss: Seq<MergeSource>, i: int) -> bool {
    forall|j: int| 0 <= j < i ==> spec_source_ok(ss[j])
}
/// Parses one PDF byte blob and extracts its pages in traversal order,
/// each together with the targets of its direct Resources and Contents
/// references, when those entries are indirect references that resolve.
pub fn parse_pdf_source(bytes: &[u8]) -> (r: Result<ParsedSource, MergeError>)
    ensures
        r is Ok <==> spec_pdf_parses(bytes@),
        r matches Ok(ps) ==> {
            &&& ps.pages@.len() == spec_pdf_page_ids(bytes@).len()
            &&& spec_pdf_page_objects(bytes@).len() == spec_pdf_page_ids(bytes@).len()
            &&& forall|k: int|
                0 <= k < ps.pages@.len() ==> (#[trigger] ps.pages@[k]).payload
                    == spec_pdf_page_objects(bytes@)[k] && spec_page_dict(ps.pages@[k].payload)
            &&& (spec_pdf_clean(bytes@) ==> forall|k: int|
                0 <= k < ps.pages@.len() ==> spec_writable((#[trigger] ps.pages@[k]).payload) && (
                ps.pages@[k].resources matches Some(o) ==> spec_writable(o)) && (
                ps.pages@[k].contents matches Some(o) ==> spec_writable(o)))
        },
        r matches Err(e) ==> e matches MergeError::InvalidPdf(_),
{
    match load_pdf(bytes) {
        Err(e) => Err(MergeError::InvalidPdf(pdf_error_message(&e))),
        Ok(doc) => {
            let ids = page_ids(&doc);
            let mut pages: Vec<SourcePage> = Vec::new();
            let mut i: usize = 0;
            while i < ids.len()
                invariant
                    pages@.len() == i as int,
                    i <= ids@.len(),
                    ids@ == spec_doc_page_ids(doc),
                    spec_doc_page_objects(doc).len() == ids@.len(),
                    spec_doc_page_objects(doc) == spec_pdf_page_objects(bytes@),
                    spec_doc_clean(doc) == spec_pdf_clean(bytes@),
                    forall|k: int|
                        0 <= k < i ==> (#[trigger] pages@[k]).payload == spec_doc_page_objects(
                            doc,
                        )[k] && spec_page_dict(pages@[k].payload),
                    spec_doc_clean(doc) ==> forall|k: int|
                        0 <= k < i ==> spec_writable((#[trigger] pages@[k]).payload) && (
                        pages@[k].resources matches Some(o) ==> spec_writable(o)) && (
                        pages@[k].contents matches Some(o) ==> spec_writable(o)),
                decreases ids@.len() - i,
            {
                proof {
                    assert(spec_doc_page_ids(doc)[i as int] == ids@[i as int]);
                    assert(spec_doc_page_ids(doc).contains(ids@[i as int]));
                }
                let payload = match get_object(&doc, ids[i]) {
                    Ok(o) => o,
                    Err(e) => {
                        return Err(MergeError::InvalidPdf(pdf_error_message(&e)));
                    },
                };
                proof {
                    assert(payload == spec_doc_page_objects(doc)[i as int]);
                }
                let resources = match dict_entry_reference(&payload, "Resources") {
                    Some(rid) => match get_object(&doc, rid) {
                        Ok(o) => Some(o),
                        Err(_) => None,
                    },
                    None => None,
                };
                let contents = match dict_entry_reference(&payload, "Contents") {
                    Some(cid) => match get_object(&doc, cid) {
                        Ok(o) => Some(o),
                        Err(_) => None,
                    },
                    None => None,
                };
                pages.push(SourcePage { payload, resources, contents });
                i += 1;
            }
            Ok(ParsedSource { pages })
        },
    }
}

/// How many pages one classified source contributes to the output: one
/// page for an image, the payload's own page count for a PDF.
pub open spec fn spec_source_page_contribution(s: MergeSource) -> int {
    if spec_is_image_mime(s.mime_type@) {
        1
    } else if spec_is_pdf_mime(s.mime_type@) {
        spec_pdf_page_ids(s.data@).len() as int
    } else {
        0
    }
}

/// The page count the merged output owes an ordered source list.
pub open spec fn spec_total_source_pages(ss: Seq<MergeSource>) -> int
    decreases ss.len(),
{
    if ss.len() == 0 {
        0
    } else {
        spec_source_page_contribution(ss.first()) + spec_total_source_pages(ss.drop_first())
    }
}

/// Every PDF-typed source re-serializes cleanly through the library (the
/// ordinary case; see the trusted boundary on what cleanliness excludes).
pub open spec fn spec_sources_pdf_clean(ss: Seq<MergeSource>) -> bool {
    forall|i: int|
        0 <= i < ss.len() && spec_is_pdf_mime((#[trigger] ss[i]).mime_type@) ==> spec_pdf_clean(
            ss[i].data@,
        )
}

/// One direct-reference rewrite chain: the payload with at most its
/// Resources, Contents and Parent entries pointed at new ids.
pub open spec fn spec_rewrite_chain(
    payload: lopdf::Object,
    ro: Option<(u32, u16)>,
    co: Option<(u32, u16)>,
    pa: Option<(u32, u16)>,
) -> lopdf::Object {
    let o1 = match ro {
        Some(t) => crate::lopdf_api::spec_with_entry_ref(payload, "Resources"@, t),
        None => payload,
    };
    let o2 = match co {
        Some(t) => crate::lopdf_api::spec_with_entry_ref(o1, "Contents"@, t),
        None => o1,
    };
    match pa {
        Some(t) => crate::lopdf_api::spec_with_entry_ref(o2, "Parent"@, t),
        None => o2,
    }
}

/// Whether `o` is `payload` with at most its direct Resources, Contents
/// and Parent references rewritten — the merger's copy discipline.
pub open spec fn spec_is_rewritten_copy(o: lopdf::Object, payload: lopdf::Object) -> bool {
    exists|ro: Option<(u32, u16)>, co: Option<(u32, u16)>, pa: Option<(u32, u16)>|
        #![trigger spec_rewrite_chain(payload, ro, co, pa)]
        o == spec_rewrite_chain(payload, ro, co, pa)
}

/// Every object is a rewritten copy of itself, through the empty chain.
pub proof fn lemma_identity_copy(payload: lopdf::Object)
    ensures
        spec_is_rewritten_copy(payload, payload),
{
    assert(spec_rewrite_chain(payload, None, None, None) == payload);
}

/// The origin of each output page, source by source in input order: a PDF
/// source contributes its own page objects, an image source one page that
/// is built here rather than copied.
pub open spec fn spec_source_page_origins(ss: Seq<MergeSource>) -> Seq<Option<lopdf::Object>>
    decreases ss.len(),
{
    if ss.len() == 0 {
        Seq::empty()
    } else {
        (if spec_is_image_mime(ss.first().mime_type@) {
            seq![None]
        } else if spec_is_pdf_mime(ss.first().mime_type@) {
            spec_pdf_page_objects(ss.first().data@).map_values(|o: lopdf::Object| Some(o))
        } else {
            Seq::empty()
        }) + spec_source_page_origins(ss.drop_first())
    }
}

/// Parsed sources aligned with their origins: position by position, every
/// PDF-originated output page is owed the source's own page object.
pub proof fn lemma_origins_align(parsed: Seq<ParsedSource>, ss: Seq<MergeSource>)
    requires
        parsed.len() == ss.len(),
        forall|j: int|
            0 <= j < ss.len() ==> spec_is_image_mime((#[trigger] ss[j]).mime_type@)
                || spec_is_pdf_mime(ss[j].mime_type@),
        forall|j: int|
            0 <= j < ss.len() && spec_is_image_mime((#[trigger] ss[j]).mime_type@)
                ==> parsed[j].pages@.len() == 1,
        forall|j: int|
            0 <= j < ss.len() && spec_is_pdf_mime((#[trigger] ss[j]).mime_type@)
                ==> parsed[j].pages@.len() == spec_pdf_page_objects(ss[j].data@).len() && (forall|
                p: int,
            |
                0 <= p < parsed[j].pages@.len() ==> (#[trigger] parsed[j].pages@[p]).payload
                    == spec_pdf_page_objects(ss[j].data@)[p]),
    ensures
        spec_source_page_origins(ss).len() == spec_flat_pages(parsed).len(),
        forall|k: int|
            0 <= k < spec_source_page_origins(ss).len() ==> ((#[trigger] spec_source_page_origins(
                ss,
            )[k]) matches Some(p) ==> p == spec_flat_pages(parsed)[k].payload),
    decreases ss.len(),
{
    if ss.len() > 0 {
        crate::mime::lemma_mime_classes_disjoint(ss[0].mime_type@);
        assert(ss.first() == ss[0]);
        assert(parsed.first() == parsed[0]);
        assert forall|j: int|
            0 <= j < ss.drop_first().len() implies spec_is_image_mime(
            (#[trigger] ss.drop_first()[j]).mime_type@,
        ) || spec_is_pdf_mime(ss.drop_first()[j].mime_type@) by {
            assert(ss.drop_first()[j] == ss[j + 1]);
        }
        assert forall|j: int|
            0 <= j < ss.drop_first().len() && spec_is_image_mime(
                (#[trigger] ss.drop_first()[j]).mime_type@,
            ) implies parsed.drop_first()[j].pages@.len() == 1 by {
            assert(ss.drop_first()[j] == ss[j + 1]);
            assert(parsed.drop_first()[j] == parsed[j + 1]);
        }
        assert forall|j: int|
            0 <= j < ss.drop_first().len() && spec_is_pdf_mime(
                (#[trigger] ss.drop_first()[j]).mime_type@,
            ) implies parsed.drop_first()[j].pages@.len() == spec_pdf_page_objects(
            ss.drop_first()[j].data@,
        ).len() && (forall|p: int|
            0 <= p < parsed.drop_first()[j].pages@.len()
                ==> (#[trigger] parsed.drop_first()[j].pages@[p]).payload == spec_pdf_page_objects(
                ss.drop_first()[j].data@,
            )[p]) by {
            assert(ss.drop_first()[j] == ss[j + 1]);
            assert(parsed.drop_first()[j] == parsed[j + 1]);
        }
        lemma_origins_align(parsed.drop_first(), ss.drop_first());
        let head_orig = if spec_is_image_mime(ss[0].mime_type@) {
            seq![None::<lopdf::Object>]
        } else {
            spec_pdf_page_objects(ss[0].data@).map_values(|o: lopdf::Object| Some(o))
        };
        let head_flat = parsed[0].pages@;
        assert(head_orig.len() == head_flat.len());
        assert(spec_source_page_origins(ss) == head_orig + spec_source_page_origins(
            ss.drop_first(),
        ));
        assert(spec_flat_pages(parsed) == head_flat + spec_flat_pages(parsed.drop_first()));
        assert forall|k: int|
            0 <= k < spec_source_page_origins(ss).len() implies ((
        #[trigger] spec_source_page_origins(ss)[k]) matches Some(p) ==> p == spec_flat_pages(
            parsed,
        )[k].payload) by {
            if k < head_orig.len() {
                assert(spec_source_page_origins(ss)[k] == head_orig[k]);
                assert(spec_flat_pages(parsed)[k] == head_flat[k]);
                if !spec_is_image_mime(ss[0].mime_type@) {
                    assert(head_orig[k] == Some(spec_pdf_page_objects(ss[0].data@)[k]));
                    assert(head_flat[k].payload == spec_pdf_page_objects(ss[0].data@)[k]);
                }
            } else {
                assert(spec_source_page_origins(ss)[k] == spec_source_page_origins(
                    ss.drop_first(),
                )[k - head_orig.len()]);
                assert(spec_flat_pages(parsed)[k] == spec_flat_pages(parsed.drop_first())[k
                    - head_flat.len()]);
            }
        }
    }
}

/// Parsed sources whose page counts match the sources' owed contributions
/// total exactly the owed page count.
pub proof fn lemma_total_pages_bridge(parsed: Seq<ParsedSource>, ss: Seq<MergeSource>)
    requires
        parsed.len() == ss.len(),
        forall|k: int|
            0 <= k < parsed.len() ==> (#[trigger] parsed[k].pages@).len()
                == spec_source_page_contribution(ss[k]),
    ensures
        spec_total_pages(parsed) == spec_total_source_pages(ss),
    decreases parsed.len(),
{
    if parsed.len() > 0 {
        assert(parsed[0].pages@.len() == spec_source_page_contribution(ss[0]));
        assert forall|k: int|
            0 <= k < parsed.drop_first().len() implies (#[trigger] parsed.drop_first()[k].pages@).len()
                == spec_source_page_contribution(ss.drop_first()[k]) by {
            assert(parsed.drop_first()[k] == parsed[k + 1]);
            assert(ss.drop_first()[k] == ss[k + 1]);
            assert(parsed[k + 1].pages@.len() == spec_source_page_contribution(ss[k + 1]));
        }
        lemma_total_pages_bridge(parsed.drop_first(), ss.drop_first());
    }
}

/// Merges an ordered list of image and PDF sources into one PDF document.
///
/// Classification walks the list in order and aborts on the first failing
/// source with its error, before any later source is touched. When
/// classification leaves exactly one document, its bytes are returned
/// unchanged; otherwise every document's pages are spliced, in input
/// order, into a fresh document, whose page count is owed to be the sum
/// of the sources' contributions.
#[verifier::rlimit(100)]
pub fn merge_mixed_to_pdf(sources: &Vec<MergeSource>) -> (r: Result<Vec<u8>, MergeError>)
    ensures
        sources@.len() == 0 <==> r == Err::<Vec<u8>, MergeError>(MergeError::EmptyInput),
        sources@.len() > 0 && !spec_source_ok(sources@[0]) ==> (r matches Err(e)
            && spec_source_error_matches(sources@[0], e)),
        forall|i: int|
            0 <= i < sources@.len() && spec_prefix_ok(sources@, i) && !spec_source_ok(
                sources@[i],
            ) ==> (r matches Err(e) && spec_source_error_matches(sources@[i], e)),
        sources@.len() == 1 && spec_is_pdf_mime(sources@[0].mime_type@) && spec_pdf_parses(
            sources@[0].data@,
        ) ==> (r matches Ok(out) && out@ == sources@[0].data@),
        sources@.len() > 0 && spec_prefix_ok(sources@, sources@.len() as int)
            && spec_total_source_pages(sources@) * 3 + 2 < u32::MAX - 1 ==> r is Ok,
        sources@.len() > 0 && spec_prefix_ok(sources@, sources@.len() as int) ==> (r is Ok || (
        r matches Err(e) && e matches MergeError::Save(_))),
        r matches Ok(out) ==> (spec_sources_pdf_clean(sources@) ==> spec_pdf_parses(out@)
            && spec_pdf_page_ids(out@).len() == spec_total_source_pages(sources@) && spec_pdf_clean(
            out@,
        ) && (forall|k: int|
            0 <= k < spec_source_page_origins(sources@).len() ==> ((
            #[trigger] spec_source_page_origins(sources@)[k]) matches Some(p)
                ==> spec_is_rewritten_copy(spec_pdf_page_objects(out@)[k], p)))),
        r matches Err(e) ==> (e matches MergeError::EmptyInput
            || e matches MergeError::UnsupportedMimeType(_) || e matches MergeError::SizeLimit(_)
            || e matches MergeError::Decode(_) || e matches MergeError::InvalidPdf(_)
            || e matches MergeError::Save(_)),
{
    if sources.len() == 0 {
        return Err(MergeError::EmptyInput);
    }
    let mut blobs: Vec<Vec<u8>> = Vec::new();
    let mut i: usize = 0;
    while i < sources.len()
        invariant
            i <= sources@.len(),
            sources@.len() > 0,
            blobs@.len() == i as int,
            forall|j: int| 0 <= j < i ==> spec_source_ok(#[trigger] sources@[j]),
            forall|j: int|
                0 <= j < i && spec_is_pdf_mime(#[trigger] sources@[j].mime_type@) ==> blobs@[j]@
                    == sources@[j].data@ && spec_pdf_parses(blobs@[j]@),
            forall|j: int|
                0 <= j < i && spec_is_image_mime(#[trigger] sources@[j].mime_type@) ==> (
                spec_pdf_parses(blobs@[j]@) && spec_pdf_page_ids(blobs@[j]@).len() == 1
                    && spec_pdf_clean(blobs@[j]@)),
        decreases sources@.len() - i,
    {
        let s = &sources[i];
        if is_image_mime(s.mime_type.as_str()) {
            proof {
                crate::mime::lemma_mime_classes_disjoint(s.mime_type@);
            }
            match image_to_single_page_pdf_bytes(&s.data) {
                Ok(b) => blobs.push(b),
                Err(e) => {
                    return Err(
                        match e {
                            MergeError::Decode(msg) => MergeError::Decode(
                                crate::errors::tag_index("source ", i, msg),
                            ),
                            other => other,
                        },
                    );
                },
            }
        } else if is_pdf_mime(s.mime_type.as_str()) {
            match load_pdf(s.data.as_slice()) {
                Ok(_) => {
                    let mut copy: Vec<u8> = Vec::new();
                    push_bytes(&mut copy, s.data.as_slice());
                    blobs.push(copy);
                },
                Err(e) => {
                    return Err(
                        MergeError::InvalidPdf(
                            crate::errors::tag_index("source ", i, pdf_error_message(&e)),
                        ),
                    );
                },
            }
        } else {
            return Err(MergeError::UnsupportedMimeType(s.mime_type.clone()));
        }
        i += 1;
    }
    if blobs.len() == 1 {
        proof {
            crate::mime::lemma_mime_classes_disjoint(sources@[0].mime_type@);
            if spec_is_pdf_mime(sources@[0].mime_type@) {
                assert(blobs@[0]@ == sources@[0].data@);
            }
            assert(sources@.drop_first().len() == 0);
            assert(spec_total_source_pages(sources@.drop_first()) == 0);
            assert(spec_source_page_origins(sources@.drop_first()) =~= Seq::<
                Option<lopdf::Object>,
            >::empty());
            assert(sources@.first() == sources@[0]);
            assert(spec_total_source_pages(sources@) == spec_source_page_contribution(
                sources@[0],
            ));
            if spec_is_pdf_mime(sources@[0].mime_type@) {
                assert(spec_source_page_origins(sources@) =~= spec_pdf_page_objects(
                    sources@[0].data@,
                ).map_values(|o: lopdf::Object| Some(o)));
                assert forall|k2: int|
                    0 <= k2 < spec_source_page_origins(sources@).len() implies ((
                #[trigger] spec_source_page_origins(sources@)[k2]) matches Some(p)
                    ==> spec_is_rewritten_copy(
                    spec_pdf_page_objects(sources@[0].data@)[k2],
                    p,
                )) by {
                    assert(spec_source_page_origins(sources@)[k2] == Some(spec_pdf_page_objects(
                        sources@[0].data@,
                    )[k2]));
                    lemma_identity_copy(spec_pdf_page_objects(sources@[0].data@)[k2]);
                }
            } else {
                assert(spec_is_image_mime(sources@[0].mime_type@));
                assert(spec_source_page_origins(sources@) =~= seq![None::<lopdf::Object>]);
            }
        }
        let b = blobs.swap_remove(0);
        return Ok(b);
    }
    let mut parsed: Vec<ParsedSource> = Vec::new();
    let mut k: usize = 0;
    while k < blobs.len()
        invariant
            k <= blobs@.len(),
            blobs@.len() == sources@.len(),
            blobs@.len() != 1,
            sources@.len() > 0,
            parsed@.len() == k as int,
            forall|j: int| 0 <= j < sources@.len() ==> spec_source_ok(#[trigger] sources@[j]),
            forall|j: int|
                0 <= j < sources@.len() && spec_is_pdf_mime(
                    #[trigger] sources@[j].mime_type@,
                ) ==> blobs@[j]@ == sources@[j].data@ && spec_pdf_parses(blobs@[j]@),
            forall|j: int|
                0 <= j < sources@.len() && spec_is_image_mime(
                    #[trigger] sources@[j].mime_type@,
                ) ==> (spec_pdf_parses(blobs@[j]@) && spec_pdf_page_ids(blobs@[j]@).len() == 1
                    && spec_pdf_clean(blobs@[j]@)),
            forall|j: int|
                0 <= j < k ==> (#[trigger] parsed@[j].pages@).len()
                    == spec_source_page_contribution(sources@[j]),
            forall|j: int|
                0 <= j < k && spec_is_image_mime(#[trigger] sources@[j].mime_type@)
                    ==> parsed@[j].pages@.len() == 1,
            forall|j: int|
                0 <= j < k && spec_is_pdf_mime(#[trigger] sources@[j].mime_type@) ==> (
                parsed@[j].pages@.len() == spec_pdf_page_objects(sources@[j].data@).len() && (
                forall|p: int|
                    0 <= p < parsed@[j].pages@.len() ==> (#[trigger] parsed@[j].pages@[p]).payload
                        == spec_pdf_page_objects(sources@[j].data@)[p])),
            spec_sources_paged(parsed@),
            spec_sources_pdf_clean(sources@) ==> spec_sources_clean(parsed@),
        decreases blobs@.len() - k,
    {
        let ghost parsed0 = parsed@;
        match parse_pdf_source(blobs[k].as_slice()) {
            Ok(ps) => {
                proof {
                    crate::mime::lemma_mime_classes_disjoint(sources@[k as int].mime_type@);
                    assert(spec_source_ok(sources@[k as int]));
                }
                parsed.push(ps);
                proof {
                    assert forall|j: int|
                        0 <= j < k + 1 && spec_is_image_mime(
                            #[trigger] sources@[j].mime_type@,
                        ) implies parsed@[j].pages@.len() == 1 by {
                        if j < parsed0.len() {
                            assert(parsed@[j] == parsed0[j]);
                        } else {
                            assert(parsed@[j] == ps);
                        }
                    }
                    assert forall|j: int|
                        0 <= j < k + 1 && spec_is_pdf_mime(
                            #[trigger] sources@[j].mime_type@,
                        ) implies (parsed@[j].pages@.len() == spec_pdf_page_objects(
                        sources@[j].data@,
                    ).len() && (forall|p: int|
                        0 <= p < parsed@[j].pages@.len()
                            ==> (#[trigger] parsed@[j].pages@[p]).payload == spec_pdf_page_objects(
                            sources@[j].data@,
                        )[p])) by {
                        if j < parsed0.len() {
                            assert(parsed@[j] == parsed0[j]);
                            assert(parsed0[j].pages@.len() == spec_pdf_page_objects(
                                sources@[j].data@,
                            ).len());
                        } else {
                            assert(parsed@[j] == ps);
                            assert(blobs@[j]@ == sources@[j].data@);
                        }
                    }
                    assert forall|dj: int, pj: int|
                        0 <= dj < parsed@.len() && 0 <= pj < parsed@[dj].pages@.len() implies
                        spec_page_dict((#[trigger] parsed@[dj].pages@[pj]).payload) by {
                        if dj < parsed0.len() {
                            assert(parsed@[dj] == parsed0[dj]);
                            assert(spec_page_dict(parsed0[dj].pages@[pj].payload));
                        } else {
                            assert(parsed@[dj] == ps);
                        }
                    }
                    if spec_sources_pdf_clean(sources@) {
                        assert(spec_pdf_clean(blobs@[k as int]@));
                        assert forall|dj: int, pj: int|
                            0 <= dj < parsed@.len() && 0 <= pj < parsed@[dj].pages@.len() implies {
                            let p = #[trigger] parsed@[dj].pages@[pj];
                            &&& spec_writable(p.payload)
                            &&& (p.resources matches Some(o) ==> spec_writable(o))
                            &&& (p.contents matches Some(o) ==> spec_writable(o))
                        } by {
                            if dj < parsed0.len() {
                                assert(parsed@[dj] == parsed0[dj]);
                                assert(spec_sources_clean(parsed0));
                                assert({
                                    let p = parsed0[dj].pages@[pj];
                                    &&& spec_writable(p.payload)
                                    &&& (p.resources matches Some(o) ==> spec_writable(o))
                                    &&& (p.contents matches Some(o) ==> spec_writable(o))
                                });
                            } else {
                                assert(parsed@[dj] == ps);
                            }
                        }
                    }
                }
            },
            Err(e) => {
                proof {
                    assert(spec_pdf_parses(blobs@[k as int]@)) by {
                        crate::mime::lemma_mime_classes_disjoint(sources@[k as int].mime_type@);
                        assert(spec_source_ok(sources@[k as int]));
                    }
                    assert(false);
                }
                return Err(e);
            },
        }
        k += 1;
    }
    let g = build_merged_graph(&parsed);
    proof {
        lemma_flat_pages_count(parsed@);
        lemma_total_pages_bridge(parsed@, sources@);
    }
    if g.nodes.len() >= 0xFFFF_FFFEusize {
        proof {
            if spec_total_source_pages(sources@) * 3 + 2 < u32::MAX - 1 {
                assert(false);
            }
        }
        return Err(MergeError::Save(String::from_str("too many objects to write")));
    }
    match emit_graph(&g) {
        Ok(out) => {
            proof {
                if spec_sources_pdf_clean(sources@) {
                    lemma_origins_align(parsed@, sources@);
                    let flat = spec_flat_pages(parsed@);
                    let pidx = crate::graph::spec_page_indices(g.nodes@);
                    assert forall|k2: int|
                        0 <= k2 < spec_source_page_origins(sources@).len() implies ((
                    #[trigger] spec_source_page_origins(sources@)[k2]) matches Some(p)
                        ==> spec_is_rewritten_copy(spec_pdf_page_objects(out@)[k2], p)) by {
                        assert(spec_source_page_origins(sources@).len() == flat.len());
                        assert(pidx.len() == flat.len());
                        let t = pidx[k2];
                        assert(spec_page_matches(g.nodes@, t, flat[k2]));
                        assert(g.nodes@[t] matches PdfNode::CopiedPage {
                            payload,
                            resources,
                            contents,
                        } && spec_pdf_page_objects(out@)[k2] == spec_rewrite_chain(
                            payload,
                            match resources {
                                Some(r) => Some(crate::emit::spec_emit_id(r as int)),
                                None => None::<(u32, u16)>,
                            },
                            match contents {
                                Some(c) => Some(crate::emit::spec_emit_id(c as int)),
                                None => None::<(u32, u16)>,
                            },
                            Some(crate::emit::spec_emit_id(g.nodes@.len() - 2)),
                        ));
                    }
                }
            }
            Ok(out)
        },
        Err(e) => {
            proof {
                assert(false);
            }
            Err(e)
        },
    }
}

} // verus!
