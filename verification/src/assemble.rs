//! The document assembly orchestrator.
//!
//! An assembly request is a base PDF and an ordered list of stored-document
//! identifiers. The base is validated first; every identifier is resolved
//! against the store snapshot, in order, and a missing one fails the whole
//! call before any merge work begins. The resolved documents then go to
//! the local merger, or are grouped and prepared for the remote merge
//! client.

use vstd::prelude::*;
use vstd::string::{StringExecFns, StringSliceAdditionalSpecFns};
use crate::errors::MergeError;
use crate::merge::{MergeSource, merge_mixed_to_pdf, spec_source_ok, spec_source_page_contribution,
    spec_total_source_pages, spec_sources_pdf_clean};
use crate::mime::{is_image_mime, is_pdf_mime, spec_is_image_mime, spec_is_pdf_mime};
use crate::lopdf_api::{load_pdf, spec_pdf_parses, spec_pdf_page_ids, spec_pdf_clean};
use crate::remote::{RemotePlan, prepare_remote_merge, spec_image_blob_ok};
use crate::textbytes::copy_bytes;

verus! {

/// A record of the external document store, as the pipeline reads it.
pub struct StoredDocument {
    pub id: i64,
    pub name: String,
    pub mime_type: String,
    pub data: Vec<u8>,
}

/// Whether some record of the store carries this identifier.
pub open spec fn spec_has_doc(store: Seq<StoredDocument>, id: i64) -> bool {
    exists|j: int| 0 <= j < store.len() && store[j].id == id
}

/// Position `j` holds the first record with this identifier.
pub open spec fn spec_is_first_match(store: Seq<StoredDocument>, id: i64, j: int) -> bool {
    &&& 0 <= j < store.len()
    &&& store[j].id == id
    &&& forall|k: int| 0 <= k < j ==> store[k].id != id
}

/// Every identifier of the list resolves in the store.
pub open spec fn spec_all_resolve(store: Seq<StoredDocument>, ids: Seq<i64>) -> bool {
    forall|i: int| 0 <= i < ids.len() ==> spec_has_doc(store, #[trigger] ids[i])
}

/// Two first matches for the same identifier are the same position.
pub proof fn lemma_first_match_unique(store: Seq<StoredDocument>, id: i64, a: int, b: int)
    requires
        spec_is_first_match(store, id, a),
        spec_is_first_match(store, id, b),
    ensures
        a == b,
{
    if a < b {
        assert(store[a].id != id);
    }
    if b < a {
        assert(store[b].id != id);
    }
}

/// The first record under this identifier passes the merger's
/// classification.
pub open spec fn spec_doc_source_ok(store: Seq<StoredDocument>, id: i64) -> bool {
    exists|j: int|
        #[trigger] spec_is_first_match(store, id, j) && spec_source_ok(
            MergeSource { mime_type: store[j].mime_type, data: store[j].data },
        )
}

/// The first record under this identifier is fit for the remote path: an
/// image the rasterizer accepts, or a PDF passed through unexamined.
pub open spec fn spec_doc_remote_ok(store: Seq<StoredDocument>, id: i64) -> bool {
    exists|j: int|
        #[trigger] spec_is_first_match(store, id, j) && (if spec_is_image_mime(
            store[j].mime_type@,
        ) {
            spec_image_blob_ok(store[j].data@)
        } else {
            spec_is_pdf_mime(store[j].mime_type@)
        })
}

/// The first record under this identifier; meaningful when one exists.
pub open spec fn spec_resolved_doc(store: Seq<StoredDocument>, id: i64) -> StoredDocument {
    store[choose|j: int| spec_is_first_match(store, id, j)]
}

/// The display names of the resolved documents of one class (images when
/// `image_class`, PDFs otherwise), in identifier order.
pub open spec fn spec_class_names(store: Seq<StoredDocument>, ids: Seq<i64>, image_class: bool) -> Seq<
    String,
>
    decreases ids.len(),
{
    if ids.len() == 0 {
        Seq::empty()
    } else {
        (if spec_is_image_mime(spec_resolved_doc(store, ids.first()).mime_type@) == image_class {
            seq![spec_resolved_doc(store, ids.first()).name]
        } else {
            Seq::empty()
        }) + spec_class_names(store, ids.drop_first(), image_class)
    }
}

/// The payloads of the resolved documents of one class, in identifier
/// order.
pub open spec fn spec_class_datas(store: Seq<StoredDocument>, ids: Seq<i64>, image_class: bool) -> Seq<
    Seq<u8>,
>
    decreases ids.len(),
{
    if ids.len() == 0 {
        Seq::empty()
    } else {
        (if spec_is_image_mime(spec_resolved_doc(store, ids.first()).mime_type@) == image_class {
            seq![spec_resolved_doc(store, ids.first()).data@]
        } else {
            Seq::empty()
        }) + spec_class_datas(store, ids.drop_first(), image_class)
    }
}

/// Class projections distribute over appending one identifier.
pub proof fn lemma_class_push(store: Seq<StoredDocument>, ids: Seq<i64>, x: i64, image_class: bool)
    ensures
        spec_class_names(store, ids.push(x), image_class) == spec_class_names(
            store,
            ids,
            image_class,
        ) + (if spec_is_image_mime(spec_resolved_doc(store, x).mime_type@) == image_class {
            seq![spec_resolved_doc(store, x).name]
        } else {
            Seq::empty()
        }),
        spec_class_datas(store, ids.push(x), image_class) == spec_class_datas(
            store,
            ids,
            image_class,
        ) + (if spec_is_image_mime(spec_resolved_doc(store, x).mime_type@) == image_class {
            seq![spec_resolved_doc(store, x).data@]
        } else {
            Seq::empty()
        }),
    decreases ids.len(),
{
    reveal_with_fuel(spec_class_names, 3);
    reveal_with_fuel(spec_class_datas, 3);
    if ids.len() == 0 {
        assert(ids.push(x).first() == x);
        assert(ids.push(x).drop_first() =~= Seq::<i64>::empty());
        assert(spec_class_names(store, ids.push(x), image_class) =~= spec_class_names(
            store,
            ids,
            image_class,
        ) + (if spec_is_image_mime(spec_resolved_doc(store, x).mime_type@) == image_class {
            seq![spec_resolved_doc(store, x).name]
        } else {
            Seq::<String>::empty()
        }));
        assert(spec_class_datas(store, ids.push(x), image_class) =~= spec_class_datas(
            store,
            ids,
            image_class,
        ) + (if spec_is_image_mime(spec_resolved_doc(store, x).mime_type@) == image_class {
            seq![spec_resolved_doc(store, x).data@]
        } else {
            Seq::<Seq<u8>>::empty()
        }));
    } else {
        assert(ids.push(x).first() == ids.first());
        assert(ids.push(x).drop_first() =~= ids.drop_first().push(x));
        lemma_class_push(store, ids.drop_first(), x, image_class);
        assert(spec_class_names(store, ids.push(x), image_class) =~= spec_class_names(
            store,
            ids,
            image_class,
        ) + (if spec_is_image_mime(spec_resolved_doc(store, x).mime_type@) == image_class {
            seq![spec_resolved_doc(store, x).name]
        } else {
            Seq::<String>::empty()
        }));
        assert(spec_class_datas(store, ids.push(x), image_class) =~= spec_class_datas(
            store,
            ids,
            image_class,
        ) + (if spec_is_image_mime(spec_resolved_doc(store, x).mime_type@) == image_class {
            seq![spec_resolved_doc(store, x).data@]
        } else {
            Seq::<Seq<u8>>::empty()
        }));
    }
}

/// The pages the first record under this identifier owes the merged
/// output.
pub open spec fn spec_doc_contribution(store: Seq<StoredDocument>, id: i64) -> int {
    spec_source_page_contribution(
        MergeSource {
            mime_type: spec_resolved_doc(store, id).mime_type,
            data: spec_resolved_doc(store, id).data,
        },
    )
}

/// The pages all resolved documents owe the merged output, in identifier
/// order.
pub open spec fn spec_total_doc_pages(store: Seq<StoredDocument>, ids: Seq<i64>) -> int
    decreases ids.len(),
{
    if ids.len() == 0 {
        0
    } else {
        spec_doc_contribution(store, ids.first()) + spec_total_doc_pages(store, ids.drop_first())
    }
}

/// Every resolved PDF document re-serializes cleanly through the library.
pub open spec fn spec_docs_pdf_clean(store: Seq<StoredDocument>, ids: Seq<i64>) -> bool {
    forall|i: int|
        0 <= i < ids.len() && spec_is_pdf_mime(
            spec_resolved_doc(store, #[trigger] ids[i]).mime_type@,
        ) ==> spec_pdf_clean(spec_resolved_doc(store, ids[i]).data@)
}

/// Sources whose page contributions match the resolved documents' owed
/// contributions total exactly the owed page count.
pub proof fn lemma_doc_total_bridge(store: Seq<StoredDocument>, ids: Seq<i64>, ss: Seq<MergeSource>)
    requires
        ss.len() == ids.len(),
        forall|t: int|
            0 <= t < ids.len() ==> spec_source_page_contribution(#[trigger] ss[t])
                == spec_doc_contribution(store, ids[t]),
    ensures
        spec_total_source_pages(ss) == spec_total_doc_pages(store, ids),
    decreases ids.len(),
{
    if ids.len() > 0 {
        assert(spec_source_page_contribution(ss[0]) == spec_doc_contribution(store, ids[0]));
        assert(ss.first() == ss[0]);
        assert(ids.first() == ids[0]);
        assert forall|t: int|
            0 <= t < ids.drop_first().len() implies spec_source_page_contribution(
            #[trigger] ss.drop_first()[t],
        ) == spec_doc_contribution(store, ids.drop_first()[t]) by {
            assert(ss.drop_first()[t] == ss[t + 1]);
            assert(ids.drop_first()[t] == ids[t + 1]);
            assert(spec_source_page_contribution(ss[t + 1]) == spec_doc_contribution(
                store,
                ids[t + 1],
            ));
        }
        lemma_doc_total_bridge(store, ids.drop_first(), ss.drop_first());
    }
}

/// Finds the first record with this identifier.
fn find_document(store: &Vec<StoredDocument>, id: i64) -> (r: Option<usize>)
    ensures
        r matches Some(j) ==> spec_is_first_match(store@, id, j as int),
        r is None ==> !spec_has_doc(store@, id),
{
    let n = store.len();
    let mut j: usize = 0;
    while j < n
        invariant
            n == store@.len(),
            j <= n,
            forall|k: int| 0 <= k < j ==> store@[k].id != id,
        decreases n - j,
    {
        if store[j].id == id {
            return Some(j);
        }
        j += 1;
    }
    None
}

/// Resolves each identifier, in order, to the index of its first record;
/// the first missing identifier fails the whole call.
pub fn resolve_documents(store: &Vec<StoredDocument>, ids: &Vec<i64>) -> (r: Result<
    Vec<usize>,
    MergeError,
>)
    ensures
        r is Ok <==> spec_all_resolve(store@, ids@),
        r matches Ok(out) ==> out@.len() == ids@.len() && forall|i: int|
            0 <= i < ids@.len() ==> spec_is_first_match(store@, ids@[i], #[trigger] out@[i] as int),
        forall|i: int|
            0 <= i < ids@.len() && (forall|j: int|
                0 <= j < i ==> spec_has_doc(store@, #[trigger] ids@[j])) && !spec_has_doc(
                store@,
                ids@[i],
            ) ==> r == Err::<Vec<usize>, MergeError>(MergeError::DocumentNotFound(ids@[i])),
        r matches Err(e) ==> e matches MergeError::DocumentNotFound(_),
{
    let n = ids.len();
    let mut out: Vec<usize> = Vec::new();
    let mut i: usize = 0;
    while i < n
        invariant
            n == ids@.len(),
            i <= n,
            out@.len() == i as int,
            forall|t: int|
                0 <= t < i ==> spec_is_first_match(store@, ids@[t], #[trigger] out@[t] as int),
            forall|t: int| 0 <= t < i ==> spec_has_doc(store@, #[trigger] ids@[t]),
        decreases n - i,
    {
        match find_document(store, ids[i]) {
            Some(j) => {
                out.push(j);
                proof {
                    assert(spec_has_doc(store@, ids@[i as int]));
                }
            },
            None => {
                return Err(MergeError::DocumentNotFound(ids[i]));
            },
        }
        i += 1;
    }
    Ok(out)
}

/// Assembles a base PDF with the stored documents named by `ordered_ids`,
/// through the local merger: the base document's pages come first, then
/// each resolved document's pages in identifier order.
///
/// The base must parse; a missing identifier aborts before any merge work;
/// classification and merge failures are the local merger's.
pub fn assemble(base_pdf: Vec<u8>, ordered_ids: &Vec<i64>, store: &Vec<StoredDocument>) -> (r:
    Result<Vec<u8>, MergeError>)
    ensures
        !spec_pdf_parses(base_pdf@) ==> r == Err::<Vec<u8>, MergeError>(MergeError::InvalidBasePdf),
        forall|i: int|
            spec_pdf_parses(base_pdf@) && 0 <= i < ordered_ids@.len() && (forall|j: int|
                0 <= j < i ==> spec_has_doc(store@, #[trigger] ordered_ids@[j])) && !spec_has_doc(
                store@,
                ordered_ids@[i],
            ) ==> r == Err::<Vec<u8>, MergeError>(MergeError::DocumentNotFound(ordered_ids@[i])),
        spec_pdf_parses(base_pdf@) && ordered_ids@.len() == 0 ==> (r matches Ok(out) && out@
            == base_pdf@),
        spec_pdf_parses(base_pdf@) && spec_all_resolve(store@, ordered_ids@) && (forall|i: int|
            0 <= i < ordered_ids@.len() ==> spec_doc_source_ok(
                store@,
                #[trigger] ordered_ids@[i],
            )) ==> (r is Ok || (r matches Err(e) && e matches MergeError::Save(_))),
        r matches Ok(out) ==> (spec_pdf_clean(base_pdf@) && spec_docs_pdf_clean(
            store@,
            ordered_ids@,
        ) ==> spec_pdf_parses(out@) && spec_pdf_page_ids(out@).len() == spec_pdf_page_ids(
            base_pdf@,
        ).len() + spec_total_doc_pages(store@, ordered_ids@) && spec_pdf_clean(out@)),
        r matches Err(e) ==> (e matches MergeError::InvalidBasePdf
            || e matches MergeError::DocumentNotFound(_) || e matches MergeError::UnsupportedMimeType(
            _,
        ) || e matches MergeError::SizeLimit(_) || e matches MergeError::Decode(_)
            || e matches MergeError::InvalidPdf(_) || e matches MergeError::Save(_)),
{
    match load_pdf(base_pdf.as_slice()) {
        Err(_) => {
            return Err(MergeError::InvalidBasePdf);
        },
        Ok(_) => {},
    }
    let indices = match resolve_documents(store, ordered_ids) {
        Ok(v) => v,
        Err(e) => {
            return Err(e);
        },
    };
    let mut sources: Vec<MergeSource> = Vec::new();
    let ghost base_view = base_pdf@;
    sources.push(MergeSource { mime_type: String::from_str("application/pdf"), data: base_pdf });
    let n = indices.len();
    let mut i: usize = 0;
    while i < n
        invariant
            n == indices@.len(),
            n == ordered_ids@.len(),
            i <= n,
            spec_pdf_parses(base_view),
            spec_all_resolve(store@, ordered_ids@),
            sources@.len() == 1 + i as int,
            sources@[0].mime_type@ == "application/pdf"@,
            sources@[0].data@ == base_view,
            n == ordered_ids@.len(),
            forall|t: int| 0 <= t < n ==> #[trigger] indices@[t] < store@.len(),
            forall|t: int|
                0 <= t < n ==> spec_is_first_match(
                    store@,
                    ordered_ids@[t],
                    #[trigger] indices@[t] as int,
                ),
            forall|t: int|
                0 <= t < i ==> (#[trigger] sources@[t + 1]).mime_type == store@[indices@[t] as int].mime_type
                    && sources@[t + 1].data@ == store@[indices@[t] as int].data@,
        decreases n - i,
    {
        let ix = indices[i];
        sources.push(
            MergeSource {
                mime_type: store[ix].mime_type.clone(),
                data: copy_bytes(&store[ix].data),
            },
        );
        i += 1;
    }
    proof {
        crate::mime::lemma_mime_classes_disjoint(sources@[0].mime_type@);
        assert(spec_source_page_contribution(sources@[0]) == spec_pdf_page_ids(base_view).len());
        assert forall|t: int|
            0 <= t < n implies spec_source_page_contribution(#[trigger] sources@.drop_first()[t])
            == spec_doc_contribution(store@, ordered_ids@[t]) by {
            assert(sources@.drop_first()[t] == sources@[t + 1]);
            let w = choose|j: int| spec_is_first_match(store@, ordered_ids@[t], j);
            assert(spec_is_first_match(store@, ordered_ids@[t], indices@[t] as int));
            lemma_first_match_unique(store@, ordered_ids@[t], w, indices@[t] as int);
            assert(spec_resolved_doc(store@, ordered_ids@[t]) == store@[indices@[t] as int]);
            assert((#[trigger] sources@[t + 1]).mime_type == store@[indices@[t] as int].mime_type);
            assert(sources@[t + 1].data@ == store@[indices@[t] as int].data@);
        }
        assert(sources@.drop_first().len() == ordered_ids@.len());
        lemma_doc_total_bridge(store@, ordered_ids@, sources@.drop_first());
        assert(sources@.first() == sources@[0]);
        assert(spec_total_source_pages(sources@) == spec_source_page_contribution(sources@[0])
            + spec_total_source_pages(sources@.drop_first()));
        if spec_pdf_clean(base_view) && spec_docs_pdf_clean(store@, ordered_ids@) {
            assert forall|t: int|
                0 <= t < sources@.len() && spec_is_pdf_mime(
                    (#[trigger] sources@[t]).mime_type@,
                ) implies spec_pdf_clean(sources@[t].data@) by {
                if t > 0 {
                    let tid = ordered_ids@[t - 1];
                    let w = choose|j: int| spec_is_first_match(store@, tid, j);
                    assert(spec_is_first_match(store@, tid, indices@[t - 1] as int));
                    lemma_first_match_unique(store@, tid, w, indices@[t - 1] as int);
                    assert(spec_resolved_doc(store@, tid) == store@[indices@[t - 1] as int]);
                    assert((#[trigger] sources@[t - 1 + 1]).mime_type == store@[indices@[t
                        - 1] as int].mime_type && sources@[t - 1 + 1].data@ == store@[indices@[t
                        - 1] as int].data@);
                    assert(sources@[t] == sources@[t - 1 + 1]);
                    assert(spec_pdf_clean(spec_resolved_doc(store@, ordered_ids@[t - 1]).data@));
                }
            }
            assert(spec_sources_pdf_clean(sources@));
        }
        if forall|i2: int|
            0 <= i2 < ordered_ids@.len() ==> spec_doc_source_ok(store@, #[trigger] ordered_ids@[i2]) {
            crate::mime::lemma_mime_classes_disjoint("application/pdf"@);
            assert forall|j: int| 0 <= j < sources@.len() implies spec_source_ok(
                #[trigger] sources@[j],
            ) by {
                if j == 0 {
                    assert(spec_is_pdf_mime(sources@[0].mime_type@));
                    assert(!spec_is_image_mime(sources@[0].mime_type@));
                } else {
                    let t = j - 1;
                    assert(spec_doc_source_ok(store@, ordered_ids@[t]));
                    let w = choose|jj: int|
                        #[trigger] spec_is_first_match(store@, ordered_ids@[t], jj)
                            && spec_source_ok(
                            MergeSource { mime_type: store@[jj].mime_type, data: store@[jj].data },
                        );
                    lemma_first_match_unique(store@, ordered_ids@[t], w, indices@[t] as int);
                    assert(sources@[t + 1].mime_type == store@[indices@[t] as int].mime_type
                        && sources@[t + 1].data@ == store@[indices@[t] as int].data@);
                    assert(sources@[j] == sources@[t + 1]);
                    assert(sources@[j].mime_type@ == store@[w].mime_type@);
                    assert(sources@[j].data@ == store@[w].data@);
                }
            }
        }
    }
    merge_mixed_to_pdf(&sources)
}

/// Assembles through the remote merge client: validates and resolves as
/// the local path does, then groups the resolved documents by class
/// (image-derived parts first, pass-through PDFs after, each class in
/// identifier order, with the display names as labels in the same order)
/// and prepares the request.
pub fn assemble_remote_prepare(
    base_pdf: Vec<u8>,
    ordered_ids: &Vec<i64>,
    store: &Vec<StoredDocument>,
    token: &str,
    boundary: &str,
) -> (r: Result<RemotePlan, MergeError>)
    ensures
        !spec_pdf_parses(base_pdf@) ==> r == Err::<RemotePlan, MergeError>(
            MergeError::InvalidBasePdf,
        ),
        forall|i: int|
            spec_pdf_parses(base_pdf@) && 0 <= i < ordered_ids@.len() && (forall|j: int|
                0 <= j < i ==> spec_has_doc(store@, #[trigger] ordered_ids@[j])) && !spec_has_doc(
                store@,
                ordered_ids@[i],
            ) ==> r == Err::<RemotePlan, MergeError>(
                MergeError::DocumentNotFound(ordered_ids@[i]),
            ),
        spec_pdf_parses(base_pdf@) && ordered_ids@.len() == 0 ==> (r matches Ok(plan)
            && plan matches RemotePlan::Done(b) && b@ == base_pdf@),
        ordered_ids@.len() > 0 ==> (r matches Ok(plan) ==> plan is Send),
        r matches Ok(plan) ==> (plan matches RemotePlan::Send { body, content_type, authorization }
            ==> {
            &&& content_type@ == "multipart/form-data; boundary="@ + boundary@
            &&& authorization@ == "Bearer "@ + token@
            &&& exists|imgs: Seq<Seq<u8>>|
                #![trigger imgs.len()]
                imgs.len() == spec_class_datas(store@, ordered_ids@, true).len() && (forall|t: int|
                    0 <= t < imgs.len() ==> spec_pdf_parses(#[trigger] imgs[t])
                        && spec_pdf_page_ids(imgs[t]).len() == 1 && spec_pdf_clean(imgs[t]))
                    && body@ == crate::remote::spec_multipart_body(
                    boundary.spec_bytes(),
                    base_pdf@,
                    imgs + spec_class_datas(store@, ordered_ids@, false),
                    if (spec_class_names(store@, ordered_ids@, true) + spec_class_names(
                        store@,
                        ordered_ids@,
                        false,
                    )).len() == 0 {
                        None
                    } else {
                        Some(
                            crate::remote::spec_json_string_array(
                                crate::remote::spec_label_bytes(
                                    spec_class_names(store@, ordered_ids@, true) + spec_class_names(
                                        store@,
                                        ordered_ids@,
                                        false,
                                    ),
                                ),
                            ),
                        )
                    },
                )
        }),
        spec_pdf_parses(base_pdf@) && spec_all_resolve(store@, ordered_ids@) && (forall|i: int|
            0 <= i < ordered_ids@.len() ==> spec_doc_remote_ok(
                store@,
                #[trigger] ordered_ids@[i],
            )) ==> r is Ok,
        r matches Err(e) ==> (e matches MergeError::InvalidBasePdf
            || e matches MergeError::DocumentNotFound(_) || e matches MergeError::UnsupportedMimeType(
            _,
        ) || e matches MergeError::SizeLimit(_) || e matches MergeError::Decode(_)),
{
    match load_pdf(base_pdf.as_slice()) {
        Err(_) => {
            return Err(MergeError::InvalidBasePdf);
        },
        Ok(_) => {},
    }
    let indices = match resolve_documents(store, ordered_ids) {
        Ok(v) => v,
        Err(e) => {
            return Err(e);
        },
    };
    let mut image_blobs: Vec<Vec<u8>> = Vec::new();
    let mut pdf_blobs: Vec<Vec<u8>> = Vec::new();
    let mut image_labels: Vec<String> = Vec::new();
    let mut pdf_labels: Vec<String> = Vec::new();
    let n = indices.len();
    let mut i: usize = 0;
    proof {
        assert(ordered_ids@.take(0) =~= Seq::<i64>::empty());
        assert(image_blobs@.map_values(|v: Vec<u8>| v@) =~= spec_class_datas(
            store@,
            ordered_ids@.take(0),
            true,
        ));
        assert(pdf_blobs@.map_values(|v: Vec<u8>| v@) =~= spec_class_datas(
            store@,
            ordered_ids@.take(0),
            false,
        ));
    }
    while i < n
        invariant
            n == indices@.len(),
            i <= n,
            spec_pdf_parses(base_pdf@),
            spec_all_resolve(store@, ordered_ids@),
            n == ordered_ids@.len(),
            n == 0 ==> image_blobs@.len() == 0 && pdf_blobs@.len() == 0,
            forall|t: int| 0 <= t < n ==> #[trigger] indices@[t] < store@.len(),
            forall|t: int|
                0 <= t < n ==> spec_is_first_match(
                    store@,
                    ordered_ids@[t],
                    #[trigger] indices@[t] as int,
                ),
            image_blobs@.len() + pdf_blobs@.len() == i as int,
            image_labels@ == spec_class_names(store@, ordered_ids@.take(i as int), true),
            pdf_labels@ == spec_class_names(store@, ordered_ids@.take(i as int), false),
            image_blobs@.map_values(|v: Vec<u8>| v@) == spec_class_datas(
                store@,
                ordered_ids@.take(i as int),
                true,
            ),
            pdf_blobs@.map_values(|v: Vec<u8>| v@) == spec_class_datas(
                store@,
                ordered_ids@.take(i as int),
                false,
            ),
            (forall|i2: int|
                0 <= i2 < ordered_ids@.len() ==> spec_doc_remote_ok(
                    store@,
                    #[trigger] ordered_ids@[i2],
                )) ==> (forall|t: int|
                0 <= t < image_blobs@.len() ==> spec_image_blob_ok(#[trigger] image_blobs@[t]@)),
        decreases n - i,
    {
        let ix = indices[i];
        let doc = &store[ix];
        if is_image_mime(doc.mime_type.as_str()) {
            let ghost old_blobs = image_blobs@;
            image_blobs.push(copy_bytes(&doc.data));
            image_labels.push(doc.name.clone());
            proof {
                if forall|i2: int|
                    0 <= i2 < ordered_ids@.len() ==> spec_doc_remote_ok(
                        store@,
                        #[trigger] ordered_ids@[i2],
                    ) {
                    assert(spec_doc_remote_ok(store@, ordered_ids@[i as int]));
                    let w = choose|jj: int|
                        #[trigger] spec_is_first_match(store@, ordered_ids@[i as int], jj) && (
                        if spec_is_image_mime(store@[jj].mime_type@) {
                            spec_image_blob_ok(store@[jj].data@)
                        } else {
                            spec_is_pdf_mime(store@[jj].mime_type@)
                        });
                    lemma_first_match_unique(store@, ordered_ids@[i as int], w, indices@[i as int] as int);
                    assert forall|t: int| 0 <= t < image_blobs@.len() implies spec_image_blob_ok(
                        #[trigger] image_blobs@[t]@,
                    ) by {
                        if t < old_blobs.len() {
                            assert(spec_image_blob_ok(old_blobs[t]@));
                        } else {
                            assert(image_blobs@[t]@ == store@[w].data@);
                        }
                    }
                }
            }
        } else if is_pdf_mime(doc.mime_type.as_str()) {
            pdf_blobs.push(copy_bytes(&doc.data));
            pdf_labels.push(doc.name.clone());
        } else {
            proof {
                if forall|i2: int|
                    0 <= i2 < ordered_ids@.len() ==> spec_doc_remote_ok(
                        store@,
                        #[trigger] ordered_ids@[i2],
                    ) {
                    assert(spec_doc_remote_ok(store@, ordered_ids@[i as int]));
                    let w = choose|jj: int|
                        #[trigger] spec_is_first_match(store@, ordered_ids@[i as int], jj) && (
                        if spec_is_image_mime(store@[jj].mime_type@) {
                            spec_image_blob_ok(store@[jj].data@)
                        } else {
                            spec_is_pdf_mime(store@[jj].mime_type@)
                        });
                    lemma_first_match_unique(store@, ordered_ids@[i as int], w, indices@[i as int] as int);
                    assert(false);
                }
            }
            return Err(MergeError::UnsupportedMimeType(doc.mime_type.clone()));
        }
        proof {
            let pre = ordered_ids@.take(i as int);
            assert(ordered_ids@.take(i + 1) =~= pre.push(ordered_ids@[i as int]));
            lemma_class_push(store@, pre, ordered_ids@[i as int], true);
            lemma_class_push(store@, pre, ordered_ids@[i as int], false);
            let w = choose|j: int| spec_is_first_match(store@, ordered_ids@[i as int], j);
            assert(spec_is_first_match(store@, ordered_ids@[i as int], indices@[i as int] as int));
            lemma_first_match_unique(store@, ordered_ids@[i as int], w, indices@[i as int] as int);
            assert(spec_resolved_doc(store@, ordered_ids@[i as int]) == store@[indices@[i as int] as int]);
            assert(image_labels@ =~= spec_class_names(store@, ordered_ids@.take(i + 1), true));
            assert(pdf_labels@ =~= spec_class_names(store@, ordered_ids@.take(i + 1), false));
            assert(image_blobs@.map_values(|v: Vec<u8>| v@) =~= spec_class_datas(
                store@,
                ordered_ids@.take(i + 1),
                true,
            ));
            assert(pdf_blobs@.map_values(|v: Vec<u8>| v@) =~= spec_class_datas(
                store@,
                ordered_ids@.take(i + 1),
                false,
            ));
        }
        i += 1;
    }
    proof {
        assert(ordered_ids@.take(n as int) =~= ordered_ids@);
    }
    let mut labels = image_labels;
    let mut k: usize = 0;
    let m = pdf_labels.len();
    while k < m
        invariant
            m == pdf_labels@.len(),
            k <= m,
            spec_pdf_parses(base_pdf@),
            spec_all_resolve(store@, ordered_ids@),
            ordered_ids@.len() == 0 ==> image_blobs@.len() == 0 && pdf_blobs@.len() == 0,
            pdf_labels@ == spec_class_names(store@, ordered_ids@, false),
            labels@ == spec_class_names(store@, ordered_ids@, true) + pdf_labels@.take(k as int),
            image_blobs@.map_values(|v: Vec<u8>| v@) == spec_class_datas(
                store@,
                ordered_ids@,
                true,
            ),
            pdf_blobs@.map_values(|v: Vec<u8>| v@) == spec_class_datas(
                store@,
                ordered_ids@,
                false,
            ),
            (forall|i2: int|
                0 <= i2 < ordered_ids@.len() ==> spec_doc_remote_ok(
                    store@,
                    #[trigger] ordered_ids@[i2],
                )) ==> (forall|t: int|
                0 <= t < image_blobs@.len() ==> spec_image_blob_ok(#[trigger] image_blobs@[t]@)),
        decreases m - k,
    {
        labels.push(pdf_labels[k].clone());
        proof {
            assert(pdf_labels@.take(k + 1) =~= pdf_labels@.take(k as int).push(
                pdf_labels@[k as int],
            ));
            assert(labels@ =~= spec_class_names(store@, ordered_ids@, true) + pdf_labels@.take(
                k + 1,
            ));
        }
        k += 1;
    }
    proof {
        assert(pdf_labels@.take(m as int) =~= pdf_labels@);
        assert(labels@ == spec_class_names(store@, ordered_ids@, true) + spec_class_names(
            store@,
            ordered_ids@,
            false,
        ));
    }
    prepare_remote_merge(base_pdf, &image_blobs, &pdf_blobs, &labels, token, boundary)
}

} // verus!
