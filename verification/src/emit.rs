//! Emitting a finished graph as actual PDF bytes through the PDF library.
//!
//! The arena is written first to last, so node `t` receives document id
//! `t + 1` and every arena index has an allocated id before an emitted
//! object refers to it. A second pass points every page's Parent at the
//! page tree, the trailer root is set to the catalog, and the document is
//! serialized. The proof tracks the document's object table through every
//! call, so the written document is well built and the library's writer
//! and parser owe it a page list equal to the page tree's kids.

use vstd::prelude::*;
use crate::errors::MergeError;
use crate::graph::{PdfGraph, PdfNode, spec_node_wf, spec_wf, spec_page_indices, spec_graph_clean,
    lemma_page_indices_bounds, lemma_page_indices_increasing, lemma_page_indices_len_bound};
use crate::lopdf_api::{clone_object, set_entry_reference, new_document, add_object, set_parent,
    set_root, save_document, reference_object, integer_object, name_object, array_object,
    dictionary_object, stream_object, new_dictionary, dict_set, pdf_error_message, spec_page_dict,
    spec_writable, spec_dict_entries, spec_dict_upsert, spec_doc_objects, spec_doc_max_id,
    spec_doc_root, spec_with_entry_ref, spec_reference_object, spec_integer_object,
    spec_name_object, spec_array_object, spec_dictionary_object, spec_well_built, spec_pdf_parses,
    spec_pdf_page_ids, spec_pdf_page_objects, spec_pdf_clean, lemma_upsert_fresh, lemma_upsert_contains,
    lemma_upsert_writable};
use crate::textbytes::push_bytes;

verus! {

/// The document id the emitter allocates for arena index `t`.
pub open spec fn spec_emit_id(t: int) -> (u32, u16) {
    ((t + 1) as u32, 0u16)
}

/// A copied page as the emitter stores it before the Parent pass: the
/// payload with its direct Resources and Contents references rewritten to
/// the copies' document ids. Non-page nodes are not described.
pub open spec fn spec_rewritten_page(nodes: Seq<PdfNode>, t: int) -> lopdf::Object {
    match nodes[t] {
        PdfNode::CopiedPage { payload, resources, contents } => {
            let o1 = match resources {
                Some(r) => spec_with_entry_ref(payload, "Resources"@, spec_emit_id(r as int)),
                None => payload,
            };
            match contents {
                Some(c) => spec_with_entry_ref(o1, "Contents"@, spec_emit_id(c as int)),
                None => o1,
            }
        },
        _ => spec_integer_object(0),
    }
}

/// A copied page as the written document holds it: rewritten, with its
/// Parent pointed at the page tree of an `n`-node graph.
pub open spec fn spec_emitted_copied_page(nodes: Seq<PdfNode>, t: int, n: int) -> lopdf::Object {
    spec_with_entry_ref(spec_rewritten_page(nodes, t), "Parent"@, spec_emit_id(n - 2))
}

/// Writes the graph out as one PDF document; within the id budget the
/// write always succeeds.
///
/// When every copied object serializes cleanly — always the case for a
/// graph holding no copied foreign objects — the output parses back with
/// exactly the graph's pages.
pub fn emit_graph(g: &PdfGraph) -> (r: Result<Vec<u8>, MergeError>)
    requires
        g.spec_complete(),
        g.nodes@.len() < u32::MAX - 1,
    ensures
        r is Ok,
        spec_graph_clean(g.nodes@) ==> (r matches Ok(b) ==> spec_pdf_parses(b@)
            && spec_pdf_page_ids(b@).len() == g.spec_page_count() && spec_pdf_clean(b@) && (forall|
                k: int,
            |
                0 <= k < spec_page_indices(g.nodes@).len() && g.nodes@[spec_page_indices(
                    g.nodes@,
                )[k]] is CopiedPage ==> #[trigger] spec_pdf_page_objects(b@)[k]
                    == spec_emitted_copied_page(
                    g.nodes@,
                    spec_page_indices(g.nodes@)[k],
                    g.nodes@.len() as int,
                ))),
{
    let n = g.nodes.len();
    let mut doc = new_document();
    proof {
        assert(spec_doc_objects(doc).dom() =~= Set::new(
            |id: (u32, u16)| 1 <= id.0 <= 0 && id.1 == 0,
        ));
    }
    let mut ids: Vec<(u32, u16)> = Vec::new();
    let mut i: usize = 0;
    while i < n - 2
        invariant
            n == g.nodes@.len(),
            2 <= n && n < u32::MAX - 1,
            g.spec_complete(),
            i <= n - 2,
            ids@.len() == i as int,
            forall|t: int| 0 <= t < i ==> #[trigger] ids@[t] == spec_emit_id(t),
            spec_doc_max_id(doc) as int == i as int,
            spec_doc_root(doc) is None,
            spec_doc_objects(doc).dom() == Set::new(
                |id: (u32, u16)| 1 <= id.0 <= i && id.1 == 0,
            ),
            forall|t: int|
                0 <= t < i && g.nodes@[t].spec_is_page() ==> spec_page_dict(
                    #[trigger] spec_doc_objects(doc)[spec_emit_id(t)],
                ),
            forall|t: int|
                0 <= t < i && g.nodes@[t] is CopiedPage ==> #[trigger] spec_doc_objects(
                    doc,
                )[spec_emit_id(t)] == spec_rewritten_page(g.nodes@, t),
            spec_graph_clean(g.nodes@) ==> (forall|t: int|
                0 <= t < i ==> spec_writable(#[trigger] spec_doc_objects(doc)[spec_emit_id(t)])),
        decreases n - i,
    {
        proof {
            assert(spec_node_wf(g.nodes@, i as int));
        }
        let ghost objs0 = spec_doc_objects(doc);
        let obj: lopdf::Object = match &g.nodes[i] {
            PdfNode::CopiedPage { payload, resources, contents } => {
                let mut o = clone_object(payload);
                proof {
                    reveal_strlit("Type");
                    reveal_strlit("Resources");
                    reveal_strlit("Contents");
                    assert("Resources"@.len() != "Type"@.len());
                    assert("Contents"@.len() != "Type"@.len());
                }
                match resources {
                    Some(rix) => set_entry_reference(&mut o, "Resources", ids[*rix]),
                    None => {},
                }
                match contents {
                    Some(cix) => set_entry_reference(&mut o, "Contents", ids[*cix]),
                    None => {},
                }
                proof {
                    assert(spec_page_dict(o));
                    assert(o == spec_rewritten_page(g.nodes@, i as int));
                    if spec_graph_clean(g.nodes@) {
                        assert(spec_writable(*payload));
                        assert(spec_writable(o));
                    }
                }
                o
            },
            PdfNode::Copied { payload } => {
                let o = clone_object(payload);
                proof {
                    if spec_graph_clean(g.nodes@) {
                        assert(spec_writable(o));
                    }
                }
                o
            },
            PdfNode::ImageStream { width, height, jpeg } => {
                let mut dict = new_dictionary();
                dict_set_clean(&mut dict, "Subtype", name_object("Image"));
                dict_set_clean(&mut dict, "Width", integer_object(*width as i64));
                dict_set_clean(&mut dict, "Height", integer_object(*height as i64));
                dict_set_clean(&mut dict, "ColorSpace", name_object("DeviceRGB"));
                dict_set_clean(&mut dict, "BitsPerComponent", integer_object(8));
                dict_set_clean(&mut dict, "Filter", name_object("DCTDecode"));
                dict_set_clean(&mut dict, "Type", name_object("XObject"));
                let mut content: Vec<u8> = Vec::new();
                push_bytes(&mut content, jpeg.as_slice());
                stream_object(dict, content)
            },
            PdfNode::ImageResources { image } => {
                let mut xdict = new_dictionary();
                dict_set_clean(&mut xdict, "Im1", reference_object(ids[*image]));
                let inner = dictionary_object(xdict);
                let mut rdict = new_dictionary();
                dict_set_clean(&mut rdict, "XObject", inner);
                dictionary_object(rdict)
            },
            PdfNode::PageContent { ops } => {
                let mut content: Vec<u8> = Vec::new();
                push_bytes(&mut content, ops.as_slice());
                let empty = new_dictionary();
                stream_object(empty, content)
            },
            PdfNode::BuiltPage { resources, contents } => {
                let mut dict = new_dictionary();
                let mut media_box: Vec<lopdf::Object> = Vec::new();
                media_box.push(integer_object(0));
                media_box.push(integer_object(0));
                media_box.push(integer_object(595));
                media_box.push(integer_object(842));
                proof {
                    assert(forall|x: int|
                        0 <= x < media_box@.len() ==> spec_writable(#[trigger] media_box@[x]));
                }
                dict_set_clean(&mut dict, "MediaBox", array_object(media_box));
                dict_set_clean(&mut dict, "Resources", reference_object(ids[*resources]));
                dict_set_clean(&mut dict, "Contents", reference_object(ids[*contents]));
                let ghost before_type = spec_dict_entries(dict);
                dict_set_clean(&mut dict, "Type", name_object("Page"));
                proof {
                    lemma_upsert_contains(before_type, "Type"@, spec_name_object("Page"@));
                }
                dictionary_object(dict)
            },
            PdfNode::PageTree { kids } => {
                let mut arr: Vec<lopdf::Object> = Vec::new();
                let mut j: usize = 0;
                while j < kids.len()
                    invariant
                        n == g.nodes@.len(),
                        spec_wf(g.nodes@),
                        i < n,
                        ids@.len() == i as int,
                        g.nodes@[i as int] matches PdfNode::PageTree { kids: kk } && kk == *kids,
                        j <= kids@.len(),
                        arr@.len() == j as int,
                        forall|x: int| 0 <= x < j ==> spec_writable(#[trigger] arr@[x]),
                    decreases kids@.len() - j,
                {
                    proof {
                        assert(spec_node_wf(g.nodes@, i as int));
                        assert(kids@[j as int] < i);
                    }
                    let k = kids[j];
                    arr.push(reference_object(ids[k]));
                    j += 1;
                }
                let mut dict = new_dictionary();
                dict_set_clean(&mut dict, "Type", name_object("Pages"));
                proof {
                    assert(kids@.len() <= usize::MAX);
                }
                dict_set_clean(&mut dict, "Count", integer_object(kids.len() as i64));
                dict_set_clean(&mut dict, "Kids", array_object(arr));
                dictionary_object(dict)
            },
            PdfNode::Catalog { pages } => {
                let mut dict = new_dictionary();
                dict_set_clean(&mut dict, "Type", name_object("Catalog"));
                dict_set_clean(&mut dict, "Pages", reference_object(ids[*pages]));
                dictionary_object(dict)
            },
        };
        let id = add_object(&mut doc, obj);
        ids.push(id);
        proof {
            assert(spec_doc_objects(doc) == objs0.insert(spec_emit_id(i as int), obj));
            assert(spec_doc_objects(doc).dom() =~= Set::new(
                |id: (u32, u16)| 1 <= id.0 <= i + 1 && id.1 == 0,
            ));
            assert forall|t: int|
                0 <= t < i + 1 && g.nodes@[t].spec_is_page() implies spec_page_dict(
                #[trigger] spec_doc_objects(doc)[spec_emit_id(t)],
            ) by {
                if t < i {
                    assert(spec_doc_objects(doc)[spec_emit_id(t)] == objs0[spec_emit_id(t)]);
                }
            }
            assert forall|t: int|
                0 <= t < i + 1 && g.nodes@[t] is CopiedPage implies #[trigger] spec_doc_objects(
                doc,
            )[spec_emit_id(t)] == spec_rewritten_page(g.nodes@, t) by {
                if t < i {
                    assert(spec_doc_objects(doc)[spec_emit_id(t)] == objs0[spec_emit_id(t)]);
                }
            }
            if spec_graph_clean(g.nodes@) {
                assert forall|t: int| 0 <= t < i + 1 implies spec_writable(
                    #[trigger] spec_doc_objects(doc)[spec_emit_id(t)],
                ) by {
                    if t < i {
                        assert(spec_doc_objects(doc)[spec_emit_id(t)] == objs0[spec_emit_id(t)]);
                    }
                }
            }
        }
        i += 1;
    }
    emit_tree_and_save(g, doc, ids)
}

/// Whether every value of a dictionary serializes cleanly.
pub open spec fn spec_entries_writable(d: lopdf::Dictionary) -> bool {
    forall|x: int|
        0 <= x < spec_dict_entries(d).len() ==> spec_writable((#[trigger] spec_dict_entries(d)[x]).1)
}

/// Sets one entry to a cleanly serializing value, keeping every value of
/// the dictionary cleanly serializing.
fn dict_set_clean(d: &mut lopdf::Dictionary, key: &str, value: lopdf::Object)
    requires
        spec_entries_writable(*old(d)),
        spec_writable(value),
    ensures
        spec_dict_entries(*final(d)) == spec_dict_upsert(spec_dict_entries(*old(d)), key@, value),
        spec_entries_writable(*final(d)),
{
    let ghost e = spec_dict_entries(*d);
    let ghost v = value;
    dict_set(d, key, value);
    proof {
        lemma_upsert_writable(e, key@, v);
    }
}
/// Emits the page tree, the catalog, the Parent links and the trailer
/// root, then writes the document out.
#[verifier::rlimit(100)]
fn emit_tree_and_save(g: &PdfGraph, doc: lopdf::Document, ids: Vec<(u32, u16)>) -> (r: Result<
    Vec<u8>,
    MergeError,
>)
    requires
        g.spec_complete(),
        2 <= g.nodes@.len() && g.nodes@.len() < u32::MAX - 1,
        ids@.len() == g.nodes@.len() - 2,
        forall|t: int| 0 <= t < ids@.len() ==> #[trigger] ids@[t] == spec_emit_id(t),
        spec_doc_max_id(doc) as int == g.nodes@.len() - 2,
        spec_doc_root(doc) is None,
        spec_doc_objects(doc).dom() == Set::new(
            |id: (u32, u16)| 1 <= id.0 <= g.nodes@.len() - 2 && id.1 == 0,
        ),
        forall|t: int|
            0 <= t < g.nodes@.len() - 2 && g.nodes@[t].spec_is_page() ==> spec_page_dict(
                #[trigger] spec_doc_objects(doc)[spec_emit_id(t)],
            ),
        forall|t: int|
            0 <= t < g.nodes@.len() - 2 && g.nodes@[t] is CopiedPage ==> #[trigger] spec_doc_objects(
                doc,
            )[spec_emit_id(t)] == spec_rewritten_page(g.nodes@, t),
        spec_graph_clean(g.nodes@) ==> (forall|t: int|
            0 <= t < g.nodes@.len() - 2 ==> spec_writable(
                #[trigger] spec_doc_objects(doc)[spec_emit_id(t)],
            )),
    ensures
        r is Ok,
        spec_graph_clean(g.nodes@) ==> (r matches Ok(b) ==> spec_pdf_parses(b@)
            && spec_pdf_page_ids(b@).len() == g.spec_page_count() && spec_pdf_clean(b@) && (forall|
                k: int,
            |
                0 <= k < spec_page_indices(g.nodes@).len() && g.nodes@[spec_page_indices(
                    g.nodes@,
                )[k]] is CopiedPage ==> #[trigger] spec_pdf_page_objects(b@)[k]
                    == spec_emitted_copied_page(
                    g.nodes@,
                    spec_page_indices(g.nodes@)[k],
                    g.nodes@.len() as int,
                ))),
{
    let mut doc = doc;
    let mut ids = ids;
    let n = g.nodes.len();
    let ghost objs_entry = spec_doc_objects(doc);
    match &g.nodes[n - 2] {
        PdfNode::PageTree { kids } => {
            let ghost pidx = spec_page_indices(g.nodes@);
            let ghost kd = Seq::new(kids@.len(), |x: int| spec_emit_id(kids@[x] as int));
            proof {
                lemma_page_indices_bounds(g.nodes@);
                lemma_page_indices_len_bound(g.nodes@);
                assert(Seq::new(kids@.len(), |j: int| kids@[j] as int) == pidx);
                assert forall|x: int| 0 <= x < kids@.len() implies #[trigger] kids@[x] < n - 2
                    && g.nodes@[kids@[x] as int].spec_is_page() by {
                    assert(Seq::new(kids@.len(), |j: int| kids@[j] as int)[x] == kids@[x] as int);
                    assert(pidx[x] == kids@[x] as int);
                    assert(g.nodes@[pidx[x]].spec_is_page());
                    assert(pidx[x] != n - 2 && pidx[x] != n - 1);
                }
            }
            let mut arr: Vec<lopdf::Object> = Vec::new();
            let mut j: usize = 0;
            while j < kids.len()
                invariant
                    n == g.nodes@.len(),
                    2 <= n,
                    ids@.len() == n - 2,
                    forall|t: int| 0 <= t < ids@.len() ==> #[trigger] ids@[t] == spec_emit_id(t),
                    forall|x: int| 0 <= x < kids@.len() ==> #[trigger] kids@[x] < n - 2,
                    kd == Seq::new(kids@.len(), |x: int| spec_emit_id(kids@[x] as int)),
                    j <= kids@.len(),
                    arr@.len() == j as int,
                    forall|x: int|
                        0 <= x < j ==> #[trigger] arr@[x] == spec_reference_object(kd[x]),
                    forall|x: int| 0 <= x < j ==> spec_writable(#[trigger] arr@[x]),
                    spec_doc_objects(doc) == objs_entry,
                    spec_doc_max_id(doc) as int == n - 2,
                    spec_doc_root(doc) is None,
                decreases kids@.len() - j,
            {
                let k = kids[j];
                arr.push(reference_object(ids[k]));
                proof {
                    assert(ids@[k as int] == spec_emit_id(k as int));
                    assert(kd[j as int] == spec_emit_id(kids@[j as int] as int));
                }
                j += 1;
            }
            proof {
                assert(arr@ =~= kd.map_values(|k: (u32, u16)| spec_reference_object(k)));
                reveal_strlit("Type");
                reveal_strlit("Count");
                reveal_strlit("Kids");
                reveal_strlit("Pages");
                reveal_strlit("Catalog");
                assert("Count"@.len() == 5);
                assert("Type"@.len() == 4);
                assert("Kids"@.len() == 4);
                assert("Pages"@.len() == 5);
                assert("Kids"@[0] == 'K' && "Type"@[0] == 'T');
                assert("Count"@ != "Type"@);
                assert("Kids"@ != "Type"@);
                assert("Kids"@ != "Count"@);
                assert("Pages"@ != "Type"@);
                assert(kids@.len() == pidx.len());
                assert(pidx.len() <= n);
            }
            let mut tdict = new_dictionary();
            let ghost e0 = spec_dict_entries(tdict);
            dict_set_clean(&mut tdict, "Type", name_object("Pages"));
            proof {
                lemma_upsert_fresh(e0, "Type"@, spec_name_object("Pages"@));
            }
            let ghost e1 = spec_dict_entries(tdict);
            dict_set_clean(&mut tdict, "Count", integer_object(kids.len() as i64));
            proof {
                lemma_upsert_fresh(e1, "Count"@, spec_integer_object(kids@.len() as i64));
            }
            let ghost e2 = spec_dict_entries(tdict);
            dict_set_clean(&mut tdict, "Kids", array_object(arr));
            proof {
                lemma_upsert_fresh(
                    e2,
                    "Kids"@,
                    spec_array_object(kd.map_values(|k: (u32, u16)| spec_reference_object(k))),
                );
                assert(spec_dict_entries(tdict) =~= seq![
                    ("Type"@, spec_name_object("Pages"@)),
                    ("Count"@, spec_integer_object(kids@.len() as i64)),
                    (
                        "Kids"@,
                        spec_array_object(kd.map_values(|k: (u32, u16)| spec_reference_object(k))),
                    ),
                ]);
            }
            let ghost gtdict = tdict;
            let tree_obj = dictionary_object(tdict);
            let tree_id = add_object(&mut doc, tree_obj);
            let ghost tree_ghost_id = spec_emit_id(n - 2);
            ids.push(tree_id);
            let mut cdict = new_dictionary();
            let ghost c0 = spec_dict_entries(cdict);
            dict_set_clean(&mut cdict, "Type", name_object("Catalog"));
            proof {
                lemma_upsert_fresh(c0, "Type"@, spec_name_object("Catalog"@));
            }
            let ghost c1 = spec_dict_entries(cdict);
            dict_set_clean(&mut cdict, "Pages", reference_object(tree_id));
            proof {
                lemma_upsert_fresh(c1, "Pages"@, spec_reference_object(tree_ghost_id));
                assert(spec_dict_entries(cdict) =~= seq![
                    ("Type"@, spec_name_object("Catalog"@)),
                    ("Pages"@, spec_reference_object(tree_ghost_id)),
                ]);
            }
            let ghost gcdict = cdict;
            let catalog_obj = dictionary_object(cdict);
            let catalog_id = add_object(&mut doc, catalog_obj);
            let ghost cat_ghost_id = spec_emit_id(n - 1);
            let ghost objs3 = spec_doc_objects(doc);
            proof {
                assert(objs3 == objs_entry.insert(tree_ghost_id, tree_obj).insert(
                    cat_ghost_id,
                    catalog_obj,
                ));
                assert(objs3.dom() =~= Set::new(|id: (u32, u16)| 1 <= id.0 <= n && id.1 == 0));
                lemma_page_indices_increasing(g.nodes@);
                assert forall|x1: int, x2: int|
                    #![trigger kids@[x1], kids@[x2]]
                    0 <= x1 < x2 < kids@.len() implies kids@[x1] != kids@[x2] by {
                    assert(Seq::new(kids@.len(), |j2: int| kids@[j2] as int)[x1] == kids@[x1] as int);
                    assert(pidx[x1] == kids@[x1] as int);
                    assert(pidx[x2] == kids@[x2] as int);
                    assert(pidx[x1] < pidx[x2]);
                }
                assert forall|x: int| 0 <= x < kids@.len() implies spec_page_dict(
                    #[trigger] objs3[kd[x]],
                ) by {
                    let t = kids@[x] as int;
                    assert(g.nodes@[t].spec_is_page());
                    assert(kd[x] == spec_emit_id(t));
                    assert(kd[x].0 < n - 1);
                    assert(objs3[kd[x]] == objs_entry[spec_emit_id(t)]);
                    assert(spec_page_dict(objs_entry[spec_emit_id(t)]));
                }
                assert forall|x: int|
                    0 <= x < kids@.len() && g.nodes@[kids@[x] as int] is CopiedPage implies
                    #[trigger] objs3[kd[x]] == spec_rewritten_page(g.nodes@, kids@[x] as int) by {
                    let t = kids@[x] as int;
                    assert(kd[x] == spec_emit_id(t));
                    assert(kd[x].0 < n - 1);
                    assert(objs3[kd[x]] == objs_entry[spec_emit_id(t)]);
                    assert(objs_entry[spec_emit_id(t)] == spec_rewritten_page(g.nodes@, t));
                }
                if spec_graph_clean(g.nodes@) {
                    assert(spec_entries_writable(gtdict));
                    assert(spec_writable(tree_obj));
                    assert(spec_writable(catalog_obj));
                    assert forall|id: (u32, u16)| objs3.dom().contains(id) implies spec_writable(
                        #[trigger] objs3[id],
                    ) by {
                        if id == cat_ghost_id {
                        } else if id == tree_ghost_id {
                        } else {
                            assert(1 <= id.0 <= n - 2 && id.1 == 0);
                            let t = id.0 - 1;
                            assert(id == spec_emit_id(t));
                            assert(objs3[id] == objs_entry[spec_emit_id(t)]);
                            assert(spec_writable(objs_entry[spec_emit_id(t)]));
                        }
                    }
                }
            }
            let mut j2: usize = 0;
            proof {
                reveal_strlit("Parent");
                reveal_strlit("Type");
                assert("Parent"@.len() == 6);
                assert("Type"@.len() == 4);
                assert("Parent"@ != "Type"@);
            }
            while j2 < kids.len()
                invariant
                    n == g.nodes@.len(),
                    2 <= n < u32::MAX,
                    ids@.len() == n - 1,
                    forall|t: int| 0 <= t < ids@.len() ==> #[trigger] ids@[t] == spec_emit_id(t),
                    forall|x: int| 0 <= x < kids@.len() ==> #[trigger] kids@[x] < n - 2,
                    forall|x1: int, x2: int|
                        #![trigger kids@[x1], kids@[x2]]
                        0 <= x1 < x2 < kids@.len() ==> kids@[x1] != kids@[x2],
                    kd == Seq::new(kids@.len(), |x: int| spec_emit_id(kids@[x] as int)),
                    "Parent"@ != "Type"@,
                    tree_id == spec_emit_id(n - 2),
                    tree_ghost_id == tree_id,
                    cat_ghost_id == spec_emit_id(n - 1),
                    catalog_id == cat_ghost_id,
                    j2 <= kids@.len(),
                    spec_doc_max_id(doc) as int == n as int,
                    spec_doc_root(doc) is None,
                    spec_doc_objects(doc).dom() == objs3.dom(),
                    objs3.dom() == Set::new(|id: (u32, u16)| 1 <= id.0 <= n && id.1 == 0),
                    objs3[tree_ghost_id] == tree_obj,
                    objs3[cat_ghost_id] == catalog_obj,
                    spec_doc_objects(doc)[tree_ghost_id] == tree_obj,
                    spec_doc_objects(doc)[cat_ghost_id] == catalog_obj,
                    forall|x: int|
                        0 <= x < j2 ==> #[trigger] spec_doc_objects(doc)[kd[x]]
                            == spec_with_entry_ref(objs3[kd[x]], "Parent"@, spec_emit_id(n - 2)),
                    forall|x: int|
                        j2 <= x < kids@.len() ==> #[trigger] spec_doc_objects(doc)[kd[x]]
                            == objs3[kd[x]],
                    forall|x: int|
                        0 <= x < kids@.len() ==> spec_page_dict(
                            #[trigger] spec_doc_objects(doc)[kd[x]],
                        ),
                    forall|x: int| 0 <= x < kids@.len() ==> spec_page_dict(#[trigger] objs3[kd[x]]),
                    forall|x: int|
                        0 <= x < kids@.len() && g.nodes@[kids@[x] as int] is CopiedPage ==> #[trigger] objs3[kd[x]]
                            == spec_rewritten_page(g.nodes@, kids@[x] as int),
                    spec_graph_clean(g.nodes@) ==> (forall|id: (u32, u16)|
                        objs3.dom().contains(id) ==> spec_writable(
                            #[trigger] spec_doc_objects(doc)[id],
                        )),
                    spec_graph_clean(g.nodes@) ==> (forall|id: (u32, u16)|
                        objs3.dom().contains(id) ==> spec_writable(#[trigger] objs3[id])),
                decreases kids@.len() - j2,
            {
                let ghost objs_before = spec_doc_objects(doc);
                let k = kids[j2];
                let kid_id = ids[k];
                proof {
                    assert(kd[j2 as int] == spec_emit_id(k as int));
                    assert(kid_id == kd[j2 as int]);
                    assert(objs_before.dom().contains(kid_id));
                    assert(spec_page_dict(objs_before[kid_id]));
                }
                set_parent(&mut doc, kid_id, tree_id);
                proof {
                    assert(spec_doc_objects(doc) == objs_before.insert(
                        kid_id,
                        spec_with_entry_ref(objs_before[kid_id], "Parent"@, tree_ghost_id),
                    ));
                    assert(spec_doc_objects(doc).dom() =~= objs3.dom());
                    assert(objs_before[kid_id] == objs3[kd[j2 as int]]);
                    assert(spec_page_dict(spec_doc_objects(doc)[kid_id]));
                    assert(kid_id.0 < n - 1);
                    assert(spec_doc_objects(doc)[tree_ghost_id] == tree_obj);
                    assert(spec_doc_objects(doc)[cat_ghost_id] == catalog_obj);
                    assert forall|x: int| 0 <= x < j2 + 1 implies #[trigger] spec_doc_objects(
                        doc,
                    )[kd[x]] == spec_with_entry_ref(objs3[kd[x]], "Parent"@, spec_emit_id(n - 2)) by {
                        if x < j2 {
                            assert(kd[x] != kd[j2 as int]);
                            assert(spec_doc_objects(doc)[kd[x]] == objs_before[kd[x]]);
                        }
                    }
                    assert forall|x: int| j2 + 1 <= x < kids@.len() implies
                        #[trigger] spec_doc_objects(doc)[kd[x]] == objs3[kd[x]] by {
                        assert(kd[x] != kd[j2 as int]);
                        assert(spec_doc_objects(doc)[kd[x]] == objs_before[kd[x]]);
                    }
                    assert forall|x: int| 0 <= x < kids@.len() implies spec_page_dict(
                        #[trigger] spec_doc_objects(doc)[kd[x]],
                    ) by {
                        if x != j2 {
                            assert(kd[x] != kd[j2 as int]);
                            assert(spec_doc_objects(doc)[kd[x]] == objs_before[kd[x]]);
                        }
                    }
                    if spec_graph_clean(g.nodes@) {
                        assert(spec_writable(objs_before[kid_id]));
                        assert(spec_writable(spec_doc_objects(doc)[kid_id]));
                        assert forall|id: (u32, u16)| objs3.dom().contains(id) implies spec_writable(
                            #[trigger] spec_doc_objects(doc)[id],
                        ) by {
                            if id != kid_id {
                                assert(spec_doc_objects(doc)[id] == objs_before[id]);
                            }
                        }
                    }
                }
                j2 += 1;
            }
            set_root(&mut doc, catalog_id);
            proof {
                if spec_graph_clean(g.nodes@) {
                    assert(spec_well_built(doc, kd)) by {
                        assert(spec_doc_max_id(doc) as int == n as int);
                        assert(spec_doc_objects(doc).dom() =~= Set::new(
                            |id: (u32, u16)| 1 <= id.0 <= n && id.1 == 0,
                        ));
                        assert(spec_doc_objects(doc)[cat_ghost_id] == catalog_obj);
                        assert(spec_doc_objects(doc)[tree_ghost_id] == tree_obj);
                        assert(catalog_obj == spec_dictionary_object(gcdict));
                        assert(tree_obj == spec_dictionary_object(gtdict));
                        assert(kd.len() == kids@.len());
                        assert(spec_dict_entries(gtdict) =~= seq![
                            ("Type"@, spec_name_object("Pages"@)),
                            ("Count"@, spec_integer_object(kd.len() as i64)),
                            (
                                "Kids"@,
                                spec_array_object(
                                    kd.map_values(|k: (u32, u16)| spec_reference_object(k)),
                                ),
                            ),
                        ]);
                        assert forall|x1: int, x2: int|
                            #![trigger kd[x1], kd[x2]]
                            0 <= x1 < x2 < kd.len() implies kd[x1] != kd[x2] by {
                            assert(kids@[x1] != kids@[x2]);
                        }
                        assert forall|x: int| 0 <= x < kd.len() implies 1 <= (#[trigger] kd[x]).0
                            && kd[x].0 <= n - 2 && kd[x].1 == 0 by {
                            assert(kd[x] == spec_emit_id(kids@[x] as int));
                        }
                    }
                }
            }
            let ghost doc_before_save = doc;
            match save_document(&mut doc) {
                Ok(bytes) => {
                    proof {
                        if spec_graph_clean(g.nodes@) {
                            assert(spec_well_built(doc_before_save, kd));
                            assert(spec_pdf_page_ids(bytes@) == kd);
                            assert(kd.len() == spec_page_indices(g.nodes@).len());
                            assert(spec_pdf_page_objects(bytes@) == Seq::new(
                                kd.len(),
                                |j: int| spec_doc_objects(doc_before_save)[kd[j]],
                            ));
                            assert forall|k: int|
                                0 <= k < spec_page_indices(g.nodes@).len() && g.nodes@[
                                spec_page_indices(g.nodes@)[k]] is CopiedPage implies
                                #[trigger] spec_pdf_page_objects(bytes@)[k]
                                == spec_emitted_copied_page(
                                g.nodes@,
                                spec_page_indices(g.nodes@)[k],
                                n as int,
                            ) by {
                                assert(Seq::new(kids@.len(), |j2: int| kids@[j2] as int)[k]
                                    == kids@[k] as int);
                                assert(spec_page_indices(g.nodes@)[k] == kids@[k] as int);
                                assert(spec_pdf_page_objects(bytes@)[k] == spec_doc_objects(
                                    doc_before_save,
                                )[kd[k]]);
                                assert(spec_doc_objects(doc_before_save)[kd[k]]
                                    == spec_with_entry_ref(
                                    objs3[kd[k]],
                                    "Parent"@,
                                    spec_emit_id(n - 2),
                                ));
                                assert(objs3[kd[k]] == spec_rewritten_page(
                                    g.nodes@,
                                    kids@[k] as int,
                                ));
                            }
                        }
                    }
                    Ok(bytes)
                },
                Err(e) => {
                    proof {
                        assert(false);
                    }
                    Err(MergeError::Save(pdf_error_message(&e)))
                },
            }
        },
        _ => {
            proof {
                assert(false);
            }
            Err(MergeError::Save(String::new()))
        },
    }
}

} // verus!
