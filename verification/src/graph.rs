//! The destination object arena: the library's own model of a PDF object
//! graph under construction.
//!
//! A graph is an ordered arena of nodes; every reference between nodes is
//! an arena index pointing at an earlier node, so emitting the nodes first
//! to last allocates every referenced object before its use. Splicing
//! copies each source page into the arena together with the targets of its
//! direct Resources and Contents references, exactly one level deep:
//! indirect references nested deeper inside a copied object are kept as
//! they are, a deliberate, documented limitation of the merge.

use vstd::prelude::*;
use crate::lopdf_api::{clone_object, spec_page_dict, spec_writable};

verus! {

/// One object of the destination graph.
pub enum PdfNode {
    /// A page object copied from a parsed source. When the targets of its
    /// direct Resources or Contents references were copied alongside, the
    /// indices point at the copies and the emitted page is rewritten to
    /// them.
    CopiedPage { payload: lopdf::Object, resources: Option<usize>, contents: Option<usize> },
    /// An object copied verbatim from a source: the target of a page's
    /// direct Resources or Contents reference.
    Copied { payload: lopdf::Object },
    /// The embedded image of a built image page.
    ImageStream { width: u32, height: u32, jpeg: Vec<u8> },
    /// The resource dictionary of a built image page, exposing the image
    /// stream as an XObject named Im1.
    ImageResources { image: usize },
    /// The content stream of a built image page.
    PageContent { ops: Vec<u8> },
    /// A freshly built page referring to its resources and contents.
    BuiltPage { resources: usize, contents: usize },
    /// The page tree listing every page index in output order.
    PageTree { kids: Vec<usize> },
    /// The catalog pointing at the page tree; the trailer root refers to
    /// it.
    Catalog { pages: usize },
}

impl PdfNode {
    /// Whether this node is a page.
    pub open spec fn spec_is_page(self) -> bool {
        self is CopiedPage || self is BuiltPage
    }
}

/// The indices of the page nodes of `nodes`, in arena order.
pub open spec fn spec_page_indices(nodes: Seq<PdfNode>) -> Seq<int>
    decreases nodes.len(),
{
    if nodes.len() == 0 {
        Seq::empty()
    } else if nodes.last().spec_is_page() {
        spec_page_indices(nodes.drop_last()) + seq![nodes.len() - 1]
    } else {
        spec_page_indices(nodes.drop_last())
    }
}

/// Node-level well-formedness at position `i`: every reference points at
/// an earlier node of the right kind.
pub open spec fn spec_node_wf(nodes: Seq<PdfNode>, i: int) -> bool {
    match nodes[i] {
        PdfNode::CopiedPage { payload, resources, contents } => spec_page_dict(payload) && (match resources {
            Some(r) => r < i && nodes[r as int] is Copied,
            None => true,
        }) && (match contents {
            Some(c) => c < i && nodes[c as int] is Copied,
            None => true,
        }),
        PdfNode::Copied { .. } => true,
        PdfNode::ImageStream { .. } => true,
        PdfNode::ImageResources { image } => image < i && nodes[image as int] is ImageStream,
        PdfNode::PageContent { .. } => true,
        PdfNode::BuiltPage { resources, contents } => resources < i && nodes[resources as int]
            is ImageResources && contents < i && nodes[contents as int] is PageContent,
        PdfNode::PageTree { kids } => forall|j: int|
            0 <= j < kids@.len() ==> #[trigger] kids@[j] < i && nodes[kids@[j] as int].spec_is_page(),
        PdfNode::Catalog { pages } => pages < i && nodes[pages as int] is PageTree,
    }
}

/// Arena-level well-formedness.
pub open spec fn spec_wf(nodes: Seq<PdfNode>) -> bool {
    forall|i: int| 0 <= i < nodes.len() ==> #[trigger] spec_node_wf(nodes, i)
}

/// The arena of a destination document.
pub struct PdfGraph {
    pub nodes: Vec<PdfNode>,
}

impl PdfGraph {
    /// A finished graph: well-formed, ending in a page tree whose kids are
    /// exactly the page nodes in arena order, followed by the catalog that
    /// the trailer root will reference.
    pub open spec fn spec_complete(&self) -> bool {
        let n = self.nodes@.len() as int;
        &&& spec_wf(self.nodes@)
        &&& n >= 2
        &&& self.nodes@[n - 1] == (PdfNode::Catalog { pages: (n - 2) as usize })
        &&& self.nodes@[n - 2] matches PdfNode::PageTree { kids } && Seq::new(
            kids@.len(),
            |j: int| kids@[j] as int,
        ) == spec_page_indices(self.nodes@)
    }

    /// How many pages the graph holds.
    pub open spec fn spec_page_count(&self) -> int {
        spec_page_indices(self.nodes@).len() as int
    }
}

/// Every page index is in range and names a page node.
pub proof fn lemma_page_indices_bounds(nodes: Seq<PdfNode>)
    ensures
        forall|k: int| 0 <= k < spec_page_indices(nodes).len() ==> 0 <= #[trigger] spec_page_indices(
            nodes,
        )[k] < nodes.len() && nodes[spec_page_indices(nodes)[k]].spec_is_page(),
    decreases nodes.len(),
{
    if nodes.len() > 0 {
        let prefix = nodes.drop_last();
        lemma_page_indices_bounds(prefix);
        assert forall|k: int| 0 <= k < spec_page_indices(nodes).len() implies 0
            <= #[trigger] spec_page_indices(nodes)[k] < nodes.len() && nodes[spec_page_indices(
            nodes,
        )[k]].spec_is_page() by {
            if k < spec_page_indices(prefix).len() {
                assert(spec_page_indices(nodes)[k] == spec_page_indices(prefix)[k]);
                assert(nodes[spec_page_indices(prefix)[k]] == prefix[spec_page_indices(prefix)[k]]);
            } else {
                assert(nodes.last().spec_is_page());
                assert(spec_page_indices(nodes)[k] == nodes.len() - 1);
            }
        }
    }
}

/// Appending a node extends the page index list exactly when the node is a
/// page.
pub proof fn lemma_page_indices_push(nodes: Seq<PdfNode>, node: PdfNode)
    ensures
        node.spec_is_page() ==> spec_page_indices(nodes.push(node)) == spec_page_indices(nodes)
            + seq![nodes.len() as int],
        !node.spec_is_page() ==> spec_page_indices(nodes.push(node)) == spec_page_indices(nodes),
{
    assert(nodes.push(node).drop_last() =~= nodes);
    assert(nodes.push(node).last() == node);
}

/// Appending a node that is well-formed at its own position keeps the
/// arena well-formed.
pub proof fn lemma_wf_push(nodes: Seq<PdfNode>, node: PdfNode)
    requires
        spec_wf(nodes),
        spec_node_wf(nodes.push(node), nodes.len() as int),
    ensures
        spec_wf(nodes.push(node)),
{
    let ext = nodes.push(node);
    assert forall|i: int| 0 <= i < ext.len() implies spec_node_wf(ext, i) by {
        if i < nodes.len() {
            assert(spec_node_wf(nodes, i));
            assert(ext[i] == nodes[i]);
            match nodes[i] {
                PdfNode::PageTree { kids } => {
                    assert forall|j: int| 0 <= j < kids@.len() implies #[trigger] kids@[j] < i
                        && ext[kids@[j] as int].spec_is_page() by {
                        assert(kids@[j] < i && nodes[kids@[j] as int].spec_is_page());
                    }
                },
                _ => {},
            }
        }
    }
}

/// Page indices are strictly increasing.
pub proof fn lemma_page_indices_increasing(nodes: Seq<PdfNode>)
    ensures
        forall|j1: int, j2: int|
            0 <= j1 < j2 < spec_page_indices(nodes).len() ==> #[trigger] spec_page_indices(
                nodes,
            )[j1] < #[trigger] spec_page_indices(nodes)[j2],
    decreases nodes.len(),
{
    if nodes.len() > 0 {
        let prefix = nodes.drop_last();
        lemma_page_indices_increasing(prefix);
        lemma_page_indices_bounds(prefix);
        assert forall|j1: int, j2: int|
            0 <= j1 < j2 < spec_page_indices(nodes).len() implies #[trigger] spec_page_indices(
            nodes,
        )[j1] < #[trigger] spec_page_indices(nodes)[j2] by {
            if j2 < spec_page_indices(prefix).len() {
                assert(spec_page_indices(nodes)[j1] == spec_page_indices(prefix)[j1]);
                assert(spec_page_indices(nodes)[j2] == spec_page_indices(prefix)[j2]);
            } else {
                assert(nodes.last().spec_is_page());
                assert(spec_page_indices(nodes)[j2] == nodes.len() - 1);
                assert(spec_page_indices(nodes)[j1] == spec_page_indices(prefix)[j1]);
                assert(spec_page_indices(prefix)[j1] < prefix.len());
            }
        }
    }
}

/// There are at most as many pages as nodes.
pub proof fn lemma_page_indices_len_bound(nodes: Seq<PdfNode>)
    ensures
        spec_page_indices(nodes).len() <= nodes.len(),
    decreases nodes.len(),
{
    if nodes.len() > 0 {
        lemma_page_indices_len_bound(nodes.drop_last());
    }
}

/// Every object copied into the arena serializes cleanly.
pub open spec fn spec_graph_clean(nodes: Seq<PdfNode>) -> bool {
    forall|i: int|
        0 <= i < nodes.len() ==> match #[trigger] nodes[i] {
            PdfNode::CopiedPage { payload, .. } => spec_writable(payload),
            PdfNode::Copied { payload } => spec_writable(payload),
            _ => true,
        }
}

/// A source page as extracted from a parsed document: the page object and
/// the targets of its direct Resources and Contents references, when those
/// entries were indirect references that resolved.
pub struct SourcePage {
    pub payload: lopdf::Object,
    pub resources: Option<lopdf::Object>,
    pub contents: Option<lopdf::Object>,
}

/// A parsed source document: its pages in page-tree traversal order.
pub struct ParsedSource {
    pub pages: Vec<SourcePage>,
}

/// The pages of an ordered list of parsed sources, flattened in order.
pub open spec fn spec_flat_pages(docs: Seq<ParsedSource>) -> Seq<SourcePage>
    decreases docs.len(),
{
    if docs.len() == 0 {
        Seq::empty()
    } else {
        docs.first().pages@ + spec_flat_pages(docs.drop_first())
    }
}

/// Flattening distributes over appending one source.
pub proof fn lemma_flat_pages_push(docs: Seq<ParsedSource>, d: ParsedSource)
    ensures
        spec_flat_pages(docs.push(d)) == spec_flat_pages(docs) + d.pages@,
    decreases docs.len(),
{
    if docs.len() == 0 {
        assert(docs.push(d).first() == d);
        assert(docs.push(d).drop_first() =~= Seq::<ParsedSource>::empty());
        assert(spec_flat_pages(docs.push(d)) == d.pages@ + spec_flat_pages(
            Seq::<ParsedSource>::empty(),
        ));
        assert(spec_flat_pages(docs.push(d)) =~= spec_flat_pages(docs) + d.pages@);
    } else {
        assert(docs.push(d).first() == docs.first());
        assert(docs.push(d).drop_first() =~= docs.drop_first().push(d));
        lemma_flat_pages_push(docs.drop_first(), d);
        assert(spec_flat_pages(docs.push(d)) == docs.first().pages@ + (spec_flat_pages(
            docs.drop_first(),
        ) + d.pages@));
        assert(spec_flat_pages(docs.push(d)) =~= spec_flat_pages(docs) + d.pages@);
    }
}

/// The total page count of an ordered list of parsed sources.
pub open spec fn spec_total_pages(docs: Seq<ParsedSource>) -> int
    decreases docs.len(),
{
    if docs.len() == 0 {
        0
    } else {
        docs.first().pages@.len() + spec_total_pages(docs.drop_first())
    }
}

/// Order preservation, counted: the flattened page list of an ordered
/// source list holds exactly the sum of the sources' page counts, so a
/// graph whose pages match it holds that many pages.
pub proof fn lemma_flat_pages_count(docs: Seq<ParsedSource>)
    ensures
        spec_flat_pages(docs).len() == spec_total_pages(docs),
    decreases docs.len(),
{
    if docs.len() > 0 {
        lemma_flat_pages_count(docs.drop_first());
    }
}

/// The node at `i` is a copy of the source page `src`: same payload, and
/// the copies of its direct reference targets stored in the arena.
pub open spec fn spec_page_matches(nodes: Seq<PdfNode>, i: int, src: SourcePage) -> bool {
    &&& 0 <= i < nodes.len()
    &&& nodes[i] matches PdfNode::CopiedPage { payload, resources, contents }
        && payload == src.payload && (match (resources, src.resources) {
        (Some(r), Some(o)) => 0 <= r < nodes.len() && nodes[r as int] == (PdfNode::Copied {
            payload: o,
        }),
        (None, None) => true,
        _ => false,
    }) && (match (contents, src.contents) {
        (Some(c), Some(o)) => 0 <= c < nodes.len() && nodes[c as int] == (PdfNode::Copied {
            payload: o,
        }),
        (None, None) => true,
        _ => false,
    })
}

/// The pages of the arena match, in order, a flattened source page list.
pub open spec fn spec_pages_match(nodes: Seq<PdfNode>, flat: Seq<SourcePage>) -> bool {
    &&& spec_page_indices(nodes).len() == flat.len()
    &&& forall|k: int| 0 <= k < flat.len() ==> #[trigger] spec_page_matches(
        nodes,
        spec_page_indices(nodes)[k],
        flat[k],
    )
}

/// A page match survives appending nodes.
pub proof fn lemma_page_matches_push(nodes: Seq<PdfNode>, node: PdfNode, i: int, src: SourcePage)
    requires
        spec_page_matches(nodes, i, src),
    ensures
        spec_page_matches(nodes.push(node), i, src),
{
}

/// One appended node with a cleanly serializing payload keeps the arena
/// clean.
pub proof fn lemma_graph_clean_push(nodes: Seq<PdfNode>, node: PdfNode)
    requires
        spec_graph_clean(nodes),
        match node {
            PdfNode::CopiedPage { payload, .. } => spec_writable(payload),
            PdfNode::Copied { payload } => spec_writable(payload),
            _ => true,
        },
    ensures
        spec_graph_clean(nodes.push(node)),
{
    let ext = nodes.push(node);
    assert forall|i: int|
        0 <= i < ext.len() implies match #[trigger] ext[i] {
        PdfNode::CopiedPage { payload, .. } => spec_writable(payload),
        PdfNode::Copied { payload } => spec_writable(payload),
        _ => true,
    } by {
        if i < nodes.len() {
            assert(ext[i] == nodes[i]);
        }
    }
}

/// Every extracted page object is a page dictionary.
pub open spec fn spec_sources_paged(docs: Seq<ParsedSource>) -> bool {
    forall|di: int, pi: int|
        0 <= di < docs.len() && 0 <= pi < docs[di].pages@.len() ==> spec_page_dict(
            (#[trigger] docs[di].pages@[pi]).payload,
        )
}

/// Every extracted object serializes cleanly.
pub open spec fn spec_sources_clean(docs: Seq<ParsedSource>) -> bool {
    forall|di: int, pi: int|
        0 <= di < docs.len() && 0 <= pi < docs[di].pages@.len() ==> {
            let p = #[trigger] docs[di].pages@[pi];
            &&& spec_writable(p.payload)
            &&& (p.resources matches Some(o) ==> spec_writable(o))
            &&& (p.contents matches Some(o) ==> spec_writable(o))
        }
}

/// Splices an ordered list of parsed sources into one destination graph:
/// for each source in input order, each of its pages in traversal order is
/// copied into the arena together with the targets of its direct Resources
/// and Contents references; the page tree lists all copied pages in that
/// order and the catalog closes the graph.
pub fn build_merged_graph(docs: &Vec<ParsedSource>) -> (g: PdfGraph)
    requires
        spec_sources_paged(docs@),
    ensures
        g.spec_complete(),
        spec_pages_match(g.nodes@, spec_flat_pages(docs@)),
        g.spec_page_count() == spec_flat_pages(docs@).len(),
        g.nodes@.len() <= 2 + 3 * spec_flat_pages(docs@).len(),
        spec_sources_clean(docs@) ==> spec_graph_clean(g.nodes@),
{
    let mut nodes: Vec<PdfNode> = Vec::new();
    let mut kids: Vec<usize> = Vec::new();
    let mut di: usize = 0;
    proof {
        assert(docs@.take(0) =~= Seq::<ParsedSource>::empty());
    }
    while di < docs.len()
        invariant
            di <= docs@.len(),
            spec_sources_paged(docs@),
            spec_wf(nodes@),
            spec_pages_match(nodes@, spec_flat_pages(docs@.take(di as int))),
            Seq::new(kids@.len(), |j: int| kids@[j] as int) == spec_page_indices(nodes@),
            forall|j: int| 0 <= j < kids@.len() ==> #[trigger] kids@[j] < nodes@.len(),
            nodes@.len() <= 3 * kids@.len(),
            spec_sources_clean(docs@) ==> spec_graph_clean(nodes@),
        decreases docs@.len() - di,
    {
        let doc = &docs[di];
        let mut pi: usize = 0;
        proof {
            assert(doc.pages@.take(0) =~= Seq::<SourcePage>::empty());
            assert(spec_flat_pages(docs@.take(di as int)) + doc.pages@.take(0) =~= spec_flat_pages(
                docs@.take(di as int)));
        }
        while pi < doc.pages.len()
            invariant
                pi <= doc.pages@.len(),
                di < docs@.len(),
                *doc == docs@[di as int],
                spec_sources_paged(docs@),
                spec_wf(nodes@),
                spec_pages_match(
                    nodes@,
                    spec_flat_pages(docs@.take(di as int)) + doc.pages@.take(pi as int),
                ),
                Seq::new(kids@.len(), |j: int| kids@[j] as int) == spec_page_indices(nodes@),
                forall|j: int| 0 <= j < kids@.len() ==> #[trigger] kids@[j] < nodes@.len(),
                nodes@.len() <= 3 * kids@.len(),
                spec_sources_clean(docs@) ==> spec_graph_clean(nodes@),
            decreases doc.pages@.len() - pi,
        {
            let ghost flat0 = spec_flat_pages(docs@.take(di as int)) + doc.pages@.take(pi as int);
            let ghost nodes0 = nodes@;
            let ghost kids0 = kids@;
            let p = &doc.pages[pi];
            proof {
                assert(docs@[di as int].pages@[pi as int] == *p);
                assert(spec_page_dict(p.payload));
            }
            let resources_idx: Option<usize> = match &p.resources {
                Some(o) => {
                    let copy = clone_object(o);
                    proof {
                        lemma_page_indices_push(nodes@, PdfNode::Copied { payload: *o });
                        lemma_wf_push(nodes@, PdfNode::Copied { payload: *o });
                        if spec_sources_clean(docs@) {
                            lemma_graph_clean_push(nodes@, PdfNode::Copied { payload: *o });
                        }
                    }
                    nodes.push(PdfNode::Copied { payload: copy });
                    Some(nodes.len() - 1)
                },
                None => None,
            };
            let contents_idx: Option<usize> = match &p.contents {
                Some(o) => {
                    let copy = clone_object(o);
                    proof {
                        lemma_page_indices_push(nodes@, PdfNode::Copied { payload: *o });
                        lemma_wf_push(nodes@, PdfNode::Copied { payload: *o });
                        if spec_sources_clean(docs@) {
                            lemma_graph_clean_push(nodes@, PdfNode::Copied { payload: *o });
                        }
                    }
                    nodes.push(PdfNode::Copied { payload: copy });
                    Some(nodes.len() - 1)
                },
                None => None,
            };
            let payload_copy = clone_object(&p.payload);
            let ghost page_node = PdfNode::CopiedPage {
                payload: p.payload,
                resources: resources_idx,
                contents: contents_idx,
            };
            proof {
                lemma_page_indices_push(nodes@, page_node);
                lemma_wf_push(nodes@, page_node);
                if spec_sources_clean(docs@) {
                    lemma_graph_clean_push(nodes@, page_node);
                }
            }
            nodes.push(
                PdfNode::CopiedPage {
                    payload: payload_copy,
                    resources: resources_idx,
                    contents: contents_idx,
                },
            );
            let page_idx = nodes.len() - 1;
            kids.push(page_idx);
            proof {
                let flat1 = flat0.push(*p);
                assert(doc.pages@.take(pi + 1) =~= doc.pages@.take(pi as int).push(doc.pages@[pi as int]));
                assert(spec_flat_pages(docs@.take(di as int)) + doc.pages@.take(pi + 1) =~= flat1);
                assert(spec_page_indices(nodes@) =~= spec_page_indices(nodes0) + seq![
                    page_idx as int,
                ]);
                assert(spec_page_matches(nodes@, page_idx as int, *p));
                assert forall|k: int| 0 <= k < flat1.len() implies #[trigger] spec_page_matches(
                    nodes@,
                    spec_page_indices(nodes@)[k],
                    flat1[k],
                ) by {
                    if k < flat0.len() {
                        assert(spec_page_matches(nodes0, spec_page_indices(nodes0)[k], flat0[k]));
                        assert(spec_page_indices(nodes@)[k] == spec_page_indices(nodes0)[k]);
                    } else {
                        assert(spec_page_indices(nodes@)[k] == page_idx as int);
                        assert(flat1[k] == *p);
                    }
                }
                assert(Seq::new(kids@.len(), |j: int| kids@[j] as int) =~= spec_page_indices(
                    nodes@));
            }
            pi += 1;
        }
        proof {
            assert(docs@.take(di + 1) =~= docs@.take(di as int).push(docs@[di as int]));
            lemma_flat_pages_push(docs@.take(di as int), docs@[di as int]);
            assert(doc.pages@.take(doc.pages@.len() as int) =~= doc.pages@);
        }
        di += 1;
    }
    proof {
        assert(docs@.take(docs@.len() as int) =~= docs@);
    }
    let ghost nodes_before_tree = nodes@;
    let ghost tree_node = PdfNode::PageTree { kids: kids };
    proof {
        lemma_page_indices_bounds(nodes@);
        assert forall|j: int| 0 <= j < kids@.len() implies #[trigger] kids@[j] < nodes@.len()
            && nodes@[kids@[j] as int].spec_is_page() by {
            assert(Seq::new(kids@.len(), |j: int| kids@[j] as int)[j] == kids@[j] as int);
            assert(spec_page_indices(nodes@)[j] == kids@[j] as int);
        }
        assert(spec_node_wf(nodes@.push(tree_node), nodes@.len() as int));
        lemma_page_indices_push(nodes@, tree_node);
        lemma_wf_push(nodes@, tree_node);
        if spec_sources_clean(docs@) {
            lemma_graph_clean_push(nodes@, tree_node);
        }
    }
    let tree_idx = nodes.len();
    nodes.push(PdfNode::PageTree { kids });
    let ghost nodes_with_tree = nodes@;
    let ghost catalog_node = PdfNode::Catalog { pages: tree_idx };
    proof {
        lemma_page_indices_push(nodes@, catalog_node);
        lemma_wf_push(nodes@, catalog_node);
        if spec_sources_clean(docs@) {
            lemma_graph_clean_push(nodes@, catalog_node);
        }
    }
    nodes.push(PdfNode::Catalog { pages: tree_idx });
    let g = PdfGraph { nodes };
    proof {
        assert(spec_page_indices(g.nodes@) == spec_page_indices(nodes_before_tree));
        assert forall|k: int| 0 <= k < spec_flat_pages(docs@).len() implies
            #[trigger] spec_page_matches(
            g.nodes@,
            spec_page_indices(g.nodes@)[k],
            spec_flat_pages(docs@)[k],
        ) by {
            assert(spec_page_matches(
                nodes_before_tree,
                spec_page_indices(nodes_before_tree)[k],
                spec_flat_pages(docs@)[k],
            ));
            lemma_page_matches_push(
                nodes_before_tree,
                tree_node,
                spec_page_indices(nodes_before_tree)[k],
                spec_flat_pages(docs@)[k],
            );
            lemma_page_matches_push(
                nodes_with_tree,
                catalog_node,
                spec_page_indices(nodes_before_tree)[k],
                spec_flat_pages(docs@)[k],
            );
            assert(nodes_with_tree.push(catalog_node) =~= g.nodes@);
        }
    }
    g
}

} // verus!
