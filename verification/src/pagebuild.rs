//! The single-image page builder: one raster image becomes a minimal,
//! self-contained, independently valid one-page PDF document.
//!
//! The page's content stream places the image once, inside a save/restore
//! state bracket, with the translate-and-scale transform that the geometry
//! module computes.

use vstd::prelude::*;
use vstd::string::StringSliceAdditionalSpecFns;
use crate::errors::MergeError;
use crate::geometry::{Placement, fit_to_content, spec_placement_for};
use crate::graph::{PdfGraph, PdfNode, spec_node_wf, spec_page_indices, spec_graph_clean,
    lemma_page_indices_push, lemma_wf_push};
use crate::raster::{RasterImage, rasterize, MAX_IMAGE_BYTES};
use crate::image_api::{spec_image_decodes, spec_decoded_width, spec_decoded_height};
use crate::lopdf_api::{spec_pdf_parses, spec_pdf_page_ids, spec_pdf_clean, spec_writable};
use crate::emit::emit_graph;
use crate::textbytes::{push_text, push_mpt_text, spec_mpt_text};

verus! {

/// The drawing operators of an image page: one image placement under the
/// computed transform, bracketed by graphics-state save and restore.
pub open spec fn spec_image_ops(p: Placement) -> Seq<u8> {
    "q\n".spec_bytes() + spec_mpt_text(p.width_mpt as nat) + " 0 0 ".spec_bytes() + spec_mpt_text(
        p.height_mpt as nat,
    ) + " ".spec_bytes() + spec_mpt_text(p.x_mpt as nat) + " ".spec_bytes() + spec_mpt_text(
        p.y_mpt as nat,
    ) + " cm\n/Im1 Do\nQ\n".spec_bytes()
}

/// Renders the content stream for a placement.
pub fn build_image_ops(p: &Placement) -> (r: Vec<u8>)
    ensures
        r@ == spec_image_ops(*p),
{
    let mut out: Vec<u8> = Vec::new();
    push_text(&mut out, "q\n");
    push_mpt_text(&mut out, p.width_mpt);
    push_text(&mut out, " 0 0 ");
    push_mpt_text(&mut out, p.height_mpt);
    push_text(&mut out, " ");
    push_mpt_text(&mut out, p.x_mpt);
    push_text(&mut out, " ");
    push_mpt_text(&mut out, p.y_mpt);
    push_text(&mut out, " cm\n/Im1 Do\nQ\n");
    proof {
        assert(out@ =~= spec_image_ops(*p));
    }
    out
}

/// Builds the object graph of a one-page document holding one image: the
/// image stream, its resource dictionary, the content stream, the page,
/// the page tree, and the catalog.
#[verifier::rlimit(60)]
pub fn build_image_graph(img: RasterImage) -> (g: PdfGraph)
    requires
        img.width >= 1,
        img.height >= 1,
    ensures
        g.spec_complete(),
        g.spec_page_count() == 1,
        g.nodes@.len() == 6,
        spec_graph_clean(g.nodes@),
        g.nodes@[0] matches PdfNode::ImageStream { width, height, jpeg } && width == img.width
            && height == img.height && jpeg@ == img.jpeg@,
        g.nodes@[1] == (PdfNode::ImageResources { image: 0 }),
        g.nodes@[2] matches PdfNode::PageContent { ops } && ops@ == spec_image_ops(
            spec_placement_for(img.width as int, img.height as int),
        ),
        g.nodes@[3] == (PdfNode::BuiltPage { resources: 1, contents: 2 }),
{
    let p = fit_to_content(img.width, img.height);
    let ops = build_image_ops(&p);
    let mut nodes: Vec<PdfNode> = Vec::new();
    let ghost stream_node = PdfNode::ImageStream {
        width: img.width,
        height: img.height,
        jpeg: img.jpeg,
    };
    proof {
        lemma_page_indices_push(nodes@, stream_node);
        lemma_wf_push(nodes@, stream_node);
    }
    nodes.push(PdfNode::ImageStream { width: img.width, height: img.height, jpeg: img.jpeg });
    let ghost res_node = PdfNode::ImageResources { image: 0 };
    proof {
        lemma_page_indices_push(nodes@, res_node);
        lemma_wf_push(nodes@, res_node);
    }
    nodes.push(PdfNode::ImageResources { image: 0 });
    let ghost content_node = PdfNode::PageContent { ops: ops };
    proof {
        lemma_page_indices_push(nodes@, content_node);
        lemma_wf_push(nodes@, content_node);
    }
    nodes.push(PdfNode::PageContent { ops });
    let ghost page_node = PdfNode::BuiltPage { resources: 1, contents: 2 };
    proof {
        lemma_page_indices_push(nodes@, page_node);
        lemma_wf_push(nodes@, page_node);
    }
    nodes.push(PdfNode::BuiltPage { resources: 1, contents: 2 });
    let mut kids: Vec<usize> = Vec::new();
    kids.push(3);
    let ghost tree_node = PdfNode::PageTree { kids: kids };
    proof {
        assert(spec_page_indices(nodes@) =~= seq![3int]);
        assert(kids@ =~= seq![3usize]);
        assert(spec_node_wf(nodes@.push(tree_node), nodes@.len() as int));
        lemma_page_indices_push(nodes@, tree_node);
        lemma_wf_push(nodes@, tree_node);
    }
    nodes.push(PdfNode::PageTree { kids });
    let ghost catalog_node = PdfNode::Catalog { pages: 4 };
    proof {
        lemma_page_indices_push(nodes@, catalog_node);
        lemma_wf_push(nodes@, catalog_node);
    }
    nodes.push(PdfNode::Catalog { pages: 4 });
    let g = PdfGraph { nodes };
    proof {
        assert(spec_page_indices(g.nodes@) =~= seq![3int]);
        assert(g.nodes@[4] matches PdfNode::PageTree { kids: kk } && Seq::new(
            kk@.len(),
            |j: int| kk@[j] as int,
        ) =~= seq![3int]);
        assert forall|t: int| 0 <= t < g.nodes@.len() implies match #[trigger] g.nodes@[t] {
            PdfNode::CopiedPage { payload, .. } => spec_writable(payload),
            PdfNode::Copied { payload } => spec_writable(payload),
            _ => true,
        } by {
            assert(!(g.nodes@[t] is CopiedPage) && !(g.nodes@[t] is Copied));
        }
    }
    g
}

/// Converts an image blob into the bytes of a single-page A4 PDF with the
/// image fitted and centered between 15 mm margins.
///
/// Failures are exactly the rasterizer's; within the cap, a decodable
/// image always yields a clean one-page document.
pub fn image_to_single_page_pdf_bytes(image_data: &Vec<u8>) -> (r: Result<Vec<u8>, MergeError>)
    ensures
        image_data@.len() > MAX_IMAGE_BYTES ==> r == Err::<Vec<u8>, MergeError>(
            MergeError::SizeLimit(image_data@.len() as usize),
        ),
        image_data@.len() <= MAX_IMAGE_BYTES && !spec_image_decodes(image_data@) ==> (r matches Err(
            e,
        ) && e matches MergeError::Decode(_)),
        r matches Err(e) ==> (e matches MergeError::SizeLimit(_)
            || e matches MergeError::Decode(_)),
        image_data@.len() <= MAX_IMAGE_BYTES && spec_image_decodes(image_data@)
            && spec_decoded_width(image_data@) >= 1 && spec_decoded_height(image_data@) >= 1
            ==> r is Ok,
        r matches Ok(b) ==> spec_pdf_parses(b@) && spec_pdf_page_ids(b@).len() == 1
            && spec_pdf_clean(b@),
        image_data@.len() <= MAX_IMAGE_BYTES && spec_image_decodes(image_data@) && (
        spec_decoded_width(image_data@) < 1 || spec_decoded_height(image_data@) < 1) ==> (
        r matches Err(e) && e matches MergeError::Decode(_)),
        r is Ok ==> image_data@.len() <= MAX_IMAGE_BYTES && spec_image_decodes(image_data@)
            && spec_decoded_width(image_data@) >= 1 && spec_decoded_height(image_data@) >= 1,
{
    match rasterize(image_data) {
        Err(e) => Err(e),
        Ok(raster) => {
            let g = build_image_graph(raster);
            emit_graph(&g)
        },
    }
}

} // verus!
