//! Page layout arithmetic for placing one raster image on an A4 page.
//!
//! All lengths are carried in thousandths of a typographic point
//! ("millipoints"), so the layout is exact integer arithmetic: an A4 page is
//! 210 x 297 mm, which is 595.276 x 841.890 points, held here as 595276 x
//! 841890. The margin is 15 mm (42.520 points).

use vstd::prelude::*;
use vstd::arithmetic::div_mod::{lemma_fundamental_div_mod, lemma_mod_division_less_than_divisor};

verus! {

/// A4 page width in millipoints (210 mm).
pub const A4_WIDTH_MPT: u64 = 595276;

/// A4 page height in millipoints (297 mm).
pub const A4_HEIGHT_MPT: u64 = 841890;

/// Page margin in millipoints (15 mm).
pub const MARGIN_MPT: u64 = 42520;

/// Width of the content area between the margins.
pub const CONTENT_WIDTH_MPT: u64 = 510236;

/// Height of the content area between the margins.
pub const CONTENT_HEIGHT_MPT: u64 = 756850;

/// Where an image of some pixel size lands on the page: its scaled size and
/// the offset of its lower-left corner, all in millipoints.
#[derive(Debug, Clone, Copy, PartialEq, Eq)]
pub struct Placement {
    pub width_mpt: u64,
    pub height_mpt: u64,
    pub x_mpt: u64,
    pub y_mpt: u64,
}

/// The scaled width of a w x h pixel image fitted proportionally into the
/// content area: the full content width when the width is the binding
/// constraint, otherwise scaled down by the height constraint.
pub open spec fn spec_fitted_width(w: int, h: int) -> int {
    if (CONTENT_WIDTH_MPT as int) * h <= (CONTENT_HEIGHT_MPT as int) * w {
        CONTENT_WIDTH_MPT as int
    } else {
        (w * (CONTENT_HEIGHT_MPT as int)) / h
    }
}

/// The scaled height of a w x h pixel image fitted proportionally into the
/// content area.
pub open spec fn spec_fitted_height(w: int, h: int) -> int {
    if (CONTENT_WIDTH_MPT as int) * h <= (CONTENT_HEIGHT_MPT as int) * w {
        (h * (CONTENT_WIDTH_MPT as int)) / w
    } else {
        CONTENT_HEIGHT_MPT as int
    }
}

/// The placed image never exceeds the content area, and the uniform scale
/// keeps the aspect ratio: the cross products of the fitted size and the
/// pixel size differ by less than one rounding step in either direction.
pub proof fn lemma_fit_preserves_aspect(w: int, h: int)
    requires
        w > 0,
        h > 0,
    ensures
        spec_fitted_width(w, h) <= CONTENT_WIDTH_MPT as int,
        spec_fitted_height(w, h) <= CONTENT_HEIGHT_MPT as int,
        spec_fitted_width(w, h) >= 0,
        spec_fitted_height(w, h) >= 0,
        h * spec_fitted_width(w, h) - w * spec_fitted_height(w, h) < w,
        h * spec_fitted_width(w, h) - w * spec_fitted_height(w, h) > -h,
{
    let cw = CONTENT_WIDTH_MPT as int;
    let ch = CONTENT_HEIGHT_MPT as int;
    if cw * h <= ch * w {
        let fh = (h * cw) / w;
        lemma_fundamental_div_mod(h * cw, w);
        lemma_mod_division_less_than_divisor(h * cw, w);
        assert(h * cw == w * fh + (h * cw) % w);
        assert(0 <= (h * cw) % w < w);
        assert(fh >= 0) by (nonlinear_arith)
            requires
                w > 0,
                h * cw == w * fh + (h * cw) % w,
                0 <= (h * cw) % w,
                h * cw >= 0,
                h > 0,
                cw > 0,
        {
        }
        assert(w * fh <= ch * w) by (nonlinear_arith)
            requires
                h * cw == w * fh + (h * cw) % w,
                0 <= (h * cw) % w,
                cw * h <= ch * w,
                h * cw == cw * h,
        {
        }
        assert(fh <= ch) by (nonlinear_arith)
            requires
                w * fh <= ch * w,
                w > 0,
        {
        }
    } else {
        let fw = (w * ch) / h;
        lemma_fundamental_div_mod(w * ch, h);
        lemma_mod_division_less_than_divisor(w * ch, h);
        assert(w * ch == h * fw + (w * ch) % h);
        assert(0 <= (w * ch) % h < h);
        assert(fw >= 0) by (nonlinear_arith)
            requires
                h > 0,
                w * ch == h * fw + (w * ch) % h,
                0 <= (w * ch) % h < h,
                w > 0,
                ch > 0,
        {
        }
        assert(h * fw <= cw * h) by (nonlinear_arith)
            requires
                w * ch == h * fw + (w * ch) % h,
                0 <= (w * ch) % h,
                !(cw * h <= ch * w),
        {
        }
        assert(fw <= cw) by (nonlinear_arith)
            requires
                h * fw <= cw * h,
                h > 0,
        {
        }
    }
}

/// The full placement of a w x h pixel image: the fitted size, centered
/// between the margins.
pub open spec fn spec_placement_for(w: int, h: int) -> Placement {
    Placement {
        width_mpt: spec_fitted_width(w, h) as u64,
        height_mpt: spec_fitted_height(w, h) as u64,
        x_mpt: (MARGIN_MPT + (CONTENT_WIDTH_MPT - spec_fitted_width(w, h)) / 2) as u64,
        y_mpt: (MARGIN_MPT + (CONTENT_HEIGHT_MPT - spec_fitted_height(w, h)) / 2) as u64,
    }
}

/// Computes the A4 placement of a w x h pixel image: proportional fit into
/// the content area, centered between the margins.
pub fn fit_to_content(w: u32, h: u32) -> (p: Placement)
    requires
        w > 0,
        h > 0,
    ensures
        p == spec_placement_for(w as int, h as int),
        p.width_mpt as int == spec_fitted_width(w as int, h as int),
        p.height_mpt as int == spec_fitted_height(w as int, h as int),
        p.width_mpt <= CONTENT_WIDTH_MPT,
        p.height_mpt <= CONTENT_HEIGHT_MPT,
        p.x_mpt as int == MARGIN_MPT + (CONTENT_WIDTH_MPT - p.width_mpt) / 2,
        p.y_mpt as int == MARGIN_MPT + (CONTENT_HEIGHT_MPT - p.height_mpt) / 2,
        MARGIN_MPT <= p.x_mpt,
        MARGIN_MPT <= p.y_mpt,
        p.x_mpt as int + p.width_mpt as int <= A4_WIDTH_MPT - MARGIN_MPT,
        p.y_mpt as int + p.height_mpt as int <= A4_HEIGHT_MPT - MARGIN_MPT,
{
    proof {
        lemma_fit_preserves_aspect(w as int, h as int);
    }
    let w64: u64 = w as u64;
    let h64: u64 = h as u64;
    let (pw, ph): (u64, u64) = if CONTENT_WIDTH_MPT * h64 <= CONTENT_HEIGHT_MPT * w64 {
        (CONTENT_WIDTH_MPT, (h64 * CONTENT_WIDTH_MPT) / w64)
    } else {
        ((w64 * CONTENT_HEIGHT_MPT) / h64, CONTENT_HEIGHT_MPT)
    };
    let x: u64 = MARGIN_MPT + (CONTENT_WIDTH_MPT - pw) / 2;
    let y: u64 = MARGIN_MPT + (CONTENT_HEIGHT_MPT - ph) / 2;
    Placement { width_mpt: pw, height_mpt: ph, x_mpt: x, y_mpt: y }
}

} // verus!
