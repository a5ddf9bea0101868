use pdf_assembly::geometry::{fit_to_content, A4_HEIGHT_MPT, A4_WIDTH_MPT, CONTENT_HEIGHT_MPT,
    CONTENT_WIDTH_MPT, MARGIN_MPT};

#[test]
fn constants_follow_page_size() {
    assert_eq!(CONTENT_WIDTH_MPT, A4_WIDTH_MPT - 2 * MARGIN_MPT);
    assert_eq!(CONTENT_HEIGHT_MPT, A4_HEIGHT_MPT - 2 * MARGIN_MPT);
}

#[test]
fn square_image_is_width_limited_and_centered() {
    let p = fit_to_content(100, 100);
    assert_eq!(p.width_mpt, 510236);
    assert_eq!(p.height_mpt, 510236);
    assert_eq!(p.x_mpt, 42520);
    assert_eq!(p.y_mpt, 42520 + (756850 - 510236) / 2);
}

#[test]
fn wide_image_fills_content_width() {
    let p = fit_to_content(2000, 1000);
    assert_eq!(p.width_mpt, 510236);
    assert_eq!(p.height_mpt, 255118);
}

#[test]
fn tall_image_fills_content_height() {
    let p = fit_to_content(1000, 3000);
    assert_eq!(p.height_mpt, 756850);
    assert_eq!(p.width_mpt, 252283);
}

#[test]
fn placement_never_exceeds_content_area() {
    let cases: Vec<(u32, u32)> = vec![
        (1, 1),
        (1, 4000),
        (4000, 1),
        (1920, 1080),
        (999, 1001),
        (3, 7),
    ];
    for (w, h) in cases {
        let p = fit_to_content(w, h);
        assert!(p.width_mpt <= CONTENT_WIDTH_MPT);
        assert!(p.height_mpt <= CONTENT_HEIGHT_MPT);
        assert!(p.x_mpt >= MARGIN_MPT);
        assert!(p.y_mpt >= MARGIN_MPT);
        assert!(p.x_mpt + p.width_mpt <= A4_WIDTH_MPT - MARGIN_MPT);
        assert!(p.y_mpt + p.height_mpt <= A4_HEIGHT_MPT - MARGIN_MPT);
        // the uniform scale keeps the aspect ratio to within one rounding
        // step in either direction
        let lhs = (h as i128) * (p.width_mpt as i128);
        let rhs = (w as i128) * (p.height_mpt as i128);
        assert!(lhs - rhs < w as i128);
        assert!(rhs - lhs < h as i128);
    }
}
