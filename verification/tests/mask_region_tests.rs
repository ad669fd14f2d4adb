use calibraw_core::mask_region::mask_region_texture_extent;

#[test]
fn texture_extent_preserves_aspect_ratio_and_atlas_limits() {
    assert_eq!(
        mask_region_texture_extent([5, 8, 600, 400], 1024),
        [600, 400]
    );
    assert_eq!(
        mask_region_texture_extent([5, 8, 600, 400], 300),
        [300, 200]
    );
    assert_eq!(
        mask_region_texture_extent([5, 8, 400, 600], 300),
        [200, 300]
    );
    assert_eq!(
        mask_region_texture_extent([0, 0, 1, u32::MAX], 512),
        [1, 512]
    );
    assert_eq!(mask_region_texture_extent([0; 4], 0), [1, 1]);
}

#[test]
fn texture_extent_rounds_to_the_nearest_pixel() {
    // 1000 x 333 scaled to 100: 33.3 rounds down, 33.5 rounds away from zero.
    assert_eq!(mask_region_texture_extent([0, 0, 1000, 333], 100), [100, 33]);
    assert_eq!(mask_region_texture_extent([0, 0, 1000, 335], 100), [100, 34]);
    assert_eq!(mask_region_texture_extent([0, 0, 3, 2], 0), [1, 1]);
}

#[test]
fn texture_extent_scales_in_double_precision() {
    // 15 / 22 rounds down in double precision, so 11 * (15 / 22) evaluates
    // to just below 7.5 and the short edge becomes 7.
    assert_eq!(mask_region_texture_extent([0, 0, 11, 22], 15), [7, 15]);
    assert_eq!(mask_region_texture_extent([0, 0, 22, 11], 15), [15, 7]);
    assert_eq!(mask_region_texture_extent([0, 0, 3, 1], 2), [2, 1]);
}
