use calibraw_core::pixel_map::CompactPixelMap;
use calibraw_core::raw_loader::{
    is_pre_demosaiced_raster, is_supported_raw_path, validate_raw_dimensions, AiDenoisedImage,
    CameraProfileMode, CfaKind,
    RawDimensionError, MAX_RAW_EDGE,
};

#[test]
fn tiff_extensions_are_supported_case_insensitively() {
    for name in ["photo.tif", "photo.TIF", "photo.tiff", "photo.TIFF"] {
        assert!(is_supported_raw_path(name), "{name}");
    }
}

#[test]
fn raw_extensions_are_matched_by_extension_only() {
    assert!(is_supported_raw_path("/cards/DSC0001.ARW"));
    assert!(is_supported_raw_path("shot.nef"));
    assert!(!is_supported_raw_path("shot.jpg"));
    assert!(!is_supported_raw_path("nef"));
    assert!(!is_supported_raw_path("archive.nef.zip"));
}

#[test]
fn automatic_profile_mode_defaults_to_the_embedded_matrix() {
    assert!(!CameraProfileMode::Automatic.prefers_external_dcp());
    assert!(!CameraProfileMode::MatrixOnly.prefers_external_dcp());
    assert!(CameraProfileMode::DcpProfiles.prefers_external_dcp());
}

#[test]
fn compact_map_fast_paths_match_expanded_tiles() {
    for (width, height, tw, th) in [(17u32, 13u32, 1u32, 1u32), (17, 13, 2, 2), (17, 13, 6, 6), (17, 13, 17, 13)] {
        let values: Vec<u32> = (0..tw * th).collect();
        let map = CompactPixelMap::repeating(width, height, tw, th, values.clone());
        for y in 0..height {
            for x in 0..width {
                assert_eq!(
                    *map.value_at((y * width + x) as usize),
                    values[((y % th) * tw + x % tw) as usize]
                );
            }
        }
        assert_eq!(map.get((width * height) as usize), None);
    }
}

#[test]
fn raw_dimensions_are_bounded() {
    assert_eq!(validate_raw_dimensions(6000, 4000), Ok(24_000_000));
    assert_eq!(validate_raw_dimensions(0, 10), Err(RawDimensionError::Empty));
    assert_eq!(validate_raw_dimensions(MAX_RAW_EDGE + 1, 10), Err(RawDimensionError::EdgeTooLong));
    assert_eq!(validate_raw_dimensions(20_000, 20_000), Err(RawDimensionError::TooManyPixels));
}

#[test]
fn ai_denoised_payloads_match_their_layout() {
    assert!(AiDenoisedImage::new(2, 1, vec![0; 6]).is_ok());
    assert!(AiDenoisedImage::new(2, 1, vec![0; 5]).is_err());
    assert!(AiDenoisedImage::new_bayer_cfa(4, 2, (0..8).collect()).is_ok());
    assert_eq!(CfaKind::default(), CfaKind::Bayer);
    assert_eq!(CameraProfileMode::default(), CameraProfileMode::Automatic);
}

#[test]
fn pre_demosaiced_raster_needs_three_samples_per_pixel_and_no_sensor_data() {
    assert!(is_pre_demosaiced_raster(0, Some(12), 2, 2));
    assert!(!is_pre_demosaiced_raster(4, Some(12), 2, 2));
    assert!(!is_pre_demosaiced_raster(0, Some(11), 2, 2));
    assert!(!is_pre_demosaiced_raster(0, None, 2, 2));
    assert!(is_pre_demosaiced_raster(0, Some(usize::MAX), u32::MAX, u32::MAX));
}

#[test]
fn profile_modes_have_stable_cache_keys() {
    assert_eq!(CameraProfileMode::MatrixOnly.cache_key(), "matrix");
    assert_eq!(CameraProfileMode::DcpProfiles.cache_key(), "dcp");
    assert_eq!(CameraProfileMode::Automatic.cache_key(), "auto");
}

#[test]
fn denoised_images_expose_their_payload_and_check_their_size() {
    let rgb = AiDenoisedImage::new(2, 1, vec![1, 2, 3, 4, 5, 6]).unwrap();
    assert_eq!(rgb.camera_rgb16f(), Some(&[1u16, 2, 3, 4, 5, 6][..]));
    assert_eq!(rgb.bayer_cfa(), None);
    assert!(rgb.is_valid_for(2, 1));
    assert!(!rgb.is_valid_for(1, 2));
    let cfa = AiDenoisedImage::new_bayer_cfa(2, 2, vec![7, 8, 9, 10]).unwrap();
    assert_eq!(cfa.camera_rgb16f(), None);
    assert_eq!(cfa.payload(), &[7u16, 8, 9, 10][..]);
    assert!(cfa.is_valid_for(2, 2));
    assert!(!cfa.is_valid_for(4, 1));
}

#[test]
fn compact_maps_crop_with_edge_clamping_and_keep_repeating_tiles() {
    let map = CompactPixelMap::repeating(6, 4, 2, 2, vec![0u8, 1, 2, 3]);
    let (storage_width, storage_height, storage) = map.storage_parts();
    assert_eq!((storage_width, storage_height), (2, 2));
    assert_eq!(storage, &[0u8, 1, 2, 3][..]);
    assert_eq!(map.storage_slice(), &[0u8, 1, 2, 3][..]);

    let inside = map.subregion_clamped(1, 1, 3, 2);
    assert_eq!((inside.width(), inside.height()), (3, 2));
    assert_eq!((inside.storage_width(), inside.storage_height()), (2, 2));
    assert_eq!(inside.storage_slice(), &[3u8, 2, 1, 0][..]);

    let dense = CompactPixelMap::dense(3, 2, vec![1u8, 2, 3, 4, 5, 6]);
    let clamped = dense.subregion_clamped(-1, 1, 3, 2);
    assert_eq!(clamped.storage_slice(), &[4u8, 4, 5, 4, 4, 5][..]);

    let mut row = vec![9u8];
    dense.append_row_to(1, &mut row);
    assert_eq!(row, vec![9, 4, 5, 6]);
    dense.append_row_to(2, &mut row);
    assert_eq!(row, vec![9, 4, 5, 6]);
}
