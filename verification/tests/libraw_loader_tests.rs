use calibraw_core::libraw_loader::{
    black_pattern_dimensions, check_input_file, copy_active_pixels, metadata_period, InputFileError, canonical_cfa_map, canonicalize_values, cfa_kind_from_filters,
    effective_black_level, gcd_usize, lcm_usize, logical_rgb_channel,
    matching_thumbnail_orientation, oriented_source_pos, validate_embedded_thumbnail_metadata,
    validate_opened_raw_geometry, validate_opened_thumbnail_geometry, LibRawError, check_orientation,
    ThumbnailFormat, MAX_EMBEDDED_THUMBNAIL_BYTES,
};
use calibraw_core::raw_loader::{CfaKind, RawDimensionError};

#[test]
fn libraw_filter_codes_select_the_demosaic_family() {
    assert_eq!(cfa_kind_from_filters(9).unwrap(), CfaKind::XTrans);
    assert_eq!(cfa_kind_from_filters(0x9494_9494).unwrap(), CfaKind::Bayer);
    assert!(cfa_kind_from_filters(0).is_err());
    assert!(cfa_kind_from_filters(1).is_err());
}

#[test]
fn filter_code_errors_name_the_case() {
    assert_eq!(cfa_kind_from_filters(0), Err(LibRawError::FullColourInput));
    assert_eq!(cfa_kind_from_filters(1), Err(LibRawError::LeafCatchLight));
    assert_eq!(cfa_kind_from_filters(7), Err(LibRawError::UnsupportedFilters(7)));
    assert_eq!(cfa_kind_from_filters(1000), Ok(CfaKind::Bayer));
}

#[test]
fn documented_libraw_rotations_map_output_to_source_coordinates() {
    assert_eq!(oriented_source_pos(0, 0, 3, 2, 5), (2, 0));
    assert_eq!(oriented_source_pos(1, 2, 3, 2, 5), (0, 1));
    assert_eq!(oriented_source_pos(0, 0, 3, 2, 6), (0, 1));
    assert_eq!(oriented_source_pos(1, 2, 3, 2, 6), (2, 0));
}

#[test]
fn half_turn_and_identity_orientations() {
    assert_eq!(oriented_source_pos(0, 0, 3, 2, 3), (2, 1));
    assert_eq!(oriented_source_pos(2, 1, 3, 2, 3), (0, 0));
    assert_eq!(oriented_source_pos(2, 1, 3, 2, 0), (2, 1));
}

#[test]
fn cfa_planes_are_canonicalized_without_merging_greens() {
    let map = canonical_cfa_map(*b"GRGB").unwrap();
    assert_eq!(map, [1, 0, 3, 2]);
    assert_eq!(
        canonicalize_values([10.0f32, 20.0, 30.0, 40.0], map, 0.0),
        [20.0, 10.0, 40.0, 30.0]
    );
}

#[test]
fn non_rgb_cfa_is_rejected_instead_of_silently_miscolored() {
    assert!(canonical_cfa_map(*b"GMCY").is_err());
    assert!(canonical_cfa_map(*b"RGBG").is_ok());
}

#[test]
fn cfa_descriptor_errors_and_single_green() {
    assert_eq!(canonical_cfa_map(*b"GMCY"), Err(LibRawError::NonRgbCfaDescriptor(b'M')));
    assert_eq!(canonical_cfa_map(*b"RRGB"), Err(LibRawError::UnsupportedRgbCfaDescriptor));
    assert_eq!(canonical_cfa_map(*b"RGB\0"), Ok([0, 1, 2, 3]));
    assert_eq!(canonical_cfa_map(*b"rgbg"), Ok([0, 1, 2, 3]));
}

#[test]
fn logical_channels_follow_the_descriptor() {
    assert_eq!(logical_rgb_channel(*b"RGBG", 0), Some(0));
    assert_eq!(logical_rgb_channel(*b"RGBG", 2), Some(2));
    assert_eq!(logical_rgb_channel(*b"RGBG", 9), Some(1));
    assert_eq!(logical_rgb_channel(*b"RGB\0", 3), None);
}

#[test]
fn repeating_black_pattern_uses_active_area_coordinates() {
    let cblack = [1, 2, 3, 4, 2, 3, 10, 20, 30, 40, 50, 60];
    assert_eq!(effective_black_level(64, &cblack, 2, 0, 0) as f32, 77.0);
    assert_eq!(effective_black_level(64, &cblack, 2, 4, 3) as f32, 117.0);
}

#[test]
fn malformed_black_pattern_is_ignored_without_out_of_bounds_access() {
    let cblack = [1, 2, 3, 4, 99, 99];
    assert_eq!(effective_black_level(64, &cblack, 1, 500, 500) as f32, 66.0);
}

#[test]
fn black_pattern_dimensions_need_the_whole_pattern() {
    assert_eq!(black_pattern_dimensions(&[1, 2, 3, 4, 2, 3, 0, 0, 0, 0, 0, 0]), Some((2, 3)));
    assert_eq!(black_pattern_dimensions(&[1, 2, 3, 4, 2, 3, 0, 0, 0, 0, 0]), None);
    assert_eq!(black_pattern_dimensions(&[1, 2, 3, 4, 0, 3]), None);
    assert_eq!(black_pattern_dimensions(&[1, 2, 3]), None);
    assert_eq!(effective_black_level(u32::MAX, &[5], 0, 0, 0), u32::MAX);
}

#[test]
fn gcd_and_lcm_of_pattern_periods() {
    assert_eq!(gcd_usize(12, 18), 6);
    assert_eq!(gcd_usize(0, 0), 1);
    assert_eq!(gcd_usize(7, 0), 7);
    assert_eq!(lcm_usize(2, 3), 6);
    assert_eq!(lcm_usize(6, 4), 12);
    assert_eq!(lcm_usize(2, 0), 2);
    assert_eq!(lcm_usize(usize::MAX, 2), usize::MAX);
}

#[test]
fn embedded_thumbnail_orientation_uses_the_matching_preview_metadata() {
    let selected = (1600, 1067, 412_345);
    let candidates = [
        (160, 107, 12_345, 3),
        (1600, 1067, 412_345, u16::MAX),
        (1600, 1067, 412_344, 5),
        (1600, 1067, 412_345, 6),
    ];

    assert_eq!(matching_thumbnail_orientation(selected, &candidates), Some(6));
    assert_eq!(
        matching_thumbnail_orientation(selected, &[(1600, 1067, 412_345, u16::MAX)]),
        None
    );
}

#[test]
fn embedded_thumbnail_header_is_bounded_before_native_unpack() {
    assert!(validate_embedded_thumbnail_metadata(ThumbnailFormat::Jpeg, 1600, 1067, 2_000_000, 3).is_ok());
    assert!(validate_embedded_thumbnail_metadata(
        ThumbnailFormat::Jpeg,
        1600,
        1067,
        u32::try_from(MAX_EMBEDDED_THUMBNAIL_BYTES + 1).unwrap(),
        3,
    )
    .is_err());
    assert!(validate_embedded_thumbnail_metadata(ThumbnailFormat::Bitmap, 1000, 1000, 1_000_000, 3).is_err());
}

#[test]
fn thumbnail_metadata_errors_name_the_case() {
    assert_eq!(
        validate_embedded_thumbnail_metadata(ThumbnailFormat::Jpeg, 0, 0, 0, 3),
        Err(LibRawError::PreviewLengthOutOfRange)
    );
    assert_eq!(validate_embedded_thumbnail_metadata(ThumbnailFormat::Jpeg, 0, 0, 10, 3), Ok(()));
    assert_eq!(
        validate_embedded_thumbnail_metadata(ThumbnailFormat::Jpeg, 10, 0, 10, 3),
        Err(LibRawError::PreviewDimensionsOutOfRange)
    );
    assert_eq!(
        validate_embedded_thumbnail_metadata(ThumbnailFormat::Bitmap, 10, 10, 300, 4),
        Err(LibRawError::PreviewChannels(4))
    );
    assert_eq!(
        validate_embedded_thumbnail_metadata(ThumbnailFormat::Bitmap, 10, 10, 300, 3),
        Ok(())
    );
    assert_eq!(
        validate_embedded_thumbnail_metadata(ThumbnailFormat::Bitmap, 10, 10, 299, 3),
        Err(LibRawError::PreviewByteCountMismatch)
    );
    assert_eq!(
        validate_embedded_thumbnail_metadata(ThumbnailFormat::Other(5), 10, 10, 300, 3),
        Err(LibRawError::UnsupportedPreviewFormat(5))
    );
}

#[test]
fn opened_geometry_limits() {
    assert_eq!(validate_opened_thumbnail_geometry(0, 0, 0, 0), Ok(()));
    assert_eq!(
        validate_opened_thumbnail_geometry(50_000, 10, 0, 0),
        Err(LibRawError::ActiveDimensionsOutOfRange)
    );
    assert_eq!(
        validate_opened_thumbnail_geometry(100, 100, 0, 5),
        Err(LibRawError::SensorDimensionsOutOfRange)
    );
    assert_eq!(validate_opened_raw_geometry(6000, 4000, 6048, 4024, 0), Ok(()));
    assert_eq!(validate_opened_raw_geometry(6000, 4000, 6048, 4024, 12_096), Ok(()));
    assert_eq!(
        validate_opened_raw_geometry(6000, 4000, 6048, 4024, 100),
        Err(LibRawError::InvalidRawPitch)
    );
    assert_eq!(
        validate_opened_raw_geometry(0, 4000, 6048, 4024, 0),
        Err(LibRawError::RawDimensions(RawDimensionError::Empty))
    );
    assert_eq!(validate_opened_raw_geometry(6000, 4000, 0, 4024, 0), Err(LibRawError::EmptySensor));
    assert_eq!(
        validate_opened_raw_geometry(6000, 4000, 41_000, 4024, 0),
        Err(LibRawError::SensorEdgeTooLong)
    );
    assert_eq!(
        validate_opened_raw_geometry(6000, 4000, 20_000, 20_000, 0),
        Err(LibRawError::TooManySensorPixels)
    );
}

#[test]
fn active_pixels_are_copied_with_orientation() {
    // A 4x3 decoded buffer with a pitch of 5 samples (10 bytes).
    let raw: Vec<u16> = (0..15).collect();
    // Active area 2x2 at (1, 1): rows [6, 7] and [11, 12].
    assert_eq!(copy_active_pixels(&raw, 4, 3, 1, 1, 2, 2, 10, 0), Ok(vec![6, 7, 11, 12]));
    assert_eq!(copy_active_pixels(&raw, 4, 3, 1, 1, 2, 2, 10, 3), Ok(vec![12, 11, 7, 6]));
    // Turned by 90 degrees the 3x2 area becomes 2x3.
    assert_eq!(
        copy_active_pixels(&raw, 4, 3, 0, 0, 3, 2, 10, 5),
        Ok(vec![2, 7, 1, 6, 0, 5])
    );
    assert_eq!(
        copy_active_pixels(&raw, 4, 3, 0, 0, 3, 2, 10, 6),
        Ok(vec![5, 0, 6, 1, 7, 2])
    );
    let dense: Vec<u16> = (0..12).collect();
    assert_eq!(copy_active_pixels(&dense, 4, 3, 0, 2, 4, 1, 0, 0), Ok(vec![8, 9, 10, 11]));
}

#[test]
fn active_pixel_copies_are_checked() {
    let raw: Vec<u16> = (0..15).collect();
    assert_eq!(copy_active_pixels(&raw, 4, 3, 0, 0, 2, 2, 6, 0), Err(LibRawError::PitchTooSmall));
    assert_eq!(copy_active_pixels(&raw, 4, 3, 0, 0, 2, 2, 9, 0), Err(LibRawError::PitchMisaligned));
    assert_eq!(copy_active_pixels(&raw, 4, 3, 3, 0, 2, 2, 10, 0), Err(LibRawError::CropOutsideBuffer));
    assert_eq!(
        copy_active_pixels(&raw, 4, 3, 0, 0, 0, 2, 10, 0),
        Err(LibRawError::RawDimensions(RawDimensionError::Empty))
    );
}

#[test]
fn metadata_period_follows_cfa_and_black_pattern() {
    assert_eq!(metadata_period(CfaKind::Bayer, &[0, 0, 0, 0], 100, 80, 0), (2, 2));
    assert_eq!(metadata_period(CfaKind::XTrans, &[0, 0, 0, 0], 100, 80, 0), (6, 6));
    let cblack = [0, 0, 0, 0, 3, 4, 0, 0, 0, 0, 0, 0, 0, 0, 0, 0, 0, 0];
    assert_eq!(metadata_period(CfaKind::Bayer, &cblack, 100, 80, 0), (4, 6));
    assert_eq!(metadata_period(CfaKind::Bayer, &cblack, 100, 80, 6), (6, 4));
    assert_eq!(metadata_period(CfaKind::XTrans, &[0, 0, 0, 0], 5, 3, 0), (5, 3));
}

#[test]
fn input_files_must_be_nonempty_regular_files_within_the_limit() {
    assert_eq!(check_input_file(true, 10, 10), Ok(()));
    assert_eq!(check_input_file(false, 10, 10), Err(InputFileError::NotRegularFile));
    assert_eq!(check_input_file(true, 0, 10), Err(InputFileError::Empty));
    let too_large = check_input_file(true, 11, 10).unwrap_err();
    assert_eq!(too_large, InputFileError::TooLarge { bytes: 11, maximum: 10 });
    assert_eq!(too_large.message("DCP profile"), "DCP profile is 11 bytes; the safe input limit is 10");
    assert_eq!(InputFileError::Empty.message("RAW file"), "RAW file is empty");
    assert_eq!(
        InputFileError::NotRegularFile.message("RAW file"),
        "RAW file is not a regular file"
    );
}

#[test]
fn only_applicable_orientations_are_accepted() {
    for flip in [0, 3, 5, 6] {
        assert_eq!(check_orientation(flip), Ok(()));
    }
    for flip in [-1, 1, 2, 4, 7, 90] {
        assert_eq!(check_orientation(flip), Err(LibRawError::UnsupportedOrientation(flip)));
    }
}
