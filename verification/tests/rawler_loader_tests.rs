use calibraw_core::raw_loader::CfaKind;
use calibraw_core::rawler_loader::{
    check_black_pattern, check_decoded_image, check_dng_corrections, check_dng_sample_format,
    classify_dng_cfa, dng_channel_at, dng_channel_tile, oriented_sensor_samples, DngCorrection, check_chunks, rawler_thumbnail_fallback_allowed, sensor_dimensions, strip_chunk_count,
    tile_chunk_count, dng_chunk_count, DngGeometry, DngLayoutError,
};

#[test]
fn sensor_limits_and_preview_fallback() {
    assert_eq!(sensor_dimensions(6000, 4000), Ok(24_000_000));
    assert_eq!(
        sensor_dimensions(0, 4000),
        Err(DngLayoutError::SensorEdgeOutOfRange { width: 0, height: 4000 })
    );
    assert_eq!(
        sensor_dimensions(40_001, 10),
        Err(DngLayoutError::SensorEdgeOutOfRange { width: 40_001, height: 10 })
    );
    assert_eq!(sensor_dimensions(20_000, 20_000), Err(DngLayoutError::TooManySensorPixels));
    assert!(rawler_thumbnail_fallback_allowed(2048, 1536));
    assert!(!rawler_thumbnail_fallback_allowed(2049, 10));
}

#[test]
fn strip_and_tile_layouts_are_counted() {
    assert_eq!(strip_chunk_count(4000, 16), Ok(250));
    assert_eq!(strip_chunk_count(4001, 16), Ok(251));
    assert_eq!(strip_chunk_count(4000, 0), Err(DngLayoutError::InvalidStripHeight));
    assert_eq!(tile_chunk_count(6000, 4000, 256, 256), Ok(24 * 16));
    assert_eq!(
        tile_chunk_count(6000, 4000, 0, 256),
        Err(DngLayoutError::SensorEdgeOutOfRange { width: 0, height: 256 })
    );
    assert_eq!(
        tile_chunk_count(39_000, 100, 30_000, 100),
        Err(DngLayoutError::SensorEdgeOutOfRange { width: 60_000, height: 100 })
    );
}

#[test]
fn chunks_must_be_listed_and_inside_the_file() {
    assert_eq!(check_chunks(&[0, 10], &[10, 5], 2, 15), Ok(()));
    assert_eq!(check_chunks(&[0, 10], &[10, 6], 2, 15), Err(DngLayoutError::ChunkOutsideFile));
    assert_eq!(check_chunks(&[0, 10], &[10, 0], 2, 15), Err(DngLayoutError::ChunkOutsideFile));
    assert_eq!(check_chunks(&[0], &[10, 5], 2, 15), Err(DngLayoutError::ChunkCountMismatch));
    assert_eq!(check_chunks(&[usize::MAX], &[1], 1, 15), Err(DngLayoutError::ChunkOutsideFile));
}

#[test]
fn oriented_crops_map_back_to_sensor_positions() {
    let geometry = DngGeometry {
        sensor_width: 10,
        sensor_height: 8,
        x: 1,
        y: 2,
        width: 4,
        height: 3,
        transpose: true,
        horizontal: true,
        vertical: false,
    };
    assert_eq!(geometry.dimensions(), (3, 4));
    assert_eq!(geometry.source(0, 0), (4, 2));
    assert_eq!(geometry.source(2, 3), (1, 4));
    let plain = DngGeometry { transpose: false, horizontal: false, vertical: true, ..geometry };
    assert_eq!(plain.dimensions(), (4, 3));
    assert_eq!(plain.source(0, 0), (1, 4));
}

#[test]
fn rejects_oversized_headers_and_tiles_before_pixel_decode() {
    for tiled in [false, true] {
        let error = if tiled {
            dng_chunk_count(64, 64, Some((40_001, 16)), None).unwrap_err()
        } else {
            dng_chunk_count(40_001, 64, None, None).unwrap_err()
        };
        let text = error.message();
        assert!(text.contains("sensor"), "{text}");
    }
}

#[test]
fn layout_refusals_are_reported_with_their_texts() {
    assert_eq!(
        sensor_dimensions(40_001, 64).unwrap_err().message(),
        "Rawler sensor dimensions 40001x64 exceed the sensor edge limit"
    );
    assert_eq!(
        sensor_dimensions(20_000, 20_000).unwrap_err().message(),
        "Rawler sensor dimensions exceed the 160000000-pixel limit"
    );
    assert_eq!(DngLayoutError::PixelCountOverflow.message(), "sensor pixel count overflow");
    assert_eq!(DngLayoutError::InvalidStripHeight.message(), "invalid DNG strip height");
    assert_eq!(DngLayoutError::TileWidthOverflow.message(), "tile width overflow");
    assert_eq!(DngLayoutError::TileHeightOverflow.message(), "tile height overflow");
    assert_eq!(DngLayoutError::ChunkCountMismatch.message(), "invalid DNG strip/tile count");
    assert_eq!(DngLayoutError::ChunkOutsideFile.message(), "DNG pixel payload is outside the file");
    assert_eq!(dng_chunk_count(6000, 4000, None, Some(16)), Ok(250));
    assert_eq!(dng_chunk_count(6000, 4000, None, None), Ok(1));
    assert_eq!(dng_chunk_count(6000, 4000, Some((256, 256)), None), Ok(24 * 16));
    assert_eq!(dng_chunk_count(6000, 4000, None, Some(0)), Err(DngLayoutError::InvalidStripHeight));
}

#[test]
fn dng_sample_tags_are_checked_in_order() {
    assert_eq!(check_dng_sample_format(Some(1), Some(32803), None, None), Ok(()));
    assert_eq!(check_dng_sample_format(Some(3), Some(34892), Some(1), Some(1)), Ok(()));
    assert_eq!(
        check_dng_sample_format(None, Some(32803), None, None),
        Err(DngLayoutError::MissingSampleCount)
    );
    assert_eq!(
        check_dng_sample_format(Some(1), None, None, None),
        Err(DngLayoutError::MissingPhotometric)
    );
    let refused = check_dng_sample_format(Some(3), Some(32803), None, None);
    assert_eq!(
        refused,
        Err(DngLayoutError::UnsupportedPhotometric { photometric: 32803, channels: 3 })
    );
    assert_eq!(
        refused.unwrap_err().message(),
        "unsupported DNG photometric interpretation 32803 with 3 channels"
    );
    assert_eq!(
        check_dng_sample_format(Some(1), Some(32803), Some(2), Some(2)),
        Err(DngLayoutError::PlanarSamples)
    );
    assert_eq!(
        check_dng_sample_format(Some(1), Some(32803), Some(1), Some(2)),
        Err(DngLayoutError::NonRectangularCfa)
    );
}

#[test]
fn unapplied_dng_corrections_are_refused() {
    assert_eq!(check_dng_corrections(false, false, false, false), Ok(()));
    let first = check_dng_corrections(true, true, true, true).unwrap_err();
    assert_eq!(first, DngLayoutError::UnappliedCorrection(DngCorrection::OpcodeList1));
    assert_eq!(first.message(), "Rawler cannot apply DNG correction OpcodeList1");
    assert_eq!(
        check_dng_corrections(false, true, false, false),
        Err(DngLayoutError::UnappliedCorrection(DngCorrection::OpcodeList3))
    );
    let delta = check_dng_corrections(false, false, false, true).unwrap_err();
    assert_eq!(delta, DngLayoutError::UnappliedCorrection(DngCorrection::BlackLevelDeltaV));
    assert_eq!(
        delta.message(),
        "Rawler cannot apply DNG black-level correction BlackLevelDeltaV"
    );
}

#[test]
fn decoded_images_match_their_header() {
    assert_eq!(check_decoded_image(6000, 4000, 6000, 4000, false, 1, 24_000_000), Ok(()));
    assert_eq!(check_decoded_image(6000, 4000, 6000, 4000, false, 3, 72_000_000), Ok(()));
    assert_eq!(
        check_decoded_image(6000, 4000, 6000, 4001, false, 1, 24_000_000),
        Err(DngLayoutError::DecodedDimensionsMismatch)
    );
    assert_eq!(
        check_decoded_image(6000, 4000, 6000, 4000, true, 1, 24_000_000),
        Err(DngLayoutError::RotatedSensor)
    );
    assert_eq!(
        check_decoded_image(6000, 4000, 6000, 4000, false, 1, 23_999_999),
        Err(DngLayoutError::SampleCountMismatch)
    );
    assert_eq!(
        check_decoded_image(6000, 4000, 6000, 4000, false, usize::MAX, 0),
        Err(DngLayoutError::SampleCountOverflow)
    );
    assert_eq!(
        check_decoded_image(0, 4000, 0, 4000, false, 1, 0),
        Err(DngLayoutError::SensorEdgeOutOfRange { width: 0, height: 4000 })
    );
    assert_eq!(
        DngLayoutError::SampleCountMismatch.message(),
        "Rawler sample count differs from its dimensions"
    );
}

#[test]
fn black_level_patterns_fit_the_image() {
    assert_eq!(check_black_pattern(1, 1, 2, 2, 4, 6000, 4000), Ok(()));
    assert_eq!(check_black_pattern(3, 3, 1, 1, 3, 6000, 4000), Ok(()));
    assert_eq!(
        check_black_pattern(1, 3, 2, 2, 12, 6000, 4000),
        Err(DngLayoutError::InvalidBlackPattern)
    );
    assert_eq!(
        check_black_pattern(1, 1, 0, 2, 0, 6000, 4000),
        Err(DngLayoutError::InvalidBlackPattern)
    );
    assert_eq!(
        check_black_pattern(1, 1, 6001, 1, 6001, 6000, 4000),
        Err(DngLayoutError::InvalidBlackPattern)
    );
    assert_eq!(
        check_black_pattern(1, 1, 2, 2, 3, 6000, 4000),
        Err(DngLayoutError::BlackSampleCountMismatch)
    );
    assert_eq!(
        check_black_pattern(0, 0, usize::MAX, 2, 0, usize::MAX, 4000),
        Err(DngLayoutError::BlackSampleCountMismatch)
    );
}

/// The Fujifilm X-Trans tile, row by row.
const XTRANS: [usize; 36] = [
    1, 1, 0, 1, 1, 2, //
    1, 1, 2, 1, 1, 0, //
    2, 0, 1, 0, 2, 1, //
    1, 1, 2, 1, 1, 0, //
    1, 1, 0, 1, 1, 2, //
    0, 2, 1, 2, 0, 1, //
];

#[test]
fn dng_cfa_patterns_are_classified() {
    assert_eq!(classify_dng_cfa(2, 2, &[0, 1, 1, 2]), Ok((CfaKind::Bayer, 1)));
    assert_eq!(classify_dng_cfa(2, 2, &[1, 0, 2, 1]), Ok((CfaKind::Bayer, 0)));
    assert_eq!(classify_dng_cfa(6, 6, &XTRANS), Ok((CfaKind::XTrans, 0)));
    assert_eq!(
        classify_dng_cfa(4, 1, &[0, 1, 1, 2]),
        Err(DngLayoutError::UnsupportedCfaPattern)
    );
    assert_eq!(classify_dng_cfa(2, 2, &[0, 1, 3, 2]), Err(DngLayoutError::NonRgbCfaColor));
    assert_eq!(
        classify_dng_cfa(2, 2, &[0, 1, 2, 2]),
        Err(DngLayoutError::UnsupportedCfaCounts)
    );
    assert_eq!(classify_dng_cfa(2, 2, &[1, 1, 0, 2]), Err(DngLayoutError::NonBayerCfa));
    assert_eq!(classify_dng_cfa(2, 2, &[1, 0, 1, 2]), Err(DngLayoutError::NonBayerCfa));
    assert_eq!(
        DngLayoutError::UnsupportedCfaCounts.message(),
        "unsupported Bayer/X-Trans pattern"
    );
}

#[test]
fn bayer_second_green_gets_its_own_channel() {
    let rggb = [0, 1, 1, 2];
    let channels: Vec<u8> = (0..4).map(|i| dng_channel_at(&rggb, 2, 1, i % 2, i / 2)).collect();
    assert_eq!(channels, vec![0, 1, 3, 2]);
    // The pattern repeats across the sensor.
    assert_eq!(dng_channel_at(&rggb, 2, 1, 5, 7), 2);
    assert_eq!(dng_channel_at(&rggb, 2, 1, 4, 7), 3);
    // X-Trans greens all stay channel 1.
    assert_eq!(dng_channel_at(&XTRANS, 6, 0, 1, 1), 1);
    assert_eq!(dng_channel_at(&XTRANS, 6, 0, 8, 1), 2);
}

fn geometry(x: usize, width: usize, height: usize, transpose: bool, horizontal: bool) -> DngGeometry {
    DngGeometry {
        sensor_width: 4,
        sensor_height: 3,
        x,
        y: 0,
        width,
        height,
        transpose,
        horizontal,
        vertical: false,
    }
}

#[test]
fn sensor_samples_follow_crop_and_orientation() {
    let data: Vec<u16> = (0..12).collect();
    assert_eq!(oriented_sensor_samples(geometry(1, 3, 2, false, true), &data), vec![3, 2, 1, 7, 6, 5]);
    assert_eq!(
        oriented_sensor_samples(geometry(0, 4, 3, true, false), &data),
        vec![0, 4, 8, 1, 5, 9, 2, 6, 10, 3, 7, 11]
    );
}

#[test]
fn channel_tiles_follow_the_orientation() {
    let rggb = [0, 1, 1, 2];
    assert_eq!(dng_channel_tile(geometry(0, 4, 3, false, false), &rggb, 2, 1), (2, 2, vec![0, 1, 3, 2]));
    assert_eq!(dng_channel_tile(geometry(0, 4, 3, false, true), &rggb, 2, 1), (2, 2, vec![1, 0, 2, 3]));
    assert_eq!(dng_channel_tile(geometry(0, 1, 3, false, false), &rggb, 2, 1), (1, 2, vec![0, 3]));
}
