use calibraw_core::pixel_map::CompactPixelMap;
use calibraw_core::processing::{
    copy_rows, crop_ai_denoised, padded_rgb_pixels, padded_tile_ai_denoised, proxy_ai_denoised_cfa,
};
use calibraw_core::raw_loader::{AiDenoisedImage, CfaKind};
use calibraw_core::processing::{phase_aligned_dimension, plan_region_proxy, RegionProxyPlan};
use calibraw_core::processing::{plan_raster_region_proxy, RasterProxyPlan};
use calibraw_core::processing::{export_tile_halo, DenoiseQuality, HaloActivity};
use calibraw_core::processing::{
    footprint_stats, nearest_cfa_sample, proxy_cfa_samples, CfaProxyLayout,
    clamp_region, crop_raw_pixels, fill_padded_raw_pixels, proxy_partition, ExportTile,
    ProcessingStage, ProxySpec, TilePlan, TileSpec, EXPORT_TILE_HALO, MIN_EXPORT_TILE_HALO,
};

#[test]
fn tile_plan_covers_partial_edges() {
    let plan = TilePlan::new(
        2500,
        1300,
        TileSpec {
            core_edge: 1024,
            halo: 48,
        },
    );
    assert_eq!(plan.tile_count(), 6);
    assert_eq!(plan.tiles.last().unwrap().core_width, 452);
    assert_eq!(plan.tiles.last().unwrap().core_height, 276);
}

#[test]
fn tile_plan_tiles_are_row_major_with_halo_origins() {
    let plan = TilePlan::new(
        100,
        70,
        TileSpec {
            core_edge: 10,
            halo: 8,
        },
    );
    // The core edge is raised to the minimum of 64.
    assert_eq!(plan.spec.core_edge, 64);
    assert_eq!(plan.tile_count(), 4);
    let second = plan.tiles[1];
    assert_eq!((second.core_x, second.core_y), (64, 0));
    assert_eq!((second.core_width, second.core_height), (36, 64));
    assert_eq!((second.global_origin_x, second.global_origin_y), (56, -8));
    assert_eq!((second.padded_width, second.padded_height), (80, 80));
    assert_eq!((second.local_core_x, second.local_core_y), (8, 8));
    let last = plan.tiles[3];
    assert_eq!((last.core_x, last.core_y, last.core_width, last.core_height), (64, 64, 36, 6));
}

#[test]
fn tile_cores_cover_every_pixel_once() {
    let (width, height) = (150u32, 130u32);
    let plan = TilePlan::new(width, height, TileSpec { core_edge: 64, halo: 4 });
    let mut hits = vec![0u32; (width * height) as usize];
    for tile in &plan.tiles {
        for y in tile.core_y..tile.core_y + tile.core_height {
            for x in tile.core_x..tile.core_x + tile.core_width {
                hits[(y * width + x) as usize] += 1;
            }
        }
    }
    assert!(hits.iter().all(|&count| count == 1));
}

#[test]
fn empty_image_has_no_tiles() {
    assert_eq!(TilePlan::new(0, 100, TileSpec::default()).tile_count(), 0);
    assert_eq!(TilePlan::new(100, 0, TileSpec::default()).tile_count(), 0);
}

#[test]
fn defaults_and_labels() {
    let spec = TileSpec::default();
    assert_eq!((spec.core_edge, spec.halo), (1024, EXPORT_TILE_HALO));
    assert_eq!(EXPORT_TILE_HALO, 656);
    assert_eq!(MIN_EXPORT_TILE_HALO, 64);
    assert_eq!(ProxySpec::default().max_edge, 2048);
    assert_eq!(ProcessingStage::Raw.label(), "RAW reconstruction");
    assert_eq!(ProcessingStage::Tone.label(), "tone analysis");
    assert_eq!(ProcessingStage::Output.label(), "display rendering");
}

#[test]
fn crop_region_is_clamped_into_the_image() {
    assert_eq!(clamp_region(4, 3, 1, 1, 2, 2), (1, 1, 2, 2));
    assert_eq!(clamp_region(4, 3, 10, 10, 5, 5), (3, 2, 1, 1));
    assert_eq!(clamp_region(4, 3, 0, 0, 0, 0), (0, 0, 1, 1));
    assert_eq!(clamp_region(0, 0, 3, 3, 2, 2), (0, 0, 0, 0));
}

#[test]
fn crop_copies_only_the_requested_region() {
    let pixels: Vec<u16> = (0..12).collect();
    assert_eq!(crop_raw_pixels(&pixels, 4, 3, 1, 1, 2, 2), vec![5, 6, 9, 10]);
    assert_eq!(crop_raw_pixels(&pixels, 4, 3, 3, 0, 9, 9), vec![3, 7, 11]);
}

#[test]
fn padded_tile_allocates_first_export_buffer_and_clamps_edges() {
    let pixels: Vec<u16> = (0..6).collect();
    let tile = ExportTile {
        core_x: 0,
        core_y: 0,
        core_width: 3,
        core_height: 2,
        local_core_x: 1,
        local_core_y: 1,
        padded_width: 5,
        padded_height: 4,
        global_origin_x: -1,
        global_origin_y: -1,
    };
    let mut destination = vec![9u16; 3];
    fill_padded_raw_pixels(&pixels, 3, 2, tile, &mut destination);
    assert_eq!(destination.len(), 20);
    assert_eq!(&destination[0..5], &[0, 0, 1, 2, 2]);
    assert_eq!(&destination[5..10], &[0, 0, 1, 2, 2]);
    assert_eq!(&destination[10..15], &[3, 3, 4, 5, 5]);
    assert_eq!(&destination[15..20], &[3, 3, 4, 5, 5]);
}

#[test]
fn proxy_partition_spans_cover_the_source() {
    assert_eq!(proxy_partition(0, 4, 2), (0, 2));
    assert_eq!(proxy_partition(1, 4, 2), (2, 4));
    assert_eq!(proxy_partition(0, 5, 5), (0, 1));
    assert_eq!(proxy_partition(2, 7, 3), (4, 7));
}

#[test]
fn bayer_proxy_averages_matching_colours_per_phase() {
    let pixels: Vec<u16> = (0..16).map(|i| i * 10).collect();
    let colors = CompactPixelMap::repeating(4, 4, 2, 2, vec![0u8, 1, 1, 2]);
    let layout = CfaProxyLayout {
        raw_width: 4,
        raw_height: 4,
        x: 0,
        y: 0,
        region_width: 4,
        region_height: 4,
        width: 2,
        height: 2,
        cfa_period: 2,
    };
    let (samples, colours) = proxy_cfa_samples(&pixels, &colors, layout);
    assert_eq!(samples, vec![0, 45, 105, 150]);
    assert_eq!(colours, vec![0, 1, 1, 2]);
}

#[test]
fn proxy_falls_back_to_the_nearest_sample_of_the_colour() {
    let pixels = vec![10u16, 20, 30, 40];
    let colors = CompactPixelMap::dense(4, 1, vec![0u8, 1, 2, 3]);
    let layout = CfaProxyLayout {
        raw_width: 4,
        raw_height: 1,
        x: 0,
        y: 0,
        region_width: 4,
        region_height: 1,
        width: 2,
        height: 1,
        cfa_period: 6,
    };
    let (samples, colours) = proxy_cfa_samples(&pixels, &colors, layout);
    assert_eq!(colours, vec![0, 1]);
    assert_eq!(samples, vec![10, 20]);
    assert_eq!(nearest_cfa_sample(&colors, 4, 1, 3, 0, 1, 6), 1);
    assert_eq!(nearest_cfa_sample(&colors, 4, 1, 3, 0, 3, 6), 3);
    // No sample of the colour within the radius: the centre itself.
    assert_eq!(nearest_cfa_sample(&colors, 4, 1, 3, 0, 9, 2), 3);
    assert_eq!(footprint_stats(&pixels, &colors, 4, 1, 0, 4, 0, 1, 2), (30, 1));
    assert_eq!(footprint_stats(&pixels, &colors, 4, 1, 2, 4, 0, 1, 1), (0, 0));
}

#[test]
fn ai_denoise_cache_tracks_crop_proxy_and_export_tile_geometry() {
    let image = AiDenoisedImage::new_bayer_cfa(4, 2, (0..8).collect()).unwrap();

    let crop = crop_ai_denoised(&image, 1, 0, 2, 2).expect("crop keeps aligned samples");
    assert_eq!(crop.raw_cfa16, vec![1, 2, 5, 6]);

    let colors = CompactPixelMap::dense(4, 2, vec![0u8; 8]);
    let layout = CfaProxyLayout {
        raw_width: 4,
        raw_height: 2,
        x: 0,
        y: 0,
        region_width: 4,
        region_height: 2,
        width: 2,
        height: 2,
        cfa_period: 2,
    };
    let proxy = proxy_ai_denoised_cfa(&image, &colors, layout).expect("proxy derives samples");
    assert_eq!(proxy.raw_cfa16, vec![0, 2, 4, 6]);

    let tile = ExportTile {
        core_x: 0,
        core_y: 0,
        core_width: 4,
        core_height: 2,
        local_core_x: 1,
        local_core_y: 1,
        padded_width: 6,
        padded_height: 4,
        global_origin_x: -1,
        global_origin_y: -1,
    };
    let padded = padded_tile_ai_denoised(&image, tile).expect("tile keeps aligned samples");
    assert_eq!(padded.raw_cfa16[0], 0);
    assert_eq!(padded.raw_cfa16[padded.raw_cfa16.len() - 1], 7);
    assert_eq!(padded.raw_cfa16.len(), 24);
}

#[test]
fn rgb_denoised_samples_keep_triplets_together() {
    let rgb: Vec<u16> = (0..18).collect();
    let image = AiDenoisedImage::new(3, 2, rgb.clone()).unwrap();
    let crop = crop_ai_denoised(&image, 1, 1, 2, 1).unwrap();
    assert_eq!(crop.rgb16f, vec![12, 13, 14, 15, 16, 17]);
    let tile = ExportTile {
        core_x: 0,
        core_y: 0,
        core_width: 1,
        core_height: 1,
        local_core_x: 1,
        local_core_y: 0,
        padded_width: 2,
        padded_height: 1,
        global_origin_x: -1,
        global_origin_y: 0,
    };
    assert_eq!(padded_rgb_pixels(&rgb, 3, 2, tile), vec![0, 1, 2, 0, 1, 2]);
    let padded = padded_tile_ai_denoised(&image, tile).unwrap();
    assert_eq!(padded.rgb16f, vec![0, 1, 2, 0, 1, 2]);
    let empty = ExportTile { padded_width: 0, ..tile };
    assert!(padded_tile_ai_denoised(&image, empty).is_none());
    assert_eq!(copy_rows(&rgb, 6, 3, 0, 3, 2), vec![3, 4, 5, 9, 10, 11]);
}

fn quiet() -> HaloActivity {
    HaloActivity {
        color_denoise: None,
        local_spatial: false,
        dehaze: false,
        neon: false,
        mask_blur: false,
        focus_blur: false,
        edge_glow: false,
        pixelate: false,
        glow: false,
    }
}

#[test]
fn export_halo_grows_only_with_active_wide_stages() {
    assert_eq!(export_tile_halo(quiet()), MIN_EXPORT_TILE_HALO);
    assert_eq!(export_tile_halo(HaloActivity { neon: true, ..quiet() }), 112);
    assert!(export_tile_halo(HaloActivity { glow: true, ..quiet() }) > MIN_EXPORT_TILE_HALO);
    assert_eq!(
        export_tile_halo(HaloActivity { color_denoise: Some(DenoiseQuality::Fast), ..quiet() }),
        64
    );
    let everything = HaloActivity {
        color_denoise: Some(DenoiseQuality::High),
        local_spatial: true,
        dehaze: true,
        neon: true,
        mask_blur: true,
        focus_blur: true,
        edge_glow: true,
        pixelate: true,
        glow: true,
    };
    assert_eq!(export_tile_halo(everything), EXPORT_TILE_HALO);
    assert_eq!(
        export_tile_halo(HaloActivity { pixelate: false, ..everything }),
        EXPORT_TILE_HALO - 48
    );
}

#[test]
fn padded_tile_reuse_resizes_buffer_for_new_tile_shape() {
    let pixels: Vec<u16> = (0..12).collect();
    let first = ExportTile {
        core_x: 0,
        core_y: 0,
        core_width: 2,
        core_height: 2,
        local_core_x: 0,
        local_core_y: 0,
        padded_width: 2,
        padded_height: 2,
        global_origin_x: 0,
        global_origin_y: 0,
    };
    let second = ExportTile {
        core_x: 0,
        core_y: 0,
        core_width: 4,
        core_height: 3,
        local_core_x: 1,
        local_core_y: 1,
        padded_width: 6,
        padded_height: 5,
        global_origin_x: -1,
        global_origin_y: -1,
    };
    let mut scratch = Vec::new();
    fill_padded_raw_pixels(&pixels, 4, 3, first, &mut scratch);
    assert_eq!(scratch, vec![0, 1, 4, 5]);
    fill_padded_raw_pixels(&pixels, 4, 3, second, &mut scratch);
    assert_eq!(scratch.len(), 30);
    assert_eq!(&scratch[0..6], &[0, 0, 1, 2, 3, 3]);
    assert_eq!(&scratch[24..30], &[8, 8, 9, 10, 11, 11]);
}

#[test]
fn crop_raw_copies_only_the_requested_sensor_region() {
    let width = 4;
    let height = 3;
    let raw_pixels: Vec<u16> = (0..width * height).map(|value| value as u16).collect();
    let color_indices = CompactPixelMap::dense(width, height, (0..width * height).map(|value| (value % 4) as u8).collect());
    let black_levels_per_pixel =
        CompactPixelMap::dense(width, height, (0..width * height).map(|value| value as f32).collect());

    let (x, y, crop_width, crop_height) = clamp_region(width, height, 1, 1, 2, 2);
    assert_eq!((crop_width, crop_height), (2, 2));
    assert_eq!(crop_raw_pixels(&raw_pixels, width, height, 1, 1, 2, 2), vec![5, 6, 9, 10]);
    let colors = color_indices.subregion_clamped(x as i64, y as i64, crop_width, crop_height);
    assert_eq!(colors.storage_slice(), &[1u8, 2, 1, 2][..]);
    let blacks = black_levels_per_pixel.subregion_clamped(x as i64, y as i64, crop_width, crop_height);
    assert_eq!(blacks.storage_slice(), &[5.0f32, 6.0, 9.0, 10.0][..]);
}

/// The wanted proxy size: the region scaled so its longer edge is
/// `max_edge`, rounded down, at least one pixel.
fn plan_whole(width: u32, height: u32, kind: CfaKind, max_edge: u32) -> RegionProxyPlan {
    plan_region_proxy(width, height, kind, 0, 0, width, height, max_edge)
}

#[test]
fn phase_aligned_dimensions_are_whole_periods_within_the_region() {
    assert_eq!(phase_aligned_dimension(100, 100, 2), 100);
    assert_eq!(phase_aligned_dimension(100, 37, 2), 36);
    assert_eq!(phase_aligned_dimension(100, 37, 6), 36);
    assert_eq!(phase_aligned_dimension(100, 1, 6), 6);
    assert_eq!(phase_aligned_dimension(4, 3, 6), 4);
}

#[test]
fn proxy_preserves_bayer_phase_when_scale_is_even() {
    let width = 8;
    let height = 8;
    let mut color_indices = Vec::new();
    for y in 0..height {
        for x in 0..width {
            color_indices.push(match (x % 2, y % 2) {
                (0, 0) => 0,
                (1, 0) => 1,
                (0, 1) => 3,
                _ => 2,
            });
        }
    }
    let colors = CompactPixelMap::dense(width, height, color_indices);
    let pixels = vec![100u16; (width * height) as usize];
    let layout = match plan_whole(width, height, CfaKind::Bayer, 4) {
        RegionProxyPlan::Proxy(layout) => layout,
        other => panic!("expected a proxy, got {other:?}"),
    };
    assert_eq!(layout.width, 4);
    assert_eq!(layout.height, 4);
    let (_, proxy_cfa) = proxy_cfa_samples(&pixels, &colors, layout);
    assert_eq!(&proxy_cfa[..4], &[0, 1, 0, 1]);
    assert_eq!(&proxy_cfa[4..8], &[3, 2, 3, 2]);
}

#[test]
fn proxy_long_edge_does_not_drop_at_integer_scale_thresholds() {
    for (width, height) in [(82, 54), (70, 46), (54, 82)] {
        match plan_whole(width, height, CfaKind::Bayer, 26) {
            RegionProxyPlan::Proxy(layout) => {
                assert_eq!(layout.width.max(layout.height), 26);
                if width == 82 {
                    assert_eq!(layout.width % 2, 0);
                    assert_eq!(layout.height % 2, 0);
                }
            }
            other => panic!("expected a proxy, got {other:?}"),
        }
    }
}

#[test]
fn small_regions_stay_native() {
    assert_eq!(plan_whole(8, 8, CfaKind::Bayer, 8), RegionProxyPlan::Whole);
    assert_eq!(
        plan_region_proxy(8, 8, CfaKind::XTrans, 6, 6, 9, 9, 4),
        RegionProxyPlan::Crop { x: 6, y: 6, width: 2, height: 2 }
    );
    match plan_region_proxy(98, 66, CfaKind::XTrans, 0, 0, 98, 66, 38) {
        RegionProxyPlan::Proxy(layout) => {
            assert_eq!((layout.width, layout.height, layout.cfa_period), (36, 24, 6));
        }
        other => panic!("expected a proxy, got {other:?}"),
    }
}

fn xtrans_pattern() -> Vec<u8> {
    vec![
        0, 1, 0, 0, 1, 0, 1, 2, 1, 2, 1, 2, 0, 1, 0, 0, 1, 0, 0, 1, 0, 0, 1, 0, 1, 2, 1, 2, 1,
        2, 0, 1, 0, 0, 1, 0,
    ]
}

#[test]
fn fractional_xtrans_proxy_keeps_complete_six_by_six_phases() {
    let pattern = xtrans_pattern();
    let colors = CompactPixelMap::repeating(98, 66, 6, 6, pattern.clone());
    let pixels: Vec<u16> = (0..98u32 * 66).map(|value| value as u16).collect();
    let layout = match plan_whole(98, 66, CfaKind::XTrans, 38) {
        RegionProxyPlan::Proxy(layout) => layout,
        other => panic!("expected a proxy, got {other:?}"),
    };
    assert!(layout.width.max(layout.height) >= 32);
    assert_eq!(layout.width % 6, 0);
    assert_eq!(layout.height % 6, 0);
    let (_, proxy_cfa) = proxy_cfa_samples(&pixels, &colors, layout);
    let proxy_width = layout.width;
    let first_period = (0..6)
        .flat_map(|y| (0..6).map(move |x| (y, x)))
        .map(|(y, x)| proxy_cfa[(y * proxy_width + x) as usize])
        .collect::<Vec<_>>();
    assert_eq!(first_period, pattern);
}

#[test]
fn xtrans_proxy_filters_each_output_pixel_not_a_whole_six_pixel_macrocell() {
    let colors = CompactPixelMap::repeating(120, 120, 6, 6, xtrans_pattern());
    let pixels: Vec<u16> = (0..120u32)
        .flat_map(|_| (0..120u32).map(|x| (x * 100) as u16))
        .collect();
    let layout = match plan_whole(120, 120, CfaKind::XTrans, 60) {
        RegionProxyPlan::Proxy(layout) => layout,
        other => panic!("expected a proxy, got {other:?}"),
    };
    let (proxy_pixels, _) = proxy_cfa_samples(&pixels, &colors, layout);
    assert!(proxy_pixels[0] <= 200, "left sample was over-blurred");
    assert!(proxy_pixels[5] >= 900, "right sample was over-blurred");
}

#[test]
fn proxy_targets_scale_in_double_precision() {
    // 6 / 47 rounds down in double precision, so the long edge's target is
    // 5 rather than 6 and phase-aligns to 4.
    match plan_whole(47, 20, CfaKind::Bayer, 6) {
        RegionProxyPlan::Proxy(layout) => assert_eq!((layout.width, layout.height), (4, 2)),
        other => panic!("expected a proxy, got {other:?}"),
    }
    match plan_whole(82, 54, CfaKind::Bayer, 26) {
        RegionProxyPlan::Proxy(layout) => assert_eq!((layout.width, layout.height), (26, 16)),
        other => panic!("expected a proxy, got {other:?}"),
    }
}

#[test]
fn raster_proxies_round_each_edge_to_the_nearest_pixel() {
    // The 4 x 4 raster proxied to edge 2 is resampled to 2 x 2.
    assert_eq!(
        plan_raster_region_proxy(4, 4, 0, 0, 4, 4, 2),
        RasterProxyPlan::Scaled { x: 0, y: 0, region_width: 4, region_height: 4, width: 2, height: 2 }
    );
    assert_eq!(
        plan_raster_region_proxy(4, 4, 1, 1, 2, 2, 2),
        RasterProxyPlan::Crop { x: 1, y: 1, width: 2, height: 2 }
    );
    assert_eq!(
        plan_raster_region_proxy(100, 50, 0, 0, 100, 50, 40),
        RasterProxyPlan::Scaled { x: 0, y: 0, region_width: 100, region_height: 50, width: 40, height: 20 }
    );
    // 11 * (15 / 22) is just below 7.5 in double precision.
    assert_eq!(
        plan_raster_region_proxy(11, 22, 0, 0, 11, 22, 15),
        RasterProxyPlan::Scaled { x: 0, y: 0, region_width: 11, region_height: 22, width: 7, height: 15 }
    );
    assert_eq!(
        plan_raster_region_proxy(1000, 1, 0, 0, 1000, 1, 10),
        RasterProxyPlan::Scaled { x: 0, y: 0, region_width: 1000, region_height: 1, width: 10, height: 1 }
    );
}
