use calibraw_core::remove::{
    plan_remove_context_crop, NativeRect, RemoveMask, RemovePatch, RetouchAlignment, RetouchTool,
};

#[test]
fn huge_contiguous_mask_still_uses_one_context() {
    let mask = RemoveMask {
        bounds: NativeRect {
            x: 1000,
            y: 1000,
            width: 3000,
            height: 2200,
        },
        pixels: vec![255; 3000 * 2200],
    };
    let crop = plan_remove_context_crop(7000, 6000, &mask).unwrap();
    assert_eq!(crop.width, crop.height);
    assert_eq!(crop.intersect(mask.bounds), Some(mask.bounds));
}

#[test]
fn full_image_mask_uses_the_full_image_once() {
    let mask = RemoveMask {
        bounds: NativeRect {
            x: 0,
            y: 0,
            width: 7000,
            height: 6000,
        },
        pixels: vec![255; 7000 * 6000],
    };
    let crop = plan_remove_context_crop(7000, 6000, &mask).unwrap();
    assert_eq!(
        crop,
        NativeRect {
            x: 0,
            y: 0,
            width: 7000,
            height: 6000,
        }
    );
}

#[test]
fn small_mask_context_is_three_times_the_mask_edge() {
    let mask = RemoveMask {
        bounds: NativeRect {
            x: 3340,
            y: 2840,
            width: 320,
            height: 320,
        },
        pixels: vec![255; 320 * 320],
    };
    let crop = plan_remove_context_crop(7000, 6000, &mask).unwrap();
    assert_eq!(
        crop,
        NativeRect {
            x: 3500 - 480,
            y: 3000 - 480,
            width: 960,
            height: 960,
        }
    );
    assert_eq!(crop.intersect(mask.bounds), Some(mask.bounds));
}

#[test]
fn tiny_mask_context_uses_the_minimum_edge_and_stays_inside_the_image() {
    let mask = RemoveMask {
        bounds: NativeRect {
            x: 0,
            y: 5,
            width: 10,
            height: 10,
        },
        pixels: vec![1; 100],
    };
    let crop = plan_remove_context_crop(500, 400, &mask).unwrap();
    assert_eq!(
        crop,
        NativeRect {
            x: 0,
            y: 0,
            width: 384,
            height: 384,
        }
    );
}

#[test]
fn empty_mask_or_image_plans_nothing() {
    let mask = RemoveMask {
        bounds: NativeRect {
            x: 10,
            y: 10,
            width: 2,
            height: 2,
        },
        pixels: vec![0; 4],
    };
    assert!(mask.is_empty());
    assert_eq!(plan_remove_context_crop(100, 100, &mask), None);
    let set = RemoveMask {
        bounds: mask.bounds,
        pixels: vec![0, 0, 9, 0],
    };
    assert!(!set.is_empty());
    assert_eq!(plan_remove_context_crop(0, 100, &set), None);
}

#[test]
fn native_rect_edges_saturate_and_intersections_are_exact() {
    let a = NativeRect {
        x: 10,
        y: 20,
        width: 30,
        height: 40,
    };
    assert_eq!(a.right(), 40);
    assert_eq!(a.bottom(), 60);
    let far = NativeRect {
        x: u32::MAX - 1,
        y: 0,
        width: 10,
        height: 1,
    };
    assert_eq!(far.right(), u32::MAX);
    let b = NativeRect {
        x: 30,
        y: 50,
        width: 100,
        height: 100,
    };
    let expected = Some(NativeRect {
        x: 30,
        y: 50,
        width: 10,
        height: 10,
    });
    assert_eq!(a.intersect(b), expected);
    assert_eq!(b.intersect(a), expected);
    let touching = NativeRect {
        x: 40,
        y: 20,
        width: 5,
        height: 5,
    };
    assert_eq!(a.intersect(touching), None);
}

#[test]
fn mask_membership_uses_global_coordinates() {
    let mask = RemoveMask {
        bounds: NativeRect {
            x: 5,
            y: 7,
            width: 3,
            height: 2,
        },
        pixels: vec![0, 255, 0, 0, 0, 1],
    };
    assert!(mask.contains_global(6, 7));
    assert!(!mask.contains_global(5, 7));
    assert!(mask.contains_global(7, 8));
    assert!(!mask.contains_global(8, 8));
    assert!(!mask.contains_global(4, 7));
    assert!(!mask.contains_global(6, 9));
}

#[test]
fn remove_patch_checks_buffer_lengths() {
    let bounds = NativeRect {
        x: 1,
        y: 1,
        width: 2,
        height: 1,
    };
    let patch = RemovePatch::new_scene(bounds, vec![0; 6], vec![255; 2]).unwrap();
    assert!(patch.has_scene_pixels());
    assert_eq!(patch.bounds, bounds);
    assert_eq!(
        RemovePatch::new_scene(bounds, vec![0; 5], vec![255; 2]).unwrap_err(),
        "remove scene RGB length does not match bounds"
    );
    assert_eq!(
        RemovePatch::new_scene(bounds, vec![0; 6], vec![255; 3]).unwrap_err(),
        "remove patch alpha length does not match bounds"
    );
    let empty = NativeRect {
        x: 0,
        y: 0,
        width: 0,
        height: 4,
    };
    assert_eq!(
        RemovePatch::new_scene(empty, Vec::new(), Vec::new()).unwrap_err(),
        "remove patch is empty"
    );
}

#[test]
fn retouch_labels_and_defaults() {
    assert_eq!(RetouchTool::Clone.label(), "Clone");
    assert_eq!(RetouchTool::Heal.label(), "Heal");
    assert_eq!(RetouchTool::default(), RetouchTool::Clone);
    assert_eq!(RetouchAlignment::default(), RetouchAlignment::Unaligned);
    let labels: Vec<&str> = RetouchAlignment::all().iter().map(|a| a.label()).collect();
    assert_eq!(labels, ["None", "Aligned", "Registered", "Fixed"]);
}
