use calibraw_core::masks::{
    copied_name, export_mask_atlas_edge, mask_atlas_edge, moved_index, recorded_brush_groups, BrushMode,
    BrushStrokeGroup, LocalMask,
    MaskCombineMode, MaskImage, MaskKind, MaskRgbImage, MaskStack, ObjectSelection, MAX_LOCAL_MASKS,
    MAX_MASK_COMPONENTS,
};

type Stack = MaskStack<(), f32, u32>;

fn add(stack: &mut Stack, kind: MaskKind) -> Option<(usize, usize)> {
    stack.add_mask(kind, (), 0.0, kind as u32)
}

fn add_component(stack: &mut Stack, kind: MaskKind, combine: MaskCombineMode) -> Option<(usize, usize)> {
    stack.add_component(kind, combine, kind as u32)
}

#[test]
fn reordering_tracks_selected_mask_and_component() {
    let mut stack = Stack::new();
    add(&mut stack, MaskKind::Brush);
    add(&mut stack, MaskKind::Radial);
    add(&mut stack, MaskKind::Linear);
    assert!(stack.move_mask(2, 0));
    assert_eq!(stack.selected_mask, Some(0));
    assert_eq!(stack.masks[0].components[0].kind, MaskKind::Linear);

    add_component(&mut stack, MaskKind::Brush, MaskCombineMode::Subtract);
    assert!(stack.move_component(1, 0));
    assert_eq!(stack.selected_component, Some(0));
    assert_eq!(stack.masks[0].components[0].kind, MaskKind::Brush);
}

#[test]
fn duplicate_delete_and_selection_use_shared_stack_rules() {
    let mut stack = Stack::new();
    add(&mut stack, MaskKind::Radial);
    stack.masks[0].common.rename("Source".to_owned());
    stack.masks[0].adjustments = 1.25;
    assert!(stack.duplicate_mask(0, true, 0.0));
    assert_eq!(stack.selected_mask, Some(1));
    assert_eq!(stack.selected_component, Some(0));
    assert_eq!(stack.masks[1].common.name, "Source Copy");
    assert!(stack.masks[1].common.invert);
    assert_eq!(stack.masks[1].adjustments, 0.0);
    assert_eq!(stack.masks[1].components, stack.masks[0].components);

    stack.select_mask(0);
    add_component(&mut stack, MaskKind::Linear, MaskCombineMode::Subtract);
    assert!(stack.duplicate_component(0, 1, true));
    assert_eq!(stack.selected_component, Some(2));
    assert_eq!(stack.masks[0].components[2].common.name, "Linear Gradient Copy");
    assert!(stack.masks[0].components[2].common.invert);
    assert_eq!(stack.masks[0].components[2].geometry, stack.masks[0].components[1].geometry);

    assert!(stack.delete_component(0, 2));
    assert_eq!(stack.selected_mask, Some(0));
    assert_eq!(stack.selected_component, Some(1));
    assert!(stack.delete_mask(0));
    assert_eq!(stack.selected_mask, Some(0));
    assert_eq!(stack.selected_component, Some(0));
    assert_eq!(stack.masks.len(), 1);
}

#[test]
fn new_brush_is_selected_and_paint_ready() {
    let mut stack = Stack::new();
    assert_eq!(add(&mut stack, MaskKind::Brush), Some((0, 0)));
    assert_eq!(stack.selected_mask, Some(0));
    assert_eq!(stack.selected_component, Some(0));
    assert_eq!(stack.selected_component().unwrap().kind, MaskKind::Brush);
    assert_eq!(stack.selected_mask().unwrap().common.name, "Mask 1");
}

#[test]
fn submask_components_can_be_reordered_with_insertion_indices() {
    let mut stack = Stack::new();
    add(&mut stack, MaskKind::Brush);
    add_component(&mut stack, MaskKind::Radial, MaskCombineMode::Add);
    add_component(&mut stack, MaskKind::Linear, MaskCombineMode::Subtract);

    assert_eq!(stack.masks[0].components[1].kind, MaskKind::Radial);
    assert_eq!(stack.move_submask_component(0, 1, 0, 3), Some((0, 2)));
    assert_eq!(stack.masks[0].components[2].kind, MaskKind::Radial);
    assert_eq!(stack.selected_component, Some(2));
}

#[test]
fn submask_components_can_move_between_nonempty_groups() {
    let mut stack = Stack::new();
    add(&mut stack, MaskKind::Brush);
    add_component(&mut stack, MaskKind::Radial, MaskCombineMode::Add);
    add(&mut stack, MaskKind::Linear);

    assert_eq!(stack.move_submask_component(0, 1, 1, 1), Some((1, 1)));
    assert_eq!(stack.masks[0].components.len(), 1);
    assert_eq!(stack.masks[1].components[1].kind, MaskKind::Radial);
    assert_eq!(stack.selected_mask, Some(1));
    assert_eq!(stack.selected_component, Some(1));
    assert_eq!(stack.move_submask_component(0, 0, 1, 0), None);
}

#[test]
fn mask_image_dimensions_are_checked_before_buffer_comparison() {
    assert!(MaskImage::new(0, 0, Vec::new()).is_some());
    assert!(MaskImage::new(2, 3, vec![0; 6]).is_some());
    assert!(MaskImage::new(2, 3, vec![0; 5]).is_none());
    assert!(MaskImage::new(u32::MAX, u32::MAX, Vec::new()).is_none());
}

#[test]
fn rgba_mask_image_dimensions_are_checked_before_buffer_comparison() {
    assert!(MaskRgbImage::new(0, 0, Vec::new()).is_some());
    assert!(MaskRgbImage::new(2, 3, vec![0; 24]).is_some());
    assert!(MaskRgbImage::new(2, 3, vec![0; 23]).is_none());
    assert!(MaskRgbImage::new(u32::MAX, u32::MAX, Vec::new()).is_none());
}

#[test]
fn shared_properties_report_changes() {
    let mut stack = Stack::new();
    add(&mut stack, MaskKind::Brush);
    let mask = &mut stack.masks[0];
    assert!(mask.common.rename("Primary".to_owned()));
    assert!(!mask.common.rename("Primary".to_owned()));
    assert!(mask.common.set_enabled(false));
    assert!(!mask.common.set_enabled(false));
    mask.common.toggle_invert();
    assert_eq!(mask.common.name, "Primary");
    assert!(!mask.common.enabled);
    assert!(mask.common.invert);
    let component = &mut mask.components[0];
    assert!(component.set_combine(MaskCombineMode::Intersect));
    assert!(!component.set_combine(MaskCombineMode::Intersect));
    assert_eq!(component.combine, MaskCombineMode::Intersect);
}

#[test]
fn deleting_a_mask_renumbers_default_names() {
    let mut stack = Stack::new();
    add(&mut stack, MaskKind::Brush);
    add(&mut stack, MaskKind::Radial);
    add(&mut stack, MaskKind::Linear);
    stack.masks[2].common.rename("Sky".to_owned());
    assert!(stack.delete_mask(0));
    assert_eq!(stack.masks[0].common.name, "Mask 1");
    assert_eq!(stack.masks[1].common.name, "Sky");
    assert_eq!(stack.selected_mask, Some(0));
    assert!(stack.delete_mask(1));
    assert!(stack.delete_mask(0));
    assert_eq!(stack.selected_mask, None);
    assert_eq!(stack.selected_component, None);
    assert!(!stack.delete_mask(0));
}

#[test]
fn stack_limits_and_unavailable_kinds() {
    let mut stack = Stack::new();
    assert_eq!(add(&mut stack, MaskKind::DepthRange), None);
    for _ in 0..MAX_LOCAL_MASKS {
        assert!(add(&mut stack, MaskKind::Brush).is_some());
    }
    assert_eq!(add(&mut stack, MaskKind::Brush), None);
    assert_eq!(stack.masks.len(), MAX_LOCAL_MASKS);
    stack.clear();
    assert_eq!(add_component(&mut stack, MaskKind::Brush, MaskCombineMode::Add), None);
}

#[test]
fn ensure_selection_repairs_out_of_range_indices() {
    let mut stack = Stack::new();
    assert_eq!(stack.ensure_selection(), None);
    add(&mut stack, MaskKind::Brush);
    add(&mut stack, MaskKind::Radial);
    stack.selected_mask = Some(7);
    stack.selected_component = Some(9);
    assert_eq!(stack.ensure_selection(), Some((1, 0)));
    assert!(stack.select_component(0, 0));
    assert!(!stack.select_component(0, 1));
    assert!(!stack.select_mask(2));
}

#[test]
fn moving_back_restores_order_and_selection() {
    let mut stack = Stack::new();
    for kind in [MaskKind::Brush, MaskKind::Radial, MaskKind::Linear, MaskKind::Subject] {
        add(&mut stack, kind);
    }
    stack.select_mask(1);
    let before: Vec<MaskKind> = stack.masks.iter().map(|mask| mask.components[0].kind).collect();
    assert!(stack.move_mask(0, 3));
    assert_eq!(stack.selected_mask, Some(0));
    assert!(stack.move_mask(3, 0));
    let after: Vec<MaskKind> = stack.masks.iter().map(|mask| mask.components[0].kind).collect();
    assert_eq!(before, after);
    assert_eq!(stack.selected_mask, Some(1));
    assert_eq!(moved_index(2, 3, 0), 3);
    assert_eq!(moved_index(3, 3, 0), 0);
    assert_eq!(moved_index(0, 1, 2), 0);
}

#[test]
fn copy_names_skip_taken_candidates() {
    let taken = vec!["Sky".to_owned(), "Sky Copy".to_owned(), "Sky Copy 2".to_owned()];
    assert_eq!(copied_name("Sky", &taken), "Sky Copy 3");
    assert_eq!(copied_name("Ground", &taken), "Ground Copy");
}

#[test]
fn labels_defaults_and_atlas_edges() {
    assert_eq!(MaskKind::Radial.label(), "Radial Gradient");
    assert_eq!(MaskKind::Background.label(), "Select Not Subject");
    assert!(!MaskKind::DepthRange.is_available());
    assert!(MaskKind::Object.is_available());
    assert_eq!(MaskCombineMode::Subtract.label(), "Subtract");
    assert_eq!(BrushMode::Erase.label(), "Eraser");
    assert_eq!(MaskKind::default(), MaskKind::Brush);
    assert_eq!(BrushMode::default(), BrushMode::Paint);
    assert_eq!(mask_atlas_edge(), 2048);
    assert_eq!(export_mask_atlas_edge(6000, 4000), 4096);
    assert_eq!(export_mask_atlas_edge(1000, 800), 2048);
    assert_eq!(export_mask_atlas_edge(3000, 3500), 3500);
    let mask: LocalMask<(), f32, u32> = LocalMask::new(MaskKind::Linear, 4, (), 0.0, 7);
    assert_eq!(mask.common.name, "Mask 4");
    assert_eq!(mask.components[0].common.name, "Linear Gradient");
}

#[test]
fn copies_inserted_by_hand_follow_the_duplicate_rules() {
    let mut stack = Stack::new();
    add(&mut stack, MaskKind::Linear);
    stack.masks[0].adjustments = 0.5;
    let copy = stack.masks[0].clone();
    assert!(stack.insert_mask_copy(0, copy, false, 0.0));
    assert_eq!(stack.masks[1].common.name, "Mask 1 Copy");
    assert!(!stack.masks[1].common.invert);
    assert_eq!(stack.masks[1].adjustments, 0.5);
    assert!(stack.duplicate_mask(0, false, 0.0));
    assert_eq!(stack.masks[1].common.name, "Mask 1 Copy 2");
    assert!(!stack.duplicate_mask(7, false, 0.0));
    assert!(!stack.duplicate_component(0, 5, false));
    let component = stack.masks[0].components[0].clone();
    assert!(stack.insert_component_copy(0, 0, component, false));
    assert_eq!(stack.masks[0].components[1].common.name, "Linear Gradient Copy");
}

#[test]
fn selected_mut_accessors_write_in_place() {
    let mut stack = Stack::new();
    assert!(stack.selected_mask_mut().is_none());
    assert!(stack.selected_component_mut().is_none());
    add(&mut stack, MaskKind::Brush);
    add(&mut stack, MaskKind::Radial);
    stack.selected_mask_mut().unwrap().adjustments = 2.0;
    stack.selected_component_mut().unwrap().geometry = 77;
    assert_eq!(stack.masks[1].adjustments, 2.0);
    assert_eq!(stack.masks[1].components[0].geometry, 77);
    assert_eq!(stack.masks[0].adjustments, 0.0);
    stack.selected_component = None;
    assert!(stack.selected_component_mut().is_none());
}

#[test]
fn object_stroke_keeps_a_completed_selection() {
    let mut stack = Stack::new();
    add(&mut stack, MaskKind::Object);
    assert_eq!(stack.prepare_object_stroke(0, 0, ObjectSelection::Open), Some(0));
    assert_eq!(stack.masks[0].components.len(), 1);
    assert_eq!(stack.prepare_object_stroke(0, 0, ObjectSelection::NotObject), None);
    assert_eq!(stack.prepare_object_stroke(1, 0, ObjectSelection::Open), None);
    assert_eq!(stack.prepare_object_stroke(0, 3, ObjectSelection::Open), None);
    stack.masks[0].components[0].combine = MaskCombineMode::Subtract;
    assert_eq!(
        stack.prepare_object_stroke(0, 0, ObjectSelection::Completed { cleared: 5 }),
        Some(1)
    );
    assert_eq!(stack.masks[0].components.len(), 2);
    assert_eq!(stack.masks[0].components[1].kind, MaskKind::Object);
    assert_eq!(stack.masks[0].components[1].combine, MaskCombineMode::Subtract);
    assert_eq!(stack.masks[0].components[1].geometry, 5);
    assert_eq!(stack.masks[0].components[1].common.name, "Select Object");
    assert_eq!(stack.selected_component, Some(1));
}

fn group(start: usize, end: usize, positive: bool) -> BrushStrokeGroup {
    BrushStrokeGroup { start, end, positive }
}

#[test]
fn recorded_brush_dabs_group_by_stroke_and_sign() {
    let positive = [true, true, false, false, true, true];
    assert_eq!(
        recorded_brush_groups(&positive, &[4, 2, 9, 2]),
        (2, vec![group(0, 2, false), group(2, 4, true)])
    );
    assert_eq!(recorded_brush_groups(&[true, true, true], &[5]), (3, Vec::new()));
    assert_eq!(recorded_brush_groups(&[true, true, true], &[]), (3, Vec::new()));
    assert_eq!(
        recorded_brush_groups(&[true, false, false, true], &[0]),
        (0, vec![group(0, 1, true), group(1, 3, false), group(3, 4, true)])
    );
}

#[derive(Clone, Debug, PartialEq)]
struct ObjectGeometry {
    mask: Option<Vec<u8>>,
    strokes: Vec<(f32, f32)>,
    brush_size: f32,
}

type ObjectStack = MaskStack<(), f32, ObjectGeometry>;

fn fresh_object() -> ObjectGeometry {
    ObjectGeometry { mask: None, strokes: Vec::new(), brush_size: 0.1 }
}

fn object_selection(geometry: &ObjectGeometry) -> ObjectSelection<ObjectGeometry> {
    if geometry.mask.is_none() {
        ObjectSelection::Open
    } else {
        let mut cleared = geometry.clone();
        cleared.mask = None;
        cleared.strokes.clear();
        ObjectSelection::Completed { cleared }
    }
}

fn prepare(stack: &mut ObjectStack, mask_index: usize, component_index: usize) -> Option<usize> {
    let selection = object_selection(&stack.masks[mask_index].components[component_index].geometry);
    stack.prepare_object_stroke(mask_index, component_index, selection)
}

#[test]
fn new_object_stroke_preserves_completed_submask_and_respects_limit() {
    let mut stack = ObjectStack::new();
    stack.add_mask(MaskKind::Object, (), 0.0, fresh_object());
    assert_eq!(prepare(&mut stack, 0, 0), Some(0));
    let geometry = &mut stack.masks[0].components[0].geometry;
    geometry.mask = Some(vec![255]);
    geometry.brush_size = 0.23;
    geometry.strokes.push((0.5, 0.5));
    let original = stack.masks[0].components[0].clone();
    assert_eq!(prepare(&mut stack, 0, 0), Some(1));
    assert_eq!(stack.selected_component, Some(1));
    assert_eq!(stack.masks.len(), 1);
    assert_eq!(stack.masks[0].components[0], original);
    let added = &stack.masks[0].components[1].geometry;
    assert!(added.mask.is_none() && added.strokes.is_empty() && added.brush_size == 0.23);
    assert_eq!(prepare(&mut stack, 0, 1), Some(1));
    while stack.masks[0].components.len() < MAX_MASK_COMPONENTS {
        stack.add_component(MaskKind::Object, MaskCombineMode::Add, fresh_object()).unwrap();
    }
    assert_eq!(prepare(&mut stack, 0, 0), None);
    assert_eq!(stack.masks[0].components[0], original);
}
