use calibraw_core::point_colors::{PointColors, MAX_POINT_COLORS};

/// A stand-in for a sampled colour: hue, saturation, luminance and range.
type Sample = [f32; 4];

#[test]
fn point_colors_are_bounded_and_serialize_as_a_sequence() {
    let mut colors: PointColors<Sample> = PointColors::default();
    for _ in 0..MAX_POINT_COLORS {
        assert!(colors.push(Sample::default()));
    }
    assert!(!colors.push(Sample::default()));
    let encoded = serde_json::to_value(colors.as_slice()).unwrap();
    assert_eq!(encoded.as_array().unwrap().len(), MAX_POINT_COLORS);
    let values: Vec<Sample> = serde_json::from_value(encoded).unwrap();
    let decoded = PointColors::from_vec(values).unwrap();
    assert_eq!(decoded, colors);
    assert!(PointColors::from_vec(vec![Sample::default(); MAX_POINT_COLORS + 1]).is_none());
}

#[test]
fn removing_and_clearing_colors_preserves_logical_equality() {
    let mut colors: PointColors<Sample> = PointColors::default();
    colors.push(Sample::default());
    let mut copy = colors.clone();
    assert_eq!(copy.remove(0), Some(Sample::default()));
    assert_eq!(copy, PointColors::default());
    colors.clear();
    assert_eq!(colors, PointColors::default());
}

#[test]
fn point_colors_read_and_write_by_index() {
    let mut colors: PointColors<u32> = PointColors::new();
    assert!(colors.is_empty());
    colors.push(10);
    colors.push(20);
    colors.push(30);
    assert_eq!(colors.len(), 3);
    assert_eq!(colors.get(1), Some(&20));
    assert_eq!(colors.get(3), None);
    *colors.get_mut(2).unwrap() = 33;
    assert!(colors.get_mut(5).is_none());
    assert_eq!(colors.remove(0), Some(10));
    assert_eq!(colors.as_slice(), &[20, 33][..]);
    assert_eq!(colors.remove(7), None);
}
