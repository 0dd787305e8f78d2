use wireframe::{color_classes, smoothing_representatives, AsFloat4, AttributeValues, F32_ONE_BITS};

#[test]
fn vertices_at_one_position_share_a_smoothing_slot() {
    let keys = vec![(0, 0, 0), (1, 0, 0), (0, 0, 0), (1, 0, 0), (2, 2, 2)];
    assert_eq!(smoothing_representatives(&keys, 5), vec![0, 1, 0, 1, 4]);
}

#[test]
fn only_vertices_with_normals_open_smoothing_slots() {
    let keys = vec![(0, 0, 0), (1, 0, 0), (0, 0, 0)];
    assert_eq!(smoothing_representatives(&keys, 2), vec![0, 1, 0]);
    assert_eq!(smoothing_representatives(&keys, 10), vec![0, 1, 0]);
}

#[test]
fn equal_positions_share_a_color_class() {
    let positions = [3, 5, 3, 7, 5];
    let r = color_classes(positions.len(), |a, b| positions[a] == positions[b]);
    assert_eq!(r.classes, vec![0, 1, 0, 2, 1]);
    assert_eq!(r.representatives, vec![0, 1, 3]);
}

#[test]
fn first_matching_class_wins() {
    let r = color_classes(3, |a, b| a == 0 || b == 0 || a == b || true);
    assert_eq!(r.classes, vec![0, 0, 0]);
    assert_eq!(r.representatives, vec![0]);
    let r = color_classes(0, |_, _| true);
    assert!(r.classes.is_empty());
}

#[test]
fn three_component_values_gain_a_one() {
    let v = AttributeValues::Float32x3(vec![[1, 2, 3]]);
    assert_eq!(v.as_float4(), Some(vec![[1, 2, 3, F32_ONE_BITS]]));
    assert_eq!(F32_ONE_BITS, 1.0f32.to_bits());
    let v = AttributeValues::Float32x4(vec![[1, 2, 3, 4]]);
    assert_eq!(v.as_float4(), Some(vec![[1, 2, 3, 4]]));
    assert_eq!(AttributeValues::Other.as_float4(), None);
}
