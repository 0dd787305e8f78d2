use wireframe::{
    line_list_to_mesh, mesh_to_line_list, mesh_to_line_list_from_json, JsonLineList, LineList,
    LineListError, MeshData, MeshIndices, Vert,
};

fn pos(i: u32) -> [u32; 3] {
    [i, i + 100, i + 200]
}

fn nor(i: u32) -> [u32; 3] {
    [i + 1000, i + 1100, i + 1200]
}

fn mesh(n: u32, indices: Option<MeshIndices>) -> MeshData {
    MeshData {
        positions: Some((0..n).map(pos).collect()),
        normals: Some((0..n).map(nor).collect()),
        smoothed_normals: None,
        colors: None,
        joint_indices: None,
        joint_weights: None,
        vert_index: None,
        indices,
    }
}

fn vert(i: u32) -> Vert {
    Vert { position: pos(i), normal: nor(i), color: None, joint_indices: None, joint_weights: None }
}

fn ends(l: &LineList) -> Vec<(u32, u32)> {
    l.lines.iter().map(|(s, e)| (s.position[0], e.position[0])).collect()
}

#[test]
fn single_triangle_without_indices_gives_three_lines() {
    let l = mesh_to_line_list(&mesh(3, None)).unwrap();
    assert_eq!(ends(&l), vec![(0, 1), (1, 2), (2, 0)]);
    assert_eq!(l.lines[0], (vert(0), vert(1)));
    assert_eq!(l.lines[2], (vert(2), vert(0)));
}

#[test]
fn trailing_vertices_that_make_no_triangle_are_ignored() {
    let l = mesh_to_line_list(&mesh(5, None)).unwrap();
    assert_eq!(ends(&l), vec![(0, 1), (1, 2), (2, 0)]);
}

#[test]
fn shared_edge_is_drawn_once_in_first_orientation() {
    let m = mesh(4, Some(MeshIndices::U16(vec![0, 1, 2, 2, 1, 3])));
    let l = mesh_to_line_list(&m).unwrap();
    assert_eq!(ends(&l), vec![(0, 1), (1, 2), (2, 0), (1, 3), (3, 2)]);
}

#[test]
fn u32_indices_are_read_like_u16_indices() {
    let m = mesh(4, Some(MeshIndices::U32(vec![0, 1, 2, 2, 1, 3])));
    let l = mesh_to_line_list(&m).unwrap();
    assert_eq!(ends(&l), vec![(0, 1), (1, 2), (2, 0), (1, 3), (3, 2)]);
}

#[test]
fn repeated_triangle_adds_no_line() {
    let m = mesh(3, Some(MeshIndices::U16(vec![0, 1, 2, 2, 1, 0])));
    let l = mesh_to_line_list(&m).unwrap();
    assert_eq!(l.lines.len(), 3);
}

#[test]
fn missing_normals_is_an_error() {
    let mut m = mesh(3, None);
    m.normals = None;
    assert_eq!(mesh_to_line_list(&m).err(), Some(LineListError::MissingData));
}

#[test]
fn missing_positions_is_an_error() {
    let mut m = mesh(3, None);
    m.positions = None;
    assert_eq!(mesh_to_line_list(&m).err(), Some(LineListError::MissingData));
}

#[test]
fn mesh_without_triangles_is_an_error() {
    assert_eq!(mesh_to_line_list(&mesh(2, None)).err(), Some(LineListError::NoLines));
    let m = mesh(3, Some(MeshIndices::U16(vec![])));
    assert_eq!(mesh_to_line_list(&m).err(), Some(LineListError::NoLines));
}

#[test]
fn optional_attributes_are_carried_to_line_ends() {
    let mut m = mesh(3, None);
    m.colors = Some(vec![[1, 1, 1, 1], [2, 2, 2, 2], [3, 3, 3, 3]]);
    m.joint_indices = Some(vec![[0, 0, 0, 0], [1, 0, 0, 0], [2, 0, 0, 0]]);
    m.joint_weights = Some(vec![[7, 0, 0, 0], [8, 0, 0, 0], [9, 0, 0, 0]]);
    let l = mesh_to_line_list(&m).unwrap();
    let (s, e) = l.lines[1];
    assert_eq!(s.color, Some([2, 2, 2, 2]));
    assert_eq!(e.color, Some([3, 3, 3, 3]));
    assert_eq!(s.joint_indices, Some([1, 0, 0, 0]));
    assert_eq!(e.joint_weights, Some([9, 0, 0, 0]));
}

fn json_mesh() -> MeshData {
    let mut m = mesh(3, None);
    m.vert_index = Some(vec![10, 11, 12]);
    m
}

#[test]
fn selected_pairs_become_lines_once_each() {
    let data = JsonLineList { line_list: vec![[10, 11], [11, 10], [12, 99], [11, 12]] };
    let l = mesh_to_line_list_from_json(&json_mesh(), &data);
    assert_eq!(ends(&l), vec![(0, 1), (1, 2)]);
    assert_eq!(l.lines[0], (vert(0), vert(1)));
}

#[test]
fn repeated_exporter_index_names_its_last_vertex() {
    let mut m = json_mesh();
    m.vert_index = Some(vec![10, 10, 12]);
    let data = JsonLineList { line_list: vec![[10, 12]] };
    let l = mesh_to_line_list_from_json(&m, &data);
    assert_eq!(ends(&l), vec![(1, 2)]);
}

#[test]
fn mesh_without_exporter_indices_gives_no_selected_line() {
    let data = JsonLineList { line_list: vec![[0, 1]] };
    let l = mesh_to_line_list_from_json(&mesh(3, None), &data);
    assert!(l.lines.is_empty());
}

#[test]
fn mesh_with_only_smoothed_normals_gives_no_selected_line() {
    let mut m = json_mesh();
    m.smoothed_normals = m.normals.take();
    let data = JsonLineList { line_list: vec![[10, 11]] };
    let l = mesh_to_line_list_from_json(&m, &data);
    assert!(l.lines.is_empty());
}

#[test]
fn line_mesh_has_both_ends_of_every_line() {
    let mut m = mesh(3, None);
    m.colors = Some(vec![[1, 1, 1, 1], [2, 2, 2, 2], [3, 3, 3, 3]]);
    let l = mesh_to_line_list(&m).unwrap();
    let lm = line_list_to_mesh(&l, &m);
    assert_eq!(lm.positions, vec![pos(0), pos(1), pos(1), pos(2), pos(2), pos(0)]);
    assert_eq!(lm.normals, vec![nor(0), nor(1), nor(1), nor(2), nor(2), nor(0)]);
    assert_eq!(lm.colors.len(), 6);
    assert_eq!(lm.colors[1], [2, 2, 2, 2]);
    assert!(lm.joint_indices.is_none());
    assert!(lm.joint_weights.is_none());
}

#[test]
fn line_mesh_skips_missing_colors_and_keeps_joints_of_skinned_meshes() {
    let mut a = vert(0);
    a.color = Some([5, 5, 5, 5]);
    a.joint_indices = Some([1, 2, 3, 4]);
    let b = vert(1);
    let l = LineList { lines: vec![(a, b)] };
    let mut m = mesh(2, None);
    m.joint_indices = Some(vec![[0; 4], [0; 4]]);
    let lm = line_list_to_mesh(&l, &m);
    assert_eq!(lm.colors, vec![[5, 5, 5, 5]]);
    assert_eq!(lm.joint_indices, Some(vec![[1, 2, 3, 4]]));
    assert_eq!(lm.joint_weights, None);
}

#[test]
fn line_mesh_of_a_quad_draws_its_five_edges() {
    let mut m = mesh(4, Some(MeshIndices::U16(vec![0, 1, 2, 2, 1, 3])));
    m.joint_weights = Some(vec![[7; 4], [8; 4], [9; 4], [10; 4]]);
    let l = mesh_to_line_list(&m).unwrap();
    let lm = line_list_to_mesh(&l, &m);
    assert_eq!(lm.positions.len(), 10);
    let mut drawn: Vec<(u32, u32)> = lm
        .positions
        .chunks(2)
        .map(|p| (p[0][0].min(p[1][0]), p[0][0].max(p[1][0])))
        .collect();
    drawn.sort();
    assert_eq!(drawn, vec![(0, 1), (0, 2), (1, 2), (1, 3), (2, 3)]);
    assert!(lm.colors.is_empty());
    assert_eq!(lm.joint_weights.as_ref().map(|w| w.len()), Some(10));
    assert!(lm.joint_indices.is_none());
}
