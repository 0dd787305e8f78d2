use vstd::prelude::*;

use crate::edge_sets::{edge_set_contents, vertex_key_map_contents, EdgeSet, VertexKeyMap};
use crate::extras::{pairs_view, JsonLineList};
use crate::mesh::{has_line_data, vert_at, vert_of, vertex_in_range, LineList, MeshData, MeshIndices, Vert};

verus! {

/// The key of an undirected edge: its vertex pair with the smaller index first.
pub open spec fn edge_key(e: (usize, usize)) -> (usize, usize) {
    if e.0 < e.1 {
        e
    } else {
        (e.1, e.0)
    }
}

/// The keys of all edges in `es`.
pub open spec fn seen_edge_keys(es: Seq<(usize, usize)>) -> Set<(usize, usize)>
    decreases es.len(),
{
    if es.len() == 0 {
        Set::empty()
    } else {
        seen_edge_keys(es.drop_last()).insert(edge_key(es.last()))
    }
}

/// The edges of `es` whose key has not occurred earlier in `es`, in order.
pub open spec fn first_edges(es: Seq<(usize, usize)>) -> Seq<(usize, usize)>
    decreases es.len(),
{
    if es.len() == 0 {
        seq![]
    } else if seen_edge_keys(es.drop_last()).contains(edge_key(es.last())) {
        first_edges(es.drop_last())
    } else {
        first_edges(es.drop_last()).push(es.last())
    }
}

/// The line from the first to the second vertex of an edge.
pub open spec fn line_of(mesh: MeshData, e: (usize, usize)) -> (Vert, Vert) {
    (vert_at(mesh, e.0 as int), vert_at(mesh, e.1 as int))
}

/// The lines that the edge sequence `es` yields: one per edge key, at its first occurrence.
pub open spec fn lines_of(mesh: MeshData, es: Seq<(usize, usize)>) -> Seq<(Vert, Vert)> {
    first_edges(es).map_values(|e: (usize, usize)| line_of(mesh, e))
}

/// Adds the edge `(v1, v2)` to the line list unless an edge between the same two
/// vertices is already there.
fn add_edge(
    mesh: &MeshData,
    set: &mut EdgeSet,
    lines: &mut Vec<(Vert, Vert)>,
    v1: usize,
    v2: usize,
    Ghost(es): Ghost<Seq<(usize, usize)>>,
)
    requires
        has_line_data(*mesh),
        vertex_in_range(*mesh, v1 as int),
        vertex_in_range(*mesh, v2 as int),
        edge_set_contents(*old(set)) == seen_edge_keys(es),
        old(lines)@ == lines_of(*mesh, es),
    ensures
        edge_set_contents(*final(set)) == seen_edge_keys(es.push((v1, v2))),
        final(lines)@ == lines_of(*mesh, es.push((v1, v2))),
{
    let ghost es2 = es.push((v1, v2));
    assert(es2.drop_last() =~= es);
    let edge = if v1 < v2 {
        (v1, v2)
    } else {
        (v2, v1)
    };
    if set.insert(edge) {
        let start = vert_of(mesh, v1);
        let end = vert_of(mesh, v2);
        lines.push((start, end));
        assert(first_edges(es2) == first_edges(es).push((v1, v2)));
        assert(lines_of(*mesh, es2) =~= lines_of(*mesh, es).push(line_of(*mesh, (v1, v2))));
    } else {
        assert(first_edges(es2) == first_edges(es));
    }
}

} // verus!

verus! {

/// The corner sequence of a mesh's triangles: its index buffer, or, for a mesh without
/// one, the vertices in order, as many as make whole triangles.
pub open spec fn triangle_corners(mesh: MeshData) -> Seq<usize> {
    match mesh.indices {
        Some(MeshIndices::U16(v)) => v@.map_values(|x: u16| x as usize),
        Some(MeshIndices::U32(v)) => v@.map_values(|x: u32| x as usize),
        None => Seq::new((3 * (mesh.positions.unwrap().len() / 3)) as nat, |i: int| i as usize),
    }
}

/// The three edges `(a, b)`, `(b, c)`, `(c, a)` of each of the first `t` triangles of the
/// corner sequence `c`, triangle by triangle.
pub open spec fn triangle_edges(c: Seq<usize>, t: nat) -> Seq<(usize, usize)>
    decreases t,
{
    if t == 0 {
        seq![]
    } else {
        let b = 3 * (t - 1);
        triangle_edges(c, (t - 1) as nat) + seq![(c[b], c[b + 1]), (c[b + 1], c[b + 2]), (c[b + 2], c[b])]
    }
}

/// The edges of all triangles of a mesh, in order.
pub open spec fn mesh_edges(mesh: MeshData) -> Seq<(usize, usize)> {
    triangle_edges(triangle_corners(mesh), triangle_corners(mesh).len() / 3)
}

/// The lines of the wireframe of a mesh: one per distinct triangle edge.
pub open spec fn mesh_lines(mesh: MeshData) -> Seq<(Vert, Vert)> {
    lines_of(mesh, mesh_edges(mesh))
}

/// Whether the mesh's triangles can be read: the corner sequence makes whole triangles
/// and every corner names a vertex that each attribute array covers.
pub open spec fn triangles_well_formed(mesh: MeshData) -> bool {
    &&& triangle_corners(mesh).len() % 3 == 0
    &&& forall|k: int|
        0 <= k < triangle_corners(mesh).len() ==> vertex_in_range(mesh, #[trigger] triangle_corners(mesh)[k] as int)
}

/// Adds the three edges of triangle `(a, b, c)`.
fn add_triangle(
    mesh: &MeshData,
    set: &mut EdgeSet,
    lines: &mut Vec<(Vert, Vert)>,
    a: usize,
    b: usize,
    c: usize,
    Ghost(es): Ghost<Seq<(usize, usize)>>,
)
    requires
        has_line_data(*mesh),
        vertex_in_range(*mesh, a as int),
        vertex_in_range(*mesh, b as int),
        vertex_in_range(*mesh, c as int),
        edge_set_contents(*old(set)) == seen_edge_keys(es),
        old(lines)@ == lines_of(*mesh, es),
    ensures
        edge_set_contents(*final(set)) == seen_edge_keys(es + seq![(a, b), (b, c), (c, a)]),
        final(lines)@ == lines_of(*mesh, es + seq![(a, b), (b, c), (c, a)]),
{
    add_edge(mesh, set, lines, a, b, Ghost(es));
    add_edge(mesh, set, lines, b, c, Ghost(es.push((a, b))));
    add_edge(mesh, set, lines, c, a, Ghost(es.push((a, b)).push((b, c))));
    assert(es.push((a, b)).push((b, c)).push((c, a)) =~= es + seq![(a, b), (b, c), (c, a)]);
}

/// Errors of [`mesh_to_line_list`].
#[derive(Debug, PartialEq, Eq)]
pub enum LineListError {
    /// The mesh lacks positions or normals.
    MissingData,
    /// The mesh has no triangle.
    NoLines,
}

/// Builds the wireframe of a mesh: a line for every distinct edge of its triangles, in the
/// order in which the triangles first use the edge, from the edge's first corner to its
/// second, carrying the attributes of those two vertices.
///
/// The triangles come from the index buffer, or, without one, from consecutive vertex
/// triples.
pub fn mesh_to_line_list(mesh: &MeshData) -> (r: Result<LineList, LineListError>)
    requires
        has_line_data(*mesh) ==> triangles_well_formed(*mesh),
    ensures
        match r {
            Ok(l) => has_line_data(*mesh) && l.lines@ == mesh_lines(*mesh) && l.lines@.len() > 0,
            Err(LineListError::MissingData) => !has_line_data(*mesh),
            Err(LineListError::NoLines) => has_line_data(*mesh) && mesh_lines(*mesh).len() == 0,
        },
{
    if !(mesh.positions.is_some() && mesh.normals.is_some()) {
        return Err(LineListError::MissingData);
    }
    let mut set = EdgeSet::new();
    let mut lines: Vec<(Vert, Vert)> = Vec::new();
    let ghost corners = triangle_corners(*mesh);
    proof {
        assert(seen_edge_keys(seq![]) =~= Set::<(usize, usize)>::empty());
        assert(lines@ =~= lines_of(*mesh, triangle_edges(corners, 0)));
    }
    match &mesh.indices {
        Some(MeshIndices::U16(idx)) => {
            let n = idx.len() / 3;
            let mut t: usize = 0;
            while t < n
                invariant
                    has_line_data(*mesh),
                    triangles_well_formed(*mesh),
                    mesh.indices == Some(MeshIndices::U16(*idx)),
                    corners == triangle_corners(*mesh),
                    n == idx.len() / 3,
                    t <= n,
                    edge_set_contents(set) == seen_edge_keys(triangle_edges(corners, t as nat)),
                    lines@ == lines_of(*mesh, triangle_edges(corners, t as nat)),
                decreases n - t,
            {
                assert(3 * t + 2 < idx.len());
                let a = idx[3 * t] as usize;
                let b = idx[3 * t + 1] as usize;
                let c = idx[3 * t + 2] as usize;
                assert(corners[3 * t] == a && corners[3 * t + 1] == b && corners[3 * t + 2] == c);
                add_triangle(mesh, &mut set, &mut lines, a, b, c, Ghost(triangle_edges(corners, t as nat)));
                t = t + 1;
            }
        },
        Some(MeshIndices::U32(idx)) => {
            let n = idx.len() / 3;
            let mut t: usize = 0;
            while t < n
                invariant
                    has_line_data(*mesh),
                    triangles_well_formed(*mesh),
                    mesh.indices == Some(MeshIndices::U32(*idx)),
                    corners == triangle_corners(*mesh),
                    n == idx.len() / 3,
                    t <= n,
                    edge_set_contents(set) == seen_edge_keys(triangle_edges(corners, t as nat)),
                    lines@ == lines_of(*mesh, triangle_edges(corners, t as nat)),
                decreases n - t,
            {
                assert(3 * t + 2 < idx.len());
                let a = idx[3 * t] as usize;
                let b = idx[3 * t + 1] as usize;
                let c = idx[3 * t + 2] as usize;
                assert(corners[3 * t] == a && corners[3 * t + 1] == b && corners[3 * t + 2] == c);
                add_triangle(mesh, &mut set, &mut lines, a, b, c, Ghost(triangle_edges(corners, t as nat)));
                t = t + 1;
            }
        },
        None => {
            let count = match &mesh.positions {
                Some(p) => p.len(),
                None => 0,
            };
            let n = count / 3;
            let mut t: usize = 0;
            while t < n
                invariant
                    has_line_data(*mesh),
                    triangles_well_formed(*mesh),
                    mesh.indices is None,
                    count == mesh.positions.unwrap().len(),
                    corners == triangle_corners(*mesh),
                    n == count / 3,
                    t <= n,
                    edge_set_contents(set) == seen_edge_keys(triangle_edges(corners, t as nat)),
                    lines@ == lines_of(*mesh, triangle_edges(corners, t as nat)),
                decreases n - t,
            {
                let a = 3 * t;
                assert(corners[3 * t] == a && corners[3 * t + 1] == a + 1 && corners[3 * t + 2] == a + 2);
                add_triangle(mesh, &mut set, &mut lines, a, a + 1, a + 2, Ghost(triangle_edges(corners, t as nat)));
                t = t + 1;
            }
        },
    }
    if lines.len() == 0 {
        Err(LineListError::NoLines)
    } else {
        Ok(LineList { lines })
    }
}

} // verus!

verus! {

/// The edges that `first_edges` keeps are edges of the sequence, their keys are exactly
/// the keys of the sequence, and there are at most as many of them as edges.
proof fn lemma_first_edges_basics(es: Seq<(usize, usize)>)
    ensures
        first_edges(es).len() <= es.len(),
        forall|i: int| 0 <= i < first_edges(es).len() ==> es.contains(#[trigger] first_edges(es)[i]),
        forall|k: (usize, usize)|
            #[trigger] seen_edge_keys(es).contains(k) <==> exists|i: int|
                0 <= i < first_edges(es).len() && edge_key(#[trigger] first_edges(es)[i]) == k,
        forall|i: int, j: int|
            0 <= i < j < first_edges(es).len() ==> edge_key(#[trigger] first_edges(es)[i]) != edge_key(
                #[trigger] first_edges(es)[j],
            ),
    decreases es.len(),
{
    if es.len() > 0 {
        let p = es.drop_last();
        lemma_first_edges_basics(p);
        let fp = first_edges(p);
        let fe = first_edges(es);
        assert forall|i: int| 0 <= i < fe.len() implies es.contains(#[trigger] fe[i]) by {
            if i < fp.len() {
                assert(fe[i] == fp[i]);
                let j = choose|j: int| 0 <= j < p.len() && p[j] == fp[i];
                assert(es[j] == fe[i]);
            } else {
                assert(fe[i] == es.last());
                assert(es[es.len() - 1] == fe[i]);
            }
        }
        assert forall|k: (usize, usize)|
            #[trigger] seen_edge_keys(es).contains(k) <==> exists|i: int|
                0 <= i < fe.len() && edge_key(#[trigger] fe[i]) == k by {
            if seen_edge_keys(es).contains(k) {
                if seen_edge_keys(p).contains(k) {
                    let i = choose|i: int| 0 <= i < fp.len() && edge_key(#[trigger] fp[i]) == k;
                    assert(fe[i] == fp[i]);
                } else {
                    assert(k == edge_key(es.last()));
                    assert(fe[fe.len() - 1] == es.last());
                }
            }
            if exists|i: int| 0 <= i < fe.len() && edge_key(#[trigger] fe[i]) == k {
                let i = choose|i: int| 0 <= i < fe.len() && edge_key(#[trigger] fe[i]) == k;
                if i < fp.len() {
                    assert(fe[i] == fp[i]);
                }
            }
        }
    }
}

/// No two lines come from edges between the same two vertices: the edges that a line
/// list is built from have pairwise different keys.
pub proof fn law_lines_have_distinct_edges(es: Seq<(usize, usize)>)
    ensures
        forall|i: int, j: int|
            0 <= i < j < first_edges(es).len() ==> edge_key(#[trigger] first_edges(es)[i]) != edge_key(
                #[trigger] first_edges(es)[j],
            ),
        forall|i: int, j: int|
            0 <= i < j < first_edges(es).len() ==> #[trigger] first_edges(es)[i] != #[trigger] first_edges(
                es,
            )[j] && first_edges(es)[i] != (first_edges(es)[j].1, first_edges(es)[j].0),
{
    lemma_first_edges_basics(es);
}

/// Every edge is drawn: each edge of the sequence has a line between the same two
/// vertices (in one orientation or the other), and every line is one of the edges.
pub proof fn law_every_edge_is_drawn(es: Seq<(usize, usize)>)
    ensures
        forall|k: int|
            0 <= k < es.len() ==> exists|i: int|
                0 <= i < first_edges(es).len() && edge_key(#[trigger] first_edges(es)[i]) == edge_key(
                    #[trigger] es[k],
                ),
        forall|i: int| 0 <= i < first_edges(es).len() ==> es.contains(#[trigger] first_edges(es)[i]),
{
    lemma_first_edges_basics(es);
    assert forall|k: int| 0 <= k < es.len() implies exists|i: int|
        0 <= i < first_edges(es).len() && edge_key(#[trigger] first_edges(es)[i]) == edge_key(
            #[trigger] es[k],
        ) by {
        lemma_seen_contains(es, k);
    }
}

/// The key of every edge of the sequence is among its seen keys.
proof fn lemma_seen_contains(es: Seq<(usize, usize)>, k: int)
    requires
        0 <= k < es.len(),
    ensures
        seen_edge_keys(es).contains(edge_key(es[k])),
    decreases es.len(),
{
    if k < es.len() - 1 {
        lemma_seen_contains(es.drop_last(), k);
        assert(es.drop_last()[k] == es[k]);
    }
}

/// A wireframe has at most one line per triangle edge, so at most three per triangle.
pub proof fn law_at_most_three_lines_per_triangle(mesh: MeshData)
    ensures
        mesh_lines(mesh).len() <= mesh_edges(mesh).len(),
        mesh_edges(mesh).len() == 3 * (triangle_corners(mesh).len() / 3),
{
    lemma_first_edges_basics(mesh_edges(mesh));
    lemma_triangle_edges_len(triangle_corners(mesh), triangle_corners(mesh).len() / 3);
}

/// The first `t` triangles give `3 * t` edges.
proof fn lemma_triangle_edges_len(c: Seq<usize>, t: nat)
    ensures
        triangle_edges(c, t).len() == 3 * t,
    decreases t,
{
    if t > 0 {
        lemma_triangle_edges_len(c, (t - 1) as nat);
    }
}

} // verus!

verus! {

/// The map that the exporter's vertex indices give: each index to the last vertex that
/// carries it (the position of that vertex, as `u32`).
pub open spec fn vertex_key_map(keys: Seq<u32>) -> Map<u32, u32>
    decreases keys.len(),
{
    if keys.len() == 0 {
        Map::empty()
    } else {
        vertex_key_map(keys.drop_last()).insert(keys.last(), (keys.len() - 1) as u32)
    }
}

/// The exporter's vertex indices of a mesh, none when the mesh lacks them.
pub open spec fn vertex_keys(mesh: MeshData) -> Seq<u32> {
    match mesh.vert_index {
        Some(v) => v@,
        None => seq![],
    }
}

/// The edges that the selected pairs name: for each pair whose two exporter indices both
/// occur in the mesh, the edge between the vertices that carry them.
pub open spec fn selected_edges(keys: Seq<u32>, pairs: Seq<(u32, u32)>) -> Seq<(usize, usize)>
    decreases pairs.len(),
{
    if pairs.len() == 0 {
        seq![]
    } else {
        let prev = selected_edges(keys, pairs.drop_last());
        let p = pairs.last();
        let m = vertex_key_map(keys);
        if m.contains_key(p.0) && m.contains_key(p.1) {
            prev.push((m[p.0] as usize, m[p.1] as usize))
        } else {
            prev
        }
    }
}

/// The lines of the wireframe built from an exporter's selected edges.
pub open spec fn selected_lines(mesh: MeshData, data: JsonLineList) -> Seq<(Vert, Vert)> {
    lines_of(mesh, selected_edges(vertex_keys(mesh), pairs_view(data.line_list@)))
}

/// Whether each selected pair whose two indices occur in the mesh names vertices that
/// every attribute array covers.
pub open spec fn selected_pairs_in_range(mesh: MeshData, data: JsonLineList) -> bool {
    let m = vertex_key_map(vertex_keys(mesh));
    forall|i: int|
        0 <= i < data.line_list@.len() ==> {
            let p = #[trigger] pairs_view(data.line_list@)[i];
            m.contains_key(p.0) && m.contains_key(p.1) ==> vertex_in_range(mesh, m[p.0] as int)
                && vertex_in_range(mesh, m[p.1] as int)
        }
}

/// Builds the wireframe from the edges that the exporter selected: for each selected pair
/// of exporter vertex indices that both occur in the mesh, in order, a line between the
/// two vertices unless one between them is there already.
///
/// The mesh must carry positions, and smoothed normals or normals; lines need normals,
/// so a mesh without normals gives no line.
pub fn mesh_to_line_list_from_json(mesh: &MeshData, data: &JsonLineList) -> (r: LineList)
    requires
        mesh.positions is Some,
        mesh.smoothed_normals is Some || mesh.normals is Some,
        has_line_data(*mesh) ==> selected_pairs_in_range(*mesh, *data),
    ensures
        r.lines@ == (if has_line_data(*mesh) {
            selected_lines(*mesh, *data)
        } else {
            seq![]
        }),
{
    if mesh.normals.is_none() {
        return LineList::new();
    }
    let mut key_map = VertexKeyMap::new();
    let ghost keys = vertex_keys(*mesh);
    if let Some(index_values) = &mesh.vert_index {
        let mut j: usize = 0;
        while j < index_values.len()
            invariant
                keys == index_values@,
                j <= index_values.len(),
                vertex_key_map_contents(key_map) == vertex_key_map(keys.take(j as int)),
            decreases index_values.len() - j,
        {
            assert(keys.take(j + 1).drop_last() =~= keys.take(j as int));
            key_map.insert(index_values[j], j as u32);
            j = j + 1;
        }
        assert(keys.take(j as int) =~= keys);
    } else {
        assert(vertex_key_map_contents(key_map) =~= vertex_key_map(keys));
    }
    let mut set = EdgeSet::new();
    let mut lines: Vec<(Vert, Vert)> = Vec::new();
    let ghost pairs = pairs_view(data.line_list@);
    proof {
        assert(seen_edge_keys(seq![]) =~= Set::<(usize, usize)>::empty());
        assert(lines@ =~= lines_of(*mesh, selected_edges(keys, pairs.take(0))));
    }
    let mut i: usize = 0;
    while i < data.line_list.len()
        invariant
            has_line_data(*mesh),
            selected_pairs_in_range(*mesh, *data),
            keys == vertex_keys(*mesh),
            pairs == pairs_view(data.line_list@),
            vertex_key_map_contents(key_map) == vertex_key_map(keys),
            i <= data.line_list.len(),
            edge_set_contents(set) == seen_edge_keys(selected_edges(keys, pairs.take(i as int))),
            lines@ == lines_of(*mesh, selected_edges(keys, pairs.take(i as int))),
        decreases data.line_list.len() - i,
    {
        let pair = data.line_list[i];
        let ghost prev = selected_edges(keys, pairs.take(i as int));
        assert(pairs.take(i + 1).drop_last() =~= pairs.take(i as int));
        assert(pairs.take(i + 1).last() == (pair@[0], pair@[1]));
        assert(pairs[i as int] == (pair@[0], pair@[1]));
        match (key_map.get(pair[0]), key_map.get(pair[1])) {
            (Some(v1), Some(v2)) => {
                add_edge(mesh, &mut set, &mut lines, v1 as usize, v2 as usize, Ghost(prev));
            },
            _ => {},
        }
        i = i + 1;
    }
    assert(pairs.take(i as int) =~= pairs);
    LineList { lines }
}

} // verus!

verus! {

/// The vertex data of a line mesh: two vertices per line, start then end.
pub struct LineMeshData {
    pub positions: Vec<[u32; 3]>,
    pub colors: Vec<[u32; 4]>,
    pub normals: Vec<[u32; 3]>,
    pub joint_indices: Option<Vec<[u16; 4]>>,
    pub joint_weights: Option<Vec<[u32; 4]>>,
}

/// The ends of the lines, start then end of each line in turn.
pub open spec fn line_ends(lines: Seq<(Vert, Vert)>) -> Seq<Vert>
    decreases lines.len(),
{
    if lines.len() == 0 {
        seq![]
    } else {
        line_ends(lines.drop_last()) + seq![lines.last().0, lines.last().1]
    }
}

/// The values present in a sequence of optional values, in order.
pub open spec fn present<T>(s: Seq<Option<T>>) -> Seq<T>
    decreases s.len(),
{
    if s.len() == 0 {
        seq![]
    } else {
        match s.last() {
            Some(x) => present(s.drop_last()).push(x),
            None => present(s.drop_last()),
        }
    }
}

/// Appends `x` to `v` when it is present.
fn push_present<T: Copy>(v: &mut Vec<T>, x: Option<T>, Ghost(s): Ghost<Seq<Option<T>>>)
    requires
        old(v)@ == present(s),
    ensures
        final(v)@ == present(s.push(x)),
{
    assert(s.push(x).drop_last() =~= s);
    match x {
        Some(y) => v.push(y),
        None => {},
    }
}

/// The vertex data of the line mesh that draws a line list: positions and normals of both
/// ends of every line, the colors that the ends carry, and, where the source mesh carries
/// joint indices or joint weights, those that the ends carry.
pub fn line_list_to_mesh(line_list: &LineList, mesh: &MeshData) -> (r: LineMeshData)
    ensures
        r.positions@ == line_ends(line_list.lines@).map_values(|v: Vert| v.position),
        r.normals@ == line_ends(line_list.lines@).map_values(|v: Vert| v.normal),
        r.colors@ == present(line_ends(line_list.lines@).map_values(|v: Vert| v.color)),
        match r.joint_indices {
            Some(j) => mesh.joint_indices is Some && j@ == present(
                line_ends(line_list.lines@).map_values(|v: Vert| v.joint_indices),
            ),
            None => mesh.joint_indices is None,
        },
        match r.joint_weights {
            Some(w) => mesh.joint_weights is Some && w@ == present(
                line_ends(line_list.lines@).map_values(|v: Vert| v.joint_weights),
            ),
            None => mesh.joint_weights is None,
        },
{
    let ghost lines = line_list.lines@;
    let mut positions: Vec<[u32; 3]> = Vec::new();
    let mut colors: Vec<[u32; 4]> = Vec::new();
    let mut normals: Vec<[u32; 3]> = Vec::new();
    let mut joint_indices: Vec<[u16; 4]> = Vec::new();
    let mut joint_weights: Vec<[u32; 4]> = Vec::new();
    let mut i: usize = 0;
    proof {
        assert(positions@ =~= line_ends(lines.take(0)).map_values(|v: Vert| v.position));
        assert(normals@ =~= line_ends(lines.take(0)).map_values(|v: Vert| v.normal));
        assert(colors@ =~= present(line_ends(lines.take(0)).map_values(|v: Vert| v.color)));
        assert(joint_indices@ =~= present(
            line_ends(lines.take(0)).map_values(|v: Vert| v.joint_indices),
        ));
        assert(joint_weights@ =~= present(
            line_ends(lines.take(0)).map_values(|v: Vert| v.joint_weights),
        ));
    }
    while i < line_list.lines.len()
        invariant
            lines == line_list.lines@,
            i <= lines.len(),
            positions@ == line_ends(lines.take(i as int)).map_values(|v: Vert| v.position),
            normals@ == line_ends(lines.take(i as int)).map_values(|v: Vert| v.normal),
            colors@ == present(line_ends(lines.take(i as int)).map_values(|v: Vert| v.color)),
            joint_indices@ == present(
                line_ends(lines.take(i as int)).map_values(|v: Vert| v.joint_indices),
            ),
            joint_weights@ == present(
                line_ends(lines.take(i as int)).map_values(|v: Vert| v.joint_weights),
            ),
        decreases lines.len() - i,
    {
        let (start, end) = line_list.lines[i];
        let ghost ends0 = line_ends(lines.take(i as int));
        proof {
            assert(lines.take(i + 1).drop_last() =~= lines.take(i as int));
            assert(line_ends(lines.take(i + 1)) == ends0 + seq![start, end]);
            assert(ends0 + seq![start, end] =~= ends0.push(start).push(end));
        }
        positions.push(start.position);
        positions.push(end.position);
        normals.push(start.normal);
        normals.push(end.normal);
        let ghost cs = ends0.map_values(|v: Vert| v.color);
        push_present(&mut colors, start.color, Ghost(cs));
        push_present(&mut colors, end.color, Ghost(cs.push(start.color)));
        let ghost js = ends0.map_values(|v: Vert| v.joint_indices);
        push_present(&mut joint_indices, start.joint_indices, Ghost(js));
        push_present(&mut joint_indices, end.joint_indices, Ghost(js.push(start.joint_indices)));
        let ghost ws = ends0.map_values(|v: Vert| v.joint_weights);
        push_present(&mut joint_weights, start.joint_weights, Ghost(ws));
        push_present(&mut joint_weights, end.joint_weights, Ghost(ws.push(start.joint_weights)));
        proof {
            let e2 = ends0.push(start).push(end);
            assert(e2.map_values(|v: Vert| v.position) =~= ends0.map_values(|v: Vert| v.position).push(
                start.position,
            ).push(end.position));
            assert(e2.map_values(|v: Vert| v.normal) =~= ends0.map_values(|v: Vert| v.normal).push(
                start.normal,
            ).push(end.normal));
            assert(e2.map_values(|v: Vert| v.color) =~= cs.push(start.color).push(end.color));
            assert(e2.map_values(|v: Vert| v.joint_indices) =~= js.push(start.joint_indices).push(
                end.joint_indices,
            ));
            assert(e2.map_values(|v: Vert| v.joint_weights) =~= ws.push(start.joint_weights).push(
                end.joint_weights,
            ));
        }
        i = i + 1;
    }
    assert(lines.take(i as int) =~= lines);
    let joint_indices = if mesh.joint_indices.is_some() {
        Some(joint_indices)
    } else {
        None
    };
    let joint_weights = if mesh.joint_weights.is_some() {
        Some(joint_weights)
    } else {
        None
    };
    LineMeshData { positions, colors, normals, joint_indices, joint_weights }
}

/// A line mesh has two vertices per line: vertex `2 i` is the start of line `i` and
/// vertex `2 i + 1` its end.
pub proof fn law_two_vertices_per_line(lines: Seq<(Vert, Vert)>)
    ensures
        line_ends(lines).len() == 2 * lines.len(),
        forall|i: int|
            0 <= i < lines.len() ==> line_ends(lines)[2 * i] == (#[trigger] lines[i]).0
                && line_ends(lines)[2 * i + 1] == lines[i].1,
    decreases lines.len(),
{
    if lines.len() > 0 {
        let p = lines.drop_last();
        law_two_vertices_per_line(p);
        assert forall|i: int| 0 <= i < lines.len() implies line_ends(lines)[2 * i] == (
        #[trigger] lines[i]).0 && line_ends(lines)[2 * i + 1] == lines[i].1 by {
            if i < p.len() {
                assert(lines[i] == p[i]);
            }
        }
    }
}

} // verus!

verus! {

/// The first edge of a non-empty edge sequence always yields a line, so edges give lines
/// exactly when there are edges.
proof fn lemma_first_edges_nonempty(es: Seq<(usize, usize)>)
    ensures
        first_edges(es).len() > 0 <==> es.len() > 0,
    decreases es.len(),
{
    if es.len() > 1 {
        lemma_first_edges_nonempty(es.drop_last());
    } else if es.len() == 1 {
        assert(es.drop_last().len() == 0);
        assert(seen_edge_keys(es.drop_last()) =~= Set::empty());
    }
}

/// A mesh's wireframe has a line exactly when the mesh has a triangle; so the line list
/// of a mesh with positions and normals is refused as empty exactly when it has no triangle.
pub proof fn law_lines_exactly_when_triangles(mesh: MeshData)
    ensures
        mesh_lines(mesh).len() > 0 <==> triangle_corners(mesh).len() >= 3,
{
    let c = triangle_corners(mesh);
    lemma_triangle_edges_len(c, c.len() / 3);
    lemma_first_edges_nonempty(mesh_edges(mesh));
}

} // verus!

verus! {

/// A sequence of values that are all present loses none of them.
proof fn lemma_present_all<T>(s: Seq<Option<T>>)
    requires
        forall|i: int| 0 <= i < s.len() ==> (#[trigger] s[i]) is Some,
    ensures
        present(s).len() == s.len(),
    decreases s.len(),
{
    if s.len() > 0 {
        lemma_present_all(s.drop_last());
    }
}

/// When the mesh carries colors, the line mesh of its wireframe has a color for every
/// vertex, as many colors as positions.
pub proof fn law_colored_mesh_gives_colored_line_mesh(mesh: MeshData, es: Seq<(usize, usize)>)
    requires
        mesh.colors is Some,
    ensures
        present(line_ends(lines_of(mesh, es)).map_values(|v: Vert| v.color)).len() == line_ends(
            lines_of(mesh, es),
        ).len(),
{
    let lines = lines_of(mesh, es);
    law_two_vertices_per_line(lines);
    let cs = line_ends(lines).map_values(|v: Vert| v.color);
    assert forall|i: int| 0 <= i < cs.len() implies (#[trigger] cs[i]) is Some by {
        let l = i / 2;
        assert(0 <= l < lines.len());
        assert(line_ends(lines)[i] == lines[l].0 || line_ends(lines)[i] == lines[l].1) by {
            if i % 2 == 0 {
                assert(i == 2 * l);
            } else {
                assert(i == 2 * l + 1);
            }
        }
    }
    lemma_present_all(cs);
}

} // verus!

verus! {

/// A sequence of values that are all absent gives none.
proof fn lemma_present_none<T>(s: Seq<Option<T>>)
    requires
        forall|i: int| 0 <= i < s.len() ==> (#[trigger] s[i]) is None,
    ensures
        present(s).len() == 0,
    decreases s.len(),
{
    if s.len() > 0 {
        lemma_present_none(s.drop_last());
    }
}

/// Every end of a line is a vertex of the mesh, so it carries an optional attribute exactly
/// when the mesh carries that attribute.
proof fn lemma_line_ends_carry_mesh_attributes(mesh: MeshData, es: Seq<(usize, usize)>)
    ensures
        forall|i: int|
            0 <= i < line_ends(lines_of(mesh, es)).len() ==> {
                let v = #[trigger] line_ends(lines_of(mesh, es))[i];
                &&& (v.color is Some <==> mesh.colors is Some)
                &&& (v.joint_indices is Some <==> mesh.joint_indices is Some)
                &&& (v.joint_weights is Some <==> mesh.joint_weights is Some)
            },
{
    let lines = lines_of(mesh, es);
    law_two_vertices_per_line(lines);
    assert forall|i: int| 0 <= i < line_ends(lines).len() implies {
        let v = #[trigger] line_ends(lines)[i];
        &&& (v.color is Some <==> mesh.colors is Some)
        &&& (v.joint_indices is Some <==> mesh.joint_indices is Some)
        &&& (v.joint_weights is Some <==> mesh.joint_weights is Some)
    } by {
        let l = i / 2;
        assert(0 <= l < lines.len());
        let e = first_edges(es)[l];
        assert(lines[l] == line_of(mesh, e));
        if i % 2 == 0 {
            assert(i == 2 * l);
            assert(line_ends(lines)[i] == vert_at(mesh, e.0 as int));
        } else {
            assert(i == 2 * l + 1);
            assert(line_ends(lines)[i] == vert_at(mesh, e.1 as int));
        }
    }
}

/// The line mesh of a wireframe draws exactly the triangle edges of the mesh: it has two
/// vertices per line, each line runs between the two vertices of a triangle edge, every
/// triangle edge is drawn by a line between its two vertices (in one orientation or the
/// other), and each optional attribute (colors, joint indices, joint weights) is given for
/// every vertex of the line mesh when the mesh carries it and for none when it does not.
#[verifier::spinoff_prover]
#[verifier::rlimit(40)]
pub proof fn law_line_mesh_draws_the_triangle_edges(mesh: MeshData)
    ensures
        line_ends(mesh_lines(mesh)).len() == 2 * mesh_lines(mesh).len(),
        forall|k: int|
            0 <= k < mesh_lines(mesh).len() ==> line_ends(mesh_lines(mesh))[2 * k] == (
            #[trigger] mesh_lines(mesh)[k]).0 && line_ends(mesh_lines(mesh))[2 * k + 1]
                == mesh_lines(mesh)[k].1,
        forall|k: int|
            0 <= k < mesh_lines(mesh).len() ==> exists|j: int|
                0 <= j < mesh_edges(mesh).len() && #[trigger] mesh_lines(mesh)[k] == line_of(
                    mesh,
                    #[trigger] mesh_edges(mesh)[j],
                ),
        forall|j: int|
            0 <= j < mesh_edges(mesh).len() ==> exists|k: int|
                0 <= k < mesh_lines(mesh).len() && (#[trigger] mesh_lines(mesh)[k] == line_of(
                    mesh,
                    #[trigger] mesh_edges(mesh)[j],
                ) || mesh_lines(mesh)[k] == line_of(
                    mesh,
                    (mesh_edges(mesh)[j].1, mesh_edges(mesh)[j].0),
                )),
        present(line_ends(mesh_lines(mesh)).map_values(|v: Vert| v.color)).len() == (
        if mesh.colors is Some {
            line_ends(mesh_lines(mesh)).len()
        } else {
            0
        }),
        present(line_ends(mesh_lines(mesh)).map_values(|v: Vert| v.joint_indices)).len() == (
        if mesh.joint_indices is Some {
            line_ends(mesh_lines(mesh)).len()
        } else {
            0
        }),
        present(line_ends(mesh_lines(mesh)).map_values(|v: Vert| v.joint_weights)).len() == (
        if mesh.joint_weights is Some {
            line_ends(mesh_lines(mesh)).len()
        } else {
            0
        }),
{
    let es = mesh_edges(mesh);
    let f = first_edges(es);
    let lines = mesh_lines(mesh);
    let ends = line_ends(lines);
    law_two_vertices_per_line(lines);
    lemma_first_edges_basics(es);
    law_every_edge_is_drawn(es);
    lemma_line_ends_carry_mesh_attributes(mesh, es);
    assert forall|k: int| 0 <= k < lines.len() implies exists|j: int|
        0 <= j < es.len() && #[trigger] lines[k] == line_of(mesh, #[trigger] es[j]) by {
        assert(lines[k] == line_of(mesh, f[k]));
        assert(es.contains(f[k]));
        let j = choose|j: int| 0 <= j < es.len() && es[j] == f[k];
        assert(lines[k] == line_of(mesh, es[j]));
    }
    assert forall|j: int| 0 <= j < es.len() implies exists|k: int|
        0 <= k < lines.len() && (#[trigger] lines[k] == line_of(mesh, #[trigger] es[j]) || lines[k]
            == line_of(mesh, (es[j].1, es[j].0))) by {
        let k = choose|k: int| 0 <= k < f.len() && edge_key(#[trigger] f[k]) == edge_key(es[j]);
        assert(lines[k] == line_of(mesh, f[k]));
        assert(f[k] == es[j] || f[k] == (es[j].1, es[j].0));
    }
    let cs = ends.map_values(|v: Vert| v.color);
    let js = ends.map_values(|v: Vert| v.joint_indices);
    let ws = ends.map_values(|v: Vert| v.joint_weights);
    assert forall|i: int| 0 <= i < cs.len() implies (#[trigger] cs[i]) == ends[i].color by {}
    assert forall|i: int| 0 <= i < js.len() implies (#[trigger] js[i]) == ends[i].joint_indices by {}
    assert forall|i: int| 0 <= i < ws.len() implies (#[trigger] ws[i]) == ends[i].joint_weights by {}
    if mesh.colors is Some {
        lemma_present_all(cs);
    } else {
        lemma_present_none(cs);
    }
    if mesh.joint_indices is Some {
        lemma_present_all(js);
    } else {
        lemma_present_none(js);
    }
    if mesh.joint_weights is Some {
        lemma_present_all(ws);
    } else {
        lemma_present_none(ws);
    }
}

} // verus!

verus! {

/// The optional values that are present, kept in order: exactly the values of the `Some`
/// entries of the sequence, none moved, none lost.
pub proof fn law_present_keeps_values_in_order<T>(s: Seq<Option<T>>)
    ensures
        present(s) == s.filter_map(|o: Option<T>| o),
    decreases s.len(),
{
    if s.len() > 0 {
        law_present_keeps_values_in_order(s.drop_last());
        match s.last() {
            Some(x) => {
                assert(s.drop_last().filter_map(|o: Option<T>| o) + seq![x] =~= s.drop_last().filter_map(
                    |o: Option<T>| o,
                ).push(x));
            },
            None => {},
        }
    }
}

/// When every value is present, the present values are the values, position by position.
proof fn lemma_present_all_in_place<T>(s: Seq<Option<T>>)
    requires
        forall|i: int| 0 <= i < s.len() ==> (#[trigger] s[i]) is Some,
    ensures
        present(s).len() == s.len(),
        forall|i: int| 0 <= i < s.len() ==> present(s)[i] == (#[trigger] s[i])->0,
    decreases s.len(),
{
    if s.len() > 0 {
        let p = s.drop_last();
        assert forall|i: int| 0 <= i < p.len() implies (#[trigger] p[i]) is Some by {
            assert(p[i] == s[i]);
        }
        lemma_present_all_in_place(p);
        assert forall|i: int| 0 <= i < s.len() implies present(s)[i] == (#[trigger] s[i])->0 by {
            if i < p.len() {
                assert(p[i] == s[i]);
            }
        }
    }
}

/// When every end of the lines carries a color (joint indices, joint weights), the line
/// mesh gives vertex `k` the color (joint indices, joint weights) of end `k`: the attribute
/// values stay aligned with the positions.
pub proof fn law_line_mesh_attributes_follow_their_vertices(lines: Seq<(Vert, Vert)>)
    ensures
        (forall|k: int| 0 <= k < line_ends(lines).len() ==> (#[trigger] line_ends(lines)[k]).color is Some)
            ==> forall|k: int|
            0 <= k < line_ends(lines).len() ==> present(line_ends(lines).map_values(|v: Vert| v.color))[k]
                == (#[trigger] line_ends(lines)[k]).color->0,
        (forall|k: int|
            0 <= k < line_ends(lines).len() ==> (#[trigger] line_ends(lines)[k]).joint_indices is Some)
            ==> forall|k: int|
            0 <= k < line_ends(lines).len() ==> present(
                line_ends(lines).map_values(|v: Vert| v.joint_indices),
            )[k] == (#[trigger] line_ends(lines)[k]).joint_indices->0,
        (forall|k: int|
            0 <= k < line_ends(lines).len() ==> (#[trigger] line_ends(lines)[k]).joint_weights is Some)
            ==> forall|k: int|
            0 <= k < line_ends(lines).len() ==> present(
                line_ends(lines).map_values(|v: Vert| v.joint_weights),
            )[k] == (#[trigger] line_ends(lines)[k]).joint_weights->0,
{
    let ends = line_ends(lines);
    let cs = ends.map_values(|v: Vert| v.color);
    let js = ends.map_values(|v: Vert| v.joint_indices);
    let ws = ends.map_values(|v: Vert| v.joint_weights);
    if forall|k: int| 0 <= k < ends.len() ==> (#[trigger] ends[k]).color is Some {
        assert forall|i: int| 0 <= i < cs.len() implies (#[trigger] cs[i]) is Some by {
            assert(cs[i] == ends[i].color);
        }
        lemma_present_all_in_place(cs);
        assert forall|k: int| 0 <= k < ends.len() implies present(cs)[k] == (#[trigger] ends[k]).color->0 by {
            assert(cs[k] == ends[k].color);
        }
    }
    if forall|k: int| 0 <= k < ends.len() ==> (#[trigger] ends[k]).joint_indices is Some {
        assert forall|i: int| 0 <= i < js.len() implies (#[trigger] js[i]) is Some by {
            assert(js[i] == ends[i].joint_indices);
        }
        lemma_present_all_in_place(js);
        assert forall|k: int| 0 <= k < ends.len() implies present(js)[k] == (#[trigger] ends[k]).joint_indices->0 by {
            assert(js[k] == ends[k].joint_indices);
        }
    }
    if forall|k: int| 0 <= k < ends.len() ==> (#[trigger] ends[k]).joint_weights is Some {
        assert forall|i: int| 0 <= i < ws.len() implies (#[trigger] ws[i]) is Some by {
            assert(ws[i] == ends[i].joint_weights);
        }
        lemma_present_all_in_place(ws);
        assert forall|k: int| 0 <= k < ends.len() implies present(ws)[k] == (#[trigger] ends[k]).joint_weights->0 by {
            assert(ws[k] == ends[k].joint_weights);
        }
    }
}

} // verus!

verus! {

/// Edge `k` of the first `t` triangles of a corner sequence runs from corner `k` to the next
/// corner of the same triangle.
proof fn lemma_triangle_edge_at(c: Seq<usize>, t: nat, k: int)
    requires
        0 <= k < 3 * t,
    ensures
        triangle_edges(c, t).len() == 3 * t,
        triangle_edges(c, t)[k] == (c[k], c[if k % 3 == 2 { k - 2 } else { k + 1 }]),
    decreases t,
{
    lemma_triangle_edges_len(c, t);
    let b = 3 * (t - 1);
    lemma_triangle_edges_len(c, (t - 1) as nat);
    if k < b {
        lemma_triangle_edge_at(c, (t - 1) as nat, k);
        assert(triangle_edges(c, t)[k] == triangle_edges(c, (t - 1) as nat)[k]);
    } else {
        let i = k - b;
        assert(0 <= i < 3);
        assert(k % 3 == i) by {
            assert(k == 3 * (t - 1) + i);
        }
        assert(triangle_edges(c, t)[k] == seq![(c[b], c[b + 1]), (c[b + 1], c[b + 2]), (c[b + 2], c[b])][i]);
    }
}

/// The triangle edges of a mesh: triangle `t` is made of corners `3t`, `3t + 1`, `3t + 2`
/// of the index buffer, or, without one, of vertices `3t`, `3t + 1`, `3t + 2`, for as many
/// whole triangles as there are; edge `k` runs from corner `k` to the next corner of its
/// triangle (`3t → 3t+1 → 3t+2 → 3t`).
#[verifier::spinoff_prover]
#[verifier::rlimit(40)]
pub proof fn law_mesh_edges_are_triangle_sides(mesh: MeshData)
    ensures
        mesh.indices is None && mesh.positions is Some ==> {
            &&& mesh_edges(mesh).len() == 3 * (mesh.positions.unwrap()@.len() / 3)
            &&& forall|k: int|
                0 <= k < mesh_edges(mesh).len() ==> #[trigger] mesh_edges(mesh)[k] == (
                    k as usize,
                    (if k % 3 == 2 { k - 2 } else { k + 1 }) as usize,
                )
        },
        mesh.indices matches Some(MeshIndices::U16(v)) ==> {
            &&& mesh_edges(mesh).len() == 3 * (v@.len() / 3)
            &&& forall|k: int|
                0 <= k < mesh_edges(mesh).len() ==> #[trigger] mesh_edges(mesh)[k] == (
                    v@[k] as usize,
                    v@[if k % 3 == 2 { k - 2 } else { k + 1 }] as usize,
                )
        },
        mesh.indices matches Some(MeshIndices::U32(v)) ==> {
            &&& mesh_edges(mesh).len() == 3 * (v@.len() / 3)
            &&& forall|k: int|
                0 <= k < mesh_edges(mesh).len() ==> #[trigger] mesh_edges(mesh)[k] == (
                    v@[k] as usize,
                    v@[if k % 3 == 2 { k - 2 } else { k + 1 }] as usize,
                )
        },
{
    let c = triangle_corners(mesh);
    let t = c.len() / 3;
    lemma_triangle_edges_len(c, t);
    assert forall|k: int| 0 <= k < mesh_edges(mesh).len() implies #[trigger] mesh_edges(mesh)[k] == (
        c[k],
        c[if k % 3 == 2 { k - 2 } else { k + 1 }],
    ) by {
        lemma_triangle_edge_at(c, t, k);
    }
    match mesh.indices {
        Some(MeshIndices::U16(v)) => {
            assert(c.len() == v@.len());
        },
        Some(MeshIndices::U32(v)) => {
            assert(c.len() == v@.len());
        },
        None => {
            if mesh.positions is Some {
                assert(c.len() == 3 * (mesh.positions.unwrap()@.len() / 3));
                assert((3 * (mesh.positions.unwrap()@.len() / 3)) / 3 == mesh.positions.unwrap()@.len() / 3);
            }
        },
    }
}

} // verus!

verus! {

/// The lines of an edge sequence draw each of its edges (in one orientation or the other),
/// and each line draws one of them.
#[verifier::spinoff_prover]
#[verifier::rlimit(40)]
proof fn lemma_lines_of_cover(mesh: MeshData, es: Seq<(usize, usize)>)
    ensures
        forall|j: int|
            0 <= j < es.len() ==> exists|k: int|
                0 <= k < lines_of(mesh, es).len() && (#[trigger] lines_of(mesh, es)[k] == line_of(
                    mesh,
                    #[trigger] es[j],
                ) || lines_of(mesh, es)[k] == line_of(mesh, (es[j].1, es[j].0))),
        forall|k: int|
            0 <= k < lines_of(mesh, es).len() ==> exists|j: int|
                0 <= j < es.len() && #[trigger] lines_of(mesh, es)[k] == line_of(mesh, #[trigger] es[j]),
{
    let f = first_edges(es);
    let lines = lines_of(mesh, es);
    lemma_first_edges_basics(es);
    law_every_edge_is_drawn(es);
    assert forall|k: int| 0 <= k < lines.len() implies exists|j: int|
        0 <= j < es.len() && #[trigger] lines[k] == line_of(mesh, #[trigger] es[j]) by {
        assert(lines[k] == line_of(mesh, f[k]));
        assert(es.contains(f[k]));
        let j = choose|j: int| 0 <= j < es.len() && es[j] == f[k];
        assert(lines[k] == line_of(mesh, es[j]));
    }
    assert forall|j: int| 0 <= j < es.len() implies exists|k: int|
        0 <= k < lines.len() && (#[trigger] lines[k] == line_of(mesh, #[trigger] es[j]) || lines[k]
            == line_of(mesh, (es[j].1, es[j].0))) by {
        let k = choose|k: int| 0 <= k < f.len() && edge_key(#[trigger] f[k]) == edge_key(es[j]);
        assert(lines[k] == line_of(mesh, f[k]));
        assert(f[k] == es[j] || f[k] == (es[j].1, es[j].0));
    }
}

/// The exporter's vertex indices name vertices: an index is known exactly when some vertex
/// carries it, and it names the last vertex that carries it (for meshes whose vertex
/// positions fit in `u32`).
#[verifier::spinoff_prover]
#[verifier::rlimit(40)]
pub proof fn law_vertex_key_map_names_last_vertex(keys: Seq<u32>)
    requires
        keys.len() <= 0x1_0000_0000,
    ensures
        forall|x: u32|
            #[trigger] vertex_key_map(keys).contains_key(x) <==> exists|j: int| 0 <= j < keys.len() && keys[j] == x,
        forall|x: u32|
            #[trigger] vertex_key_map(keys).contains_key(x) ==> {
                let v = vertex_key_map(keys)[x] as int;
                &&& 0 <= v < keys.len()
                &&& keys[v] == x
                &&& forall|j: int| v < j < keys.len() ==> keys[j] != x
            },
    decreases keys.len(),
{
    if keys.len() > 0 {
        let p = keys.drop_last();
        law_vertex_key_map_names_last_vertex(p);
        let n = keys.len() - 1;
        let mp = vertex_key_map(p);
        assert(keys[n] == keys.last());
        assert(((keys.len() - 1) as u32) as int == n);
        assert(vertex_key_map(keys) == mp.insert(keys.last(), (keys.len() - 1) as u32));
        assert forall|x: u32|
            #[trigger] vertex_key_map(keys).contains_key(x) <==> exists|j: int| 0 <= j < keys.len() && keys[j] == x by {
            if exists|j: int| 0 <= j < keys.len() && keys[j] == x {
                let j = choose|j: int| 0 <= j < keys.len() && keys[j] == x;
                if j < n {
                    assert(p[j] == keys[j]);
                    assert(mp.contains_key(x));
                }
            }
            if vertex_key_map(keys).contains_key(x) {
                if x != keys.last() {
                    assert(mp.contains_key(x));
                    let j = choose|j: int| 0 <= j < p.len() && p[j] == x;
                    assert(keys[j] == p[j]);
                } else {
                    assert(keys[n] == x);
                }
            }
        }
        assert forall|x: u32| #[trigger] vertex_key_map(keys).contains_key(x) implies {
            let v = vertex_key_map(keys)[x] as int;
            &&& 0 <= v < keys.len()
            &&& keys[v] == x
            &&& forall|j: int| v < j < keys.len() ==> keys[j] != x
        } by {
            if x != keys.last() {
                assert(mp.contains_key(x));
                let v = mp[x] as int;
                assert(vertex_key_map(keys)[x] == mp[x]);
                assert(keys[v] == p[v]);
                assert forall|j: int| v < j < keys.len() implies keys[j] != x by {
                    if j < n {
                        assert(keys[j] == p[j]);
                    }
                }
            }
        }
    }
}

/// The selected edges name, for each selected pair whose two indices are known, the edge
/// between the vertices that the indices name, and nothing else.
#[verifier::spinoff_prover]
#[verifier::rlimit(40)]
proof fn lemma_selected_edges_cover(keys: Seq<u32>, pairs: Seq<(u32, u32)>)
    ensures
        forall|i: int|
            0 <= i < pairs.len() && vertex_key_map(keys).contains_key((#[trigger] pairs[i]).0)
                && vertex_key_map(keys).contains_key(pairs[i].1) ==> exists|j: int|
                0 <= j < selected_edges(keys, pairs).len() && #[trigger] selected_edges(keys, pairs)[j] == (
                    vertex_key_map(keys)[pairs[i].0] as usize,
                    vertex_key_map(keys)[pairs[i].1] as usize,
                ),
        forall|j: int|
            0 <= j < selected_edges(keys, pairs).len() ==> exists|i: int|
                0 <= i < pairs.len() && vertex_key_map(keys).contains_key((#[trigger] pairs[i]).0)
                    && vertex_key_map(keys).contains_key(pairs[i].1) && #[trigger] selected_edges(
                    keys,
                    pairs,
                )[j] == (vertex_key_map(keys)[pairs[i].0] as usize, vertex_key_map(keys)[pairs[i].1] as usize),
    decreases pairs.len(),
{
    if pairs.len() > 0 {
        let pp = pairs.drop_last();
        lemma_selected_edges_cover(keys, pp);
        let m = vertex_key_map(keys);
        let prev = selected_edges(keys, pp);
        let es = selected_edges(keys, pairs);
        let n = pairs.len() - 1;
        let last = pairs.last();
        assert(pairs[n] == last);
        let known = m.contains_key(last.0) && m.contains_key(last.1);
        assert forall|i: int|
            0 <= i < pairs.len() && m.contains_key((#[trigger] pairs[i]).0) && m.contains_key(pairs[i].1)
                implies exists|j: int| 0 <= j < es.len() && #[trigger] es[j] == (m[pairs[i].0] as usize, m[pairs[i].1] as usize) by {
            if i < n {
                assert(pp[i] == pairs[i]);
                let j = choose|j: int| 0 <= j < prev.len() && #[trigger] prev[j] == (m[pp[i].0] as usize, m[pp[i].1] as usize);
                assert(es[j] == prev[j]);
            } else {
                assert(es[prev.len() as int] == (m[last.0] as usize, m[last.1] as usize));
            }
        }
        assert forall|j: int| 0 <= j < es.len() implies exists|i: int|
            0 <= i < pairs.len() && m.contains_key((#[trigger] pairs[i]).0) && m.contains_key(pairs[i].1)
                && #[trigger] es[j] == (m[pairs[i].0] as usize, m[pairs[i].1] as usize) by {
            if j < prev.len() {
                assert(es[j] == prev[j]);
                let i = choose|i: int| 0 <= i < pp.len() && m.contains_key((#[trigger] pp[i]).0)
                    && m.contains_key(pp[i].1) && prev[j] == (m[pp[i].0] as usize, m[pp[i].1] as usize);
                assert(pairs[i] == pp[i]);
            } else {
                assert(known);
                assert(es[j] == (m[last.0] as usize, m[last.1] as usize));
            }
        }
    }
}

/// The wireframe from selected edges draws every selected pair whose two exporter indices
/// both occur in the mesh, whichever index comes first, as a line between the vertices that
/// the indices name (in one orientation or the other); and every line is such a pair.
#[verifier::spinoff_prover]
#[verifier::rlimit(40)]
pub proof fn law_selected_lines_draw_every_known_pair(mesh: MeshData, data: JsonLineList)
    ensures
        forall|i: int|
            0 <= i < data.line_list@.len() && vertex_key_map(vertex_keys(mesh)).contains_key(
                (#[trigger] data.line_list@[i])@[0],
            ) && vertex_key_map(vertex_keys(mesh)).contains_key(data.line_list@[i]@[1]) ==> exists|k: int|
                0 <= k < selected_lines(mesh, data).len() && (#[trigger] selected_lines(mesh, data)[k]
                    == line_of(
                    mesh,
                    (
                        vertex_key_map(vertex_keys(mesh))[data.line_list@[i]@[0]] as usize,
                        vertex_key_map(vertex_keys(mesh))[data.line_list@[i]@[1]] as usize,
                    ),
                ) || selected_lines(mesh, data)[k] == line_of(
                    mesh,
                    (
                        vertex_key_map(vertex_keys(mesh))[data.line_list@[i]@[1]] as usize,
                        vertex_key_map(vertex_keys(mesh))[data.line_list@[i]@[0]] as usize,
                    ),
                )),
        forall|k: int|
            0 <= k < selected_lines(mesh, data).len() ==> exists|i: int|
                0 <= i < data.line_list@.len() && vertex_key_map(vertex_keys(mesh)).contains_key(
                    (#[trigger] data.line_list@[i])@[0],
                ) && vertex_key_map(vertex_keys(mesh)).contains_key(data.line_list@[i]@[1])
                    && #[trigger] selected_lines(mesh, data)[k] == line_of(
                    mesh,
                    (
                        vertex_key_map(vertex_keys(mesh))[data.line_list@[i]@[0]] as usize,
                        vertex_key_map(vertex_keys(mesh))[data.line_list@[i]@[1]] as usize,
                    ),
                ),
{
    let keys = vertex_keys(mesh);
    let m = vertex_key_map(keys);
    let pairs = pairs_view(data.line_list@);
    let es = selected_edges(keys, pairs);
    let sl = selected_lines(mesh, data);
    lemma_selected_edges_cover(keys, pairs);
    lemma_lines_of_cover(mesh, es);
    assert(sl == lines_of(mesh, es));
    assert forall|i: int|
        0 <= i < data.line_list@.len() && m.contains_key((#[trigger] data.line_list@[i])@[0]) && m.contains_key(
            data.line_list@[i]@[1],
        ) implies exists|k: int|
        0 <= k < sl.len() && (#[trigger] sl[k] == line_of(
            mesh,
            (m[data.line_list@[i]@[0]] as usize, m[data.line_list@[i]@[1]] as usize),
        ) || sl[k] == line_of(mesh, (m[data.line_list@[i]@[1]] as usize, m[data.line_list@[i]@[0]] as usize))) by {
        assert(pairs[i] == (data.line_list@[i]@[0], data.line_list@[i]@[1]));
        let j = choose|j: int| 0 <= j < es.len() && #[trigger] es[j] == (m[pairs[i].0] as usize, m[pairs[i].1] as usize);
        let k = choose|k: int| 0 <= k < sl.len() && (#[trigger] sl[k] == line_of(mesh, es[j]) || sl[k] == line_of(mesh, (es[j].1, es[j].0)));
    }
    assert forall|k: int| 0 <= k < sl.len() implies exists|i: int|
        0 <= i < data.line_list@.len() && m.contains_key((#[trigger] data.line_list@[i])@[0]) && m.contains_key(
            data.line_list@[i]@[1],
        ) && #[trigger] sl[k] == line_of(
            mesh,
            (m[data.line_list@[i]@[0]] as usize, m[data.line_list@[i]@[1]] as usize),
        ) by {
        let j = choose|j: int| 0 <= j < es.len() && #[trigger] sl[k] == line_of(mesh, #[trigger] es[j]);
        let i = choose|i: int| 0 <= i < pairs.len() && m.contains_key((#[trigger] pairs[i]).0)
            && m.contains_key(pairs[i].1) && es[j] == (m[pairs[i].0] as usize, m[pairs[i].1] as usize);
        assert(pairs[i] == (data.line_list@[i]@[0], data.line_list@[i]@[1]));
    }
}

} // verus!
