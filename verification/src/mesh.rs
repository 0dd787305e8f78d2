use vstd::prelude::*;

verus! {

/// The triangle index buffer of a mesh, in either width that a mesh can carry.
pub enum MeshIndices {
    U16(Vec<u16>),
    U32(Vec<u32>),
}

/// The vertex data that the wireframe logic reads from a mesh.
///
/// Each `f32` component is held as its IEEE-754 bit pattern (`f32::to_bits`):
/// the logic copies attribute values from vertex to line and never computes
/// with them. An attribute is `Some` when the mesh carries it in the format
/// the logic expects (`Float32x3` for positions and normals, `Float32x4` for
/// colors and joint weights, `Uint16x4` for joint indices, `Float32` for the
/// exporter's vertex index, whose values are converted with `as u32`).
pub struct MeshData {
    pub positions: Option<Vec<[u32; 3]>>,
    pub normals: Option<Vec<[u32; 3]>>,
    pub smoothed_normals: Option<Vec<[u32; 3]>>,
    pub colors: Option<Vec<[u32; 4]>>,
    pub joint_indices: Option<Vec<[u16; 4]>>,
    pub joint_weights: Option<Vec<[u32; 4]>>,
    pub vert_index: Option<Vec<u32>>,
    pub indices: Option<MeshIndices>,
}

/// One end of a line: the attributes of one mesh vertex (float components as bit patterns).
#[derive(Clone, Copy, Debug, PartialEq, Eq)]
pub struct Vert {
    pub position: [u32; 3],
    pub normal: [u32; 3],
    pub color: Option<[u32; 4]>,
    pub joint_indices: Option<[u16; 4]>,
    pub joint_weights: Option<[u32; 4]>,
}

/// The lines of a wireframe, each from its start vertex to its end vertex.
pub struct LineList {
    pub lines: Vec<(Vert, Vert)>,
}

impl LineList {
    /// An empty line list.
    pub fn new() -> (r: LineList)
        ensures
            r.lines@.len() == 0,
    {
        LineList { lines: Vec::new() }
    }
}

} // verus!

verus! {

/// Whether index `i` lies inside the attribute array `a`, when the mesh carries it.
pub open spec fn attribute_covers<T>(a: Option<Vec<T>>, i: int) -> bool {
    match a {
        Some(v) => 0 <= i < v.len(),
        None => true,
    }
}

/// The value of the attribute array `a` at index `i`, when the mesh carries it.
pub open spec fn attribute_at<T>(a: Option<Vec<T>>, i: int) -> Option<T> {
    match a {
        Some(v) => Some(v@[i]),
        None => None,
    }
}

/// Whether every attribute array that the mesh carries has an entry for vertex `i`.
pub open spec fn vertex_in_range(mesh: MeshData, i: int) -> bool {
    &&& attribute_covers(mesh.positions, i)
    &&& attribute_covers(mesh.normals, i)
    &&& attribute_covers(mesh.colors, i)
    &&& attribute_covers(mesh.joint_indices, i)
    &&& attribute_covers(mesh.joint_weights, i)
}

/// The attributes of vertex `i` of a mesh that carries positions and normals.
pub open spec fn vert_at(mesh: MeshData, i: int) -> Vert {
    Vert {
        position: mesh.positions.unwrap()@[i],
        normal: mesh.normals.unwrap()@[i],
        color: attribute_at(mesh.colors, i),
        joint_indices: attribute_at(mesh.joint_indices, i),
        joint_weights: attribute_at(mesh.joint_weights, i),
    }
}

/// Whether the mesh carries both positions and normals, the data a line list needs.
pub open spec fn has_line_data(mesh: MeshData) -> bool {
    mesh.positions is Some && mesh.normals is Some
}

/// Reads the attributes of vertex `i`.
pub(crate) fn vert_of(mesh: &MeshData, i: usize) -> (v: Vert)
    requires
        has_line_data(*mesh),
        vertex_in_range(*mesh, i as int),
    ensures
        v == vert_at(*mesh, i as int),
{
    let position = match &mesh.positions {
        Some(p) => p[i],
        None => [0u32; 3],
    };
    let normal = match &mesh.normals {
        Some(n) => n[i],
        None => [0u32; 3],
    };
    let color = match &mesh.colors {
        Some(c) => Some(c[i]),
        None => None,
    };
    let joint_indices = match &mesh.joint_indices {
        Some(j) => Some(j[i]),
        None => None,
    };
    let joint_weights = match &mesh.joint_weights {
        Some(w) => Some(w[i]),
        None => None,
    };
    Vert { position, normal, color, joint_indices, joint_weights }
}

} // verus!

verus! {

/// The values of one vertex attribute, as far as the color logic tells formats apart
/// (float components as bit patterns).
pub enum AttributeValues {
    Float32x3(Vec<[u32; 3]>),
    Float32x4(Vec<[u32; 4]>),
    Other,
}

/// The bit pattern of the `f32` value `1.0`.
pub const F32_ONE_BITS: u32 = 0x3f80_0000u32;

/// Reading an attribute as four-component values.
pub trait AsFloat4 {
    fn as_float4(&self) -> Option<Vec<[u32; 4]>>;
}

impl AsFloat4 for AttributeValues {
    /// Three-component values gain a fourth component `1.0`; four-component values are
    /// copied; other formats give `None`.
    fn as_float4(&self) -> (r: Option<Vec<[u32; 4]>>)
        ensures
            match self {
                AttributeValues::Float32x3(v) => r matches Some(o) && o@.len() == v@.len() && forall|i: int|
                    0 <= i < v@.len() ==> (#[trigger] o@[i])@ == seq![v@[i]@[0], v@[i]@[1], v@[i]@[2], F32_ONE_BITS],
                AttributeValues::Float32x4(v) => r matches Some(o) && o@ == v@,
                AttributeValues::Other => r is None,
            },
    {
        match self {
            AttributeValues::Float32x3(values) => {
                let mut out: Vec<[u32; 4]> = Vec::new();
                let mut i: usize = 0;
                while i < values.len()
                    invariant
                        i <= values.len(),
                        out@.len() == i,
                        forall|k: int|
                            0 <= k < i ==> (#[trigger] out@[k])@ == seq![values@[k]@[0], values@[k]@[1], values@[k]@[2], F32_ONE_BITS],
                    decreases values.len() - i,
                {
                    let p = values[i];
                    let q = [p[0], p[1], p[2], F32_ONE_BITS];
                    assert(q@ =~= seq![p@[0], p@[1], p@[2], F32_ONE_BITS]);
                    out.push(q);
                    i = i + 1;
                }
                Some(out)
            },
            AttributeValues::Float32x4(values) => {
                let mut out: Vec<[u32; 4]> = Vec::new();
                let mut i: usize = 0;
                while i < values.len()
                    invariant
                        i <= values.len(),
                        out@ == values@.take(i as int),
                    decreases values.len() - i,
                {
                    out.push(values[i]);
                    assert(out@ =~= values@.take(i + 1));
                    i = i + 1;
                }
                assert(values@.take(i as int) =~= values@);
                Some(out)
            },
            AttributeValues::Other => None,
        }
    }
}

} // verus!
