//! Wireframe line lists for glTF meshes: which edges of a mesh become lines,
//! which vertex attributes each line end carries, and how the edge lists that
//! an exporter stores in glTF extras are read.

mod edge_sets;
pub mod colors;
pub mod extras;
pub mod line_list;
pub mod mesh;
pub mod smoothing;

pub use extras::{
    line_lists_from_value, parse_gltf_extra_json, parse_selected_edges, primitive_line_list_key,
    selected_edges_text_of,
    ExtrasError, JsonLineList, JsonValue,
};
pub use line_list::{
    line_list_to_mesh, mesh_to_line_list, mesh_to_line_list_from_json, LineListError, LineMeshData,
};
pub use mesh::{AsFloat4, AttributeValues, LineList, MeshData, MeshIndices, Vert, F32_ONE_BITS};
pub use vstd::hash_map::StringHashMap;
pub use smoothing::smoothing_representatives;
pub use colors::{color_classes, ColorClasses};
