# wireframe

A Bevy viewer that draws glTF meshes as wireframes. The logic that decides what is
drawn is a Verus-verified library; the viewer around it is ordinary Rust.

- `src/line_list.rs`: the wireframe of a mesh (one line per distinct triangle edge),
  the wireframe from an exporter's selected edges, and the vertex data of the line mesh,
  with the laws that hold of them.
- `src/extras.rs`: reading the selected edges that an exporter stores in the glTF scene
  extras, and the key under which each mesh primitive finds its line list in them (JSON
  through `serde_json`).
- `src/smoothing.rs`, `src/colors.rs`: grouping vertices by position for normal smoothing
  and for per-position random colors.
- `src/mesh.rs`: the mesh data the logic reads (float components held as bit patterns).
- `src/edge_sets.rs`: the hash sets and maps of `bevy_utils` that the logic uses.
- `app/`: the Bevy application: window, camera, materials, asset loading, and the
  conversion between Bevy meshes and the library's mesh data.
