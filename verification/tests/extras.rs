use wireframe::{parse_gltf_extra_json, parse_selected_edges, primitive_line_list_key, JsonLineList};

fn extras(inner: &str) -> String {
    format!("{{\"gltf_all_selected_edges\": {}}}", serde_json::to_string(inner).unwrap())
}

#[test]
fn scene_extras_give_the_line_list_of_each_primitive() {
    let text = extras("{\"0\": [[1, 2], [3, 4]], \"1\": [[5, 6]]}");
    let m = parse_gltf_extra_json(&text).unwrap();
    assert_eq!(m.len(), 2);
    assert_eq!(m.get("0").unwrap().line_list, vec![[1, 2], [3, 4]]);
    assert_eq!(m.get("1").unwrap().line_list, vec![[5, 6]]);
}

#[test]
fn items_that_are_not_pairs_are_skipped() {
    let text = extras("{\"0\": [[1, 2], [3], [4, 5, 6], \"x\", [-1, 2], [1.5, 2], [7, 8]]}");
    let m = parse_gltf_extra_json(&text).unwrap();
    assert_eq!(m.get("0").unwrap().line_list, vec![[1, 2], [7, 8]]);
}

#[test]
fn large_indices_are_cut_to_u32() {
    let text = extras("{\"0\": [[4294967297, 2]]}");
    let m = parse_gltf_extra_json(&text).unwrap();
    assert_eq!(m.get("0").unwrap().line_list, vec![[1, 2]]);
}

#[test]
fn entries_that_are_not_arrays_are_skipped() {
    let text = extras("{\"0\": 3, \"1\": [[1, 2]]}");
    let m = parse_gltf_extra_json(&text).unwrap();
    assert_eq!(m.len(), 1);
    assert!(m.get("0").is_none());
}

#[test]
fn inner_document_that_is_not_an_object_gives_no_line_list() {
    let m = parse_gltf_extra_json(&extras("[1, 2]")).unwrap();
    assert_eq!(m.len(), 0);
}

#[test]
fn text_that_is_not_json_gives_none() {
    assert!(parse_gltf_extra_json("{not json").is_none());
    assert!(parse_gltf_extra_json(&extras("{broken")).is_none());
}

#[test]
fn missing_or_non_string_entry_gives_none() {
    assert!(parse_gltf_extra_json("{\"other\": \"{}\"}").is_none());
    assert!(parse_gltf_extra_json("{\"gltf_all_selected_edges\": {\"0\": [[1, 2]]}}").is_none());
    assert!(parse_gltf_extra_json("[]").is_none());
}

#[test]
fn strict_parse_reads_well_typed_edges() {
    let m = parse_selected_edges(&extras("{\"0\": [[1, 2], [3, 4]]}")).ok().unwrap();
    assert_eq!(m.get("0").unwrap().line_list, vec![[1, 2], [3, 4]]);
}

#[test]
fn strict_parse_refuses_ill_typed_edges() {
    assert!(parse_selected_edges(&extras("{\"0\": [[1, 2, 3]]}")).is_err());
    assert!(parse_selected_edges(&extras("{\"0\": [[-1, 2]]}")).is_err());
    assert!(parse_selected_edges(&extras("{\"0\": 3}")).is_err());
    assert!(parse_selected_edges(&extras("not json")).is_err());
}

#[test]
fn strict_parse_of_invalid_document_is_an_error() {
    assert!(parse_selected_edges("{").is_err());
}

#[test]
fn strict_parse_without_selected_edges_is_empty() {
    let m = parse_selected_edges("{\"other\": 1}").ok().unwrap();
    assert_eq!(m.len(), 0);
    let m = parse_selected_edges("[1]").ok().unwrap();
    assert_eq!(m.len(), 0);
}

#[test]
fn line_list_from_vectors_takes_first_two_entries() {
    let l = JsonLineList::from_edge_vecs(vec![vec![1, 2], vec![-1, 5, 7]]);
    assert_eq!(l.line_list, vec![[1, 2], [4294967295, 5]]);
}

#[test]
fn strict_and_lenient_parses_agree_on_well_typed_edges() {
    let text = extras("{\"2\": [[1, 2], [3, 4]], \"0\": [[5, 6]], \"2\": [[7, 8]]}");
    let strict = parse_selected_edges(&text).ok().unwrap();
    let lenient = parse_gltf_extra_json(&text).unwrap();
    assert_eq!(strict.len(), 2);
    assert_eq!(lenient.len(), 2);
    for key in ["0", "2"] {
        assert_eq!(strict.get(key).unwrap().line_list, lenient.get(key).unwrap().line_list);
    }
    assert_eq!(strict.get("2").unwrap().line_list, vec![[7, 8]]);
}

#[test]
fn numeric_primitive_index_gives_its_digits() {
    let key = primitive_line_list_key("{\"name\": \"body\", \"gltf_primitive_index\": 3}");
    assert_eq!(key, Some("3".to_string()));
}

#[test]
fn string_primitive_index_keeps_its_quotes() {
    let key = primitive_line_list_key("{\"gltf_primitive_index\": \"3\"}");
    assert_eq!(key, Some("\"3\"".to_string()));
}

#[test]
fn compound_primitive_index_is_written_compactly() {
    let key = primitive_line_list_key("{\"gltf_primitive_index\": [1, 2.5, {\"b\": null, \"a\": true}]}");
    assert_eq!(key, Some("[1,2.5,{\"a\":true,\"b\":null}]".to_string()));
}

#[test]
fn primitive_key_found_in_scene_line_lists() {
    let lists = parse_gltf_extra_json(&extras("{\"3\": [[1, 2]]}")).unwrap();
    let key = primitive_line_list_key("{\"gltf_primitive_index\": 3}").unwrap();
    assert_eq!(lists.get(key.as_str()).unwrap().line_list, vec![[1, 2]]);
}

#[test]
fn extras_without_primitive_index_give_no_key() {
    assert_eq!(primitive_line_list_key("{\"other\": 3}"), None);
    assert_eq!(primitive_line_list_key("[3]"), None);
    assert_eq!(primitive_line_list_key("3"), None);
    assert_eq!(primitive_line_list_key("not json"), None);
}
