use vstd::hash_map::StringHashMap;
use vstd::prelude::*;

verus! {

#[verifier::external_type_specification]
#[verifier::external_body]
pub struct ExJsonValue(serde_json::Value);

#[verifier::external_type_specification]
#[verifier::external_body]
pub struct ExJsonError(serde_json::Error);

#[verifier::external_type_specification]
#[verifier::external_body]
pub struct ExJsonNumber(serde_json::Number);

/// The edges that an exporter selected for one mesh primitive, as pairs of the
/// exporter's vertex indices.
pub struct JsonLineList {
    pub line_list: Vec<[u32; 2]>,
}

/// A JSON document as the edge logic reads it. A number is held as what it reads as an
/// unsigned integer (`Some` for a non-negative integer that fits in `u64`, `None` for any
/// other number) and as the `serde_json::Number` itself, which the logic only carries. An
/// object holds its entries in the order a parse yields them.
pub enum JsonValue {
    Null,
    Bool(bool),
    Number(Option<u64>, serde_json::Number),
    String(String),
    Array(Vec<JsonValue>),
    Object(Vec<(String, JsonValue)>),
}

/// Errors of [`parse_selected_edges`].
pub enum ExtrasError {
    /// A text was not JSON of the expected shape.
    Json(serde_json::Error),
}

/// The pairs of a line list as tuples.
pub open spec fn pairs_view(pairs: Seq<[u32; 2]>) -> Seq<(u32, u32)> {
    pairs.map_values(|p: [u32; 2]| (p@[0], p@[1]))
}

/// The key under which an exporter stores the selected edges of a whole scene.
pub open spec fn selected_edges_key() -> Seq<char> {
    "gltf_all_selected_edges"@
}

/// The value of the first entry of an object with the given key.
pub open spec fn object_lookup(entries: Seq<(String, JsonValue)>, key: Seq<char>) -> Option<JsonValue>
    decreases entries.len(),
{
    if entries.len() == 0 {
        None
    } else if entries[0].0@ == key {
        Some(entries[0].1)
    } else {
        object_lookup(entries.drop_first(), key)
    }
}

/// The text stored as a string under the selected-edges key of a JSON object.
pub open spec fn selected_edges_text(v: JsonValue) -> Option<Seq<char>> {
    match v {
        JsonValue::Object(entries) => match object_lookup(entries@, selected_edges_key()) {
            Some(JsonValue::String(s)) => Some(s@),
            _ => None,
        },
        _ => None,
    }
}

/// An edge read from JSON: an array of exactly two non-negative integers, each cut to `u32`.
pub open spec fn pair_of(v: JsonValue) -> Option<(u32, u32)> {
    match v {
        JsonValue::Array(items) => if items@.len() == 2 {
            match (items@[0], items@[1]) {
                (JsonValue::Number(Some(a), _), JsonValue::Number(Some(b), _)) => Some((a as u32, b as u32)),
                _ => None,
            }
        } else {
            None
        },
        _ => None,
    }
}

/// The edges of a JSON array: those of its items that read as edges, in order.
pub open spec fn line_pairs(items: Seq<JsonValue>) -> Seq<(u32, u32)>
    decreases items.len(),
{
    if items.len() == 0 {
        seq![]
    } else {
        match pair_of(items.last()) {
            Some(p) => line_pairs(items.drop_last()).push(p),
            None => line_pairs(items.drop_last()),
        }
    }
}

/// The line lists of the entries of a JSON object: each key whose value is an array, to the
/// edges of that array; a later entry replaces an earlier one with the same key.
pub open spec fn entry_line_lists(entries: Seq<(String, JsonValue)>) -> Map<Seq<char>, Seq<(u32, u32)>>
    decreases entries.len(),
{
    if entries.len() == 0 {
        Map::empty()
    } else {
        let prev = entry_line_lists(entries.drop_last());
        match entries.last().1 {
            JsonValue::Array(items) => prev.insert(entries.last().0@, line_pairs(items@)),
            _ => prev,
        }
    }
}

/// The line lists of a JSON value: those of its entries when it is an object, none otherwise.
pub open spec fn value_line_lists(v: JsonValue) -> Map<Seq<char>, Seq<(u32, u32)>> {
    match v {
        JsonValue::Object(entries) => entry_line_lists(entries@),
        _ => Map::empty(),
    }
}

/// Whether the map of line lists `m` holds exactly the edge lists `t`.
pub open spec fn holds_line_lists(m: Map<Seq<char>, JsonLineList>, t: Map<Seq<char>, Seq<(u32, u32)>>) -> bool {
    &&& m.dom() == t.dom()
    &&& forall|k: Seq<char>| #[trigger] t.contains_key(k) ==> pairs_view(m[k].line_list@) == t[k]
}

/// Gives the value of the first entry with the given key.
fn object_get<'a>(entries: &'a Vec<(String, JsonValue)>, key: &String) -> (r: Option<&'a JsonValue>)
    ensures
        match r {
            Some(v) => object_lookup(entries@, key@) == Some(*v),
            None => object_lookup(entries@, key@) is None,
        },
{
    let mut i: usize = 0;
    assert(entries@.skip(0) =~= entries@);
    while i < entries.len()
        invariant
            i <= entries.len(),
            object_lookup(entries@, key@) == object_lookup(entries@.skip(i as int), key@),
        decreases entries.len() - i,
    {
        assert(entries@.skip(i as int)[0] == entries@[i as int]);
        assert(entries@.skip(i as int).drop_first() =~= entries@.skip(i + 1));
        if entries[i].0 == *key {
            return Some(&entries[i].1);
        }
        i = i + 1;
    }
    None
}

/// The text stored as a string under the selected-edges key, when `value` is an object
/// with such an entry.
pub fn selected_edges_text_of(value: &JsonValue) -> (r: Option<String>)
    ensures
        match r {
            Some(s) => selected_edges_text(*value) == Some(s@),
            None => selected_edges_text(*value) is None,
        },
{
    match value {
        JsonValue::Object(entries) => {
            let key = String::from_str("gltf_all_selected_edges");
            match object_get(entries, &key) {
                Some(JsonValue::String(s)) => Some(s.clone()),
                _ => None,
            }
        },
        _ => None,
    }
}

/// Reads an edge from a JSON value: an array of exactly two non-negative integers.
fn read_pair(value: &JsonValue) -> (r: Option<[u32; 2]>)
    ensures
        match r {
            Some(p) => pair_of(*value) == Some((p@[0], p@[1])),
            None => pair_of(*value) is None,
        },
{
    match value {
        JsonValue::Array(items) => {
            if items.len() == 2 {
                match (&items[0], &items[1]) {
                    (JsonValue::Number(Some(a), _), JsonValue::Number(Some(b), _)) => Some(
                        [*a as u32, *b as u32],
                    ),
                    _ => None,
                }
            } else {
                None
            }
        },
        _ => None,
    }
}

/// Reads the edges of a JSON array: those of its items that are edges, in order.
fn read_pairs(items: &Vec<JsonValue>) -> (r: Vec<[u32; 2]>)
    ensures
        pairs_view(r@) == line_pairs(items@),
{
    let mut out: Vec<[u32; 2]> = Vec::new();
    let mut i: usize = 0;
    assert(pairs_view(out@) =~= line_pairs(items@.take(0)));
    while i < items.len()
        invariant
            i <= items.len(),
            pairs_view(out@) == line_pairs(items@.take(i as int)),
        decreases items.len() - i,
    {
        assert(items@.take(i + 1).drop_last() =~= items@.take(i as int));
        assert(items@.take(i + 1).last() == items@[i as int]);
        match read_pair(&items[i]) {
            Some(p) => {
                let ghost before = out@;
                out.push(p);
                assert(pairs_view(out@) =~= pairs_view(before).push((p@[0], p@[1])));
            },
            None => {},
        }
        i = i + 1;
    }
    assert(items@.take(i as int) =~= items@);
    out
}

/// The line lists that a JSON value holds: for each entry of an object whose value is an
/// array, the edges of that array under the entry's key. A value that is not an object
/// holds none.
pub fn line_lists_from_value(value: &JsonValue) -> (r: StringHashMap<JsonLineList>)
    ensures
        holds_line_lists(r@, value_line_lists(*value)),
{
    let mut result: StringHashMap<JsonLineList> = StringHashMap::new();
    match value {
        JsonValue::Object(entries) => {
            let mut i: usize = 0;
            assert(entry_line_lists(entries@.take(0)) =~= Map::empty());
            while i < entries.len()
                invariant
                    i <= entries.len(),
                    holds_line_lists(result@, entry_line_lists(entries@.take(i as int))),
                decreases entries.len() - i,
            {
                assert(entries@.take(i + 1).drop_last() =~= entries@.take(i as int));
                assert(entries@.take(i + 1).last() == entries@[i as int]);
                let (key, item) = (&entries[i].0, &entries[i].1);
                match item {
                    JsonValue::Array(items) => {
                        let line_list = read_pairs(items);
                        let ghost before = result@;
                        result.insert(key.clone(), JsonLineList { line_list });
                        assert(result@.dom() =~= entry_line_lists(entries@.take(i + 1)).dom());
                    },
                    _ => {},
                }
                i = i + 1;
            }
            assert(entries@.take(i as int) =~= entries@);
        },
        _ => {},
    }
    result
}

} // verus!

verus! {

/// The JSON document that a text holds, as [`JsonValue`]; `None` when the text is not JSON.
pub uninterp spec fn json_document(text: Seq<char>) -> Option<JsonValue>;

/// The table that a text holds when it is a JSON object whose every value is an array of
/// two-element arrays of `u32`: each key to its pairs; `None` for any other text.
pub uninterp spec fn json_edge_table(text: Seq<char>) -> Option<Map<Seq<char>, Seq<(u32, u32)>>>;

/// Converts a parsed `serde_json::Value` into a [`JsonValue`], variant by variant; a number
/// becomes what `serde_json::Number::as_u64` gives for it together with the number itself,
/// an object its entries in the order of the map's iteration.
#[verifier::external_body]
fn json_value_from_serde(value: serde_json::Value) -> JsonValue {
    match value {
        serde_json::Value::Null => JsonValue::Null,
        serde_json::Value::Bool(b) => JsonValue::Bool(b),
        serde_json::Value::Number(n) => JsonValue::Number(n.as_u64(), n),
        serde_json::Value::String(s) => JsonValue::String(s),
        serde_json::Value::Array(items) => JsonValue::Array(items.into_iter().map(json_value_from_serde).collect()),
        serde_json::Value::Object(entries) => JsonValue::Object(
            entries.into_iter().map(|(k, v)| (k, json_value_from_serde(v))).collect(),
        ),
    }
}

/// Calls `serde_json::from_str::<serde_json::Value>`: it succeeds exactly on JSON text,
/// and what it gives is the document that the text holds ([`json_document`]).
#[verifier::external_body]
fn parse_json(text: &str) -> (r: Result<JsonValue, serde_json::Error>)
    ensures
        r is Ok <==> json_document(text@) is Some,
        r matches Ok(v) ==> json_document(text@) == Some(v),
{
    match serde_json::from_str::<serde_json::Value>(text) {
        Ok(value) => Ok(json_value_from_serde(value)),
        Err(e) => Err(e),
    }
}

/// The edge table that a list of entries makes: each key to its pairs, a later entry
/// replacing an earlier one with the same key.
pub open spec fn entries_table(entries: Seq<(String, Vec<[u32; 2]>)>) -> Map<Seq<char>, Seq<(u32, u32)>>
    decreases entries.len(),
{
    if entries.len() == 0 {
        Map::empty()
    } else {
        entries_table(entries.drop_last()).insert(entries.last().0@, pairs_view(entries.last().1@))
    }
}

/// Calls `serde_json::from_str::<HashMap<String, Vec<[u32; 2]>>>`: it succeeds exactly
/// when the text holds such a table ([`json_edge_table`]), and the entries it gives make
/// that table. They come in the order of the hash map's iteration, which is left open.
///
/// Such a text is also JSON to `serde_json::from_str::<serde_json::Value>`, and the document
/// it holds has the same line lists ([`value_line_lists`]): both parses keep the last of
/// duplicate keys, and every pair element is a non-negative integer that fits in `u32`, so
/// `as_u64` reads it unchanged.
#[verifier::external_body]
fn parse_edge_table(text: &str) -> (r: Result<Vec<(String, Vec<[u32; 2]>)>, serde_json::Error>)
    ensures
        r is Ok <==> json_edge_table(text@) is Some,
        r matches Ok(entries) ==> json_edge_table(text@) == Some(entries_table(entries@)),
        r matches Ok(entries) ==> (json_document(text@) matches Some(w) && value_line_lists(w)
            == entries_table(entries@)),
{
    match serde_json::from_str::<std::collections::HashMap<String, Vec<[u32; 2]>>>(text) {
        Ok(table) => Ok(table.into_iter().collect()),
        Err(e) => Err(e),
    }
}

/// The line lists of the glTF scene extras text: the extras are a JSON document whose
/// selected-edges entry is a string; that string is a JSON document, whose line lists
/// ([`value_line_lists`]) are the result. `None` when either text is not JSON or the entry
/// is missing or not a string.
pub open spec fn gltf_extra_line_lists(text: Seq<char>) -> Option<Map<Seq<char>, Seq<(u32, u32)>>> {
    match json_document(text) {
        Some(v) => match selected_edges_text(v) {
            Some(t) => match json_document(t) {
                Some(w) => Some(value_line_lists(w)),
                None => None,
            },
            None => None,
        },
        None => None,
    }
}

/// Reads the line lists that an exporter stores in the glTF scene extras: a JSON object
/// whose `gltf_all_selected_edges` entry is a string holding a JSON object from primitive
/// keys to arrays of vertex index pairs. Items that are not pairs of non-negative integers
/// are skipped, as are entries that are not arrays.
pub fn parse_gltf_extra_json(json_str: &str) -> (r: Option<StringHashMap<JsonLineList>>)
    ensures
        match r {
            Some(m) => gltf_extra_line_lists(json_str@) matches Some(t) && holds_line_lists(m@, t),
            None => gltf_extra_line_lists(json_str@) is None,
        },
{
    let value = match parse_json(json_str) {
        Ok(v) => v,
        Err(_) => return None,
    };
    let text = match selected_edges_text_of(&value) {
        Some(t) => t,
        None => return None,
    };
    match parse_json(text.as_str()) {
        Ok(edges) => Some(line_lists_from_value(&edges)),
        Err(_) => None,
    }
}

/// What [`parse_selected_edges`] gives: `None` when it fails, otherwise the edge table of
/// the selected-edges string, or an empty table when the document has no such string.
pub open spec fn selected_edge_table(text: Seq<char>) -> Option<Map<Seq<char>, Seq<(u32, u32)>>> {
    match json_document(text) {
        Some(v) => match selected_edges_text(v) {
            Some(t) => json_edge_table(t),
            None => Some(Map::empty()),
        },
        None => None,
    }
}

/// Reads the selected edges strictly: the text must be JSON, and when it is an object whose
/// `gltf_all_selected_edges` entry is a string, that string must be a JSON object from keys
/// to arrays of pairs of `u32`; its pairs are the result. Without such an entry the result
/// is empty.
///
/// Where it succeeds on a text that has the entry, [`parse_gltf_extra_json`] reads the same
/// line lists from that text.
pub fn parse_selected_edges(json_str: &str) -> (r: Result<StringHashMap<JsonLineList>, ExtrasError>)
    ensures
        match r {
            Ok(m) => selected_edge_table(json_str@) matches Some(t) && holds_line_lists(m@, t),
            Err(_) => selected_edge_table(json_str@) is None,
        },
        r is Ok && (json_document(json_str@) matches Some(v) && selected_edges_text(v) is Some)
            ==> gltf_extra_line_lists(json_str@) == selected_edge_table(json_str@),
{
    let parsed = match parse_json(json_str) {
        Ok(v) => v,
        Err(e) => return Err(ExtrasError::Json(e)),
    };
    let mut result: StringHashMap<JsonLineList> = StringHashMap::new();
    if let Some(edges_str) = selected_edges_text_of(&parsed) {
        let entries = match parse_edge_table(edges_str.as_str()) {
            Ok(entries) => entries,
            Err(e) => return Err(ExtrasError::Json(e)),
        };
        let mut entries = entries;
        let ghost all = entries@;
        let mut i: usize = 0;
        let n = entries.len();
        assert(entries_table(all.take(0)) =~= Map::empty());
        while i < n
            invariant
                n == all.len(),
                i <= n,
                entries@ == all.skip(i as int),
                holds_line_lists(result@, entries_table(all.take(i as int))),
            decreases n - i,
        {
            assert(all.take(i + 1).drop_last() =~= all.take(i as int));
            assert(all.take(i + 1).last() == all[i as int]);
            let (key, line_list) = entries.remove(0);
            assert(entries@ =~= all.skip(i + 1));
            result.insert(key, JsonLineList { line_list });
            assert(result@.dom() =~= entries_table(all.take(i + 1)).dom());
            i = i + 1;
        }
        assert(all.take(i as int) =~= all);
    }
    Ok(result)
}

} // verus!

verus! {

impl JsonLineList {
    /// A line list from index pairs given as vectors: each edge is the first two entries of
    /// its vector, converted with `as u32`.
    pub fn from_edge_vecs(edges: Vec<Vec<i32>>) -> (r: JsonLineList)
        requires
            forall|i: int| 0 <= i < edges@.len() ==> (#[trigger] edges@[i])@.len() >= 2,
        ensures
            r.line_list@.len() == edges@.len(),
            forall|i: int|
                0 <= i < edges@.len() ==> pairs_view(r.line_list@)[i] == (
                    (#[trigger] edges@[i])@[0] as u32,
                    edges@[i]@[1] as u32,
                ),
    {
        let mut line_list: Vec<[u32; 2]> = Vec::new();
        let mut i: usize = 0;
        while i < edges.len()
            invariant
                i <= edges.len(),
                forall|k: int| 0 <= k < edges@.len() ==> (#[trigger] edges@[k])@.len() >= 2,
                line_list@.len() == i,
                forall|k: int|
                    0 <= k < i ==> pairs_view(line_list@)[k] == (
                        (#[trigger] edges@[k])@[0] as u32,
                        edges@[k]@[1] as u32,
                    ),
            decreases edges.len() - i,
        {
            let e = &edges[i];
            line_list.push([e[0] as u32, e[1] as u32]);
            i = i + 1;
        }
        JsonLineList { line_list }
    }
}

} // verus!

verus! {

/// The compact JSON text that `serde_json` writes for a value (`Value::to_string`).
pub uninterp spec fn json_text(v: JsonValue) -> Seq<char>;

/// Converts a [`JsonValue`] back into a `serde_json::Value`, variant by variant; a number
/// becomes the `serde_json::Number` it carries, an object a map of its entries.
#[verifier::external_body]
fn json_value_to_serde(value: &JsonValue) -> serde_json::Value {
    match value {
        JsonValue::Null => serde_json::Value::Null,
        JsonValue::Bool(b) => serde_json::Value::Bool(*b),
        JsonValue::Number(_, n) => serde_json::Value::Number(n.clone()),
        JsonValue::String(s) => serde_json::Value::String(s.clone()),
        JsonValue::Array(items) => serde_json::Value::Array(items.iter().map(json_value_to_serde).collect()),
        JsonValue::Object(entries) => serde_json::Value::Object(
            entries.iter().map(|(k, v)| (k.clone(), json_value_to_serde(v))).collect(),
        ),
    }
}

/// Calls `serde_json::Value::to_string`: the compact JSON text of the value ([`json_text`]).
#[verifier::external_body]
fn json_text_of(value: &JsonValue) -> (r: String)
    ensures
        r@ == json_text(*value),
{
    json_value_to_serde(value).to_string()
}

/// The key under which a mesh primitive's extras name its entry in the selected edges.
pub open spec fn primitive_index_key() -> Seq<char> {
    "gltf_primitive_index"@
}

/// The key of a primitive's line list: the primitive extras are a JSON object with a
/// `gltf_primitive_index` entry, and the key is that entry's JSON text (a number `3` gives
/// `3`, a string keeps its quotes). `None` when the text is not JSON, not an object, or has
/// no such entry.
pub open spec fn primitive_key(extras: Seq<char>) -> Option<Seq<char>> {
    match json_document(extras) {
        Some(JsonValue::Object(entries)) => match object_lookup(entries@, primitive_index_key()) {
            Some(v) => Some(json_text(v)),
            None => None,
        },
        _ => None,
    }
}

/// Reads the key under which the selected edges hold a primitive's line list from the
/// primitive's glTF extras ([`primitive_key`]).
pub fn primitive_line_list_key(extras: &str) -> (r: Option<String>)
    ensures
        match r {
            Some(k) => primitive_key(extras@) == Some(k@),
            None => primitive_key(extras@) is None,
        },
{
    let value = match parse_json(extras) {
        Ok(v) => v,
        Err(_) => return None,
    };
    match &value {
        JsonValue::Object(entries) => {
            let key = String::from_str("gltf_primitive_index");
            match object_get(entries, &key) {
                Some(v) => Some(json_text_of(v)),
                None => None,
            }
        },
        _ => None,
    }
}

} // verus!

verus! {

/// Looking an object's entries up by key finds the first entry with that key, wherever it
/// sits, and finds nothing exactly when no entry has that key.
proof fn lemma_object_lookup_finds_first(entries: Seq<(String, JsonValue)>, key: Seq<char>)
    ensures
        forall|j: int|
            0 <= j < entries.len() && (#[trigger] entries[j]).0@ == key && (forall|i: int|
                0 <= i < j ==> entries[i].0@ != key) ==> object_lookup(entries, key) == Some(
                entries[j].1,
            ),
        (forall|j: int| 0 <= j < entries.len() ==> (#[trigger] entries[j]).0@ != key) ==> object_lookup(
            entries,
            key,
        ) is None,
    decreases entries.len(),
{
    if entries.len() > 0 {
        let rest = entries.drop_first();
        lemma_object_lookup_finds_first(rest, key);
        assert forall|j: int|
            0 <= j < entries.len() && (#[trigger] entries[j]).0@ == key && (forall|i: int|
                0 <= i < j ==> entries[i].0@ != key) implies object_lookup(entries, key) == Some(
            entries[j].1,
        ) by {
            if j > 0 {
                assert(entries[0].0@ != key);
                assert(rest[j - 1] == entries[j]);
                assert forall|i: int| 0 <= i < j - 1 implies rest[i].0@ != key by {
                    assert(rest[i] == entries[i + 1]);
                }
            }
        }
        if forall|j: int| 0 <= j < entries.len() ==> (#[trigger] entries[j]).0@ != key {
            assert(entries[0].0@ != key);
            assert forall|j: int| 0 <= j < rest.len() implies (#[trigger] rest[j]).0@ != key by {
                assert(rest[j] == entries[j + 1]);
            }
        }
    }
}

/// The key of a primitive's line list is the JSON text of the object's
/// `gltf_primitive_index` entry, wherever that entry sits (the first one, should there be
/// several); there is no key when the extras are not a JSON object or have no such entry.
pub proof fn law_primitive_key_reads_the_index_entry(extras: Seq<char>)
    ensures
        match json_document(extras) {
            Some(JsonValue::Object(entries)) => {
                &&& forall|j: int|
                    0 <= j < entries@.len() && (#[trigger] entries@[j]).0@ == "gltf_primitive_index"@
                        && (forall|i: int| 0 <= i < j ==> entries@[i].0@ != "gltf_primitive_index"@)
                        ==> primitive_key(extras) == Some(json_text(entries@[j].1))
                &&& (forall|j: int|
                    0 <= j < entries@.len() ==> (#[trigger] entries@[j]).0@ != "gltf_primitive_index"@)
                    ==> primitive_key(extras) is None
            },
            _ => primitive_key(extras) is None,
        },
{
    match json_document(extras) {
        Some(JsonValue::Object(entries)) => {
            lemma_object_lookup_finds_first(entries@, "gltf_primitive_index"@);
        },
        _ => {},
    }
}

/// The selected-edges text of a JSON value is the string of the object's
/// `gltf_all_selected_edges` entry, wherever that entry sits (the first one, should there be
/// several); there is none when the value is not an object, has no such entry, or the entry
/// is not a string.
pub proof fn law_selected_edges_text_reads_its_entry(v: JsonValue)
    ensures
        match v {
            JsonValue::Object(entries) => {
                &&& forall|j: int|
                    0 <= j < entries@.len() && (#[trigger] entries@[j]).0@ == "gltf_all_selected_edges"@
                        && (forall|i: int| 0 <= i < j ==> entries@[i].0@ != "gltf_all_selected_edges"@)
                        ==> selected_edges_text(v) == (match entries@[j].1 {
                        JsonValue::String(s) => Some(s@),
                        _ => None,
                    })
                &&& (forall|j: int|
                    0 <= j < entries@.len() ==> (#[trigger] entries@[j]).0@ != "gltf_all_selected_edges"@)
                    ==> selected_edges_text(v) is None
            },
            _ => selected_edges_text(v) is None,
        },
{
    match v {
        JsonValue::Object(entries) => {
            lemma_object_lookup_finds_first(entries@, "gltf_all_selected_edges"@);
        },
        _ => {},
    }
}

/// The edges of a JSON array are exactly those of its items that read as edges, in order:
/// no edge item is lost, none is moved, and no other item contributes.
pub proof fn law_line_pairs_keep_every_edge_in_order(items: Seq<JsonValue>)
    ensures
        line_pairs(items) == items.filter_map(|v: JsonValue| pair_of(v)),
    decreases items.len(),
{
    if items.len() > 0 {
        law_line_pairs_keep_every_edge_in_order(items.drop_last());
        let f = |v: JsonValue| pair_of(v);
        match pair_of(items.last()) {
            Some(p) => {
                assert(items.drop_last().filter_map(f) + seq![p] =~= items.drop_last().filter_map(f).push(p));
            },
            None => {},
        }
    }
}

/// The line lists of entries: one for each key with an array entry, the last one's edges.
proof fn lemma_entry_line_lists(entries: Seq<(String, JsonValue)>)
    ensures
        forall|k: Seq<char>|
            #[trigger] entry_line_lists(entries).contains_key(k) <==> exists|j: int|
                0 <= j < entries.len() && (#[trigger] entries[j]).0@ == k && entries[j].1 is Array,
        forall|j: int|
            0 <= j < entries.len() && (#[trigger] entries[j]).1 is Array && (forall|i: int|
                j < i < entries.len() && entries[i].0@ == entries[j].0@ ==> !(entries[i].1 is Array))
                ==> entry_line_lists(entries)[entries[j].0@] == line_pairs(entries[j].1->Array_0@),
    decreases entries.len(),
{
    if entries.len() > 0 {
        let p = entries.drop_last();
        lemma_entry_line_lists(p);
        let last = entries.last();
        let n = entries.len() - 1;
        assert forall|k: Seq<char>|
            #[trigger] entry_line_lists(entries).contains_key(k) <==> exists|j: int|
                0 <= j < entries.len() && (#[trigger] entries[j]).0@ == k && entries[j].1 is Array by {
            assert(entries[n] == last);
            if entry_line_lists(entries).contains_key(k) {
                if last.1 is Array && last.0@ == k {
                } else {
                    if last.1 is Array {
                        assert(entry_line_lists(entries) == entry_line_lists(p).insert(last.0@, line_pairs(last.1->Array_0@)));
                    } else {
                        assert(entry_line_lists(entries) == entry_line_lists(p));
                    }
                    assert(entry_line_lists(p).contains_key(k));
                    let j = choose|j: int| 0 <= j < p.len() && (#[trigger] p[j]).0@ == k && p[j].1 is Array;
                    assert(entries[j] == p[j]);
                }
            }
            if exists|j: int| 0 <= j < entries.len() && (#[trigger] entries[j]).0@ == k && entries[j].1 is Array {
                let j = choose|j: int| 0 <= j < entries.len() && (#[trigger] entries[j]).0@ == k && entries[j].1 is Array;
                if j < n {
                    assert(p[j] == entries[j]);
                    assert(entry_line_lists(p).contains_key(k));
                    if last.1 is Array {
                        assert(entry_line_lists(entries) == entry_line_lists(p).insert(last.0@, line_pairs(last.1->Array_0@)));
                    } else {
                        assert(entry_line_lists(entries) == entry_line_lists(p));
                    }
                } else {
                    assert(entry_line_lists(entries) == entry_line_lists(p).insert(last.0@, line_pairs(last.1->Array_0@)));
                }
            }
        }
        assert forall|j: int|
            0 <= j < entries.len() && (#[trigger] entries[j]).1 is Array && (forall|i: int|
                j < i < entries.len() && entries[i].0@ == entries[j].0@ ==> !(entries[i].1 is Array))
                implies entry_line_lists(entries)[entries[j].0@] == line_pairs(entries[j].1->Array_0@) by {
            if j < n {
                assert(p[j] == entries[j]);
                assert forall|i: int| j < i < p.len() && p[i].0@ == p[j].0@ implies !(p[i].1 is Array) by {
                    assert(p[i] == entries[i]);
                }
                if last.1 is Array {
                    assert(entries[n] == last);
                    assert(last.0@ != entries[j].0@);
                }
            }
        }
    }
}

/// The line lists of a JSON value: when it is an object, exactly one entry for each key that
/// some entry with an array value has, whether or not the array holds any edge, and under
/// each such key the edges of the last array entry with that key; none for any other value.
pub proof fn law_line_lists_of_a_value(v: JsonValue)
    ensures
        match v {
            JsonValue::Object(entries) => {
                &&& forall|k: Seq<char>|
                    #[trigger] value_line_lists(v).contains_key(k) <==> exists|j: int|
                        0 <= j < entries@.len() && (#[trigger] entries@[j]).0@ == k && entries@[j].1 is Array
                &&& forall|j: int|
                    0 <= j < entries@.len() && (#[trigger] entries@[j]).1 is Array && (forall|i: int|
                        j < i < entries@.len() && entries@[i].0@ == entries@[j].0@ ==> !(entries@[i].1 is Array))
                        ==> value_line_lists(v)[entries@[j].0@] == line_pairs(entries@[j].1->Array_0@)
            },
            _ => value_line_lists(v).dom().is_empty(),
        },
{
    match v {
        JsonValue::Object(entries) => {
            lemma_entry_line_lists(entries@);
        },
        _ => {},
    }
}

/// A map of line lists that holds given edge lists is pinned down by them: two maps that
/// hold the same edge lists have the same keys and the same pairs under each key.
pub proof fn law_held_line_lists_are_unique(
    m1: Map<Seq<char>, JsonLineList>,
    m2: Map<Seq<char>, JsonLineList>,
    t: Map<Seq<char>, Seq<(u32, u32)>>,
)
    requires
        holds_line_lists(m1, t),
        holds_line_lists(m2, t),
    ensures
        m1.dom() == m2.dom(),
        forall|k: Seq<char>| #[trigger] m1.contains_key(k) ==> m1[k].line_list@ == m2[k].line_list@,
{
    assert forall|k: Seq<char>| #[trigger] m1.contains_key(k) implies m1[k].line_list@ == m2[k].line_list@ by {
        assert(t.contains_key(k));
        let a = m1[k].line_list@;
        let b = m2[k].line_list@;
        assert(pairs_view(a) == pairs_view(b));
        assert(a.len() == b.len()) by {
            assert(pairs_view(a).len() == a.len());
            assert(pairs_view(b).len() == b.len());
        }
        assert forall|i: int| 0 <= i < a.len() implies a[i] == b[i] by {
            assert(pairs_view(a)[i] == pairs_view(b)[i]);
            assert(a[i]@ =~= b[i]@);
        }
        assert(a =~= b);
    }
}

} // verus!
