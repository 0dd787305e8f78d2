use vstd::prelude::*;

verus! {

/// The set of undirected edges already turned into lines, each keyed by its vertex
/// pair with the smaller index first, held in a `bevy_utils::HashSet`.
#[verifier::external_body]
pub struct EdgeSet {
    set: bevy_utils::HashSet<(usize, usize)>,
}

/// The edge keys that an [`EdgeSet`] holds.
pub uninterp spec fn edge_set_contents(s: EdgeSet) -> Set<(usize, usize)>;

impl EdgeSet {
    /// Calls `bevy_utils::HashSet::new`, which makes an empty set.
    #[verifier::external_body]
    pub fn new() -> (r: EdgeSet)
        ensures
            edge_set_contents(r) == Set::<(usize, usize)>::empty(),
    {
        EdgeSet { set: bevy_utils::HashSet::new() }
    }

    /// Calls `HashSet::insert`: afterwards the set holds `edge`, and the result tells
    /// whether it was absent before.
    #[verifier::external_body]
    pub fn insert(&mut self, edge: (usize, usize)) -> (newly: bool)
        ensures
            edge_set_contents(*final(self)) == edge_set_contents(*old(self)).insert(edge),
            newly == !edge_set_contents(*old(self)).contains(edge),
    {
        self.set.insert(edge)
    }
}

/// The map from the exporter's vertex index to the position of that vertex in the
/// mesh's attribute arrays, held in a `bevy_utils::HashMap`.
#[verifier::external_body]
pub struct VertexKeyMap {
    map: bevy_utils::HashMap<u32, u32>,
}

/// The entries that a [`VertexKeyMap`] holds.
pub uninterp spec fn vertex_key_map_contents(m: VertexKeyMap) -> Map<u32, u32>;

impl VertexKeyMap {
    /// Calls `bevy_utils::HashMap::new`, which makes an empty map.
    #[verifier::external_body]
    pub fn new() -> (r: VertexKeyMap)
        ensures
            (vertex_key_map_contents(r) == Map::<u32, u32>::empty()),
    {
        VertexKeyMap { map: bevy_utils::HashMap::new() }
    }

    /// Calls `HashMap::insert`, which maps `key` to `value`, replacing an earlier value.
    #[verifier::external_body]
    pub fn insert(&mut self, key: u32, value: u32)
        ensures
            vertex_key_map_contents(*final(self)) == vertex_key_map_contents(*old(self)).insert(
                key,
                value,
            ),
    {
        self.map.insert(key, value);
    }

    /// Calls `HashMap::get`, which gives the value mapped to `key`, if any.
    #[verifier::external_body]
    pub fn get(&self, key: u32) -> (r: Option<u32>)
        ensures
            r == (if vertex_key_map_contents(*self).contains_key(key) {
                Some(vertex_key_map_contents(*self)[key])
            } else {
                None
            }),
    {
        self.map.get(&key).copied()
    }
}

/// The map from a quantized vertex position to the first vertex found at it, held in a
/// `bevy_utils::HashMap`.
#[verifier::external_body]
pub struct PositionGroups {
    map: bevy_utils::HashMap<(i32, i32, i32), usize>,
}

/// The entries that a [`PositionGroups`] holds.
pub uninterp spec fn position_groups_contents(m: PositionGroups) -> Map<(i32, i32, i32), usize>;

impl PositionGroups {
    /// Calls `bevy_utils::HashMap::new`, which makes an empty map.
    #[verifier::external_body]
    pub fn new() -> (r: PositionGroups)
        ensures
            (position_groups_contents(r) == Map::<(i32, i32, i32), usize>::empty()),
    {
        PositionGroups { map: bevy_utils::HashMap::new() }
    }

    /// Calls `HashMap::entry` and `Entry::or_insert`: a key that is absent gets `value`,
    /// a key that is present keeps its value; the result is the value the key has afterwards.
    #[verifier::external_body]
    pub fn get_or_insert(&mut self, key: (i32, i32, i32), value: usize) -> (r: usize)
        ensures
            position_groups_contents(*old(self)).contains_key(key) ==> {
                &&& position_groups_contents(*final(self)) == position_groups_contents(*old(self))
                &&& r == position_groups_contents(*old(self))[key]
            },
            !position_groups_contents(*old(self)).contains_key(key) ==> {
                &&& position_groups_contents(*final(self)) == position_groups_contents(
                    *old(self),
                ).insert(key, value)
                &&& r == value
            },
    {
        *self.map.entry(key).or_insert(value)
    }

    /// Calls `HashMap::index` (`map[&key]`), which gives the value of a key that is present
    /// and panics on one that is absent.
    #[verifier::external_body]
    pub fn value_of(&self, key: (i32, i32, i32)) -> (r: usize)
        requires
            position_groups_contents(*self).contains_key(key),
        ensures
            r == position_groups_contents(*self)[key],
    {
        self.map[&key]
    }
}

} // verus!
