use vstd::prelude::*;

use crate::edge_sets::{position_groups_contents, PositionGroups};

verus! {

/// Whether `r` is the first index, among the first `m`, whose key equals that of vertex `i`.
pub open spec fn is_first_with_key(keys: Seq<(i32, i32, i32)>, m: int, i: int, r: int) -> bool {
    &&& 0 <= r < m
    &&& keys[r] == keys[i]
    &&& forall|j: int| 0 <= j < r ==> keys[j] != keys[i]
}

/// Whether the key of every vertex occurs among the first `m` keys.
pub open spec fn keys_covered(keys: Seq<(i32, i32, i32)>, m: int) -> bool {
    forall|i: int|
        #![trigger keys[i]]
        0 <= i < keys.len() ==> exists|j: int| 0 <= j < m && #[trigger] keys[j] == keys[i]
}

/// Groups vertices by quantized position for normal smoothing. Vertex `i` has the key
/// `keys[i]`; only the first `normal_count` vertices (those that have a normal) contribute
/// to the groups. The result gives, for each vertex, the first contributing vertex with the
/// same key: the slot in which its group's normals are summed.
pub fn smoothing_representatives(keys: &Vec<(i32, i32, i32)>, normal_count: usize) -> (reps: Vec<usize>)
    requires
        keys_covered(keys@, if normal_count < keys.len() { normal_count as int } else { keys.len() as int }),
    ensures
        reps@.len() == keys@.len(),
        forall|i: int|
            0 <= i < keys@.len() ==> is_first_with_key(
                keys@,
                if normal_count < keys.len() { normal_count as int } else { keys.len() as int },
                i,
                #[trigger] reps@[i] as int,
            ),
        forall|a: int, b: int|
            0 <= a < keys@.len() && 0 <= b < keys@.len() && keys@[a] == keys@[b] ==> #[trigger] reps@[a]
                == #[trigger] reps@[b],
{
    let m = if normal_count < keys.len() {
        normal_count
    } else {
        keys.len()
    };
    let mut groups = PositionGroups::new();
    let mut i: usize = 0;
    while i < m
        invariant
            m <= keys.len(),
            i <= m,
            forall|k: (i32, i32, i32)|
                #[trigger] position_groups_contents(groups).contains_key(k) <==> exists|j: int|
                    0 <= j < i && keys@[j] == k,
            forall|k: (i32, i32, i32)|
                #[trigger] position_groups_contents(groups).contains_key(k) ==> {
                    let r = position_groups_contents(groups)[k] as int;
                    &&& 0 <= r < i
                    &&& keys@[r] == k
                    &&& forall|j: int| 0 <= j < r ==> keys@[j] != k
                },
        decreases m - i,
    {
        let ghost before = position_groups_contents(groups);
        let _ = groups.get_or_insert(keys[i], i);
        proof {
            let k = keys@[i as int];
            if !before.contains_key(k) {
                assert forall|j: int| 0 <= j < i implies keys@[j] != k by {
                    if keys@[j] == k {
                        assert(before.contains_key(k));
                    }
                }
            }
        }
        i = i + 1;
    }
    let mut reps: Vec<usize> = Vec::new();
    let mut i: usize = 0;
    while i < keys.len()
        invariant
            m <= keys.len(),
            m == (if normal_count < keys.len() { normal_count as int } else { keys.len() as int }),
            keys_covered(keys@, m as int),
            i <= keys.len(),
            reps@.len() == i,
            forall|k: (i32, i32, i32)|
                #[trigger] position_groups_contents(groups).contains_key(k) <==> exists|j: int|
                    0 <= j < m && keys@[j] == k,
            forall|k: (i32, i32, i32)|
                #[trigger] position_groups_contents(groups).contains_key(k) ==> {
                    let r = position_groups_contents(groups)[k] as int;
                    &&& 0 <= r < m
                    &&& keys@[r] == k
                    &&& forall|j: int| 0 <= j < r ==> keys@[j] != k
                },
            forall|k: int|
                0 <= k < i ==> #[trigger] reps@[k] == position_groups_contents(groups)[keys@[k]],
            forall|k: int| 0 <= k < i ==> position_groups_contents(groups).contains_key(#[trigger] keys@[k]),
        decreases keys.len() - i,
    {
        let key = keys[i];
        assert(exists|j: int| 0 <= j < m && #[trigger] keys@[j] == keys@[i as int]);
        let r = groups.value_of(key);
        reps.push(r);
        i = i + 1;
    }
    proof {
        assert forall|i: int| 0 <= i < keys@.len() implies is_first_with_key(keys@, m as int, i, #[trigger] reps@[i] as int) by {
            assert(position_groups_contents(groups).contains_key(keys@[i]));
        }
    }
    reps
}

} // verus!
