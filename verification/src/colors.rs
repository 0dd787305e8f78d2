use vstd::prelude::*;

verus! {

/// The outcome of grouping vertices that share a position: the class of each vertex and,
/// per class, the vertex that opened it.
pub struct ColorClasses {
    pub classes: Vec<usize>,
    pub representatives: Vec<usize>,
}

/// Groups `count` vertices into classes that share one random color. Vertices are taken in
/// order; each is compared, by `same_position(representative, vertex)`, with the vertex
/// that opened each class so far, in the order the classes were opened, and joins the first
/// class that matches; a vertex that matches none opens a new class.
///
/// The comparison may be any predicate; of each call only what it returned is known, so
/// the result is stated through the calls that were made.
pub fn color_classes<F: Fn(usize, usize) -> bool>(count: usize, same_position: F) -> (r: ColorClasses)
    requires
        forall|a: usize, b: usize| #[trigger] same_position.requires((a, b)),
    ensures
        r.classes@.len() == count,
        forall|k: int|
            0 <= k < r.representatives@.len() ==> #[trigger] r.representatives@[k] < count
                && r.classes@[r.representatives@[k] as int] == k,
        forall|k: int, l: int|
            0 <= k < l < r.representatives@.len() ==> #[trigger] r.representatives@[k]
                < #[trigger] r.representatives@[l],
        forall|i: int|
            0 <= i < count ==> {
                let c = #[trigger] r.classes@[i] as int;
                &&& c < r.representatives@.len()
                &&& r.representatives@[c] <= i
                &&& forall|k: int|
                    0 <= k < c ==> same_position.ensures((r.representatives@[k], i as usize), false)
                &&& r.representatives@[c] < i ==> same_position.ensures(
                    (r.representatives@[c], i as usize),
                    true,
                )
            },
{
    let mut classes: Vec<usize> = Vec::new();
    let mut reps: Vec<usize> = Vec::new();
    let mut i: usize = 0;
    while i < count
        invariant
            forall|a: usize, b: usize| #[trigger] same_position.requires((a, b)),
            i <= count,
            classes@.len() == i,
            forall|k: int|
                0 <= k < reps@.len() ==> #[trigger] reps@[k] < i && classes@[reps@[k] as int] == k,
            forall|k: int, l: int| 0 <= k < l < reps@.len() ==> #[trigger] reps@[k] < #[trigger] reps@[l],
            forall|v: int|
                0 <= v < i ==> {
                    let c = #[trigger] classes@[v] as int;
                    &&& c < reps@.len()
                    &&& reps@[c] <= v
                    &&& forall|k: int| 0 <= k < c ==> same_position.ensures((reps@[k], v as usize), false)
                    &&& reps@[c] < v ==> same_position.ensures((reps@[c], v as usize), true)
                },
        decreases count - i,
    {
        let mut k: usize = 0;
        let mut found = false;
        while k < reps.len()
            invariant_except_break
                forall|a: usize, b: usize| #[trigger] same_position.requires((a, b)),
                k <= reps.len(),
                !found,
                forall|j: int| 0 <= j < k ==> same_position.ensures((reps@[j], i), false),
            ensures
                k <= reps.len(),
                forall|j: int| 0 <= j < k ==> same_position.ensures((reps@[j], i), false),
                found ==> k < reps.len() && same_position.ensures((reps@[k as int], i), true),
                !found ==> k == reps.len(),
            decreases reps.len() - k,
        {
            let hit = same_position(reps[k], i);
            if hit {
                found = true;
                break;
            }
            k = k + 1;
        }
        if found {
            classes.push(k);
            assert(reps@[k as int] < i);
        } else {
            classes.push(reps.len());
            reps.push(i);
        }
        i = i + 1;
    }
    ColorClasses { classes, representatives: reps }
}

} // verus!
