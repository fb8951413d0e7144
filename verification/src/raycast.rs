//! The ray caster: which of the points along a ray is the first to lie in a
//! cell that stops the ray.

use vstd::prelude::*;
use crate::map::{GameMap, Grid};

verus! {

/// One point along a ray, as it is seen in each coordinate space: the cell
/// of the map that holds it, the pixel that shows it on the top-down view,
/// and the height on screen of a wall that stands at its distance.
#[derive(Clone, Copy, Debug)]
pub struct Sample {
    pub cell_x: i64,
    pub cell_y: i64,
    pub pixel_x: usize,
    pub pixel_y: usize,
    pub wall_height: usize,
}

/// Whether a ray stops at this point.
pub open spec fn stops(grid: Grid, sample: Sample) -> bool {
    grid.blocks(sample.cell_x as int, sample.cell_y as int)
}

/// Whether the ray stops at its `k`-th point and at none before it.
pub open spec fn is_first_hit(grid: Grid, ray: Seq<Sample>, k: int) -> bool {
    &&& 0 <= k < ray.len()
    &&& stops(grid, ray[k])
    &&& forall|j: int| 0 <= j < k ==> !stops(grid, #[trigger] ray[j])
}

/// The place of the first point at which the ray stops; `None` for a ray
/// that stops nowhere.
pub open spec fn first_hit(grid: Grid, ray: Seq<Sample>) -> Option<int> {
    if exists|k: int| is_first_hit(grid, ray, k) {
        Some(choose|k: int| is_first_hit(grid, ray, k))
    } else {
        None
    }
}

/// A place in a ray as a number.
pub open spec fn as_place(hit: Option<usize>) -> Option<int> {
    match hit {
        Some(k) => Some(k as int),
        None => None,
    }
}

/// Whether `hits` holds, ray by ray, the place at which each ray stops.
pub open spec fn scanned(grid: Grid, rays: Seq<Vec<Sample>>, hits: Seq<Option<usize>>) -> bool {
    &&& hits.len() == rays.len()
    &&& forall|i: int|
        0 <= i < rays.len() ==> as_place(#[trigger] hits[i]) == first_hit(grid, rays[i]@)
}

/// A ray has at most one first hit.
pub proof fn lemma_first_hit_unique(grid: Grid, ray: Seq<Sample>, a: int, b: int)
    requires
        is_first_hit(grid, ray, a),
        is_first_hit(grid, ray, b),
    ensures
        a == b,
{
    if a < b {
        assert(!stops(grid, ray[a]));
    }
    if b < a {
        assert(!stops(grid, ray[b]));
    }
}

/// A ray that stops at its `k`-th point has a first hit at or before it.
pub proof fn lemma_first_hit_exists(grid: Grid, ray: Seq<Sample>, k: int)
    requires
        0 <= k < ray.len(),
        stops(grid, ray[k]),
    ensures
        exists|first: int| 0 <= first <= k && is_first_hit(grid, ray, first),
    decreases k,
{
    if exists|j: int| 0 <= j < k && stops(grid, #[trigger] ray[j]) {
        let j = choose|j: int| 0 <= j < k && stops(grid, #[trigger] ray[j]);
        lemma_first_hit_exists(grid, ray, j);
    } else {
        assert(is_first_hit(grid, ray, k));
    }
}

/// What `first_hit` gives: the one place at which the ray stops without
/// having stopped before, or `None` for a ray that stops at none of its
/// points.
pub proof fn lemma_first_hit(grid: Grid, ray: Seq<Sample>)
    ensures
        match first_hit(grid, ray) {
            Some(k) => is_first_hit(grid, ray, k),
            None => forall|j: int| 0 <= j < ray.len() ==> !stops(grid, #[trigger] ray[j]),
        },
{
    if first_hit(grid, ray) is None {
        assert forall|j: int| 0 <= j < ray.len() implies !stops(grid, #[trigger] ray[j]) by {
            if stops(grid, ray[j]) {
                lemma_first_hit_exists(grid, ray, j);
            }
        }
    }
}

/// Marches along the ray and returns the place of the first point at which
/// it stops: a point in a wall, or one off the map. `None` means that the
/// ray runs out before it stops.
pub fn cast_ray(map: &GameMap, ray: &Vec<Sample>) -> (hit: Option<usize>)
    ensures
        as_place(hit) == first_hit(map@, ray@),
        hit matches Some(k) ==> is_first_hit(map@, ray@, k as int),
        hit is None ==> forall|j: int| 0 <= j < ray.len() ==> !stops(map@, #[trigger] ray[j]),
{
    let n: usize = ray.len();
    let mut i: usize = 0;
    while i < n
        invariant
            i <= n == ray.len(),
            forall|j: int| 0 <= j < i ==> !stops(map@, #[trigger] ray[j]),
        decreases n - i,
    {
        if map.is_blocking(ray[i].cell_x, ray[i].cell_y) {
            proof {
                assert(is_first_hit(map@, ray@, i as int));
                let chosen = choose|k: int| is_first_hit(map@, ray@, k);
                lemma_first_hit_unique(map@, ray@, i as int, chosen);
            }
            return Some(i);
        }
        i += 1;
    }
    None
}

/// Casts every ray of a scan, first column first.
pub fn cast_rays(map: &GameMap, rays: &Vec<Vec<Sample>>) -> (hits: Vec<Option<usize>>)
    ensures
        scanned(map@, rays@, hits@),
{
    let mut hits: Vec<Option<usize>> = Vec::new();
    let n: usize = rays.len();
    let mut i: usize = 0;
    while i < n
        invariant
            i <= n == rays.len(),
            hits@.len() == i,
            forall|j: int| 0 <= j < i ==> as_place(#[trigger] hits@[j]) == first_hit(map@, rays@[j]@),
        decreases n - i,
    {
        let hit = cast_ray(map, &rays[i]);
        hits.push(hit);
        i += 1;
    }
    hits
}

/// A scan finds the same places however often it is made: the map and the
/// rays decide every entry of its result.
pub proof fn lemma_scan_is_determined(
    grid: Grid,
    rays: Seq<Vec<Sample>>,
    first: Seq<Option<usize>>,
    second: Seq<Option<usize>>,
)
    requires
        scanned(grid, rays, first),
        scanned(grid, rays, second),
    ensures
        first == second,
{
    assert forall|i: int| 0 <= i < first.len() implies first[i] == second[i] by {
        assert(as_place(first[i]) == as_place(second[i]));
    }
    assert(first =~= second);
}

} // verus!
