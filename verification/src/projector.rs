//! From tile space to pixel space: how large a tile of the map is drawn on
//! a canvas.

use vstd::prelude::*;
use vstd::arithmetic::div_mod::{lemma_fundamental_div_mod, lemma_fundamental_div_mod_converse};

verus! {

/// How much of the canvas the top-down view of the map takes.
#[derive(Clone, Copy, PartialEq, Eq, Debug, Structural)]
pub enum ViewSplit {
    /// The whole canvas.
    Full,
    /// The left half; the right half shows the first-person view.
    Half,
}

/// The width in pixels that the top-down view takes of a canvas.
pub open spec fn map_view_width(canvas_width: nat, split: ViewSplit) -> nat {
    match split {
        ViewSplit::Full => canvas_width,
        ViewSplit::Half => canvas_width / 2,
    }
}

/// The width in pixels of one tile; 0 for a map without columns.
pub open spec fn tile_width(canvas_width: nat, map_width: nat, split: ViewSplit) -> nat {
    if map_width == 0 {
        0
    } else {
        map_view_width(canvas_width, split) / map_width
    }
}

/// The height in pixels of one tile; 0 for a map without rows.
pub open spec fn tile_height(canvas_height: nat, map_height: nat) -> nat {
    if map_height == 0 {
        0
    } else {
        canvas_height / map_height
    }
}

/// The tiles of one row, side by side, are no wider than the view they are
/// drawn in; the tiles of one column are no higher than the canvas.
pub proof fn lemma_tiles_fit(
    canvas_width: nat,
    canvas_height: nat,
    map_width: nat,
    map_height: nat,
    split: ViewSplit,
)
    ensures
        tile_width(canvas_width, map_width, split) * map_width <= map_view_width(
            canvas_width,
            split,
        ) <= canvas_width,
        tile_height(canvas_height, map_height) * map_height <= canvas_height,
{
    let view = map_view_width(canvas_width, split) as int;
    if map_width > 0 {
        lemma_fundamental_div_mod(view, map_width as int);
        assert((view / (map_width as int)) * map_width == map_width * (view / (map_width as int)))
            by (nonlinear_arith);
    }
    if map_height > 0 {
        lemma_fundamental_div_mod(canvas_height as int, map_height as int);
        assert(((canvas_height as int) / (map_height as int)) * map_height == map_height * ((
        canvas_height as int) / (map_height as int))) by (nonlinear_arith);
    }
}

/// A pixel lies in the `k`-th tile of its row exactly if its coordinate,
/// divided by the tile's size, gives `k`.
pub proof fn lemma_tile_of_pixel(p: int, size: int, k: int)
    requires
        0 <= p,
        0 < size,
        0 <= k,
    ensures
        (k * size <= p < k * size + size) <==> p / size == k,
{
    if k * size <= p < k * size + size {
        lemma_fundamental_div_mod_converse(p, size, k, p - k * size);
    }
    if p / size == k {
        lemma_fundamental_div_mod(p, size);
        assert(size * k == k * size) by (nonlinear_arith);
    }
}

/// The size in pixels of one tile of a `map_width` by `map_height` map that
/// is drawn on a canvas of the given size.
pub fn tile_px_dimensions(
    canvas_width: usize,
    canvas_height: usize,
    map_width: usize,
    map_height: usize,
    split: ViewSplit,
) -> (size: (usize, usize))
    requires
        map_width > 0,
        map_height > 0,
    ensures
        size.0 == tile_width(canvas_width as nat, map_width as nat, split),
        size.1 == tile_height(canvas_height as nat, map_height as nat),
{
    let view: usize = match split {
        ViewSplit::Full => canvas_width,
        ViewSplit::Half => canvas_width / 2,
    };
    (view / map_width, canvas_height / map_height)
}

} // verus!
