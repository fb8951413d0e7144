//! The passes that paint a frame: the map seen from above, the viewer's
//! marker, the rays and the wall slices of the first-person view.

use vstd::prelude::*;
use crate::framebuffer::{draw_rect, lemma_fill_rect_off_canvas, Canvas, Framebuffer};
use crate::layout::{column_of, lemma_cell_of_index, row_of};
use crate::map::{GameMap, Grid, Tile};
use crate::raycast::{as_place, cast_ray, first_hit, Sample};
use crate::projector::{
    lemma_tile_of_pixel, lemma_tiles_fit, tile_height, tile_px_dimensions, tile_width, ViewSplit,
};

verus! {

/// The colour of an empty canvas: opaque white.
pub const BACKGROUND_COLOR: u32 = 0xFFFFFFFF;

/// The colour of walls, seen from above or from the front: opaque black.
pub const WALL_COLOR: u32 = 0x000000FF;

/// The colour of the viewer's marker.
pub const MARKER_COLOR: u32 = 0x5555FFFF;

/// The colour of the points that a ray passes through.
pub const RAY_COLOR: u32 = 0xFF000000;

/// Whether pixel `(px, py)` lies on a wall of the map, where one tile is
/// drawn `tile_w` wide and `tile_h` high and the map's first tile starts at
/// the canvas's top-left corner.
pub open spec fn on_wall_tile(grid: Grid, tile_w: nat, tile_h: nat, px: int, py: int) -> bool {
    &&& tile_w > 0
    &&& tile_h > 0
    &&& grid.contains(px / (tile_w as int), py / (tile_h as int))
    &&& grid.tile(px / (tile_w as int), py / (tile_h as int)) == Tile::Wall
}

/// The canvas with the map drawn on it from above: every pixel on a wall
/// tile in the wall colour, every other pixel as it was.
pub open spec fn tiled(canvas: Canvas, grid: Grid, split: ViewSplit) -> Canvas {
    let tile_w = tile_width(canvas.width, grid.width, split);
    let tile_h = tile_height(canvas.height, grid.height);
    Canvas {
        width: canvas.width,
        height: canvas.height,
        pixels: Seq::new(
            canvas.pixels.len(),
            |i: int|
                if on_wall_tile(
                    grid,
                    tile_w,
                    tile_h,
                    column_of(i, canvas.width),
                    row_of(i, canvas.width),
                ) {
                    WALL_COLOR
                } else {
                    canvas.pixels[i]
                },
        ),
    }
}

/// Whether tile `(x, y)` comes before tile `(next_x, next_y)` where the
/// tiles are taken row by row.
pub open spec fn tile_done(x: int, y: int, next_x: int, next_y: int) -> bool {
    y < next_y || (y == next_y && x < next_x)
}

/// The `i`-th pixel of a canvas once the wall tiles that come before tile
/// `(next_x, next_y)` are drawn on it.
pub open spec fn tile_pixel(
    before: Canvas,
    grid: Grid,
    tile_w: nat,
    tile_h: nat,
    next_x: int,
    next_y: int,
    i: int,
) -> u32 {
    let px = column_of(i, before.width);
    let py = row_of(i, before.width);
    if on_wall_tile(grid, tile_w, tile_h, px, py) && tile_done(
        px / (tile_w as int),
        py / (tile_h as int),
        next_x,
        next_y,
    ) {
        WALL_COLOR
    } else {
        before.pixels[i]
    }
}

/// Whether `now` is the canvas `before` with the wall tiles drawn on it that
/// come before tile `(next_x, next_y)`.
pub open spec fn tiled_up_to(
    before: Canvas,
    now: Canvas,
    grid: Grid,
    tile_w: nat,
    tile_h: nat,
    next_x: int,
    next_y: int,
) -> bool {
    &&& now.width == before.width
    &&& now.height == before.height
    &&& now.pixels.len() == before.pixels.len()
    &&& forall|i: int|
        0 <= i < before.pixels.len() ==> #[trigger] now.pixels[i] == tile_pixel(
            before,
            grid,
            tile_w,
            tile_h,
            next_x,
            next_y,
            i,
        )
}

/// Draws every wall tile of the map as a filled rectangle, the map's first
/// tile at the canvas's top-left corner.
pub fn draw_tiles(buffer: &mut Framebuffer, map: &GameMap, split: ViewSplit)
    ensures
        final(buffer)@ == tiled(old(buffer)@, map@, split),
{
    proof {
        use_type_invariant(&*buffer);
        use_type_invariant(map);
    }
    let ghost before = buffer@;
    let ghost grid = map@;
    let map_w: usize = map.width();
    let map_h: usize = map.height();
    if map_w == 0 || map_h == 0 {
        assert(before.pixels =~= tiled(before, grid, split).pixels);
        return ;
    }
    let (tile_w, tile_h) = tile_px_dimensions(buffer.width(), buffer.height(), map_w, map_h, split);
    if tile_w == 0 || tile_h == 0 {
        assert(before.pixels =~= tiled(before, grid, split).pixels);
        return ;
    }
    proof {
        lemma_tiles_fit(before.width, before.height, grid.width, grid.height, split);
    }
    let mut y: usize = 0;
    while y < map_h
        invariant
            before.wf(),
            grid == map@,
            grid.wf(),
            map_w == grid.width,
            map_h == grid.height,
            tile_w > 0,
            tile_h > 0,
            tile_w * map_w <= before.width <= usize::MAX,
            tile_h * map_h <= before.height <= usize::MAX,
            y <= map_h,
            tiled_up_to(before, buffer@, grid, tile_w as nat, tile_h as nat, 0, y as int),
        decreases map_h - y,
    {
        let mut x: usize = 0;
        while x < map_w
            invariant
                before.wf(),
                grid == map@,
                grid.wf(),
                map_w == grid.width,
                map_h == grid.height,
                tile_w > 0,
                tile_h > 0,
                tile_w * map_w <= before.width <= usize::MAX,
                tile_h * map_h <= before.height <= usize::MAX,
                y < map_h,
                x <= map_w,
                tiled_up_to(before, buffer@, grid, tile_w as nat, tile_h as nat, x as int, y as int),
            decreases map_w - x,
        {
            proof {
                assert(0 <= x * tile_w <= tile_w * map_w && 0 <= y * tile_h <= tile_h * map_h)
                    by (nonlinear_arith)
                    requires
                        0 <= x < map_w,
                        0 <= y < map_h,
                        0 < tile_w,
                        0 < tile_h,
                ;
            }
            match map.tile_at(x, y) {
                Ok(Tile::Wall) => {
                    draw_rect(buffer, x * tile_w, y * tile_h, tile_w, tile_h, WALL_COLOR);
                },
                _ => {},
            }
            proof {
                assert forall|i: int| 0 <= i < before.pixels.len() implies #[trigger] buffer@.pixels[i]
                    == tile_pixel(before, grid, tile_w as nat, tile_h as nat, x + 1, y as int, i) by {
                    lemma_cell_of_index(i, before.width, before.height);
                    lemma_tile_of_pixel(column_of(i, before.width), tile_w as int, x as int);
                    lemma_tile_of_pixel(row_of(i, before.width), tile_h as int, y as int);
                }
            }
            x += 1;
        }
        y += 1;
    }
    assert(buffer@.pixels =~= tiled(before, grid, split).pixels);
}

/// Where the viewer stands on the top-down view, and how large the square
/// that marks the place is, in pixels.
#[derive(Clone, Copy, Debug)]
pub struct Marker {
    pub x: usize,
    pub y: usize,
    pub size: usize,
}

/// The row in which a wall slice of the given height starts, so that it
/// stands in the middle of the canvas; row 0 for one that is as high as the
/// canvas or higher.
pub open spec fn slice_top(canvas_height: nat, wall_height: nat) -> nat {
    if wall_height >= canvas_height {
        0
    } else {
        ((canvas_height - wall_height) / 2) as nat
    }
}

/// The canvas with the wall slice of one ray drawn on it: one pixel wide,
/// `wall_height` high, in the middle of the canvas from top to bottom, in
/// the right half of the canvas at the ray's column.
pub open spec fn with_slice(canvas: Canvas, column: int, wall_height: nat) -> Canvas {
    canvas.fill_rect(
        canvas.width / 2 + column,
        slice_top(canvas.height, wall_height) as int,
        1,
        wall_height as int,
        WALL_COLOR,
    )
}

/// The canvas with the first `upto` points of a ray plotted on the top-down
/// view.
pub open spec fn with_trail(canvas: Canvas, ray: Seq<Sample>, upto: int) -> Canvas
    decreases upto,
{
    if upto <= 0 {
        canvas
    } else {
        with_trail(canvas, ray, upto - 1).set_pixel(
            ray[upto - 1].pixel_x as int,
            ray[upto - 1].pixel_y as int,
            RAY_COLOR,
        )
    }
}

/// The canvas with one ray drawn on it: the points that the ray passes
/// through before it stops, and the slice of the wall that stops it. A ray
/// that stops nowhere leaves its points and no slice.
pub open spec fn with_column(canvas: Canvas, grid: Grid, column: int, ray: Seq<Sample>) -> Canvas {
    match first_hit(grid, ray) {
        Some(k) => with_slice(with_trail(canvas, ray, k), column, ray[k].wall_height as nat),
        None => with_trail(canvas, ray, ray.len() as int),
    }
}

/// The canvas with the first `upto` rays drawn on it, first column first.
pub open spec fn with_columns(canvas: Canvas, grid: Grid, rays: Seq<Vec<Sample>>, upto: int) -> Canvas
    decreases upto,
{
    if upto <= 0 {
        canvas
    } else {
        with_column(with_columns(canvas, grid, rays, upto - 1), grid, upto - 1, rays[upto - 1]@)
    }
}

/// The canvas with the viewer's marker drawn on it.
pub open spec fn with_marker(canvas: Canvas, marker: Marker) -> Canvas {
    canvas.fill_rect(
        marker.x as int,
        marker.y as int,
        marker.size as int,
        marker.size as int,
        MARKER_COLOR,
    )
}

/// One whole frame: the background, on it the map seen from above in the
/// left half, on that the viewer's marker, and on that the rays, each with
/// its wall slice in the right half.
pub open spec fn frame(canvas: Canvas, grid: Grid, marker: Marker, rays: Seq<Vec<Sample>>) -> Canvas {
    with_columns(
        with_marker(tiled(canvas.fill(BACKGROUND_COLOR), grid, ViewSplit::Half), marker),
        grid,
        rays,
        rays.len() as int,
    )
}

/// A frame that shows the map from above and nothing else: the background,
/// on it the map over the whole canvas, and on that the viewer's marker.
pub open spec fn map_frame(canvas: Canvas, grid: Grid, marker: Marker) -> Canvas {
    with_marker(tiled(canvas.fill(BACKGROUND_COLOR), grid, ViewSplit::Full), marker)
}

/// Draws the wall slice of the ray of the given column.
pub fn draw_wall_slice(buffer: &mut Framebuffer, column: usize, wall_height: usize)
    ensures
        final(buffer)@ == with_slice(old(buffer)@, column as int, wall_height as nat),
{
    proof {
        use_type_invariant(&*buffer);
    }
    let width: usize = buffer.width();
    let height: usize = buffer.height();
    let half: usize = width / 2;
    if column >= width - half {
        proof {
            lemma_fill_rect_off_canvas(
                buffer@,
                half + column,
                slice_top(height as nat, wall_height as nat) as int,
                1,
                wall_height as int,
                WALL_COLOR,
            );
        }
        return ;
    }
    let top: usize = if wall_height >= height {
        0
    } else {
        (height - wall_height) / 2
    };
    draw_rect(buffer, half + column, top, 1, wall_height, WALL_COLOR);
}

/// Draws the viewer's marker: a filled square.
pub fn draw_marker(buffer: &mut Framebuffer, marker: &Marker)
    ensures
        final(buffer)@ == with_marker(old(buffer)@, *marker),
{
    draw_rect(buffer, marker.x, marker.y, marker.size, marker.size, MARKER_COLOR);
}

/// Casts one ray and draws it: its points on the top-down view up to the
/// one at which it stops, and there its wall slice. Returns the place at
/// which the ray stops.
pub fn draw_column(buffer: &mut Framebuffer, map: &GameMap, column: usize, ray: &Vec<Sample>) -> (hit:
    Option<usize>)
    ensures
        final(buffer)@ == with_column(old(buffer)@, map@, column as int, ray@),
        as_place(hit) == first_hit(map@, ray@),
{
    let hit = cast_ray(map, ray);
    let end: usize = match hit {
        Some(k) => k,
        None => ray.len(),
    };
    let ghost before = buffer@;
    let mut i: usize = 0;
    while i < end
        invariant
            i <= end <= ray.len(),
            buffer@ == with_trail(before, ray@, i as int),
        decreases end - i,
    {
        buffer.set_pixel(ray[i].pixel_x, ray[i].pixel_y, RAY_COLOR);
        i += 1;
    }
    match hit {
        Some(k) => {
            draw_wall_slice(buffer, column, ray[k].wall_height);
        },
        None => {},
    }
    hit
}

/// Paints one whole frame.
pub fn render_frame(
    buffer: &mut Framebuffer,
    map: &GameMap,
    marker: &Marker,
    rays: &Vec<Vec<Sample>>,
)
    ensures
        final(buffer)@ == frame(old(buffer)@, map@, *marker, rays@),
{
    buffer.fill(BACKGROUND_COLOR);
    draw_tiles(buffer, map, ViewSplit::Half);
    draw_marker(buffer, marker);
    let ghost marked = buffer@;
    let n: usize = rays.len();
    let mut i: usize = 0;
    while i < n
        invariant
            i <= n == rays.len(),
            buffer@ == with_columns(marked, map@, rays@, i as int),
        decreases n - i,
    {
        draw_column(buffer, map, i, &rays[i]);
        i += 1;
    }
}

/// Paints a frame that shows the map from above and nothing else.
pub fn render_map(buffer: &mut Framebuffer, map: &GameMap, marker: &Marker)
    ensures
        final(buffer)@ == map_frame(old(buffer)@, map@, *marker),
{
    buffer.fill(BACKGROUND_COLOR);
    draw_tiles(buffer, map, ViewSplit::Full);
    draw_marker(buffer, marker);
}

} // verus!
