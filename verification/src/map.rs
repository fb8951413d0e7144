//! The tile map: a grid of wall and floor cells that is loaded once from
//! its description and only read afterwards.

use vstd::prelude::*;
use crate::description::{
    characters, column_at, find_line_end, grid_rows, height_line, parse_size, row_at, size,
    width_line,
};
use crate::layout::{in_grid, index_of, lemma_index_of_cell};

verus! {

/// One cell of the grid.
#[derive(Clone, Copy, PartialEq, Eq, Debug, Structural)]
pub enum Tile {
    /// Stops a ray.
    Wall,
    /// Lets a ray pass.
    Floor,
}

/// Why a map could not be loaded, or a cell not be read.
#[derive(Clone, Copy, PartialEq, Eq, Debug, Structural)]
pub enum MapError {
    /// The first line of the description holds no width.
    Width,
    /// The second line of the description holds no height.
    Height,
    /// The grid would have more cells than a `usize` can count.
    TooLarge,
    /// The description puts a wall where the grid has no cell.
    WallOutsideGrid,
    /// The coordinates name no cell of the grid.
    OutOfBounds,
}

/// What a map holds: its size in cells and the cells, row by row.
pub struct Grid {
    pub width: nat,
    pub height: nat,
    pub tiles: Seq<Tile>,
}

impl Grid {
    /// There is exactly one tile for each cell of the grid.
    pub open spec fn wf(self) -> bool {
        self.tiles.len() == self.width * self.height
    }

    /// Whether `(x, y)` is a cell of the grid.
    pub open spec fn contains(self, x: int, y: int) -> bool {
        in_grid(x, y, self.width, self.height)
    }

    /// The tile of cell `(x, y)`.
    pub open spec fn tile(self, x: int, y: int) -> Tile
        recommends
            self.contains(x, y),
    {
        self.tiles[index_of(x, y, self.width)]
    }

    /// Whether a ray stops at cell `(x, y)`: at every wall, and everywhere
    /// off the grid, which so has a wall all around it.
    pub open spec fn blocks(self, x: int, y: int) -> bool {
        !self.contains(x, y) || self.tile(x, y) == Tile::Wall
    }
}

/// The place in the grid that the character at place `p` of `rows` speaks
/// of. A row longer than the grid is wide runs on into the next row.
pub open spec fn cell_written(rows: Seq<char>, width: nat, p: int) -> int {
    (column_at(rows, p) + row_at(rows, p) * width) as int
}

/// Whether one of the first `upto` characters of `rows` puts a wall at place
/// `cell` of the grid.
pub open spec fn wall_written(rows: Seq<char>, width: nat, cell: int, upto: int) -> bool {
    exists|p: int| 0 <= p < upto && rows[p] == '#' && #[trigger] cell_written(rows, width, p) == cell
}

/// Whether one of the first `upto` characters of `rows` puts a wall at a
/// place that a grid of `cells` cells does not have.
pub open spec fn wall_misplaced(rows: Seq<char>, width: nat, cells: nat, upto: int) -> bool {
    exists|p: int| 0 <= p < upto && rows[p] == '#' && #[trigger] cell_written(rows, width, p) >= cells
}

/// The grid that a description stands for, or why it stands for none.
///
/// The first line holds the width and the second the height. Each line
/// after them is a row, top row first: `#` is a wall, any other character is
/// floor, and so is every cell that no character speaks of.
pub open spec fn described(text: Seq<char>) -> Result<Grid, MapError> {
    let rows = grid_rows(text);
    match (size(width_line(text)), size(height_line(text))) {
        (None, _) => Err(MapError::Width),
        (Some(_), None) => Err(MapError::Height),
        (Some(width), Some(height)) => if width * height > usize::MAX {
            Err(MapError::TooLarge)
        } else if wall_misplaced(
            rows,
            width as nat,
            (width * height) as nat,
            rows.len() as int,
        ) {
            Err(MapError::WallOutsideGrid)
        } else {
            Ok(
                Grid {
                    width: width as nat,
                    height: height as nat,
                    tiles: Seq::new(
                        (width * height) as nat,
                        |cell: int|
                            if wall_written(rows, width as nat, cell, rows.len() as int) {
                                Tile::Wall
                            } else {
                                Tile::Floor
                            },
                    ),
                },
            )
        },
    }
}

/// A grid of wall and floor cells.
pub struct GameMap {
    width: usize,
    height: usize,
    tiles: Vec<Tile>,
}

impl View for GameMap {
    type V = Grid;

    closed spec fn view(&self) -> Grid {
        Grid { width: self.width as nat, height: self.height as nat, tiles: self.tiles@ }
    }
}

impl GameMap {
    /// Holds of every map there is.
    #[verifier::type_invariant]
    pub open spec fn inv(self) -> bool {
        self@.wf()
    }

    /// Loads the map that `text` describes.
    pub fn new(text: &str) -> (loaded: Result<GameMap, MapError>)
        ensures
            match loaded {
                Ok(map) => described(text@) == Ok::<Grid, MapError>(map@),
                Err(e) => described(text@) == Err::<Grid, MapError>(e),
            },
    {
        let chars = characters(text);
        let n: usize = chars.len();
        let width_end: usize = find_line_end(&chars, 0);
        let width_found = parse_size(vstd::slice::slice_subrange(chars.as_slice(), 0, width_end));
        let height_start: usize = if width_end < n {
            width_end + 1
        } else {
            width_end
        };
        let height_end: usize = find_line_end(&chars, height_start);
        let height_found = parse_size(
            vstd::slice::slice_subrange(chars.as_slice(), height_start, height_end),
        );
        let rows_start: usize = if height_end < n {
            height_end + 1
        } else {
            height_end
        };
        let width: usize = match width_found {
            Some(w) => w,
            None => {
                return Err(MapError::Width);
            },
        };
        let height: usize = match height_found {
            Some(h) => h,
            None => {
                return Err(MapError::Height);
            },
        };
        let cells: usize = match width.checked_mul(height) {
            Some(c) => c,
            None => {
                return Err(MapError::TooLarge);
            },
        };
        let ghost rows = grid_rows(text@);
        assert(rows =~= chars@.skip(rows_start as int));
        let mut tiles: Vec<Tile> = vec![Tile::Floor; cells];
        let mut x: usize = 0;
        let mut y: usize = 0;
        let mut p: usize = rows_start;
        while p < n
            invariant
                rows_start <= p <= n == chars.len(),
                rows == chars@.skip(rows_start as int),
                rows == grid_rows(text@),
                size(width_line(text@)) == Some(width),
                size(height_line(text@)) == Some(height),
                cells == width * height,
                tiles@.len() == cells,
                x == column_at(rows, p - rows_start),
                y == row_at(rows, p - rows_start),
                x <= p - rows_start,
                y <= p - rows_start,
                !wall_misplaced(rows, width as nat, cells as nat, p - rows_start),
                forall|cell: int|
                    0 <= cell < cells ==> #[trigger] tiles@[cell] == if wall_written(
                        rows,
                        width as nat,
                        cell,
                        p - rows_start,
                    ) {
                        Tile::Wall
                    } else {
                        Tile::Floor
                    },
            decreases n - p,
        {
            let c: char = chars[p];
            let ghost q = p - rows_start;
            assert(rows[q] == c);
            if c == '\n' {
                y += 1;
                x = 0;
            } else {
                if c == '#' {
                    assert(cell_written(rows, width as nat, q) == x + y * width);
                    if y >= height {
                        proof {
                            assert(y * width >= width * height) by (nonlinear_arith)
                                requires
                                    y >= height,
                                    width >= 0,
                            ;
                            assert(wall_misplaced(rows, width as nat, cells as nat, rows.len() as int));
                        }
                        return Err(MapError::WallOutsideGrid);
                    }
                    proof {
                        assert(0 <= y * width && y * width + width <= width * height)
                            by (nonlinear_arith)
                            requires
                                0 <= y < height,
                                width >= 0,
                        ;
                    }
                    if x >= cells - y * width {
                        proof {
                            assert(wall_misplaced(rows, width as nat, cells as nat, rows.len() as int));
                        }
                        return Err(MapError::WallOutsideGrid);
                    }
                    tiles[x + y * width] = Tile::Wall;
                }
                x += 1;
            }
            p += 1;
        }
        let map = GameMap { width, height, tiles };
        proof {
            assert(map@.tiles =~= described(text@).unwrap().tiles);
        }
        Ok(map)
    }

    /// The width in cells.
    pub fn width(&self) -> (w: usize)
        ensures
            w == self@.width,
    {
        self.width
    }

    /// The height in cells.
    pub fn height(&self) -> (h: usize)
        ensures
            h == self@.height,
    {
        self.height
    }

    /// The tile of cell `(x, y)`.
    pub fn tile_at(&self, x: usize, y: usize) -> (found: Result<Tile, MapError>)
        ensures
            found == if self@.contains(x as int, y as int) {
                Ok::<Tile, MapError>(self@.tile(x as int, y as int))
            } else {
                Err::<Tile, MapError>(MapError::OutOfBounds)
            },
    {
        proof {
            use_type_invariant(self);
        }
        if x < self.width && y < self.height {
            proof {
                lemma_index_of_cell(x as int, y as int, self.width as nat, self.height as nat);
                assert(self.tiles@.len() == self.tiles.len());
                assert(0 <= y * self.width) by (nonlinear_arith)
                    requires
                        0 <= y,
                        0 <= self.width,
                ;
            }
            Ok(self.tiles[x + y * self.width])
        } else {
            Err(MapError::OutOfBounds)
        }
    }

    /// Whether a ray stops at cell `(x, y)`. Cells off the grid stop it
    /// too, so that every ray comes to an end.
    pub fn is_blocking(&self, x: i64, y: i64) -> (blocked: bool)
        ensures
            blocked == self@.blocks(x as int, y as int),
            !self@.contains(x as int, y as int) ==> blocked,
    {
        if x < 0 || y < 0 || x as u64 >= self.width as u64 || y as u64 >= self.height as u64 {
            return true;
        }
        match self.tile_at(x as usize, y as usize) {
            Ok(Tile::Wall) => true,
            _ => false,
        }
    }
}

/// The tile that a character of a row stands for.
pub open spec fn tile_for(c: char) -> Tile {
    if c == '#' {
        Tile::Wall
    } else {
        Tile::Floor
    }
}

/// Whether a description is sound: both header lines hold a size, the grid
/// has no more cells than a `usize` can count, and every wall is written
/// within the width of its row and within the height of the grid.
pub open spec fn sound(text: Seq<char>) -> bool {
    let rows = grid_rows(text);
    &&& size(width_line(text)) is Some
    &&& size(height_line(text)) is Some
    &&& size(width_line(text))->0 * size(height_line(text))->0 <= usize::MAX
    &&& forall|p: int|
        0 <= p < rows.len() && #[trigger] rows[p] == '#' ==> column_at(rows, p) < size(
            width_line(text),
        )->0 && row_at(rows, p) < size(height_line(text))->0
}

/// A character that stands later in the text stands in a later row, or in
/// the same row as many columns further as it stands later.
pub proof fn lemma_places_in_order(rows: Seq<char>, p: int, q: int)
    requires
        0 <= p <= q,
    ensures
        row_at(rows, p) < row_at(rows, q) || (row_at(rows, p) == row_at(rows, q) && column_at(
            rows,
            q,
        ) == column_at(rows, p) + (q - p)),
    decreases q - p,
{
    if p < q {
        lemma_places_in_order(rows, p, q - 1);
    }
}

/// A sound description is loaded, with the size that its header gives.
pub proof fn lemma_sound_description_loads(text: Seq<char>)
    requires
        sound(text),
    ensures
        described(text) is Ok,
        described(text)->Ok_0.wf(),
        described(text)->Ok_0.width == size(width_line(text))->0,
        described(text)->Ok_0.height == size(height_line(text))->0,
{
    let rows = grid_rows(text);
    let width = size(width_line(text))->0 as nat;
    let height = size(height_line(text))->0 as nat;
    assert forall|p: int| 0 <= p < rows.len() && rows[p] == '#' implies cell_written(
        rows,
        width,
        p,
    ) < width * height by {
        lemma_index_of_cell(column_at(rows, p) as int, row_at(rows, p) as int, width, height);
    }
}

/// In the map of a sound description each cell shows what is written for
/// it: a wall for `#`, floor for `_` and for any other character.
pub proof fn lemma_tiles_follow_source(text: Seq<char>, p: int)
    requires
        sound(text),
        0 <= p < grid_rows(text).len(),
        grid_rows(text)[p] != '\n',
        column_at(grid_rows(text), p) < size(width_line(text))->0,
        row_at(grid_rows(text), p) < size(height_line(text))->0,
    ensures
        described(text) is Ok,
        described(text)->Ok_0.contains(
            column_at(grid_rows(text), p) as int,
            row_at(grid_rows(text), p) as int,
        ),
        described(text)->Ok_0.tile(
            column_at(grid_rows(text), p) as int,
            row_at(grid_rows(text), p) as int,
        ) == tile_for(grid_rows(text)[p]),
{
    lemma_sound_description_loads(text);
    let rows = grid_rows(text);
    let width = size(width_line(text))->0 as nat;
    let height = size(height_line(text))->0 as nat;
    let x = column_at(rows, p) as int;
    let y = row_at(rows, p) as int;
    lemma_index_of_cell(x, y, width, height);
    let cell = index_of(x, y, width);
    assert(cell == cell_written(rows, width, p));
    if wall_written(rows, width, cell, rows.len() as int) {
        let q = choose|q: int|
            0 <= q < rows.len() && rows[q] == '#' && #[trigger] cell_written(rows, width, q)
                == cell;
        lemma_index_of_cell(column_at(rows, q) as int, row_at(rows, q) as int, width, height);
        if p < q {
            lemma_places_in_order(rows, p, q);
        }
        if q < p {
            lemma_places_in_order(rows, q, p);
        }
        assert(q == p);
    }
}

/// In the map of a sound description a cell for which nothing is written
/// is floor.
pub proof fn lemma_unwritten_cells_are_floor(text: Seq<char>, x: int, y: int)
    requires
        sound(text),
        0 <= x < size(width_line(text))->0,
        0 <= y < size(height_line(text))->0,
        forall|p: int|
            0 <= p < grid_rows(text).len() && #[trigger] grid_rows(text)[p] != '\n' ==> !(
            column_at(grid_rows(text), p) == x && row_at(grid_rows(text), p) == y),
    ensures
        described(text) is Ok,
        described(text)->Ok_0.tile(x, y) == Tile::Floor,
{
    lemma_sound_description_loads(text);
    let rows = grid_rows(text);
    let width = size(width_line(text))->0 as nat;
    let height = size(height_line(text))->0 as nat;
    lemma_index_of_cell(x, y, width, height);
    let cell = index_of(x, y, width);
    if wall_written(rows, width, cell, rows.len() as int) {
        let q = choose|q: int|
            0 <= q < rows.len() && rows[q] == '#' && #[trigger] cell_written(rows, width, q)
                == cell;
        lemma_index_of_cell(column_at(rows, q) as int, row_at(rows, q) as int, width, height);
        assert(rows[q] != '\n');
    }
}

} // verus!
