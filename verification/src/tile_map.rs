//! The tile map: a rectangular grid of cells, and what stands at a position.
use crate::binary64::{lemma_below_multiple, unit, Binary64};
use crate::vec2::Vec2;
use crate::wall::Wall;
use vstd::arithmetic::div_mod::*;
use vstd::arithmetic::power2::*;
use vstd::prelude::*;

verus! {

/// Why a sequence of cell codes is not a map.
#[derive(Clone, Copy, Debug, PartialEq, Eq)]
pub enum MapError {
    /// The number of codes is not the width times the height.
    WrongLength,
    /// Some code is neither zero nor one.
    InvalidCell,
}

/// A grid of `width` columns and `height` rows of cells.
///
/// The cell of column `col` and row `row` is kept at place `col * height + row`.
pub struct TileMap {
    width: usize,
    height: usize,
    cells: Vec<Wall>,
}

impl TileMap {
    /// The grid is rectangular: it holds one cell for each column and row.
    #[verifier::type_invariant]
    pub closed spec fn wf(self) -> bool {
        self.cells@.len() == self.width * self.height
    }

    /// The number of columns.
    pub closed spec fn spec_width(&self) -> usize {
        self.width
    }

    /// The number of rows.
    pub closed spec fn spec_height(&self) -> usize {
        self.height
    }

    /// The cell of column `col` and row `row`.
    pub closed spec fn cell(self, col: int, row: int) -> Wall {
        self.cells@[col * self.height + row]
    }

    /// The position lies strictly inside the grid: `0 < x < width` and
    /// `0 < y < height`.
    pub open spec fn contains(self, position: Vec2) -> bool {
        position.x.within(self.width() as nat) && position.y.within(self.height() as nat)
    }

    /// What stands at a position: the cell that the whole parts of the
    /// coordinates name, and nothing outside the grid or on its border.
    pub open spec fn wall_at(self, position: Vec2) -> Wall {
        if self.contains(position) {
            self.cell(position.x.whole() as int, position.y.whole() as int)
        } else {
            Wall::Empty
        }
    }

    /// A wall stands at the position.
    pub open spec fn is_wall(self, position: Vec2) -> bool {
        self.wall_at(position) == Wall::Wall
    }

    /// No cell of the grid is a wall.
    pub open spec fn all_empty(self) -> bool {
        forall|col: int, row: int|
            0 <= col < self.width() && 0 <= row < self.height() ==> #[trigger] self.cell(col, row)
                == Wall::Empty
    }

    /// The codes are those of a map of `width` columns and `height` rows: there
    /// are `width * height` of them, each zero or one.
    pub open spec fn valid_cells(cells: Seq<Binary64>, width: usize, height: usize) -> bool {
        &&& cells.len() == width * height
        &&& forall|n: int| 0 <= n < cells.len() ==> Wall::of_code(#[trigger] cells[n]) is Some
    }

    /// The number of columns.
    #[verifier::when_used_as_spec(spec_width)]
    pub fn width(&self) -> (w: usize)
        ensures
            w == self.width(),
    {
        self.width
    }

    /// The number of rows.
    #[verifier::when_used_as_spec(spec_height)]
    pub fn height(&self) -> (h: usize)
        ensures
            h == self.height(),
    {
        self.height
    }

    /// Builds the map of `width` columns and `height` rows from its cell codes,
    /// column after column: the code at place `n` is that of column `n / height`
    /// and row `n % height`.
    ///
    /// There must be `width * height` codes, each of them zero or one.
    pub fn try_from_cells(cells: &Vec<Binary64>, width: usize, height: usize) -> (r: Result<
        TileMap,
        MapError,
    >)
        ensures
            r is Ok <==> TileMap::valid_cells(cells@, width, height),
            match r {
                Ok(map) => {
                    &&& map.wf()
                    &&& map.width() == width
                    &&& map.height() == height
                    &&& cells@.len() == width * height
                    &&& forall|n: int|
                        0 <= n < cells@.len() ==> Wall::of_code(#[trigger] cells@[n]) == Some(
                            map.cell(n / height as int, n % height as int),
                        )
                    &&& forall|col: int, row: int|
                        0 <= col < width && 0 <= row < height ==> Some(
                            #[trigger] map.cell(col, row),
                        ) == Wall::of_code(cells@[col * height + row])
                },
                Err(MapError::WrongLength) => cells@.len() != width * height,
                Err(MapError::InvalidCell) => {
                    &&& cells@.len() == width * height
                    &&& exists|n: int|
                        0 <= n < cells@.len() && Wall::of_code(#[trigger] cells@[n]) is None
                },
            },
    {
        assert(width * height <= u128::MAX) by (nonlinear_arith)
            requires
                width <= u64::MAX,
                height <= u64::MAX,
        ;
        let expected: u128 = (width as u128) * (height as u128);
        if cells.len() as u128 != expected {
            return Err(MapError::WrongLength);
        }
        let mut grid: Vec<Wall> = Vec::new();
        let mut n: usize = 0;
        while n < cells.len()
            invariant
                n <= cells@.len(),
                cells@.len() == width * height,
                grid@.len() == n,
                forall|i: int| 0 <= i < n ==> Wall::of_code(#[trigger] cells@[i]) == Some(grid@[i]),
            decreases cells@.len() - n,
        {
            match Wall::try_from(cells[n]) {
                Ok(wall) => {
                    grid.push(wall);
                },
                Err(_) => {
                    assert(Wall::of_code(cells@[n as int]) is None);
                    return Err(MapError::InvalidCell);
                },
            }
            n += 1;
        }
        let map = TileMap { width, height, cells: grid };
        proof {
            assert forall|col: int, row: int| 0 <= col < width && 0 <= row < height implies Some(
                #[trigger] map.cell(col, row),
            ) == Wall::of_code(cells@[col * height + row]) by {
                lemma_cell_place(col, row, width as int, height as int);
            }
            assert forall|n: int| 0 <= n < cells@.len() implies Wall::of_code(
                #[trigger] cells@[n],
            ) == Some(map.cell(n / height as int, n % height as int)) by {
                assert(height > 0) by (nonlinear_arith)
                    requires
                        0 <= n < width * height,
                ;
                lemma_fundamental_div_mod(n, height as int);
                assert((n / height as int) * height == height * (n / height as int))
                    by (nonlinear_arith);
            }
        }
        Ok(map)
    }

    /// What stands at a position.
    pub fn get_wall_at_position(&self, position: Vec2) -> (wall: Wall)
        ensures
            wall == self.wall_at(position),
    {
        proof {
            use_type_invariant(self);
        }
        match position.x.whole_part_within(self.width) {
            Some(col) => match position.y.whole_part_within(self.height) {
                Some(row) => {
                    proof {
                        lemma_cell_place(
                            col as int,
                            row as int,
                            self.width as int,
                            self.height as int,
                        );
                        assert(col * self.height + row < self.cells.len());
                    }
                    self.cells[col * self.height + row]
                },
                None => Wall::Empty,
            },
            None => Wall::Empty,
        }
    }

    /// Whether a wall stands at a position.
    pub fn is_wall_at_position(&self, position: Vec2) -> (b: bool)
        ensures
            b == self.is_wall(position),
    {
        match self.get_wall_at_position(position) {
            Wall::Wall => true,
            Wall::Empty => false,
        }
    }

    /// No position on the border of the grid or beyond it is a wall: not one with
    /// `x <= 0`, `x >= width`, `y <= 0` or `y >= height`.
    pub proof fn lemma_outside_is_not_wall(self, position: Vec2)
        requires
            self.wf(),
            position.x.scaled() <= 0 || position.x.scaled() >= self.width() * unit()
                || position.y.scaled() <= 0 || position.y.scaled() >= self.height() * unit(),
        ensures
            !self.is_wall(position),
            self.wall_at(position) == Wall::Empty,
    {
    }

    /// In a map without walls nothing stands anywhere.
    pub proof fn lemma_all_empty_has_no_wall(self, position: Vec2)
        requires
            self.wf(),
            self.all_empty(),
        ensures
            !self.is_wall(position),
            self.wall_at(position) == Wall::Empty,
    {
        if self.contains(position) {
            lemma_pow2_pos(1074);
            lemma_below_multiple(
                position.x.magnitude() as int,
                unit() as int,
                self.width() as int,
            );
            lemma_below_multiple(
                position.y.magnitude() as int,
                unit() as int,
                self.height() as int,
            );
            assert(self.cell(position.x.whole() as int, position.y.whole() as int) == Wall::Empty);
        }
    }
}

/// The place of a cell lies within the grid.
pub proof fn lemma_cell_place(col: int, row: int, width: int, height: int)
    by (nonlinear_arith)
    requires
        0 <= col < width,
        0 <= row < height,
    ensures
        0 <= col * height,
        0 <= col * height + row < width * height,
{
}

} // verus!
