//! The level grid: a rectangular map of cells with bounds-checked access.
//!
//! A grid is stored as a flat buffer of `Cell` values in row-major order;
//! the text form of a level (one string per row) is decoded once, when the
//! grid is built.

use vstd::prelude::*;
use vstd::string::StrSliceExecFns;

verus! {

/// One cell of the map. `Background` stands for every symbol that the
/// engine treats as non-traversable scenery (the `,` filler and any
/// unrecognised symbol).
#[derive(Clone, Copy, Debug, PartialEq, Eq, Structural)]
pub enum Cell {
    Wall,
    Floor,
    Background,
    Target,
    Box,
    BoxOnTarget,
    Player,
    PlayerOnTarget,
}

/// The structural errors a caller can see: bad level data, a level without
/// a player, or a cell write outside the grid.
#[derive(Clone, Copy, Debug, PartialEq, Eq, Structural)]
pub enum SokobanError {
    MalformedLevel,
    PlayerNotFound,
    OutOfBounds,
}

/// The cell a level symbol denotes.
pub open spec fn spec_decode(ch: char) -> Cell {
    if ch == '#' {
        Cell::Wall
    } else if ch == '.' {
        Cell::Floor
    } else if ch == '~' {
        Cell::Target
    } else if ch == '$' {
        Cell::Box
    } else if ch == '*' {
        Cell::BoxOnTarget
    } else if ch == '@' {
        Cell::Player
    } else if ch == '+' {
        Cell::PlayerOnTarget
    } else {
        Cell::Background
    }
}

/// Decode one symbol of a level row.
pub fn decode_cell(ch: char) -> (r: Cell)
    ensures
        r == spec_decode(ch),
{
    if ch == '#' {
        Cell::Wall
    } else if ch == '.' {
        Cell::Floor
    } else if ch == '~' {
        Cell::Target
    } else if ch == '$' {
        Cell::Box
    } else if ch == '*' {
        Cell::BoxOnTarget
    } else if ch == '@' {
        Cell::Player
    } else if ch == '+' {
        Cell::PlayerOnTarget
    } else {
        Cell::Background
    }
}

/// True of the cells a player may step onto.
pub open spec fn is_free_cell(c: Cell) -> bool {
    c == Cell::Floor || c == Cell::Target
}

/// True of the cells that hold a box.
pub open spec fn is_box_cell(c: Cell) -> bool {
    c == Cell::Box || c == Cell::BoxOnTarget
}

/// True of the cells that hold the player.
pub open spec fn is_player_cell(c: Cell) -> bool {
    c == Cell::Player || c == Cell::PlayerOnTarget
}

/// What a cell becomes when the player leaves it: the target marking stays,
/// the player marker goes.
pub open spec fn vacated(c: Cell) -> Cell {
    match c {
        Cell::Player => Cell::Floor,
        Cell::PlayerOnTarget => Cell::Target,
        _ => c,
    }
}

/// What a cell becomes when the player arrives on it.
pub open spec fn player_arrives(c: Cell) -> Cell {
    match c {
        Cell::Floor => Cell::Player,
        Cell::Target => Cell::PlayerOnTarget,
        Cell::Box => Cell::Player,
        Cell::BoxOnTarget => Cell::PlayerOnTarget,
        _ => c,
    }
}

/// What a cell becomes when a box is pushed onto it.
pub open spec fn box_arrives(c: Cell) -> Cell {
    match c {
        Cell::Floor => Cell::Box,
        Cell::Target => Cell::BoxOnTarget,
        _ => c,
    }
}

/// A row-major position within an `h` by `w` grid maps to a flat index
/// below `h * w`.
pub proof fn lemma_flat_index_bound(r: int, c: int, h: int, w: int)
    requires
        0 <= r < h,
        0 <= c < w,
    ensures
        0 <= r * w,
        0 <= r * w + c < h * w,
        h * w == w * h,
{
    assert(0 <= r * w && 0 <= r * w + c < h * w && h * w == w * h) by (nonlinear_arith)
        requires
            0 <= r < h,
            0 <= c < w,
    ;
}

/// Distinct row-major positions map to distinct flat indices.
pub proof fn lemma_flat_index_injective(r1: int, c1: int, r2: int, c2: int, w: int)
    requires
        0 <= c1 < w,
        0 <= c2 < w,
        r1 * w + c1 == r2 * w + c2,
    ensures
        r1 == r2,
        c1 == c2,
{
    assert(r1 == r2 && c1 == c2) by (nonlinear_arith)
        requires
            0 <= c1 < w,
            0 <= c2 < w,
            r1 * w + c1 == r2 * w + c2,
    ;
}

/// The rectangular map: `data` holds `height` rows of `width` cells each,
/// flattened in row-major order.
#[derive(Clone, Debug, PartialEq, Eq)]
pub struct GameLevel {
    pub data: Vec<Cell>,
    pub width: usize,
    pub height: usize,
}

impl GameLevel {
    /// The shape invariant: the buffer holds exactly one cell per grid
    /// position.
    pub open spec fn wf(self) -> bool {
        self.data@.len() == self.width * self.height
    }

    /// The flat index of position (`r`, `c`).
    pub open spec fn flat(self, r: int, c: int) -> int {
        r * self.width + c
    }

    /// The cell at position (`r`, `c`).
    pub open spec fn cell_at(self, r: int, c: int) -> Cell {
        self.data@[self.flat(r, c)]
    }

    /// True iff (`r`, `c`) lies within the grid.
    pub open spec fn in_bounds(self, r: int, c: int) -> bool {
        0 <= r < self.height && 0 <= c < self.width
    }

    /// An empty grid, to be replaced wholesale when a level is loaded.
    pub fn new() -> (l: GameLevel)
        ensures
            l.wf(),
            l.width == 0,
            l.height == 0,
            l.data@.len() == 0,
    {
        GameLevel { data: Vec::new(), width: 0, height: 0 }
    }

    /// Build a grid from level rows. Succeeds exactly when every row has
    /// the same length as the first; the symbols are decoded into cells.
    /// A row count of zero yields a 0 by 0 grid.
    pub fn from(level_data: Vec<String>) -> (r: Result<GameLevel, SokobanError>)
        ensures
            r is Ok <==> (forall|i: int|
                0 <= i < level_data@.len() ==> (#[trigger] level_data@[i]@.len())
                    == level_data@[0]@.len()),
            r is Err ==> r == Result::<GameLevel, SokobanError>::Err(SokobanError::MalformedLevel),
            r is Ok ==> {
                let l = r->Ok_0;
                &&& l.wf()
                &&& l.height == level_data@.len()
                &&& l.width == (if level_data@.len() > 0 {
                    level_data@[0]@.len()
                } else {
                    0
                })
                &&& forall|row: int, col: int|
                    l.in_bounds(row, col) ==> l.cell_at(row, col) == #[trigger] spec_decode(
                        level_data@[row]@[col],
                    )
            },
    {
        let height = level_data.len();
        let width = if height > 0 {
            level_data[0].as_str().unicode_len()
        } else {
            0
        };
        let mut i: usize = 0;
        while i < height
            invariant
                i <= height,
                height == level_data@.len(),
                height > 0 ==> width == level_data@[0]@.len(),
                height == 0 ==> width == 0,
                forall|j: int| 0 <= j < i ==> (#[trigger] level_data@[j]@.len()) == width,
            decreases height - i,
        {
            if level_data[i].as_str().unicode_len() != width {
                proof {
                    assert(level_data@[i as int]@.len() != level_data@[0]@.len());
                }
                return Err(SokobanError::MalformedLevel);
            }
            i += 1;
        }
        let mut data: Vec<Cell> = Vec::new();
        let mut row: usize = 0;
        while row < height
            invariant
                row <= height,
                height == level_data@.len(),
                forall|j: int| 0 <= j < height ==> (#[trigger] level_data@[j]@.len()) == width,
                data@.len() == row * width,
                forall|rr: int, cc: int|
                    0 <= rr < row && 0 <= cc < width ==> data@[rr * width + cc]
                        == #[trigger] spec_decode(level_data@[rr]@[cc]),
            decreases height - row,
        {
            let row_str = level_data[row].as_str();
            let mut col: usize = 0;
            while col < width
                invariant
                    col <= width,
                    row < height,
                    height == level_data@.len(),
                    forall|j: int| 0 <= j < height ==> (#[trigger] level_data@[j]@.len()) == width,
                    row_str@ == level_data@[row as int]@,
                    data@.len() == row * width + col,
                    forall|rr: int, cc: int|
                        0 <= rr < row && 0 <= cc < width ==> data@[rr * width + cc]
                            == #[trigger] spec_decode(level_data@[rr]@[cc]),
                    forall|cc: int|
                        0 <= cc < col ==> data@[row * width + cc] == #[trigger] spec_decode(
                            level_data@[row as int]@[cc],
                        ),
                decreases width - col,
            {
                let ch = row_str.get_char(col);
                data.push(decode_cell(ch));
                proof {
                    assert forall|rr: int, cc: int|
                        0 <= rr < row && 0 <= cc < width implies data@[rr * width + cc]
                        == #[trigger] spec_decode(level_data@[rr]@[cc]) by {
                        lemma_flat_index_bound(rr, cc, row as int, width as int);
                    }
                }
                col += 1;
            }
            proof {
                assert((row + 1) * width == row * width + width) by (nonlinear_arith);
            }
            row += 1;
        }
        proof {
            assert(data@.len() == width * height) by (nonlinear_arith)
                requires
                    data@.len() == height * width,
            ;
        }
        let l = GameLevel { data, width, height };
        proof {
            assert forall|r2: int, c2: int| l.in_bounds(r2, c2) implies l.cell_at(r2, c2)
                == spec_decode(level_data@[r2]@[c2]) by {
                lemma_flat_index_bound(r2, c2, height as int, width as int);
            }
        }
        Ok(l)
    }

    /// The symbol at a coordinate, or `None` outside the grid; probing past
    /// the boundary is an ordinary query, not an error.
    pub fn get_cell(&self, rowcol: (usize, usize)) -> (r: Option<Cell>)
        requires
            self.wf(),
        ensures
            r == (if self.in_bounds(rowcol.0 as int, rowcol.1 as int) {
                Some(self.cell_at(rowcol.0 as int, rowcol.1 as int))
            } else {
                Option::<Cell>::None
            }),
    {
        let (row, col) = rowcol;
        if row < self.height && col < self.width {
            proof {
                assert(self.data.len() == self.data@.len());
                lemma_flat_index_bound(row as int, col as int, self.height as int,
                    self.width as int);
            }
            Some(self.data[row * self.width + col])
        } else {
            None
        }
    }

    /// Overwrite exactly one cell; the only mutation primitive. Fails, and
    /// leaves the grid untouched, when the coordinate is outside the grid.
    pub fn set_cell(&mut self, rowcol: (usize, usize), cell: Cell) -> (r: Result<
        (),
        SokobanError,
    >)
        requires
            old(self).wf(),
        ensures
            final(self).wf(),
            final(self).width == old(self).width,
            final(self).height == old(self).height,
            old(self).in_bounds(rowcol.0 as int, rowcol.1 as int) ==> {
                &&& r is Ok
                &&& final(self).data@ == old(self).data@.update(
                    old(self).flat(rowcol.0 as int, rowcol.1 as int),
                    cell,
                )
            },
            !old(self).in_bounds(rowcol.0 as int, rowcol.1 as int) ==> {
                &&& r == Result::<(), SokobanError>::Err(SokobanError::OutOfBounds)
                &&& *final(self) == *old(self)
            },
    {
        let (row, col) = rowcol;
        if row >= self.height || col >= self.width {
            return Err(SokobanError::OutOfBounds);
        }
        proof {
            assert(self.data.len() == self.data@.len());
            lemma_flat_index_bound(row as int, col as int, self.height as int, self.width as int);
        }
        self.data[row * self.width + col] = cell;
        Ok(())
    }

    /// True iff the signed coordinate lies within the grid; candidate
    /// positions are computed with directional offsets that may go negative
    /// before being range-checked.
    pub fn is_valid_position(&self, rowcol: (isize, isize)) -> (r: bool)
        ensures
            r == (0 <= (rowcol.0 as int) && (rowcol.0 as int) < (self.height as int) && 0 <= (
            rowcol.1 as int) && (rowcol.1 as int) < (self.width as int)),
    {
        let (row, col) = rowcol;
        row >= 0 && col >= 0 && (row as usize) < self.height && (col as usize) < self.width
    }
}

} // verus!
