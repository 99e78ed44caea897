//! The mathematical model of a session: the grid as a sequence of cells,
//! the player position, the box counters and the move counter, together
//! with the transition that one directional move request performs.
//!
//! The engine's contracts state every move as `step`, an all-or-nothing
//! transition: either the move is a no-op and the model is unchanged, or
//! exactly the described cell writes and counter updates happen.

use vstd::prelude::*;

use crate::direction::{delta_col, delta_row, Direction};
use crate::level::{
    box_arrives, is_box_cell, is_free_cell, is_player_cell, player_arrives, vacated, Cell,
};

verus! {

/// How many cells of `g` satisfy `p`.
pub open spec fn count_cells(g: Seq<Cell>, p: spec_fn(Cell) -> bool) -> int
    decreases g.len(),
{
    if g.len() == 0 {
        0
    } else {
        count_cells(g.drop_last(), p) + if p(g.last()) {
            1int
        } else {
            0int
        }
    }
}

/// The cells that hold a box.
pub open spec fn box_pred() -> spec_fn(Cell) -> bool {
    |c: Cell| is_box_cell(c)
}

/// The cells that hold a box standing on a target.
pub open spec fn on_target_pred() -> spec_fn(Cell) -> bool {
    |c: Cell| c == Cell::BoxOnTarget
}

/// `boxes_total` of a grid: its cells with a box.
pub open spec fn total_boxes_of(g: Seq<Cell>) -> int {
    count_cells(g, box_pred())
}

/// `boxes_on_target` of a grid: its cells with a box on a target.
pub open spec fn on_target_boxes_of(g: Seq<Cell>) -> int {
    count_cells(g, on_target_pred())
}

/// A count lies between 0 and the grid size.
pub proof fn lemma_count_bounds(g: Seq<Cell>, p: spec_fn(Cell) -> bool)
    ensures
        0 <= count_cells(g, p) <= g.len(),
    decreases g.len(),
{
    if g.len() > 0 {
        lemma_count_bounds(g.drop_last(), p);
    }
}

/// Overwriting one cell changes a count by the difference the two cells
/// make to the predicate.
pub proof fn lemma_count_update(g: Seq<Cell>, p: spec_fn(Cell) -> bool, i: int, v: Cell)
    requires
        0 <= i < g.len(),
    ensures
        count_cells(g.update(i, v), p) == count_cells(g, p) - (if p(g[i]) {
            1int
        } else {
            0int
        }) + (if p(v) {
            1int
        } else {
            0int
        }),
    decreases g.len(),
{
    let gu = g.update(i, v);
    if i == g.len() - 1 {
        assert(gu.drop_last() =~= g.drop_last());
    } else {
        assert(gu.drop_last() =~= g.drop_last().update(i, v));
        lemma_count_update(g.drop_last(), p, i, v);
    }
}

/// A grid with a cell that satisfies `p` counts at least one.
pub proof fn lemma_count_at_least_one(g: Seq<Cell>, p: spec_fn(Cell) -> bool, i: int)
    requires
        0 <= i < g.len(),
        p(g[i]),
    ensures
        count_cells(g, p) >= 1,
    decreases g.len(),
{
    if i == g.len() - 1 {
        lemma_count_bounds(g.drop_last(), p);
    } else {
        lemma_count_at_least_one(g.drop_last(), p, i);
    }
}

/// A grid with a cell that fails `p` counts at most all the others.
pub proof fn lemma_count_missing_one(g: Seq<Cell>, p: spec_fn(Cell) -> bool, i: int)
    requires
        0 <= i < g.len(),
        !p(g[i]),
    ensures
        count_cells(g, p) <= g.len() - 1,
    decreases g.len(),
{
    if i == g.len() - 1 {
        lemma_count_bounds(g.drop_last(), p);
    } else {
        lemma_count_missing_one(g.drop_last(), p, i);
    }
}

/// If every cell that satisfies `p` also satisfies `q`, the `p` count is
/// no larger than the `q` count.
pub proof fn lemma_count_le(g: Seq<Cell>, p: spec_fn(Cell) -> bool, q: spec_fn(Cell) -> bool)
    requires
        forall|c: Cell| #[trigger] p(c) ==> q(c),
    ensures
        count_cells(g, p) <= count_cells(g, q),
    decreases g.len(),
{
    if g.len() > 0 {
        lemma_count_le(g.drop_last(), p, q);
    }
}

/// Extending a prefix by one cell extends its count by that cell.
pub proof fn lemma_count_take_succ(g: Seq<Cell>, p: spec_fn(Cell) -> bool, i: int)
    requires
        0 <= i < g.len(),
    ensures
        count_cells(g.take(i + 1), p) == count_cells(g.take(i), p) + (if p(g[i]) {
            1int
        } else {
            0int
        }),
{
    assert(g.take(i + 1).drop_last() =~= g.take(i));
    assert(g.take(i + 1).last() == g[i]);
}

/// The abstract state of a session.
#[verifier::ext_equal]
pub ghost struct GameModel {
    /// The map, flattened in row-major order.
    pub grid: Seq<Cell>,
    pub width: int,
    pub height: int,
    pub player_row: int,
    pub player_col: int,
    pub boxes_total: int,
    pub boxes_on_target: int,
    pub moves: int,
}

impl GameModel {
    /// The flat index of position (`r`, `c`).
    pub open spec fn flat(self, r: int, c: int) -> int {
        r * self.width + c
    }

    /// The cell at position (`r`, `c`).
    pub open spec fn cell(self, r: int, c: int) -> Cell {
        self.grid[self.flat(r, c)]
    }

    /// True iff (`r`, `c`) lies within the grid.
    pub open spec fn in_bounds(self, r: int, c: int) -> bool {
        0 <= r < self.height && 0 <= c < self.width
    }

    /// The session invariant: the grid is rectangular, the player stands
    /// on a player-marked cell inside it, and the counters agree with a
    /// full recount of the grid.
    pub open spec fn wf(self) -> bool {
        &&& self.grid.len() == self.width * self.height
        &&& self.in_bounds(self.player_row, self.player_col)
        &&& is_player_cell(self.cell(self.player_row, self.player_col))
        &&& self.boxes_total == total_boxes_of(self.grid)
        &&& self.boxes_on_target == on_target_boxes_of(self.grid)
        &&& 0 <= self.moves
    }

    /// Level-complete: every box stands on a target.
    pub open spec fn is_won(self) -> bool {
        self.boxes_on_target == self.boxes_total
    }

    /// True iff a move request in direction `d` displaces the player:
    /// the cell ahead is free, or holds a box with a free cell behind it.
    pub open spec fn move_succeeds(self, d: Direction) -> bool {
        let nr = self.player_row + delta_row(d);
        let nc = self.player_col + delta_col(d);
        &&& self.in_bounds(nr, nc)
        &&& {
            let nxt = self.cell(nr, nc);
            ||| is_free_cell(nxt)
            ||| {
                &&& is_box_cell(nxt)
                &&& {
                    let br = nr + delta_row(d);
                    let bc = nc + delta_col(d);
                    &&& self.in_bounds(br, bc)
                    &&& is_free_cell(self.cell(br, bc))
                }
            }
        }
    }

    /// The transition one move request performs: the identity when the
    /// move is rejected, otherwise exactly the cell writes of a step or a
    /// push, the player displacement, and the counter updates.
    pub open spec fn step(self, d: Direction) -> GameModel {
        let pr = self.player_row;
        let pc = self.player_col;
        let nr = pr + delta_row(d);
        let nc = pc + delta_col(d);
        if !self.in_bounds(nr, nc) {
            self
        } else {
            let nxt = self.cell(nr, nc);
            if is_free_cell(nxt) {
                GameModel {
                    grid: self.grid.update(self.flat(nr, nc), player_arrives(nxt)).update(
                        self.flat(pr, pc),
                        vacated(self.cell(pr, pc)),
                    ),
                    player_row: nr,
                    player_col: nc,
                    moves: self.moves + 1,
                    ..self
                }
            } else if is_box_cell(nxt) {
                let br = nr + delta_row(d);
                let bc = nc + delta_col(d);
                if self.in_bounds(br, bc) && is_free_cell(self.cell(br, bc)) {
                    let beyond = self.cell(br, bc);
                    GameModel {
                        grid: self.grid.update(self.flat(br, bc), box_arrives(beyond)).update(
                            self.flat(nr, nc),
                            player_arrives(nxt),
                        ).update(self.flat(pr, pc), vacated(self.cell(pr, pc))),
                        player_row: nr,
                        player_col: nc,
                        boxes_on_target: self.boxes_on_target - (if nxt == Cell::BoxOnTarget {
                            1int
                        } else {
                            0int
                        }) + (if beyond == Cell::Target {
                            1int
                        } else {
                            0int
                        }),
                        moves: self.moves + 1,
                        ..self
                    }
                } else {
                    self
                }
            } else {
                self
            }
        }
    }

    /// The model with the player standing at (`r`, `c`) instead: the new
    /// cell gains the player marker, the old player cell loses it.
    pub open spec fn with_player_at(self, r: int, c: int) -> GameModel {
        GameModel {
            grid: self.grid.update(self.flat(r, c), player_arrives(self.cell(r, c))).update(
                self.flat(self.player_row, self.player_col),
                vacated(self.cell(self.player_row, self.player_col)),
            ),
            player_row: r,
            player_col: c,
            ..self
        }
    }
}

/// Positions one and two steps ahead of the player lie on flat indices
/// distinct from each other and from the player's, when in bounds.
pub proof fn lemma_move_indices_distinct(m: GameModel, d: Direction)
    requires
        m.in_bounds(m.player_row, m.player_col),
        m.in_bounds(m.player_row + delta_row(d), m.player_col + delta_col(d)),
    ensures
        m.flat(m.player_row + delta_row(d), m.player_col + delta_col(d)) != m.flat(
            m.player_row,
            m.player_col,
        ),
        m.in_bounds(m.player_row + 2 * delta_row(d), m.player_col + 2 * delta_col(d)) ==> {
            let ip = m.flat(m.player_row, m.player_col);
            let i1 = m.flat(m.player_row + delta_row(d), m.player_col + delta_col(d));
            let i2 = m.flat(m.player_row + 2 * delta_row(d), m.player_col + 2 * delta_col(d));
            i2 != i1 && i2 != ip
        },
{
    let pr = m.player_row;
    let pc = m.player_col;
    let dr = delta_row(d);
    let dc = delta_col(d);
    let w = m.width;
    if m.flat(pr + dr, pc + dc) == m.flat(pr, pc) {
        crate::level::lemma_flat_index_injective(pr + dr, pc + dc, pr, pc, w);
    }
    if m.in_bounds(pr + 2 * dr, pc + 2 * dc) {
        if m.flat(pr + 2 * dr, pc + 2 * dc) == m.flat(pr + dr, pc + dc) {
            crate::level::lemma_flat_index_injective(pr + 2 * dr, pc + 2 * dc, pr + dr, pc + dc, w);
        }
        if m.flat(pr + 2 * dr, pc + 2 * dc) == m.flat(pr, pc) {
            crate::level::lemma_flat_index_injective(pr + 2 * dr, pc + 2 * dc, pr, pc, w);
        }
    }
}

/// A move request keeps the session invariant: the grid stays rectangular,
/// the player lands on a player-marked cell, and the incrementally updated
/// counters still agree with a full recount.
pub proof fn lemma_step_preserves_wf(m: GameModel, d: Direction)
    requires
        m.wf(),
    ensures
        m.step(d).wf(),
{
    let pr = m.player_row;
    let pc = m.player_col;
    let dr = delta_row(d);
    let dc = delta_col(d);
    let nr = pr + dr;
    let nc = pc + dc;
    if !m.in_bounds(nr, nc) {
        return ;
    }
    let ip = m.flat(pr, pc);
    let i1 = m.flat(nr, nc);
    crate::level::lemma_flat_index_bound(pr, pc, m.height, m.width);
    crate::level::lemma_flat_index_bound(nr, nc, m.height, m.width);
    lemma_move_indices_distinct(m, d);
    let cur = m.cell(pr, pc);
    let nxt = m.cell(nr, nc);
    if is_free_cell(nxt) {
        let g1 = m.grid.update(i1, player_arrives(nxt));
        let g2 = g1.update(ip, vacated(cur));
        lemma_count_update(m.grid, box_pred(), i1, player_arrives(nxt));
        lemma_count_update(g1, box_pred(), ip, vacated(cur));
        lemma_count_update(m.grid, on_target_pred(), i1, player_arrives(nxt));
        lemma_count_update(g1, on_target_pred(), ip, vacated(cur));
        assert(g1[ip] == cur);
        assert(g2[i1] == player_arrives(nxt));
    } else if is_box_cell(nxt) {
        let br = nr + dr;
        let bc = nc + dc;
        if m.in_bounds(br, bc) && is_free_cell(m.cell(br, bc)) {
            let i2 = m.flat(br, bc);
            crate::level::lemma_flat_index_bound(br, bc, m.height, m.width);
            let beyond = m.cell(br, bc);
            assert(br == pr + 2 * dr && bc == pc + 2 * dc);
            let g1 = m.grid.update(i2, box_arrives(beyond));
            let g2 = g1.update(i1, player_arrives(nxt));
            let g3 = g2.update(ip, vacated(cur));
            lemma_count_update(m.grid, box_pred(), i2, box_arrives(beyond));
            lemma_count_update(g1, box_pred(), i1, player_arrives(nxt));
            lemma_count_update(g2, box_pred(), ip, vacated(cur));
            lemma_count_update(m.grid, on_target_pred(), i2, box_arrives(beyond));
            lemma_count_update(g1, on_target_pred(), i1, player_arrives(nxt));
            lemma_count_update(g2, on_target_pred(), ip, vacated(cur));
            assert(g1[i1] == nxt);
            assert(g2[ip] == cur);
            assert(g3[i1] == player_arrives(nxt));
        }
    }
}

} // verus!
