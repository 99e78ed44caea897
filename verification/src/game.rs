//! The move engine: a session that owns a level grid, the player position
//! and the box and move counters, and resolves directional move requests
//! against them.
//!
//! Every public operation is specified against the session's abstract
//! model (`GameModel`); `make_move` performs exactly the `step` transition.

use vstd::prelude::*;

use crate::direction::{delta_col, delta_row, Direction};
use crate::level::{
    is_box_cell, is_free_cell, is_player_cell, lemma_flat_index_bound, spec_decode, Cell,
    GameLevel, SokobanError,
};
use crate::model::{
    box_pred, count_cells, lemma_count_at_least_one, lemma_count_bounds, lemma_count_missing_one,
    lemma_count_take_succ, lemma_step_preserves_wf, on_target_boxes_of, on_target_pred,
    total_boxes_of, GameModel,
};

verus! {

/// What one move request reports back: whether the player was displaced,
/// and whether that displacement completed the level.
#[derive(Clone, Copy, Debug, PartialEq, Eq, Structural)]
pub struct MoveOutcome {
    pub moved: bool,
    pub level_complete: bool,
}

/// A play session: the loaded grid, the player position as (row, col),
/// the box accounting and the count of successful moves.
#[derive(Debug, PartialEq, Eq)]
pub struct Game {
    pub level: GameLevel,
    pub player_pos: (usize, usize),
    pub boxes_total: usize,
    pub boxes_on_target: usize,
    pub moves: usize,
}

impl View for Game {
    type V = GameModel;

    open spec fn view(&self) -> GameModel {
        GameModel {
            grid: self.level.data@,
            width: self.level.width as int,
            height: self.level.height as int,
            player_row: self.player_pos.0 as int,
            player_col: self.player_pos.1 as int,
            boxes_total: self.boxes_total as int,
            boxes_on_target: self.boxes_on_target as int,
            moves: self.moves as int,
        }
    }
}

/// The first cell in row-major order that holds the player, or
/// `PlayerNotFound` when no cell does.
fn get_initial_player_pos(level: &GameLevel) -> (r: Result<(usize, usize), SokobanError>)
    requires
        level.wf(),
    ensures
        r is Ok <==> (exists|rr: int, cc: int|
            level.in_bounds(rr, cc) && is_player_cell(#[trigger] level.cell_at(rr, cc))),
        r is Err ==> r == Result::<(usize, usize), SokobanError>::Err(SokobanError::PlayerNotFound),
        r is Ok ==> {
            let p = r->Ok_0;
            &&& level.in_bounds(p.0 as int, p.1 as int)
            &&& is_player_cell(level.cell_at(p.0 as int, p.1 as int))
            &&& forall|rr: int, cc: int|
                level.in_bounds(rr, cc) && (rr < p.0 as int || (rr == p.0 as int && cc
                    < p.1 as int)) ==> !is_player_cell(#[trigger] level.cell_at(rr, cc))
        },
{
    let mut row: usize = 0;
    while row < level.height
        invariant
            level.wf(),
            row <= level.height,
            forall|rr: int, cc: int|
                level.in_bounds(rr, cc) && rr < row ==> !is_player_cell(
                    #[trigger] level.cell_at(rr, cc),
                ),
        decreases level.height - row,
    {
        let mut col: usize = 0;
        while col < level.width
            invariant
                level.wf(),
                row < level.height,
                col <= level.width,
                forall|rr: int, cc: int|
                    level.in_bounds(rr, cc) && rr < row ==> !is_player_cell(
                        #[trigger] level.cell_at(rr, cc),
                    ),
                forall|cc: int|
                    0 <= cc < col ==> !is_player_cell(
                        #[trigger] level.cell_at(row as int, cc),
                    ),
            decreases level.width - col,
        {
            let c = level.get_cell((row, col)).unwrap();
            if c == Cell::Player || c == Cell::PlayerOnTarget {
                return Ok((row, col));
            }
            col += 1;
        }
        row += 1;
    }
    Err(SokobanError::PlayerNotFound)
}

/// A full-grid recount: how many cells hold a box, and how many of those
/// boxes stand on a target.
fn get_boxes_count(level: &GameLevel) -> (r: (usize, usize))
    requires
        level.wf(),
    ensures
        r.0 as int == total_boxes_of(level.data@),
        r.1 as int == on_target_boxes_of(level.data@),
{
    let mut total: usize = 0;
    let mut on_target: usize = 0;
    let len = level.data.len();
    let mut k: usize = 0;
    while k < len
        invariant
            k <= len,
            len == level.data@.len(),
            total as int == count_cells(level.data@.take(k as int), box_pred()),
            on_target as int == count_cells(level.data@.take(k as int), on_target_pred()),
        decreases len - k,
    {
        let c = level.data[k];
        proof {
            lemma_count_take_succ(level.data@, box_pred(), k as int);
            lemma_count_take_succ(level.data@, on_target_pred(), k as int);
            lemma_count_bounds(level.data@.take(k as int), box_pred());
            lemma_count_bounds(level.data@.take(k as int), on_target_pred());
            assert(box_pred()(c) == is_box_cell(c));
            assert(on_target_pred()(c) == (c == Cell::BoxOnTarget));
        }
        if c == Cell::Box || c == Cell::BoxOnTarget {
            total += 1;
            if c == Cell::BoxOnTarget {
                on_target += 1;
            }
        }
        k += 1;
    }
    proof {
        assert(level.data@.take(len as int) =~= level.data@);
    }
    (total, on_target)
}

/// The position one step from `pos` in direction `dir`, or `None` when
/// that step leaves the grid.
fn offset_pos(level: &GameLevel, pos: (usize, usize), dir: Direction) -> (r: Option<
    (usize, usize),
>)
    requires
        level.in_bounds(pos.0 as int, pos.1 as int),
    ensures
        r is Some <==> level.in_bounds(
            pos.0 as int + delta_row(dir),
            pos.1 as int + delta_col(dir),
        ),
        r is Some ==> {
            let p = r->0;
            p.0 as int == pos.0 as int + delta_row(dir) && p.1 as int == pos.1 as int + delta_col(
                dir,
            )
        },
{
    match dir {
        Direction::Up => if pos.0 > 0 {
            Some((pos.0 - 1, pos.1))
        } else {
            None
        },
        Direction::Down => if pos.0 + 1 < level.height {
            Some((pos.0 + 1, pos.1))
        } else {
            None
        },
        Direction::Left => if pos.1 > 0 {
            Some((pos.0, pos.1 - 1))
        } else {
            None
        },
        Direction::Right => if pos.1 + 1 < level.width {
            Some((pos.0, pos.1 + 1))
        } else {
            None
        },
    }
}

impl Game {
    /// A session with no level loaded yet: an empty grid and zeroed
    /// counters. `load_level` replaces all of it.
    pub fn new() -> (g: Game)
        ensures
            g.level.wf(),
            g.level.width == 0,
            g.level.height == 0,
            g.player_pos.0 == 0,
            g.player_pos.1 == 0,
            g.boxes_total == 0,
            g.boxes_on_target == 0,
            g.moves == 0,
    {
        Game {
            level: GameLevel::new(),
            player_pos: (0, 0),
            boxes_total: 0,
            boxes_on_target: 0,
            moves: 0,
        }
    }

    /// Replace the session wholesale with a freshly loaded level: decode
    /// the rows, locate the player, recount the boxes, zero the move
    /// counter. Rejects bad input before touching the live session, so on
    /// an error the previous level stays intact.
    pub fn load_level(&mut self, level_data: Vec<String>) -> (r: Result<(), SokobanError>)
        ensures
            r is Ok <==> ((forall|i: int|
                0 <= i < level_data@.len() ==> (#[trigger] level_data@[i]@.len())
                    == level_data@[0]@.len()) && (exists|rr: int, cc: int|
                0 <= rr < level_data@.len() && 0 <= cc < level_data@[rr]@.len() && is_player_cell(
                    spec_decode(#[trigger] level_data@[rr]@[cc]),
                ))),
            r is Err ==> *final(self) == *old(self),
            r is Err ==> (r == Result::<(), SokobanError>::Err(SokobanError::MalformedLevel) || r
                == Result::<(), SokobanError>::Err(SokobanError::PlayerNotFound)),
            r == Result::<(), SokobanError>::Err(SokobanError::MalformedLevel) <==> !(forall|
                i: int,
            |
                0 <= i < level_data@.len() ==> (#[trigger] level_data@[i]@.len())
                    == level_data@[0]@.len()),
            r is Ok ==> {
                let m = final(self)@;
                &&& m.wf()
                &&& final(self).moves == 0
                &&& final(self).level.height == level_data@.len()
                &&& final(self).level.width == (if level_data@.len() > 0 {
                    level_data@[0]@.len()
                } else {
                    0
                })
                &&& forall|rr: int, cc: int|
                    final(self).level.in_bounds(rr, cc) ==> final(self).level.cell_at(rr, cc)
                        == spec_decode(#[trigger] level_data@[rr]@[cc])
                &&& forall|rr: int, cc: int|
                    final(self).level.in_bounds(rr, cc) && (rr < m.player_row || (rr
                        == m.player_row && cc < m.player_col)) ==> !is_player_cell(
                        #[trigger] final(self).level.cell_at(rr, cc),
                    )
            },
    {
        let ghost rows = level_data@;
        let lvl = match GameLevel::from(level_data) {
            Ok(lvl) => lvl,
            Err(e) => {
                return Err(e);
            },
        };
        let ppos = match get_initial_player_pos(&lvl) {
            Ok(p) => p,
            Err(e) => {
                proof {
                    assert forall|rr: int, cc: int|
                        0 <= rr < rows.len() && 0 <= cc < rows[rr]@.len() implies !is_player_cell(
                        spec_decode(#[trigger] rows[rr]@[cc]),
                    ) by {
                        assert(lvl.in_bounds(rr, cc));
                        assert(lvl.cell_at(rr, cc) == spec_decode(rows[rr]@[cc]));
                    }
                }
                return Err(e);
            },
        };
        let counts = get_boxes_count(&lvl);
        self.level = lvl;
        self.player_pos = ppos;
        self.boxes_total = counts.0;
        self.boxes_on_target = counts.1;
        self.moves = 0;
        proof {
            let rr0 = ppos.0 as int;
            let cc0 = ppos.1 as int;
            assert(0 <= rr0 < rows.len() && 0 <= cc0 < rows[rr0]@.len() && is_player_cell(
                spec_decode(rows[rr0]@[cc0]),
            ));
        }
        Ok(())
    }

    /// Level-complete check: every box stands on a target.
    pub fn check_win(&self) -> (r: bool)
        ensures
            r == self@.is_won(),
    {
        self.boxes_on_target == self.boxes_total
    }

    /// Resolve one directional move request as an all-or-nothing
    /// transaction: the session afterwards is exactly `step` of the
    /// session before. A move into a wall, off the grid, or against a
    /// blocked box is a silent no-op that leaves the session untouched.
    pub fn make_move(&mut self, dir: Direction) -> (r: MoveOutcome)
        requires
            old(self)@.wf(),
            old(self).moves < usize::MAX,
        ensures
            final(self)@ == old(self)@.step(dir),
            final(self)@.wf(),
            r.moved == old(self)@.move_succeeds(dir),
            !r.moved ==> *final(self) == *old(self),
            r.level_complete == (r.moved && final(self)@.is_won()),
    {
        let ghost m0 = self@;
        proof {
            lemma_step_preserves_wf(m0, dir);
            assert(self.level.data.len() == self.level.data@.len());
        }
        let prev_pos = self.player_pos;
        let cell_prev = self.level.get_cell(prev_pos).unwrap();
        let next_pos = match offset_pos(&self.level, prev_pos, dir) {
            Some(p) => p,
            None => {
                proof {
                    assert(self@ =~= m0.step(dir));
                }
                return MoveOutcome { moved: false, level_complete: false };
            },
        };
        let cell_next = self.level.get_cell(next_pos).unwrap();
        let vacated_prev = if cell_prev == Cell::Player {
            Cell::Floor
        } else {
            Cell::Target
        };
        match cell_next {
            Cell::Floor | Cell::Target => {
                let arrive = if cell_next == Cell::Floor {
                    Cell::Player
                } else {
                    Cell::PlayerOnTarget
                };
                self.level.set_cell(next_pos, arrive).unwrap();
                self.level.set_cell(prev_pos, vacated_prev).unwrap();
                self.player_pos = next_pos;
                self.moves += 1;
            },
            Cell::Box | Cell::BoxOnTarget => {
                let box_next_pos = match offset_pos(&self.level, next_pos, dir) {
                    Some(p) => p,
                    None => {
                        proof {
                            assert(self@ =~= m0.step(dir));
                        }
                        return MoveOutcome { moved: false, level_complete: false };
                    },
                };
                let cell_box_next = self.level.get_cell(box_next_pos).unwrap();
                proof {
                    lemma_flat_index_bound(
                        next_pos.0 as int,
                        next_pos.1 as int,
                        self.level.height as int,
                        self.level.width as int,
                    );
                }
                match cell_box_next {
                    Cell::Floor => {
                        if cell_next != Cell::Box {
                            proof {
                                lemma_count_at_least_one(
                                    m0.grid,
                                    on_target_pred(),
                                    m0.flat(next_pos.0 as int, next_pos.1 as int),
                                );
                                assert(on_target_pred()(Cell::BoxOnTarget));
                            }
                            self.boxes_on_target -= 1;
                        }
                        self.level.set_cell(box_next_pos, Cell::Box).unwrap();
                    },
                    Cell::Target => {
                        if cell_next != Cell::BoxOnTarget {
                            proof {
                                lemma_count_missing_one(
                                    m0.grid,
                                    on_target_pred(),
                                    m0.flat(next_pos.0 as int, next_pos.1 as int),
                                );
                                assert(!on_target_pred()(Cell::Box));
                            }
                            self.boxes_on_target += 1;
                        }
                        self.level.set_cell(box_next_pos, Cell::BoxOnTarget).unwrap();
                    },
                    _ => {
                        proof {
                            assert(self@ =~= m0.step(dir));
                        }
                        return MoveOutcome { moved: false, level_complete: false };
                    },
                }
                let arrive = if cell_next == Cell::Box {
                    Cell::Player
                } else {
                    Cell::PlayerOnTarget
                };
                self.level.set_cell(next_pos, arrive).unwrap();
                self.level.set_cell(prev_pos, vacated_prev).unwrap();
                self.player_pos = next_pos;
                self.moves += 1;
            },
            _ => {
                proof {
                    assert(self@ =~= m0.step(dir));
                }
                return MoveOutcome { moved: false, level_complete: false };
            },
        }
        proof {
            assert(self@ =~= m0.step(dir));
        }
        let complete = self.boxes_on_target == self.boxes_total;
        MoveOutcome { moved: true, level_complete: complete }
    }
}

} // verus!
