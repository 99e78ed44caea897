//! Engine-wide laws, proved once and for all over the abstract model:
//! the counter invariant, the silence of rejected moves, the win signal,
//! and the reversibility of a push.

use vstd::prelude::*;

use crate::direction::{delta_col, delta_row, spec_invert, Direction};
use crate::level::{
    is_box_cell, is_free_cell, lemma_flat_index_bound, lemma_flat_index_injective, Cell,
};
use crate::model::{
    box_pred, lemma_count_at_least_one, lemma_count_bounds, lemma_count_le,
    lemma_step_preserves_wf, on_target_pred, GameModel,
};

verus! {

/// The session after the move requests `ds`, issued in order.
pub open spec fn run_moves(m: GameModel, ds: Seq<Direction>) -> GameModel
    decreases ds.len(),
{
    if ds.len() == 0 {
        m
    } else {
        run_moves(m, ds.drop_last()).step(ds.last())
    }
}

/// In any well-formed session the box counters are in range: neither is
/// negative and `boxes_on_target` never exceeds `boxes_total`. Together
/// with `lemma_step_preserves_wf` this holds after any sequence of moves.
pub proof fn lemma_counters_bounded(m: GameModel)
    requires
        m.wf(),
    ensures
        0 <= m.boxes_on_target,
        0 <= m.boxes_total,
        m.boxes_on_target <= m.boxes_total,
{
    lemma_count_bounds(m.grid, on_target_pred());
    lemma_count_bounds(m.grid, box_pred());
    assert forall|c: Cell| #[trigger] on_target_pred()(c) implies box_pred()(c) by {
        assert(is_box_cell(Cell::BoxOnTarget));
    }
    lemma_count_le(m.grid, on_target_pred(), box_pred());
}

/// After any sequence of move requests from a well-formed session, the
/// session is still well-formed and its box counters are in range:
/// non-negative, with `boxes_on_target` at most `boxes_total`.
pub proof fn lemma_run_moves_counters_bounded(m: GameModel, ds: Seq<Direction>)
    requires
        m.wf(),
    ensures
        run_moves(m, ds).wf(),
        0 <= run_moves(m, ds).boxes_on_target,
        0 <= run_moves(m, ds).boxes_total,
        run_moves(m, ds).boxes_on_target <= run_moves(m, ds).boxes_total,
    decreases ds.len(),
{
    if ds.len() == 0 {
        lemma_counters_bounded(m);
    } else {
        lemma_run_moves_counters_bounded(m, ds.drop_last());
        lemma_step_preserves_wf(run_moves(m, ds.drop_last()), ds.last());
        lemma_counters_bounded(run_moves(m, ds));
    }
}

/// A move attempt into a wall is a no-op: the whole session — grid,
/// player position, counters and move count — is left unchanged.
pub proof fn lemma_wall_move_is_noop(m: GameModel, d: Direction)
    requires
        m.in_bounds(m.player_row + delta_row(d), m.player_col + delta_col(d)),
        m.cell(m.player_row + delta_row(d), m.player_col + delta_col(d)) == Cell::Wall,
    ensures
        m.step(d) == m,
{
}

/// Win detection: in a session whose single box is not yet on a target,
/// the push that lands it on a target raises `boxes_on_target` to
/// `boxes_total` on that exact move — and the session was not won before.
pub proof fn lemma_single_box_win(m: GameModel, d: Direction)
    requires
        m.wf(),
        m.boxes_total == 1,
        m.boxes_on_target == 0,
        is_box_cell(m.cell(m.player_row + delta_row(d), m.player_col + delta_col(d))),
        m.in_bounds(m.player_row + delta_row(d), m.player_col + delta_col(d)),
        m.in_bounds(m.player_row + 2 * delta_row(d), m.player_col + 2 * delta_col(d)),
        m.cell(m.player_row + 2 * delta_row(d), m.player_col + 2 * delta_col(d)) == Cell::Target,
    ensures
        !m.is_won(),
        m.step(d).is_won(),
        m.step(d).boxes_on_target == 1,
        m.step(d).boxes_total == 1,
{
    let nr = m.player_row + delta_row(d);
    let nc = m.player_col + delta_col(d);
    if m.cell(nr, nc) == Cell::BoxOnTarget {
        lemma_flat_index_bound(nr, nc, m.height, m.width);
        lemma_count_at_least_one(m.grid, on_target_pred(), m.flat(nr, nc));
        assert(on_target_pred()(Cell::BoxOnTarget));
        assert(false);
    }
}

/// Reversibility of a push. Pushing a box one cell in direction `d`, then
/// — once the player stands on the far side, as an unobstructed walk
/// around the box permits — pushing it back in the inverse direction,
/// restores the box to its original cell and both box counters to their
/// original values. Every cell of the grid ends as it began except the
/// two the player's own relocation touched, and two moves were counted.
pub proof fn lemma_push_round_trip(m: GameModel, d: Direction)
    requires
        m.wf(),
        is_box_cell(m.cell(m.player_row + delta_row(d), m.player_col + delta_col(d))),
        m.in_bounds(m.player_row + delta_row(d), m.player_col + delta_col(d)),
        m.in_bounds(m.player_row + 2 * delta_row(d), m.player_col + 2 * delta_col(d)),
        is_free_cell(m.cell(m.player_row + 2 * delta_row(d), m.player_col + 2 * delta_col(d))),
        m.in_bounds(m.player_row + 3 * delta_row(d), m.player_col + 3 * delta_col(d)),
        is_free_cell(m.cell(m.player_row + 3 * delta_row(d), m.player_col + 3 * delta_col(d))),
    ensures
        ({
            let far = m.step(d).with_player_at(
                m.player_row + 3 * delta_row(d),
                m.player_col + 3 * delta_col(d),
            );
            let back = far.step(spec_invert(d));
            &&& m.move_succeeds(d)
            &&& far.move_succeeds(spec_invert(d))
            &&& back.boxes_on_target == m.boxes_on_target
            &&& back.boxes_total == m.boxes_total
            &&& back.moves == m.moves + 2
            &&& back.player_row == m.player_row + 2 * delta_row(d)
            &&& back.player_col == m.player_col + 2 * delta_col(d)
            &&& back.grid == m.with_player_at(
                m.player_row + 2 * delta_row(d),
                m.player_col + 2 * delta_col(d),
            ).grid
        }),
{
    let pr = m.player_row;
    let pc = m.player_col;
    let dr = delta_row(d);
    let dc = delta_col(d);
    let w = m.width;
    let ip = m.flat(pr, pc);
    let i1 = m.flat(pr + dr, pc + dc);
    let i2 = m.flat(pr + 2 * dr, pc + 2 * dc);
    let i3 = m.flat(pr + 3 * dr, pc + 3 * dc);
    lemma_flat_index_bound(pr, pc, m.height, m.width);
    lemma_flat_index_bound(pr + dr, pc + dc, m.height, m.width);
    lemma_flat_index_bound(pr + 2 * dr, pc + 2 * dc, m.height, m.width);
    lemma_flat_index_bound(pr + 3 * dr, pc + 3 * dc, m.height, m.width);
    if ip == i1 {
        lemma_flat_index_injective(pr, pc, pr + dr, pc + dc, w);
    }
    if ip == i2 {
        lemma_flat_index_injective(pr, pc, pr + 2 * dr, pc + 2 * dc, w);
    }
    if ip == i3 {
        lemma_flat_index_injective(pr, pc, pr + 3 * dr, pc + 3 * dc, w);
    }
    if i1 == i2 {
        lemma_flat_index_injective(pr + dr, pc + dc, pr + 2 * dr, pc + 2 * dc, w);
    }
    if i1 == i3 {
        lemma_flat_index_injective(pr + dr, pc + dc, pr + 3 * dr, pc + 3 * dc, w);
    }
    if i2 == i3 {
        lemma_flat_index_injective(pr + 2 * dr, pc + 2 * dc, pr + 3 * dr, pc + 3 * dc, w);
    }
    assert(ip != i1 && ip != i2 && ip != i3 && i1 != i2 && i1 != i3 && i2 != i3);
    let m1 = m.step(d);
    let far = m1.with_player_at(pr + 3 * dr, pc + 3 * dc);
    let back = far.step(spec_invert(d));
    assert(far.cell(pr + 2 * dr, pc + 2 * dc) == crate::level::box_arrives(
        m.cell(pr + 2 * dr, pc + 2 * dc),
    ));
    assert(far.cell(pr + dr, pc + dc) == crate::level::vacated(
        crate::level::player_arrives(m.cell(pr + dr, pc + dc)),
    ));
    assert(back.grid =~= m.with_player_at(pr + 2 * dr, pc + 2 * dc).grid);
}

} // verus!
