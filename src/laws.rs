//! Properties of the engine that span several operations or states.
use vstd::prelude::*;

use crate::board::{in_board, is_border, is_interior, Board, Direction, Edit};
use crate::game::lemma_shift_keeps_full;
use crate::controller::fade_ticked;
use crate::cell::Cell;
use crate::game::{Game, FADING_TIME, SPAWN_X};
use crate::piece::{in_four, shape_has, shape_offsets, turned, Piece};

verus! {

/// In every state a game passes through between ticks, each cell of the
/// frame is `Block`.
pub proof fn lemma_border_is_block(g: Game, x: int, y: int)
    requires
        g.inv(),
        in_board(x, y),
        is_border(x, y),
    ensures
        g.board.at(x, y) == Cell::Block,
{
}

/// Each catalog shape occupies four distinct local cells, all inside the
/// 4x4 matrix: a piece made from it covers exactly four board cells.
pub proof fn lemma_shape_cells_distinct(k: int)
    requires
        0 <= k < 7,
    ensures
        shape_offsets(k).len() == 4,
        forall|i: int, j: int| 0 <= i < j < 4 ==> #[trigger] shape_offsets(k)[i] != #[trigger] shape_offsets(k)[j],
        forall|i: int|
            0 <= i < 4 ==> 0 <= (#[trigger] shape_offsets(k)[i]).0 < 4 && 0 <= shape_offsets(k)[i].1 < 4,
{
}

/// Turning the square leaves its occupied cells where they were.
pub proof fn lemma_square_turn_symmetric(p: Piece, r: Piece)
    requires
        p.is_shape(0),
        turned(r, p),
    ensures
        r.is_shape(0),
{
    assert forall|x: int, y: int| 0 <= x < 4 && 0 <= y < 4 implies (#[trigger] r.local(x, y) == Cell::Moving
        <==> shape_has(0, x, y)) by {
        assert(p.local(3 - y, x) == Cell::Moving <==> shape_has(0, 3 - y, x));
    }
}

/// Four quarter turns bring a piece back to its own local matrix.
pub proof fn lemma_four_turns(p: Piece, r1: Piece, r2: Piece, r3: Piece, r4: Piece)
    requires
        turned(r1, p),
        turned(r2, r1),
        turned(r3, r2),
        turned(r4, r3),
    ensures
        forall|x: int, y: int| 0 <= x < 4 && 0 <= y < 4 ==> #[trigger] r4.local(x, y) == p.local(x, y),
{
    assert forall|x: int, y: int| 0 <= x < 4 && 0 <= y < 4 implies #[trigger] r4.local(x, y) == p.local(x, y) by {
        assert(r4.local(x, y) == r3.local(3 - y, x));
        assert(r3.local(3 - y, x) == r2.local(3 - x, 3 - y));
        assert(r2.local(3 - x, 3 - y) == r1.local(y, 3 - x));
        assert(r1.local(y, 3 - x) == p.local(x, y));
    }
}

/// Through the first `i + 1` states of a clearing phase that starts with a
/// fresh fade counter, the board stays as it was and the counter counts
/// the ticks.
proof fn lemma_fade_prefix(s: Seq<Game>, i: int)
    requires
        0 <= i < FADING_TIME,
        s.len() > i,
        s[0].line_to_delete,
        s[0].fade_line_counter == 0,
        forall|k: int| 0 <= k < i ==> #[trigger] fade_ticked(s[k], s[k + 1]),
    ensures
        forall|k: int|
            #![trigger s[k]]
            0 <= k <= i ==> {
                &&& s[k].board == s[0].board
                &&& s[k].line_to_delete
                &&& s[k].fade_line_counter == k
                &&& s[k].lines == s[0].lines
            },
    decreases i,
{
    if i > 0 {
        lemma_fade_prefix(s, i - 1);
        let k = i - 1;
        assert(fade_ticked(s[k], s[k + 1]));
    }
}

/// A row marked `Fading` stays on the board through the clearing ticks and
/// is removed on the `FADING_TIME`-th one: the interior rows above it come
/// down by one, the top row is emptied, and the cleared-line counter moves
/// on by one.
pub proof fn lemma_fading_row_cleared_on_time(s: Seq<Game>, j: int)
    requires
        s.len() == FADING_TIME + 1,
        s[0].line_to_delete,
        s[0].fade_line_counter == 0,
        s[0].board.single_fading_row(j),
        forall|k: int| 0 <= k < FADING_TIME ==> #[trigger] fade_ticked(s[k], s[k + 1]),
    ensures
        forall|k: int| #![trigger s[k]] 0 <= k < FADING_TIME ==> s[k].board == s[0].board && s[k].line_to_delete,
        !s[FADING_TIME as int].line_to_delete,
        s[FADING_TIME as int].lines == if s[0].lines < u32::MAX {
            (s[0].lines + 1) as u32
        } else {
            s[0].lines
        },
        forall|x: int, y: int|
            #![trigger s[FADING_TIME as int].board.at(x, y)]
            in_board(x, y) ==> s[FADING_TIME as int].board.at(x, y) == s[0].board.edited_at(
                Edit::DropRow(j as usize),
                x,
                y,
            ),
{
    let last = FADING_TIME as int - 1;
    lemma_fade_prefix(s, last);
    let k = last;
    assert(fade_ticked(s[k], s[k + 1]));
    assert(s[last].board == s[0].board);
    assert(s[last].board.single_fading_row(j));
}

/// With the piece in flight at the spawn anchor, the `Moving` cells of the
/// board are exactly the cells of its catalog template shifted by that
/// anchor.
pub proof fn lemma_spawned_cells_match_template(g: Game, k: int)
    requires
        g.inv(),
        g.piece_active,
        g.piece_position_x == SPAWN_X,
        g.piece_position_y == 0,
        0 <= k < 7,
        g.piece.is_shape(k),
    ensures
        forall|x: int, y: int|
            #![trigger g.board.at(x, y)]
            in_board(x, y) ==> (g.board.at(x, y) == Cell::Moving <==> (0 <= x - SPAWN_X < 4 && 0 <= y < 4
                && shape_has(k, x - SPAWN_X, y))),
{
}

/// Marking the complete rows of a board that has no `Fading` cell and one
/// complete row makes that row the single fading row.
pub proof fn lemma_marked_row_is_single_fading(before: Board, after: Board, j: int)
    requires
        before.wf(),
        0 <= j < 19,
        before.row_full(j),
        forall|y: int| 0 <= y < 19 && y != j ==> !#[trigger] before.row_full(y),
        forall|x: int, y: int| #![trigger before.at(x, y)] in_board(x, y) ==> before.at(x, y) != Cell::Fading,
        forall|x: int, y: int|
            #![trigger after.at(x, y)]
            in_board(x, y) ==> after.at(x, y) == (if is_interior(x, y) && before.row_full(y) {
                Cell::Fading
            } else {
                before.at(x, y)
            }),
    ensures
        after.single_fading_row(j),
{
    assert forall|x: int, y: int| #![trigger after.at(x, y)] in_board(x, y) implies (after.at(x, y) == Cell::Fading
        <==> (is_interior(x, y) && y == j)) by {
        assert(before.at(x, y) != Cell::Fading);
        if y == 19 {
            assert(!before.row_full(19)) by {
                assert(before.at(1, 19) == Cell::Block);
            }
        }
    }
}

/// Between ticks the board holds no `Moving` cell, or exactly the four
/// distinct cells of the piece in flight shifted by its anchor.
pub proof fn lemma_moving_cells_are_four(g: Game)
    requires
        g.inv(),
    ensures
        !g.piece_active ==> g.board.no_moving(),
        g.piece_active ==> exists|o: Seq<(int, int)>|
            #[trigger] g.piece.four_cells(o) && forall|x: int, y: int|
                #![trigger g.board.at(x, y)]
                in_board(x, y) ==> (g.board.at(x, y) == Cell::Moving <==> in_four(
                    o,
                    x - g.piece_position_x,
                    y - g.piece_position_y,
                )),
{
    if g.piece_active {
        let o = choose|o: Seq<(int, int)>| #[trigger] g.piece.four_cells(o);
        let ax = g.piece_position_x as int;
        let ay = g.piece_position_y as int;
        assert forall|x: int, y: int| #![trigger g.board.at(x, y)] in_board(x, y) implies (g.board.at(x, y)
            == Cell::Moving <==> in_four(o, x - ax, y - ay)) by {
            assert(0 <= o[0].0 < 4 && 0 <= o[0].1 < 4);
            assert(0 <= o[1].0 < 4 && 0 <= o[1].1 < 4);
            assert(0 <= o[2].0 < 4 && 0 <= o[2].1 < 4);
            assert(0 <= o[3].0 < 4 && 0 <= o[3].1 < 4);
        }
    }
}

/// A gravity step on a piece that has not landed is a pure translation: the
/// piece comes down one row, every `Full` cell stays as it is, and the frame
/// stays `Block`.
pub proof fn lemma_gravity_translates(a: Board, b: Board)
    requires
        a.wf(),
        !a.spec_blocked(Direction::Down),
        forall|x: int, y: int|
            #![trigger b.at(x, y)]
            in_board(x, y) ==> b.at(x, y) == a.edited_at(Edit::Shift(Direction::Down), x, y),
    ensures
        forall|x: int, y: int|
            #![trigger b.at(x, y)]
            in_board(x, y) ==> (b.at(x, y) == Cell::Moving <==> (y >= 1 && a.at(x, y - 1) == Cell::Moving)),
        forall|x: int, y: int|
            #![trigger b.at(x, y)]
            in_board(x, y) ==> (b.at(x, y) == Cell::Full <==> a.at(x, y) == Cell::Full),
        forall|x: int, y: int| #![trigger b.at(x, y)] in_board(x, y) && is_border(x, y) ==> b.at(x, y) == Cell::Block,
{
    lemma_shift_keeps_full(a, b, Direction::Down);
    assert forall|x: int, y: int| #![trigger b.at(x, y)] in_board(x, y) implies (b.at(x, y) == Cell::Full <==> a.at(
        x,
        y,
    ) == Cell::Full) by {
        if a.at(x, y) == Cell::Full {
            assert(a.full_within(b));
        }
    }
    assert forall|x: int, y: int| #![trigger b.at(x, y)] in_board(x, y) && is_border(x, y) implies b.at(x, y)
        == Cell::Block by {
        assert(a.at(x, y) == Cell::Block);
        if y >= 1 && a.at(x, y - 1) == Cell::Moving {
            assert(a.stuck(Direction::Down, x, y - 1));
        }
    }
}

/// A gravity step on a landed piece turns exactly its `Moving` cells into
/// `Full` ones, leaves no `Moving` cell, and keeps the frame.
pub proof fn lemma_landing_settles(a: Board, b: Board)
    requires
        a.wf(),
        forall|x: int, y: int| #![trigger b.at(x, y)] in_board(x, y) ==> b.at(x, y) == a.edited_at(Edit::Lock, x, y),
    ensures
        b.no_moving(),
        forall|x: int, y: int|
            #![trigger b.at(x, y)]
            in_board(x, y) ==> (b.at(x, y) == Cell::Full <==> (a.at(x, y) == Cell::Full || a.at(x, y)
                == Cell::Moving)),
        forall|x: int, y: int|
            #![trigger b.at(x, y)]
            in_board(x, y) && a.at(x, y) != Cell::Moving ==> b.at(x, y) == a.at(x, y),
        forall|x: int, y: int| #![trigger b.at(x, y)] in_board(x, y) && is_border(x, y) ==> b.at(x, y) == Cell::Block,
{
    assert forall|x: int, y: int| #![trigger b.at(x, y)] in_board(x, y) && is_border(x, y) implies b.at(x, y)
        == Cell::Block by {
        assert(a.at(x, y) == Cell::Block);
    }
}

} // verus!
