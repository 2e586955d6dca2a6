//! The game state, its invariant, and the input sampled each tick.
use vstd::prelude::*;

use crate::board::{dx, dy, in_board, is_interior, Board, Direction, Edit};
use crate::cell::{Cell, PieceColor};
use crate::piece::Piece;

verus! {

/// Ticks between two repeated lateral moves.
pub const LATERAL_SPEED: u16 = 10;

/// Ticks between two repeated rotations.
pub const TURNING_SPEED: u16 = 12;

/// Ticks a new piece falls at normal speed before soft drop takes effect.
pub const FAST_FALL_AWAIT_COUNTER: u16 = 30;

/// Ticks a completed row stays `Fading` before it is removed.
pub const FADING_TIME: u16 = 33;

/// Ticks between two gravity steps.
pub const GRAVITY_SPEED: u16 = 30;

/// Column of the anchor of a newly spawned piece: `(WIDTH - 4) / 2`.
pub const SPAWN_X: i32 = 4;

impl Board {
    /// The `Moving` cells of the board are exactly those that `p` placed at
    /// (ax, ay) covers, and those all lie in the interior.
    pub open spec fn footprint(&self, p: Piece, ax: int, ay: int) -> bool {
        &&& forall|x: int, y: int|
            #![trigger self.at(x, y)]
            in_board(x, y) ==> (self.at(x, y) == Cell::Moving <==> p.covers(ax, ay, x, y))
        &&& forall|x: int, y: int| #[trigger] p.covers(ax, ay, x, y) ==> is_interior(x, y)
    }

    /// Every `Full` cell of this board is `Full` on `other` too.
    pub open spec fn full_within(&self, other: Board) -> bool {
        forall|x: int, y: int|
            #![trigger self.at(x, y), other.at(x, y)]
            in_board(x, y) && self.at(x, y) == Cell::Full ==> other.at(x, y) == Cell::Full
    }
}

/// Losing `Full` cells never completes a row.
pub proof fn lemma_full_within_keeps_rows(a: Board, b: Board)
    requires
        b.no_full_row(),
        a.full_within(b),
    ensures
        a.no_full_row(),
{
    assert forall|y: int| 0 <= y < 19 implies !#[trigger] a.row_full(y) by {
        assert(!b.row_full(y));
        let x = choose|x: int| 1 <= x <= 10 && !(#[trigger] b.at(x, y) == Cell::Full);
        assert(b.at(x, y) != Cell::Full && a.at(x, y) != Cell::Full);
    }
}

/// A shift that is not blocked keeps every `Full` cell where it was.
#[verifier::rlimit(40)]
pub proof fn lemma_shift_keeps_full(a: Board, b: Board, d: Direction)
    requires
        a.wf(),
        !a.spec_blocked(d),
        forall|x: int, y: int| #![trigger b.at(x, y)] in_board(x, y) ==> b.at(x, y) == a.edited_at(Edit::Shift(d), x, y),
    ensures
        b.full_within(a),
        a.full_within(b),
{
    assert forall|x: int, y: int|
        #![trigger a.at(x, y), b.at(x, y)]
        in_board(x, y) && a.at(x, y) == Cell::Full implies b.at(x, y) == Cell::Full by {
        let sx = x - dx(d);
        let sy = y - dy(d);
        assert(b.at(x, y) == a.edited_at(Edit::Shift(d), x, y));
        if in_board(sx, sy) && a.at(sx, sy) == Cell::Moving {
            assert(a.at(sx + dx(d), sy + dy(d)) == Cell::Full);
            assert(a.stuck(d, sx, sy));
        }
    }
    assert forall|x: int, y: int|
        #![trigger b.at(x, y), a.at(x, y)]
        in_board(x, y) && b.at(x, y) == Cell::Full implies a.at(x, y) == Cell::Full by {
        assert(b.at(x, y) == a.edited_at(Edit::Shift(d), x, y));
    }
}

/// A shift that is not blocked carries the footprint of the piece along.
#[verifier::rlimit(40)]
pub proof fn lemma_shift_footprint(a: Board, b: Board, p: Piece, ax: int, ay: int, d: Direction)
    requires
        a.wf(),
        !a.spec_blocked(d),
        a.footprint(p, ax, ay),
        forall|x: int, y: int| #![trigger b.at(x, y)] in_board(x, y) ==> b.at(x, y) == a.edited_at(Edit::Shift(d), x, y),
    ensures
        b.footprint(p, ax + dx(d), ay + dy(d)),
{
    let nx = ax + dx(d);
    let ny = ay + dy(d);
    assert forall|x: int, y: int| #[trigger] p.covers(nx, ny, x, y) implies is_interior(x, y) by {
        let sx = x - dx(d);
        let sy = y - dy(d);
        assert(p.covers(ax, ay, sx, sy));
        assert(is_interior(sx, sy));
        assert(a.at(sx, sy) == Cell::Moving);
        assert(!a.stuck(d, sx, sy));
        assert(in_board(x, y));
        assert(a.at(x, y) != Cell::Block);
    }
    assert forall|x: int, y: int| #![trigger b.at(x, y)] in_board(x, y) implies (b.at(x, y) == Cell::Moving
        <==> p.covers(nx, ny, x, y)) by {
        let sx = x - dx(d);
        let sy = y - dy(d);
        assert(b.at(x, y) == a.edited_at(Edit::Shift(d), x, y));
        assert(p.covers(nx, ny, x, y) == p.covers(ax, ay, sx, sy));
        if p.covers(ax, ay, sx, sy) {
            assert(is_interior(sx, sy));
        }
        if in_board(sx, sy) {
            assert(a.at(sx, sy) == Cell::Moving <==> p.covers(ax, ay, sx, sy));
        }
        assert(a.at(x, y) == Cell::Moving <==> p.covers(ax, ay, x, y));
    }
}

/// The logical actions requested during one tick.
#[derive(Clone, Copy, Debug, PartialEq, Eq, Structural)]
pub struct Input {
    /// Left was pressed this tick.
    pub left_pressed: bool,
    /// Left is held.
    pub left_held: bool,
    /// Right was pressed this tick.
    pub right_pressed: bool,
    /// Right is held.
    pub right_held: bool,
    /// Rotate was pressed this tick.
    pub rotate_pressed: bool,
    /// Rotate is held.
    pub rotate_held: bool,
    /// Soft drop is held.
    pub soft_drop_held: bool,
    /// Restart was pressed this tick.
    pub restart_pressed: bool,
    /// Pause was pressed this tick.
    pub pause_pressed: bool,
}

/// The whole state of a game.
pub struct Game {
    pub board: Board,
    /// The piece in flight.
    pub piece: Piece,
    /// The piece shown as coming next.
    pub incoming_piece: Piece,
    /// Column of the top-left corner of the piece in flight.
    pub piece_position_x: i32,
    /// Row of the top-left corner of the piece in flight.
    pub piece_position_y: i32,
    /// Colour of the rows being removed, for display.
    pub fading_colour: PieceColor,
    pub level: u16,
    /// Number of clearing passes so far.
    pub lines: u32,
    pub gravity_speed: u16,
    pub game_over: bool,
    pub pause: bool,
    /// No piece has been spawned yet.
    pub begin_play: bool,
    pub piece_active: bool,
    /// The piece in flight has landed.
    pub detection: bool,
    /// Completed rows are fading out.
    pub line_to_delete: bool,
    pub gravity_movement_counter: u16,
    pub lateral_movement_counter: u16,
    pub turn_movement_counter: u16,
    pub fast_fall_movement_counter: u16,
    pub fade_line_counter: u16,
}

impl Game {
    /// What holds of the state at every step of a tick.
    pub open spec fn inv_core(&self) -> bool {
        &&& self.board.wf()
        &&& self.piece.wf()
        &&& self.incoming_piece.wf()
        &&& self.gravity_speed == GRAVITY_SPEED
        &&& self.fade_line_counter < FADING_TIME
        &&& !self.begin_play ==> exists|k: int| 0 <= k < 7 && #[trigger] self.incoming_piece.is_shape(k)
        &&& !self.piece_active ==> self.board.no_moving()
        &&& self.piece_active ==> {
            &&& self.piece.has_cell()
            &&& self.piece.has_four_cells()
            &&& self.board.footprint(
                self.piece,
                self.piece_position_x as int,
                self.piece_position_y as int,
            )
        }
        &&& self.line_to_delete ==> !self.piece_active
        &&& if self.line_to_delete {
            self.board.fading_whole_rows()
        } else {
            self.board.no_fading()
        }
    }

    /// The state between two ticks: no landing is pending and no row is
    /// complete without being marked.
    pub open spec fn inv(&self) -> bool {
        &&& self.inv_core()
        &&& !self.detection
        &&& self.board.no_full_row()
    }

    /// The state of a game that has not started yet.
    pub open spec fn is_fresh(&self) -> bool {
        &&& forall|x: int, y: int| #![trigger self.board.at(x, y)] is_interior(x, y) ==> self.board.at(x, y) == Cell::Empty
        &&& self.begin_play
        &&& !self.piece_active
        &&& !self.game_over
        &&& !self.pause
        &&& !self.line_to_delete
        &&& self.lines == 0
        &&& self.gravity_movement_counter == 0
        &&& self.lateral_movement_counter == 0
        &&& self.turn_movement_counter == 0
        &&& self.fast_fall_movement_counter == 0
        &&& self.fade_line_counter == 0
    }

    /// A new game: an empty board, nothing in flight.
    pub fn new() -> (r: Game)
        ensures
            r.inv(),
            r.is_fresh(),
    {
        let board = Board::new();
        let r = Game {
            board,
            piece: Piece::empty(),
            incoming_piece: Piece::empty(),
            piece_position_x: 0,
            piece_position_y: 0,
            fading_colour: PieceColor::Gray,
            level: 1,
            lines: 0,
            gravity_speed: GRAVITY_SPEED,
            game_over: false,
            pause: false,
            begin_play: true,
            piece_active: false,
            detection: false,
            line_to_delete: false,
            gravity_movement_counter: 0,
            lateral_movement_counter: 0,
            turn_movement_counter: 0,
            fast_fall_movement_counter: 0,
            fade_line_counter: 0,
        };
        assert forall|y: int| 0 <= y < 19 implies !#[trigger] r.board.row_full(y) by {
            assert(r.board.at(1, y) == Cell::Empty);
        }
        r
    }
}

} // verus!
