//! The per-tick sequencing of spawning, movement, line clearing, pause and
//! game over.
use vstd::prelude::*;

use crate::board::{dx, in_board, is_interior, Board, Direction, Edit};
use crate::cell::{Cell, PieceColor};
use crate::game::{Game, Input, FADING_TIME, FAST_FALL_AWAIT_COUNTER, LATERAL_SPEED, SPAWN_X, TURNING_SPEED};
use crate::piece::{turned, Piece};
use crate::random::random_shape;

verus! {

/// One more tick on a counter, stopping at the largest value.
pub open spec fn bumped(c: u16) -> u16 {
    if c < u16::MAX {
        (c + 1) as u16
    } else {
        c
    }
}

/// The counters of `g` moved on by one tick, with those whose action was
/// just requested forced: a fresh lateral or rotate press, or soft drop
/// held past the grace window.
pub open spec fn counters_advanced(g: Game, input: Input) -> Game {
    let fast = bumped(g.fast_fall_movement_counter);
    let gravity = bumped(g.gravity_movement_counter);
    Game {
        fast_fall_movement_counter: fast,
        lateral_movement_counter: if input.left_pressed || input.right_pressed {
            LATERAL_SPEED
        } else {
            bumped(g.lateral_movement_counter)
        },
        turn_movement_counter: if input.rotate_pressed {
            TURNING_SPEED
        } else {
            bumped(g.turn_movement_counter)
        },
        gravity_movement_counter: if input.soft_drop_held && fast >= FAST_FALL_AWAIT_COUNTER {
            if gravity <= u16::MAX - g.gravity_speed {
                (gravity + g.gravity_speed) as u16
            } else {
                u16::MAX
            }
        } else {
            gravity
        },
        ..g
    }
}

/// Every interior cell of row `y` is `Full` once the piece in flight of
/// `b` has settled.
pub open spec fn locked_row_full(b: Board, y: int) -> bool {
    forall|x: int| 1 <= x <= 10 ==> #[trigger] b.edited_at(Edit::Lock, x, y) == Cell::Full
}

/// The gravity step of a tick took `g` to `h`. It fires when the gravity
/// counter has reached the gravity speed, and resets that counter: a piece
/// blocked below settles where it is and complete rows are marked
/// `Fading`; any other piece comes down one row.
pub open spec fn gravity_stepped(g: Game, h: Game) -> bool {
    if g.gravity_movement_counter >= g.gravity_speed {
        if g.board.spec_blocked(Direction::Down) {
            &&& h == (Game {
                board: h.board,
                piece_active: false,
                gravity_movement_counter: 0,
                line_to_delete: g.line_to_delete || exists|y: int|
                    0 <= y < 19 && #[trigger] locked_row_full(g.board, y),
                ..g
            })
            &&& forall|x: int, y: int|
                #![trigger h.board.at(x, y)]
                in_board(x, y) ==> h.board.at(x, y) == (if is_interior(x, y) && locked_row_full(g.board, y) {
                    Cell::Fading
                } else {
                    g.board.edited_at(Edit::Lock, x, y)
                })
        } else {
            &&& h == (Game {
                board: h.board,
                piece_position_y: (g.piece_position_y + 1) as i32,
                gravity_movement_counter: 0,
                ..g
            })
            &&& forall|x: int, y: int|
                #![trigger h.board.at(x, y)]
                in_board(x, y) ==> h.board.at(x, y) == g.board.edited_at(Edit::Shift(Direction::Down), x, y)
        }
    } else {
        h == g
    }
}

/// The lateral step of a tick took `g` to `h`. It fires while a piece is in
/// flight and the lateral counter has reached `LATERAL_SPEED`: the piece
/// moves one column in the held direction, left first, unless blocked; the
/// counter is reset unless the move was blocked.
pub open spec fn lateral_stepped(g: Game, h: Game, input: Input) -> bool {
    if g.piece_active && g.lateral_movement_counter >= LATERAL_SPEED {
        if !input.left_held && !input.right_held {
            h == (Game { lateral_movement_counter: 0, ..g })
        } else {
            let d = if input.left_held {
                Direction::Left
            } else {
                Direction::Right
            };
            if g.board.spec_blocked(d) {
                h == g
            } else {
                &&& h == (Game {
                    board: h.board,
                    piece_position_x: (g.piece_position_x + dx(d)) as i32,
                    lateral_movement_counter: 0,
                    ..g
                })
                &&& forall|x: int, y: int|
                    #![trigger h.board.at(x, y)]
                    in_board(x, y) ==> h.board.at(x, y) == g.board.edited_at(Edit::Shift(d), x, y)
            }
        }
    } else {
        h == g
    }
}

/// The rotation step of a tick took `g` to `h`. It fires while a piece is
/// in flight, rotate is held and the turn counter has reached
/// `TURNING_SPEED`, and resets that counter: the piece is turned a quarter
/// turn at the same anchor if the turned piece fits there, and stays as it
/// is otherwise.
pub open spec fn turn_stepped(g: Game, h: Game, input: Input) -> bool {
    if g.piece_active && g.turn_movement_counter >= TURNING_SPEED && input.rotate_held {
        let ax = g.piece_position_x as int;
        let ay = g.piece_position_y as int;
        ||| (h == (Game { turn_movement_counter: 0, ..g }) && forall|q: Piece|
            #![trigger turned(q, g.piece)]
            turned(q, g.piece) ==> !g.board.spec_fits(q, ax, ay))
        ||| {
            &&& turned(h.piece, g.piece)
            &&& h.piece.color == g.piece.color
            &&& g.board.spec_fits(h.piece, ax, ay)
            &&& h == (Game { board: h.board, piece: h.piece, turn_movement_counter: 0, ..g })
            &&& forall|x: int, y: int|
                #![trigger h.board.at(x, y)]
                in_board(x, y) ==> h.board.at(x, y) == (if h.piece.covers(ax, ay, x, y) {
                    Cell::Moving
                } else {
                    g.board.edited_at(Edit::ClearMoving, x, y)
                })
        }
    } else {
        h == g
    }
}

/// A tick with a piece in flight took `g` to `h`: counters, then the
/// gravity, lateral and rotation steps, in that order.
pub open spec fn piece_advanced(g: Game, h: Game, input: Input) -> bool {
    exists|m2: Game, m3: Game|
        #[trigger] gravity_stepped(counters_advanced(g, input), m2) && #[trigger] lateral_stepped(m2, m3, input)
            && turn_stepped(m3, h, input)
}

/// One tick of the clearing phase took the game from `g` to `h`: the fade
/// runs on with the board untouched, and on reaching `FADING_TIME` the
/// fading rows go, the interior rows above come down, and the cleared-line
/// counter moves on by one. Nothing else changes but the fade colour.
pub open spec fn fade_ticked(g: Game, h: Game) -> bool {
    &&& h == (Game {
        board: h.board,
        line_to_delete: h.line_to_delete,
        fade_line_counter: h.fade_line_counter,
        lines: h.lines,
        fading_colour: h.fading_colour,
        ..g
    })
    &&& g.fade_line_counter + 1 < FADING_TIME ==> {
        &&& h.board == g.board
        &&& h.line_to_delete
        &&& h.fade_line_counter == g.fade_line_counter + 1
        &&& h.lines == g.lines
    }
    &&& g.fade_line_counter + 1 >= FADING_TIME ==> {
        &&& !h.line_to_delete
        &&& h.fade_line_counter == 0
        &&& h.lines == if g.lines < u32::MAX {
            (g.lines + 1) as u32
        } else {
            g.lines
        }
        &&& h.board.no_fading()
        &&& exists|src: Seq<int>| #[trigger] h.board.rows_from(g.board, src) && g.board.picks_unfaded(src)
        &&& forall|j: int|
            #![trigger g.board.single_fading_row(j)]
            g.board.single_fading_row(j) ==> forall|x: int, y: int|
                #![trigger h.board.at(x, y)]
                in_board(x, y) ==> h.board.at(x, y) == g.board.edited_at(Edit::DropRow(j as usize), x, y)
    }
}

/// A tick that spawned a piece took `g` to `h`: the incoming piece was
/// promoted and stamped at the spawn anchor, the fast-fall counter was
/// reset, and the top rows were checked.
pub open spec fn spawned(g: Game, h: Game) -> bool {
    &&& h == (Game {
        board: h.board,
        piece: h.piece,
        incoming_piece: h.incoming_piece,
        piece_position_x: SPAWN_X,
        piece_position_y: 0,
        begin_play: false,
        piece_active: true,
        fast_fall_movement_counter: 0,
        game_over: h.board.spec_top_full(),
        ..g
    })
    &&& !g.begin_play ==> h.piece == g.incoming_piece
    &&& exists|k: int| 0 <= k < 7 && #[trigger] h.piece.is_shape(k)
    &&& exists|k: int| 0 <= k < 7 && #[trigger] h.incoming_piece.is_shape(k)
    &&& forall|x: int, y: int|
        #![trigger h.board.at(x, y)]
        in_board(x, y) ==> h.board.at(x, y) == (if h.piece.covers(SPAWN_X as int, 0, x, y) {
            Cell::Moving
        } else {
            g.board.at(x, y)
        })
}

/// One tick took the game from `g` to `h`, whatever shapes were drawn:
/// - a game that is over stays so, or restarts on request;
/// - a paused game (after the pause toggle) changes in nothing else;
/// - in the clearing phase the fade runs on, and the top rows are not checked;
/// - otherwise a piece spawns, or the piece in flight advances, and then the
///   game is over exactly when a cell of the two top rows is `Full`.
pub open spec fn ticked(g: Game, h: Game, input: Input) -> bool {
    if g.game_over {
        if input.restart_pressed {
            h.is_fresh()
        } else {
            h == g
        }
    } else if g.pause != input.pause_pressed {
        h == (Game { pause: true, ..g })
    } else {
        let r = Game { pause: false, ..g };
        if g.line_to_delete {
            fade_ticked(r, h)
        } else if !g.piece_active {
            spawned(r, h)
        } else {
            &&& piece_advanced(r, Game { game_over: false, ..h }, input)
            &&& h.game_over == h.board.spec_top_full()
        }
    }
}

fn bump(c: u16) -> (r: u16)
    ensures
        r == bumped(c),
{
    if c < u16::MAX {
        c + 1
    } else {
        c
    }
}

impl Game {
    /// Marks every complete row `Fading` and, if there was one, starts the
    /// clearing phase.
    pub fn check_completion(&mut self)
        requires
            old(self).inv_core(),
            old(self).piece_active ==> old(self).board.no_full_row(),
        ensures
            final(self).inv_core(),
            final(self).board.no_full_row(),
            *final(self) == (Game {
                board: final(self).board,
                line_to_delete: old(self).line_to_delete || exists|y: int|
                    0 <= y < 19 && #[trigger] old(self).board.row_full(y),
                ..*old(self)
            }),
            forall|x: int, y: int|
                #![trigger final(self).board.at(x, y)]
                in_board(x, y) ==> final(self).board.at(x, y) == (if crate::board::is_interior(x, y)
                    && old(self).board.row_full(y) {
                    Cell::Fading
                } else {
                    old(self).board.at(x, y)
                }),
    {
        let ghost before = self.board;
        if self.board.mark_complete_rows() {
            self.line_to_delete = true;
        }
        proof {
            let b = self.board;
            assert forall|x: int, y: int| #![trigger b.at(x, y)] in_board(x, y) implies (b.at(x, y) == Cell::Moving
                <==> before.at(x, y) == Cell::Moving) by {
                if crate::board::is_interior(x, y) && before.row_full(y) {
                    assert(before.at(x, y) == Cell::Full);
                }
            }
        }
    }

    /// Removes the rows that are fading out, bringing the rows above down.
    pub fn delete_complete_lines(&mut self)
        requires
            old(self).inv(),
            old(self).line_to_delete,
        ensures
            final(self).inv(),
            *final(self) == (Game { board: final(self).board, ..*old(self) }),
            final(self).board.no_fading(),
            forall|y: int| 0 <= y < 19 ==> #[trigger] final(self).board.at(1, y) != Cell::Fading,
            exists|src: Seq<int>|
                #[trigger] final(self).board.rows_from(old(self).board, src) && old(self).board.picks_unfaded(src),
            forall|j: int|
                #![trigger old(self).board.single_fading_row(j)]
                old(self).board.single_fading_row(j) ==> forall|x: int, y: int|
                    #![trigger final(self).board.at(x, y)]
                    in_board(x, y) ==> final(self).board.at(x, y) == old(self).board.edited_at(
                        Edit::DropRow(j as usize),
                        x,
                        y,
                    ),
    {
        let ghost start = self.board;
        self.board.delete_fading_rows();
        proof {
            let b = self.board;
            let src = choose|src: Seq<int>| #[trigger] b.rows_from(start, src) && start.picks_unfaded(src);
            assert forall|x: int, y: int| #![trigger b.at(x, y)] in_board(x, y) implies b.at(x, y) != Cell::Fading by {
                if is_interior(x, y) && src[y] >= 0 {
                    let r = src[y];
                    assert(-1 <= src[y] < 19);
                    assert(b.at(x, y) == start.at(x, r));
                    assert(start.at(1, r) != Cell::Fading);
                    if start.at(x, r) == Cell::Fading {
                        assert(start.row_fading(r));
                    }
                } else if !is_interior(x, y) {
                    assert(b.at(x, y) == Cell::Block <==> crate::board::is_border(x, y));
                } else {
                    assert(b.at(x, y) == (if src[y] < 0 { Cell::Empty } else { start.at(x, src[y]) }));
                }
            }
        }
    }

    /// Advances the game by one tick. `seed` and `next` are the shapes
    /// drawn for a spawn in this tick: `seed` is used only by the very first
    /// spawn of a game, and neither is used when no piece spawns.
    pub fn tick(&mut self, input: &Input, seed: usize, next: usize)
        requires
            old(self).inv(),
            seed < 7,
            next < 7,
        ensures
            final(self).inv(),
            ticked(*old(self), *final(self), *input),
            !old(self).game_over && old(self).pause == input.pause_pressed && !old(self).line_to_delete
                && !old(self).piece_active ==> {
                &&& final(self).incoming_piece.is_shape(next as int)
                &&& old(self).begin_play ==> final(self).piece.is_shape(seed as int)
            },
    {
        if self.game_over {
            if input.restart_pressed {
                *self = Game::new();
            }
            return;
        }
        if input.pause_pressed {
            self.pause = !self.pause;
        }
        if self.pause {
            return;
        }
        if !self.line_to_delete {
            self.play_step(input, seed, next);
        } else {
            self.fade_step();
        }
    }

    /// Moves the per-tick counters on.
    fn advance_counters(&mut self, input: &Input)
        ensures
            *final(self) == counters_advanced(*old(self), *input),
    {
        self.fast_fall_movement_counter = bump(self.fast_fall_movement_counter);
        self.gravity_movement_counter = bump(self.gravity_movement_counter);
        self.lateral_movement_counter = bump(self.lateral_movement_counter);
        self.turn_movement_counter = bump(self.turn_movement_counter);
        if input.left_pressed || input.right_pressed {
            self.lateral_movement_counter = LATERAL_SPEED;
        }
        if input.rotate_pressed {
            self.turn_movement_counter = TURNING_SPEED;
        }
        if input.soft_drop_held && self.fast_fall_movement_counter >= FAST_FALL_AWAIT_COUNTER {
            self.gravity_movement_counter = if self.gravity_movement_counter <= u16::MAX - self.gravity_speed {
                self.gravity_movement_counter + self.gravity_speed
            } else {
                u16::MAX
            };
        }
    }

    /// The gravity step: landing detection, then the fall or the settling,
    /// then the marking of complete rows.
    fn gravity_step(&mut self)
        requires
            old(self).inv(),
            old(self).piece_active,
            !old(self).line_to_delete,
        ensures
            final(self).inv(),
            gravity_stepped(*old(self), *final(self)),
    {
        if self.gravity_movement_counter >= self.gravity_speed {
            let ghost g = *self;
            self.check_detection();
            self.resolve_falling_movement();
            let ghost settled = self.board;
            self.check_completion();
            self.gravity_movement_counter = 0;
            proof {
                if g.board.spec_blocked(Direction::Down) {
                    assert forall|y: int|
                        #![trigger locked_row_full(g.board, y)]
                        #![trigger settled.row_full(y)]
                        0 <= y < 20 implies locked_row_full(g.board, y) == settled.row_full(y) by {
                        if locked_row_full(g.board, y) {
                            assert forall|x: int| 1 <= x <= 10 implies #[trigger] settled.at(x, y) == Cell::Full by {
                                assert(g.board.edited_at(Edit::Lock, x, y) == Cell::Full);
                            }
                        }
                        if settled.row_full(y) {
                            assert forall|x: int| 1 <= x <= 10 implies #[trigger] g.board.edited_at(Edit::Lock, x, y)
                                == Cell::Full by {
                                assert(settled.at(x, y) == Cell::Full);
                            }
                        }
                    }
                } else {
                    assert forall|y: int| 0 <= y < 19 implies !#[trigger] settled.row_full(y) by {}
                }
            }
        }
    }

    /// The piece in flight: counters, then gravity, lateral and rotation
    /// steps as their counters allow.
    fn advance_piece(&mut self, input: &Input)
        requires
            old(self).inv(),
            old(self).piece_active,
            !old(self).line_to_delete,
        ensures
            final(self).inv(),
            piece_advanced(*old(self), *final(self), *input),
    {
        self.advance_counters(input);
        self.gravity_step();
        let ghost m2 = *self;
        if self.piece_active && self.lateral_movement_counter >= LATERAL_SPEED {
            if !self.resolve_lateral_movement(input) {
                self.lateral_movement_counter = 0;
            }
        }
        let ghost m3 = *self;
        if self.piece_active && self.turn_movement_counter >= TURNING_SPEED {
            if self.resolve_turn_movement(input) {
                self.turn_movement_counter = 0;
            }
        }
        assert(gravity_stepped(counters_advanced(*old(self), *input), m2) && lateral_stepped(m2, m3, *input)
            && turn_stepped(m3, *self, *input));
    }

    /// A tick outside the clearing phase: spawn or move, then the check of
    /// the two top rows.
    fn play_step(&mut self, input: &Input, seed: usize, next: usize)
        requires
            old(self).inv(),
            !old(self).game_over,
            !old(self).pause,
            !old(self).line_to_delete,
            seed < 7,
            next < 7,
        ensures
            final(self).inv(),
            !old(self).piece_active ==> {
                &&& spawned(*old(self), *final(self))
                &&& final(self).incoming_piece.is_shape(next as int)
                &&& old(self).begin_play ==> final(self).piece.is_shape(seed as int)
            },
            old(self).piece_active ==> {
                &&& piece_advanced(*old(self), Game { game_over: false, ..*final(self) }, *input)
                &&& final(self).game_over == final(self).board.spec_top_full()
            },
    {
        if !self.piece_active {
            self.piece_active = self.create_piece_from(seed, next);
            self.fast_fall_movement_counter = 0;
        } else {
            self.advance_piece(input);
        }
        if self.board.top_full() {
            self.game_over = true;
        }
    }

    /// A tick of the clearing phase: the fade runs on, and the fading rows go
    /// once it has run its course.
    fn fade_step(&mut self)
        requires
            old(self).inv(),
            !old(self).game_over,
            old(self).line_to_delete,
        ensures
            final(self).inv(),
            fade_ticked(*old(self), *final(self)),
    {
        self.fade_line_counter = self.fade_line_counter + 1;
        if self.fade_line_counter % 8 < 4 {
            self.fading_colour = PieceColor::Maroon;
        } else {
            self.fading_colour = PieceColor::Gray;
        }
        if self.fade_line_counter >= FADING_TIME {
            self.fade_line_counter = 0;
            self.delete_complete_lines();
            self.line_to_delete = false;
            if self.lines < u32::MAX {
                self.lines = self.lines + 1;
            }
        }
    }

    /// Advances the game by one tick, drawing at random the shapes that a
    /// spawn in this tick needs.
    pub fn update(&mut self, input: &Input)
        requires
            old(self).inv(),
        ensures
            final(self).inv(),
            ticked(*old(self), *final(self), *input),
    {
        let paused = if input.pause_pressed {
            !self.pause
        } else {
            self.pause
        };
        let spawn_due = !self.game_over && !paused && !self.line_to_delete && !self.piece_active;
        let seed = if spawn_due && self.begin_play {
            random_shape()
        } else {
            0
        };
        let next = if spawn_due {
            random_shape()
        } else {
            0
        };
        self.tick(input, seed, next);
    }
}

} // verus!
