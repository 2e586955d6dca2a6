//! Landing detection, gravity, lateral moves, rotation and spawning.
use vstd::prelude::*;

use crate::board::{dx, in_board, is_interior, Direction, Edit};
use crate::cell::Cell;
use crate::game::{
    lemma_full_within_keeps_rows, lemma_shift_footprint, lemma_shift_keeps_full, Game, Input, SPAWN_X,
};
use crate::piece::{shape_color, turned, Piece};
use crate::random::random_shape;

verus! {

impl Game {
    /// With a piece in flight, its anchor stays within a few cells of the board.
    pub proof fn lemma_anchor_bounds(&self)
        requires
            self.inv_core(),
            self.piece_active,
        ensures
            -3 <= self.piece_position_x <= 10,
            -3 <= self.piece_position_y <= 18,
    {
        let (lx, ly) = choose|lx: int, ly: int|
            0 <= lx < 4 && 0 <= ly < 4 && #[trigger] self.piece.local(lx, ly) == Cell::Moving;
        let ax = self.piece_position_x as int;
        let ay = self.piece_position_y as int;
        assert(self.piece.covers(ax, ay, ax + lx, ay + ly));
    }

    /// Records whether the piece in flight has landed: some of its cells
    /// stands on a settled cell or on the frame.
    pub fn check_detection(&mut self)
        requires
            old(self).board.wf(),
        ensures
            *final(self) == (Game {
                detection: old(self).detection || old(self).board.spec_blocked(Direction::Down),
                ..*old(self)
            }),
    {
        if self.board.blocked(Direction::Down) {
            self.detection = true;
        }
    }

    /// One gravity step: a landed piece settles where it is, any other piece
    /// comes down one row.
    pub fn resolve_falling_movement(&mut self)
        requires
            old(self).inv_core(),
            old(self).piece_active,
            old(self).detection || !old(self).board.spec_blocked(Direction::Down),
        ensures
            final(self).inv_core(),
            !final(self).detection,
            old(self).detection ==> {
                &&& *final(self) == (Game { board: final(self).board, detection: false, piece_active: false, ..*old(self) })
                &&& final(self).board.no_moving()
                &&& forall|x: int, y: int|
                    #![trigger final(self).board.at(x, y)]
                    in_board(x, y) ==> final(self).board.at(x, y) == old(self).board.edited_at(Edit::Lock, x, y)
            },
            !old(self).detection ==> {
                &&& *final(self) == (Game {
                    board: final(self).board,
                    piece_position_y: (old(self).piece_position_y + 1) as i32,
                    ..*old(self)
                })
                &&& old(self).board.no_full_row() ==> final(self).board.no_full_row()
                &&& final(self).board.full_within(old(self).board)
                &&& old(self).board.full_within(final(self).board)
                &&& forall|x: int, y: int|
                    #![trigger final(self).board.at(x, y)]
                    in_board(x, y) ==> final(self).board.at(x, y) == old(self).board.edited_at(
                        Edit::Shift(Direction::Down),
                        x,
                        y,
                    )
            },
    {
        proof {
            self.lemma_anchor_bounds();
        }
        if self.detection {
            self.board.apply(Edit::Lock);
            self.detection = false;
            self.piece_active = false;
        } else {
            let ghost before = self.board;
            self.board.apply(Edit::Shift(Direction::Down));
            proof {
                lemma_shift_footprint(
                    before,
                    self.board,
                    self.piece,
                    self.piece_position_x as int,
                    self.piece_position_y as int,
                    Direction::Down,
                );
                lemma_shift_keeps_full(before, self.board, Direction::Down);
                if before.no_full_row() {
                    lemma_full_within_keeps_rows(self.board, before);
                }
            }
            self.piece_position_y = self.piece_position_y + 1;
        }
    }

    /// One lateral step in the held direction, left first. Tells whether the
    /// step was blocked; a blocked step changes nothing.
    pub fn resolve_lateral_movement(&mut self, input: &Input) -> (collision: bool)
        requires
            old(self).inv(),
            old(self).piece_active,
        ensures
            final(self).inv(),
            final(self).piece_active,
            !input.left_held && !input.right_held ==> !collision && *final(self) == *old(self),
            collision ==> *final(self) == *old(self),
            input.left_held || input.right_held ==> {
                let d = if input.left_held {
                    Direction::Left
                } else {
                    Direction::Right
                };
                &&& collision == old(self).board.spec_blocked(d)
                &&& !collision ==> {
                    &&& *final(self) == (Game {
                        board: final(self).board,
                        piece_position_x: (old(self).piece_position_x + dx(d)) as i32,
                        ..*old(self)
                    })
                    &&& forall|x: int, y: int|
                        #![trigger final(self).board.at(x, y)]
                        in_board(x, y) ==> final(self).board.at(x, y) == old(self).board.edited_at(
                            Edit::Shift(d),
                            x,
                            y,
                        )
                }
            },
    {
        if !input.left_held && !input.right_held {
            return false;
        }
        let d = if input.left_held {
            Direction::Left
        } else {
            Direction::Right
        };
        if self.board.blocked(d) {
            return true;
        }
        proof {
            self.lemma_anchor_bounds();
        }
        let ghost before = self.board;
        self.board.apply(Edit::Shift(d));
        proof {
            lemma_shift_footprint(
                before,
                self.board,
                self.piece,
                self.piece_position_x as int,
                self.piece_position_y as int,
                d,
            );
            lemma_shift_keeps_full(before, self.board, d);
            lemma_full_within_keeps_rows(self.board, before);
        }
        if input.left_held {
            self.piece_position_x = self.piece_position_x - 1;
        } else {
            self.piece_position_x = self.piece_position_x + 1;
        }
        false
    }

    /// Turns the piece in flight a quarter turn while rotate is held, if the
    /// turned piece fits at the same anchor; tells whether rotate was held.
    pub fn resolve_turn_movement(&mut self, input: &Input) -> (r: bool)
        requires
            old(self).inv(),
            old(self).piece_active,
        ensures
            final(self).inv(),
            final(self).piece_active,
            r == input.rotate_held,
            !input.rotate_held ==> *final(self) == *old(self),
            input.rotate_held ==> {
                let ax = old(self).piece_position_x as int;
                let ay = old(self).piece_position_y as int;
                ||| (*final(self) == *old(self) && forall|q: Piece|
                    #![trigger turned(q, old(self).piece)]
                    turned(q, old(self).piece) ==> !old(self).board.spec_fits(q, ax, ay))
                ||| {
                    &&& turned(final(self).piece, old(self).piece)
                    &&& final(self).piece.color == old(self).piece.color
                    &&& old(self).board.spec_fits(final(self).piece, ax, ay)
                    &&& *final(self) == (Game { board: final(self).board, piece: final(self).piece, ..*old(self) })
                    &&& forall|x: int, y: int|
                        #![trigger final(self).board.at(x, y)]
                        in_board(x, y) ==> final(self).board.at(x, y) == (if final(self).piece.covers(ax, ay, x, y) {
                            Cell::Moving
                        } else {
                            old(self).board.edited_at(Edit::ClearMoving, x, y)
                        })
                }
            },
    {
        if !input.rotate_held {
            return false;
        }
        let ax = self.piece_position_x;
        let ay = self.piece_position_y;
        let t = self.piece.rotated();
        if self.board.fits(&t, ax, ay) {
            let ghost before = self.board;
            self.board.apply(Edit::ClearMoving);
            assert forall|x: int, y: int| #[trigger] t.covers(ax as int, ay as int, x, y) implies is_interior(x, y) by {
                assert(t.local(x - ax, y - ay) == Cell::Moving);
                assert(before.at(x, y) != Cell::Block);
            }
            let ghost cleared = self.board;
            self.board.stamp(&t, ax, ay);
            proof {
                let o = choose|o: Seq<(int, int)>| #[trigger] old(self).piece.four_cells(o);
                old(self).piece.lemma_turn_four_cells(t, o);
            }
            self.piece = t;
            proof {
                let b = self.board;
                assert forall|x: int, y: int|
                    #![trigger b.at(x, y), before.at(x, y)]
                    in_board(x, y) && b.at(x, y) == Cell::Full implies before.at(x, y) == Cell::Full by {
                    assert(cleared.at(x, y) == before.edited_at(Edit::ClearMoving, x, y));
                }
                lemma_full_within_keeps_rows(b, before);
                assert forall|x: int, y: int| #![trigger b.at(x, y)] in_board(x, y) implies (b.at(x, y) == Cell::Moving
                    <==> t.covers(ax as int, ay as int, x, y)) by {
                    assert(cleared.at(x, y) == before.edited_at(Edit::ClearMoving, x, y));
                }
            }
        } else {
            proof {
                assert forall|q: Piece|
                    #![trigger turned(q, old(self).piece)]
                    turned(q, old(self).piece) implies !old(self).board.spec_fits(q, ax as int, ay as int) by {
                    if old(self).board.spec_fits(q, ax as int, ay as int) {
                        assert forall|x: int, y: int|
                            #![trigger t.local(x, y)]
                            0 <= x < 4 && 0 <= y < 4 && t.local(x, y) == Cell::Moving implies in_board(ax + x, ay + y)
                                && (self.board.at(ax + x, ay + y) == Cell::Empty || self.board.at(ax + x, ay + y)
                                == Cell::Moving) by {
                            assert(q.local(x, y) == t.local(x, y));
                        }
                    }
                }
            }
        }
        true
    }

    /// Promotes the incoming piece to the piece in flight and stamps it at
    /// the spawn anchor. `seed` is the shape drawn for the incoming piece of
    /// the very first spawn and is used only then; `next` is the shape of the
    /// new incoming piece.
    pub fn create_piece_from(&mut self, seed: usize, next: usize) -> (r: bool)
        requires
            old(self).inv(),
            !old(self).piece_active,
            !old(self).line_to_delete,
            seed < 7,
            next < 7,
        ensures
            final(self).inv(),
            r,
            final(self).piece_active,
            *final(self) == (Game {
                board: final(self).board,
                piece: final(self).piece,
                incoming_piece: final(self).incoming_piece,
                piece_position_x: SPAWN_X,
                piece_position_y: 0,
                begin_play: false,
                piece_active: true,
                ..*old(self)
            }),
            final(self).incoming_piece.is_shape(next as int),
            final(self).incoming_piece.color == shape_color(next as int),
            old(self).begin_play ==> final(self).piece.is_shape(seed as int) && final(self).piece.color == shape_color(
                seed as int,
            ),
            !old(self).begin_play ==> final(self).piece == old(self).incoming_piece,
            exists|k: int| 0 <= k < 7 && #[trigger] final(self).piece.is_shape(k),
            forall|x: int, y: int|
                #![trigger final(self).board.at(x, y)]
                in_board(x, y) ==> (final(self).board.at(x, y) == Cell::Moving <==> final(self).piece.covers(
                    SPAWN_X as int,
                    0,
                    x,
                    y,
                )),
            forall|x: int, y: int|
                #![trigger final(self).board.at(x, y)]
                in_board(x, y) ==> final(self).board.at(x, y) == (if final(self).piece.covers(SPAWN_X as int, 0, x, y) {
                    Cell::Moving
                } else {
                    old(self).board.at(x, y)
                }),
    {
        self.piece_position_x = SPAWN_X;
        self.piece_position_y = 0;
        if self.begin_play {
            self.incoming_piece = Piece::from_shape(seed);
            self.begin_play = false;
        }
        let mut fresh = Piece::from_shape(next);
        std::mem::swap(&mut self.incoming_piece, &mut fresh);
        self.piece = fresh;
        proof {
            let k = choose|k: int| 0 <= k < 7 && #[trigger] self.piece.is_shape(k);
            self.piece.lemma_shape_has_cell(k);
            self.piece.lemma_shape_four_cells(k);
        }
        let ghost before = self.board;
        self.board.stamp(&self.piece, SPAWN_X, 0);
        self.piece_active = true;
        proof {
            let b = self.board;
            assert forall|x: int, y: int|
                #![trigger b.at(x, y), before.at(x, y)]
                in_board(x, y) && b.at(x, y) == Cell::Full implies before.at(x, y) == Cell::Full by {}
            lemma_full_within_keeps_rows(b, before);
        }
        true
    }

    /// Spawns the next piece, drawing the shapes at random.
    pub fn create_piece(&mut self) -> (r: bool)
        requires
            old(self).inv(),
            !old(self).piece_active,
            !old(self).line_to_delete,
        ensures
            final(self).inv(),
            r,
            final(self).piece_active,
            *final(self) == (Game {
                board: final(self).board,
                piece: final(self).piece,
                incoming_piece: final(self).incoming_piece,
                piece_position_x: SPAWN_X,
                piece_position_y: 0,
                begin_play: false,
                piece_active: true,
                ..*old(self)
            }),
            !old(self).begin_play ==> final(self).piece == old(self).incoming_piece,
            exists|k: int| 0 <= k < 7 && #[trigger] final(self).piece.is_shape(k),
            exists|k: int| 0 <= k < 7 && #[trigger] final(self).incoming_piece.is_shape(k),
            forall|x: int, y: int|
                #![trigger final(self).board.at(x, y)]
                in_board(x, y) ==> (final(self).board.at(x, y) == Cell::Moving <==> final(self).piece.covers(
                    SPAWN_X as int,
                    0,
                    x,
                    y,
                )),
            forall|x: int, y: int|
                #![trigger final(self).board.at(x, y)]
                in_board(x, y) ==> final(self).board.at(x, y) == (if final(self).piece.covers(SPAWN_X as int, 0, x, y) {
                    Cell::Moving
                } else {
                    old(self).board.at(x, y)
                }),
    {
        let seed = if self.begin_play {
            random_shape()
        } else {
            0
        };
        let next = random_shape();
        self.create_piece_from(seed, next)
    }
}

} // verus!
