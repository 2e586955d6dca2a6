//! The board: a fixed grid of cells inside a permanent frame, and the
//! whole-board rewrites that move the piece in flight.
use vstd::prelude::*;

use crate::cell::Cell;
use crate::piece::Piece;

verus! {

/// Number of columns, border columns included.
pub const WIDTH: usize = 12;

/// Number of rows, bottom border row included.
pub const HEIGHT: usize = 20;

/// The cell at column `x`, row `y` of a row-major grid.
pub open spec fn grid_at(s: Seq<Cell>, x: int, y: int) -> Cell {
    s[y * 12 + x]
}

pub open spec fn in_board(x: int, y: int) -> bool {
    0 <= x < 12 && 0 <= y < 20
}

/// The frame: leftmost column, rightmost column and bottom row.
pub open spec fn is_border(x: int, y: int) -> bool {
    x == 0 || x == 11 || y == 19
}

pub open spec fn is_interior(x: int, y: int) -> bool {
    in_board(x, y) && !is_border(x, y)
}

/// Appending to a row-major grid leaves the cells already there in place.
pub proof fn lemma_push_keeps(s: Seq<Cell>, c: Cell)
    ensures
        forall|xx: int, yy: int|
            #![trigger grid_at(s.push(c), xx, yy)]
            0 <= xx < 12 && 0 <= yy * 12 + xx < s.len() ==> grid_at(s.push(c), xx, yy) == grid_at(s, xx, yy),
        forall|xx: int, yy: int|
            #![trigger grid_at(s.push(c), xx, yy)]
            0 <= xx < 12 && yy * 12 + xx == s.len() ==> grid_at(s.push(c), xx, yy) == c,
{
}

/// No whole-board edit creates a `Fading` cell.
pub proof fn lemma_edit_keeps_no_fading(a: Board, b: Board, e: Edit)
    requires
        a.no_fading(),
        forall|x: int, y: int| #![trigger b.at(x, y)] in_board(x, y) ==> b.at(x, y) == a.edited_at(e, x, y),
    ensures
        b.no_fading(),
{
    assert forall|x: int, y: int| #![trigger b.at(x, y)] in_board(x, y) implies b.at(x, y) != Cell::Fading by {
        assert(a.at(x, y) != Cell::Fading);
        if y > 0 {
            assert(a.at(x, y - 1) != Cell::Fading);
        }
    }
}

/// A direction in which the piece in flight can be shifted.
#[derive(Clone, Copy, Debug, PartialEq, Eq, Structural)]
pub enum Direction {
    Down,
    Left,
    Right,
}

/// Column offset of a shift.
pub open spec fn dx(d: Direction) -> int {
    match d {
        Direction::Down => 0,
        Direction::Left => -1,
        Direction::Right => 1,
    }
}

/// Row offset of a shift.
pub open spec fn dy(d: Direction) -> int {
    match d {
        Direction::Down => 1,
        _ => 0,
    }
}

/// A whole-board rewrite, applied to every cell at once.
#[derive(Clone, Copy, Debug, PartialEq, Eq, Structural)]
pub enum Edit {
    /// Every `Moving` cell becomes `Full`.
    Lock,
    /// Every `Moving` cell becomes `Empty`.
    ClearMoving,
    /// Every `Moving` cell moves one step in the direction.
    Shift(Direction),
    /// The interior of the row is removed and the interior rows above it
    /// come down by one; the top row becomes empty.
    DropRow(usize),
}

/// The grid of cells, framed by a permanent border of `Block` cells.
pub struct Board {
    pub cells: Vec<Cell>,
}

impl Board {
    pub open spec fn at(&self, x: int, y: int) -> Cell {
        grid_at(self.cells@, x, y)
    }

    /// The border holds `Block` cells and no other cell does.
    pub open spec fn wf(&self) -> bool {
        &&& self.cells@.len() == 240
        &&& forall|x: int, y: int|
            #![trigger self.at(x, y)]
            in_board(x, y) ==> (self.at(x, y) == Cell::Block <==> is_border(x, y))
    }

    pub open spec fn no_fading(&self) -> bool {
        forall|x: int, y: int| #![trigger self.at(x, y)] in_board(x, y) ==> self.at(x, y) != Cell::Fading
    }

    pub open spec fn no_moving(&self) -> bool {
        forall|x: int, y: int| #![trigger self.at(x, y)] in_board(x, y) ==> self.at(x, y) != Cell::Moving
    }

    /// The cell at (x, y) belongs to the piece in flight and a shift in
    /// direction `d` would push it onto the frame or onto a settled cell.
    pub open spec fn stuck(&self, d: Direction, x: int, y: int) -> bool {
        &&& is_interior(x, y)
        &&& self.at(x, y) == Cell::Moving
        &&& (self.at(x + dx(d), y + dy(d)) == Cell::Full || self.at(x + dx(d), y + dy(d)) == Cell::Block)
    }

    /// Some cell of the piece in flight is stuck in direction `d`.
    pub open spec fn spec_blocked(&self, d: Direction) -> bool {
        exists|x: int, y: int| #[trigger] self.stuck(d, x, y)
    }

    /// What the cell at (x, y) holds after `e` is applied to this board.
    pub open spec fn edited_at(&self, e: Edit, x: int, y: int) -> Cell {
        let c = self.at(x, y);
        match e {
            Edit::Lock => if c == Cell::Moving {
                Cell::Full
            } else {
                c
            },
            Edit::ClearMoving => if c == Cell::Moving {
                Cell::Empty
            } else {
                c
            },
            Edit::Shift(d) => {
                let sx = x - dx(d);
                let sy = y - dy(d);
                if in_board(sx, sy) && self.at(sx, sy) == Cell::Moving {
                    Cell::Moving
                } else if c == Cell::Moving {
                    Cell::Empty
                } else {
                    c
                }
            },
            Edit::DropRow(j) => if is_border(x, y) || y > j {
                c
            } else if y == 0 {
                Cell::Empty
            } else {
                self.at(x, y - 1)
            },
        }
    }

    /// The edits that keep the frame intact on this board.
    pub open spec fn keeps_frame(&self, e: Edit) -> bool {
        match e {
            Edit::Shift(d) => !self.spec_blocked(d),
            Edit::DropRow(j) => j < 19,
            _ => true,
        }
    }

    /// A board with the frame in place and every other cell empty.
    pub fn new() -> (r: Board)
        ensures
            r.wf(),
            r.no_moving(),
            forall|x: int, y: int| #![trigger r.at(x, y)] is_interior(x, y) ==> r.at(x, y) == Cell::Empty,
    {
        let mut cells: Vec<Cell> = Vec::new();
        let mut y: usize = 0;
        while y < HEIGHT
            invariant
                y <= 20,
                cells@.len() == y * 12,
                forall|xx: int, yy: int|
                    #![trigger grid_at(cells@, xx, yy)]
                    0 <= xx < 12 && 0 <= yy < y ==> grid_at(cells@, xx, yy) == (if is_border(xx, yy) {
                        Cell::Block
                    } else {
                        Cell::Empty
                    }),
            decreases 20 - y,
        {
            let mut x: usize = 0;
            while x < WIDTH
                invariant
                    x <= 12,
                    y < 20,
                    cells@.len() == y * 12 + x,
                    forall|xx: int, yy: int|
                        #![trigger grid_at(cells@, xx, yy)]
                        0 <= xx < 12 && 0 <= yy < 20 && (yy < y || (yy == y && xx < x))
                            ==> grid_at(cells@, xx, yy) == (if is_border(xx, yy) {
                            Cell::Block
                        } else {
                            Cell::Empty
                        }),
                decreases 12 - x,
            {
                let ghost before = cells@;
                if x == 0 || x == WIDTH - 1 || y == HEIGHT - 1 {
                    cells.push(Cell::Block);
                } else {
                    cells.push(Cell::Empty);
                }
                proof {
                    lemma_push_keeps(before, cells@[cells@.len() - 1]);
                }
                x += 1;
            }
            y += 1;
        }
        Board { cells }
    }

    /// The cell at column `x`, row `y`.
    pub fn cell(&self, x: usize, y: usize) -> (r: Cell)
        requires
            self.cells@.len() == 240,
            x < 12,
            y < 20,
        ensures
            r == self.at(x as int, y as int),
    {
        self.cells[y * WIDTH + x]
    }

    /// Writes `c` into the interior cell at column `x`, row `y`.
    pub fn set_cell(&mut self, x: usize, y: usize, c: Cell)
        requires
            old(self).wf(),
            is_interior(x as int, y as int),
            c != Cell::Block,
        ensures
            final(self).wf(),
            final(self).at(x as int, y as int) == c,
            forall|xx: int, yy: int|
                #![trigger final(self).at(xx, yy)]
                in_board(xx, yy) && (xx != x || yy != y) ==> final(self).at(xx, yy) == old(self).at(xx, yy),
    {
        self.cells.set(y * WIDTH + x, c);
        proof {
            assert forall|xx: int, yy: int| #![trigger self.at(xx, yy)] in_board(xx, yy) implies (self.at(xx, yy)
                == Cell::Block <==> is_border(xx, yy)) by {
                if xx != x || yy != y {
                    assert(old(self).at(xx, yy) == self.at(xx, yy));
                }
            }
        }
    }

    /// What the cell at (x, y) holds after `e`.
    fn edited_cell(&self, e: Edit, x: usize, y: usize) -> (r: Cell)
        requires
            self.cells@.len() == 240,
            x < 12,
            y < 20,
        ensures
            r == self.edited_at(e, x as int, y as int),
    {
        let c = self.cell(x, y);
        match e {
            Edit::Lock => if c == Cell::Moving {
                Cell::Full
            } else {
                c
            },
            Edit::ClearMoving => if c == Cell::Moving {
                Cell::Empty
            } else {
                c
            },
            Edit::Shift(d) => {
                let source_moving = match d {
                    Direction::Down => y >= 1 && self.cell(x, y - 1) == Cell::Moving,
                    Direction::Left => x + 1 < WIDTH && self.cell(x + 1, y) == Cell::Moving,
                    Direction::Right => x >= 1 && self.cell(x - 1, y) == Cell::Moving,
                };
                if source_moving {
                    Cell::Moving
                } else if c == Cell::Moving {
                    Cell::Empty
                } else {
                    c
                }
            },
            Edit::DropRow(j) => if x == 0 || x == WIDTH - 1 || y == HEIGHT - 1 || y > j {
                c
            } else if y == 0 {
                Cell::Empty
            } else {
                self.cell(x, y - 1)
            },
        }
    }

    /// A new board holding this one with `e` applied to every cell.
    pub fn edited(&self, e: Edit) -> (r: Board)
        requires
            self.cells@.len() == 240,
        ensures
            r.cells@.len() == 240,
            forall|x: int, y: int| #![trigger r.at(x, y)] in_board(x, y) ==> r.at(x, y) == self.edited_at(e, x, y),
    {
        let mut cells: Vec<Cell> = Vec::new();
        let mut y: usize = 0;
        while y < HEIGHT
            invariant
                self.cells@.len() == 240,
                y <= 20,
                cells@.len() == y * 12,
                forall|xx: int, yy: int|
                    #![trigger grid_at(cells@, xx, yy)]
                    0 <= xx < 12 && 0 <= yy < y ==> grid_at(cells@, xx, yy) == self.edited_at(e, xx, yy),
            decreases 20 - y,
        {
            let mut x: usize = 0;
            while x < WIDTH
                invariant
                    self.cells@.len() == 240,
                    x <= 12,
                    y < 20,
                    cells@.len() == y * 12 + x,
                    forall|xx: int, yy: int|
                        #![trigger grid_at(cells@, xx, yy)]
                        0 <= xx < 12 && 0 <= yy < 20 && (yy < y || (yy == y && xx < x))
                            ==> grid_at(cells@, xx, yy) == self.edited_at(e, xx, yy),
                decreases 12 - x,
            {
                let ghost before = cells@;
                let c = self.edited_cell(e, x, y);
                cells.push(c);
                proof {
                    lemma_push_keeps(before, c);
                }
                x += 1;
            }
            y += 1;
        }
        Board { cells }
    }

    /// Applies `e` to every cell of the board.
    pub fn apply(&mut self, e: Edit)
        requires
            old(self).wf(),
            old(self).keeps_frame(e),
        ensures
            final(self).wf(),
            forall|x: int, y: int|
                #![trigger final(self).at(x, y)]
                in_board(x, y) ==> final(self).at(x, y) == old(self).edited_at(e, x, y),
    {
        let r = self.edited(e);
        proof {
            assert forall|x: int, y: int| #![trigger r.at(x, y)] in_board(x, y) implies (r.at(x, y)
                == Cell::Block <==> is_border(x, y)) by {
                assert(self.at(x, y) == Cell::Block <==> is_border(x, y));
                if let Edit::Shift(d) = e {
                    let sx = x - dx(d);
                    let sy = y - dy(d);
                    if in_board(sx, sy) && self.at(sx, sy) == Cell::Moving {
                        assert(self.at(sx, sy) != Cell::Block);
                        if is_border(x, y) {
                            assert(self.stuck(d, sx, sy));
                        }
                    }
                }
                if let Edit::DropRow(j) = e {
                    if !is_border(x, y) && y <= j && y > 0 {
                        assert(self.at(x, y - 1) != Cell::Block);
                    }
                }
            }
        }
        *self = r;
    }

    /// Tells whether some cell of the piece in flight would be pushed onto
    /// the frame or onto a settled cell by a shift in direction `d`.
    pub fn blocked(&self, d: Direction) -> (r: bool)
        requires
            self.wf(),
        ensures
            r == self.spec_blocked(d),
    {
        let mut y: usize = 0;
        while y < HEIGHT - 1
            invariant
                self.wf(),
                y <= 19,
                forall|xx: int, yy: int| #![trigger self.stuck(d, xx, yy)] yy < y ==> !self.stuck(d, xx, yy),
            decreases 19 - y,
        {
            let mut x: usize = 1;
            while x < WIDTH - 1
                invariant
                    self.wf(),
                    1 <= x <= 11,
                    y < 19,
                    forall|xx: int, yy: int|
                        #![trigger self.stuck(d, xx, yy)]
                        (yy < y || (yy == y && xx < x)) ==> !self.stuck(d, xx, yy),
                decreases 11 - x,
            {
                if self.cell(x, y) == Cell::Moving {
                    let next = match d {
                        Direction::Down => self.cell(x, y + 1),
                        Direction::Left => self.cell(x - 1, y),
                        Direction::Right => self.cell(x + 1, y),
                    };
                    if next == Cell::Full || next == Cell::Block {
                        assert(self.stuck(d, x as int, y as int));
                        return true;
                    }
                }
                x += 1;
            }
            y += 1;
        }
        false
    }

    /// Placed at (ax, ay), every occupied cell of `p` lands on the board on
    /// a cell that is `Empty` or `Moving`.
    pub open spec fn spec_fits(&self, p: Piece, ax: int, ay: int) -> bool {
        forall|x: int, y: int|
            #![trigger p.local(x, y)]
            0 <= x < 4 && 0 <= y < 4 && p.local(x, y) == Cell::Moving ==> in_board(ax + x, ay + y) && (
            self.at(ax + x, ay + y) == Cell::Empty || self.at(ax + x, ay + y) == Cell::Moving)
    }

    /// Tells whether `p` placed at (ax, ay) fits on the board.
    pub fn fits(&self, p: &Piece, ax: i32, ay: i32) -> (r: bool)
        requires
            self.wf(),
            p.wf(),
        ensures
            r == self.spec_fits(*p, ax as int, ay as int),
    {
        let mut lx: usize = 0;
        while lx < 4
            invariant
                self.wf(),
                p.wf(),
                lx <= 4,
                forall|x: int, y: int|
                    #![trigger p.local(x, y)]
                    0 <= x < lx && 0 <= y < 4 && p.local(x, y) == Cell::Moving ==> in_board(ax + x, ay + y)
                        && (self.at(ax + x, ay + y) == Cell::Empty || self.at(ax + x, ay + y) == Cell::Moving),
            decreases 4 - lx,
        {
            let mut ly: usize = 0;
            while ly < 4
                invariant
                    self.wf(),
                    p.wf(),
                    lx < 4,
                    ly <= 4,
                    forall|x: int, y: int|
                        #![trigger p.local(x, y)]
                        0 <= x < 4 && 0 <= y < 4 && (x < lx || (x == lx && y < ly)) && p.local(x, y)
                            == Cell::Moving ==> in_board(ax + x, ay + y) && (self.at(ax + x, ay + y)
                            == Cell::Empty || self.at(ax + x, ay + y) == Cell::Moving),
                decreases 4 - ly,
            {
                if p.cells[lx * 4 + ly] == Cell::Moving {
                    let bx: i64 = ax as i64 + lx as i64;
                    let by: i64 = ay as i64 + ly as i64;
                    if bx < 0 || bx >= WIDTH as i64 || by < 0 || by >= HEIGHT as i64 {
                        assert(p.local(lx as int, ly as int) == Cell::Moving);
                        return false;
                    }
                    let c = self.cell(bx as usize, by as usize);
                    if c != Cell::Empty && c != Cell::Moving {
                        assert(p.local(lx as int, ly as int) == Cell::Moving);
                        return false;
                    }
                }
                ly += 1;
            }
            lx += 1;
        }
        true
    }

    /// Writes `Moving` on every board cell that `p` placed at (ax, ay) covers.
    pub fn stamp(&mut self, p: &Piece, ax: i32, ay: i32)
        requires
            old(self).wf(),
            p.wf(),
            forall|x: int, y: int| #[trigger] p.covers(ax as int, ay as int, x, y) ==> is_interior(x, y),
        ensures
            final(self).wf(),
            forall|x: int, y: int|
                #![trigger final(self).at(x, y)]
                in_board(x, y) ==> final(self).at(x, y) == (if p.covers(ax as int, ay as int, x, y) {
                    Cell::Moving
                } else {
                    old(self).at(x, y)
                }),
    {
        let ghost start = *self;
        let mut lx: usize = 0;
        while lx < 4
            invariant
                self.wf(),
                p.wf(),
                lx <= 4,
                forall|x: int, y: int| #[trigger] p.covers(ax as int, ay as int, x, y) ==> is_interior(x, y),
                forall|x: int, y: int|
                    #![trigger self.at(x, y)]
                    in_board(x, y) ==> self.at(x, y) == (if p.covers(ax as int, ay as int, x, y) && x
                        - ax < lx {
                        Cell::Moving
                    } else {
                        start.at(x, y)
                    }),
            decreases 4 - lx,
        {
            let mut ly: usize = 0;
            while ly < 4
                invariant
                    self.wf(),
                    p.wf(),
                    lx < 4,
                    ly <= 4,
                    forall|x: int, y: int| #[trigger] p.covers(ax as int, ay as int, x, y) ==> is_interior(x, y),
                    forall|x: int, y: int|
                        #![trigger self.at(x, y)]
                        in_board(x, y) ==> self.at(x, y) == (if p.covers(ax as int, ay as int, x, y) && (x
                            - ax < lx || (x - ax == lx && y - ay < ly)) {
                            Cell::Moving
                        } else {
                            start.at(x, y)
                        }),
                decreases 4 - ly,
            {
                if p.cells[lx * 4 + ly] == Cell::Moving {
                    let bx: i64 = ax as i64 + lx as i64;
                    let by: i64 = ay as i64 + ly as i64;
                    assert(p.covers(ax as int, ay as int, bx as int, by as int));
                    self.set_cell(bx as usize, by as usize, Cell::Moving);
                }
                ly += 1;
            }
            lx += 1;
        }
    }
}

} // verus!
