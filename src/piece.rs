//! The seven tetrominoes as 4x4 local matrices, and their rotation.
use vstd::prelude::*;

use crate::cell::{Cell, PieceColor};

verus! {

/// Number of shapes in the catalog.
pub const SHAPE_COUNT: usize = 7;

/// The four occupied local cells (column, row) of catalog shape `k`:
/// square, L, J, I, T, S and Z in that order.
pub open spec fn shape_offsets(k: int) -> Seq<(int, int)> {
    if k == 0 {
        seq![(1, 1), (2, 1), (1, 2), (2, 2)]
    } else if k == 1 {
        seq![(1, 0), (1, 1), (1, 2), (2, 2)]
    } else if k == 2 {
        seq![(1, 2), (2, 0), (2, 1), (2, 2)]
    } else if k == 3 {
        seq![(0, 1), (1, 1), (2, 1), (3, 1)]
    } else if k == 4 {
        seq![(1, 0), (1, 1), (1, 2), (2, 1)]
    } else if k == 5 {
        seq![(1, 1), (2, 1), (2, 2), (3, 2)]
    } else {
        seq![(1, 2), (2, 2), (2, 1), (3, 1)]
    }
}

/// Local cell (x, y) is occupied by catalog shape `k`.
pub open spec fn shape_has(k: int, x: int, y: int) -> bool {
    let o = shape_offsets(k);
    o[0] == (x, y) || o[1] == (x, y) || o[2] == (x, y) || o[3] == (x, y)
}

/// The display colour of catalog shape `k`.
pub open spec fn shape_color(k: int) -> PieceColor {
    if k == 0 {
        PieceColor::Yellow
    } else if k == 1 {
        PieceColor::Blue
    } else if k == 2 {
        PieceColor::Brown
    } else if k == 3 {
        PieceColor::SkyBlue
    } else if k == 4 {
        PieceColor::Purple
    } else if k == 5 {
        PieceColor::Green
    } else {
        PieceColor::Red
    }
}

/// The cell at local column `x`, row `y` of a 4x4 column-major matrix.
pub open spec fn local_at(s: Seq<Cell>, x: int, y: int) -> Cell {
    s[x * 4 + y]
}

/// `(x, y)` is one of the first four cells of `o`.
pub open spec fn in_four(o: Seq<(int, int)>, x: int, y: int) -> bool {
    o[0] == (x, y) || o[1] == (x, y) || o[2] == (x, y) || o[3] == (x, y)
}

/// Where local cell `c` of a piece lands when the piece is turned a quarter
/// turn.
pub open spec fn turn_cell(c: (int, int)) -> (int, int) {
    (c.1, 3 - c.0)
}

/// `r` is `p` turned a quarter turn: local cell (x, y) of `r` is local
/// cell (3 - y, x) of `p`.
pub open spec fn turned(r: Piece, p: Piece) -> bool {
    forall|x: int, y: int| #![trigger r.local(x, y)] 0 <= x < 4 && 0 <= y < 4 ==> r.local(x, y) == p.local(3 - y, x)
}

/// A tetromino: a 4x4 local matrix of `Empty` and `Moving` cells, and a colour.
pub struct Piece {
    pub cells: Vec<Cell>,
    pub color: PieceColor,
}

impl Piece {
    /// A piece with the matrix of a catalog shape has an occupied cell.
    pub proof fn lemma_shape_has_cell(&self, k: int)
        requires
            self.wf(),
            self.is_shape(k),
        ensures
            self.has_cell(),
    {
        let (x0, y0) = shape_offsets(k)[0];
        assert(shape_has(k, x0, y0));
        assert(self.local(x0, y0) == Cell::Moving);
    }

    pub open spec fn local(&self, x: int, y: int) -> Cell {
        local_at(self.cells@, x, y)
    }

    /// Sixteen cells, each `Empty` or `Moving`.
    pub open spec fn wf(&self) -> bool {
        &&& self.cells@.len() == 16
        &&& forall|x: int, y: int|
            #![trigger self.local(x, y)]
            0 <= x < 4 && 0 <= y < 4 ==> (self.local(x, y) == Cell::Empty || self.local(x, y)
                == Cell::Moving)
    }

    /// The occupied local cells are exactly the four distinct cells of `o`.
    pub open spec fn four_cells(&self, o: Seq<(int, int)>) -> bool {
        &&& o.len() == 4
        &&& forall|i: int, j: int| 0 <= i < j < 4 ==> #[trigger] o[i] != #[trigger] o[j]
        &&& forall|i: int| 0 <= i < 4 ==> 0 <= (#[trigger] o[i]).0 < 4 && 0 <= o[i].1 < 4
        &&& forall|x: int, y: int|
            #![trigger self.local(x, y)]
            0 <= x < 4 && 0 <= y < 4 ==> (self.local(x, y) == Cell::Moving <==> in_four(o, x, y))
    }

    /// Exactly four local cells are `Moving`.
    pub open spec fn has_four_cells(&self) -> bool {
        exists|o: Seq<(int, int)>| #[trigger] self.four_cells(o)
    }

    /// A catalog shape occupies exactly its four offsets.
    pub proof fn lemma_shape_four_cells(&self, k: int)
        requires
            0 <= k < 7,
            self.is_shape(k),
        ensures
            self.four_cells(shape_offsets(k)),
            self.has_four_cells(),
    {
        assert(self.four_cells(shape_offsets(k)));
    }

    /// Turning a piece with four occupied cells turns each of them.
    pub proof fn lemma_turn_four_cells(&self, r: Piece, o: Seq<(int, int)>)
        requires
            turned(r, *self),
            self.four_cells(o),
        ensures
            r.four_cells(o.map_values(|c: (int, int)| turn_cell(c))),
            r.has_four_cells(),
    {
        let o2 = o.map_values(|c: (int, int)| turn_cell(c));
        assert forall|i: int| 0 <= i < 4 implies #[trigger] o2[i] == turn_cell(o[i]) by {}
        assert forall|i: int, j: int| 0 <= i < j < 4 implies #[trigger] o2[i] != #[trigger] o2[j] by {
            assert(o[i] != o[j]);
            assert(o2[i] == turn_cell(o[i]) && o2[j] == turn_cell(o[j]));
        }
        assert forall|i: int| 0 <= i < 4 implies 0 <= (#[trigger] o2[i]).0 < 4 && 0 <= o2[i].1 < 4 by {
            assert(o2[i] == turn_cell(o[i]));
            assert(0 <= o[i].0 < 4 && 0 <= o[i].1 < 4);
        }
        assert forall|x: int, y: int| #![trigger r.local(x, y)] 0 <= x < 4 && 0 <= y < 4 implies (r.local(x, y)
            == Cell::Moving <==> in_four(o2, x, y)) by {
            assert(r.local(x, y) == self.local(3 - y, x));
            assert(o2[0] == turn_cell(o[0]) && o2[1] == turn_cell(o[1]) && o2[2] == turn_cell(o[2]) && o2[3]
                == turn_cell(o[3]));
        }
        assert(r.four_cells(o2));
    }

    /// At least one local cell is `Moving`.
    pub open spec fn has_cell(&self) -> bool {
        exists|x: int, y: int| 0 <= x < 4 && 0 <= y < 4 && #[trigger] self.local(x, y) == Cell::Moving
    }

    /// The piece's local matrix is that of catalog shape `k`.
    pub open spec fn is_shape(&self, k: int) -> bool {
        forall|x: int, y: int|
            #![trigger self.local(x, y)]
            0 <= x < 4 && 0 <= y < 4 ==> (self.local(x, y) == Cell::Moving <==> shape_has(k, x, y))
    }

    /// Placed with its top-left corner at (ax, ay), the piece occupies board
    /// cell (x, y).
    pub open spec fn covers(&self, ax: int, ay: int, x: int, y: int) -> bool {
        &&& 0 <= x - ax < 4
        &&& 0 <= y - ay < 4
        &&& self.local(x - ax, y - ay) == Cell::Moving
    }

    /// A piece with no occupied cell.
    pub fn empty() -> (r: Piece)
        ensures
            r.wf(),
            forall|x: int, y: int| 0 <= x < 4 && 0 <= y < 4 ==> #[trigger] r.local(x, y) == Cell::Empty,
    {
        let mut cells: Vec<Cell> = Vec::new();
        let mut i: usize = 0;
        while i < 16
            invariant
                i <= 16,
                cells@.len() == i,
                forall|l: int| 0 <= l < i ==> #[trigger] cells@[l] == Cell::Empty,
            decreases 16 - i,
        {
            cells.push(Cell::Empty);
            i += 1;
        }
        Piece { cells, color: PieceColor::Gray }
    }

    /// Catalog shape `k`, with its colour.
    pub fn from_shape(k: usize) -> (r: Piece)
        requires
            k < 7,
        ensures
            r.wf(),
            r.has_cell(),
            r.is_shape(k as int),
            r.color == shape_color(k as int),
    {
        let blank = Piece::empty();
        assert forall|x: int, y: int| 0 <= x < 4 && 0 <= y < 4 implies #[trigger] local_at(blank.cells@, x, y)
            == Cell::Empty by {
            assert(blank.local(x, y) == Cell::Empty);
        }
        let mut cells = blank.cells;
        let (offsets, color): ([(usize, usize); 4], PieceColor) = if k == 0 {
            ([(1, 1), (2, 1), (1, 2), (2, 2)], PieceColor::Yellow)
        } else if k == 1 {
            ([(1, 0), (1, 1), (1, 2), (2, 2)], PieceColor::Blue)
        } else if k == 2 {
            ([(1, 2), (2, 0), (2, 1), (2, 2)], PieceColor::Brown)
        } else if k == 3 {
            ([(0, 1), (1, 1), (2, 1), (3, 1)], PieceColor::SkyBlue)
        } else if k == 4 {
            ([(1, 0), (1, 1), (1, 2), (2, 1)], PieceColor::Purple)
        } else if k == 5 {
            ([(1, 1), (2, 1), (2, 2), (3, 2)], PieceColor::Green)
        } else {
            ([(1, 2), (2, 2), (2, 1), (3, 1)], PieceColor::Red)
        };
        let mut n: usize = 0;
        while n < 4
            invariant
                n <= 4,
                k < 7,
                cells@.len() == 16,
                forall|j: int|
                    #![trigger offsets@[j]]
                    0 <= j < 4 ==> offsets@[j].0 as int == shape_offsets(k as int)[j].0
                        && offsets@[j].1 as int == shape_offsets(k as int)[j].1,
                forall|x: int, y: int|
                    #![trigger local_at(cells@, x, y)]
                    0 <= x < 4 && 0 <= y < 4 ==> local_at(cells@, x, y) == (if exists|j: int|
                        0 <= j < n && #[trigger] shape_offsets(k as int)[j] == (x, y) {
                        Cell::Moving
                    } else {
                        Cell::Empty
                    }),
            decreases 4 - n,
        {
            let (x, y) = offsets[n];
            let ghost before = cells@;
            cells.set(x * 4 + y, Cell::Moving);
            proof {
                let o = shape_offsets(k as int);
                assert forall|xx: int, yy: int| 0 <= xx < 4 && 0 <= yy < 4 implies #[trigger] local_at(
                    cells@,
                    xx,
                    yy,
                ) == (if exists|j: int| 0 <= j < n + 1 && #[trigger] o[j] == (xx, yy) {
                    Cell::Moving
                } else {
                    Cell::Empty
                }) by {
                    if o[n as int] == (xx, yy) {
                        assert(0 <= n < n + 1 && o[n as int] == (xx, yy));
                    } else {
                        assert(local_at(cells@, xx, yy) == local_at(before, xx, yy));
                        if exists|j: int| 0 <= j < n + 1 && #[trigger] o[j] == (xx, yy) {
                            let j = choose|j: int| 0 <= j < n + 1 && #[trigger] o[j] == (xx, yy);
                            assert(0 <= j < n && o[j] == (xx, yy));
                        }
                    }
                }
            }
            n += 1;
        }
        let r = Piece { cells, color };
        proof {
            assert forall|x: int, y: int| 0 <= x < 4 && 0 <= y < 4 implies (#[trigger] r.local(x, y)
                == Cell::Moving <==> shape_has(k as int, x, y)) by {
                let o = shape_offsets(k as int);
                if shape_has(k as int, x, y) {
                    if o[0] == (x, y) {
                        assert(o[0] == (x, y));
                    } else if o[1] == (x, y) {
                        assert(o[1] == (x, y));
                    } else if o[2] == (x, y) {
                        assert(o[2] == (x, y));
                    } else {
                        assert(o[3] == (x, y));
                    }
                } else if exists|j: int| 0 <= j < 4 && #[trigger] o[j] == (x, y) {
                    let j = choose|j: int| 0 <= j < 4 && #[trigger] o[j] == (x, y);
                    assert(j == 0 || j == 1 || j == 2 || j == 3);
                }
            }
            let (x0, y0) = shape_offsets(k as int)[0];
            assert(shape_has(k as int, x0, y0));
            assert(r.local(x0, y0) == Cell::Moving);
        }
        r
    }

    /// The piece turned a quarter turn: local cell (x, y) of the result is
    /// local cell (3 - y, x) of this piece.
    pub fn rotated(&self) -> (r: Piece)
        requires
            self.wf(),
        ensures
            r.wf(),
            self.has_cell() ==> r.has_cell(),
            r.color == self.color,
            turned(r, *self),
    {
        let mut cells: Vec<Cell> = Vec::new();
        let mut x: usize = 0;
        while x < 4
            invariant
                self.wf(),
                x <= 4,
                cells@.len() == x * 4,
                forall|xx: int, yy: int|
                    #![trigger local_at(cells@, xx, yy)]
                    0 <= xx < x && 0 <= yy < 4 ==> local_at(cells@, xx, yy) == self.local(3 - yy, xx),
            decreases 4 - x,
        {
            let mut y: usize = 0;
            while y < 4
                invariant
                    self.wf(),
                    x < 4,
                    y <= 4,
                    cells@.len() == x * 4 + y,
                    forall|xx: int, yy: int|
                        #![trigger local_at(cells@, xx, yy)]
                        0 <= xx < 4 && 0 <= yy < 4 && (xx < x || (xx == x && yy < y)) ==> local_at(
                            cells@,
                            xx,
                            yy,
                        ) == self.local(3 - yy, xx),
                decreases 4 - y,
            {
                let ghost before = cells@;
                let c = self.cells[(3 - y) * 4 + x];
                cells.push(c);
                proof {
                    assert forall|xx: int, yy: int|
                        0 <= xx < 4 && 0 <= yy < 4 && (xx < x || (xx == x && yy <= y)) implies #[trigger] local_at(
                        cells@,
                        xx,
                        yy,
                    ) == self.local(3 - yy, xx) by {
                        if xx < x || yy < y {
                            assert(local_at(before, xx, yy) == local_at(cells@, xx, yy));
                        }
                    }
                }
                y += 1;
            }
            x += 1;
        }
        let r = Piece { cells, color: self.color };
        proof {
            assert forall|xx: int, yy: int| 0 <= xx < 4 && 0 <= yy < 4 implies (#[trigger] r.local(xx, yy)
                == Cell::Empty || r.local(xx, yy) == Cell::Moving) by {
                assert(self.local(3 - yy, xx) == Cell::Empty || self.local(3 - yy, xx) == Cell::Moving);
            }
            if self.has_cell() {
                let (mx, my) = choose|mx: int, my: int|
                    0 <= mx < 4 && 0 <= my < 4 && #[trigger] self.local(mx, my) == Cell::Moving;
                assert(r.local(my, 3 - mx) == Cell::Moving);
            }
        }
        r
    }
}

} // verus!
