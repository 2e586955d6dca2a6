//! Completed rows: detection, marking, removal, and the top-row check.
use vstd::prelude::*;

use crate::board::{in_board, is_interior, Board, Edit, HEIGHT, WIDTH};
use crate::cell::Cell;

verus! {

/// The row map after row `j` is dropped from a board whose rows `src` maps:
/// rows below `j` keep their source, rows 1..=j take the source of the row
/// above them, and the top row has none.
pub open spec fn dropped_src(src: Seq<int>, j: int) -> Seq<int> {
    Seq::new(
        19,
        |y: int|
            if y > j {
                src[y]
            } else if y == 0 {
                -1
            } else {
                src[y - 1]
            },
    )
}

impl Board {
    /// Every interior cell of row `y` is `Full`.
    pub open spec fn row_full(&self, y: int) -> bool {
        forall|x: int| 1 <= x <= 10 ==> #[trigger] self.at(x, y) == Cell::Full
    }

    /// Every interior cell of row `y` is `Fading`.
    pub open spec fn row_fading(&self, y: int) -> bool {
        forall|x: int| 1 <= x <= 10 ==> #[trigger] self.at(x, y) == Cell::Fading
    }

    /// `Fading` cells come only as whole interior rows.
    pub open spec fn fading_whole_rows(&self) -> bool {
        forall|x: int, y: int|
            #![trigger self.at(x, y)]
            in_board(x, y) && self.at(x, y) == Cell::Fading ==> is_interior(x, y) && self.row_fading(y)
    }

    /// No row is complete.
    pub open spec fn no_full_row(&self) -> bool {
        forall|y: int| 0 <= y < 19 ==> !#[trigger] self.row_full(y)
    }

    /// The interior rows 0..19 of this board are rows of `old`, picked by
    /// `src` in their order: row `y` holds row `src[y]` of `old`, or nothing
    /// where `src[y]` is negative.
    pub open spec fn rows_from(&self, old: Board, src: Seq<int>) -> bool {
        &&& src.len() == 19
        &&& forall|y: int| 0 <= y < 19 ==> -1 <= #[trigger] src[y] < 19
        &&& forall|y1: int, y2: int|
            0 <= y1 < y2 < 19 && src[y1] >= 0 ==> #[trigger] src[y1] < #[trigger] src[y2]
        &&& forall|x: int, y: int|
            #![trigger self.at(x, y), src[y]]
            1 <= x <= 10 && 0 <= y < 19 ==> self.at(x, y) == (if src[y] < 0 {
                Cell::Empty
            } else {
                old.at(x, src[y])
            })
    }

    /// `src` picks exactly the rows 0..19 whose first interior cell is not
    /// `Fading`.
    pub open spec fn picks_unfaded(&self, src: Seq<int>) -> bool {
        forall|r: int|
            0 <= r < 19 ==> (self.at(1, r) != Cell::Fading <==> exists|y: int| 0 <= y < 19 && #[trigger] src[y] == r)
    }

    /// Row `j` is the one row being removed: its interior cells are the only
    /// `Fading` cells of the board.
    pub open spec fn single_fading_row(&self, j: int) -> bool {
        &&& 0 <= j < 19
        &&& forall|x: int, y: int|
            #![trigger self.at(x, y)]
            in_board(x, y) ==> (self.at(x, y) == Cell::Fading <==> (is_interior(x, y) && y == j))
    }

    /// Some cell of the two top rows is `Full`.
    pub open spec fn spec_top_full(&self) -> bool {
        exists|x: int, y: int| 1 <= x <= 10 && 0 <= y < 2 && #[trigger] self.at(x, y) == Cell::Full
    }

    /// Tells whether every interior cell of row `y` is `Full`.
    pub fn is_row_full(&self, y: usize) -> (r: bool)
        requires
            self.wf(),
            y < 20,
        ensures
            r == self.row_full(y as int),
    {
        let mut x: usize = 1;
        while x < WIDTH - 1
            invariant
                self.wf(),
                y < 20,
                1 <= x <= 11,
                forall|xx: int| 1 <= xx < x ==> #[trigger] self.at(xx, y as int) == Cell::Full,
            decreases 11 - x,
        {
            if self.cell(x, y) != Cell::Full {
                return false;
            }
            x += 1;
        }
        true
    }

    /// Marks every complete row `Fading`; tells whether there was one.
    pub fn mark_complete_rows(&mut self) -> (r: bool)
        requires
            old(self).wf(),
        ensures
            final(self).wf(),
            final(self).no_full_row(),
            r == exists|y: int| 0 <= y < 19 && #[trigger] old(self).row_full(y),
            forall|x: int, y: int|
                #![trigger final(self).at(x, y)]
                in_board(x, y) ==> final(self).at(x, y) == (if is_interior(x, y) && old(self).row_full(y) {
                    Cell::Fading
                } else {
                    old(self).at(x, y)
                }),
    {
        let ghost start = *self;
        let mut found = false;
        let mut y: usize = 0;
        while y < HEIGHT - 1
            invariant
                self.wf(),
                y <= 19,
                found == exists|yy: int| 0 <= yy < y && #[trigger] start.row_full(yy),
                forall|xx: int, yy: int|
                    #![trigger self.at(xx, yy)]
                    in_board(xx, yy) ==> self.at(xx, yy) == (if is_interior(xx, yy) && yy < y
                        && start.row_full(yy) {
                        Cell::Fading
                    } else {
                        start.at(xx, yy)
                    }),
            decreases 19 - y,
        {
            let full = self.is_row_full(y);
            assert(full == start.row_full(y as int)) by {
                if full {
                    assert forall|xx: int| 1 <= xx <= 10 implies #[trigger] start.at(xx, y as int) == Cell::Full by {
                        assert(self.at(xx, y as int) == Cell::Full);
                    }
                } else {
                    let xx = choose|xx: int| 1 <= xx <= 10 && !(#[trigger] self.at(xx, y as int) == Cell::Full);
                    assert(start.at(xx, y as int) != Cell::Full);
                }
            }
            if full {
                let mut x: usize = 1;
                while x < WIDTH - 1
                    invariant
                        self.wf(),
                        y < 19,
                        1 <= x <= 11,
                        start.row_full(y as int),
                        forall|xx: int, yy: int|
                            #![trigger self.at(xx, yy)]
                            in_board(xx, yy) ==> self.at(xx, yy) == (if is_interior(xx, yy) && (yy < y || (yy
                                == y && xx < x)) && start.row_full(yy) {
                                Cell::Fading
                            } else {
                                start.at(xx, yy)
                            }),
                    decreases 11 - x,
                {
                    self.set_cell(x, y, Cell::Fading);
                    x += 1;
                }
                found = true;
            }
            y += 1;
        }
        proof {
            assert forall|yy: int| 0 <= yy < 19 implies !#[trigger] self.row_full(yy) by {
                if start.row_full(yy) {
                    assert(self.at(1, yy) == Cell::Fading);
                } else {
                    let xx = choose|xx: int| 1 <= xx <= 10 && !(#[trigger] start.at(xx, yy) == Cell::Full);
                    assert(self.at(xx, yy) == start.at(xx, yy));
                }
            }
        }
        found
    }

    /// Tells whether a cell of the two top rows is `Full`.
    pub fn top_full(&self) -> (r: bool)
        requires
            self.wf(),
        ensures
            r == self.spec_top_full(),
    {
        let mut y: usize = 0;
        while y < 2
            invariant
                self.wf(),
                y <= 2,
                forall|xx: int, yy: int| 1 <= xx <= 10 && 0 <= yy < y ==> #[trigger] self.at(xx, yy) != Cell::Full,
            decreases 2 - y,
        {
            let mut x: usize = 1;
            while x < WIDTH - 1
                invariant
                    self.wf(),
                    y < 2,
                    1 <= x <= 11,
                    forall|xx: int, yy: int|
                        1 <= xx <= 10 && 0 <= yy < 2 && (yy < y || (yy == y && xx < x))
                            ==> #[trigger] self.at(xx, yy) != Cell::Full,
                decreases 11 - x,
            {
                if self.cell(x, y) == Cell::Full {
                    return true;
                }
                x += 1;
            }
            y += 1;
        }
        false
    }

    /// Dropping a fading row keeps the rows mapped, in order, and keeps
    /// every unfaded row of `start` among them.
    pub proof fn lemma_drop_row_map(&self, start: Board, src: Seq<int>, b: Board, j: int)
        requires
            self.wf(),
            0 <= j < 19,
            self.at(1, j) == Cell::Fading,
            self.rows_from(start, src),
            forall|r: int|
                #![trigger start.at(1, r)]
                0 <= r < 19 && start.at(1, r) != Cell::Fading ==> exists|y: int| 0 <= y < 19 && #[trigger] src[y] == r,
            forall|x: int, y: int| #![trigger b.at(x, y)] in_board(x, y) ==> b.at(x, y) == self.edited_at(Edit::DropRow(j as usize), x, y),
        ensures
            b.rows_from(start, dropped_src(src, j)),
            forall|r: int|
                #![trigger start.at(1, r)]
                0 <= r < 19 && start.at(1, r) != Cell::Fading ==> exists|y: int|
                    0 <= y < 19 && #[trigger] dropped_src(src, j)[y] == r,
    {
        let d = dropped_src(src, j);
        assert forall|y1: int, y2: int| 0 <= y1 < y2 < 19 && d[y1] >= 0 implies #[trigger] d[y1] < #[trigger] d[y2] by {
            if y1 <= j && y2 <= j {
                assert(src[y1 - 1] < src[y2 - 1]);
            } else if y1 <= j {
                assert(src[y1 - 1] < src[y2]);
            } else {
                assert(src[y1] < src[y2]);
            }
        }
        assert forall|x: int, y: int| #![trigger b.at(x, y), d[y]] 1 <= x <= 10 && 0 <= y < 19 implies b.at(x, y) == (if d[y] < 0 {
            Cell::Empty
        } else {
            start.at(x, d[y])
        }) by {
            if y > j {
                assert(self.at(x, y) == (if src[y] < 0 { Cell::Empty } else { start.at(x, src[y]) }));
            } else if y > 0 {
                assert(self.at(x, y - 1) == (if src[y - 1] < 0 { Cell::Empty } else { start.at(x, src[y - 1]) }));
            }
        }
        assert forall|y: int| 0 <= y < 19 implies -1 <= #[trigger] d[y] < 19 by {
            if y > j {
                assert(-1 <= src[y] < 19);
            } else if y > 0 {
                assert(-1 <= src[y - 1] < 19);
            }
        }
        assert(self.at(1, j) == (if src[j] < 0 { Cell::Empty } else { start.at(1, src[j]) }));
        assert forall|r: int|
            #![trigger start.at(1, r)]
            0 <= r < 19 && start.at(1, r) != Cell::Fading implies exists|y: int| 0 <= y < 19 && #[trigger] d[y] == r by {
            let y = choose|y: int| 0 <= y < 19 && #[trigger] src[y] == r;
            if y > j {
                assert(d[y] == r);
            } else {
                assert(y != j);
                assert(d[y + 1] == r);
            }
        }
    }

    /// Dropping a row creates no `Moving` cell and completes no row.
    pub proof fn lemma_drop_row_keeps(&self, b: Board, j: int)
        requires
            self.wf(),
            0 <= j < 19,
            forall|x: int, y: int| #![trigger b.at(x, y)] in_board(x, y) ==> b.at(x, y) == self.edited_at(Edit::DropRow(j as usize), x, y),
        ensures
            self.no_moving() ==> b.no_moving(),
            self.no_full_row() ==> b.no_full_row(),
    {
        if self.no_moving() {
            assert forall|x: int, y: int| #![trigger b.at(x, y)] in_board(x, y) implies b.at(x, y) != Cell::Moving by {
                if y > 0 {
                    assert(self.at(x, y - 1) != Cell::Moving);
                }
                assert(self.at(x, y) != Cell::Moving);
            }
        }
        if self.no_full_row() {
            assert forall|y: int| 0 <= y < 19 implies !#[trigger] b.row_full(y) by {
                if y == 0 {
                    assert(b.at(1, 0) == Cell::Empty);
                } else if y <= j {
                    assert(!self.row_full(y - 1));
                    let xx = choose|xx: int| 1 <= xx <= 10 && !(#[trigger] self.at(xx, y - 1) == Cell::Full);
                    assert(b.at(xx, y) == self.at(xx, y - 1));
                } else {
                    assert(!self.row_full(y));
                    let xx = choose|xx: int| 1 <= xx <= 10 && !(#[trigger] self.at(xx, y) == Cell::Full);
                    assert(b.at(xx, y) == self.at(xx, y));
                }
            }
        }
    }

    /// Only one row can be the single fading row.
    pub proof fn lemma_single_fading_row_unique(&self, j: int, k: int)
        requires
            self.single_fading_row(j),
            self.single_fading_row(k),
        ensures
            j == k,
    {
        assert(self.at(1, j) == Cell::Fading);
    }

    /// Removes, bottom-up, every row whose first interior cell is `Fading`,
    /// bringing the interior rows above it down by one each time.
    pub fn delete_fading_rows(&mut self)
        requires
            old(self).wf(),
        ensures
            final(self).wf(),
            old(self).no_moving() ==> final(self).no_moving(),
            old(self).no_full_row() ==> final(self).no_full_row(),
            forall|y: int| 0 <= y < 19 ==> #[trigger] final(self).at(1, y) != Cell::Fading,
            exists|src: Seq<int>| #[trigger] final(self).rows_from(*old(self), src) && old(self).picks_unfaded(src),
            forall|j: int|
                #![trigger old(self).single_fading_row(j)]
                old(self).single_fading_row(j) ==> forall|x: int, y: int|
                    #![trigger final(self).at(x, y)]
                    in_board(x, y) ==> final(self).at(x, y) == old(self).edited_at(Edit::DropRow(j as usize), x, y),
    {
        let ghost start = *self;
        let ghost target: int = if exists|j: int| #[trigger] start.single_fading_row(j) {
            choose|j: int| #[trigger] start.single_fading_row(j)
        } else {
            -1
        };
        let ghost mut src: Seq<int> = Seq::new(19, |y: int| y);
        assert(self.rows_from(start, src));
        assert forall|r: int|
            #![trigger start.at(1, r)]
            0 <= r < 19 && start.at(1, r) != Cell::Fading implies exists|y: int| 0 <= y < 19 && #[trigger] src[y] == r by {
            assert(src[r] == r);
        }
        let mut j: usize = HEIGHT - 1;
        while j > 0
            invariant
                self.wf(),
                self.rows_from(start, src),
                forall|r: int|
                    #![trigger start.at(1, r)]
                    0 <= r < 19 && start.at(1, r) != Cell::Fading ==> exists|y: int| 0 <= y < 19 && #[trigger] src[y] == r,
                start.no_moving() ==> self.no_moving(),
                start.no_full_row() ==> self.no_full_row(),
                j <= 19,
                forall|y: int| j <= y < 19 ==> #[trigger] self.at(1, y) != Cell::Fading,
                target >= 0 ==> start.single_fading_row(target),
                target >= 0 && target < j ==> self.cells@ == start.cells@,
                target >= 0 && target >= j ==> forall|x: int, y: int|
                    #![trigger self.at(x, y)]
                    in_board(x, y) ==> self.at(x, y) == start.edited_at(Edit::DropRow(target as usize), x, y),
            decreases j,
        {
            j -= 1;
            let mut k: usize = 0;
            while self.cell(1, j) == Cell::Fading
                invariant
                    self.wf(),
                    self.rows_from(start, src),
                    forall|r: int|
                        #![trigger start.at(1, r)]
                        0 <= r < 19 && start.at(1, r) != Cell::Fading ==> exists|y: int| 0 <= y < 19 && #[trigger] src[y] == r,
                    start.no_moving() ==> self.no_moving(),
                    start.no_full_row() ==> self.no_full_row(),
                    j < 19,
                    k <= j + 1,
                    forall|y: int| 0 <= y < k ==> #[trigger] self.at(1, y) != Cell::Fading,
                    forall|y: int| j < y < 19 ==> #[trigger] self.at(1, y) != Cell::Fading,
                    target >= 0 ==> start.single_fading_row(target),
                    target >= 0 && (target < j || (target == j && k == 0)) ==> self.cells@ == start.cells@,
                    target >= 0 && (target > j || (target == j && k > 0)) ==> forall|x: int, y: int|
                        #![trigger self.at(x, y)]
                        in_board(x, y) ==> self.at(x, y) == start.edited_at(
                            Edit::DropRow(target as usize),
                            x,
                            y,
                        ),
                decreases j + 1 - k,
            {
                assert(k <= j) by {
                    if k > j {
                        assert(self.at(1, j as int) != Cell::Fading);
                    }
                }
                proof {
                    if target >= 0 {
                        if target < j {
                            assert(start.at(1, j as int) != Cell::Fading);
                        } else if target > j || k > 0 {
                            assert(start.at(1, j as int - 1) != Cell::Fading);
                        }
                    }
                }
                let ghost before = *self;
                self.apply(Edit::DropRow(j));
                proof {
                    before.lemma_drop_row_keeps(*self, j as int);
                    before.lemma_drop_row_map(start, src, *self, j as int);
                    src = dropped_src(src, j as int);
                }
                assert forall|y: int| 0 <= y < k + 1 implies #[trigger] self.at(1, y) != Cell::Fading by {
                    if y > 0 {
                        assert(before.at(1, y - 1) != Cell::Fading);
                    }
                }
                assert forall|y: int| j < y < 19 implies #[trigger] self.at(1, y) != Cell::Fading by {
                    assert(before.at(1, y) != Cell::Fading);
                }
                proof {
                    if target >= 0 && target == j && k == 0 {
                        assert forall|x: int, y: int| #![trigger self.at(x, y)] in_board(x, y) implies self.at(x, y)
                            == start.edited_at(Edit::DropRow(target as usize), x, y) by {
                            if y > 0 {
                                assert(before.at(x, y - 1) == start.at(x, y - 1));
                            }
                            assert(before.at(x, y) == start.at(x, y));
                        }
                    }
                }
                k += 1;
            }
            proof {
                if target >= 0 && target == j && k == 0 {
                    assert(start.at(1, j as int) == Cell::Fading);
                }
            }
        }
        proof {
            assert forall|r: int| 0 <= r < 19 implies (start.at(1, r) != Cell::Fading <==> exists|y: int|
                0 <= y < 19 && #[trigger] src[y] == r) by {
                if exists|y: int| 0 <= y < 19 && #[trigger] src[y] == r {
                    let y = choose|y: int| 0 <= y < 19 && #[trigger] src[y] == r;
                    assert(self.at(1, y) != Cell::Fading);
                }
            }
            assert(self.rows_from(start, src) && start.picks_unfaded(src));
            assert forall|jj: int| #![trigger start.single_fading_row(jj)] start.single_fading_row(jj) implies forall|
                x: int,
                y: int,
            |
                #![trigger self.at(x, y)]
                in_board(x, y) ==> self.at(x, y) == start.edited_at(Edit::DropRow(jj as usize), x, y) by {
                start.lemma_single_fading_row_unique(jj, target);
            }
        }
    }
}

} // verus!
