//! The playing field: collision testing, locking, line detection/compaction.

use crate::bidule::{Bidule, BlockColor, Point};
use crate::{GRID_HEIGHT, GRID_WIDTH};
use vstd::prelude::*;

verus! {

/// A locked block: its color plus an opaque seed for decorative variation.
#[derive(Clone, Copy, Debug, PartialEq, Eq, Structural)]
pub struct Cell {
    pub color: BlockColor,
    pub bubble_seed: usize,
}

/// The mathematical model of the field: a sequence of rows, each a sequence
/// of optional cells. Row 0 is the topmost row.
pub type GridModel = Seq<Seq<Option<Cell>>>;

/// The playing field.
pub struct Grid {
    pub cells: Vec<Vec<Option<Cell>>>,
}

impl View for Grid {
    type V = GridModel;

    open spec fn view(&self) -> GridModel {
        self.cells@.map_values(|r: Vec<Option<Cell>>| r@)
    }
}

/// A well-formed field has exactly `GRID_HEIGHT` rows of `GRID_WIDTH` cells.
pub open spec fn grid_wf(g: GridModel) -> bool {
    &&& g.len() == GRID_HEIGHT
    &&& forall|y: int| 0 <= y < g.len() ==> (#[trigger] g[y]).len() == GRID_WIDTH
}

/// A row with no occupied cell.
pub open spec fn empty_row() -> Seq<Option<Cell>> {
    Seq::new(GRID_WIDTH as nat, |x: int| None::<Cell>)
}

/// A field with no occupied cell.
pub open spec fn empty_grid() -> GridModel {
    Seq::new(GRID_HEIGHT as nat, |y: int| empty_row())
}

/// A row is full when every column is occupied.
pub open spec fn row_full(r: Seq<Option<Cell>>) -> bool {
    forall|x: int| 0 <= x < r.len() ==> (#[trigger] r[x]) is Some
}

/// One absolute piece cell collides: outside the field horizontally or below,
/// or on an occupied cell. Cells above the visible field (`y < 0`) never
/// collide, so pieces may protrude above the board before locking.
pub open spec fn collides_at(g: GridModel, pos: Point, off: Point) -> bool {
    let x = pos.x + off.x;
    let y = pos.y + off.y;
    ||| x < 0
    ||| x >= GRID_WIDTH as int
    ||| y >= GRID_HEIGHT as int
    ||| (y >= 0 && g[y][x] is Some)
}

/// A shape given by its offsets collides when placed at `pos`.
pub open spec fn offsets_collide(g: GridModel, ps: Seq<Point>, pos: Point) -> bool {
    exists|i: int| 0 <= i < ps.len() && collides_at(g, pos, #[trigger] ps[i])
}

/// The piece collides when any of its absolute cells does.
pub open spec fn piece_collides(g: GridModel, p: Bidule) -> bool {
    offsets_collide(g, p.positions@, p.pos)
}

/// The shape collides when placed with its reference cell at `(x, y)`.
pub open spec fn shape_collides_at(g: GridModel, ps: Seq<Point>, x: i32, y: i32) -> bool {
    offsets_collide(g, ps, Point { x: x, y: y })
}

/// The grid with one cell replaced.
pub open spec fn write_cell(g: GridModel, x: int, y: int, c: Option<Cell>) -> GridModel {
    g.update(y, g[y].update(x, c))
}

/// The grid after writing the first `k` cells of the piece; writes that fall
/// outside the field are dropped.
pub open spec fn locked_upto(g: GridModel, p: Bidule, k: nat) -> GridModel
    decreases k,
{
    if k == 0 {
        g
    } else {
        let prev = locked_upto(g, p, (k - 1) as nat);
        let off = p.positions@[k - 1];
        let x = p.pos.x + off.x;
        let y = p.pos.y + off.y;
        if 0 <= x < GRID_WIDTH as int && 0 <= y < GRID_HEIGHT as int {
            write_cell(
                prev,
                x,
                y,
                Some(Cell { color: p.color, bubble_seed: p.seeds@[k - 1] }),
            )
        } else {
            prev
        }
    }
}

/// The grid after locking the whole piece.
pub open spec fn locked_grid(g: GridModel, p: Bidule) -> GridModel {
    locked_upto(g, p, p.positions@.len())
}

/// The rows that line compaction keeps, in their original order.
pub open spec fn kept_rows(g: GridModel) -> GridModel {
    g.filter(|r: Seq<Option<Cell>>| !row_full(r))
}

/// The grid after line compaction: the non-full rows are moved to the bottom,
/// keeping their relative order, and fresh empty rows fill the top.
pub open spec fn cleared_grid(g: GridModel) -> GridModel {
    Seq::new((g.len() - kept_rows(g).len()) as nat, |i: int| empty_row()) + kept_rows(g)
}

/// Locking a well-formed piece preserves the field dimensions.
pub proof fn lemma_locked_upto_wf(g: GridModel, p: Bidule, k: nat)
    requires
        grid_wf(g),
        k <= p.positions@.len(),
    ensures
        grid_wf(locked_upto(g, p, k)),
    decreases k,
{
    if k > 0 {
        lemma_locked_upto_wf(g, p, (k - 1) as nat);
    }
}

/// Compaction never removes a non-full row, removes every full row, keeps the
/// row count at `GRID_HEIGHT`, and preserves the relative order of the rows it
/// keeps; afterwards no full row remains.
pub proof fn lemma_cleared_grid_shape(g: GridModel)
    requires
        grid_wf(g),
    ensures
        cleared_grid(g).len() == GRID_HEIGHT,
        kept_rows(g).len() <= g.len(),
        cleared_grid(g).subrange(
            GRID_HEIGHT - kept_rows(g).len(),
            GRID_HEIGHT as int,
        ) == kept_rows(g),
        forall|y: int| 0 <= y < GRID_HEIGHT - kept_rows(g).len() ==> cleared_grid(g)[y] == empty_row(),
        forall|y: int| 0 <= y < cleared_grid(g).len() ==> !row_full(#[trigger] cleared_grid(g)[y]),
        grid_wf(cleared_grid(g)),
{
    broadcast use vstd::seq_lib::group_filter_ensures;

    let kept = kept_rows(g);
    let g2 = cleared_grid(g);
    assert(kept.len() <= g.len());
    assert(g2.subrange(GRID_HEIGHT - kept.len(), GRID_HEIGHT as int) =~= kept);
    assert(!row_full(empty_row())) by {
        assert(empty_row()[0] is None);
    }
    assert forall|y: int| 0 <= y < g2.len() implies !row_full(#[trigger] g2[y]) by {
        if y >= GRID_HEIGHT - kept.len() {
            let k = y - (GRID_HEIGHT - kept.len());
            assert(g2[y] == kept[k]);
            assert(!row_full(kept[k]));
        }
    }
    assert forall|y: int| 0 <= y < g2.len() implies (#[trigger] g2[y]).len() == GRID_WIDTH by {
        if y >= GRID_HEIGHT - kept.len() {
            let k = y - (GRID_HEIGHT - kept.len());
            assert(g2[y] == kept[k]);
            let pred = |r: Seq<Option<Cell>>| !row_full(r);
            assert(g.filter(pred).len() <= g.len());
            lemma_filter_element_of(g, pred, k);
        }
    }
}

/// Every element of a filtered sequence is an element of the original.
proof fn lemma_filter_element_of<A>(s: Seq<A>, pred: spec_fn(A) -> bool, i: int)
    requires
        0 <= i < s.filter(pred).len(),
    ensures
        exists|j: int| 0 <= j < s.len() && s[j] == #[trigger] s.filter(pred)[i],
    decreases s.len(),
{
    reveal(Seq::filter);
    if s.len() > 0 {
        if pred(s.last()) && i == s.filter(pred).len() - 1 {
            assert(s[s.len() - 1] == s.filter(pred)[i]);
        } else {
            lemma_filter_element_of(s.drop_last(), pred, i);
            let j = choose|j: int|
                0 <= j < s.drop_last().len() && s.drop_last()[j] == s.drop_last().filter(pred)[i];
            assert(s[j] == s.filter(pred)[i]);
        }
    }
}

impl Grid {
    /// A fresh, empty field.
    pub fn new() -> (r: Grid)
        ensures
            r@ == empty_grid(),
            grid_wf(r@),
    {
        let mut cells: Vec<Vec<Option<Cell>>> = Vec::new();
        let mut y: usize = 0;
        while y < GRID_HEIGHT
            invariant
                y <= GRID_HEIGHT,
                cells@.len() == y,
                forall|j: int| 0 <= j < y ==> (#[trigger] cells@[j])@ == empty_row(),
            decreases GRID_HEIGHT - y,
        {
            cells.push(empty_row_vec());
            y += 1;
        }
        let r = Grid { cells };
        assert(r@ =~~= empty_grid());
        r
    }

    /// True iff the shape given by `positions`, placed at `pos`, lies outside
    /// the field horizontally or below, or overlaps an occupied cell at
    /// `y >= 0`.
    pub fn offsets_collision(&self, positions: &Vec<Point>, pos: Point) -> (r: bool)
        requires
            grid_wf(self@),
            forall|i: int|
                0 <= i < positions@.len() ==> {
                    let p = #[trigger] positions@[i];
                    -8 <= p.x <= 8 && -8 <= p.y <= 8
                },
            -200 <= pos.x <= 200,
            -200 <= pos.y <= 200,
        ensures
            r == offsets_collide(self@, positions@, pos),
    {
        let n = positions.len();
        let mut i: usize = 0;
        while i < n
            invariant
                i <= n,
                n == positions@.len(),
                grid_wf(self@),
                forall|j: int|
                    0 <= j < n ==> {
                        let p = #[trigger] positions@[j];
                        -8 <= p.x <= 8 && -8 <= p.y <= 8
                    },
                -200 <= pos.x <= 200,
                -200 <= pos.y <= 200,
                forall|j: int| 0 <= j < i ==> !collides_at(self@, pos, #[trigger] positions@[j]),
            decreases n - i,
        {
            let p = positions[i];
            let x = pos.x + p.x;
            let y = pos.y + p.y;
            if x < 0 || x >= GRID_WIDTH as i32 || y >= GRID_HEIGHT as i32 {
                return true;
            }
            if y >= 0 {
                assert(self.cells@.len() == self@.len());
                assert(self.cells@[y as int]@ == self@[y as int]);
                if self.cells[y as usize][x as usize].is_some() {
                    return true;
                }
            }
            i += 1;
        }
        false
    }

    /// True iff any absolute cell of the piece lies outside the field
    /// horizontally or below, or coincides with an occupied cell at `y >= 0`.
    pub fn is_collision(&self, piece: &Bidule) -> (r: bool)
        requires
            grid_wf(self@),
            piece.wf(),
        ensures
            r == piece_collides(self@, *piece),
    {
        self.offsets_collision(&piece.positions, piece.pos)
    }

    /// Collision test for the piece's shape at a trial position, without
    /// committing a move.
    pub fn is_collision_at(&self, piece: &Bidule, pos: Point) -> (r: bool)
        requires
            grid_wf(self@),
            piece.wf(),
            -200 <= pos.x <= 200,
            -200 <= pos.y <= 200,
        ensures
            r == offsets_collide(self@, piece.positions@, pos),
    {
        self.offsets_collision(&piece.positions, pos)
    }

    /// Writes each piece cell's color and seed into the field at its absolute
    /// position; writes outside the field are silently dropped.
    pub fn lock_piece(&mut self, piece: &Bidule)
        requires
            grid_wf(old(self)@),
            piece.wf(),
        ensures
            final(self)@ == locked_grid(old(self)@, *piece),
            grid_wf(final(self)@),
    {
        let n = piece.positions.len();
        let mut i: usize = 0;
        while i < n
            invariant
                i <= n,
                n == piece.positions@.len(),
                piece.wf(),
                grid_wf(old(self)@),
                grid_wf(self@),
                self@ == locked_upto(old(self)@, *piece, i as nat),
            decreases n - i,
        {
            let p = piece.positions[i];
            let x = piece.pos.x + p.x;
            let y = piece.pos.y + p.y;
            let ghost prev = self@;
            if x >= 0 && (x as usize) < GRID_WIDTH && y >= 0 && (y as usize) < GRID_HEIGHT {
                assert(self.cells@.len() == self@.len());
                assert(self.cells@[y as int]@ == self@[y as int]);
                let seed = piece.seeds[i];
                self.cells[y as usize][x as usize] = Some(
                    Cell { color: piece.color, bubble_seed: seed },
                );
                assert(self@ =~~= write_cell(prev, x as int, y as int, Some(
                    Cell { color: piece.color, bubble_seed: piece.seeds@[i as int] },
                )));
            }
            i += 1;
        }
        proof {
            lemma_locked_upto_wf(old(self)@, *piece, n as nat);
        }
    }

    /// Identifies all full rows in one top-to-bottom pass, rebuilds the field
    /// with the non-full rows packed at the bottom in their original order,
    /// and returns the original indices of the cleared rows, topmost first.
    pub fn clear_lines(&mut self) -> (cleared: Vec<usize>)
        requires
            grid_wf(old(self)@),
        ensures
            final(self)@ == cleared_grid(old(self)@),
            grid_wf(final(self)@),
            cleared@.len() == GRID_HEIGHT - kept_rows(old(self)@).len(),
            forall|k: int|
                0 <= k < cleared@.len() ==> #[trigger] cleared@[k] < GRID_HEIGHT && row_full(
                    old(self)@[cleared@[k] as int],
                ),
            forall|k1: int, k2: int|
                0 <= k1 < k2 < cleared@.len() ==> cleared@[k1] < cleared@[k2],
            forall|y: int|
                0 <= y < GRID_HEIGHT && row_full(old(self)@[y]) ==> exists|k: int|
                    0 <= k < cleared@.len() && cleared@[k] == y,
    {
        let ghost g0 = self@;
        let ghost pred = |r: Seq<Option<Cell>>| !row_full(r);
        let mut cleared: Vec<usize> = Vec::new();
        let mut kept: Vec<Vec<Option<Cell>>> = Vec::new();
        let mut y: usize = 0;
        while y < GRID_HEIGHT
            invariant
                y <= GRID_HEIGHT,
                grid_wf(g0),
                self@ == g0,
                kept@.map_values(|r: Vec<Option<Cell>>| r@) == g0.take(y as int).filter(pred),
                pred == (|r: Seq<Option<Cell>>| !row_full(r)),
                cleared@.len() + kept@.len() == y,
                forall|k: int|
                    0 <= k < cleared@.len() ==> #[trigger] cleared@[k] < y && row_full(
                        g0[cleared@[k] as int],
                    ),
                forall|k1: int, k2: int|
                    0 <= k1 < k2 < cleared@.len() ==> cleared@[k1] < cleared@[k2],
                forall|yy: int|
                    0 <= yy < y && row_full(g0[yy]) ==> exists|k: int|
                        0 <= k < cleared@.len() && cleared@[k] == yy,
            decreases GRID_HEIGHT - y,
        {
            let ghost kept_pre = kept@.map_values(|r: Vec<Option<Cell>>| r@);
            let ghost cleared_pre = cleared@;
            proof {
                reveal(Seq::filter);
                assert(g0.take(y + 1).drop_last() =~= g0.take(y as int));
                assert(g0.take(y + 1).last() == g0[y as int]);
                assert(self.cells@[y as int]@ == g0[y as int]);
            }
            if row_is_full(&self.cells[y]) {
                cleared.push(y);
                assert(row_full(g0[y as int]));
                assert(kept@.map_values(|r: Vec<Option<Cell>>| r@) =~= g0.take(y + 1).filter(pred));
                assert forall|yy: int| 0 <= yy < y + 1 && row_full(g0[yy]) implies exists|k: int|
                    0 <= k < cleared@.len() && cleared@[k] == yy by {
                    if yy == y as int {
                        assert(cleared@[cleared@.len() - 1] == yy);
                    } else {
                        let k = choose|k: int|
                            0 <= k < cleared_pre.len() && cleared_pre[k] == yy;
                        assert(cleared@[k] == yy);
                    }
                }
            } else {
                let row = copy_row(&self.cells[y]);
                kept.push(row);
                assert(kept@.map_values(|r: Vec<Option<Cell>>| r@) =~= kept_pre.push(g0[y as int]));
                assert(kept@.map_values(|r: Vec<Option<Cell>>| r@) =~= g0.take(y + 1).filter(pred));
                assert(!row_full(g0[y as int]));
                assert forall|yy: int| 0 <= yy < y + 1 && row_full(g0[yy]) implies exists|k: int|
                    0 <= k < cleared@.len() && cleared@[k] == yy by {
                    let k = choose|k: int| 0 <= k < cleared_pre.len() && cleared_pre[k] == yy;
                    assert(cleared@[k] == yy);
                }
            }
            y += 1;
        }
        assert(g0.take(GRID_HEIGHT as int) =~= g0);
        proof {
            broadcast use vstd::seq_lib::group_filter_ensures;

        }
        let kept_len = kept.len();
        let mut new_cells: Vec<Vec<Option<Cell>>> = Vec::new();
        let empties = GRID_HEIGHT - kept_len;
        let mut i: usize = 0;
        while i < empties
            invariant
                i <= empties,
                new_cells@.len() == i,
                forall|j: int| 0 <= j < i ==> (#[trigger] new_cells@[j])@ == empty_row(),
            decreases empties - i,
        {
            new_cells.push(empty_row_vec());
            i += 1;
        }
        let mut j: usize = 0;
        while j < kept_len
            invariant
                j <= kept_len,
                kept_len == kept@.len(),
                new_cells@.len() == empties + j,
                empties == GRID_HEIGHT - kept_len,
                forall|k: int| 0 <= k < empties ==> (#[trigger] new_cells@[k])@ == empty_row(),
                forall|k: int|
                    0 <= k < j ==> (#[trigger] new_cells@[empties + k])@ == kept@[k]@,
            decreases kept_len - j,
        {
            let row = copy_row(&kept[j]);
            new_cells.push(row);
            j += 1;
        }
        self.cells = new_cells;
        proof {
            broadcast use vstd::seq_lib::group_filter_ensures;

            lemma_cleared_grid_shape(g0);
            let keptseq = kept@.map_values(|r: Vec<Option<Cell>>| r@);
            assert(keptseq == kept_rows(g0));
            assert(keptseq.len() == kept_len);
            assert(cleared_grid(g0).len() == GRID_HEIGHT);
            assert forall|yy: int| 0 <= yy < GRID_HEIGHT implies self@[yy] == cleared_grid(g0)[yy] by {
                assert(self@[yy] == self.cells@[yy]@);
                if yy < empties {
                    assert(self.cells@[yy]@ == empty_row());
                    assert(cleared_grid(g0)[yy] == empty_row());
                } else {
                    let k = yy - empties;
                    assert(self.cells@[empties + k]@ == kept@[k]@);
                    assert(self.cells@[yy]@ == kept@[k]@);
                    assert(cleared_grid(g0)[yy] == keptseq[k]);
                    assert(keptseq[k] == kept@[k]@);
                }
            }
            assert(self@ =~~= cleared_grid(g0));
        }
        cleared
    }
}

/// A freshly allocated empty row.
fn empty_row_vec() -> (r: Vec<Option<Cell>>)
    ensures
        r@ == empty_row(),
{
    let mut r: Vec<Option<Cell>> = Vec::new();
    let mut x: usize = 0;
    while x < GRID_WIDTH
        invariant
            x <= GRID_WIDTH,
            r@.len() == x,
            forall|j: int| 0 <= j < x ==> r@[j] is None,
        decreases GRID_WIDTH - x,
    {
        r.push(None);
        x += 1;
    }
    assert(r@ =~= empty_row());
    r
}

/// A copy of a row of cells.
fn copy_row(src: &Vec<Option<Cell>>) -> (r: Vec<Option<Cell>>)
    ensures
        r@ == src@,
{
    let n = src.len();
    let mut r: Vec<Option<Cell>> = Vec::new();
    let mut i: usize = 0;
    while i < n
        invariant
            i <= n,
            n == src@.len(),
            r@.len() == i,
            forall|j: int| 0 <= j < i ==> r@[j] == src@[j],
        decreases n - i,
    {
        r.push(src[i]);
        i += 1;
    }
    assert(r@ =~= src@);
    r
}

/// True iff every column of the row is occupied.
fn row_is_full(row: &Vec<Option<Cell>>) -> (b: bool)
    ensures
        b == row_full(row@),
{
    let n = row.len();
    let mut x: usize = 0;
    while x < n
        invariant
            x <= n,
            n == row@.len(),
            forall|j: int| 0 <= j < x ==> (#[trigger] row@[j]) is Some,
        decreases n - x,
    {
        if row[x].is_none() {
            return false;
        }
        x += 1;
    }
    true
}

} // verus!
