//! Kind-specific post-lock transformations: explosion, column clear, column
//! drill, rigid compaction, and the iterative liquid settle pass.

use crate::bidule::{color_of, is_special_kind, kind_color, kind_offsets, offsets_vec, Bidule, BiduleType, BlockColor, Point};
use crate::grid::{grid_wf, Cell, Grid, GridModel};
use crate::rng::random_below;
use crate::{GRID_HEIGHT, GRID_WIDTH};
use vstd::prelude::*;

verus! {

/// Every absolute cell of the piece lies inside the field horizontally and
/// above its bottom; cells may still protrude above the top (`y < 0`).
pub open spec fn piece_in_field(p: Bidule) -> bool {
    forall|i: int|
        0 <= i < p.positions@.len() ==> {
            let off = #[trigger] p.positions@[i];
            &&& 0 <= p.pos.x + off.x < GRID_WIDTH as int
            &&& p.pos.y + off.y < GRID_HEIGHT as int
        }
}

/// The piece footprint touches column `x`.
pub open spec fn col_touched(p: Bidule, x: int) -> bool {
    exists|i: int|
        0 <= i < p.positions@.len() && p.pos.x + (#[trigger] p.positions@[i]).x == x
}

/// The position lies within one cell of some cell of the piece footprint.
pub open spec fn in_blast(p: Bidule, x: int, y: int) -> bool {
    exists|i: int|
        0 <= i < p.positions@.len() && {
            let off = #[trigger] p.positions@[i];
            let cx = p.pos.x + off.x;
            let cy = p.pos.y + off.y;
            &&& cx - 1 <= x <= cx + 1
            &&& cy - 1 <= y <= cy + 1
        }
}

/// The position is hit by the piercing kind: its column is touched and it
/// lies at or below the piece's lowest cell in that column.
pub open spec fn drill_hits(p: Bidule, x: int, y: int) -> bool {
    &&& col_touched(p, x)
    &&& forall|i: int|
        0 <= i < p.positions@.len() && p.pos.x + (#[trigger] p.positions@[i]).x == x
            ==> y >= p.pos.y + p.positions@[i].y
}

/// The field after the explosive kind resolves: every cell within one cell of
/// the footprint is cleared, overlapping areas clear once.
pub open spec fn bomb_grid(g: GridModel, p: Bidule) -> GridModel {
    Seq::new(
        g.len(),
        |y: int| Seq::new(g[y].len(), |x: int| if in_blast(p, x, y) { None } else { g[y][x] }),
    )
}

/// The field after the beam kind resolves: every touched column is cleared
/// over its full height.
pub open spec fn laser_grid(g: GridModel, p: Bidule) -> GridModel {
    Seq::new(
        g.len(),
        |y: int| Seq::new(g[y].len(), |x: int| if col_touched(p, x) { None } else { g[y][x] }),
    )
}

/// The field after the piercing kind resolves.
pub open spec fn drill_grid(g: GridModel, p: Bidule) -> GridModel {
    Seq::new(
        g.len(),
        |y: int| Seq::new(g[y].len(), |x: int| if drill_hits(p, x, y) { None } else { g[y][x] }),
    )
}

/// Executable counterpart of `col_touched`.
fn col_touched_exec(piece: &Bidule, x: i32) -> (b: bool)
    requires
        piece.wf(),
    ensures
        b == col_touched(*piece, x as int),
{
    let n = piece.positions.len();
    let mut i: usize = 0;
    while i < n
        invariant
            i <= n,
            n == piece.positions@.len(),
            piece.wf(),
            forall|j: int|
                0 <= j < i ==> piece.pos.x + (#[trigger] piece.positions@[j]).x != x as int,
        decreases n - i,
    {
        let p = piece.positions[i];
        if piece.pos.x + p.x == x {
            return true;
        }
        i += 1;
    }
    false
}

/// True iff `(x, y)` lies within one cell of some footprint cell.
fn in_blast_exec(piece: &Bidule, x: i32, y: i32) -> (b: bool)
    requires
        piece.wf(),
        -100 <= x <= 100,
        -100 <= y <= 100,
    ensures
        b == in_blast(*piece, x as int, y as int),
{
    let n = piece.positions.len();
    let mut i: usize = 0;
    while i < n
        invariant
            i <= n,
            n == piece.positions@.len(),
            piece.wf(),
            -100 <= x <= 100,
            -100 <= y <= 100,
            forall|j: int|
                0 <= j < i ==> {
                    let off = #[trigger] piece.positions@[j];
                    let cx = piece.pos.x + off.x;
                    let cy = piece.pos.y + off.y;
                    !(cx - 1 <= x as int <= cx + 1 && cy - 1 <= y as int <= cy + 1)
                },
        decreases n - i,
    {
        let p = piece.positions[i];
        let cx = piece.pos.x + p.x;
        let cy = piece.pos.y + p.y;
        if cx - 1 <= x && x <= cx + 1 && cy - 1 <= y && y <= cy + 1 {
            return true;
        }
        i += 1;
    }
    false
}

/// True iff the piercing kind hits `(x, y)`.
fn drill_hits_exec(piece: &Bidule, x: i32, y: i32) -> (b: bool)
    requires
        piece.wf(),
        -100 <= x <= 100,
        -100 <= y <= 100,
    ensures
        b == drill_hits(*piece, x as int, y as int),
{
    let n = piece.positions.len();
    let mut touched = false;
    let mut below_all = true;
    let mut i: usize = 0;
    while i < n
        invariant
            i <= n,
            n == piece.positions@.len(),
            piece.wf(),
            -100 <= x <= 100,
            -100 <= y <= 100,
            touched == exists|j: int|
                0 <= j < i && piece.pos.x + (#[trigger] piece.positions@[j]).x == x as int,
            below_all == forall|j: int|
                0 <= j < i && piece.pos.x + (#[trigger] piece.positions@[j]).x == x as int
                    ==> y as int >= piece.pos.y + piece.positions@[j].y,
        decreases n - i,
    {
        let p = piece.positions[i];
        if piece.pos.x + p.x == x {
            touched = true;
            if y < piece.pos.y + p.y {
                below_all = false;
            }
        }
        i += 1;
    }
    touched && below_all
}

/// Selects which footprint predicate a clearing scan applies.
#[derive(Clone, Copy, PartialEq, Eq, Structural)]
enum ScanKind {
    Blast,
    Beam,
    Pierce,
}

spec fn scan_hits(which: ScanKind, p: Bidule, x: int, y: int) -> bool {
    match which {
        ScanKind::Blast => in_blast(p, x, y),
        ScanKind::Beam => col_touched(p, x),
        ScanKind::Pierce => drill_hits(p, x, y),
    }
}

spec fn scan_grid(which: ScanKind, g: GridModel, p: Bidule) -> GridModel {
    match which {
        ScanKind::Blast => bomb_grid(g, p),
        ScanKind::Beam => laser_grid(g, p),
        ScanKind::Pierce => drill_grid(g, p),
    }
}

/// One full-field scan clearing the cells the selected predicate hits.
fn clear_scan(grid: &mut Grid, piece: &Bidule, which: ScanKind)
    requires
        grid_wf(old(grid)@),
        piece.wf(),
    ensures
        grid_wf(final(grid)@),
        final(grid)@ == scan_grid(which, old(grid)@, *piece),
{
    let ghost g0 = grid@;
    let mut y: usize = 0;
    while y < GRID_HEIGHT
        invariant
            y <= GRID_HEIGHT,
            grid_wf(g0),
            grid_wf(grid@),
            piece.wf(),
            forall|yy: int, xx: int|
                0 <= yy < y && 0 <= xx < GRID_WIDTH ==> grid@[yy][xx] == (if scan_hits(
                    which,
                    *piece,
                    xx,
                    yy,
                ) {
                    None
                } else {
                    g0[yy][xx]
                }),
            forall|yy: int, xx: int|
                y <= yy < GRID_HEIGHT && 0 <= xx < GRID_WIDTH ==> grid@[yy][xx] == g0[yy][xx],
        decreases GRID_HEIGHT - y,
    {
        let mut x: usize = 0;
        while x < GRID_WIDTH
            invariant
                y < GRID_HEIGHT,
                x <= GRID_WIDTH,
                grid_wf(g0),
                grid_wf(grid@),
                piece.wf(),
                forall|yy: int, xx: int|
                    0 <= yy < y && 0 <= xx < GRID_WIDTH ==> grid@[yy][xx] == (if scan_hits(
                        which,
                        *piece,
                        xx,
                        yy,
                    ) {
                        None
                    } else {
                        g0[yy][xx]
                    }),
                forall|xx: int|
                    0 <= xx < x ==> grid@[y as int][xx] == (if scan_hits(
                        which,
                        *piece,
                        xx,
                        y as int,
                    ) {
                        None
                    } else {
                        g0[y as int][xx]
                    }),
                forall|xx: int| x <= xx < GRID_WIDTH ==> grid@[y as int][xx] == g0[y as int][xx],
                forall|yy: int, xx: int|
                    y < yy < GRID_HEIGHT && 0 <= xx < GRID_WIDTH ==> grid@[yy][xx] == g0[yy][xx],
            decreases GRID_WIDTH - x,
        {
            let hit = match which {
                ScanKind::Blast => in_blast_exec(piece, x as i32, y as i32),
                ScanKind::Beam => col_touched_exec(piece, x as i32),
                ScanKind::Pierce => drill_hits_exec(piece, x as i32, y as i32),
            };
            if hit {
                let ghost pre = grid@;
                assert(grid.cells@.len() == grid@.len());
                assert(grid.cells@[y as int]@ == grid@[y as int]);
                grid.cells[y][x] = None;
                assert forall|yy: int, xx: int|
                    0 <= yy < GRID_HEIGHT && 0 <= xx < GRID_WIDTH && !(yy == y as int && xx
                        == x as int) implies grid@[yy][xx] == pre[yy][xx] by {
                    assert(grid@[yy] == if yy == y as int {
                        pre[yy].update(x as int, None::<Cell>)
                    } else {
                        pre[yy]
                    });
                }
                assert(grid@[y as int][x as int] is None);
                assert forall|yy: int| 0 <= yy < grid@.len() implies (#[trigger] grid@[yy]).len()
                    == GRID_WIDTH by {
                    assert(grid@[yy] == if yy == y as int {
                        pre[yy].update(x as int, None::<Cell>)
                    } else {
                        pre[yy]
                    });
                }
            }
            x += 1;
        }
        y += 1;
    }
    let ghost target = scan_grid(which, g0, *piece);
    assert(target.len() == GRID_HEIGHT);
    assert forall|yy: int| 0 <= yy < GRID_HEIGHT implies grid@[yy] =~= target[yy] by {
        assert(target[yy] == Seq::new(
            g0[yy].len(),
            |x: int| if scan_hits(which, *piece, x, yy) {
                None
            } else {
                g0[yy][x]
            },
        ));
        assert forall|xx: int| 0 <= xx < GRID_WIDTH implies grid@[yy][xx] == target[yy][xx] by {
            assert(grid@[yy][xx] == (if scan_hits(which, *piece, xx, yy) {
                None
            } else {
                g0[yy][xx]
            }));
        }
    }
    assert(grid@ =~~= scan_grid(which, g0, *piece));
}

/// Explosive kind: clears every cell in a one-cell radius around each cell of
/// the footprint; overlapping areas clear once.
pub fn resolve_bomb(grid: &mut Grid, piece: &Bidule)
    requires
        grid_wf(old(grid)@),
        piece.wf(),
    ensures
        grid_wf(final(grid)@),
        final(grid)@ == bomb_grid(old(grid)@, *piece),
{
    clear_scan(grid, piece, ScanKind::Blast);
}

/// Beam kind: clears every cell in each column touched by the footprint.
pub fn resolve_laser(grid: &mut Grid, piece: &Bidule)
    requires
        grid_wf(old(grid)@),
        piece.wf(),
    ensures
        grid_wf(final(grid)@),
        final(grid)@ == laser_grid(old(grid)@, *piece),
{
    clear_scan(grid, piece, ScanKind::Beam);
}

/// Reads one cell of the field.
fn get_cell(grid: &Grid, x: usize, y: usize) -> (c: Option<Cell>)
    requires
        grid_wf(grid@),
        x < GRID_WIDTH,
        y < GRID_HEIGHT,
    ensures
        c == grid@[y as int][x as int],
{
    assert(grid.cells@.len() == grid@.len());
    assert(grid.cells@[y as int]@ == grid@[y as int]);
    grid.cells[y][x]
}

/// Replaces one cell of the field.
fn set_cell(grid: &mut Grid, x: usize, y: usize, v: Option<Cell>)
    requires
        grid_wf(old(grid)@),
        x < GRID_WIDTH,
        y < GRID_HEIGHT,
    ensures
        grid_wf(final(grid)@),
        final(grid)@ == old(grid)@.update(
            y as int,
            old(grid)@[y as int].update(x as int, v),
        ),
{
    let ghost pre = grid@;
    assert(grid.cells@.len() == grid@.len());
    assert(grid.cells@[y as int]@ == grid@[y as int]);
    grid.cells[y][x] = v;
    assert forall|r: int| 0 <= r < grid@.len() implies grid@[r] == (if r == y as int {
        pre[r].update(x as int, v)
    } else {
        pre[r]
    }) by {
        assert(grid@[r] == grid.cells@[r]@);
    }
    assert(grid@ =~~= pre.update(y as int, pre[y as int].update(x as int, v)));
}

/// The cell holds the liquid color.
pub open spec fn is_jelly_at(g: GridModel, x: int, y: int) -> bool {
    g[y][x] matches Some(c) && c.color == BlockColor::Pink
}

/// A liquid cell with a free cell directly below.
pub open spec fn can_fall(g: GridModel, x: int, y: int) -> bool {
    &&& is_jelly_at(g, x, y)
    &&& y + 1 < GRID_HEIGHT as int
    &&& g[y + 1][x] is None
}

/// A liquid cell that may slide one column sideways and down: both the
/// destination column's below-cell and its same-row cell are empty, so the
/// liquid cannot tunnel through corners.
pub open spec fn can_slide(g: GridModel, x: int, y: int, d: int) -> bool {
    &&& is_jelly_at(g, x, y)
    &&& y + 1 < GRID_HEIGHT as int
    &&& 0 <= x + d < GRID_WIDTH as int
    &&& g[y + 1][x + d] is None
    &&& g[y][x + d] is None
}

/// 1 when the cell is occupied, else 0.
pub open spec fn cell_occupied(c: Option<Cell>) -> int {
    if c is Some {
        1
    } else {
        0
    }
}

/// 1 when the cell holds liquid, else 0.
pub open spec fn cell_liquid(c: Option<Cell>) -> int {
    if c matches Some(cc) && cc.color == BlockColor::Pink {
        1
    } else {
        0
    }
}

/// How many cells of the row are occupied.
pub open spec fn row_occupied(r: Seq<Option<Cell>>) -> int
    decreases r.len(),
{
    if r.len() == 0 {
        0
    } else {
        row_occupied(r.drop_last()) + cell_occupied(r.last())
    }
}

/// How many cells of the row hold liquid.
pub open spec fn row_liquid(r: Seq<Option<Cell>>) -> int
    decreases r.len(),
{
    if r.len() == 0 {
        0
    } else {
        row_liquid(r.drop_last()) + cell_liquid(r.last())
    }
}

/// How many cells of the whole field are occupied.
pub open spec fn grid_occupied(g: GridModel) -> int
    decreases g.len(),
{
    if g.len() == 0 {
        0
    } else {
        grid_occupied(g.drop_last()) + row_occupied(g.last())
    }
}

/// The sum of the row indices of all liquid cells: a potential that every
/// downward liquid move raises by exactly one, so it witnesses progress.
pub open spec fn liquid_depth(g: GridModel) -> int
    decreases g.len(),
{
    if g.len() == 0 {
        0
    } else {
        liquid_depth(g.drop_last()) + (g.len() - 1) * row_liquid(g.last())
    }
}

/// Replacing one cell shifts the row sums by the difference of the old and
/// new cell.
proof fn lemma_row_sums_update(r: Seq<Option<Cell>>, x: int, v: Option<Cell>)
    requires
        0 <= x < r.len(),
    ensures
        row_occupied(r.update(x, v)) == row_occupied(r) - cell_occupied(r[x]) + cell_occupied(v),
        row_liquid(r.update(x, v)) == row_liquid(r) - cell_liquid(r[x]) + cell_liquid(v),
    decreases r.len(),
{
    if x == r.len() - 1 {
        assert(r.update(x, v).drop_last() =~= r.drop_last());
    } else {
        assert(r.update(x, v).drop_last() =~= r.drop_last().update(x, v));
        assert(r.update(x, v).last() == r.last());
        lemma_row_sums_update(r.drop_last(), x, v);
    }
}

/// Replacing one row shifts the field sums by the rows' difference.
proof fn lemma_grid_sums_update(g: GridModel, y: int, r2: Seq<Option<Cell>>)
    requires
        0 <= y < g.len(),
    ensures
        grid_occupied(g.update(y, r2)) == grid_occupied(g) - row_occupied(g[y]) + row_occupied(
            r2,
        ),
        liquid_depth(g.update(y, r2)) == liquid_depth(g) + y * (row_liquid(r2) - row_liquid(
            g[y],
        )),
    decreases g.len(),
{
    if y == g.len() - 1 {
        assert(g.update(y, r2).drop_last() =~= g.drop_last());
        assert((g.len() - 1) * row_liquid(r2) - (g.len() - 1) * row_liquid(g[y]) == (g.len() - 1)
            * (row_liquid(r2) - row_liquid(g[y]))) by (nonlinear_arith);
    } else {
        assert(g.update(y, r2).drop_last() =~= g.drop_last().update(y, r2));
        assert(g.update(y, r2).last() == g.last());
        lemma_grid_sums_update(g.drop_last(), y, r2);
    }
}

/// One liquid move — the cell written one row down, straight or diagonal, and
/// its source cleared — keeps the occupied count and raises the depth
/// potential by exactly one.
proof fn lemma_move_sums(pre: GridModel, x: int, y: int, nx: int, cell: Option<Cell>)
    requires
        grid_wf(pre),
        0 <= x < GRID_WIDTH,
        0 <= y < GRID_HEIGHT - 1,
        0 <= nx < GRID_WIDTH,
        pre[y][x] == cell,
        cell_liquid(cell) == 1,
        pre[y + 1][nx] is None,
    ensures
        ({
            let g1 = pre.update(y + 1, pre[y + 1].update(nx, cell));
            let g2 = g1.update(y, g1[y].update(x, None));
            &&& grid_occupied(g2) == grid_occupied(pre)
            &&& liquid_depth(g2) == liquid_depth(pre) + 1
        }),
{
    let r1 = pre[y + 1].update(nx, cell);
    let g1 = pre.update(y + 1, r1);
    lemma_row_sums_update(pre[y + 1], nx, cell);
    lemma_grid_sums_update(pre, y + 1, r1);
    assert(g1[y] == pre[y]);
    let r2 = g1[y].update(x, None);
    lemma_row_sums_update(g1[y], x, None);
    lemma_grid_sums_update(g1, y, r2);
    assert((y + 1) * (row_liquid(r1) - row_liquid(pre[y + 1])) == y + 1) by (nonlinear_arith)
        requires
            row_liquid(r1) - row_liquid(pre[y + 1]) == 1,
    ;
    assert(y * (row_liquid(r2) - row_liquid(g1[y])) == -y) by (nonlinear_arith)
        requires
            row_liquid(r2) - row_liquid(g1[y]) == -1,
    ;
}

/// The liquid cell at this position (if any) can neither fall nor slide.
pub open spec fn cell_settled(g: GridModel, x: int, y: int) -> bool {
    &&& !can_fall(g, x, y)
    &&& !can_slide(g, x, y, -1)
    &&& !can_slide(g, x, y, 1)
}

/// No liquid cell in a row at or below `lo` can fall or slide.
pub open spec fn rows_settled(g: GridModel, lo: int) -> bool {
    forall|x: int, y: int|
        0 <= x < GRID_WIDTH && lo <= y < GRID_HEIGHT ==> #[trigger] cell_settled(g, x, y)
}

/// No liquid cell anywhere can fall or slide.
pub open spec fn settled(g: GridModel) -> bool {
    rows_settled(g, 0)
}

/// The cell is empty or holds liquid.
pub open spec fn none_or_jelly(g: GridModel, x: int, y: int) -> bool {
    g[y][x] is None || is_jelly_at(g, x, y)
}

/// How the settle pass may change the field: a cell either keeps its exact
/// content, or it is a liquid-or-empty cell in both the old and the new field.
/// In particular every non-liquid block stays exactly where it was.
pub open spec fn jelly_evolution(g0: GridModel, g1: GridModel) -> bool {
    forall|x: int, y: int|
        0 <= x < GRID_WIDTH && 0 <= y < GRID_HEIGHT ==> (g1[y][x] == g0[y][x] || (none_or_jelly(
            g0,
            x,
            y,
        ) && none_or_jelly(g1, x, y)))
}

/// The evolution relation is transitive, so it chains over settle passes.
pub proof fn lemma_jelly_evolution_trans(a: GridModel, b: GridModel, c: GridModel)
    requires
        jelly_evolution(a, b),
        jelly_evolution(b, c),
    ensures
        jelly_evolution(a, c),
{
    assert forall|x: int, y: int|
        0 <= x < GRID_WIDTH && 0 <= y < GRID_HEIGHT implies (c[y][x] == a[y][x] || (none_or_jelly(
        a,
        x,
        y,
    ) && none_or_jelly(c, x, y))) by {
        assert(b[y][x] == a[y][x] || (none_or_jelly(a, x, y) && none_or_jelly(b, x, y)));
        assert(c[y][x] == b[y][x] || (none_or_jelly(b, x, y) && none_or_jelly(c, x, y)));
    }
}

/// One bottom-to-top, left-to-right settle pass. Returns whether any liquid
/// cell moved; when none did, the field is unchanged and already settled.
fn settle_pass(grid: &mut Grid) -> (moved: bool)
    requires
        grid_wf(old(grid)@),
    ensures
        grid_wf(final(grid)@),
        jelly_evolution(old(grid)@, final(grid)@),
        !moved ==> final(grid)@ == old(grid)@ && settled(old(grid)@),
        settled(old(grid)@) ==> !moved,
        grid_occupied(final(grid)@) == grid_occupied(old(grid)@),
        liquid_depth(final(grid)@) >= liquid_depth(old(grid)@),
        moved ==> liquid_depth(final(grid)@) > liquid_depth(old(grid)@),
{
    let ghost g0 = grid@;
    let mut moved = false;
    let mut yi: usize = GRID_HEIGHT - 1;
    assert(rows_settled(g0, GRID_HEIGHT - 1)) by {
        assert forall|x: int, y: int|
            0 <= x < GRID_WIDTH && GRID_HEIGHT - 1 <= y < GRID_HEIGHT implies #[trigger] cell_settled(
            g0,
            x,
            y,
        ) by {
            assert(y + 1 >= GRID_HEIGHT);
        }
    }
    while yi > 0
        invariant
            yi <= GRID_HEIGHT - 1,
            grid_wf(g0),
            grid_wf(grid@),
            jelly_evolution(g0, grid@),
            settled(g0) ==> !moved,
            !moved ==> grid@ == g0 && rows_settled(g0, yi as int),
            grid_occupied(grid@) == grid_occupied(g0),
            liquid_depth(grid@) >= liquid_depth(g0),
            moved ==> liquid_depth(grid@) > liquid_depth(g0),
        decreases yi,
    {
        yi -= 1;
        let y = yi;
        assert(!moved ==> rows_settled(g0, y + 1));
        let mut x: usize = 0;
        while x < GRID_WIDTH
            invariant
                x <= GRID_WIDTH,
                y < GRID_HEIGHT - 1,
                grid_wf(g0),
                grid_wf(grid@),
                jelly_evolution(g0, grid@),
                settled(g0) ==> !moved,
                !moved ==> grid@ == g0 && rows_settled(g0, y + 1),
                grid_occupied(grid@) == grid_occupied(g0),
                liquid_depth(grid@) >= liquid_depth(g0),
                moved ==> liquid_depth(grid@) > liquid_depth(g0),
                !moved ==> (forall|xx: int|
                    0 <= xx < x ==> #[trigger] cell_settled(g0, xx, y as int)),
            decreases GRID_WIDTH - x,
        {
            let ghost row_pre = (forall|xx: int|
                0 <= xx < x ==> #[trigger] cell_settled(g0, xx, y as int));
            let cell = get_cell(grid, x, y);
            let is_jelly = match cell {
                Some(c) => c.color == BlockColor::Pink,
                None => false,
            };
            if is_jelly {
                let ghost pre = grid@;
                if get_cell(grid, x, y + 1).is_none() {
                    set_cell(grid, x, y + 1, cell);
                    set_cell(grid, x, y, None);
                    proof {
                        lemma_move_sums(pre, x as int, y as int, x as int, cell);
                        assert(grid_occupied(grid@) == grid_occupied(pre));
                        assert(liquid_depth(grid@) == liquid_depth(pre) + 1);
                        assert(can_fall(pre, x as int, y as int));
                        if !moved {
                            assert(pre == g0);
                            assert(!cell_settled(g0, x as int, y as int));
                            assert(!settled(g0));
                        }
                        assert(jelly_evolution(pre, grid@));
                        lemma_jelly_evolution_trans(g0, pre, grid@);
                    }
                    moved = true;
                } else {
                    let left_ok = x > 0 && get_cell(grid, x - 1, y + 1).is_none() && get_cell(
                        grid,
                        x - 1,
                        y,
                    ).is_none();
                    let right_ok = x + 1 < GRID_WIDTH && get_cell(grid, x + 1, y + 1).is_none()
                        && get_cell(grid, x + 1, y).is_none();
                    if left_ok || right_ok {
                        let go_left = if left_ok && right_ok {
                            random_below(2) == 0
                        } else {
                            left_ok
                        };
                        let nx = if go_left {
                            x - 1
                        } else {
                            x + 1
                        };
                        set_cell(grid, nx, y + 1, cell);
                        set_cell(grid, x, y, None);
                        proof {
                            lemma_move_sums(pre, x as int, y as int, nx as int, cell);
                            assert(grid_occupied(grid@) == grid_occupied(pre));
                            assert(liquid_depth(grid@) == liquid_depth(pre) + 1);
                            let d: int = if go_left {
                                -1
                            } else {
                                1
                            };
                            assert(can_slide(pre, x as int, y as int, d));
                            if !moved {
                                assert(pre == g0);
                                assert(!cell_settled(g0, x as int, y as int));
                                assert(!settled(g0));
                            }
                            assert(jelly_evolution(pre, grid@));
                            lemma_jelly_evolution_trans(g0, pre, grid@);
                        }
                        moved = true;
                    } else {
                        assert(!moved ==> cell_settled(g0, x as int, y as int));
                    }
                }
            } else {
                assert(!is_jelly_at(grid@, x as int, y as int));
            }
            proof {
                if !moved {
                    assert forall|xx: int| 0 <= xx < x + 1 implies #[trigger] cell_settled(
                        g0,
                        xx,
                        y as int,
                    ) by {
                        if xx == x as int {
                            assert(cell_settled(g0, xx, y as int));
                        } else {
                            assert(row_pre);
                        }
                    }
                }
            }
            x += 1;
        }
        proof {
            if !moved {
                assert forall|xx: int, yy: int|
                    0 <= xx < GRID_WIDTH && y as int <= yy < GRID_HEIGHT implies #[trigger] cell_settled(
                    g0,
                    xx,
                    yy,
                ) by {
                    if yy == y as int {
                        assert(cell_settled(g0, xx, y as int));
                    } else {
                        assert(rows_settled(g0, y + 1));
                        assert(cell_settled(g0, xx, yy));
                    }
                }
                assert(rows_settled(g0, y as int));
            }
        }
    }
    if !moved {
        assert(rows_settled(g0, 0));
        assert(settled(g0));
    }
    moved
}

/// Iterative settle pass for the liquid kind, repeated until no cell moves or
/// the iteration cap is hit (a safety valve against endless settling).
/// Re-running it on an already-settled field changes nothing; on an unsettled
/// one at least one liquid cell moves strictly down, so the field changes;
/// cells only move — none is ever created or destroyed.
pub fn resolve_jelly_physics(grid: &mut Grid)
    requires
        grid_wf(old(grid)@),
    ensures
        grid_wf(final(grid)@),
        jelly_evolution(old(grid)@, final(grid)@),
        settled(old(grid)@) ==> final(grid)@ == old(grid)@,
        grid_occupied(final(grid)@) == grid_occupied(old(grid)@),
        liquid_depth(final(grid)@) >= liquid_depth(old(grid)@),
        !settled(old(grid)@) ==> liquid_depth(final(grid)@) > liquid_depth(old(grid)@)
            && final(grid)@ != old(grid)@,
{
    let ghost g0 = grid@;
    let mut settling = true;
    let mut iterations: usize = 0;
    while settling && iterations < 20
        invariant
            grid_wf(grid@),
            grid_wf(g0),
            jelly_evolution(g0, grid@),
            settled(g0) ==> grid@ == g0,
            grid_occupied(grid@) == grid_occupied(g0),
            liquid_depth(grid@) >= liquid_depth(g0),
            iterations > 0 && !settled(g0) ==> liquid_depth(grid@) > liquid_depth(g0),
            iterations == 0 ==> grid@ == g0 && settling,
        decreases 20 - iterations,
    {
        let ghost pre = grid@;
        settling = settle_pass(grid);
        proof {
            lemma_jelly_evolution_trans(g0, pre, grid@);
            if iterations == 0 && !settled(g0) {
                assert(liquid_depth(grid@) > liquid_depth(g0));
            }
        }
        iterations += 1;
    }
    proof {
        if !settled(g0) {
            assert(liquid_depth(grid@) > liquid_depth(g0));
            assert(grid@ != g0);
        }
    }
}

/// One column of the field, top to bottom.
pub open spec fn col_seq(g: GridModel, c: int) -> Seq<Option<Cell>> {
    Seq::new(GRID_HEIGHT as nat, |y: int| g[y][c])
}

/// The deepest footprint row in column `c` among the first `k` cells,
/// clamped below at row 0.
pub open spec fn col_bottom_upto(p: Bidule, c: int, k: nat) -> int
    decreases k,
{
    if k == 0 {
        0
    } else {
        let prev = col_bottom_upto(p, c, (k - 1) as nat);
        let off = p.positions@[k - 1];
        if p.pos.x + off.x == c && p.pos.y + off.y > prev {
            p.pos.y + off.y
        } else {
            prev
        }
    }
}

/// The deepest footprint row in column `c`, clamped below at row 0.
pub open spec fn col_bottom(p: Bidule, c: int) -> int {
    col_bottom_upto(p, c, p.positions@.len())
}

/// The clamped column bottom always lies inside the field.
pub proof fn lemma_col_bottom_in_field(p: Bidule, c: int, k: nat)
    requires
        p.wf(),
        piece_in_field(p),
        k <= p.positions@.len(),
    ensures
        0 <= col_bottom_upto(p, c, k) < GRID_HEIGHT,
    decreases k,
{
    if k > 0 {
        lemma_col_bottom_in_field(p, c, (k - 1) as nat);
    }
}

/// The occupied cells strictly below row `b` in column `c`, top to bottom.
pub open spec fn stack_below(g: GridModel, c: int, b: int) -> Seq<Option<Cell>> {
    col_seq(g, c).subrange(b + 1, GRID_HEIGHT as int).filter(|o: Option<Cell>| o is Some)
}

/// Pairwise merge of a stack listed top to bottom: of each two stacked cells
/// the lower one is kept, and an odd cell out at the bottom survives.
pub open spec fn compress(s: Seq<Option<Cell>>) -> Seq<Option<Cell>>
    decreases s.len(),
{
    if s.len() >= 2 {
        seq![s[1]] + compress(s.subrange(2, s.len() as int))
    } else {
        s
    }
}

/// Merging halves the stack, rounding up; in particular it never grows it.
pub proof fn lemma_compress_len(s: Seq<Option<Cell>>)
    ensures
        compress(s).len() == (s.len() + 1) / 2,
    decreases s.len(),
{
    if s.len() >= 2 {
        lemma_compress_len(s.subrange(2, s.len() as int));
    }
}

/// The vertical room below the anvil once the stack under row `b` of column
/// `c` has been merged: the distance from `b` down to the merged stack's top.
pub open spec fn gap_for(g: GridModel, c: int, b: int) -> int {
    let n2 = compress(stack_below(g, c, b)).len();
    let raw = GRID_HEIGHT - n2 - 1;
    if raw >= b {
        raw - b
    } else {
        0
    }
}

/// The gap of one column touched by the piece.
pub open spec fn anvil_gap(g: GridModel, p: Bidule, c: int) -> int {
    gap_for(g, c, col_bottom(p, c))
}

/// The smallest gap among the touched columns with index below `w`, if any.
pub open spec fn min_gap_upto(g: GridModel, p: Bidule, w: nat) -> Option<int>
    decreases w,
{
    if w == 0 {
        None
    } else {
        let prev = min_gap_upto(g, p, (w - 1) as nat);
        let c = w - 1;
        if col_touched(p, c) {
            let gc = anvil_gap(g, p, c);
            match prev {
                None => Some(gc),
                Some(m) => Some(
                    if gc < m {
                        gc
                    } else {
                        m
                    },
                ),
            }
        } else {
            prev
        }
    }
}

/// How far the anvil (and everything above it) drops: the minimum gap across
/// all affected columns, or zero when no column is affected.
pub open spec fn anvil_drop(g: GridModel, p: Bidule) -> int {
    match min_gap_upto(g, p, GRID_WIDTH as nat) {
        None => 0,
        Some(m) => m,
    }
}

/// Column `c` after the anvil resolves, as a function of the original field.
pub open spec fn anvil_column(g: GridModel, p: Bidule, c: int) -> Seq<Option<Cell>> {
    if col_touched(p, c) {
        let b = col_bottom(p, c);
        let st = compress(stack_below(g, c, b));
        let d = anvil_drop(g, p);
        Seq::new(
            GRID_HEIGHT as nat,
            |y: int|
                if y >= GRID_HEIGHT - st.len() {
                    st[y - (GRID_HEIGHT - st.len())]
                } else if d <= y <= b + d {
                    col_seq(g, c)[y - d]
                } else {
                    None
                },
        )
    } else {
        col_seq(g, c)
    }
}

/// The whole field after the anvil resolves.
pub open spec fn anvil_grid(g: GridModel, p: Bidule) -> GridModel {
    Seq::new(
        GRID_HEIGHT as nat,
        |y: int| Seq::new(GRID_WIDTH as nat, |x: int| anvil_column(g, p, x)[y]),
    )
}

/// The minimum never exceeds the gap of any touched column below `w`.
pub proof fn lemma_min_gap_le(g: GridModel, p: Bidule, w: nat, c: int)
    requires
        0 <= c < w,
        col_touched(p, c),
    ensures
        min_gap_upto(g, p, w) is Some,
        min_gap_upto(g, p, w)->Some_0 <= anvil_gap(g, p, c),
    decreases w,
{
    if c < w - 1 {
        lemma_min_gap_le(g, p, (w - 1) as nat, c);
    }
}

/// A defined minimum is attained by some touched column below `w`.
pub proof fn lemma_min_gap_witness(g: GridModel, p: Bidule, w: nat)
    requires
        min_gap_upto(g, p, w) is Some,
    ensures
        exists|c: int|
            0 <= c < w && #[trigger] col_touched(p, c) && anvil_gap(g, p, c) == min_gap_upto(
                g,
                p,
                w,
            )->Some_0,
    decreases w,
{
    if w > 0 {
        let prev = min_gap_upto(g, p, (w - 1) as nat);
        if col_touched(p, w - 1) {
            if prev is Some && prev->Some_0 <= anvil_gap(g, p, w - 1) {
                lemma_min_gap_witness(g, p, (w - 1) as nat);
            } else {
                assert(col_touched(p, w - 1) && anvil_gap(g, p, w - 1) == min_gap_upto(
                    g,
                    p,
                    w,
                )->Some_0);
            }
        } else {
            lemma_min_gap_witness(g, p, (w - 1) as nat);
        }
    }
}

/// Every gap is non-negative, so the drop distance is too.
pub proof fn lemma_anvil_drop_nonneg(g: GridModel, p: Bidule, w: nat)
    ensures
        min_gap_upto(g, p, w) is Some ==> min_gap_upto(g, p, w)->Some_0 >= 0,
    decreases w,
{
    if w > 0 {
        lemma_anvil_drop_nonneg(g, p, (w - 1) as nat);
    }
}

/// Executable counterpart of `col_bottom`.
fn col_bottom_exec(piece: &Bidule, c: i32) -> (b: usize)
    requires
        piece.wf(),
        piece_in_field(*piece),
    ensures
        b as int == col_bottom(*piece, c as int),
        b < GRID_HEIGHT,
{
    let n = piece.positions.len();
    let mut acc: i32 = 0;
    let mut i: usize = 0;
    while i < n
        invariant
            i <= n,
            n == piece.positions@.len(),
            piece.wf(),
            piece_in_field(*piece),
            acc as int == col_bottom_upto(*piece, c as int, i as nat),
            0 <= acc < GRID_HEIGHT,
        decreases n - i,
    {
        let p = piece.positions[i];
        if piece.pos.x + p.x == c && piece.pos.y + p.y > acc {
            acc = piece.pos.y + p.y;
        }
        i += 1;
    }
    acc as usize
}

/// Executable counterpart of `compress`.
fn compress_stack(v: &Vec<Option<Cell>>) -> (r: Vec<Option<Cell>>)
    ensures
        r@ == compress(v@),
{
    let n = v.len();
    let mut r: Vec<Option<Cell>> = Vec::new();
    let mut i: usize = 0;
    assert(v@.subrange(0, n as int) =~= v@);
    assert(compress(v@) =~= r@ + compress(v@.subrange(0, n as int)));
    while i < n
        invariant
            i <= n,
            n == v@.len(),
            compress(v@) == r@ + compress(v@.subrange(i as int, n as int)),
        decreases n - i,
    {
        let ghost pre = r@;
        let ghost rest = v@.subrange(i as int, n as int);
        if i + 1 < n {
            r.push(v[i + 1]);
            proof {
                assert(rest.subrange(2, rest.len() as int) =~= v@.subrange(i + 2, n as int));
                assert(rest[1] == v@[i + 1]);
                assert(compress(rest) == seq![v@[i + 1]] + compress(v@.subrange(i + 2, n as int)));
                assert(r@ + compress(v@.subrange(i + 2, n as int)) =~= pre + compress(rest));
            }
            i += 2;
        } else {
            r.push(v[i]);
            proof {
                assert(rest.len() == 1);
                assert(compress(rest) == rest);
                assert(rest =~= seq![v@[i as int]]);
                assert(v@.subrange(i + 1, n as int).len() == 0);
                assert(compress(v@.subrange(i + 1, n as int)) =~= v@.subrange(i + 1, n as int));
                assert(r@ + compress(v@.subrange(i + 1, n as int)) =~= pre + compress(rest));
            }
            i += 1;
        }
    }
    assert(v@.subrange(n as int, n as int).len() == 0);
    assert(compress(v@.subrange(n as int, n as int)) =~= v@.subrange(n as int, n as int));
    assert(r@ =~= r@ + compress(v@.subrange(n as int, n as int)));
    r
}

/// The clamp in `gap_for` never fires: the merged stack is short enough that
/// its top stays strictly below row `b`.
pub proof fn lemma_gap_unclamped(g: GridModel, c: int, b: int)
    requires
        0 <= b < GRID_HEIGHT,
    ensures
        compress(stack_below(g, c, b)).len() <= GRID_HEIGHT - 1 - b,
        gap_for(g, c, b) == GRID_HEIGHT - 1 - compress(stack_below(g, c, b)).len() - b,
{
    broadcast use vstd::seq_lib::group_filter_ensures;

    let sub = col_seq(g, c).subrange(b + 1, GRID_HEIGHT as int);
    assert(stack_below(g, c, b).len() <= sub.len());
    lemma_compress_len(stack_below(g, c, b));
}

/// Phase-one work of the anvil on one column: collects the occupied cells
/// strictly below row `b`, merges them pairwise, repacks them at the bottom,
/// and returns the gap this leaves under row `b`.
fn compact_column(grid: &mut Grid, c: usize, b: usize) -> (gap: usize)
    requires
        grid_wf(old(grid)@),
        c < GRID_WIDTH,
        b < GRID_HEIGHT,
    ensures
        grid_wf(final(grid)@),
        gap as int == gap_for(old(grid)@, c as int, b as int),
        forall|x: int, y: int|
            0 <= x < GRID_WIDTH && 0 <= y < GRID_HEIGHT && x != c ==> final(grid)@[y][x] == old(
                grid,
            )@[y][x],
        forall|y: int| 0 <= y <= b ==> final(grid)@[y][c as int] == old(grid)@[y][c as int],
        ({
            let st = compress(stack_below(old(grid)@, c as int, b as int));
            &&& forall|y: int|
                b < y < GRID_HEIGHT - st.len() ==> final(grid)@[y][c as int] is None
            &&& forall|y: int|
                GRID_HEIGHT - st.len() <= y < GRID_HEIGHT ==> final(grid)@[y][c as int] == st[y
                    - (GRID_HEIGHT - st.len())]
        }),
{
    let ghost g0 = grid@;
    let ghost pred = |o: Option<Cell>| o is Some;
    let mut stack: Vec<Option<Cell>> = Vec::new();
    let mut y: usize = b + 1;
    proof {
        reveal(Seq::filter);
        assert(col_seq(g0, c as int).subrange(b + 1, b + 1).len() == 0);
        assert(stack@ =~= col_seq(g0, c as int).subrange(b + 1, b + 1).filter(pred));
    }
    while y < GRID_HEIGHT
        invariant
            b + 1 <= y <= GRID_HEIGHT,
            c < GRID_WIDTH,
            b < GRID_HEIGHT,
            grid_wf(g0),
            grid_wf(grid@),
            pred == (|o: Option<Cell>| o is Some),
            stack@ == col_seq(g0, c as int).subrange(b + 1, y as int).filter(pred),
            forall|x2: int, y2: int|
                0 <= x2 < GRID_WIDTH && 0 <= y2 < GRID_HEIGHT && !(x2 == c as int && b < y2
                    < y as int) ==> grid@[y2][x2] == g0[y2][x2],
            forall|y2: int| b < y2 < y as int ==> grid@[y2][c as int] is None,
        decreases GRID_HEIGHT - y,
    {
        let cell = get_cell(grid, c, y);
        assert(cell == g0[y as int][c as int]);
        proof {
            reveal(Seq::filter);
            assert(col_seq(g0, c as int).subrange(b + 1, y + 1).drop_last() =~= col_seq(
                g0,
                c as int,
            ).subrange(b + 1, y as int));
            assert(col_seq(g0, c as int).subrange(b + 1, y + 1).last() == g0[y as int][c as int]);
        }
        if cell.is_some() {
            stack.push(cell);
            set_cell(grid, c, y, None);
        }
        assert(stack@ =~= col_seq(g0, c as int).subrange(b + 1, y + 1).filter(pred));
        y += 1;
    }
    assert(stack@ == stack_below(g0, c as int, b as int));
    let st2 = compress_stack(&stack);
    let n2 = st2.len();
    proof {
        lemma_gap_unclamped(g0, c as int, b as int);
    }
    assert(n2 <= GRID_HEIGHT - 1 - b);
    let base = GRID_HEIGHT - n2;
    let mut j: usize = 0;
    while j < n2
        invariant
            j <= n2,
            n2 == st2@.len(),
            base == GRID_HEIGHT - n2,
            n2 <= GRID_HEIGHT - 1 - b,
            c < GRID_WIDTH,
            b < GRID_HEIGHT,
            grid_wf(grid@),
            forall|x2: int, y2: int|
                0 <= x2 < GRID_WIDTH && 0 <= y2 < GRID_HEIGHT && !(x2 == c as int && b < y2)
                    ==> grid@[y2][x2] == g0[y2][x2],
            forall|y2: int| 0 <= y2 <= b ==> grid@[y2][c as int] == g0[y2][c as int],
            forall|y2: int| b < y2 < base + j && y2 < base ==> grid@[y2][c as int] is None,
            forall|y2: int|
                base <= y2 < base + j ==> grid@[y2][c as int] == st2@[y2 - base],
            forall|y2: int| base + j <= y2 < GRID_HEIGHT ==> grid@[y2][c as int] is None,
        decreases n2 - j,
    {
        set_cell(grid, c, base + j, st2[j]);
        j += 1;
    }
    let raw = GRID_HEIGHT - n2 - 1;
    let gap = if raw >= b {
        raw - b
    } else {
        0
    };
    gap
}

/// Drops the whole upper part of one column — rows 0 through `b` — down by
/// `d` rows, into room that compaction has already cleared.
fn shift_column(grid: &mut Grid, c: usize, b: usize, d: usize)
    requires
        grid_wf(old(grid)@),
        c < GRID_WIDTH,
        b < GRID_HEIGHT,
        1 <= d,
        b + d < GRID_HEIGHT,
        forall|y: int| b < y <= b + d ==> old(grid)@[y][c as int] is None,
    ensures
        grid_wf(final(grid)@),
        forall|x: int, y: int|
            0 <= x < GRID_WIDTH && 0 <= y < GRID_HEIGHT && x != c ==> final(grid)@[y][x] == old(
                grid,
            )@[y][x],
        forall|y: int| 0 <= y < d ==> final(grid)@[y][c as int] is None,
        forall|y: int|
            d <= y <= b + d ==> final(grid)@[y][c as int] == old(grid)@[y - d][c as int],
        forall|y: int| b + d < y < GRID_HEIGHT ==> final(grid)@[y][c as int] == old(grid)@[y][c as int],
{
    let ghost g0 = grid@;
    let mut yy: usize = b + 1;
    while yy > 0
        invariant
            yy <= b + 1,
            c < GRID_WIDTH,
            b < GRID_HEIGHT,
            1 <= d,
            b + d < GRID_HEIGHT,
            grid_wf(g0),
            grid_wf(grid@),
            forall|x2: int, y2: int|
                0 <= x2 < GRID_WIDTH && 0 <= y2 < GRID_HEIGHT && x2 != c as int ==> grid@[y2][x2]
                    == g0[y2][x2],
            forall|y2: int| 0 <= y2 < yy as int ==> grid@[y2][c as int] == g0[y2][c as int],
            forall|y2: int|
                yy as int <= y2 < yy + d ==> grid@[y2][c as int] is None,
            forall|y2: int|
                yy + d <= y2 <= b + d ==> grid@[y2][c as int] == g0[y2 - d][c as int],
            forall|y2: int|
                b + d < y2 < GRID_HEIGHT ==> grid@[y2][c as int] == g0[y2][c as int],
        decreases yy,
    {
        yy -= 1;
        let y = yy;
        let cell = get_cell(grid, c, y);
        assert(cell == g0[y as int][c as int]);
        if cell.is_some() {
            set_cell(grid, c, y + d, cell);
            set_cell(grid, c, y, None);
        } else {
            assert(grid@[y + d][c as int] is None);
        }
    }
}

/// The state of one touched column after compaction but before the rigid
/// drop: rows down to the anvil's bottom untouched, the merged stack packed
/// at the bottom, and nothing in between.
spec fn phase1_col_ok(g0: GridModel, p: Bidule, g: GridModel, c: int) -> bool {
    let b = col_bottom(p, c);
    let st = compress(stack_below(g0, c, b));
    &&& forall|y: int| 0 <= y <= b ==> g[y][c] == g0[y][c]
    &&& forall|y: int| b < y < GRID_HEIGHT - st.len() ==> g[y][c] is None
    &&& forall|y: int|
        GRID_HEIGHT - st.len() <= y < GRID_HEIGHT ==> g[y][c] == st[y - (GRID_HEIGHT
            - st.len())]
}

/// Rigid compaction kind: merges the stack below the anvil pairwise in every
/// touched column, then drops the anvil and everything above it — in every
/// affected column — by the minimum gap; if any column has no room, nothing
/// moves.
pub fn resolve_anvil(grid: &mut Grid, piece: &Bidule)
    requires
        grid_wf(old(grid)@),
        piece.wf(),
        piece_in_field(*piece),
    ensures
        grid_wf(final(grid)@),
        final(grid)@ == anvil_grid(old(grid)@, *piece),
{
    let ghost g0 = grid@;
    let mut have_gap = false;
    let mut min_gap: usize = 0;
    let mut c: usize = 0;
    while c < GRID_WIDTH
        invariant
            c <= GRID_WIDTH,
            piece.wf(),
            piece_in_field(*piece),
            grid_wf(g0),
            grid_wf(grid@),
            forall|x: int, y: int|
                0 <= x < GRID_WIDTH && 0 <= y < GRID_HEIGHT && x >= c ==> grid@[y][x] == g0[y][x],
            forall|x: int, y: int|
                0 <= x < c && 0 <= y < GRID_HEIGHT && !col_touched(*piece, x) ==> grid@[y][x]
                    == g0[y][x],
            forall|x: int|
                0 <= x < c && #[trigger] col_touched(*piece, x) ==> phase1_col_ok(
                    g0,
                    *piece,
                    grid@,
                    x,
                ),
            have_gap ==> min_gap_upto(g0, *piece, c as nat) == Some(min_gap as int),
            !have_gap ==> min_gap_upto(g0, *piece, c as nat) is None,
        decreases GRID_WIDTH - c,
    {
        if col_touched_exec(piece, c as i32) {
            let b = col_bottom_exec(piece, c as i32);
            proof {
                assert(col_seq(grid@, c as int) =~= col_seq(g0, c as int));
            }
            let ghost pre = grid@;
            let gap = compact_column(grid, c, b);
            proof {
                assert(stack_below(pre, c as int, b as int) == stack_below(
                    g0,
                    c as int,
                    b as int,
                ));
                assert(gap as int == anvil_gap(g0, *piece, c as int));
                assert forall|x: int|
                    0 <= x < c + 1 && #[trigger] col_touched(*piece, x) implies phase1_col_ok(
                    g0,
                    *piece,
                    grid@,
                    x,
                ) by {
                    let b2 = col_bottom(*piece, x);
                    let st2 = compress(stack_below(g0, x, b2));
                    lemma_col_bottom_in_field(*piece, x, piece.positions@.len());
                    lemma_gap_unclamped(g0, x, b2);
                    if x == c as int {
                        assert forall|y: int| 0 <= y <= b2 implies grid@[y][x] == g0[y][x] by {
                            assert(grid@[y][x] == pre[y][x]);
                        }
                    } else {
                        assert(phase1_col_ok(g0, *piece, pre, x));
                        assert forall|y: int| 0 <= y <= b2 implies grid@[y][x] == g0[y][x] by {
                            assert(grid@[y][x] == pre[y][x]);
                        }
                        assert forall|y: int|
                            b2 < y < GRID_HEIGHT - st2.len() implies grid@[y][x] is None by {
                            assert(grid@[y][x] == pre[y][x]);
                        }
                        assert forall|y: int|
                            GRID_HEIGHT - st2.len() <= y < GRID_HEIGHT implies grid@[y][x]
                            == st2[y - (GRID_HEIGHT - st2.len())] by {
                            assert(grid@[y][x] == pre[y][x]);
                        }
                    }
                }
            }
            if !have_gap || gap < min_gap {
                min_gap = gap;
            }
            have_gap = true;
        }
        c += 1;
    }
    let drop_amount = if have_gap {
        min_gap
    } else {
        0
    };
    proof {
        assert(anvil_drop(g0, *piece) == drop_amount as int);
    }
    if drop_amount > 0 {
        let mut c2: usize = 0;
        while c2 < GRID_WIDTH
            invariant
                c2 <= GRID_WIDTH,
                1 <= drop_amount,
                drop_amount as int == anvil_drop(g0, *piece),
                min_gap_upto(g0, *piece, GRID_WIDTH as nat) == Some(drop_amount as int),
                piece.wf(),
                piece_in_field(*piece),
                grid_wf(g0),
                grid_wf(grid@),
                forall|x: int, y: int|
                    0 <= x < GRID_WIDTH && 0 <= y < GRID_HEIGHT && !col_touched(*piece, x)
                        ==> grid@[y][x] == g0[y][x],
                forall|x: int|
                    c2 <= x < GRID_WIDTH && #[trigger] col_touched(*piece, x) ==> phase1_col_ok(
                        g0,
                        *piece,
                        grid@,
                        x,
                    ),
                forall|x: int, y: int|
                    0 <= x < c2 && 0 <= y < GRID_HEIGHT && col_touched(*piece, x) ==> grid@[y][x]
                        == #[trigger] anvil_column(g0, *piece, x)[y],
            decreases GRID_WIDTH - c2,
        {
            if col_touched_exec(piece, c2 as i32) {
                let b = col_bottom_exec(piece, c2 as i32);
                let d = drop_amount;
                let ghost st = compress(stack_below(g0, c2 as int, b as int));
                proof {
                    lemma_min_gap_le(g0, *piece, GRID_WIDTH as nat, c2 as int);
                    lemma_gap_unclamped(g0, c2 as int, b as int);
                    assert(d as int <= anvil_gap(g0, *piece, c2 as int));
                    assert(b + d <= GRID_HEIGHT - 1 - st.len());
                    assert(phase1_col_ok(g0, *piece, grid@, c2 as int));
                }
                let ghost pre = grid@;
                shift_column(grid, c2, b, d);
                proof {
                    assert forall|y: int|
                        0 <= y < GRID_HEIGHT implies grid@[y][c2 as int] == anvil_column(
                        g0,
                        *piece,
                        c2 as int,
                    )[y] by {
                        if y >= GRID_HEIGHT - st.len() {
                            assert(b + d < y);
                            assert(grid@[y][c2 as int] == pre[y][c2 as int]);
                            assert(pre[y][c2 as int] == st[y - (GRID_HEIGHT - st.len())]);
                        } else if d <= y <= b + d {
                            assert(grid@[y][c2 as int] == pre[y - d][c2 as int]);
                            assert(pre[y - d][c2 as int] == g0[y - d][c2 as int]);
                        } else if y < d as int {
                            assert(grid@[y][c2 as int] is None);
                        } else {
                            assert(b + d < y < GRID_HEIGHT - st.len());
                            assert(grid@[y][c2 as int] == pre[y][c2 as int]);
                            assert(pre[y][c2 as int] is None);
                        }
                    }
                    assert forall|x: int|
                        c2 as int + 1 <= x < GRID_WIDTH && #[trigger] col_touched(*piece, x)
                        implies phase1_col_ok(g0, *piece, grid@, x) by {
                        let b2 = col_bottom(*piece, x);
                        let st2 = compress(stack_below(g0, x, b2));
                        lemma_col_bottom_in_field(*piece, x, piece.positions@.len());
                        lemma_gap_unclamped(g0, x, b2);
                        assert(phase1_col_ok(g0, *piece, pre, x));
                        assert forall|y: int| 0 <= y <= b2 implies grid@[y][x] == g0[y][x] by {
                            assert(grid@[y][x] == pre[y][x]);
                        }
                        assert forall|y: int|
                            b2 < y < GRID_HEIGHT - st2.len() implies grid@[y][x] is None by {
                            assert(grid@[y][x] == pre[y][x]);
                        }
                        assert forall|y: int|
                            GRID_HEIGHT - st2.len() <= y < GRID_HEIGHT implies grid@[y][x]
                            == st2[y - (GRID_HEIGHT - st2.len())] by {
                            assert(grid@[y][x] == pre[y][x]);
                        }
                    }
                }
            }
            c2 += 1;
        }
    }
    proof {
        let d = anvil_drop(g0, *piece);
        if drop_amount == 0 {
            lemma_anvil_drop_nonneg(g0, *piece, GRID_WIDTH as nat);
        }
        assert forall|y: int, x: int|
            0 <= y < GRID_HEIGHT && 0 <= x < GRID_WIDTH implies grid@[y][x] == anvil_column(
            g0,
            *piece,
            x,
        )[y] by {
            if col_touched(*piece, x) {
                if drop_amount == 0 {
                    let b = col_bottom(*piece, x);
                    let st = compress(stack_below(g0, x, b));
                    lemma_col_bottom_in_field(*piece, x, piece.positions@.len());
                    lemma_gap_unclamped(g0, x, b);
                    assert(phase1_col_ok(g0, *piece, grid@, x));
                    if y >= GRID_HEIGHT - st.len() {
                        assert(grid@[y][x] == st[y - (GRID_HEIGHT - st.len())]);
                    } else if y <= b {
                        assert(grid@[y][x] == g0[y][x]);
                        assert(anvil_column(g0, *piece, x)[y] == col_seq(g0, x)[y]);
                    } else {
                        assert(grid@[y][x] is None);
                    }
                }
            } else {
                assert(grid@[y][x] == g0[y][x]);
                assert(anvil_column(g0, *piece, x)[y] == col_seq(g0, x)[y]);
            }
        }
        assert(grid@ =~~= anvil_grid(g0, *piece));
    }
}

/// Piercing kind: clears, in each touched column, every cell at or below the
/// piece's lowest cell in that column.
pub fn resolve_drill(grid: &mut Grid, piece: &Bidule)
    requires
        grid_wf(old(grid)@),
        piece.wf(),
    ensures
        grid_wf(final(grid)@),
        final(grid)@ == drill_grid(old(grid)@, *piece),
{
    clear_scan(grid, piece, ScanKind::Pierce);
}

/// Anvil compaction is rigid and monotonic. In every affected column the
/// merged stack holds exactly half the cells, rounded up, so the occupied
/// count below the anvil strictly decreases or stays equal and merging never
/// creates a cell. The drop distance never exceeds any affected column's gap
/// and equals the gap of some affected column — it is their minimum — so one
/// zero-gap column pins the anvil in place.
pub proof fn lemma_anvil_rigid(g: GridModel, p: Bidule)
    requires
        grid_wf(g),
        p.wf(),
        piece_in_field(p),
    ensures
        forall|c: int|
            0 <= c < GRID_WIDTH && #[trigger] col_touched(p, c) ==> compress(
                stack_below(g, c, col_bottom(p, c)),
            ).len() == (stack_below(g, c, col_bottom(p, c)).len() + 1) / 2,
        forall|c: int|
            0 <= c < GRID_WIDTH && #[trigger] col_touched(p, c) ==> compress(
                stack_below(g, c, col_bottom(p, c)),
            ).len() <= stack_below(g, c, col_bottom(p, c)).len(),
        anvil_drop(g, p) >= 0,
        forall|c: int|
            0 <= c < GRID_WIDTH && #[trigger] col_touched(p, c) ==> anvil_drop(g, p) <= anvil_gap(
                g,
                p,
                c,
            ),
        (exists|c: int| 0 <= c < GRID_WIDTH && #[trigger] col_touched(p, c)) ==> (exists|c: int|
            0 <= c < GRID_WIDTH && #[trigger] col_touched(p, c) && anvil_drop(g, p) == anvil_gap(
                g,
                p,
                c,
            )),
{
    assert forall|c: int| 0 <= c < GRID_WIDTH && #[trigger] col_touched(p, c) implies compress(
        stack_below(g, c, col_bottom(p, c)),
    ).len() == (stack_below(g, c, col_bottom(p, c)).len() + 1) / 2 by {
        lemma_compress_len(stack_below(g, c, col_bottom(p, c)));
    }
    lemma_anvil_drop_nonneg(g, p, GRID_WIDTH as nat);
    assert forall|c: int|
        0 <= c < GRID_WIDTH && #[trigger] col_touched(p, c) implies anvil_drop(g, p) <= anvil_gap(
        g,
        p,
        c,
    ) by {
        lemma_min_gap_le(g, p, GRID_WIDTH as nat, c);
    }
    if exists|c: int| 0 <= c < GRID_WIDTH && #[trigger] col_touched(p, c) {
        let c0 = choose|c: int| 0 <= c < GRID_WIDTH && #[trigger] col_touched(p, c);
        lemma_min_gap_le(g, p, GRID_WIDTH as nat, c0);
        lemma_min_gap_witness(g, p, GRID_WIDTH as nat);
    }
}

/// Applies the just-locked piece's kind-specific post-lock transformation to
/// the field; standard kinds have none and leave it untouched.
pub fn resolve_special_mechanics_on_lock(grid: &mut Grid, piece: &Bidule)
    requires
        grid_wf(old(grid)@),
        piece.wf(),
        piece_in_field(*piece),
    ensures
        grid_wf(final(grid)@),
        piece.kind == BiduleType::Bomb ==> final(grid)@ == bomb_grid(old(grid)@, *piece),
        piece.kind == BiduleType::Laser ==> final(grid)@ == laser_grid(old(grid)@, *piece),
        piece.kind == BiduleType::Drill ==> final(grid)@ == drill_grid(old(grid)@, *piece),
        piece.kind == BiduleType::Anvil ==> final(grid)@ == anvil_grid(old(grid)@, *piece),
        piece.kind == BiduleType::Jelly ==> jelly_evolution(old(grid)@, final(grid)@) && (settled(
            old(grid)@,
        ) ==> final(grid)@ == old(grid)@) && grid_occupied(final(grid)@) == grid_occupied(
            old(grid)@,
        ) && (!settled(old(grid)@) ==> final(grid)@ != old(grid)@),
        !is_special_kind(piece.kind) ==> final(grid)@ == old(grid)@,
{
    match piece.kind {
        BiduleType::Bomb => resolve_bomb(grid, piece),
        BiduleType::Laser => resolve_laser(grid, piece),
        BiduleType::Drill => resolve_drill(grid, piece),
        BiduleType::Anvil => resolve_anvil(grid, piece),
        BiduleType::Jelly => resolve_jelly_physics(grid),
        _ => {
        },
    }
}

/// The shape offsets and base color of the special kinds; standard kinds
/// answer `None`.
pub fn get_special_bidule_properties(kind: BiduleType) -> (r: Option<(Vec<Point>, BlockColor)>)
    ensures
        r matches Some(p) ==> is_special_kind(kind) && p.0@ == kind_offsets(kind) && p.1
            == kind_color(kind),
        r is None ==> !is_special_kind(kind),
{
    match kind {
        BiduleType::Jelly | BiduleType::Bomb | BiduleType::Laser | BiduleType::Drill
            | BiduleType::Anvil => Some((offsets_vec(kind), color_of(kind))),
        _ => None,
    }
}

} // verus!
