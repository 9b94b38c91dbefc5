//! The piece catalog and the rotation algorithm.

use vstd::prelude::*;

verus! {

/// Every piece kind: the seven standard shapes plus the special ones.
#[derive(Clone, Copy, Debug, PartialEq, Eq, Structural)]
pub enum BiduleType {
    I,
    O,
    T,
    S,
    Z,
    J,
    L,
    Jelly,
    Bomb,
    Laser,
    Drill,
    Anvil,
}

/// The closed palette of block colors; presentation layers map these to pixels.
#[derive(Clone, Copy, Debug, PartialEq, Eq, Structural)]
pub enum BlockColor {
    Cyan,
    Yellow,
    Purple,
    Green,
    Red,
    Blue,
    Orange,
    Pink,
    Lava,
    Electric,
    Bronze,
    Steel,
}

/// A cell coordinate; used both for local shape offsets and grid positions.
#[derive(Clone, Copy, Debug, PartialEq, Eq, Structural)]
pub struct Point {
    pub x: i32,
    pub y: i32,
}

/// An active piece: a catalog shape with live position and rotation state.
#[derive(Clone, Debug)]
pub struct Bidule {
    pub kind: BiduleType,
    pub positions: Vec<Point>,
    pub color: BlockColor,
    pub rotation_state: usize,
    pub pos: Point,
    pub seeds: Vec<usize>,
}

/// The local offsets of each shape, relative to its bounding box.
pub open spec fn kind_offsets(kind: BiduleType) -> Seq<Point> {
    match kind {
        BiduleType::I => seq![
            Point { x: 0, y: 1 },
            Point { x: 1, y: 1 },
            Point { x: 2, y: 1 },
            Point { x: 3, y: 1 },
        ],
        BiduleType::O => seq![
            Point { x: 1, y: 0 },
            Point { x: 2, y: 0 },
            Point { x: 1, y: 1 },
            Point { x: 2, y: 1 },
        ],
        BiduleType::T => seq![
            Point { x: 1, y: 0 },
            Point { x: 0, y: 1 },
            Point { x: 1, y: 1 },
            Point { x: 2, y: 1 },
        ],
        BiduleType::S => seq![
            Point { x: 1, y: 0 },
            Point { x: 2, y: 0 },
            Point { x: 0, y: 1 },
            Point { x: 1, y: 1 },
        ],
        BiduleType::Z => seq![
            Point { x: 0, y: 0 },
            Point { x: 1, y: 0 },
            Point { x: 1, y: 1 },
            Point { x: 2, y: 1 },
        ],
        BiduleType::J => seq![
            Point { x: 0, y: 0 },
            Point { x: 0, y: 1 },
            Point { x: 1, y: 1 },
            Point { x: 2, y: 1 },
        ],
        BiduleType::L => seq![
            Point { x: 2, y: 0 },
            Point { x: 0, y: 1 },
            Point { x: 1, y: 1 },
            Point { x: 2, y: 1 },
        ],
        BiduleType::Jelly => seq![
            Point { x: 0, y: 0 },
            Point { x: 1, y: 0 },
            Point { x: 2, y: 0 },
            Point { x: 0, y: 1 },
            Point { x: 1, y: 1 },
            Point { x: 2, y: 1 },
        ],
        BiduleType::Bomb => seq![
            Point { x: 1, y: 0 },
            Point { x: 0, y: 1 },
            Point { x: 1, y: 1 },
            Point { x: 2, y: 1 },
            Point { x: 1, y: 2 },
        ],
        BiduleType::Laser => seq![
            Point { x: 1, y: 0 },
            Point { x: 0, y: 1 },
            Point { x: 1, y: 1 },
            Point { x: 1, y: 2 },
            Point { x: 0, y: 3 },
            Point { x: 1, y: 3 },
        ],
        BiduleType::Drill => seq![
            Point { x: 0, y: 0 },
            Point { x: 1, y: 0 },
            Point { x: 2, y: 0 },
            Point { x: 1, y: 1 },
            Point { x: 1, y: 2 },
        ],
        BiduleType::Anvil => seq![
            Point { x: 0, y: 0 },
            Point { x: 1, y: 0 },
            Point { x: 2, y: 0 },
            Point { x: 3, y: 0 },
            Point { x: 1, y: 1 },
            Point { x: 2, y: 1 },
            Point { x: 1, y: 2 },
            Point { x: 2, y: 2 },
        ],
    }
}

/// The base color of each shape.
pub open spec fn kind_color(kind: BiduleType) -> BlockColor {
    match kind {
        BiduleType::I => BlockColor::Cyan,
        BiduleType::O => BlockColor::Yellow,
        BiduleType::T => BlockColor::Purple,
        BiduleType::S => BlockColor::Green,
        BiduleType::Z => BlockColor::Red,
        BiduleType::J => BlockColor::Blue,
        BiduleType::L => BlockColor::Orange,
        BiduleType::Jelly => BlockColor::Pink,
        BiduleType::Bomb => BlockColor::Lava,
        BiduleType::Laser => BlockColor::Electric,
        BiduleType::Drill => BlockColor::Bronze,
        BiduleType::Anvil => BlockColor::Steel,
    }
}

/// Side length of the bounding box a shape rotates within.
pub open spec fn box_size(kind: BiduleType) -> int {
    match kind {
        BiduleType::I => 4,
        BiduleType::Laser => 4,
        BiduleType::Anvil => 4,
        _ => 3,
    }
}

/// The kinds with a post-lock mechanic of their own.
pub open spec fn is_special_kind(kind: BiduleType) -> bool {
    ||| kind == BiduleType::Jelly
    ||| kind == BiduleType::Bomb
    ||| kind == BiduleType::Laser
    ||| kind == BiduleType::Drill
    ||| kind == BiduleType::Anvil
}

/// Kinds whose footprint is rotation-invariant; rotating them is a no-op.
pub open spec fn rotation_invariant(kind: BiduleType) -> bool {
    kind == BiduleType::O || kind == BiduleType::Jelly
}

/// One 90-degree turn of a local offset inside the kind's bounding box.
pub open spec fn rotated_point(kind: BiduleType, p: Point) -> Point {
    Point { x: (box_size(kind) - 1 - p.y) as i32, y: p.x }
}

/// All offsets turned by one 90-degree step.
pub open spec fn rotated_offsets(kind: BiduleType, ps: Seq<Point>) -> Seq<Point> {
    ps.map_values(|p: Point| rotated_point(kind, p))
}

/// An offset sequence that fits inside the kind's bounding box.
pub open spec fn offsets_in_box(kind: BiduleType, ps: Seq<Point>) -> bool {
    forall|i: int|
        0 <= i < ps.len() ==> {
            let p = #[trigger] ps[i];
            &&& 0 <= p.x < box_size(kind)
            &&& 0 <= p.y < box_size(kind)
        }
}

/// Turning a shape keeps it inside its bounding box.
pub proof fn lemma_rotated_offsets_in_box(kind: BiduleType, ps: Seq<Point>)
    requires
        offsets_in_box(kind, ps),
    ensures
        offsets_in_box(kind, rotated_offsets(kind, ps)),
        rotated_offsets(kind, ps).len() == ps.len(),
{
    assert forall|i: int| 0 <= i < ps.len() implies {
        let p = #[trigger] rotated_offsets(kind, ps)[i];
        0 <= p.x < box_size(kind) && 0 <= p.y < box_size(kind)
    } by {
        assert(rotated_offsets(kind, ps)[i] == rotated_point(kind, ps[i]));
    }
}

/// Four consecutive 90-degree turns bring every offset back exactly: the
/// transform is pure integer arithmetic, so no rounding can accumulate.
pub proof fn lemma_rotate_four_times_identity(kind: BiduleType, ps: Seq<Point>)
    requires
        offsets_in_box(kind, ps),
    ensures
        rotated_offsets(
            kind,
            rotated_offsets(kind, rotated_offsets(kind, rotated_offsets(kind, ps))),
        ) == ps,
{
    let b = box_size(kind);
    let r1 = rotated_offsets(kind, ps);
    let r2 = rotated_offsets(kind, r1);
    let r3 = rotated_offsets(kind, r2);
    let r4 = rotated_offsets(kind, r3);
    assert forall|i: int| 0 <= i < ps.len() implies r4[i] == ps[i] by {
        let p = ps[i];
        assert(r1[i] == rotated_point(kind, p));
        assert(r2[i] == rotated_point(kind, r1[i]));
        assert(r3[i] == rotated_point(kind, r2[i]));
        assert(r4[i] == rotated_point(kind, r3[i]));
    }
    assert(r4 =~= ps);
}

impl Bidule {
    /// Shape offsets fit the bounding box and the decorative seed list is
    /// aligned with the cell list; the position stays in a loose band around
    /// the field so coordinate arithmetic cannot overflow.
    pub open spec fn wf(self) -> bool {
        &&& 1 <= self.positions@.len() <= 8
        &&& self.seeds@.len() == self.positions@.len()
        &&& forall|i: int|
            0 <= i < self.positions@.len() ==> {
                let p = #[trigger] self.positions@[i];
                &&& 0 <= p.x < box_size(self.kind)
                &&& 0 <= p.y < box_size(self.kind)
            }
        &&& -100 <= self.pos.x <= 100
        &&& -100 <= self.pos.y <= 100
        &&& self.rotation_state < 4
    }

    /// The column and row a freshly spawned piece starts at.
    pub open spec fn spawn_pos() -> Point {
        Point { x: 3, y: 0 }
    }

    /// Builds the catalog piece of the given kind at the spawn position.
    pub fn new(kind: BiduleType) -> (r: Bidule)
        ensures
            r.kind == kind,
            r.color == kind_color(kind),
            r.positions@ == kind_offsets(kind),
            r.rotation_state == 0,
            r.pos == Self::spawn_pos(),
            r.seeds@.len() == r.positions@.len(),
            forall|i: int| 0 <= i < r.seeds@.len() ==> r.seeds@[i] == i,
            r.wf(),
    {
        let positions = offsets_vec(kind);
        let mut seeds: Vec<usize> = Vec::new();
        let n = positions.len();
        let mut i: usize = 0;
        while i < n
            invariant
                i <= n,
                seeds@.len() == i,
                forall|j: int| 0 <= j < i ==> seeds@[j] == j,
            decreases n - i,
        {
            seeds.push(i);
            i += 1;
        }
        proof {
            lemma_kind_offsets_in_box(kind);
        }
        Bidule {
            kind,
            positions,
            color: color_of(kind),
            rotation_state: 0,
            pos: Point { x: 3, y: 0 },
            seeds,
        }
    }

    /// Applies one 90-degree rotation step in place. Rotation-invariant
    /// footprints are left untouched; every other shape is turned inside its
    /// bounding box and the rotation state advances modulo 4.
    pub fn rotate(&mut self)
        requires
            old(self).wf(),
        ensures
            final(self).wf(),
            final(self).kind == old(self).kind,
            final(self).color == old(self).color,
            final(self).pos == old(self).pos,
            final(self).seeds == old(self).seeds,
            rotation_invariant(old(self).kind) ==> *final(self) == *old(self),
            !rotation_invariant(old(self).kind) ==> {
                &&& final(self).positions@ == rotated_offsets(
                    old(self).kind,
                    old(self).positions@,
                )
                &&& final(self).rotation_state == (old(self).rotation_state + 1) % 4
            },
    {
        if self.kind == BiduleType::O || self.kind == BiduleType::Jelly {
            return ;
        }
        let new_positions = rotated_points(self.kind, &self.positions);
        proof {
            lemma_rotated_offsets_in_box(self.kind, self.positions@);
        }
        self.positions = new_positions;
        self.rotation_state = (self.rotation_state + 1) % 4;
    }
}

/// Executable counterpart of `rotated_offsets`.
pub fn rotated_points(kind: BiduleType, ps: &Vec<Point>) -> (r: Vec<Point>)
    requires
        offsets_in_box(kind, ps@),
    ensures
        r@ == rotated_offsets(kind, ps@),
{
    let b: i32 = if kind == BiduleType::I || kind == BiduleType::Laser || kind
        == BiduleType::Anvil {
        4
    } else {
        3
    };
    let n = ps.len();
    let mut out: Vec<Point> = Vec::new();
    let mut i: usize = 0;
    while i < n
        invariant
            i <= n,
            n == ps@.len(),
            offsets_in_box(kind, ps@),
            b == box_size(kind),
            out@.len() == i,
            forall|j: int| 0 <= j < i ==> out@[j] == rotated_point(kind, ps@[j]),
        decreases n - i,
    {
        let p = ps[i];
        out.push(Point { x: b - 1 - p.y, y: p.x });
        i += 1;
    }
    assert(out@ =~= rotated_offsets(kind, ps@));
    out
}

/// Executable counterpart of `kind_color`.
pub fn color_of(kind: BiduleType) -> (c: BlockColor)
    ensures
        c == kind_color(kind),
{
    match kind {
        BiduleType::I => BlockColor::Cyan,
        BiduleType::O => BlockColor::Yellow,
        BiduleType::T => BlockColor::Purple,
        BiduleType::S => BlockColor::Green,
        BiduleType::Z => BlockColor::Red,
        BiduleType::J => BlockColor::Blue,
        BiduleType::L => BlockColor::Orange,
        BiduleType::Jelly => BlockColor::Pink,
        BiduleType::Bomb => BlockColor::Lava,
        BiduleType::Laser => BlockColor::Electric,
        BiduleType::Drill => BlockColor::Bronze,
        BiduleType::Anvil => BlockColor::Steel,
    }
}

/// Every catalog shape fits its bounding box and has between 1 and 8 cells.
pub proof fn lemma_kind_offsets_in_box(kind: BiduleType)
    ensures
        offsets_in_box(kind, kind_offsets(kind)),
        1 <= kind_offsets(kind).len() <= 8,
{
}

/// Executable counterpart of `kind_offsets`.
pub fn offsets_vec(kind: BiduleType) -> (v: Vec<Point>)
    ensures
        v@ == kind_offsets(kind),
{
    let mut v: Vec<Point> = Vec::new();
    match kind {
        BiduleType::I => {
            v.push(Point { x: 0, y: 1 });
            v.push(Point { x: 1, y: 1 });
            v.push(Point { x: 2, y: 1 });
            v.push(Point { x: 3, y: 1 });
        },
        BiduleType::O => {
            v.push(Point { x: 1, y: 0 });
            v.push(Point { x: 2, y: 0 });
            v.push(Point { x: 1, y: 1 });
            v.push(Point { x: 2, y: 1 });
        },
        BiduleType::T => {
            v.push(Point { x: 1, y: 0 });
            v.push(Point { x: 0, y: 1 });
            v.push(Point { x: 1, y: 1 });
            v.push(Point { x: 2, y: 1 });
        },
        BiduleType::S => {
            v.push(Point { x: 1, y: 0 });
            v.push(Point { x: 2, y: 0 });
            v.push(Point { x: 0, y: 1 });
            v.push(Point { x: 1, y: 1 });
        },
        BiduleType::Z => {
            v.push(Point { x: 0, y: 0 });
            v.push(Point { x: 1, y: 0 });
            v.push(Point { x: 1, y: 1 });
            v.push(Point { x: 2, y: 1 });
        },
        BiduleType::J => {
            v.push(Point { x: 0, y: 0 });
            v.push(Point { x: 0, y: 1 });
            v.push(Point { x: 1, y: 1 });
            v.push(Point { x: 2, y: 1 });
        },
        BiduleType::L => {
            v.push(Point { x: 2, y: 0 });
            v.push(Point { x: 0, y: 1 });
            v.push(Point { x: 1, y: 1 });
            v.push(Point { x: 2, y: 1 });
        },
        BiduleType::Jelly => {
            v.push(Point { x: 0, y: 0 });
            v.push(Point { x: 1, y: 0 });
            v.push(Point { x: 2, y: 0 });
            v.push(Point { x: 0, y: 1 });
            v.push(Point { x: 1, y: 1 });
            v.push(Point { x: 2, y: 1 });
        },
        BiduleType::Bomb => {
            v.push(Point { x: 1, y: 0 });
            v.push(Point { x: 0, y: 1 });
            v.push(Point { x: 1, y: 1 });
            v.push(Point { x: 2, y: 1 });
            v.push(Point { x: 1, y: 2 });
        },
        BiduleType::Laser => {
            v.push(Point { x: 1, y: 0 });
            v.push(Point { x: 0, y: 1 });
            v.push(Point { x: 1, y: 1 });
            v.push(Point { x: 1, y: 2 });
            v.push(Point { x: 0, y: 3 });
            v.push(Point { x: 1, y: 3 });
        },
        BiduleType::Drill => {
            v.push(Point { x: 0, y: 0 });
            v.push(Point { x: 1, y: 0 });
            v.push(Point { x: 2, y: 0 });
            v.push(Point { x: 1, y: 1 });
            v.push(Point { x: 1, y: 2 });
        },
        BiduleType::Anvil => {
            v.push(Point { x: 0, y: 0 });
            v.push(Point { x: 1, y: 0 });
            v.push(Point { x: 2, y: 0 });
            v.push(Point { x: 3, y: 0 });
            v.push(Point { x: 1, y: 1 });
            v.push(Point { x: 2, y: 1 });
            v.push(Point { x: 1, y: 2 });
            v.push(Point { x: 2, y: 2 });
        },
    }
    assert(v@ =~= kind_offsets(kind));
    v
}

} // verus!
