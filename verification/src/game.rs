//! The game aggregate: the input/timing state machine, gravity, lock
//! resolution, scoring, leveling, and the bonus-choice flow.

use crate::bidule::{
    is_special_kind, kind_color, kind_offsets, rotated_offsets, rotated_points,
    rotation_invariant, Bidule, BiduleType, Point,
};
use crate::bonuses::{
    all_bonuses, count_kind, count_kind_exec, remove_one_of_kind, ActiveBonus, Bonus, BonusType,
};
use crate::grid::{
    cleared_grid, empty_grid, grid_wf, locked_grid, offsets_collide, piece_collides, row_full,
    shape_collides_at, Grid, GridModel,
};
use crate::special_bidule::{
    jelly_evolution, piece_in_field, resolve_special_mechanics_on_lock, settled,
};
use crate::rng::{random_below, shuffle_vec};
use crate::{GRID_HEIGHT, GRID_WIDTH};
use vstd::prelude::*;

verus! {

/// Gravity interval on level 1, in microseconds.
pub const GRAVITY_BASE_MICROS: u64 = 800_000;

/// Gravity never drops below this interval, however high the level.
pub const GRAVITY_MIN_MICROS: u64 = 50_000;

/// Gravity interval while soft drop is held.
pub const SOFT_DROP_MICROS: u64 = 50_000;

/// Delay before a held direction begins auto-repeating.
pub const DAS_DELAY_MICROS: u64 = 170_000;

/// Interval between repeated moves once auto-repeat is active.
pub const ARR_REPEAT_MICROS: u64 = 50_000;

/// Grace period a piece may rest on a surface before it locks.
pub const LOCK_DELAY_MICROS: u64 = 500_000;

/// How often moving or rotating may restart the lock-delay grace period
/// before the piece locks at the next expiry regardless.
pub const MAX_LOCK_RESETS: u32 = 15;

/// Slow relics can stretch the gravity interval, but never beyond this.
pub const INTERVAL_CAP_MICROS: u64 = 60_000_000;

/// Upper bound on one frame's time delta.
pub const DT_MAX_MICROS: u64 = 1_000_000_000;

/// Chance, in percent, that a bag refill appends one extra special kind.
pub const SPECIAL_CHANCE_PERCENT: usize = 20;

/// The score saturates here instead of overflowing.
pub const SCORE_CAP: u64 = 1_000_000_000_000_000_000;

/// The total line count saturates here instead of overflowing.
pub const LINES_CAP: u32 = 1_000_000_000;

/// How many upcoming pieces the queue shows.
pub const QUEUE_LEN: usize = 3;

/// How many bonus definitions a level-up offers.
pub const BONUS_CHOICES: usize = 3;

/// How many entries the start menu has.
pub const MENU_ENTRIES: usize = 3;

/// The game's top-level mode.
#[derive(Clone, Copy, Debug, PartialEq, Eq, Structural)]
pub enum GameState {
    Start,
    Playing,
    ChooseBonus,
    GameOver,
}

/// One frame's worth of discrete input signals, sampled by the host.
#[derive(Clone, Copy, Debug, PartialEq, Eq, Structural)]
pub struct InputSnapshot {
    pub left_held: bool,
    pub right_held: bool,
    pub soft_drop_held: bool,
    pub rotate_pressed: bool,
    pub hold_pressed: bool,
    pub hard_drop_pressed: bool,
    pub menu_up_pressed: bool,
    pub menu_down_pressed: bool,
    pub menu_left_pressed: bool,
    pub menu_right_pressed: bool,
    pub confirm_pressed: bool,
    pub restart_pressed: bool,
}

impl InputSnapshot {
    /// A frame with no input at all.
    pub fn none() -> (r: InputSnapshot)
        ensures
            r == (InputSnapshot {
                left_held: false,
                right_held: false,
                soft_drop_held: false,
                rotate_pressed: false,
                hold_pressed: false,
                hard_drop_pressed: false,
                menu_up_pressed: false,
                menu_down_pressed: false,
                menu_left_pressed: false,
                menu_right_pressed: false,
                confirm_pressed: false,
                restart_pressed: false,
            }),
    {
        InputSnapshot {
            left_held: false,
            right_held: false,
            soft_drop_held: false,
            rotate_pressed: false,
            hold_pressed: false,
            hard_drop_pressed: false,
            menu_up_pressed: false,
            menu_down_pressed: false,
            menu_left_pressed: false,
            menu_right_pressed: false,
            confirm_pressed: false,
            restart_pressed: false,
        }
    }
}

/// Side-channel hints a lock produces for audio and score-popup collaborators;
/// the core never reads them back.
pub struct LockOutcome {
    pub same_color_contact: bool,
    pub diff_color_contact: bool,
    pub cleared_rows: Vec<usize>,
    pub leveled_up: bool,
    pub revived: bool,
    pub game_over: bool,
}

/// The seven standard kinds a bag refill shuffles.
pub open spec fn standard_kinds() -> Seq<BiduleType> {
    seq![
        BiduleType::I,
        BiduleType::O,
        BiduleType::T,
        BiduleType::S,
        BiduleType::Z,
        BiduleType::J,
        BiduleType::L,
    ]
}

/// A piece exactly as the catalog spawns it.
pub open spec fn fresh_piece(p: Bidule) -> bool {
    &&& p.wf()
    &&& p.pos == Bidule::spawn_pos()
    &&& p.positions@ == kind_offsets(p.kind)
    &&& p.color == kind_color(p.kind)
    &&& p.rotation_state == 0
    &&& p.seeds@.len() == p.positions@.len()
}

/// The gravity interval of a level before modifiers: it shrinks geometrically
/// (by the factor 85/100) with each level and is floor-clamped.
pub open spec fn base_interval(level: nat) -> int
    decreases level,
{
    if level <= 1 {
        GRAVITY_BASE_MICROS as int
    } else {
        let prev = base_interval((level - 1) as nat);
        let next = prev * 85 / 100;
        if next < GRAVITY_MIN_MICROS {
            GRAVITY_MIN_MICROS as int
        } else {
            next
        }
    }
}

/// Once the interval reaches the floor it stays there on every later level.
pub proof fn lemma_base_interval_floor(l1: nat, l2: nat)
    requires
        base_interval(l1) == GRAVITY_MIN_MICROS,
        l1 <= l2,
    ensures
        base_interval(l2) == GRAVITY_MIN_MICROS,
    decreases l2,
{
    if l2 > l1 {
        lemma_base_interval_floor(l1, (l2 - 1) as nat);
    }
}

/// One multiplicative stretch of the interval, capped.
pub open spec fn stretch_capped(iv: int, num: int, den: int) -> int {
    let next = iv * num / den;
    if next > INTERVAL_CAP_MICROS {
        INTERVAL_CAP_MICROS as int
    } else {
        next
    }
}

/// `n` stacked anchor relics each slow gravity by 10%, multiplicatively.
pub open spec fn apply_anchors(iv: int, n: nat) -> int
    decreases n,
{
    if n == 0 {
        iv
    } else {
        stretch_capped(apply_anchors(iv, (n - 1) as nat), 11, 10)
    }
}

/// `n` stacked chill debuffs each double the gravity interval.
pub open spec fn apply_chills(iv: int, n: nat) -> int
    decreases n,
{
    if n == 0 {
        iv
    } else {
        stretch_capped(apply_chills(iv, (n - 1) as nat), 2, 1)
    }
}

/// The effective gravity interval: the level's base interval stretched by
/// every active slow modifier.
pub open spec fn gravity_interval(level: nat, anchors: nat, chills: nat) -> int {
    apply_chills(apply_anchors(base_interval(level), anchors), chills)
}

/// The score a clear of `cleared` rows is worth before scaling.
pub open spec fn clear_points(cleared: nat) -> int {
    if cleared == 1 {
        100
    } else if cleared == 2 {
        300
    } else if cleared == 3 {
        500
    } else if cleared == 4 {
        800
    } else {
        0
    }
}

/// The score multiplier, in percent, from stacked pickaxe relics: +20% each,
/// with the stack count clamped to keep arithmetic bounded.
pub open spec fn pickaxe_percent(stacks: nat) -> int {
    100 + 20 * (if stacks > 1000 {
        1000int
    } else {
        stacks as int
    })
}

/// The score a lock awards: the clear table scaled by level and relics.
pub open spec fn score_gain(cleared: nat, level: nat, stacks: nat) -> int {
    clear_points(cleared) * level * pickaxe_percent(stacks) / 100
}

/// The score after awarding a gain, saturated at the cap.
pub open spec fn bumped_score(score: u64, gain: int) -> int {
    if score + gain > SCORE_CAP {
        SCORE_CAP as int
    } else {
        score + gain
    }
}

/// The total line count after a clear, saturated at the cap.
pub open spec fn bumped_lines(lines: u32, cleared: nat) -> int {
    if lines + cleared > LINES_CAP {
        LINES_CAP as int
    } else {
        lines + cleared
    }
}

/// The level a line total puts the game on.
pub open spec fn level_for(lines: u32) -> int {
    lines as int / 10 + 1
}

/// Each ten-line bracket raises the level by exactly one: a clear whose rows
/// carry the total across a single multiple of ten recomputes the level to
/// the old level plus one.
pub proof fn lemma_level_up_by_one(lines: u32, k: nat)
    requires
        lines + k <= u32::MAX,
        lines % 10 + k >= 10,
        lines % 10 + k < 20,
    ensures
        level_for((lines + k) as u32) == level_for(lines) + 1,
{
    let q = lines as int / 10;
    let r = lines as int % 10;
    assert(lines as int == 10 * q + r);
    assert((lines + k) as int == 10 * (q + 1) + (r + k - 10));
    assert(0 <= r + k - 10 < 10);
    assert((lines + k) as int / 10 == q + 1) by (nonlinear_arith)
        requires
            (lines + k) as int == 10 * (q + 1) + (r + k - 10),
            0 <= r + k - 10 < 10,
    ;
}

/// The top-level game aggregate; it exclusively owns the field, the pieces,
/// the bag, and the bonus ledger.
pub struct Game {
    pub state: GameState,
    pub grid: Grid,
    pub current_piece: Bidule,
    pub next_pieces: Vec<Bidule>,
    pub hold_piece: Option<Bidule>,
    pub can_hold: bool,
    pub score: u64,
    pub level: u32,
    pub lines_cleared_total: u32,
    pub active_bonuses: Vec<ActiveBonus>,
    pub bonus_options: Vec<Bonus>,
    pub bonus_selection_idx: usize,
    pub menu_selection: usize,
    pub bag: Vec<BiduleType>,
    pub fall_timer: u64,
    pub das_timer: u64,
    pub arr_timer: u64,
    pub lock_timer: u64,
    pub lock_resets: u32,
    pub move_dir: i32,
}

impl Game {
    /// The aggregate's invariant: the field is well-formed, every piece is
    /// within bounds, queued pieces are fresh, an actively falling piece never
    /// overlaps the field, timers stay below their caps, the level is derived
    /// from the line total, and ledger timers are positive.
    pub open spec fn wf(self) -> bool {
        &&& grid_wf(self.grid@)
        &&& self.current_piece.wf()
        &&& 1 <= self.next_pieces@.len() <= QUEUE_LEN + 1
        &&& forall|i: int|
            0 <= i < self.next_pieces@.len() ==> fresh_piece(#[trigger] self.next_pieces@[i])
        &&& (self.hold_piece matches Some(p) ==> fresh_piece(p))
        &&& (self.state != GameState::GameOver ==> !piece_collides(
            self.grid@,
            self.current_piece,
        ))
        &&& forall|i: int|
            0 <= i < self.active_bonuses@.len() ==> (#[trigger] self.active_bonuses@[i]).timer
                > 0
        &&& (self.state == GameState::ChooseBonus ==> self.bonus_selection_idx
            < self.bonus_options@.len() && self.next_pieces@.len() <= QUEUE_LEN)
        &&& self.menu_selection < MENU_ENTRIES
        &&& self.level as int == level_for(self.lines_cleared_total)
        &&& self.lines_cleared_total <= LINES_CAP
        &&& self.score <= SCORE_CAP
        &&& self.fall_timer <= INTERVAL_CAP_MICROS
        &&& self.das_timer <= DAS_DELAY_MICROS + 1
        &&& self.arr_timer <= ARR_REPEAT_MICROS
        &&& self.lock_timer <= LOCK_DELAY_MICROS
        &&& (self.move_dir == -1 || self.move_dir == 0 || self.move_dir == 1)
    }

    /// A fresh game: empty field, a full queue drawn from a fresh bag, and
    /// the start menu showing.
    pub fn new() -> (r: Game)
        ensures
            r.wf(),
            r.state == GameState::Start,
            r.grid@ == empty_grid(),
            r.score == 0,
            r.level == 1,
            r.lines_cleared_total == 0,
            r.hold_piece is None,
            r.can_hold,
            r.next_pieces@.len() == QUEUE_LEN,
            r.active_bonuses@.len() == 0,
            r.bonus_options@.len() == 0,
            fresh_piece(r.current_piece),
            !piece_collides(r.grid@, r.current_piece),
    {
        let grid = Grid::new();
        let mut bag: Vec<BiduleType> = Vec::new();
        fill_bag(&mut bag);
        let k0 = next_from_bag(&mut bag);
        let current_piece = Bidule::new(k0);
        let mut next_pieces: Vec<Bidule> = Vec::new();
        let mut i: usize = 0;
        while i < QUEUE_LEN
            invariant
                i <= QUEUE_LEN,
                next_pieces@.len() == i,
                forall|j: int| 0 <= j < i ==> fresh_piece(#[trigger] next_pieces@[j]),
            decreases QUEUE_LEN - i,
        {
            let k = next_from_bag(&mut bag);
            next_pieces.push(Bidule::new(k));
            i += 1;
        }
        let r = Game {
            state: GameState::Start,
            grid,
            current_piece,
            next_pieces,
            hold_piece: None,
            can_hold: true,
            score: 0,
            level: 1,
            lines_cleared_total: 0,
            active_bonuses: Vec::new(),
            bonus_options: Vec::new(),
            bonus_selection_idx: 0,
            menu_selection: 0,
            bag,
            fall_timer: 0,
            das_timer: 0,
            arr_timer: 0,
            lock_timer: 0,
            lock_resets: 0,
            move_dir: 0,
        };
        proof {
            lemma_fresh_piece_fits_empty(r.current_piece, r.grid@);
        }
        r
    }
}

/// The shape a rotation attempt would give the piece.
pub open spec fn rot_ops(p: Bidule) -> Seq<Point> {
    if rotation_invariant(p.kind) {
        p.positions@
    } else {
        rotated_offsets(p.kind, p.positions@)
    }
}

/// The rotation state a rotation attempt would give the piece.
pub open spec fn rot_state(p: Bidule) -> int {
    if rotation_invariant(p.kind) {
        p.rotation_state as int
    } else {
        (p.rotation_state + 1) as int % 4
    }
}

/// The three positions the wall-kick sequence tries, in order: in place,
/// one column right, then two columns back left of that.
pub open spec fn kick_pos(p: Bidule, attempt: int) -> Point {
    if attempt == 0 {
        p.pos
    } else if attempt == 1 {
        Point { x: (p.pos.x + 1) as i32, y: p.pos.y }
    } else {
        Point { x: (p.pos.x - 1) as i32, y: p.pos.y }
    }
}

/// The game after a successful rotation attempt that settled at `pos`: the
/// piece carries the turned shape there and nothing else changed.
pub open spec fn rotated_to(a: Game, b: Game, pos: Point) -> bool {
    &&& b.current_piece.kind == a.current_piece.kind
    &&& b.current_piece.color == a.current_piece.color
    &&& b.current_piece.seeds == a.current_piece.seeds
    &&& b.current_piece.positions@ == rot_ops(a.current_piece)
    &&& b.current_piece.pos == pos
    &&& b.current_piece.rotation_state as int == rot_state(a.current_piece)
    &&& (Game { current_piece: a.current_piece, ..b }) == a
}

/// How a hold attempt relates the game before and after. With the flag spent
/// it is refused outright; with an occupied slot the two pieces swap, both in
/// spawn orientation; with an empty slot the queue front comes in and one
/// fresh piece refills the queue. A swap whose incoming piece would collide
/// at spawn is treated as an illegal move and reverted — the reading of the
/// design's revert-on-collision principle that keeps the falling piece from
/// ever overlapping the field.
pub open spec fn hold_attempt_rel(x: Game, y: Game, held: bool) -> bool {
    &&& (!x.can_hold ==> !held && y == x)
    &&& ({
        let g = x.grid@;
        let cur = x.current_piece;
        x.can_hold ==> match x.hold_piece {
            Some(h) => {
                if !offsets_collide(g, kind_offsets(h.kind), Bidule::spawn_pos()) {
                    &&& held
                    &&& fresh_piece(y.current_piece)
                    &&& y.current_piece.kind == h.kind
                    &&& (y.hold_piece matches Some(hp) && fresh_piece(hp) && hp.kind == cur.kind)
                    &&& !y.can_hold
                    &&& (Game {
                        current_piece: cur,
                        hold_piece: x.hold_piece,
                        can_hold: x.can_hold,
                        ..y
                    }) == x
                } else {
                    !held && y == x
                }
            },
            None => {
                if !piece_collides(g, x.next_pieces@[0]) {
                    &&& held
                    &&& y.current_piece == x.next_pieces@[0]
                    &&& (y.hold_piece matches Some(hp) && fresh_piece(hp) && hp.kind == cur.kind)
                    &&& !y.can_hold
                    &&& y.next_pieces@.len() == x.next_pieces@.len()
                    &&& y.next_pieces@.drop_last() == x.next_pieces@.skip(1)
                    &&& fresh_piece(y.next_pieces@.last())
                    &&& (Game {
                        current_piece: cur,
                        hold_piece: x.hold_piece,
                        can_hold: x.can_hold,
                        next_pieces: x.next_pieces,
                        bag: x.bag,
                        ..y
                    }) == x
                } else {
                    !held && y == x
                }
            },
        }
    })
}

/// The hold phase of one frame: nothing without the hold command, otherwise
/// one hold attempt.
pub open spec fn hold_step_rel(x: Game, y: Game, input: InputSnapshot) -> bool {
    if !input.hold_pressed {
        y == x
    } else {
        exists|held: bool| #[trigger] hold_attempt_rel(x, y, held)
    }
}

/// How a rotation attempt relates the game before and after: the turned shape
/// is tried in place, then one column right, then two columns back left of
/// that; if all three collide the attempt is discarded and nothing changes.
pub open spec fn rotate_attempt_rel(x: Game, y: Game, rotated: bool) -> bool {
    let g = x.grid@;
    let p = x.current_piece;
    let ops = rot_ops(p);
    if !offsets_collide(g, ops, kick_pos(p, 0)) {
        rotated && rotated_to(x, y, kick_pos(p, 0))
    } else if !offsets_collide(g, ops, kick_pos(p, 1)) {
        rotated && rotated_to(x, y, kick_pos(p, 1))
    } else if !offsets_collide(g, ops, kick_pos(p, 2)) {
        rotated && rotated_to(x, y, kick_pos(p, 2))
    } else {
        !rotated && y == x
    }
}

/// The rotation phase of one frame: nothing without the rotate command;
/// otherwise one wall-kick attempt, and on success the lock-delay grace
/// period restarts.
pub open spec fn rotation_step_rel(x: Game, y: Game, input: InputSnapshot) -> bool {
    if !input.rotate_pressed {
        y == x
    } else {
        exists|m: Game, rotated: bool|
            {
                &&& #[trigger] rotate_attempt_rel(x, m, rotated)
                &&& y == (if rotated {
                    with_lock_reset(m)
                } else {
                    m
                })
            }
    }
}

impl Game {
    /// Attempts a one-column move. A move that would collide is discarded and
    /// the game is left exactly as it was.
    pub fn try_move_horizontal(&mut self, dir: i32) -> (moved: bool)
        requires
            old(self).wf(),
            dir == -1 || dir == 1,
        ensures
            final(self).wf(),
            moved == !offsets_collide(
                old(self).grid@,
                old(self).current_piece.positions@,
                Point {
                    x: (old(self).current_piece.pos.x + dir) as i32,
                    y: old(self).current_piece.pos.y,
                },
            ),
            moved ==> *final(self) == (Game {
                current_piece: Bidule {
                    pos: Point {
                        x: (old(self).current_piece.pos.x + dir) as i32,
                        y: old(self).current_piece.pos.y,
                    },
                    ..old(self).current_piece
                },
                ..*old(self)
            }),
            !moved ==> *final(self) == *old(self),
    {
        let np = Point { x: self.current_piece.pos.x + dir, y: self.current_piece.pos.y };
        if !self.grid.is_collision_at(&self.current_piece, np) {
            proof {
                assert(!crate::grid::collides_at(
                    self.grid@,
                    np,
                    self.current_piece.positions@[0],
                ));
            }
            self.current_piece.pos = np;
            true
        } else {
            false
        }
    }

    /// Attempts one 90-degree rotation with the wall-kick sequence: the turned
    /// shape is tried in place, then one column right, then two columns back
    /// left of that; if all three collide the rotation is discarded.
    pub fn try_rotate(&mut self) -> (rotated: bool)
        requires
            old(self).wf(),
        ensures
            final(self).wf(),
            rotate_attempt_rel(*old(self), *final(self), rotated),
    {
        let kind = self.current_piece.kind;
        let inv = kind == BiduleType::O || kind == BiduleType::Jelly;
        let pos = self.current_piece.pos;
        let pos1 = Point { x: pos.x + 1, y: pos.y };
        let pos2 = Point { x: pos.x - 1, y: pos.y };
        if inv {
            if !self.grid.is_collision_at(&self.current_piece, pos) {
                return true;
            }
            if !self.grid.is_collision_at(&self.current_piece, pos1) {
                proof {
                    assert(!crate::grid::collides_at(
                        self.grid@,
                        pos1,
                        self.current_piece.positions@[0],
                    ));
                }
                self.current_piece.pos = pos1;
                return true;
            }
            if !self.grid.is_collision_at(&self.current_piece, pos2) {
                proof {
                    assert(!crate::grid::collides_at(
                        self.grid@,
                        pos2,
                        self.current_piece.positions@[0],
                    ));
                }
                self.current_piece.pos = pos2;
                return true;
            }
            false
        } else {
            let rops = rotated_points(kind, &self.current_piece.positions);
            proof {
                crate::bidule::lemma_rotated_offsets_in_box(
                    kind,
                    self.current_piece.positions@,
                );
            }
            let hit0 = self.grid.offsets_collision(&rops, pos);
            if !hit0 {
                proof {
                    assert(!crate::grid::collides_at(self.grid@, pos, rops@[0]));
                }
                self.current_piece.positions = rops;
                self.current_piece.pos = pos;
                self.current_piece.rotation_state = (self.current_piece.rotation_state + 1) % 4;
                return true;
            }
            let hit1 = self.grid.offsets_collision(&rops, pos1);
            if !hit1 {
                proof {
                    assert(!crate::grid::collides_at(self.grid@, pos1, rops@[0]));
                }
                self.current_piece.positions = rops;
                self.current_piece.pos = pos1;
                self.current_piece.rotation_state = (self.current_piece.rotation_state + 1) % 4;
                return true;
            }
            let hit2 = self.grid.offsets_collision(&rops, pos2);
            if !hit2 {
                proof {
                    assert(!crate::grid::collides_at(self.grid@, pos2, rops@[0]));
                }
                self.current_piece.positions = rops;
                self.current_piece.pos = pos2;
                self.current_piece.rotation_state = (self.current_piece.rotation_state + 1) % 4;
                return true;
            }
            false
        }
    }

    /// Swaps the falling piece with the hold slot — or, with an empty slot,
    /// with the front of the queue — re-centered at the spawn column; both
    /// pieces come back in spawn orientation. Usable once per piece life. A
    /// swap whose incoming piece would collide at spawn is refused and
    /// changes nothing: collision signals an illegal move, handled by
    /// reverting, which keeps the falling piece from ever overlapping the
    /// field.
    pub fn try_hold(&mut self) -> (held: bool)
        requires
            old(self).wf(),
        ensures
            final(self).wf(),
            hold_attempt_rel(*old(self), *final(self), held),
    {
        if !self.can_hold {
            return false;
        }
        let held_kind: Option<BiduleType> = match &self.hold_piece {
            Some(h) => Some(h.kind),
            None => None,
        };
        match held_kind {
            Some(hk) => {
                let candidate = Bidule::new(hk);
                if self.grid.is_collision(&candidate) {
                    return false;
                }
                let ck = self.current_piece.kind;
                self.hold_piece = Some(Bidule::new(ck));
                self.current_piece = candidate;
                self.can_hold = false;
                true
            },
            None => {
                let fits = {
                    let first = &self.next_pieces[0];
                    !self.grid.is_collision(first)
                };
                if !fits {
                    return false;
                }
                let ck = self.current_piece.kind;
                self.hold_piece = Some(Bidule::new(ck));
                let ghost q0 = self.next_pieces@;
                self.current_piece = self.next_pieces.remove(0);
                assert(self.next_pieces@ =~= q0.skip(1));
                let k = next_from_bag(&mut self.bag);
                self.next_pieces.push(Bidule::new(k));
                assert(self.next_pieces@.drop_last() =~= q0.skip(1));
                self.can_hold = false;
                true
            },
        }
    }

    /// The position the piece would occupy if dropped instantly: the lowest
    /// row it reaches without colliding, straight beneath its position.
    pub fn get_ghost_position(&self) -> (r: Point)
        requires
            self.wf(),
            !piece_collides(self.grid@, self.current_piece),
        ensures
            r.x == self.current_piece.pos.x,
            self.current_piece.pos.y <= r.y < GRID_HEIGHT,
            forall|yy: i32|
                self.current_piece.pos.y <= yy <= r.y ==> !(#[trigger] shape_collides_at(
                    self.grid@,
                    self.current_piece.positions@,
                    self.current_piece.pos.x,
                    yy,
                )),
            shape_collides_at(
                self.grid@,
                self.current_piece.positions@,
                self.current_piece.pos.x,
                (r.y + 1) as i32,
            ),
    {
        let px = self.current_piece.pos.x;
        let mut gy: i32 = self.current_piece.pos.y;
        proof {
            assert(!crate::grid::collides_at(
                self.grid@,
                self.current_piece.pos,
                self.current_piece.positions@[0],
            ));
            assert(offsets_collide(
                self.grid@,
                self.current_piece.positions@,
                self.current_piece.pos,
            ) == piece_collides(self.grid@, self.current_piece));
        }
        loop
            invariant
                self.wf(),
                px == self.current_piece.pos.x,
                self.current_piece.pos.y <= gy < GRID_HEIGHT,
                forall|yy: i32|
                    self.current_piece.pos.y <= yy <= gy ==> !(#[trigger] shape_collides_at(
                        self.grid@,
                        self.current_piece.positions@,
                        px,
                        yy,
                    )),
            decreases GRID_HEIGHT - gy,
        {
            let trial = Point { x: px, y: gy + 1 };
            if self.grid.is_collision_at(&self.current_piece, trial) {
                return Point { x: px, y: gy };
            }
            proof {
                assert(!crate::grid::collides_at(
                    self.grid@,
                    trial,
                    self.current_piece.positions@[0],
                ));
            }
            gy += 1;
        }
    }
}

/// One piece cell's orthogonal neighbor at `(dx, dy)` is an occupied field
/// cell whose color matches (`same == true`) or differs (`same == false`).
pub open spec fn contact_at(
    g: crate::grid::GridModel,
    p: Bidule,
    i: int,
    dx: int,
    dy: int,
    same: bool,
) -> bool {
    &&& 0 <= i < p.positions@.len()
    &&& ((dx == 0 && dy == -1) || (dx == 0 && dy == 1) || (dx == -1 && dy == 0) || (dx == 1 && dy
        == 0))
    &&& ({
        let nx = p.pos.x + p.positions@[i].x + dx;
        let ny = p.pos.y + p.positions@[i].y + dy;
        &&& 0 <= nx < GRID_WIDTH as int
        &&& 0 <= ny < GRID_HEIGHT as int
        &&& (g[ny][nx] matches Some(c) && ((c.color == p.color) <==> same))
    })
}

/// Some piece cell touches an occupied neighbor of matching (or differing)
/// color; exposed on lock as an audio hint.
pub open spec fn neighbor_contact(g: crate::grid::GridModel, p: Bidule, same: bool) -> bool {
    exists|i: int, dx: int, dy: int| #[trigger] contact_at(g, p, i, dx, dy, same)
}

/// Tests one neighbor of one piece cell; answers the same- and
/// different-color contact flags for it.
fn contact_at_exec(grid: &Grid, piece: &Bidule, i: usize, dx: i32, dy: i32) -> (r: (bool, bool))
    requires
        grid_wf(grid@),
        piece.wf(),
        i < piece.positions@.len(),
        (dx == 0 && dy == -1) || (dx == 0 && dy == 1) || (dx == -1 && dy == 0) || (dx == 1 && dy
            == 0),
    ensures
        r.0 == contact_at(grid@, *piece, i as int, dx as int, dy as int, true),
        r.1 == contact_at(grid@, *piece, i as int, dx as int, dy as int, false),
{
    let p = piece.positions[i];
    let nx = piece.pos.x + p.x + dx;
    let ny = piece.pos.y + p.y + dy;
    if nx >= 0 && nx < GRID_WIDTH as i32 && ny >= 0 && ny < GRID_HEIGHT as i32 {
        assert(grid.cells@.len() == grid@.len());
        assert(grid.cells@[ny as int]@ == grid@[ny as int]);
        match grid.cells[ny as usize][nx as usize] {
            Some(c) => {
                if c.color == piece.color {
                    (true, false)
                } else {
                    (false, true)
                }
            },
            None => (false, false),
        }
    } else {
        (false, false)
    }
}

/// Scans every piece cell's four orthogonal neighbors in the field.
fn scan_contacts(grid: &Grid, piece: &Bidule) -> (r: (bool, bool))
    requires
        grid_wf(grid@),
        piece.wf(),
    ensures
        r.0 == neighbor_contact(grid@, *piece, true),
        r.1 == neighbor_contact(grid@, *piece, false),
{
    let n = piece.positions.len();
    let mut same = false;
    let mut diff = false;
    let mut i: usize = 0;
    while i < n
        invariant
            i <= n,
            n == piece.positions@.len(),
            grid_wf(grid@),
            piece.wf(),
            same == (exists|j: int, dx: int, dy: int|
                j < i && #[trigger] contact_at(grid@, *piece, j, dx, dy, true)),
            diff == (exists|j: int, dx: int, dy: int|
                j < i && #[trigger] contact_at(grid@, *piece, j, dx, dy, false)),
        decreases n - i,
    {
        let (s1, d1) = contact_at_exec(grid, piece, i, 0, -1);
        let (s2, d2) = contact_at_exec(grid, piece, i, 0, 1);
        let (s3, d3) = contact_at_exec(grid, piece, i, -1, 0);
        let (s4, d4) = contact_at_exec(grid, piece, i, 1, 0);
        let ghost same_pre = same;
        let ghost diff_pre = diff;
        if s1 || s2 || s3 || s4 {
            same = true;
        }
        if d1 || d2 || d3 || d4 {
            diff = true;
        }
        proof {
            assert forall|j: int, dx: int, dy: int|
                j < i + 1 && #[trigger] contact_at(grid@, *piece, j, dx, dy, true) implies same by {
                if j == i as int {
                    assert((dx == 0 && dy == -1) || (dx == 0 && dy == 1) || (dx == -1 && dy == 0)
                        || (dx == 1 && dy == 0));
                }
            }
            assert forall|j: int, dx: int, dy: int|
                j < i + 1 && #[trigger] contact_at(grid@, *piece, j, dx, dy, false) implies diff by {
                if j == i as int {
                    assert((dx == 0 && dy == -1) || (dx == 0 && dy == 1) || (dx == -1 && dy == 0)
                        || (dx == 1 && dy == 0));
                }
            }
            if same && !same_pre {
                assert(s1 || s2 || s3 || s4);
                if s1 {
                    assert(contact_at(grid@, *piece, i as int, 0, -1, true));
                } else if s2 {
                    assert(contact_at(grid@, *piece, i as int, 0, 1, true));
                } else if s3 {
                    assert(contact_at(grid@, *piece, i as int, -1, 0, true));
                } else {
                    assert(contact_at(grid@, *piece, i as int, 1, 0, true));
                }
            }
            if diff && !diff_pre {
                assert(d1 || d2 || d3 || d4);
                if d1 {
                    assert(contact_at(grid@, *piece, i as int, 0, -1, false));
                } else if d2 {
                    assert(contact_at(grid@, *piece, i as int, 0, 1, false));
                } else if d3 {
                    assert(contact_at(grid@, *piece, i as int, -1, 0, false));
                } else {
                    assert(contact_at(grid@, *piece, i as int, 1, 0, false));
                }
            }
        }
        i += 1;
    }
    (same, diff)
}

/// Executable counterpart of `clear_points`.
fn clear_points_exec(cleared: usize) -> (r: u64)
    ensures
        r as int == clear_points(cleared as nat),
        r <= 800,
{
    if cleared == 1 {
        100
    } else if cleared == 2 {
        300
    } else if cleared == 3 {
        500
    } else if cleared == 4 {
        800
    } else {
        0
    }
}

/// A non-colliding piece lies inside the field horizontally and above its
/// bottom.
pub proof fn lemma_noncolliding_in_field(g: crate::grid::GridModel, p: Bidule)
    requires
        p.wf(),
        !piece_collides(g, p),
    ensures
        crate::special_bidule::piece_in_field(p),
{
    assert forall|i: int| 0 <= i < p.positions@.len() implies {
        let off = #[trigger] p.positions@[i];
        0 <= p.pos.x + off.x < GRID_WIDTH as int && p.pos.y + off.y < GRID_HEIGHT as int
    } by {
        assert(!crate::grid::collides_at(g, p.pos, p.positions@[i]));
    }
}

/// The field a just-locked piece's mechanic leaves behind, for every kind
/// whose outcome is a function of the field and the piece alone; the liquid
/// kind settles randomly and has no such function.
pub open spec fn mech_grid(g: crate::grid::GridModel, p: Bidule) -> crate::grid::GridModel {
    match p.kind {
        BiduleType::Bomb => crate::special_bidule::bomb_grid(g, p),
        BiduleType::Laser => crate::special_bidule::laser_grid(g, p),
        BiduleType::Drill => crate::special_bidule::drill_grid(g, p),
        BiduleType::Anvil => crate::special_bidule::anvil_grid(g, p),
        _ => g,
    }
}

/// A fresh piece on the empty field never collides: its cells sit inside the
/// top rows of the board and every cell there is empty.
pub proof fn lemma_fresh_piece_fits_empty(p: Bidule, g: crate::grid::GridModel)
    requires
        fresh_piece(p),
        g == empty_grid(),
    ensures
        !piece_collides(g, p),
{
    assert forall|i: int|
        0 <= i < p.positions@.len() implies !crate::grid::collides_at(
        g,
        p.pos,
        #[trigger] p.positions@[i],
    ) by {
        let off = p.positions@[i];
        let x = p.pos.x + off.x;
        let y = p.pos.y + off.y;
        assert(0 <= off.x < 4 && 0 <= off.y < 4);
        assert(3 <= x <= 6 && 0 <= y <= 3);
        assert(g[y][x] == crate::grid::empty_row()[x]);
        assert(g[y][x] is None);
    }
}

/// What one bag refill appends: the seven standard kinds as a permutation,
/// possibly followed by a single special kind.
pub open spec fn refill_shape(app: Seq<BiduleType>) -> bool {
    &&& app.take(7).to_multiset() == standard_kinds().to_multiset()
    &&& (app.len() == 7 || (app.len() == 8 && is_special_kind(app[7])))
}

/// Refills the bag: the seven standard kinds, uniformly shuffled, with a
/// small independent chance of one extra special kind appended after the
/// shuffle. Anything already in the bag stays in front.
fn fill_bag(bag: &mut Vec<BiduleType>)
    ensures
        final(bag)@.len() > old(bag)@.len(),
        final(bag)@.take(old(bag)@.len() as int) == old(bag)@,
        refill_shape(final(bag)@.skip(old(bag)@.len() as int)),
{
    let mut kinds: Vec<BiduleType> = Vec::new();
    kinds.push(BiduleType::I);
    kinds.push(BiduleType::O);
    kinds.push(BiduleType::T);
    kinds.push(BiduleType::S);
    kinds.push(BiduleType::Z);
    kinds.push(BiduleType::J);
    kinds.push(BiduleType::L);
    assert(kinds@ =~= standard_kinds());
    shuffle_vec(&mut kinds);
    let ghost shuffled = kinds@;
    if random_below(100) < SPECIAL_CHANCE_PERCENT {
        let which = random_below(5);
        let special = if which == 0 {
            BiduleType::Jelly
        } else if which == 1 {
            BiduleType::Bomb
        } else if which == 2 {
            BiduleType::Laser
        } else if which == 3 {
            BiduleType::Drill
        } else {
            BiduleType::Anvil
        };
        kinds.push(special);
    }
    assert(kinds@.take(7) =~= shuffled);
    let ghost pre = bag@;
    let n = kinds.len();
    let mut i: usize = 0;
    while i < n
        invariant
            i <= n,
            n == kinds@.len(),
            bag@.len() == pre.len() + i,
            bag@.take(pre.len() as int) == pre,
            forall|j: int| 0 <= j < i ==> bag@[pre.len() + j] == kinds@[j],
        decreases n - i,
    {
        let ghost before = bag@;
        bag.push(kinds[i]);
        assert(bag@.take(pre.len() as int) =~= before.take(pre.len() as int));
        i += 1;
    }
    assert(bag@.skip(pre.len() as int) =~= kinds@);
}

/// Draws the next kind from the bag; an empty bag is refilled first,
/// synchronously, so the draw pops the last kind of the fresh refill.
fn next_from_bag(bag: &mut Vec<BiduleType>) -> (k: BiduleType)
    ensures
        old(bag)@.len() > 0 ==> k == old(bag)@.last() && final(bag)@ == old(bag)@.drop_last(),
        old(bag)@.len() == 0 ==> exists|app: Seq<BiduleType>|
            {
                &&& #[trigger] refill_shape(app)
                &&& k == app.last()
                &&& final(bag)@ == app.drop_last()
            },
        final(bag)@.len() >= old(bag)@.len() - 1,
{
    if bag.len() == 0 {
        fill_bag(bag);
        proof {
            assert(bag@.take(0) =~= Seq::<BiduleType>::empty());
            assert(bag@.skip(0) =~= bag@);
        }
        let ghost app = bag@;
        let k = bag.pop().unwrap();
        proof {
            assert(refill_shape(app) && k == app.last() && bag@ == app.drop_last());
        }
        return k;
    }
    let k = bag.pop().unwrap();
    k
}

/// How one lock relates the game before and after: the full lock
/// resolution of spec-described steps — write the piece, apply its
/// mechanic, clear rows, award score and lines, recompute the level,
/// rotate the queue, and settle the spawn with revive or game over.
pub open spec fn lock_step_rel(x: Game, y: Game, o: LockOutcome) -> bool {
    &&& o.same_color_contact == neighbor_contact(
        x.grid@,
        x.current_piece,
        true,
    )
    &&& o.diff_color_contact == neighbor_contact(
        x.grid@,
        x.current_piece,
        false,
    )
    &&& o.cleared_rows@.len() <= GRID_HEIGHT
    &&& y.lines_cleared_total as int == bumped_lines(
        x.lines_cleared_total,
        o.cleared_rows@.len() as nat,
    )
    &&& y.level as int == level_for(y.lines_cleared_total)
    &&& o.leveled_up == (y.level > x.level)
    &&& y.score as int == bumped_score(
        x.score,
        score_gain(
            o.cleared_rows@.len() as nat,
            x.level as nat,
            count_kind(x.active_bonuses@, BonusType::GoldenPickaxe),
        ),
    )
    &&& y.current_piece == x.next_pieces@[0]
    &&& y.can_hold
    &&& y.next_pieces@.len() == QUEUE_LEN
    &&& y.next_pieces@.take(x.next_pieces@.len() - 1) == x.next_pieces@.skip(1)
    &&& y.fall_timer == 0
    &&& y.lock_timer == 0
    &&& y.lock_resets == 0
    &&& y.hold_piece == x.hold_piece
    &&& y.das_timer == x.das_timer
    &&& y.arr_timer == x.arr_timer
    &&& y.move_dir == x.move_dir
    &&& y.menu_selection == x.menu_selection
    &&& // the grid pipeline, exact for every kind whose mechanic is a
    // function of field and piece
    ({
        let g1 = locked_grid(x.grid@, x.current_piece);
        let g2 = mech_grid(g1, x.current_piece);
        x.current_piece.kind != BiduleType::Jelly ==> {
            &&& (!o.revived ==> y.grid@ == cleared_grid(g2))
            &&& clear_report_ok(g2, o.cleared_rows@)
            &&& (o.revived || o.game_over) == piece_collides(
                cleared_grid(g2),
                x.next_pieces@[0],
            )
        }
    })
    &&& ({
        let g1 = locked_grid(x.grid@, x.current_piece);
        x.current_piece.kind == BiduleType::Jelly ==> exists|gj: GridModel|
            {
                &&& grid_wf(gj)
                &&& #[trigger] jelly_evolution(g1, gj)
                &&& (settled(g1) ==> gj == g1)
                &&& crate::special_bidule::grid_occupied(gj)
                    == crate::special_bidule::grid_occupied(g1)
                &&& (!settled(g1) ==> gj != g1)
                &&& (!o.revived ==> y.grid@ == cleared_grid(gj))
                &&& clear_report_ok(gj, o.cleared_rows@)
                &&& (o.revived || o.game_over) == piece_collides(
                    cleared_grid(gj),
                    x.next_pieces@[0],
                )
            }
    })
    &&& // state machine and the one-shot revive
    !(o.revived && o.game_over)
    &&& o.game_over <==> y.state == GameState::GameOver
    &&& o.game_over ==> count_kind(x.active_bonuses@, BonusType::LifeInsurance)
        == 0 && y.active_bonuses@ == x.active_bonuses@
    &&& o.revived ==> count_kind(x.active_bonuses@, BonusType::LifeInsurance) > 0
        && y.state == GameState::Playing && y.grid@ == empty_grid()
        && count_kind(y.active_bonuses@, BonusType::LifeInsurance)
        == count_kind(x.active_bonuses@, BonusType::LifeInsurance) - 1
        && y.active_bonuses@.len() == x.active_bonuses@.len() - 1 && (
    forall|k2: BonusType|
        k2 != BonusType::LifeInsurance ==> count_kind(y.active_bonuses@, k2)
            == count_kind(x.active_bonuses@, k2))
    &&& !(o.revived || o.game_over) ==> y.active_bonuses@ == x.active_bonuses@ && y.state == (if o.leveled_up {
        GameState::ChooseBonus
    } else {
        GameState::Playing
    })
    &&& o.leveled_up && !o.revived && !o.game_over ==> y.bonus_options@.len()
        == BONUS_CHOICES && y.bonus_selection_idx == 0 && (
    forall|i: int|
        0 <= i < BONUS_CHOICES ==> all_bonuses().contains(
            #[trigger] y.bonus_options@[i],
        )) && (forall|i: int, j: int|
        0 <= i < j < BONUS_CHOICES ==> y.bonus_options@[i]
            != y.bonus_options@[j])
    &&& !o.leveled_up ==> y.bonus_options@ == x.bonus_options@
}

/// The ledger phase of one frame: every active bonus's timer runs down by
/// `dt` and expired entries leave; nothing else changes.
pub open spec fn tick_rel(x: Game, y: Game, dt: u64) -> bool {
    &&& y.active_bonuses@ == crate::bonuses::ticked_ledger(x.active_bonuses@, dt)
    &&& (Game { active_bonuses: x.active_bonuses, ..y }) == x
}

/// The lock-delay phase of one frame, evaluated on a trial move down that is
/// never committed: resting on a surface runs the lock clock, and past the
/// grace period the piece locks; a piece with room below keeps its clock at
/// zero. Locking is obliged here: on an expired clock the outcome is `Some`.
pub open spec fn lock_phase_rel(x: Game, y: Game, dt: u64, o: Option<LockOutcome>) -> bool {
    let below = Point { x: x.current_piece.pos.x, y: (x.current_piece.pos.y + 1) as i32 };
    if offsets_collide(x.grid@, x.current_piece.positions@, below) {
        if x.lock_timer + dt > LOCK_DELAY_MICROS {
            o matches Some(oo) && lock_step_rel(x, y, oo)
        } else {
            o is None && y == (Game { lock_timer: (x.lock_timer + dt) as u64, ..x })
        }
    } else {
        o is None && y == (Game { lock_timer: 0, ..x })
    }
}

/// One whole `Playing` frame, as a chain of the phase relations: the ledger
/// ticks, then the input phases run — horizontal shift, rotation, hold, and
/// possibly a hard drop — then gravity, then the lock-delay check. Input
/// comes before gravity and locking, so a last-moment action still counts.
pub open spec fn playing_frame_rel(
    x: Game,
    y: Game,
    input: InputSnapshot,
    dt: u64,
    o: Option<LockOutcome>,
) -> bool {
    exists|a: Game, b: Game, c: Game|
        #![trigger tick_rel(x, a, dt), rotation_step_rel(shift_step(a, input, dt), b, input), hold_step_rel(b, c, input)]
        {
            &&& tick_rel(x, a, dt)
            &&& rotation_step_rel(shift_step(a, input, dt), b, input)
            &&& hold_step_rel(b, c, input)
            &&& if input.hard_drop_pressed {
                o matches Some(oo) && hard_drop_rel(c, y, oo)
            } else {
                lock_phase_rel(gravity_outcome(c, input, dt), y, dt, o)
            }
        }
}

/// How a hard drop relates the game before and after: the piece moves to its
/// ghost row — the lowest row it reaches without colliding, straight beneath
/// its position — and locks there at once.
pub open spec fn hard_drop_rel(x: Game, y: Game, o: LockOutcome) -> bool {
    exists|gy: i32|
        #[trigger] ghost_row_ok(x.grid@, x.current_piece, gy) && lock_step_rel(
            (Game {
                current_piece: piece_at(
                    x.current_piece,
                    Point { x: x.current_piece.pos.x, y: gy },
                ),
                ..x
            }),
            y,
            o,
        )
}

impl Game {
    /// Resolves a settled piece: writes it into the field, applies its
    /// kind-specific mechanic, clears full rows, awards score and lines,
    /// recomputes the level (opening the bonus choice on a level-up), rotates
    /// the next piece in from the queue, and handles a blocked spawn with the
    /// one-shot revive relic or a game over.
    pub fn lock_and_spawn(&mut self) -> (out: LockOutcome)
        requires
            old(self).wf(),
            !piece_collides(old(self).grid@, old(self).current_piece),
        ensures
            final(self).wf(),
            lock_step_rel(*old(self), *final(self), out),

    {
        let ghost g0 = self.grid@;
        let ghost p0 = self.current_piece;
        let ghost led0 = self.active_bonuses@;
        let ghost q0 = self.next_pieces@;
        let (same, diff) = scan_contacts(&self.grid, &self.current_piece);
        proof {
            lemma_noncolliding_in_field(g0, p0);
        }
        self.grid.lock_piece(&self.current_piece);
        resolve_special_mechanics_on_lock(&mut self.grid, &self.current_piece);
        let ghost gj = self.grid@;
        let cleared = self.grid.clear_lines();
        let ccount = cleared.len();
        assert(ccount <= GRID_HEIGHT) by {
            assert(forall|k1: int, k2: int|
                0 <= k1 < k2 < cleared@.len() ==> cleared@[k1] < cleared@[k2]);
            if cleared@.len() > GRID_HEIGHT {
                lemma_sorted_distinct_bounded(cleared@);
            }
        }
        // lines, level, score; the score is awarded at the pre-clear level
        let lines64: u64 = self.lines_cleared_total as u64 + ccount as u64;
        let new_lines: u32 = if lines64 > LINES_CAP as u64 {
            LINES_CAP
        } else {
            lines64 as u32
        };
        let new_level: u32 = new_lines / 10 + 1;
        let leveled = new_level > self.level;
        let cp = clear_points_exec(ccount);
        let stacks = count_kind_exec(&self.active_bonuses, BonusType::GoldenPickaxe);
        let stacks_c: u64 = if stacks > 1000 {
            1000
        } else {
            stacks as u64
        };
        let percent: u64 = 100 + 20 * stacks_c;
        assert(self.level as u64 <= 100000001) by {
            assert(self.level as int == self.lines_cleared_total as int / 10 + 1);
        }
        proof {
            assert(cp as int * (self.level as int) <= 800 * 100000001) by (nonlinear_arith)
                requires
                    0 <= cp <= 800,
                    0 <= self.level as int <= 100000001,
            ;
        }
        let a1 = cp * (self.level as u64);
        proof {
            assert(a1 as int * (percent as int) <= 80000000800 * 20100) by (nonlinear_arith)
                requires
                    0 <= a1 as int <= 80000000800,
                    0 <= percent as int <= 20100,
            ;
        }
        let a2 = a1 * percent;
        let points = a2 / 100;
        let new_score = if self.score > SCORE_CAP - points {
            SCORE_CAP
        } else {
            self.score + points
        };
        assert(new_score as int == bumped_score(
            self.score,
            score_gain(ccount as nat, self.level as nat, count_kind(led0, BonusType::GoldenPickaxe)),
        ));
        self.score = new_score;
        self.lines_cleared_total = new_lines;
        let ghost old_level = self.level;
        self.level = new_level;
        if leveled {
            self.bonus_options = Bonus::get_random_set(BONUS_CHOICES);
            self.bonus_selection_idx = 0;
            self.state = GameState::ChooseBonus;
        } else {
            self.state = GameState::Playing;
        }
        // rotate the queue
        self.current_piece = self.next_pieces.remove(0);
        assert(self.next_pieces@ =~= q0.skip(1));
        let ghost qtail = self.next_pieces@;
        let ghost pre_loop = *self;
        while self.next_pieces.len() < QUEUE_LEN
            invariant
                qtail.len() <= self.next_pieces@.len(),
                self.next_pieces@.len() <= QUEUE_LEN || self.next_pieces@.len() == qtail.len(),
                self.next_pieces@.take(qtail.len() as int) == qtail,
                forall|i: int|
                    qtail.len() <= i < self.next_pieces@.len() ==> fresh_piece(
                        #[trigger] self.next_pieces@[i],
                    ),
                forall|i: int|
                    0 <= i < qtail.len() ==> fresh_piece(#[trigger] self.next_pieces@[i]),
                (Game { next_pieces: pre_loop.next_pieces, bag: pre_loop.bag, ..*self })
                    == pre_loop,
            decreases QUEUE_LEN - self.next_pieces.len(),
        {
            let ghost pre = self.next_pieces@;
            let k = next_from_bag(&mut self.bag);
            self.next_pieces.push(Bidule::new(k));
            assert(self.next_pieces@.take(qtail.len() as int) =~= pre.take(qtail.len() as int));
        }
        assert(self.next_pieces@.take(qtail.len() as int) =~= self.next_pieces@.take(
            q0.len() - 1,
        ));
        self.can_hold = true;
        self.fall_timer = 0;
        self.lock_timer = 0;
        self.lock_resets = 0;
        // spawn check: revive or game over
        let mut revived = false;
        let mut game_over = false;
        if self.grid.is_collision(&self.current_piece) {
            let had = remove_one_of_kind(&mut self.active_bonuses, BonusType::LifeInsurance);
            if had {
                self.grid = Grid::new();
                self.state = GameState::Playing;
                revived = true;
                proof {
                    lemma_fresh_piece_fits_empty(self.current_piece, self.grid@);
                }
            } else {
                self.state = GameState::GameOver;
                game_over = true;
            }
        }
        proof {
            if p0.kind == BiduleType::Jelly {
                let g1 = locked_grid(g0, p0);
                assert({
                    &&& grid_wf(gj)
                    &&& jelly_evolution(g1, gj)
                    &&& (settled(g1) ==> gj == g1)
                    &&& crate::special_bidule::grid_occupied(gj)
                        == crate::special_bidule::grid_occupied(g1)
                    &&& (!settled(g1) ==> gj != g1)
                    &&& (!revived ==> self.grid@ == cleared_grid(gj))
                    &&& clear_report_ok(gj, cleared@)
                    &&& (revived || game_over) == piece_collides(cleared_grid(gj), q0[0])
                });
            }
        }
        LockOutcome {
            same_color_contact: same,
            diff_color_contact: diff,
            cleared_rows: cleared,
            leveled_up: leveled,
            revived,
            game_over,
        }
    }
}

/// The row report of a line clear is faithful to the field it was computed
/// from: it lists exactly the indices of the full rows, topmost first.
pub open spec fn clear_report_ok(g: GridModel, report: Seq<usize>) -> bool {
    &&& forall|k: int|
        0 <= k < report.len() ==> #[trigger] report[k] < GRID_HEIGHT && row_full(
            g[report[k] as int],
        )
    &&& forall|k1: int, k2: int| 0 <= k1 < k2 < report.len() ==> report[k1] < report[k2]
    &&& forall|y: int|
        0 <= y < GRID_HEIGHT && row_full(g[y]) ==> exists|k: int|
            0 <= k < report.len() && #[trigger] report[k] == y
}

/// A strictly increasing sequence of rows below `GRID_HEIGHT` cannot hold
/// more entries than there are rows.
proof fn lemma_sorted_distinct_bounded(s: Seq<usize>)
    requires
        forall|k1: int, k2: int| 0 <= k1 < k2 < s.len() ==> s[k1] < s[k2],
        forall|k: int| 0 <= k < s.len() ==> #[trigger] s[k] < GRID_HEIGHT,
    ensures
        s.len() <= GRID_HEIGHT,
{
    assert forall|k: int| 0 <= k < s.len() implies s[k] >= k by {
        lemma_sorted_lower_bound(s, k);
    }
    if s.len() > GRID_HEIGHT {
        assert(s[GRID_HEIGHT as int] >= GRID_HEIGHT);
    }
}

/// In a strictly increasing sequence the entry at index `k` is at least `k`.
proof fn lemma_sorted_lower_bound(s: Seq<usize>, k: int)
    requires
        forall|k1: int, k2: int| 0 <= k1 < k2 < s.len() ==> s[k1] < s[k2],
        0 <= k < s.len(),
    ensures
        s[k] >= k,
    decreases k,
{
    if k > 0 {
        lemma_sorted_lower_bound(s, k - 1);
        assert(s[k - 1] < s[k]);
    }
}

/// The falling piece relocated, shape unchanged.
pub open spec fn piece_at(p: Bidule, pos: Point) -> Bidule {
    Bidule { pos: pos, ..p }
}

/// `gy` is the piece's ghost row: every row from its own down to `gy` is
/// free, and one row further collides.
pub open spec fn ghost_row_ok(g: GridModel, p: Bidule, gy: i32) -> bool {
    &&& p.pos.y <= gy < GRID_HEIGHT
    &&& forall|yy: i32|
        p.pos.y <= yy <= gy ==> !(#[trigger] shape_collides_at(g, p.positions@, p.pos.x, yy))
    &&& shape_collides_at(g, p.positions@, p.pos.x, (gy + 1) as i32)
}

/// Executable counterpart of `gravity_interval`.
pub fn gravity_interval_exec(level: u32, anchors: usize, chills: usize) -> (r: u64)
    ensures
        r as int == gravity_interval(level as nat, anchors as nat, chills as nat),
        GRAVITY_MIN_MICROS <= r <= INTERVAL_CAP_MICROS,
{
    let mut iv: u64 = GRAVITY_BASE_MICROS;
    let mut l: u32 = 1;
    if level > 1 {
        while l < level
            invariant
                1 <= l <= level,
                iv as int == base_interval(l as nat),
                GRAVITY_MIN_MICROS <= iv <= GRAVITY_BASE_MICROS,
            decreases level - l,
        {
            if iv == GRAVITY_MIN_MICROS {
                proof {
                    lemma_base_interval_floor(l as nat, level as nat);
                }
                l = level;
            } else {
                let next = iv * 85 / 100;
                iv = if next < GRAVITY_MIN_MICROS {
                    GRAVITY_MIN_MICROS
                } else {
                    next
                };
                l += 1;
            }
        }
    } else {
        assert(base_interval(level as nat) == GRAVITY_BASE_MICROS);
    }
    assert(iv as int == base_interval(level as nat));
    let ghost base = base_interval(level as nat);
    let mut i: usize = 0;
    while i < anchors
        invariant
            i <= anchors,
            iv as int == apply_anchors(base, i as nat),
            GRAVITY_MIN_MICROS <= iv <= INTERVAL_CAP_MICROS,
        decreases anchors - i,
    {
        let next = iv * 11 / 10;
        iv = if next > INTERVAL_CAP_MICROS {
            INTERVAL_CAP_MICROS
        } else {
            next
        };
        i += 1;
    }
    let ghost anchored = apply_anchors(base, anchors as nat);
    let mut j: usize = 0;
    while j < chills
        invariant
            j <= chills,
            iv as int == apply_chills(anchored, j as nat),
            GRAVITY_MIN_MICROS <= iv <= INTERVAL_CAP_MICROS,
        decreases chills - j,
    {
        let next = iv * 2;
        iv = if next > INTERVAL_CAP_MICROS {
            INTERVAL_CAP_MICROS
        } else {
            next
        };
        j += 1;
    }
    iv
}

/// How applying a chosen bonus relates the game before and after: a
/// special-piece bonus puts its fresh piece at the front of the queue; every
/// other bonus stacks an active modifier with its kind-specific duration.
pub open spec fn bonus_applied_rel(x: Game, y: Game, bonus: Bonus) -> bool {
    match crate::bonuses::bonus_piece_kind(bonus.kind) {
        Some(k) => {
            &&& y.next_pieces@.len() == x.next_pieces@.len() + 1
            &&& fresh_piece(y.next_pieces@[0])
            &&& y.next_pieces@[0].kind == k
            &&& y.next_pieces@.skip(1) == x.next_pieces@
            &&& (Game { next_pieces: x.next_pieces, ..y }) == x
        },
        None => {
            &&& y.active_bonuses@ == x.active_bonuses@.push(
                ActiveBonus {
                    kind: bonus.kind,
                    timer: crate::bonuses::bonus_duration(bonus.kind),
                },
            )
            &&& (Game { active_bonuses: x.active_bonuses, ..y }) == x
        },
    }
}

impl Game {
    /// Applies a chosen bonus: a special-piece bonus pushes its piece into the
    /// front of the queue; every other bonus adds (stacks) an active modifier
    /// with its kind-specific duration — finite for the timed debuff, the
    /// permanent sentinel for relics.
    pub fn apply_bonus(&mut self, bonus: Bonus)
        requires
            old(self).wf(),
            old(self).next_pieces@.len() <= QUEUE_LEN,
            old(self).state != GameState::ChooseBonus,
        ensures
            final(self).wf(),
            bonus_applied_rel(*old(self), *final(self), bonus),
    {
        match crate::bonuses::bonus_piece_kind_exec(bonus.kind) {
            Some(k) => {
                let ghost q0 = self.next_pieces@;
                self.next_pieces.insert(0, Bidule::new(k));
                assert(self.next_pieces@.skip(1) =~= q0);
            },
            None => {
                let d = crate::bonuses::bonus_duration_exec(bonus.kind);
                assert(d > 0);
                self.active_bonuses.push(ActiveBonus { kind: bonus.kind, timer: d });
            },
        }
    }

    /// Instantly drops the piece to its ghost row — the lowest row it reaches
    /// without colliding — and locks it there at once.
    pub fn hard_drop(&mut self) -> (out: LockOutcome)
        requires
            old(self).wf(),
            !piece_collides(old(self).grid@, old(self).current_piece),
        ensures
            final(self).wf(),
            hard_drop_rel(*old(self), *final(self), out),

    {
        let gp = self.get_ghost_position();
        proof {
            assert(!shape_collides_at(
                self.grid@,
                self.current_piece.positions@,
                self.current_piece.pos.x,
                gp.y,
            ));
        }
        let ghost gy = gp.y;
        let ghost x0 = *self;
        proof {
            assert(ghost_row_ok(self.grid@, self.current_piece, gy));
        }
        self.current_piece.pos = gp;
        proof {
            assert(*self == (Game {
                current_piece: piece_at(
                    x0.current_piece,
                    Point { x: x0.current_piece.pos.x, y: gy },
                ),
                ..x0
            }));
        }
        let out = self.lock_and_spawn();
        out
    }
}

/// The active shift direction for a frame: opposing simultaneous holds
/// resolve to the most recent press — the opposite of the direction that was
/// already held, or rightward when both appear at once from neutral.
pub open spec fn resolved_direction(prev: i32, input: InputSnapshot) -> i32 {
    if input.left_held && input.right_held {
        if prev != 0 {
            (0 - prev) as i32
        } else {
            1
        }
    } else if input.left_held {
        (-1) as i32
    } else if input.right_held {
        1
    } else {
        0
    }
}

/// The game after a lock-delay grace-period restart: while the timer runs and
/// the bounded reset budget is not exhausted, the timer restarts and one
/// reset is spent; otherwise nothing changes.
pub open spec fn with_lock_reset(g: Game) -> Game {
    if g.lock_timer > 0 && g.lock_resets < MAX_LOCK_RESETS {
        Game { lock_timer: 0, lock_resets: (g.lock_resets + 1) as u32, ..g }
    } else {
        g
    }
}

/// The game after one attempted horizontal step: a free move commits and may
/// restart the lock-delay grace period; a colliding move changes nothing.
pub open spec fn moved_h(g: Game, d: i32) -> Game {
    let np = Point { x: (g.current_piece.pos.x + d) as i32, y: g.current_piece.pos.y };
    if !offsets_collide(g.grid@, g.current_piece.positions@, np) {
        with_lock_reset(Game { current_piece: Bidule { pos: np, ..g.current_piece }, ..g })
    } else {
        g
    }
}

/// The game after one frame of the horizontal-shift machine: an immediate
/// step on a direction change (with both timers reset), then delayed
/// auto-repeat — one step each time the repeat timer runs past its threshold
/// while the delay threshold has been exceeded.
pub open spec fn shift_step(g: Game, input: InputSnapshot, dt: u64) -> Game {
    let d = resolved_direction(g.move_dir, input);
    if d != g.move_dir {
        let g1 = Game { move_dir: d, das_timer: 0, arr_timer: 0, ..g };
        if d != 0 {
            moved_h(g1, d)
        } else {
            g1
        }
    } else if d != 0 {
        let nd = g.das_timer + dt;
        let das2: u64 = if nd > DAS_DELAY_MICROS {
            (DAS_DELAY_MICROS + 1) as u64
        } else {
            nd as u64
        };
        let g1 = Game { das_timer: das2, ..g };
        if das2 > DAS_DELAY_MICROS {
            if g.arr_timer + dt > ARR_REPEAT_MICROS {
                Game { arr_timer: 0, ..moved_h(g1, d) }
            } else {
                Game { arr_timer: (g.arr_timer + dt) as u64, ..g1 }
            }
        } else {
            g1
        }
    } else {
        g
    }
}

/// The game after one frame of gravity: once the accumulated time runs past
/// the effective interval the clock resets and the piece steps one row down
/// if that is free; a blocked fall leaves the piece where it is.
pub open spec fn gravity_outcome(g: Game, input: InputSnapshot, dt: u64) -> Game {
    let anchors = count_kind(g.active_bonuses@, BonusType::TimeAnchor);
    let chills = count_kind(g.active_bonuses@, BonusType::Chill);
    let interval: int = if input.soft_drop_held {
        SOFT_DROP_MICROS as int
    } else {
        gravity_interval(g.level as nat, anchors, chills)
    };
    if g.fall_timer + dt > interval {
        let below = Point { x: g.current_piece.pos.x, y: (g.current_piece.pos.y + 1) as i32 };
        let g1 = Game { fall_timer: 0, ..g };
        if !offsets_collide(g.grid@, g.current_piece.positions@, below) {
            Game { current_piece: Bidule { pos: below, ..g1.current_piece }, ..g1 }
        } else {
            g1
        }
    } else {
        Game { fall_timer: (g.fall_timer + dt) as u64, ..g }
    }
}

/// The start-menu selection after one frame of navigation; confirming the
/// first entry starts the game and leaves the selection alone.
pub open spec fn start_menu_selection(sel: usize, input: InputSnapshot) -> int {
    if input.confirm_pressed && sel == 0 {
        sel as int
    } else if input.menu_up_pressed {
        (sel + MENU_ENTRIES - 1) as int % MENU_ENTRIES as int
    } else if input.menu_down_pressed {
        (sel + 1) as int % MENU_ENTRIES as int
    } else {
        sel as int
    }
}

/// The bonus-card selection after one frame of navigation over a three-column
/// card layout; moves past an edge are ignored.
pub open spec fn choose_menu_selection(sel: usize, len: int, input: InputSnapshot) -> int {
    if input.menu_left_pressed && sel >= 1 {
        sel - 1
    } else if input.menu_right_pressed && sel + 1 < len {
        sel + 1
    } else if input.menu_up_pressed && sel >= 3 {
        sel - 3
    } else if input.menu_down_pressed && sel + 3 < len {
        sel + 3
    } else {
        sel as int
    }
}

impl Game {
    /// Restarts the lock-delay grace period after a successful move or
    /// rotation while the piece is touching down, up to the bounded number of
    /// resets per piece; afterwards the timer keeps running regardless.
    fn note_lock_reset(&mut self)
        requires
            old(self).wf(),
        ensures
            final(self).wf(),
            *final(self) == with_lock_reset(*old(self)),
    {
        if self.lock_timer > 0 && self.lock_resets < MAX_LOCK_RESETS {
            self.lock_timer = 0;
            self.lock_resets = self.lock_resets + 1;
        }
    }

    /// The horizontal-shift step of one frame: an immediate move on a
    /// direction change, then delayed auto-repeat while the same direction is
    /// held; opposing holds resolve to the most recent press. A successful
    /// move while touching down restarts the lock-delay grace period.
    fn handle_shift(&mut self, input: &InputSnapshot, dt: u64)
        requires
            old(self).wf(),
            dt <= DT_MAX_MICROS,
        ensures
            final(self).wf(),
            final(self).state == old(self).state,
            final(self).grid@ == old(self).grid@,
            final(self).score == old(self).score,
            final(self).level == old(self).level,
            final(self).lines_cleared_total == old(self).lines_cleared_total,
            final(self).active_bonuses@ == old(self).active_bonuses@,
            final(self).fall_timer == old(self).fall_timer,
            final(self).hold_piece == old(self).hold_piece,
            final(self).can_hold == old(self).can_hold,
            final(self).next_pieces@ == old(self).next_pieces@,
            final(self).current_piece.positions@ == old(self).current_piece.positions@,
            final(self).current_piece.pos.y == old(self).current_piece.pos.y,
            *final(self) == shift_step(*old(self), *input, dt),
    {
        let raw_dir: i32 = if input.left_held && input.right_held {
            if self.move_dir != 0 {
                -self.move_dir
            } else {
                1
            }
        } else if input.left_held {
            -1
        } else if input.right_held {
            1
        } else {
            0
        };
        if raw_dir != self.move_dir {
            self.move_dir = raw_dir;
            self.das_timer = 0;
            self.arr_timer = 0;
            if raw_dir != 0 {
                let moved = self.try_move_horizontal(raw_dir);
                if moved {
                    self.note_lock_reset();
                }
            }
        } else if raw_dir != 0 {
            let nd = self.das_timer + dt;
            self.das_timer = if nd > DAS_DELAY_MICROS {
                DAS_DELAY_MICROS + 1
            } else {
                nd
            };
            if self.das_timer > DAS_DELAY_MICROS {
                let na = self.arr_timer + dt;
                if na > ARR_REPEAT_MICROS {
                    let moved = self.try_move_horizontal(raw_dir);
                    if moved {
                        self.note_lock_reset();
                    }
                    self.arr_timer = 0;
                } else {
                    self.arr_timer = na;
                }
            }
        }
    }

    /// The rotation step of one frame; a successful rotation while touching
    /// down restarts the lock-delay grace period.
    fn handle_rotation(&mut self, input: &InputSnapshot)
        requires
            old(self).wf(),
        ensures
            final(self).wf(),
            final(self).state == old(self).state,
            final(self).grid@ == old(self).grid@,
            final(self).score == old(self).score,
            final(self).level == old(self).level,
            final(self).lines_cleared_total == old(self).lines_cleared_total,
            final(self).active_bonuses@ == old(self).active_bonuses@,
            final(self).fall_timer == old(self).fall_timer,
            final(self).hold_piece == old(self).hold_piece,
            final(self).can_hold == old(self).can_hold,
            final(self).next_pieces@ == old(self).next_pieces@,
            !input.rotate_pressed ==> *final(self) == *old(self),
            rotation_step_rel(*old(self), *final(self), *input),
    {
        if input.rotate_pressed {
            let rotated = self.try_rotate();
            if rotated {
                self.note_lock_reset();
            }
        }
    }

    /// The hold step of one frame.
    fn handle_hold(&mut self, input: &InputSnapshot)
        requires
            old(self).wf(),
        ensures
            final(self).wf(),
            final(self).state == old(self).state,
            final(self).grid@ == old(self).grid@,
            final(self).score == old(self).score,
            final(self).level == old(self).level,
            final(self).lines_cleared_total == old(self).lines_cleared_total,
            final(self).active_bonuses@ == old(self).active_bonuses@,
            final(self).fall_timer == old(self).fall_timer,
            !input.hold_pressed ==> *final(self) == *old(self),
            hold_step_rel(*old(self), *final(self), *input),
    {
        if input.hold_pressed {
            let _held = self.try_hold();
        }
    }

    /// The gravity step of one frame: once the accumulated time exceeds the
    /// effective interval, the piece moves one row down; a blocked fall does
    /// not move the piece and is not by itself a lock.
    fn gravity_step(&mut self, input: &InputSnapshot, dt: u64)
        requires
            old(self).wf(),
            dt <= DT_MAX_MICROS,
        ensures
            final(self).wf(),
            final(self).state == old(self).state,
            final(self).grid@ == old(self).grid@,
            final(self).score == old(self).score,
            final(self).level == old(self).level,
            final(self).lines_cleared_total == old(self).lines_cleared_total,
            final(self).active_bonuses@ == old(self).active_bonuses@,
            final(self).hold_piece == old(self).hold_piece,
            final(self).can_hold == old(self).can_hold,
            final(self).next_pieces@ == old(self).next_pieces@,
            // gravity only ever moves the piece straight down, by one row
            final(self).current_piece.positions@ == old(self).current_piece.positions@,
            final(self).current_piece.pos.x == old(self).current_piece.pos.x,
            final(self).current_piece.pos.y == old(self).current_piece.pos.y || final(self).current_piece.pos.y == old(self).current_piece.pos.y + 1,
            *final(self) == gravity_outcome(*old(self), *input, dt),
    {
        let anchors = count_kind_exec(&self.active_bonuses, BonusType::TimeAnchor);
        let chills = count_kind_exec(&self.active_bonuses, BonusType::Chill);
        let interval = if input.soft_drop_held {
            SOFT_DROP_MICROS
        } else {
            gravity_interval_exec(self.level, anchors, chills)
        };
        let nf = self.fall_timer + dt;
        if nf > interval {
            self.fall_timer = 0;
            let below = Point { x: self.current_piece.pos.x, y: self.current_piece.pos.y + 1 };
            if !self.grid.is_collision_at(&self.current_piece, below) {
                proof {
                    assert(!crate::grid::collides_at(
                        self.grid@,
                        below,
                        self.current_piece.positions@[0],
                    ));
                }
                self.current_piece.pos = below;
            }
        } else {
            self.fall_timer = nf;
        }
    }

    /// One frame of the `Playing` state: ledger tick, horizontal movement
    /// with delayed auto-repeat, rotation, hold, hard drop, gravity, and the
    /// lock-delay check, in that order — input before gravity, so a
    /// last-moment action still counts.
    fn playing_frame(&mut self, input: &InputSnapshot, dt: u64) -> (out: Option<LockOutcome>)
        requires
            old(self).wf(),
            old(self).state == GameState::Playing,
            dt <= DT_MAX_MICROS,
        ensures
            final(self).wf(),
            final(self).state == GameState::Playing || final(self).state
                == GameState::ChooseBonus || final(self).state == GameState::GameOver,
            out matches Some(o) ==> (o.game_over <==> final(self).state == GameState::GameOver),
            out is None ==> final(self).state == GameState::Playing && final(self).grid@ == old(
                self,
            ).grid@ && final(self).score == old(self).score && final(self).level == old(
                self,
            ).level && final(self).lines_cleared_total == old(self).lines_cleared_total && final(self).active_bonuses@ == crate::bonuses::ticked_ledger(old(self).active_bonuses@, dt),
            out is None && !input.hold_pressed ==> final(self).hold_piece == old(self).hold_piece
                && final(self).can_hold == old(self).can_hold,
            playing_frame_rel(*old(self), *final(self), *input, dt, out),
    {
        crate::bonuses::tick_bonuses(&mut self.active_bonuses, dt);
        let ghost a = *self;
        proof {
            assert(tick_rel(*old(self), a, dt));
        }
        self.handle_shift(input, dt);
        assert(*self == shift_step(a, *input, dt));
        self.handle_rotation(input);
        let ghost b = *self;
        self.handle_hold(input);
        let ghost c = *self;
        proof {
            assert(rotation_step_rel(shift_step(a, *input, dt), b, *input));
            assert(hold_step_rel(b, c, *input));
        }
        if input.hard_drop_pressed {
            let o = self.hard_drop();
            proof {
                assert(hard_drop_rel(c, *self, o));
                assert(playing_frame_rel(*old(self), *self, *input, dt, Some(o)));
            }
            return Some(o);
        }
        self.gravity_step(input, dt);
        assert(*self == gravity_outcome(c, *input, dt));
        let ghost d = *self;
        // lock delay, evaluated on a trial move down
        let below = Point { x: self.current_piece.pos.x, y: self.current_piece.pos.y + 1 };
        if self.grid.is_collision_at(&self.current_piece, below) {
            let nl = self.lock_timer + dt;
            if nl > LOCK_DELAY_MICROS {
                let o = self.lock_and_spawn();
                proof {
                    assert(lock_phase_rel(d, *self, dt, Some(o)));
                    assert(playing_frame_rel(*old(self), *self, *input, dt, Some(o)));
                }
                return Some(o);
            }
            self.lock_timer = nl;
            proof {
                assert(*self == (Game { lock_timer: (d.lock_timer + dt) as u64, ..d }));
                assert(lock_phase_rel(d, *self, dt, None::<LockOutcome>));
            }
        } else {
            self.lock_timer = 0;
            proof {
                assert(*self == (Game { lock_timer: 0u64, ..d }));
                assert(lock_phase_rel(d, *self, dt, None::<LockOutcome>));
            }
        }
        proof {
            assert(playing_frame_rel(*old(self), *self, *input, dt, None::<LockOutcome>));
        }
        None
    }

    /// Advances the simulation by one frame. Input is applied before gravity,
    /// so a last-moment move or rotation still counts; the lock-delay check
    /// works on a trial move down, never a committed one. Returns the lock
    /// outcome when a piece locked this frame.
    #[verifier::rlimit(60)]
    pub fn update(&mut self, input: &InputSnapshot, dt: u64) -> (out: Option<LockOutcome>)
        requires
            old(self).wf(),
            dt <= DT_MAX_MICROS,
        ensures
            final(self).wf(),
            old(self).state == GameState::Start ==> {
                &&& out is None
                &&& (final(self).state == GameState::Start || final(self).state
                    == GameState::Playing)
                &&& (final(self).state == GameState::Playing <==> input.confirm_pressed && old(
                    self,
                ).menu_selection == 0)
                &&& final(self).menu_selection as int == start_menu_selection(
                    old(self).menu_selection,
                    *input,
                )
                &&& (Game {
                    state: old(self).state,
                    menu_selection: old(self).menu_selection,
                    ..*final(self)
                }) == *old(self)
            },
            old(self).state == GameState::GameOver ==> {
                &&& out is None
                &&& (!input.restart_pressed ==> *final(self) == *old(self))
                &&& (input.restart_pressed ==> final(self).state == GameState::Start && final(self).grid@ == empty_grid() && final(self).score == 0 && final(self).level == 1
                    && final(self).lines_cleared_total == 0 && final(self).active_bonuses@.len()
                    == 0 && final(self).hold_piece is None)
            },
            old(self).state == GameState::ChooseBonus ==> {
                &&& out is None
                &&& (!input.confirm_pressed ==> final(self).state == GameState::ChooseBonus
                    && final(self).bonus_selection_idx as int == choose_menu_selection(
                    old(self).bonus_selection_idx,
                    old(self).bonus_options@.len() as int,
                    *input,
                ) && (Game { bonus_selection_idx: old(self).bonus_selection_idx, ..*final(self) })
                    == *old(self))
                &&& (input.confirm_pressed ==> final(self).state == GameState::Playing
                    && bonus_applied_rel(
                    (Game { state: GameState::Playing, ..*old(self) }),
                    *final(self),
                    old(self).bonus_options@[old(self).bonus_selection_idx as int],
                ))
            },
            old(self).state == GameState::Playing ==> {
                &&& (final(self).state == GameState::Playing || final(self).state
                    == GameState::ChooseBonus || final(self).state == GameState::GameOver)
                &&& (out matches Some(o) ==> (o.game_over <==> final(self).state
                    == GameState::GameOver))
                &&& (out is None ==> final(self).state == GameState::Playing && final(self).grid@
                    == old(self).grid@ && final(self).score == old(self).score && final(self).level == old(self).level && final(self).lines_cleared_total == old(
                    self,
                ).lines_cleared_total && final(self).active_bonuses@
                    == crate::bonuses::ticked_ledger(old(self).active_bonuses@, dt))
                &&& (out is None && !input.hold_pressed ==> final(self).hold_piece == old(
                    self,
                ).hold_piece && final(self).can_hold == old(self).can_hold)
                &&& playing_frame_rel(*old(self), *final(self), *input, dt, out)
            },
    {
        match self.state {
            GameState::Start => {
                if input.confirm_pressed && self.menu_selection == 0 {
                    self.state = GameState::Playing;
                } else if input.menu_up_pressed {
                    self.menu_selection = (self.menu_selection + (MENU_ENTRIES - 1))
                        % MENU_ENTRIES;
                } else if input.menu_down_pressed {
                    self.menu_selection = (self.menu_selection + 1) % MENU_ENTRIES;
                }
                None
            },
            GameState::GameOver => {
                if input.restart_pressed {
                    *self = Game::new();
                }
                None
            },
            GameState::ChooseBonus => {
                if input.confirm_pressed {
                    let b = self.bonus_options[self.bonus_selection_idx];
                    self.state = GameState::Playing;
                    self.apply_bonus(b);
                } else {
                    let len = self.bonus_options.len();
                    if input.menu_left_pressed && self.bonus_selection_idx >= 1 {
                        self.bonus_selection_idx = self.bonus_selection_idx - 1;
                    } else if input.menu_right_pressed && self.bonus_selection_idx + 1 < len {
                        self.bonus_selection_idx = self.bonus_selection_idx + 1;
                    } else if input.menu_up_pressed && self.bonus_selection_idx >= 3 {
                        self.bonus_selection_idx = self.bonus_selection_idx - 3;
                    } else if input.menu_down_pressed && len >= 4 && self.bonus_selection_idx
                        < len - 3 {
                        self.bonus_selection_idx = self.bonus_selection_idx + 3;
                    }
                }
                None
            },
            GameState::Playing => { self.playing_frame(input, dt) },
        }
    }
}

} // verus!
