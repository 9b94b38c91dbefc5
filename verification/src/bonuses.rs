//! Bonus definitions, the random offer draw, and the active-bonus ledger.

use crate::bidule::BiduleType;
use crate::rng::shuffle_vec;
use vstd::prelude::*;

verus! {

/// How long the timed debuff lasts, in microseconds.
pub const CHILL_DURATION_MICROS: u64 = 60_000_000;

/// Sentinel duration for permanent relics: far longer than any game.
pub const PERMANENT_DURATION_MICROS: u64 = 0x4000_0000_0000_0000;

/// Every selectable bonus: one-shot special pieces, a timed debuff, and
/// permanent relics.
#[derive(Clone, Copy, Debug, PartialEq, Eq, Structural, Hash)]
pub enum BonusType {
    Bomb,
    Chill,
    VerticalLaser,
    LiquidFiller,
    Drill,
    Anvil,
    TimeAnchor,
    GoldenPickaxe,
    LifeInsurance,
}

/// How rare a bonus is in the offer draw.
#[derive(Clone, Copy, Debug, PartialEq, Eq, Structural)]
pub enum Rarity {
    Common,
    Rare,
    Legendary,
}

/// A selectable bonus definition.
#[derive(Clone, Copy, Debug, PartialEq, Eq, Structural)]
pub struct Bonus {
    pub kind: BonusType,
    pub rarity: Rarity,
}

/// An active timed or permanent modifier. The timer is in microseconds and
/// stays positive while the bonus is in the ledger; permanent relics carry
/// the sentinel duration.
#[derive(Clone, Copy, Debug, PartialEq, Eq, Structural)]
pub struct ActiveBonus {
    pub kind: BonusType,
    pub timer: u64,
}

/// The full catalog of bonus definitions.
pub open spec fn all_bonuses() -> Seq<Bonus> {
    seq![
        Bonus { kind: BonusType::Bomb, rarity: Rarity::Common },
        Bonus { kind: BonusType::Chill, rarity: Rarity::Common },
        Bonus { kind: BonusType::VerticalLaser, rarity: Rarity::Common },
        Bonus { kind: BonusType::LiquidFiller, rarity: Rarity::Common },
        Bonus { kind: BonusType::Drill, rarity: Rarity::Common },
        Bonus { kind: BonusType::Anvil, rarity: Rarity::Rare },
        Bonus { kind: BonusType::TimeAnchor, rarity: Rarity::Rare },
        Bonus { kind: BonusType::GoldenPickaxe, rarity: Rarity::Rare },
        Bonus { kind: BonusType::LifeInsurance, rarity: Rarity::Legendary },
    ]
}

/// The special piece a bonus injects into the queue, if it is of that sort.
pub open spec fn bonus_piece_kind(k: BonusType) -> Option<BiduleType> {
    match k {
        BonusType::Bomb => Some(BiduleType::Bomb),
        BonusType::VerticalLaser => Some(BiduleType::Laser),
        BonusType::LiquidFiller => Some(BiduleType::Jelly),
        BonusType::Drill => Some(BiduleType::Drill),
        BonusType::Anvil => Some(BiduleType::Anvil),
        _ => None,
    }
}

/// The duration an activated bonus stays in the ledger: finite for the timed
/// debuff, the permanent sentinel for relics, nothing for piece bonuses.
pub open spec fn bonus_duration(k: BonusType) -> u64 {
    match k {
        BonusType::Chill => CHILL_DURATION_MICROS,
        BonusType::TimeAnchor => PERMANENT_DURATION_MICROS,
        BonusType::GoldenPickaxe => PERMANENT_DURATION_MICROS,
        BonusType::LifeInsurance => PERMANENT_DURATION_MICROS,
        _ => 0,
    }
}

/// Executable counterpart of `bonus_piece_kind`.
pub fn bonus_piece_kind_exec(k: BonusType) -> (r: Option<BiduleType>)
    ensures
        r == bonus_piece_kind(k),
{
    match k {
        BonusType::Bomb => Some(BiduleType::Bomb),
        BonusType::VerticalLaser => Some(BiduleType::Laser),
        BonusType::LiquidFiller => Some(BiduleType::Jelly),
        BonusType::Drill => Some(BiduleType::Drill),
        BonusType::Anvil => Some(BiduleType::Anvil),
        _ => None,
    }
}

/// Executable counterpart of `bonus_duration`.
pub fn bonus_duration_exec(k: BonusType) -> (r: u64)
    ensures
        r == bonus_duration(k),
{
    match k {
        BonusType::Chill => CHILL_DURATION_MICROS,
        BonusType::TimeAnchor => PERMANENT_DURATION_MICROS,
        BonusType::GoldenPickaxe => PERMANENT_DURATION_MICROS,
        BonusType::LifeInsurance => PERMANENT_DURATION_MICROS,
        _ => 0,
    }
}

impl Bonus {
    /// The catalog, in its fixed order.
    pub fn get_all() -> (r: Vec<Bonus>)
        ensures
            r@ == all_bonuses(),
    {
        let mut r: Vec<Bonus> = Vec::new();
        r.push(Bonus { kind: BonusType::Bomb, rarity: Rarity::Common });
        r.push(Bonus { kind: BonusType::Chill, rarity: Rarity::Common });
        r.push(Bonus { kind: BonusType::VerticalLaser, rarity: Rarity::Common });
        r.push(Bonus { kind: BonusType::LiquidFiller, rarity: Rarity::Common });
        r.push(Bonus { kind: BonusType::Drill, rarity: Rarity::Common });
        r.push(Bonus { kind: BonusType::Anvil, rarity: Rarity::Rare });
        r.push(Bonus { kind: BonusType::TimeAnchor, rarity: Rarity::Rare });
        r.push(Bonus { kind: BonusType::GoldenPickaxe, rarity: Rarity::Rare });
        r.push(Bonus { kind: BonusType::LifeInsurance, rarity: Rarity::Legendary });
        assert(r@ =~= all_bonuses());
        r
    }

    /// Draws `count` distinct bonus definitions from the catalog, uniformly:
    /// the catalog is shuffled and a prefix taken.
    pub fn get_random_set(count: usize) -> (r: Vec<Bonus>)
        ensures
            r@.len() == if count <= all_bonuses().len() {
                count as int
            } else {
                all_bonuses().len() as int
            },
            forall|i: int| 0 <= i < r@.len() ==> all_bonuses().contains(#[trigger] r@[i]),
            forall|i: int, j: int| 0 <= i < j < r@.len() ==> r@[i] != r@[j],
    {
        let mut all = Self::get_all();
        let ghost catalog = all@;
        shuffle_vec(&mut all);
        proof {
            broadcast use vstd::seq_lib::group_to_multiset_ensures;

            assert(catalog.no_duplicates());
            catalog.lemma_multiset_has_no_duplicates();
            assert(forall|b: Bonus|
                all@.to_multiset().contains(b) ==> all@.to_multiset().count(b) == 1);
            all@.lemma_multiset_has_no_duplicates_conv();
            assert(all@.no_duplicates());
            assert forall|i: int| 0 <= i < all@.len() implies catalog.contains(
                #[trigger] all@[i],
            ) by {
                assert(all@.to_multiset().contains(all@[i]));
                assert(catalog.to_multiset().contains(all@[i]));
            }
        }
        let n = if count <= all.len() {
            count
        } else {
            all.len()
        };
        let mut r: Vec<Bonus> = Vec::new();
        let mut i: usize = 0;
        while i < n
            invariant
                i <= n,
                n <= all@.len(),
                all@.no_duplicates(),
                forall|j: int| 0 <= j < all@.len() ==> catalog.contains(#[trigger] all@[j]),
                r@.len() == i,
                forall|j: int| 0 <= j < i ==> r@[j] == all@[j],
            decreases n - i,
        {
            r.push(all[i]);
            i += 1;
        }
        assert forall|i2: int| 0 <= i2 < r@.len() implies all_bonuses().contains(
            #[trigger] r@[i2],
        ) by {
            assert(catalog.contains(all@[i2]));
        }
        r
    }
}

/// How many active bonuses of the given kind are in the ledger.
pub open spec fn count_kind(s: Seq<ActiveBonus>, k: BonusType) -> nat
    decreases s.len(),
{
    if s.len() == 0 {
        0
    } else {
        count_kind(s.drop_last(), k) + if s.last().kind == k {
            1nat
        } else {
            0nat
        }
    }
}

/// Removing one entry lowers exactly its own kind's count by one.
pub proof fn lemma_count_kind_remove(s: Seq<ActiveBonus>, k: BonusType, idx: int)
    requires
        0 <= idx < s.len(),
    ensures
        count_kind(s.remove(idx), k) == count_kind(s, k) - (if s[idx].kind == k {
            1int
        } else {
            0int
        }),
    decreases s.len(),
{
    if idx == s.len() - 1 {
        assert(s.remove(idx) =~= s.drop_last());
    } else {
        assert(s.remove(idx).drop_last() =~= s.drop_last().remove(idx));
        assert(s.remove(idx).last() == s.last());
        lemma_count_kind_remove(s.drop_last(), k, idx);
    }
}

/// Executable counterpart of `count_kind`.
pub fn count_kind_exec(v: &Vec<ActiveBonus>, k: BonusType) -> (n: usize)
    ensures
        n as nat == count_kind(v@, k),
{
    let len = v.len();
    let mut n: usize = 0;
    let mut i: usize = 0;
    while i < len
        invariant
            i <= len,
            len == v@.len(),
            n <= i,
            n as nat == count_kind(v@.take(i as int), k),
        decreases len - i,
    {
        proof {
            assert(v@.take(i + 1).drop_last() =~= v@.take(i as int));
            assert(v@.take(i + 1).last() == v@[i as int]);
        }
        if v[i].kind == k {
            n += 1;
        }
        i += 1;
    }
    assert(v@.take(len as int) =~= v@);
    n
}

/// Removes the first ledger entry of the given kind, if any; exactly one
/// instance of that kind is consumed and every other kind keeps its count.
pub fn remove_one_of_kind(v: &mut Vec<ActiveBonus>, k: BonusType) -> (removed: bool)
    ensures
        removed == (count_kind(old(v)@, k) > 0),
        removed ==> final(v)@.len() == old(v)@.len() - 1 && count_kind(final(v)@, k) == count_kind(
            old(v)@,
            k,
        ) - 1,
        !removed ==> final(v)@ == old(v)@,
        forall|k2: BonusType| k2 != k ==> count_kind(final(v)@, k2) == count_kind(old(v)@, k2),
        forall|i: int| 0 <= i < final(v)@.len() ==> old(v)@.contains(#[trigger] final(v)@[i]),
{
    let len = v.len();
    let mut i: usize = 0;
    while i < len
        invariant
            i <= len,
            len == v@.len(),
            v@ == old(v)@,
            forall|j: int| 0 <= j < i ==> (#[trigger] v@[j]).kind != k,
        decreases len - i,
    {
        if v[i].kind == k {
            let ghost pre = v@;
            v.remove(i);
            proof {
                lemma_count_kind_remove(pre, k, i as int);
                lemma_count_kind_positive(pre, k, i as int);
                assert forall|k2: BonusType| k2 != k implies count_kind(v@, k2) == count_kind(
                    pre,
                    k2,
                ) by {
                    lemma_count_kind_remove(pre, k2, i as int);
                }
                assert forall|j: int| 0 <= j < v@.len() implies pre.contains(
                    #[trigger] v@[j],
                ) by {
                    if j < i {
                        assert(v@[j] == pre[j]);
                    } else {
                        assert(v@[j] == pre[j + 1]);
                    }
                }
            }
            return true;
        }
        i += 1;
    }
    proof {
        lemma_count_kind_none(v@, k);
    }
    false
}

/// A kind present at some index has a positive count.
proof fn lemma_count_kind_positive(s: Seq<ActiveBonus>, k: BonusType, idx: int)
    requires
        0 <= idx < s.len(),
        s[idx].kind == k,
    ensures
        count_kind(s, k) > 0,
    decreases s.len(),
{
    if idx < s.len() - 1 {
        lemma_count_kind_positive(s.drop_last(), k, idx);
    }
}

/// A kind at no index has count zero.
proof fn lemma_count_kind_none(s: Seq<ActiveBonus>, k: BonusType)
    requires
        forall|j: int| 0 <= j < s.len() ==> (#[trigger] s[j]).kind != k,
    ensures
        count_kind(s, k) == 0,
    decreases s.len(),
{
    if s.len() > 0 {
        lemma_count_kind_none(s.drop_last(), k);
    }
}

/// One entry with its timer run down by `dt`, floored at zero.
pub open spec fn ticked(b: ActiveBonus, dt: u64) -> ActiveBonus {
    ActiveBonus {
        kind: b.kind,
        timer: if b.timer > dt {
            (b.timer - dt) as u64
        } else {
            0
        },
    }
}

/// The ledger after one frame: every timer reduced by `dt` and the entries
/// that reached zero removed.
pub open spec fn ticked_ledger(s: Seq<ActiveBonus>, dt: u64) -> Seq<ActiveBonus> {
    s.map_values(|b: ActiveBonus| ticked(b, dt)).filter(|b: ActiveBonus| b.timer > 0)
}

/// Runs every active bonus's timer down by `dt` and drops the expired ones.
pub fn tick_bonuses(v: &mut Vec<ActiveBonus>, dt: u64)
    ensures
        final(v)@ == ticked_ledger(old(v)@, dt),
        forall|i: int| 0 <= i < final(v)@.len() ==> (#[trigger] final(v)@[i]).timer > 0,
{
    let ghost s0 = v@;
    let ghost fmap = |b: ActiveBonus| ticked(b, dt);
    let ghost fpred = |b: ActiveBonus| b.timer > 0;
    let len = v.len();
    let mut out: Vec<ActiveBonus> = Vec::new();
    let mut i: usize = 0;
    proof {
        reveal(Seq::filter);
        assert(s0.take(0).map_values(fmap).len() == 0);
        assert(out@ =~= s0.take(0).map_values(fmap).filter(fpred));
    }
    while i < len
        invariant
            i <= len,
            len == s0.len(),
            v@ == s0,
            fmap == (|b: ActiveBonus| ticked(b, dt)),
            fpred == (|b: ActiveBonus| b.timer > 0),
            out@ == s0.take(i as int).map_values(fmap).filter(fpred),
        decreases len - i,
    {
        let b = v[i];
        let nt = if b.timer > dt {
            b.timer - dt
        } else {
            0
        };
        proof {
            reveal(Seq::filter);
            let m1 = s0.take(i + 1).map_values(fmap);
            assert(m1.drop_last() =~= s0.take(i as int).map_values(fmap));
            assert(m1.last() == ticked(s0[i as int], dt));
        }
        if nt > 0 {
            out.push(ActiveBonus { kind: b.kind, timer: nt });
            assert(out@.last() == ticked(s0[i as int], dt));
        }
        assert(out@ =~= s0.take(i + 1).map_values(fmap).filter(fpred));
        i += 1;
    }
    assert(s0.take(len as int) =~= s0);
    *v = out;
    proof {
        broadcast use vstd::seq_lib::group_filter_ensures;

    }
}

} // verus!
