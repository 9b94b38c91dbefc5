//! Piece catalog and rotation behavior, and the bonus definitions.

use jelly_blocks::bidule::{Bidule, BiduleType, BlockColor, Point};
use jelly_blocks::bonuses::{
    bonus_duration_exec, bonus_piece_kind_exec, count_kind_exec, remove_one_of_kind,
    tick_bonuses, ActiveBonus, Bonus, BonusType, Rarity, CHILL_DURATION_MICROS,
    PERMANENT_DURATION_MICROS,
};
use jelly_blocks::special_bidule::get_special_bidule_properties;

fn all_kinds_list() -> Vec<BiduleType> {
    vec![
        BiduleType::I,
        BiduleType::O,
        BiduleType::T,
        BiduleType::S,
        BiduleType::Z,
        BiduleType::J,
        BiduleType::L,
        BiduleType::Jelly,
        BiduleType::Bomb,
        BiduleType::Laser,
        BiduleType::Drill,
        BiduleType::Anvil,
    ]
}

#[test]
fn catalog_pieces_spawn_consistently() {
    for kind in all_kinds_list() {
        let p = Bidule::new(kind);
        assert_eq!(p.kind, kind);
        assert_eq!(p.pos, Point { x: 3, y: 0 });
        assert_eq!(p.rotation_state, 0);
        assert_eq!(p.seeds.len(), p.positions.len());
        assert!(!p.positions.is_empty() && p.positions.len() <= 8);
    }
}

#[test]
fn catalog_shapes_match_their_layouts() {
    let i = Bidule::new(BiduleType::I);
    assert_eq!(
        i.positions,
        vec![
            Point { x: 0, y: 1 },
            Point { x: 1, y: 1 },
            Point { x: 2, y: 1 },
            Point { x: 3, y: 1 },
        ]
    );
    assert_eq!(i.color, BlockColor::Cyan);
    let jelly = Bidule::new(BiduleType::Jelly);
    assert_eq!(jelly.positions.len(), 6);
    assert_eq!(jelly.color, BlockColor::Pink);
    let bomb = Bidule::new(BiduleType::Bomb);
    assert_eq!(bomb.positions.len(), 5);
    let anvil = Bidule::new(BiduleType::Anvil);
    assert_eq!(anvil.positions.len(), 8);
}

#[test]
fn rotating_four_times_restores_the_offsets() {
    // P3: four 90-degree turns bring every shape back exactly — the
    // transform is pure integer arithmetic.
    for kind in all_kinds_list() {
        let mut p = Bidule::new(kind);
        let original = p.positions.clone();
        let state0 = p.rotation_state;
        for _ in 0..4 {
            p.rotate();
        }
        assert_eq!(p.positions, original, "kind {:?}", kind);
        assert_eq!(p.rotation_state, state0);
    }
}

#[test]
fn single_rotation_turns_a_three_box_shape() {
    let mut t = Bidule::new(BiduleType::T);
    t.rotate();
    // (x,y) -> (2-y, x): (1,0),(0,1),(1,1),(2,1) -> (2,1),(1,0),(1,1),(1,2)
    assert_eq!(
        t.positions,
        vec![
            Point { x: 2, y: 1 },
            Point { x: 1, y: 0 },
            Point { x: 1, y: 1 },
            Point { x: 1, y: 2 },
        ]
    );
    assert_eq!(t.rotation_state, 1);
}

#[test]
fn rotation_invariant_kinds_do_not_rotate() {
    for kind in [BiduleType::O, BiduleType::Jelly] {
        let mut p = Bidule::new(kind);
        let original = p.positions.clone();
        p.rotate();
        assert_eq!(p.positions, original);
        assert_eq!(p.rotation_state, 0);
    }
}

#[test]
fn special_properties_cover_exactly_the_special_kinds() {
    for kind in all_kinds_list() {
        let special = get_special_bidule_properties(kind);
        let expected_special = matches!(
            kind,
            BiduleType::Jelly
                | BiduleType::Bomb
                | BiduleType::Laser
                | BiduleType::Drill
                | BiduleType::Anvil
        );
        assert_eq!(special.is_some(), expected_special);
        if let Some((positions, color)) = special {
            let fresh = Bidule::new(kind);
            assert_eq!(positions, fresh.positions);
            assert_eq!(color, fresh.color);
        }
    }
}

#[test]
fn bonus_catalog_is_complete() {
    let all = Bonus::get_all();
    assert_eq!(all.len(), 9);
    assert_eq!(all[0].kind, BonusType::Bomb);
    assert_eq!(all[0].rarity, Rarity::Common);
    assert_eq!(all[5].kind, BonusType::Anvil);
    assert_eq!(all[5].rarity, Rarity::Rare);
    assert_eq!(all[8].kind, BonusType::LifeInsurance);
    assert_eq!(all[8].rarity, Rarity::Legendary);
}

#[test]
fn random_bonus_set_is_distinct_and_from_the_catalog() {
    let catalog = Bonus::get_all();
    for _ in 0..20 {
        let set = Bonus::get_random_set(3);
        assert_eq!(set.len(), 3);
        for (i, b) in set.iter().enumerate() {
            assert!(catalog.contains(b));
            for other in set.iter().skip(i + 1) {
                assert_ne!(b.kind, other.kind);
            }
        }
    }
    assert_eq!(Bonus::get_random_set(100).len(), 9);
}

#[test]
fn bonus_kinds_map_to_pieces_or_durations() {
    assert_eq!(
        bonus_piece_kind_exec(BonusType::Bomb),
        Some(BiduleType::Bomb)
    );
    assert_eq!(
        bonus_piece_kind_exec(BonusType::VerticalLaser),
        Some(BiduleType::Laser)
    );
    assert_eq!(
        bonus_piece_kind_exec(BonusType::LiquidFiller),
        Some(BiduleType::Jelly)
    );
    assert_eq!(
        bonus_piece_kind_exec(BonusType::Drill),
        Some(BiduleType::Drill)
    );
    assert_eq!(
        bonus_piece_kind_exec(BonusType::Anvil),
        Some(BiduleType::Anvil)
    );
    assert_eq!(bonus_piece_kind_exec(BonusType::Chill), None);
    assert_eq!(bonus_duration_exec(BonusType::Chill), CHILL_DURATION_MICROS);
    assert_eq!(
        bonus_duration_exec(BonusType::TimeAnchor),
        PERMANENT_DURATION_MICROS
    );
    assert_eq!(
        bonus_duration_exec(BonusType::LifeInsurance),
        PERMANENT_DURATION_MICROS
    );
}

#[test]
fn ticking_removes_expired_bonuses_only() {
    let mut ledger = vec![
        ActiveBonus {
            kind: BonusType::Chill,
            timer: 100,
        },
        ActiveBonus {
            kind: BonusType::TimeAnchor,
            timer: PERMANENT_DURATION_MICROS,
        },
    ];
    tick_bonuses(&mut ledger, 100);
    assert_eq!(ledger.len(), 1);
    assert_eq!(ledger[0].kind, BonusType::TimeAnchor);
    assert_eq!(ledger[0].timer, PERMANENT_DURATION_MICROS - 100);
}

#[test]
fn removing_one_relic_consumes_exactly_one_stack() {
    let mut ledger = vec![
        ActiveBonus {
            kind: BonusType::LifeInsurance,
            timer: PERMANENT_DURATION_MICROS,
        },
        ActiveBonus {
            kind: BonusType::GoldenPickaxe,
            timer: PERMANENT_DURATION_MICROS,
        },
        ActiveBonus {
            kind: BonusType::LifeInsurance,
            timer: PERMANENT_DURATION_MICROS,
        },
    ];
    assert_eq!(count_kind_exec(&ledger, BonusType::LifeInsurance), 2);
    assert!(remove_one_of_kind(&mut ledger, BonusType::LifeInsurance));
    assert_eq!(count_kind_exec(&ledger, BonusType::LifeInsurance), 1);
    assert_eq!(count_kind_exec(&ledger, BonusType::GoldenPickaxe), 1);
    assert!(remove_one_of_kind(&mut ledger, BonusType::LifeInsurance));
    assert!(!remove_one_of_kind(&mut ledger, BonusType::LifeInsurance));
    assert_eq!(ledger.len(), 1);
}
