use repercussion::map::{drill_tile, explode_tile, place_building, Building, Wallet, DRILL_DAMAGE, SUPPORT_COST};
use repercussion::tiles::{TileKind, Tiles, FALL_STEP, TILE_HEIGHT, TILE_MAX_HEALTH};

fn rock(support: i32) -> TileKind {
    TileKind::Rock { health: TILE_MAX_HEALTH, support, intrinsic_support: false, height: 0 }
}

const B: TileKind = TileKind::Border;
const E: TileKind = TileKind::Empty;

/// A 7 by 4 map: a frame, a row of rock over a row of air.
fn ledge(under_middle: TileKind) -> Tiles {
    let r = rock(0);
    let tiles = vec![
        B, B, B, B, B, B, B, //
        B, r, r, r, r, r, B, //
        B, E, E, under_middle, E, E, B, //
        B, B, B, B, B, B, B,
    ];
    Tiles { tiles, width: 7, height: 4 }
}

#[test]
fn new_map_layout() {
    let t = Tiles::new(16, 16);
    assert_eq!(t.width, 16);
    assert_eq!(t.height, 16);
    assert_eq!(t.tiles.len(), 256);
    assert_eq!(t.get_tile_kind(0, 0), TileKind::Border);
    assert_eq!(t.get_tile_kind(15, 3), TileKind::Border);
    assert_eq!(t.get_tile_kind(8, 15), TileKind::Grinder);
    assert_eq!(t.get_tile_kind(7, 15), TileKind::Border);
    assert_eq!(t.get_tile_kind(10, 10), TileKind::Empty);
    assert_eq!(t.get_tile_kind(10, 9), TileKind::Empty);
    assert_eq!(t.get_tile_kind(1, 10), TileKind::Empty);
    assert_eq!(t.get_tile_kind(0, 10), TileKind::Border);
    assert_eq!(t.get_tile_kind(5, 5), rock(0));
    assert_eq!(t.get_tile_kind(10, 4), rock(0));
    let held = TileKind::Rock { health: TILE_MAX_HEALTH, support: 0, intrinsic_support: true, height: 0 };
    assert_eq!(t.get_tile_kind(10, 5), held);
    assert_eq!(t.get_tile_kind(3, 9), held);
}

#[test]
fn tile_lookup_outside_is_empty() {
    let t = Tiles::new(4, 3);
    assert_eq!(t.get_tile_idx(3, 2), Some(11));
    assert_eq!(t.get_tile_idx(4, 0), None);
    assert_eq!(t.get_tile_idx(-1, 0), None);
    assert_eq!(t.get_tile_kind(-1, 0), TileKind::Empty);
    assert_eq!(t.get_tile_kind(0, 3), TileKind::Empty);
}

#[test]
fn tile_kind_mut_writes_through() {
    let mut t = Tiles::new(4, 3);
    if let Some(tile) = t.get_tile_kind_mut(1, 1) {
        *tile = TileKind::Torch;
    }
    assert_eq!(t.get_tile_kind(1, 1), TileKind::Torch);
    assert!(t.get_tile_kind_mut(9, 9).is_none());
}

#[test]
fn solid_kinds() {
    assert!(rock(0).is_solid());
    assert!(TileKind::Border.is_solid());
    assert!(TileKind::Grinder.is_solid());
    assert!(!TileKind::Empty.is_solid());
    assert!(!TileKind::Torch.is_solid());
    assert!(!TileKind::Support.is_solid());
    assert!(!TileKind::Jaunter.is_solid());
}

#[test]
fn frames_and_heights() {
    assert_eq!(TileKind::Empty.get_frame_and_height(0), (0, 0));
    assert_eq!(TileKind::Border.get_frame_and_height(0), (1, 0));
    assert_eq!(rock(0).get_frame_and_height(0), (1, 0));
    let half = TileKind::Rock { health: TILE_MAX_HEALTH / 2, support: 0, intrinsic_support: false, height: 7 };
    assert_eq!(half.get_frame_and_height(0), (3, 7));
    let broken = TileKind::Rock { health: 0, support: 0, intrinsic_support: false, height: 0 };
    assert_eq!(broken.get_frame_and_height(0), (4, 0));
    assert_eq!(TileKind::Torch.get_frame_and_height(3), (5, 0));
    assert_eq!(TileKind::Support.get_frame_and_height(3), (6, 0));
    assert_eq!(TileKind::Grinder.get_frame_and_height(4), (7, 0));
    assert_eq!(TileKind::Grinder.get_frame_and_height(5), (8, 0));
    assert_eq!(TileKind::Jaunter.get_frame_and_height(4), (9, 0));
    assert_eq!(TileKind::Jaunter.get_frame_and_height(7), (10, 0));
}

#[test]
fn unsupported_rock_collapses() {
    let mut t = ledge(E);
    let events = t.logic();
    assert_eq!(events.collapsed, vec![(3, 2)]);
    assert_eq!(events.landed, vec![]);
    assert_eq!(t.get_tile_kind(1, 1), rock(2));
    assert_eq!(t.get_tile_kind(2, 1), rock(1));
    assert_eq!(t.get_tile_kind(3, 1), TileKind::Empty);
    assert_eq!(t.get_tile_kind(4, 1), rock(1));
    assert_eq!(t.get_tile_kind(5, 1), rock(2));
    let falling = TileKind::Rock {
        health: TILE_MAX_HEALTH,
        support: 0,
        intrinsic_support: false,
        height: TILE_HEIGHT - FALL_STEP,
    };
    assert_eq!(t.get_tile_kind(3, 2), falling);
}

#[test]
fn support_holds_rock() {
    let mut t = ledge(TileKind::Support);
    let events = t.logic();
    assert!(events.collapsed.is_empty());
    assert_eq!(t.get_tile_kind(3, 2), TileKind::Support);
    assert_eq!(t.get_tile_kind(3, 1), rock(3));
    assert_eq!(t.get_tile_kind(2, 1), rock(2));
    assert_eq!(t.get_tile_kind(4, 1), rock(2));
    for x in 0..7 {
        assert_eq!(t.get_tile_kind(x, 0), TileKind::Border);
        assert_eq!(t.get_tile_kind(x, 3), TileKind::Border);
    }
}

#[test]
fn falling_rock_lands_and_broken_rock_crumbles() {
    let landing = TileKind::Rock { health: 10, support: 2, intrinsic_support: false, height: FALL_STEP / 2 };
    let broken = TileKind::Rock { health: -1, support: 3, intrinsic_support: true, height: 0 };
    let tiles = vec![B, B, B, B, landing, B, B, broken, B, B, B, B];
    let mut t = Tiles { tiles, width: 3, height: 4 };
    let events = t.logic();
    assert_eq!(events.landed, vec![(1, 1)]);
    assert!(events.collapsed.is_empty());
    assert_eq!(
        t.get_tile_kind(1, 1),
        TileKind::Rock { health: 10, support: 3, intrinsic_support: false, height: 0 }
    );
    assert_eq!(t.get_tile_kind(1, 2), TileKind::Empty);
}

#[test]
fn jaunters_cycle_in_index_order() {
    let mut t = Tiles::new(5, 5);
    for (x, y) in [(1, 1), (3, 1), (2, 3)] {
        *t.get_tile_kind_mut(x, y).unwrap() = TileKind::Jaunter;
    }
    assert_eq!(t.get_next_jaunter(1, 1), Some((3, 1)));
    assert_eq!(t.get_next_jaunter(3, 1), Some((2, 3)));
    assert_eq!(t.get_next_jaunter(2, 3), Some((1, 1)));
    assert_eq!(t.get_next_jaunter(2, 2), None);
    assert_eq!(t.get_next_jaunter(-3, 2), None);
}

#[test]
fn jaunter_pair_round_trip() {
    let mut t = Tiles::new(5, 5);
    *t.get_tile_kind_mut(1, 2).unwrap() = TileKind::Jaunter;
    *t.get_tile_kind_mut(3, 3).unwrap() = TileKind::Jaunter;
    let there = t.get_next_jaunter(1, 2).unwrap();
    assert_eq!(there, (3, 3));
    assert_eq!(t.get_next_jaunter(there.0, there.1), Some((1, 2)));
}

#[test]
fn lone_jaunter_goes_nowhere() {
    let mut t = Tiles::new(5, 5);
    *t.get_tile_kind_mut(1, 2).unwrap() = TileKind::Jaunter;
    assert_eq!(t.get_next_jaunter(1, 2), None);
}

#[test]
fn window_is_clipped_to_map() {
    let t = Tiles::new(3, 3);
    assert_eq!(t.tiles_in_window(0, 0, 1), vec![(0, 0), (1, 0), (0, 1), (1, 1)]);
    assert_eq!(t.tiles_in_window(1, 1, 0), vec![(1, 1)]);
    assert_eq!(t.tiles_in_window(5, 5, 1), vec![]);
    assert_eq!(t.tiles_in_window(1, 1, 5).len(), 9);
}

#[test]
fn building_costs_money_and_needs_room() {
    let mut t = Tiles::new(16, 16);
    let mut w = Wallet::new();
    assert_eq!(w.money, 100);
    assert!(place_building(&mut t, &mut w, 10, 10, Building::Torch));
    assert_eq!(w.money, 80);
    assert_eq!(w.change_amount, -20);
    assert_eq!(t.get_tile_kind(10, 10), TileKind::Torch);
    // A torch can be replaced by a support but not by a jaunter.
    assert!(!place_building(&mut t, &mut w, 10, 10, Building::Jaunter));
    assert_eq!(w.money, 80);
    assert!(place_building(&mut t, &mut w, 10, 10, Building::Support));
    assert_eq!(w.money, 70);
    assert_eq!(w.change_amount, -10);
    assert_eq!(t.get_tile_kind(10, 10), TileKind::Support);
    // Rock and places off the map take nothing.
    assert!(!place_building(&mut t, &mut w, 5, 5, Building::Torch));
    assert!(!place_building(&mut t, &mut w, 50, 5, Building::Torch));
    assert!(place_building(&mut t, &mut w, 9, 10, Building::Jaunter));
    assert_eq!(w.money, 40);
    assert_eq!(t.get_tile_kind(9, 10), TileKind::Jaunter);
}

#[test]
fn building_needs_money() {
    let mut t = Tiles::new(16, 16);
    let mut w = Wallet { money: 19, change_amount: 5 };
    assert!(!place_building(&mut t, &mut w, 10, 10, Building::Torch));
    assert_eq!(w, Wallet { money: 19, change_amount: 5 });
    assert_eq!(t.get_tile_kind(10, 10), TileKind::Empty);
}

#[test]
fn support_refund_round_trip() {
    let mut t = Tiles::new(16, 16);
    let mut w = Wallet::new();
    assert!(place_building(&mut t, &mut w, 11, 10, Building::Support));
    assert_eq!(w.money, 100 - SUPPORT_COST);
    assert!(drill_tile(&mut t, &mut w, 11, 10, true));
    assert_eq!(w.money, 100);
    assert_eq!(w.change_amount, SUPPORT_COST);
    assert_eq!(t.get_tile_kind(11, 10), TileKind::Empty);
}

#[test]
fn drilling_by_others_refunds_nothing() {
    let mut t = Tiles::new(16, 16);
    *t.get_tile_kind_mut(11, 10).unwrap() = TileKind::Support;
    let mut w = Wallet::new();
    assert!(!drill_tile(&mut t, &mut w, 11, 10, false));
    assert_eq!(w.money, 100);
    assert_eq!(t.get_tile_kind(11, 10), TileKind::Empty);
}

#[test]
fn drilling_wears_rock_and_spares_the_frame() {
    let mut t = Tiles::new(16, 16);
    let mut w = Wallet::new();
    assert!(!drill_tile(&mut t, &mut w, 5, 5, true));
    assert_eq!(t.get_tile_kind(5, 5), TileKind::Rock {
        health: TILE_MAX_HEALTH - DRILL_DAMAGE,
        support: 0,
        intrinsic_support: false,
        height: 0,
    });
    drill_tile(&mut t, &mut w, 0, 0, true);
    assert_eq!(t.get_tile_kind(0, 0), TileKind::Border);
    drill_tile(&mut t, &mut w, 8, 15, true);
    assert_eq!(t.get_tile_kind(8, 15), TileKind::Grinder);
    *t.get_tile_kind_mut(10, 10).unwrap() = TileKind::Jaunter;
    drill_tile(&mut t, &mut w, 10, 10, true);
    assert_eq!(t.get_tile_kind(10, 10), TileKind::Empty);
    assert_eq!(w.money, 100);
}

#[test]
fn drilling_saturates_health() {
    let mut t = Tiles::new(4, 4);
    *t.get_tile_kind_mut(1, 1).unwrap() =
        TileKind::Rock { health: i32::MIN + 5, support: 0, intrinsic_support: false, height: 0 };
    let mut w = Wallet::new();
    drill_tile(&mut t, &mut w, 1, 1, false);
    assert_eq!(t.get_tile_kind(1, 1), TileKind::Rock {
        health: i32::MIN,
        support: 0,
        intrinsic_support: false,
        height: 0,
    });
}

#[test]
fn explosions_break_buildings_and_hurt_rock() {
    let mut t = Tiles::new(16, 16);
    *t.get_tile_kind_mut(10, 10).unwrap() = TileKind::Torch;
    *t.get_tile_kind_mut(11, 10).unwrap() = TileKind::Support;
    *t.get_tile_kind_mut(12, 10).unwrap() = TileKind::Jaunter;
    explode_tile(&mut t, 10, 10, 100);
    explode_tile(&mut t, 11, 10, 100);
    explode_tile(&mut t, 12, 10, 100);
    explode_tile(&mut t, 5, 5, 1234);
    explode_tile(&mut t, 0, 0, 1234);
    explode_tile(&mut t, 99, 0, 1234);
    assert_eq!(t.get_tile_kind(10, 10), TileKind::Empty);
    assert_eq!(t.get_tile_kind(11, 10), TileKind::Empty);
    assert_eq!(t.get_tile_kind(12, 10), TileKind::Empty);
    assert_eq!(t.get_tile_kind(0, 0), TileKind::Border);
    assert_eq!(t.get_tile_kind(5, 5), TileKind::Rock {
        health: TILE_MAX_HEALTH - 1234,
        support: 0,
        intrinsic_support: false,
        height: 0,
    });
}

#[test]
fn grinding_pays() {
    let mut w = Wallet::new();
    w.grind();
    assert_eq!(w.money, 200);
    assert_eq!(w.change_amount, 100);
}

#[test]
fn writing_one_tile_leaves_the_rest() {
    let before = Tiles::new(16, 16);
    let mut t = before.clone();
    *t.get_tile_kind_mut(3, 4).unwrap() = TileKind::Jaunter;
    for y in 0..16 {
        for x in 0..16 {
            if (x, y) == (3, 4) {
                assert_eq!(t.get_tile_kind(x, y), TileKind::Jaunter);
            } else {
                assert_eq!(t.get_tile_kind(x, y), before.get_tile_kind(x, y));
            }
        }
    }
}

#[test]
fn new_map_settles_into_range() {
    let mut t = Tiles::new(16, 16);
    for _ in 0..50 {
        t.logic();
        for y in 0..16 {
            for x in 0..16 {
                if let TileKind::Rock { support, .. } = t.get_tile_kind(x, y) {
                    assert!((0..=3).contains(&support));
                }
                if x == 0 || y == 0 || x == 15 || (y == 15 && x != 8) {
                    assert_eq!(t.get_tile_kind(x, y), TileKind::Border);
                }
            }
        }
    }
}
