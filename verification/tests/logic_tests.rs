use repercussion::components::{
    choose_animation, Climber, Demon, DemonHolder, DemonKind, Drill, HolderActions,
};
use repercussion::draw_batch::DrawBatch;
use repercussion::game::{dedup_ids, game_input_plan, menu_next_screen, GameInputPlan, UiAction};
use repercussion::game_state::{
    light_pass_plan, options_compatible, shader_replacements, versions_compatible, MaterialKind,
    NextScreen, Version,
};
use repercussion::tiles::TileKind;

#[test]
fn demon_amounts_and_breeding() {
    assert_eq!(DemonKind::Demon1.get_amount(), 50);
    assert_eq!(DemonKind::Demon2.get_amount(), 100);
    assert_eq!(DemonKind::Demon3.get_amount(), 200);
    assert_eq!(DemonKind::Demon2.mate_with(DemonKind::Demon3), DemonKind::Demon2);
    let d = Demon::new(DemonKind::Demon3, true);
    assert_eq!(d.kind, DemonKind::Demon3);
    assert!(d.picked_up);
}

#[test]
fn drill_direction_priority() {
    let mut d = Drill::new();
    assert!(!d.wants_drill());
    assert_eq!(d.direction(), None);
    d.want_down = true;
    assert_eq!(d.direction(), Some((0, 1)));
    d.want_up = true;
    assert_eq!(d.direction(), Some((0, -1)));
    d.want_right = true;
    assert_eq!(d.direction(), Some((1, 0)));
    d.want_left = true;
    assert_eq!(d.direction(), Some((-1, 0)));
    assert!(d.wants_drill());
}

#[test]
fn holder_swaps_demons() {
    let mut h = DemonHolder::new();
    h.demon = Some(7);
    h.want_pickup = true;
    h.want_eat = true;
    let a = h.step(Some(3));
    assert_eq!(a, HolderActions { pick_up: Some(3), drop: Some(7), eat: None, play_sound: true });
    assert_eq!(h.demon, None);
}

#[test]
fn holder_eats_and_idles() {
    let mut h = DemonHolder::new();
    h.demon = Some(7);
    h.want_eat = true;
    let a = h.step(Some(3));
    assert_eq!(a, HolderActions { pick_up: None, drop: None, eat: Some(7), play_sound: false });
    assert_eq!(h.demon, None);

    let mut h = DemonHolder::new();
    h.demon = Some(9);
    let a = h.step(Some(3));
    assert_eq!(a, HolderActions { pick_up: None, drop: None, eat: None, play_sound: false });
    assert_eq!(h.demon, Some(9));

    let mut h = DemonHolder::new();
    h.want_pickup = true;
    let a = h.step(None);
    assert_eq!(a, HolderActions { pick_up: None, drop: None, eat: None, play_sound: false });
}

#[test]
fn climbing_on_supports() {
    let mut c = Climber::new();
    assert!(!c.climbing);
    c.update(TileKind::Support);
    assert!(c.climbing);
    c.update(TileKind::Empty);
    assert!(!c.climbing);
}

#[test]
fn animations() {
    let mut d = Drill::new();
    assert_eq!(choose_animation(Some(d), false, true, true), ("MoveRight", true));
    assert_eq!(choose_animation(Some(d), true, false, false), ("StandCarryLeft", false));
    assert_eq!(choose_animation(None, true, true, false), ("MoveCarryLeft", true));
    assert_eq!(choose_animation(None, false, false, true), ("StandRight", false));
    d.want_up = true;
    assert_eq!(choose_animation(Some(d), false, true, true), ("DrillUp", false));
    assert_eq!(choose_animation(Some(d), true, true, true), ("MoveCarryRight", true));
    d.want_left = true;
    assert_eq!(choose_animation(Some(d), false, false, true), ("DrillLeft", false));
}

#[test]
fn menu_flow() {
    assert_eq!(menu_next_screen(Some(UiAction::Start)), Some(NextScreen::Game));
    assert_eq!(menu_next_screen(Some(UiAction::Quit)), Some(NextScreen::Quit));
    assert_eq!(menu_next_screen(Some(UiAction::MainMenu)), None);
    assert_eq!(menu_next_screen(None), None);
}

#[test]
fn game_input_flow() {
    let open = GameInputPlan { open_in_game_menu: true, save_map: false, clear_controls_if_closed: false, next: None };
    assert_eq!(game_input_plan(false, true, None, None), open);
    assert_eq!(game_input_plan(false, false, Some(NextScreen::InGameMenu), None), open);
    assert_eq!(
        game_input_plan(false, false, Some(NextScreen::Quit), None),
        GameInputPlan { open_in_game_menu: false, save_map: false, clear_controls_if_closed: false, next: Some(NextScreen::Quit) }
    );
    assert_eq!(
        game_input_plan(true, true, None, Some(UiAction::MainMenu)),
        GameInputPlan { open_in_game_menu: false, save_map: true, clear_controls_if_closed: false, next: Some(NextScreen::Menu) }
    );
    assert_eq!(
        game_input_plan(true, false, None, Some(UiAction::Start)),
        GameInputPlan { open_in_game_menu: false, save_map: false, clear_controls_if_closed: true, next: None }
    );
}

#[test]
fn dead_entities_once_each() {
    assert_eq!(dedup_ids(&vec![5, 3, 5, 1, 3]), vec![1, 3, 5]);
    assert_eq!(dedup_ids(&vec![]), Vec::<u64>::new());
    let once = dedup_ids(&vec![9, 2, 2]);
    assert_eq!(dedup_ids(&once), once);
}

#[test]
fn materials() {
    assert_eq!(i32::from(MaterialKind::Default), 0);
    assert_eq!(i32::from(MaterialKind::Lit), 1);
    assert_eq!(i32::from(MaterialKind::NumMaterials), 2);
    assert_eq!(shader_replacements(), vec![("DEFAULT_MATERIAL", "0"), ("LIT_MATERIAL", "1")]);
}

#[test]
fn option_versions() {
    let v = Version { major: 1, minor: 2, patch: 3 };
    assert!(versions_compatible(v, Some(Version { major: 1, minor: 2, patch: 0 })));
    assert!(!versions_compatible(v, Some(Version { major: 1, minor: 3, patch: 3 })));
    assert!(!versions_compatible(v, None));
    assert_eq!(options_compatible("1.2.3", Some(Version { major: 1, minor: 2, patch: 9 })), Some(true));
    assert_eq!(options_compatible("0.1.0", Some(Version { major: 1, minor: 2, patch: 9 })), Some(false));
    assert_eq!(options_compatible("2.0.0-beta", Some(Version { major: 2, minor: 0, patch: 1 })), Some(true));
    assert_eq!(options_compatible("not a version", Some(Version { major: 1, minor: 2, patch: 9 })), None);
}

#[test]
fn light_plan_for_default_buffer() {
    let p = light_pass_plan(1280, 720);
    assert_eq!(p.jfa_passes.len(), 11);
    assert_eq!(p.jfa_passes[0], (0, 1, 1024));
    assert_eq!(p.jfa_passes[1], (1, 0, 512));
    assert_eq!(p.jfa_passes[10], (0, 1, 1));
    assert_eq!(p.jfa_result, 1);
    assert_eq!(p.num_cascades, 7);
    assert_eq!(p.cascades.len(), 7);
    assert_eq!(p.cascades[0], (0, 1, 6));
    assert_eq!(p.cascades[6], (0, 1, 0));
    assert_eq!(p.result, 1);

    let p = light_pass_plan(640, 360);
    assert_eq!(p.jfa_passes.len(), 10);
    assert_eq!(p.jfa_result, 0);
    assert_eq!(p.num_cascades, 6);

    let p = light_pass_plan(1, 0);
    assert_eq!(p.jfa_passes.len(), 0);
    assert_eq!(p.jfa_result, 0);
    assert_eq!(p.num_cascades, 1);
    assert_eq!(p.cascades, vec![(0, 1, 0)]);
}

#[test]
fn batches_quads_per_page() {
    let mut b: DrawBatch<u8> = DrawBatch::new();
    assert_eq!(b.num_pages(), 0);
    b.add_quad([1, 2, 3, 4], 2);
    assert_eq!(b.num_pages(), 3);
    assert!(b.page_vertices(0).is_empty());
    assert_eq!(b.page_vertices(2), &[1, 2, 3, 4]);
    assert_eq!(b.page_indices(2), &[0, 1, 2, 0, 2, 3]);
    b.add_quad([5, 6, 7, 8], 2);
    b.add_quad([9, 9, 9, 9], 0);
    assert_eq!(b.num_pages(), 3);
    assert_eq!(b.page_indices(2), &[0, 1, 2, 0, 2, 3, 4, 5, 6, 4, 6, 7]);
    assert_eq!(b.page_vertices(2), &[1, 2, 3, 4, 5, 6, 7, 8]);
    assert_eq!(b.page_indices(0), &[0, 1, 2, 0, 2, 3]);
}

#[test]
fn dead_entities_independent_of_order() {
    assert_eq!(dedup_ids(&vec![3, 1, 2]), dedup_ids(&vec![2, 3, 1, 1, 3]));
}

#[test]
fn own_options_are_readable() {
    let v = Version { major: 0, minor: 4, patch: 2 };
    assert!(versions_compatible(v, Some(v)));
    assert_eq!(options_compatible("0.4.2", Some(v)), Some(true));
}
