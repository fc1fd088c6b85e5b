use core_game::board::PlayerId;
use core_game::formation::compute_formation_offsets;
use core_game::fx::V2;
use core_game::regression::{sample_combat_roll, DEFAULT_SEED};
use core_game::rng::SimulationRng;
use core_game::selection::{handle_selection_input, issue_move_orders, CommandBatch, SelectionState};
use core_game::units::spawn_unit;

fn press_at(x: i64, y: i64) -> CommandBatch {
    CommandBatch {
        cursor_world: Some(V2 { x, y }),
        left_just_pressed: true,
        left_down: true,
        left_just_released: false,
        right_just_pressed: false,
    }
}

fn release_at(x: i64, y: i64) -> CommandBatch {
    CommandBatch {
        cursor_world: Some(V2 { x, y }),
        left_just_pressed: false,
        left_down: true,
        left_just_released: true,
        right_just_pressed: false,
    }
}

fn right_at(x: i64, y: i64) -> CommandBatch {
    CommandBatch {
        cursor_world: Some(V2 { x, y }),
        left_just_pressed: false,
        left_down: false,
        left_just_released: false,
        right_just_pressed: true,
    }
}

#[test]
fn click_on_nothing_clears_the_selection() {
    let units = vec![
        spawn_unit(PlayerId(0), V2 { x: 30_000, y: 30_000 }, V2 { x: 0, y: 0 }, 10),
        spawn_unit(PlayerId(0), V2 { x: 70_000, y: 70_000 }, V2 { x: 0, y: 0 }, 11),
    ];
    let mut sel = SelectionState::default();
    sel.selected = vec![10];

    // Drag from (0,0) to (1,1): squared delta 2 < 16, a click, and no unit
    // lies in the padded box, so the selection is cleared.
    handle_selection_input(&mut sel, &units, PlayerId(0), &press_at(0, 0));
    handle_selection_input(&mut sel, &units, PlayerId(0), &release_at(1_000, 1_000));
    assert!(sel.selected.is_empty());
    assert_eq!(sel.prev_selected, vec![10]);
    assert!(sel.dirty);
}

#[test]
fn drag_selects_covered_units_and_orders_form_up() {
    let mut units = vec![
        spawn_unit(PlayerId(0), V2 { x: 30_000, y: 30_000 }, V2 { x: 0, y: 0 }, 10),
        spawn_unit(PlayerId(0), V2 { x: 70_000, y: 70_000 }, V2 { x: 0, y: 0 }, 11),
        spawn_unit(PlayerId(1), V2 { x: 50_000, y: 50_000 }, V2 { x: 0, y: 0 }, 12),
    ];
    let mut sel = SelectionState::default();

    // Drag a box over everything: only the local player's two units enter
    // the selection, in store order.
    handle_selection_input(&mut sel, &units, PlayerId(0), &press_at(0, 0));
    handle_selection_input(&mut sel, &units, PlayerId(0), &release_at(100_000, 100_000));
    assert_eq!(sel.selected, vec![10, 11]);

    // Right-press at (500, 0): the first selected unit rallies to the cursor
    // itself, the second to the first ring slot at angle zero, 60 units out.
    issue_move_orders(&mut units, &sel, &right_at(500_000, 0));
    assert_eq!(units[0].rally_target, V2 { x: 500_000, y: 0 });
    assert_eq!(units[1].rally_target, V2 { x: 560_000, y: 0 });
    assert_eq!(units[2].rally_target, V2 { x: 0, y: 0 });
}

#[test]
fn selection_prunes_dead_units() {
    let units = vec![spawn_unit(PlayerId(0), V2 { x: 0, y: 0 }, V2 { x: 0, y: 0 }, 10)];
    let mut sel = SelectionState::default();
    sel.selected = vec![10, 99];
    handle_selection_input(&mut sel, &units, PlayerId(0), &CommandBatch::default());
    assert_eq!(sel.selected, vec![10]);
}

#[test]
fn formation_offsets_follow_the_ring_layout() {
    // Seven offsets: the centre, then six slots at radius 60 at sixths of a
    // turn (the model's integer sine is exact at 0, 30, 60 and 90 degrees up
    // to rounding toward zero).
    let offs = compute_formation_offsets(7);
    assert_eq!(offs.len(), 7);
    assert_eq!(offs[0], V2 { x: 0, y: 0 });
    assert_eq!(offs[1], V2 { x: 60_000, y: 0 });
    assert_eq!(offs[2], V2 { x: 30_000, y: 51_840 });
    assert_eq!(offs[3], V2 { x: -30_000, y: 51_840 });
    assert_eq!(offs[4], V2 { x: -60_000, y: 0 });
    assert_eq!(offs[5], V2 { x: -30_000, y: -51_840 });
    assert_eq!(offs[6], V2 { x: 30_000, y: -51_840 });
    // Every ring-one offset has length 60 up to fixed-point rounding.
    for k in 1..7 {
        let d2 = offs[k].x * offs[k].x + offs[k].y * offs[k].y;
        assert!(3_500_000_000 <= d2 && d2 <= 3_600_000_000);
    }

    // Determinism: the same count always yields the same offsets, and the
    // first element of any non-empty formation is the centre.
    assert_eq!(compute_formation_offsets(7), offs);
    assert_eq!(compute_formation_offsets(0).len(), 0);
    assert_eq!(compute_formation_offsets(1), vec![V2 { x: 0, y: 0 }]);
    // The eighth offset opens ring two at radius 120.
    let more = compute_formation_offsets(8);
    assert_eq!(more[7], V2 { x: 120_000, y: 0 });
}

#[test]
fn roll_is_deterministic() {
    let a = sample_combat_roll(DEFAULT_SEED);
    let b = sample_combat_roll(DEFAULT_SEED);
    assert_eq!(a, b);
    assert!(1 <= a.roll && a.roll <= 20);
    assert_eq!(a.seed, DEFAULT_SEED);
}

#[test]
fn seeded_streams_are_reproducible() {
    let mut a = SimulationRng::new(42);
    let mut b = SimulationRng::new(42);
    let mut c = SimulationRng::new(7);
    let mut all_equal = true;
    let mut any_diff = false;
    for _ in 0..64 {
        let x = a.next_u64();
        let y = b.next_u64();
        let z = c.next_u64();
        all_equal = all_equal && x == y;
        any_diff = any_diff || x != z;
    }
    assert!(all_equal, "same seed must yield identical draws");
    assert!(any_diff, "different seeds should diverge");
    let mut d = SimulationRng::new(3);
    for _ in 0..100 {
        let v = d.gen_range(5, 9);
        assert!(5 <= v && v <= 9);
        let f = d.gen_fx(-20_000, 20_000);
        assert!(-20_000 <= f && f <= 20_000);
    }
}
