use core_game::board::{BoardSettings, ConfigError, ControlSettings, PlayerId, SimulationParams, SpawnEntry};
use core_game::selection::CommandBatch;
use core_game::combat::{unit_combat_system, Beam, BeamColor};
use core_game::fx::V2;
use core_game::graph::compute_supplied;
use core_game::units::{spawn_unit, Unit, UnitKind};
use core_game::world::{update_beam_effects, World};

fn board(player_count: usize, board_size: i64, spawn_interval_ms: u64) -> BoardSettings {
    BoardSettings { board_size, player_count, spawn_interval_ms }
}

fn build_world(seed: u64, b: BoardSettings) -> World {
    match World::build(SimulationParams::from_seed(seed), b, ControlSettings::default()) {
        Ok(w) => w,
        Err(_) => panic!("configuration should be accepted"),
    }
}

/// Per-player centroids in whole board units, after the given tick schedule.
fn centroids(seed: u64, ticks: usize, tick_ms: u64) -> Vec<(i64, i64)> {
    let mut w = build_world(seed, board(3, 800_000, 800));
    for _ in 0..ticks {
        w.step_tick(tick_ms);
    }
    let mut out = Vec::new();
    for p in 0..3usize {
        let mut cnt: i64 = 0;
        let mut sx: i64 = 0;
        let mut sy: i64 = 0;
        for u in w.units().iter() {
            if u.player == PlayerId(p) {
                cnt += 1;
                sx += u.pos.x;
                sy += u.pos.y;
            }
        }
        if cnt > 0 {
            out.push((sx / cnt / 1000, sy / cnt / 1000));
        } else {
            out.push((0, 0));
        }
    }
    out
}

#[test]
fn spawn_registry_matches_player_count() {
    let w = build_world(42, board(3, 1_600_000, 1000));
    assert_eq!(w.spawn_registry().len(), 3);
}

#[test]
fn rts_spawns_are_deterministic() {
    let baseline = centroids(42, 120, 500);
    let repeat = centroids(42, 120, 500);
    assert_eq!(baseline, repeat, "same seed should match");

    let different = centroids(7, 120, 500);
    assert_ne!(baseline, different, "different seeds should diverge");
}

#[test]
fn initial_units_stand_beside_their_anchors() {
    // Two players on a 1600-unit board: anchors at (+-560, 0), two units
    // each at anchor +- (18, 0), rallying to the anchor.
    let w = build_world(42, board(2, 1_600_000, 1000));
    let reg = w.spawn_registry();
    assert_eq!(reg[0].position, V2 { x: 560_000, y: 0 });
    assert_eq!(reg[1].position, V2 { x: -560_000, y: 0 });
    let us = w.units();
    assert_eq!(us.len(), 4);
    assert_eq!(us[0].pos, V2 { x: 578_000, y: 0 });
    assert_eq!(us[1].pos, V2 { x: 542_000, y: 0 });
    assert_eq!(us[2].pos, V2 { x: -542_000, y: 0 });
    assert_eq!(us[3].pos, V2 { x: -578_000, y: 0 });
    for u in us.iter() {
        assert_eq!(u.health, 45_000);
        assert_eq!(u.max_health, 45_000);
        let anchor = if u.player == PlayerId(0) { reg[0].position } else { reg[1].position };
        assert_eq!(u.rally_target, anchor);
    }
    // One tick leaves all four alive (nobody is in laser range).
    let mut w2 = w;
    w2.step_tick(33);
    assert_eq!(w2.units().len(), 4);
}

#[test]
fn world_starts_with_two_units_per_player_and_three_pylons() {
    for n in 2..=8usize {
        let w = build_world(9, board(n, 1_600_000, 1000));
        assert_eq!(w.spawn_registry().len(), n);
        assert_eq!(w.units().len(), 2 * n);
        assert_eq!(w.pylons().len(), 3);
        for p in w.pylons().iter() {
            assert!(1_000 <= p.mass && p.mass <= 2_000);
        }
    }
}

#[test]
fn config_rejections_name_the_field() {
    let params = SimulationParams::from_seed(1);
    let ctl = ControlSettings::default();
    assert_eq!(
        World::build(params, board(1, 1_600_000, 1000), ctl).err(),
        Some(ConfigError::BadPlayerCount)
    );
    assert_eq!(
        World::build(params, board(9, 1_600_000, 1000), ctl).err(),
        Some(ConfigError::BadPlayerCount)
    );
    assert_eq!(
        World::build(params, board(4, 1_600_000, 0), ctl).err(),
        Some(ConfigError::BadSpawnInterval)
    );
    let bad_delta = SimulationParams { seed: 1, fixed_delta_ms: 0 };
    assert_eq!(
        World::build(bad_delta, board(4, 1_600_000, 1000), ctl).err(),
        Some(ConfigError::BadFixedDelta)
    );
    assert_eq!(
        World::build(params, board(4, 0, 1000), ctl).err(),
        Some(ConfigError::BadBoardSize)
    );
    assert!(World::build(params, board(4, 1_600_000, 1000), ctl).is_ok());
}

#[test]
fn health_stays_within_bounds_over_a_fight() {
    let mut w = build_world(42, board(2, 300_000, 500));
    for _ in 0..200 {
        w.step_tick(100);
        for u in w.units().iter() {
            assert!(0 <= u.health && u.health <= u.max_health);
            assert_eq!(u.max_health, 45_000);
        }
    }
}

#[test]
fn out_of_range_enemy_is_never_fired_at() {
    // A unit at the origin and a lone enemy 300 units away: beyond laser
    // range, so no shot ever lands.
    let mut units = vec![
        spawn_unit(PlayerId(0), V2 { x: 0, y: 0 }, V2 { x: 0, y: 0 }, 0),
        spawn_unit(PlayerId(1), V2 { x: 300_000, y: 0 }, V2 { x: 300_000, y: 0 }, 1),
    ];
    let entries = Vec::new();
    let pylons: Vec<V2> = Vec::new();
    let mut beams: Vec<Beam> = Vec::new();
    for _ in 0..10 {
        unit_combat_system(&mut units, &entries, &pylons, &mut beams, 700);
    }
    assert_eq!(units.len(), 2);
    assert_eq!(units[0].health, 45_000);
    assert_eq!(units[1].health, 45_000);
    assert!(beams.is_empty());
}

#[test]
fn in_range_enemy_takes_six_damage_per_cooldown() {
    // Move the enemy to 200 units: each elapsed cooldown deals exactly 6
    // damage (both units fire, being each other's nearest enemy).
    let mut units = vec![
        spawn_unit(PlayerId(0), V2 { x: 0, y: 0 }, V2 { x: 0, y: 0 }, 0),
        spawn_unit(PlayerId(1), V2 { x: 200_000, y: 0 }, V2 { x: 200_000, y: 0 }, 1),
    ];
    let entries = Vec::new();
    let pylons: Vec<V2> = Vec::new();
    let mut beams: Vec<Beam> = Vec::new();
    unit_combat_system(&mut units, &entries, &pylons, &mut beams, 700);
    assert_eq!(units[0].health, 45_000 - 6_000);
    assert_eq!(units[1].health, 45_000 - 6_000);
    assert_eq!(beams.len(), 2);
    assert!(beams.iter().all(|b| b.color == BeamColor::Red && b.remaining_ms == 150));

    // Half a cooldown passes: no shot.
    unit_combat_system(&mut units, &entries, &pylons, &mut beams, 350);
    assert_eq!(units[0].health, 39_000);
    // The second half elapses: the next shot fires.
    unit_combat_system(&mut units, &entries, &pylons, &mut beams, 350);
    assert_eq!(units[0].health, 33_000);
    assert_eq!(units[1].health, 33_000);
}

#[test]
fn shots_never_hit_the_firers_own_player() {
    let mut units = vec![
        spawn_unit(PlayerId(0), V2 { x: 0, y: 0 }, V2 { x: 0, y: 0 }, 0),
        spawn_unit(PlayerId(0), V2 { x: 50_000, y: 0 }, V2 { x: 50_000, y: 0 }, 1),
        spawn_unit(PlayerId(1), V2 { x: 150_000, y: 0 }, V2 { x: 150_000, y: 0 }, 2),
    ];
    let entries = Vec::new();
    let pylons: Vec<V2> = Vec::new();
    let mut beams: Vec<Beam> = Vec::new();
    unit_combat_system(&mut units, &entries, &pylons, &mut beams, 700);
    // The two player-0 units both hit the lone enemy; the enemy hits the
    // nearer of the two; nobody hits a unit of their own player.
    assert_eq!(units[0].health, 45_000);
    assert_eq!(units[1].health, 45_000 - 6_000);
    assert_eq!(units[2].health, 45_000 - 12_000);
}

#[test]
fn support_requires_an_anchored_component() {
    // Two player-0 units 80 apart are adjacent; whether they are supplied
    // depends on the anchor alone.
    let mk_units = || {
        vec![
            Unit {
                id: 0,
                player: PlayerId(0),
                pos: V2 { x: 0, y: 0 },
                rally_target: V2 { x: 0, y: 0 },
                kind: UnitKind::Laser,
                health: 40_000,
                max_health: 45_000,
                attack_elapsed_ms: 0,
                velocity: V2 { x: 0, y: 0 },
                base_color: 0,
            },
            Unit {
                id: 1,
                player: PlayerId(0),
                pos: V2 { x: 80_000, y: 0 },
                rally_target: V2 { x: 80_000, y: 0 },
                kind: UnitKind::Laser,
                health: 40_000,
                max_health: 45_000,
                attack_elapsed_ms: 0,
                velocity: V2 { x: 0, y: 0 },
                base_color: 0,
            },
        ]
    };

    // Anchor too far from either unit: nobody is supplied, nobody heals.
    let far_anchor = vec![SpawnEntry { player: PlayerId(0), position: V2 { x: 500_000, y: 0 } }];
    let units = mk_units();
    let sup = compute_supplied(&units, &far_anchor);
    assert_eq!(sup, vec![false, false]);
    let mut fighting = mk_units();
    let mut beams: Vec<Beam> = Vec::new();
    unit_combat_system(&mut fighting, &far_anchor, &Vec::new(), &mut beams, 100);
    assert_eq!(fighting[0].health, 40_000);
    assert_eq!(fighting[1].health, 40_000);

    // Anchor within heal range of one unit: the component floods to both,
    // and each heals by its one connection for the tick.
    let near_anchor = vec![SpawnEntry { player: PlayerId(0), position: V2 { x: 100_000, y: 0 } }];
    let units2 = mk_units();
    let sup2 = compute_supplied(&units2, &near_anchor);
    assert_eq!(sup2, vec![true, true]);
    let mut healing = mk_units();
    let mut beams2: Vec<Beam> = Vec::new();
    unit_combat_system(&mut healing, &near_anchor, &Vec::new(), &mut beams2, 100);
    assert_eq!(healing[0].health, 40_100);
    assert_eq!(healing[1].health, 40_100);
    // The support link beam between the two units was emitted, in green.
    assert!(beams2.iter().any(|b| b.color == BeamColor::Green));
}

#[test]
fn supplied_set_grows_when_an_edge_is_added() {
    let anchor = vec![SpawnEntry { player: PlayerId(0), position: V2 { x: 0, y: 0 } }];
    let mk = |x: i64| {
        vec![
            spawn_unit(PlayerId(0), V2 { x: 0, y: 0 }, V2 { x: 0, y: 0 }, 0),
            spawn_unit(PlayerId(0), V2 { x, y: 0 }, V2 { x, y: 0 }, 1),
        ]
    };
    // Too far: no edge, the second unit is unsupplied.
    let apart = mk(200_000);
    assert_eq!(compute_supplied(&apart, &anchor), vec![true, false]);
    // Moving it closer adds the edge; the supplied set only grew.
    let close = mk(140_000);
    assert_eq!(compute_supplied(&close, &anchor), vec![true, true]);
}

#[test]
fn beams_expire_within_their_lifetime() {
    let mk = |remaining_ms: u64| Beam {
        start: V2 { x: 0, y: 0 },
        end: V2 { x: 1_000, y: 0 },
        color: BeamColor::Red,
        thickness: 4_000,
        remaining_ms,
    };
    let mut beams = vec![mk(150), mk(40)];
    update_beam_effects(&mut beams, 100);
    assert_eq!(beams.len(), 1);
    assert_eq!(beams[0].remaining_ms, 50);
    update_beam_effects(&mut beams, 100);
    assert!(beams.is_empty());

    // A frame as long as the whole lifetime clears every beam at once.
    let mut fresh = vec![mk(150), mk(150)];
    update_beam_effects(&mut fresh, 150);
    assert!(fresh.is_empty());
}

#[test]
fn advance_drains_the_accumulator_deterministically() {
    let run = |seed: u64| {
        let mut w = build_world(seed, board(2, 800_000, 900));
        for _ in 0..40 {
            w.advance(100, &CommandBatch::default());
        }
        (w.tick_count(), w.units().clone())
    };
    let (t1, u1) = run(42);
    let (t2, u2) = run(42);
    // 40 frames of 100 ms at the default 33 ms step: 121 ticks.
    assert_eq!(t1, 121);
    assert_eq!(t1, t2);
    assert_eq!(u1, u2);
}

#[test]
fn pylon_boost_raises_damage_and_colours_links() {
    // Two supplied player-0 units (anchored, adjacent, both within pylon
    // range) and one enemy in laser range of both.
    let entries = vec![SpawnEntry { player: PlayerId(0), position: V2 { x: 0, y: 0 } }];
    let pylons = vec![V2 { x: 40_000, y: 0 }];
    let mut units = vec![
        spawn_unit(PlayerId(0), V2 { x: 0, y: 0 }, V2 { x: 0, y: 0 }, 0),
        spawn_unit(PlayerId(0), V2 { x: 80_000, y: 0 }, V2 { x: 80_000, y: 0 }, 1),
        spawn_unit(PlayerId(1), V2 { x: 200_000, y: 0 }, V2 { x: 200_000, y: 0 }, 2),
    ];
    let mut beams: Vec<Beam> = Vec::new();
    unit_combat_system(&mut units, &entries, &pylons, &mut beams, 700);
    // Each supplied shooter has one connection and a component bonus of
    // 0.04 per boosted member, two members boosted: damage is
    // 6 * (1 + 0.05 + 0.08) = 6.78 per shot, and two shots landed.
    assert_eq!(units[2].health, 45_000 - 2 * 6_780);
    // The enemy's own shot at the nearer unit is plain 6 damage.
    assert_eq!(units[1].health, 45_000 - 6_000);
    // The support link is cyan (pylon-active component), the pylon links
    // are blue, and the shots are red.
    assert!(beams.iter().any(|b| b.color == BeamColor::Cyan));
    assert!(beams.iter().filter(|b| b.color == BeamColor::Blue).count() == 2);
    assert!(beams.iter().filter(|b| b.color == BeamColor::Red).count() == 3);
    assert!(beams.iter().all(|b| b.remaining_ms == 150));
}

#[test]
fn commands_steer_selected_units_through_advance() {
    // Drive the public frame interface: drag a box around player 0's two
    // units, order them to a far point, and watch them move toward it.
    let mut w = build_world(42, board(2, 1_600_000, 120_000));
    let press = CommandBatch {
        cursor_world: Some(V2 { x: 500_000, y: -100_000 }),
        left_just_pressed: true,
        left_down: true,
        left_just_released: false,
        right_just_pressed: false,
    };
    let release = CommandBatch {
        cursor_world: Some(V2 { x: 700_000, y: 100_000 }),
        left_just_pressed: false,
        left_down: true,
        left_just_released: true,
        right_just_pressed: false,
    };
    let order = CommandBatch {
        cursor_world: Some(V2 { x: 0, y: 400_000 }),
        left_just_pressed: false,
        left_down: false,
        left_just_released: false,
        right_just_pressed: true,
    };
    w.advance(10, &press);
    w.advance(10, &release);
    assert_eq!(w.selected_units().len(), 2);
    w.advance(10, &order);
    let ordered: Vec<&Unit> =
        w.units().iter().filter(|u| u.player == PlayerId(0)).collect();
    assert_eq!(ordered[0].rally_target, V2 { x: 0, y: 400_000 });
    assert_eq!(ordered[1].rally_target, V2 { x: 60_000, y: 400_000 });
    let before = ordered[0].pos;
    for _ in 0..30 {
        w.advance(100, &CommandBatch::default());
    }
    let after: Vec<&Unit> =
        w.units().iter().filter(|u| u.player == PlayerId(0)).collect();
    // The ordered units moved toward the rally point (upward).
    assert!(after[0].pos.y > before.y);
}
