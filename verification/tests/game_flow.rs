use engine::combat::{
    AoePattern, AttackDefinition, AttackId, AttackRange, DamageProfile, TargetFilter,
};
use engine::direction::Direction;
use engine::game::{Game, GameError, ProposedAction, ResolvedChange, RoundPhase};
use engine::grid::Grid;
use engine::path::Path;
use engine::position::Position;
use engine::terrain::TerrainType;
use engine::unit::{Player, PlayerId, UnitClassId, UnitId};

fn two_player_game() -> Game {
    let players = vec![
        Player { id: PlayerId(1), name: String::from("one") },
        Player { id: PlayerId(2), name: String::from("two") },
    ];
    Game::new(players, Grid::new(5, 5))
}

fn basic_attack() -> AttackDefinition {
    AttackDefinition {
        base_damage: 10,
        damage_type: DamageProfile { pierce: 0, blunt: 0, slash: 0 },
        range: AttackRange { inner_radius: 0, outer_radius: 1 },
        aoe: AoePattern::Single,
        target: TargetFilter::Enemy,
    }
}

/// Everything an observer can read of the replayable state.
fn observe(g: &Game) -> (u32, u32, RoundPhase, Vec<UnitId>, Vec<(u32, u32, usize, usize, u32)>, Vec<Option<UnitId>>) {
    let units: Vec<(u32, u32, usize, usize, u32)> = g
        .units_iter()
        .iter()
        .map(|u| (u.id.0, u.owner.0, u.position.x, u.position.y, u.health))
        .collect();
    let mut cells: Vec<Option<UnitId>> = Vec::new();
    for y in 0..5 {
        for x in 0..5 {
            cells.push(g.grid_occupant(Position::new(x, y)));
        }
    }
    (g.round_number(), g.turn_number(), g.phase(), g.queue_remaining(), units, cells)
}

#[test]
fn spawn_then_move_scenario() {
    let mut g = two_player_game();
    let c = UnitClassId(7);
    let r = g.apply_proposed(
        PlayerId(1),
        ProposedAction::Spawn { unit: c, position: Position::new(0, 0) },
    );
    assert!(matches!(r, Ok(ResolvedChange::Spawn { .. })));
    let r = g.apply_proposed(
        PlayerId(2),
        ProposedAction::Spawn { unit: c, position: Position::new(4, 4) },
    );
    assert!(matches!(r, Ok(ResolvedChange::Spawn { .. })));
    let r = g.apply_proposed(PlayerId(1), ProposedAction::EndTurn);
    assert!(matches!(r, Ok(ResolvedChange::EndTurn)));

    // The queue was built from both units; with equal speeds the lower id
    // acts first.
    assert_eq!(g.phase(), RoundPhase::UnitTurn { unit: UnitId(0) });
    assert_eq!(g.queue_remaining(), vec![UnitId(1)]);

    // A path stepping off the board is rejected and changes nothing.
    let bad = Path::new(vec![Direction::Left], Position::new(0, 0), Position::new(0, 0));
    let r = g.apply_proposed(PlayerId(1), ProposedAction::Move { path: bad });
    assert_eq!(r.unwrap_err(), GameError::InvalidPath);
    assert_eq!(g.grid_occupant(Position::new(0, 0)), Some(UnitId(0)));

    // A single step onto a vacant adjacent cell emits exactly one move and
    // updates occupancy.
    let good = Path::new(vec![Direction::Right], Position::new(0, 0), Position::new(1, 0));
    let r = g.apply_proposed(PlayerId(1), ProposedAction::Move { path: good });
    match r {
        Ok(ResolvedChange::Move { unit_id, .. }) => assert_eq!(unit_id, UnitId(0)),
        other => panic!("expected a move, got {:?}", other),
    }
    assert_eq!(g.grid_occupant(Position::new(0, 0)), None);
    assert_eq!(g.grid_occupant(Position::new(1, 0)), Some(UnitId(0)));
    assert_eq!(g.get_unit(UnitId(0)).unwrap().position, Position::new(1, 0));
}

#[test]
fn single_target_attack_kills_and_purges() {
    let mut g = two_player_game();
    g.register_attack(AttackId(1), basic_attack());
    let c = UnitClassId(7);
    g.apply_proposed(PlayerId(1), ProposedAction::Spawn { unit: c, position: Position::new(1, 1) })
        .unwrap();
    g.apply_proposed(PlayerId(2), ProposedAction::Spawn { unit: c, position: Position::new(1, 2) })
        .unwrap();
    g.apply_proposed(PlayerId(1), ProposedAction::EndTurn).unwrap();
    assert_eq!(g.phase(), RoundPhase::UnitTurn { unit: UnitId(0) });

    let r = g
        .apply_proposed(
            PlayerId(1),
            ProposedAction::Attack { target: UnitId(1), attack: AttackId(1) },
        )
        .unwrap();
    match r {
        ResolvedChange::Attack { attacker, target, attack, deltas } => {
            assert_eq!(attacker, UnitId(0));
            assert_eq!(target, UnitId(1));
            assert_eq!(attack, AttackId(1));
            assert_eq!(deltas, vec![(UnitId(1), -10)]);
        },
        other => panic!("expected an attack, got {:?}", other),
    }
    // Base health 10 minus 10 damage: the target vanishes from roster, grid
    // and queue in the same resolution.
    assert!(g.get_unit(UnitId(1)).is_none());
    assert_eq!(g.grid_occupant(Position::new(1, 2)), None);
    assert!(!g.queue_remaining().contains(&UnitId(1)));
}

#[test]
fn rejected_proposals_change_nothing() {
    let mut g = two_player_game();
    g.register_attack(AttackId(1), basic_attack());
    let c = UnitClassId(7);
    g.apply_proposed(PlayerId(1), ProposedAction::Spawn { unit: c, position: Position::new(0, 0) })
        .unwrap();
    g.apply_proposed(PlayerId(2), ProposedAction::Spawn { unit: c, position: Position::new(4, 4) })
        .unwrap();
    g.apply_proposed(PlayerId(1), ProposedAction::EndTurn).unwrap();
    let before = observe(&g);

    // Not player 2's turn.
    let bad_path = Path::new(vec![Direction::Right], Position::new(4, 4), Position::new(4, 4));
    let r = g.apply_proposed(PlayerId(2), ProposedAction::Move { path: bad_path });
    assert_eq!(r.unwrap_err(), GameError::NotYourTurn);
    assert_eq!(observe(&g), before);

    // A discontiguous path.
    let torn = Path::new(vec![Direction::Left], Position::new(0, 0), Position::new(3, 3));
    let r = g.apply_proposed(PlayerId(1), ProposedAction::Move { path: torn });
    assert_eq!(r.unwrap_err(), GameError::InvalidPath);
    assert_eq!(observe(&g), before);

    // An unknown attack id.
    let r = g.apply_proposed(
        PlayerId(1),
        ProposedAction::Attack { target: UnitId(1), attack: AttackId(99) },
    );
    assert_eq!(r.unwrap_err(), GameError::IllegalAction);
    assert_eq!(observe(&g), before);

    // An unknown target.
    let r = g.apply_proposed(
        PlayerId(1),
        ProposedAction::Attack { target: UnitId(42), attack: AttackId(1) },
    );
    assert_eq!(r.unwrap_err(), GameError::InvalidUnit);
    assert_eq!(observe(&g), before);

    // A target beyond the attack's range.
    let r = g.apply_proposed(
        PlayerId(1),
        ProposedAction::Attack { target: UnitId(1), attack: AttackId(1) },
    );
    assert_eq!(r.unwrap_err(), GameError::OutOfRange);
    assert_eq!(observe(&g), before);

    // An attack whose filter rejects the target: unit 0 is the attacker's
    // own.
    let r = g.apply_proposed(
        PlayerId(1),
        ProposedAction::Attack { target: UnitId(0), attack: AttackId(1) },
    );
    assert_eq!(r.unwrap_err(), GameError::IllegalAction);
    assert_eq!(observe(&g), before);

    // Spawning outside the spawn phase.
    let r = g.apply_proposed(
        PlayerId(1),
        ProposedAction::Spawn { unit: c, position: Position::new(2, 2) },
    );
    assert_eq!(r.unwrap_err(), GameError::NotYourTurn);
    assert_eq!(observe(&g), before);

    // An unknown player.
    let r = g.apply_proposed(PlayerId(9), ProposedAction::EndTurn);
    assert_eq!(r.unwrap_err(), GameError::NotYourTurn);
    assert_eq!(observe(&g), before);
}

#[test]
fn move_budget_is_enforced() {
    let mut g = two_player_game();
    let c = UnitClassId(7);
    g.apply_proposed(PlayerId(1), ProposedAction::Spawn { unit: c, position: Position::new(0, 0) })
        .unwrap();
    g.apply_proposed(PlayerId(1), ProposedAction::EndTurn).unwrap();
    // Six ground steps cost six, one over the movement budget.
    let long = Path::new(
        vec![
            Direction::Right,
            Direction::Right,
            Direction::Right,
            Direction::Right,
            Direction::UpRight,
            Direction::UpRight,
        ],
        Position::new(0, 0),
        Position::new(4, 2),
    );
    let r = g.apply_proposed(PlayerId(1), ProposedAction::Move { path: long });
    assert_eq!(r.unwrap_err(), GameError::OutOfRange);
    // One step is fine; a second move in the same turn exhausts the budget.
    let one = Path::new(vec![Direction::Right], Position::new(0, 0), Position::new(1, 0));
    g.apply_proposed(PlayerId(1), ProposedAction::Move { path: one }).unwrap();
    let two = Path::new(vec![Direction::Right], Position::new(1, 0), Position::new(2, 0));
    let r = g.apply_proposed(PlayerId(1), ProposedAction::Move { path: two });
    assert_eq!(r.unwrap_err(), GameError::IllegalAction);
}

#[test]
fn unwalkable_terrain_blocks_movement() {
    let mut grid = Grid::new(5, 5);
    grid.set_terrain(Position::new(1, 0), TerrainType::Void);
    let players = vec![Player { id: PlayerId(1), name: String::from("one") }];
    let mut g = Game::new(players, grid);
    let c = UnitClassId(7);
    g.apply_proposed(PlayerId(1), ProposedAction::Spawn { unit: c, position: Position::new(0, 0) })
        .unwrap();
    g.apply_proposed(PlayerId(1), ProposedAction::EndTurn).unwrap();
    let into_void = Path::new(vec![Direction::Right], Position::new(0, 0), Position::new(1, 0));
    let r = g.apply_proposed(PlayerId(1), ProposedAction::Move { path: into_void });
    assert_eq!(r.unwrap_err(), GameError::InvalidPath);
}

#[test]
fn spawn_quota_is_enforced() {
    let mut g = two_player_game();
    let c = UnitClassId(7);
    let mut placed = 0;
    for y in 0..5 {
        for x in 0..5 {
            if placed == 17 {
                break;
            }
            let r = g.apply_proposed(
                PlayerId(1),
                ProposedAction::Spawn { unit: c, position: Position::new(x, y) },
            );
            if placed < 16 {
                assert!(r.is_ok());
            } else {
                assert_eq!(r.unwrap_err(), GameError::NotEnoughResources);
            }
            placed += 1;
        }
    }
    assert_eq!(placed, 17);
}

#[test]
fn spawn_on_an_occupied_cell_is_rejected() {
    let mut g = two_player_game();
    let c = UnitClassId(7);
    g.apply_proposed(PlayerId(1), ProposedAction::Spawn { unit: c, position: Position::new(2, 2) })
        .unwrap();
    let r = g.apply_proposed(
        PlayerId(2),
        ProposedAction::Spawn { unit: c, position: Position::new(2, 2) },
    );
    assert_eq!(r.unwrap_err(), GameError::IllegalAction);
}

#[test]
fn abilities_need_an_ability_point() {
    let mut g = two_player_game();
    let c = UnitClassId(7);
    g.apply_proposed(PlayerId(1), ProposedAction::Spawn { unit: c, position: Position::new(0, 0) })
        .unwrap();
    g.apply_proposed(PlayerId(1), ProposedAction::EndTurn).unwrap();
    // The base budget holds a move and an attack point, no ability point.
    let r = g.apply_proposed(PlayerId(1), ProposedAction::Ability { target: None });
    assert_eq!(r.unwrap_err(), GameError::IllegalAction);
}

#[test]
fn round_transition_visits_each_unit_once() {
    let mut g = two_player_game();
    let c = UnitClassId(7);
    g.apply_proposed(PlayerId(1), ProposedAction::Spawn { unit: c, position: Position::new(0, 0) })
        .unwrap();
    g.apply_proposed(PlayerId(2), ProposedAction::Spawn { unit: c, position: Position::new(4, 4) })
        .unwrap();
    assert_eq!(g.round_number(), 1);
    g.apply_proposed(PlayerId(1), ProposedAction::EndTurn).unwrap();
    assert_eq!(g.phase(), RoundPhase::UnitTurn { unit: UnitId(0) });
    g.apply_proposed(PlayerId(1), ProposedAction::EndTurn).unwrap();
    assert_eq!(g.phase(), RoundPhase::UnitTurn { unit: UnitId(1) });
    g.apply_proposed(PlayerId(2), ProposedAction::EndTurn).unwrap();
    // Two units, exactly two unit turns, then back to the spawn phase with
    // a snapshot at the round boundary.
    assert_eq!(g.phase(), RoundPhase::SpawnPhase);
    assert_eq!(g.round_number(), 2);
    assert_eq!(g.snapshot_count(), 1);
}

#[test]
fn mid_round_death_skips_the_dead_without_reordering() {
    let players = vec![
        Player { id: PlayerId(1), name: String::from("one") },
        Player { id: PlayerId(2), name: String::from("two") },
    ];
    let mut g = Game::new(players, Grid::new(5, 5));
    g.register_attack(AttackId(1), basic_attack());
    let c = UnitClassId(7);
    g.apply_proposed(PlayerId(1), ProposedAction::Spawn { unit: c, position: Position::new(1, 1) })
        .unwrap();
    g.apply_proposed(PlayerId(2), ProposedAction::Spawn { unit: c, position: Position::new(1, 2) })
        .unwrap();
    g.apply_proposed(PlayerId(2), ProposedAction::Spawn { unit: c, position: Position::new(3, 3) })
        .unwrap();
    g.apply_proposed(PlayerId(1), ProposedAction::EndTurn).unwrap();
    assert_eq!(g.queue_remaining(), vec![UnitId(1), UnitId(2)]);
    // Unit 0 kills unit 1; the queue skips it and keeps unit 2 in place.
    g.apply_proposed(PlayerId(1), ProposedAction::Attack { target: UnitId(1), attack: AttackId(1) })
        .unwrap();
    assert_eq!(g.queue_remaining(), vec![UnitId(2)]);
    g.apply_proposed(PlayerId(1), ProposedAction::EndTurn).unwrap();
    assert_eq!(g.phase(), RoundPhase::UnitTurn { unit: UnitId(2) });
    g.apply_proposed(PlayerId(2), ProposedAction::EndTurn).unwrap();
    assert_eq!(g.phase(), RoundPhase::SpawnPhase);
    assert_eq!(g.round_number(), 2);
}

#[test]
fn snapshot_replay_matches_live() {
    let mut g = two_player_game();
    let c = UnitClassId(7);
    g.apply_proposed(PlayerId(1), ProposedAction::Spawn { unit: c, position: Position::new(0, 0) })
        .unwrap();
    g.apply_proposed(PlayerId(2), ProposedAction::Spawn { unit: c, position: Position::new(4, 4) })
        .unwrap();
    g.apply_proposed(PlayerId(1), ProposedAction::EndTurn).unwrap();
    g.apply_proposed(PlayerId(1), ProposedAction::EndTurn).unwrap();
    g.apply_proposed(PlayerId(2), ProposedAction::EndTurn).unwrap();
    assert_eq!(g.snapshot_count(), 1);

    // Restore the round-boundary snapshot and drive both games through the
    // same subsequent proposals: they stay in lockstep.
    let mut g2 = Game::restore(g.latest_snapshot().unwrap());
    assert_eq!(observe(&g), observe(&g2));

    let acts = |g: &mut Game| {
        g.apply_proposed(
            PlayerId(2),
            ProposedAction::Spawn { unit: c, position: Position::new(2, 2) },
        )
        .unwrap();
        g.apply_proposed(PlayerId(1), ProposedAction::EndTurn).unwrap();
        let p = Path::new(vec![Direction::Right], Position::new(0, 0), Position::new(1, 0));
        g.apply_proposed(PlayerId(1), ProposedAction::Move { path: p }).unwrap();
        g.apply_proposed(PlayerId(1), ProposedAction::EndTurn).unwrap();
    };
    acts(&mut g);
    acts(&mut g2);
    assert_eq!(observe(&g), observe(&g2));
}

#[test]
fn resolutions_reapply_on_a_twin_game() {
    let mut g = two_player_game();
    let mut twin = two_player_game();
    let c = UnitClassId(7);
    assert_eq!(g.next_unit_id(), Some(UnitId(0)));
    let spawned = g
        .apply_proposed(
            PlayerId(1),
            ProposedAction::Spawn { unit: c, position: Position::new(2, 2) },
        )
        .unwrap();
    assert_eq!(g.next_unit_id(), Some(UnitId(1)));
    // Re-applying the broadcast change reproduces the same state elsewhere.
    twin.apply_resolution(spawned);
    assert_eq!(observe(&g), observe(&twin));
}

#[test]
fn turn_log_and_history_grow_in_order() {
    let mut g = two_player_game();
    let c = UnitClassId(7);
    assert_eq!(g.history_len(), 0);
    g.apply_proposed(PlayerId(1), ProposedAction::Spawn { unit: c, position: Position::new(0, 0) })
        .unwrap();
    g.apply_proposed(PlayerId(1), ProposedAction::EndTurn).unwrap();
    assert_eq!(g.history_len(), 1);
    assert_eq!(g.turn_number(), 2);
    g.apply_proposed(PlayerId(1), ProposedAction::EndTurn).unwrap();
    assert_eq!(g.history_len(), 2);
    assert_eq!(g.turn_number(), 3);
}
