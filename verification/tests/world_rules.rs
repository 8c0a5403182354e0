use server::protocol::HitEvent;
use server::world::{ColliderKey, GameWorld, PhysicsReport, TargetSpawn, TargetStatus};

fn key(index: u32) -> ColliderKey {
    ColliderKey { index, generation: 0 }
}

/// Five targets with ids 1..=5 on colliders 11..=15; collider 20 stands for cover.
fn arena() -> GameWorld {
    let spawns = (1..=5u32).map(|id| TargetSpawn { id, collider: key(10 + id) }).collect();
    GameWorld::new(spawns)
}

fn shoot(world: &mut GameWorld, collider: ColliderKey) -> Vec<HitEvent> {
    world.step(PhysicsReport { fell_out_of_bounds: false, shot: Some(collider) }).outcome.recent_hits
}

fn idle() -> PhysicsReport {
    PhysicsReport { fell_out_of_bounds: false, shot: None }
}

fn fall() -> PhysicsReport {
    PhysicsReport { fell_out_of_bounds: true, shot: None }
}

#[test]
fn new_world_has_all_targets_standing() {
    let world = arena();
    assert_eq!(world.score(), 0);
    assert!(!world.is_game_over());
    assert_eq!(world.target_count(), 5);
    for i in 0..5 {
        let t = world.target(i);
        assert_eq!(t.id, i as u32 + 1);
        assert_eq!(t.collider, key(11 + i as u32));
        assert!(t.alive);
    }
}

#[test]
fn hitscan_respects_visible_targets_and_cover() {
    let mut world = arena();
    let result = world.step(PhysicsReport { fell_out_of_bounds: false, shot: Some(key(13)) });
    assert_eq!(result.outcome.recent_hits, vec![HitEvent { target_id: 3, score: 1 }]);
    assert_eq!(result.killed_target, Some(2));
    assert!(!result.outcome.game_over_just_triggered);
    assert!(!world.target(2).alive);

    let mut occluded_world = arena();
    let result = occluded_world.step(PhysicsReport { fell_out_of_bounds: false, shot: Some(key(20)) });
    assert!(result.outcome.recent_hits.is_empty());
    assert_eq!(result.killed_target, None);
    assert!(occluded_world.target(1).alive);
    assert_eq!(occluded_world.score(), 0);
}

#[test]
fn reset_after_fall_preserves_score() {
    let mut world = arena();
    shoot(&mut world, key(11));
    shoot(&mut world, key(12));
    assert_eq!(world.score(), 2);

    let outcome = world.step(fall()).outcome;
    assert!(outcome.game_over_just_triggered);
    assert!(outcome.recent_hits.is_empty());
    assert!(world.is_game_over());

    world.reset_after_game_over();
    assert_eq!(world.score(), 2);
    assert!(!world.is_game_over());
    assert!(!world.target(0).alive);
}

#[test]
fn step_while_game_over_changes_nothing() {
    let mut world = arena();
    world.step(fall());
    let again = world.step(fall());
    assert!(!again.outcome.game_over_just_triggered);
    let shot = world.step(PhysicsReport { fell_out_of_bounds: false, shot: Some(key(11)) });
    assert!(shot.outcome.recent_hits.is_empty());
    assert_eq!(shot.killed_target, None);
    assert!(world.target(0).alive);
    assert_eq!(world.score(), 0);
}

#[test]
fn fall_takes_precedence_over_shot() {
    let mut world = arena();
    let result = world.step(PhysicsReport { fell_out_of_bounds: true, shot: Some(key(11)) });
    assert!(result.outcome.game_over_just_triggered);
    assert!(result.outcome.recent_hits.is_empty());
    assert!(world.target(0).alive);
    assert_eq!(world.score(), 0);
}

#[test]
fn downed_target_cannot_be_hit_until_revived() {
    let mut world = arena();
    assert_eq!(shoot(&mut world, key(14)), vec![HitEvent { target_id: 4, score: 1 }]);
    assert!(shoot(&mut world, key(14)).is_empty());
    assert_eq!(world.score(), 1);
    world.revive_target(3);
    assert!(world.target(3).alive);
    assert_eq!(shoot(&mut world, key(14)), vec![HitEvent { target_id: 4, score: 2 }]);
}

#[test]
fn shared_collider_takes_down_first_standing_target() {
    let spawns = vec![
        TargetSpawn { id: 7, collider: key(1) },
        TargetSpawn { id: 8, collider: key(1) },
    ];
    let mut world = GameWorld::new(spawns);
    assert_eq!(shoot(&mut world, key(1)), vec![HitEvent { target_id: 7, score: 1 }]);
    assert_eq!(shoot(&mut world, key(1)), vec![HitEvent { target_id: 8, score: 2 }]);
    assert!(shoot(&mut world, key(1)).is_empty());
}

#[test]
fn generation_distinguishes_colliders() {
    let mut world = arena();
    let stale = ColliderKey { index: 11, generation: 1 };
    assert!(shoot(&mut world, stale).is_empty());
    assert!(world.target(0).alive);
}

#[test]
fn idle_step_changes_nothing() {
    let mut world = arena();
    let result = world.step(idle());
    assert!(result.outcome.recent_hits.is_empty());
    assert!(!result.outcome.game_over_just_triggered);
    assert_eq!(result.killed_target, None);
    assert_eq!(world.score(), 0);
}

#[test]
fn full_reset_restores_targets_and_clears_score() {
    let mut world = arena();
    shoot(&mut world, key(11));
    shoot(&mut world, key(15));
    world.step(fall());
    world.full_reset();
    assert_eq!(world.score(), 0);
    assert!(!world.is_game_over());
    for i in 0..5 {
        assert!(world.target(i).alive);
        assert_eq!(world.target(i).id, i as u32 + 1);
    }
}

#[test]
fn snapshot_lists_targets_score_and_hits() {
    let mut world = arena();
    let hits = shoot(&mut world, key(12));
    let summary = world.snapshot(9, 41, hits.clone());
    assert_eq!(summary.tick, 9);
    assert_eq!(summary.last_processed_input, 41);
    assert_eq!(summary.score, 1);
    assert!(!summary.game_over);
    assert_eq!(summary.recent_hits, hits);
    assert_eq!(summary.targets.len(), 5);
    assert_eq!(summary.targets[0], TargetStatus { id: 1, alive: true });
    assert_eq!(summary.targets[1], TargetStatus { id: 2, alive: false });
}

#[test]
fn score_counts_reported_hits_since_reset() {
    let mut world = arena();
    let mut reported = 0usize;
    let reports = [
        PhysicsReport { fell_out_of_bounds: false, shot: Some(key(11)) },
        PhysicsReport { fell_out_of_bounds: false, shot: Some(key(11)) },
        PhysicsReport { fell_out_of_bounds: false, shot: Some(key(20)) },
        PhysicsReport { fell_out_of_bounds: false, shot: Some(key(13)) },
        fall(),
        PhysicsReport { fell_out_of_bounds: false, shot: Some(key(14)) },
    ];
    for report in reports {
        reported += world.step(report).outcome.recent_hits.len();
    }
    assert_eq!(reported, 2);
    assert_eq!(world.score() as usize, reported);
    world.reset_after_game_over();
    world.revive_target(0);
    reported += shoot(&mut world, key(11)).len();
    assert_eq!(world.score() as usize, reported);
    assert_eq!(world.snapshot(1, 0, Vec::new()).score, world.score());

    world.full_reset();
    assert_eq!(world.score(), 0);
    assert_eq!(shoot(&mut world, key(15)), vec![HitEvent { target_id: 5, score: 1 }]);
}
