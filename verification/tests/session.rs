use server::protocol::{ClientCommand, HitEvent};
use server::session::{Admission, CommandEffect, Outbound, ServerState, Session};
use server::world::StepOutcome;

fn admitted(a: Admission) -> u64 {
    match a {
        Admission::Admitted { player_id } => player_id,
        Admission::Refused { .. } => panic!("refused"),
    }
}

fn quiet() -> StepOutcome {
    StepOutcome { recent_hits: Vec::new(), game_over_just_triggered: false }
}

fn fell() -> StepOutcome {
    StepOutcome { recent_hits: Vec::new(), game_over_just_triggered: true }
}

fn game_overs(out: &[Outbound]) -> usize {
    out.iter().filter(|m| matches!(m, Outbound::GameOver { .. })).count()
}

#[test]
fn new_server_is_empty() {
    let s = ServerState::new();
    assert_eq!(s.tick(), 0);
    assert_eq!(s.active_session(), None);
    assert_eq!(s.next_player_id(), 1);
}

#[test]
fn second_connection_is_refused() {
    let mut s = ServerState::new();
    assert_eq!(admitted(s.connect()), 1);
    match s.connect() {
        Admission::Refused { message } => {
            assert_eq!(message, "Only one active player is supported in v1.")
        }
        Admission::Admitted { .. } => panic!("admitted a second player"),
    }
    assert_eq!(
        s.active_session(),
        Some(Session { player_id: 1, last_input_sequence: 0, game_over_sent: false })
    );
    assert_eq!(s.next_player_id(), 2);
}

#[test]
fn player_ids_are_not_reused() {
    let mut s = ServerState::new();
    let first = admitted(s.connect());
    assert!(s.disconnect(first));
    let second = admitted(s.connect());
    s.drop_session();
    let third = admitted(s.connect());
    assert_eq!((first, second, third), (1, 2, 3));
}

#[test]
fn disconnect_of_other_player_keeps_session() {
    let mut s = ServerState::new();
    let id = admitted(s.connect());
    assert!(!s.disconnect(id + 7));
    assert!(s.active_session().is_some());
    assert!(s.disconnect(id));
    assert_eq!(s.active_session(), None);
    assert!(!s.disconnect(id));
}

#[test]
fn commands_of_other_players_are_ignored() {
    let mut s = ServerState::new();
    assert_eq!(s.receive(1, ClientCommand::Join), CommandEffect::Ignored);
    let id = admitted(s.connect());
    assert_eq!(s.receive(id + 1, ClientCommand::Input { sequence: 5 }), CommandEffect::Ignored);
    assert_eq!(s.active_session().unwrap().last_input_sequence, 0);
    assert_eq!(s.receive(id, ClientCommand::Join), CommandEffect::Joined);
    assert_eq!(s.receive(id, ClientCommand::Input { sequence: 5 }), CommandEffect::InputStored);
    assert_eq!(s.active_session().unwrap().last_input_sequence, 5);
}

#[test]
fn snapshot_due_every_third_tick() {
    let mut s = ServerState::new();
    let due: Vec<bool> = (0..7).map(|_| s.begin_tick().snapshot_due).collect();
    assert_eq!(due, vec![false, false, true, false, false, true, false]);
    assert_eq!(s.tick(), 7);
}

#[test]
fn nothing_is_sent_without_a_player() {
    let mut s = ServerState::new();
    s.begin_tick();
    s.begin_tick();
    let plan = s.begin_tick();
    assert!(plan.snapshot_due);
    assert!(s.finish_tick(plan, fell(), 3).is_empty());
}

#[test]
fn snapshot_carries_tick_input_and_hits() {
    let mut s = ServerState::new();
    let id = admitted(s.connect());
    s.receive(id, ClientCommand::Input { sequence: 12 });
    s.begin_tick();
    s.begin_tick();
    let plan = s.begin_tick();
    let hits = vec![HitEvent { target_id: 2, score: 4 }];
    let out = s.finish_tick(
        plan,
        StepOutcome { recent_hits: hits.clone(), game_over_just_triggered: false },
        4,
    );
    assert_eq!(out.len(), 1);
    match &out[0] {
        Outbound::Snapshot { player_id, tick, last_processed_input, recent_hits } => {
            assert_eq!(*player_id, id);
            assert_eq!(*tick, 3);
            assert_eq!(*last_processed_input, 12);
            assert_eq!(*recent_hits, hits);
        }
        Outbound::GameOver { .. } => panic!("unexpected game over"),
    }
}

#[test]
fn game_over_is_sent_once_until_reset() {
    let mut s = ServerState::new();
    let id = admitted(s.connect());
    let plan = s.begin_tick();
    let out = s.finish_tick(plan, fell(), 6);
    assert_eq!(out.len(), 1);
    match &out[0] {
        Outbound::GameOver { player_id, message } => {
            assert_eq!(*player_id, id);
            assert_eq!(message.reason, "fell out of bounds");
            assert_eq!(message.score, 6);
        }
        Outbound::Snapshot { .. } => panic!("unexpected snapshot"),
    }
    assert!(s.active_session().unwrap().game_over_sent);

    let plan = s.begin_tick();
    assert_eq!(game_overs(&s.finish_tick(plan, fell(), 6)), 0);

    assert_eq!(s.receive(id, ClientCommand::Reset), CommandEffect::GameReset);
    assert!(!s.active_session().unwrap().game_over_sent);
    let plan = s.begin_tick();
    let out = s.finish_tick(plan, fell(), 6);
    assert_eq!(game_overs(&out), 1);
    assert_eq!(out.len(), 2);
    assert!(matches!(out[0], Outbound::GameOver { .. }));
    assert!(matches!(out[1], Outbound::Snapshot { .. }));
}

#[test]
fn quiet_step_between_snapshots_sends_nothing() {
    let mut s = ServerState::new();
    admitted(s.connect());
    let plan = s.begin_tick();
    assert!(s.finish_tick(plan, quiet(), 0).is_empty());
}
