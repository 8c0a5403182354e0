//! The server's session state machine. One player at a time holds the arena;
//! the server admits or refuses connections, applies the player's commands,
//! counts ticks, and decides which messages go out after each step. The
//! caller performs the network work and the world updates that the answers
//! ask for.

use crate::protocol::{
    fell_out_of_bounds_reason, fell_out_reason, server_full_message, server_full_text,
    ClientCommand, GameOverMessage, HitEvent,
};
use crate::sim::{snapshot_interval_ticks, SNAPSHOT_RATE_HZ, TICK_RATE_HZ};
use crate::world::StepOutcome;
use vstd::prelude::*;

verus! {

/// The active player's session.
#[derive(Clone, Copy, Debug, PartialEq, Eq, Structural)]
pub struct Session {
    pub player_id: u64,
    /// The sequence number of the player's latest input.
    pub last_input_sequence: u64,
    /// Whether the player has been told of the current game over.
    pub game_over_sent: bool,
}

/// The server's state apart from the world: the tick counter, the active
/// session and the next player id to hand out.
pub struct ServerState {
    tick: u64,
    active_session: Option<Session>,
    next_player_id: u64,
}

/// The mathematical model of a `ServerState`.
pub struct ServerView {
    pub tick: u64,
    pub session: Option<Session>,
    pub next_player_id: u64,
}

impl ServerState {
    /// Every `ServerState` is well formed.
    #[verifier::type_invariant]
    spec fn inv(self) -> bool {
        well_formed(self@)
    }
}

impl View for ServerState {
    type V = ServerView;

    closed spec fn view(&self) -> ServerView {
        ServerView {
            tick: self.tick,
            session: self.active_session,
            next_player_id: self.next_player_id,
        }
    }
}

/// The answer to a connection. `Admitted` means the caller must fully reset
/// the world for the new player.
pub enum Admission {
    Admitted { player_id: u64 },
    Refused { message: String },
}

/// The model of an `Admission`.
pub enum AdmissionView {
    Admitted { player_id: u64 },
    Refused { message: Seq<char> },
}

impl View for Admission {
    type V = AdmissionView;

    open spec fn view(&self) -> AdmissionView {
        match self {
            Admission::Admitted { player_id } => AdmissionView::Admitted { player_id: *player_id },
            Admission::Refused { message } => AdmissionView::Refused { message: message@ },
        }
    }
}

/// What a client command asks of the caller. `InputStored`: keep the input as
/// the player's latest. `GameReset`: restart the world after a game over.
#[derive(Clone, Copy, Debug, PartialEq, Eq, Structural)]
pub enum CommandEffect {
    Ignored,
    Joined,
    InputStored,
    GameReset,
}

/// The tick a step runs for and whether a snapshot goes out after it.
#[derive(Clone, Copy, Debug, PartialEq, Eq, Structural)]
pub struct TickPlan {
    pub tick: u64,
    pub snapshot_due: bool,
}

/// A message to send to the active player after a step.
pub enum Outbound {
    GameOver { player_id: u64, message: GameOverMessage },
    Snapshot { player_id: u64, tick: u64, last_processed_input: u64, recent_hits: Vec<HitEvent> },
}

/// The model of an `Outbound` message.
pub enum OutboundView {
    GameOver { player_id: u64, reason: Seq<char>, score: u32 },
    Snapshot {
        player_id: u64,
        tick: u64,
        last_processed_input: u64,
        recent_hits: Seq<HitEvent>,
    },
}

impl View for Outbound {
    type V = OutboundView;

    open spec fn view(&self) -> OutboundView {
        match self {
            Outbound::GameOver { player_id, message } => OutboundView::GameOver {
                player_id: *player_id,
                reason: message.reason@,
                score: message.score,
            },
            Outbound::Snapshot { player_id, tick, last_processed_input, recent_hits } =>
                OutboundView::Snapshot {
                player_id: *player_id,
                tick: *tick,
                last_processed_input: *last_processed_input,
                recent_hits: recent_hits@,
            },
        }
    }
}

/// Adding one, stopping at the largest `u64`.
pub open spec fn saturating_inc64(x: u64) -> u64 {
    if x == u64::MAX {
        x
    } else {
        (x + 1) as u64
    }
}

/// The state is well formed: ids start at one, and the active player's id has
/// been handed out already.
pub open spec fn well_formed(m: ServerView) -> bool {
    &&& m.next_player_id >= 1
    &&& match m.session {
        Some(s) => s.player_id < m.next_player_id || m.next_player_id == u64::MAX,
        None => true,
    }
}

/// `player_id` holds the active session.
pub open spec fn owns(m: ServerView, player_id: u64) -> bool {
    match m.session {
        Some(s) => s.player_id == player_id,
        None => false,
    }
}

/// The state after a connection attempt.
pub open spec fn connect_model(m: ServerView) -> ServerView {
    match m.session {
        Some(_) => m,
        None => ServerView {
            tick: m.tick,
            session: Some(
                Session { player_id: m.next_player_id, last_input_sequence: 0, game_over_sent: false },
            ),
            next_player_id: saturating_inc64(m.next_player_id),
        },
    }
}

/// The answer to a connection attempt.
pub open spec fn connect_answer(m: ServerView) -> AdmissionView {
    match m.session {
        Some(_) => AdmissionView::Refused { message: server_full_text() },
        None => AdmissionView::Admitted { player_id: m.next_player_id },
    }
}

/// The state after `player_id`'s connection closes.
pub open spec fn disconnect_model(m: ServerView, player_id: u64) -> ServerView {
    if owns(m, player_id) {
        ServerView { tick: m.tick, session: None, next_player_id: m.next_player_id }
    } else {
        m
    }
}

/// The state after `player_id` sends `command`.
pub open spec fn command_model(m: ServerView, player_id: u64, command: ClientCommand) -> ServerView {
    match m.session {
        Some(s) => if s.player_id != player_id {
            m
        } else {
            match command {
                ClientCommand::Join => m,
                ClientCommand::Input { sequence } => ServerView {
                    tick: m.tick,
                    session: Some(
                        Session {
                            player_id: s.player_id,
                            last_input_sequence: sequence,
                            game_over_sent: s.game_over_sent,
                        },
                    ),
                    next_player_id: m.next_player_id,
                },
                ClientCommand::Reset => ServerView {
                    tick: m.tick,
                    session: Some(
                        Session {
                            player_id: s.player_id,
                            last_input_sequence: s.last_input_sequence,
                            game_over_sent: false,
                        },
                    ),
                    next_player_id: m.next_player_id,
                },
            }
        },
        None => m,
    }
}

/// What `player_id`'s `command` asks of the caller.
pub open spec fn command_effect(m: ServerView, player_id: u64, command: ClientCommand) -> CommandEffect {
    if !owns(m, player_id) {
        CommandEffect::Ignored
    } else {
        match command {
            ClientCommand::Join => CommandEffect::Joined,
            ClientCommand::Input { .. } => CommandEffect::InputStored,
            ClientCommand::Reset => CommandEffect::GameReset,
        }
    }
}

/// The plan of the next tick.
pub open spec fn tick_plan(m: ServerView) -> TickPlan {
    TickPlan {
        tick: saturating_inc64(m.tick),
        snapshot_due: saturating_inc64(m.tick) % (TICK_RATE_HZ / SNAPSHOT_RATE_HZ) == 0,
    }
}

/// The state once the next tick has begun.
pub open spec fn begin_tick_model(m: ServerView) -> ServerView {
    ServerView {
        tick: saturating_inc64(m.tick),
        session: m.session,
        next_player_id: m.next_player_id,
    }
}

/// A game-over notice goes out: a step just ended the game and the player has
/// not been told yet.
pub open spec fn notifies_game_over(m: ServerView, game_over_just_triggered: bool) -> bool {
    match m.session {
        Some(s) => game_over_just_triggered && !s.game_over_sent,
        None => false,
    }
}

/// The state after a step's messages are decided.
pub open spec fn finish_tick_model(m: ServerView, game_over_just_triggered: bool) -> ServerView {
    match m.session {
        Some(s) => ServerView {
            tick: m.tick,
            session: Some(
                Session {
                    player_id: s.player_id,
                    last_input_sequence: s.last_input_sequence,
                    game_over_sent: s.game_over_sent || game_over_just_triggered,
                },
            ),
            next_player_id: m.next_player_id,
        },
        None => m,
    }
}

/// The messages sent after a step: a game-over notice when one is due, then a
/// snapshot when one is due, both to the active player.
pub open spec fn finish_tick_messages(
    m: ServerView,
    plan: TickPlan,
    game_over_just_triggered: bool,
    score: u32,
    hits: Seq<HitEvent>,
) -> Seq<OutboundView> {
    match m.session {
        Some(s) => (if notifies_game_over(m, game_over_just_triggered) {
            seq![OutboundView::GameOver { player_id: s.player_id, reason: fell_out_reason(), score }]
        } else {
            seq![]
        }) + (if plan.snapshot_due {
            seq![
                OutboundView::Snapshot {
                    player_id: s.player_id,
                    tick: plan.tick,
                    last_processed_input: s.last_input_sequence,
                    recent_hits: hits,
                },
            ]
        } else {
            seq![]
        }),
        None => seq![],
    }
}

/// The state after the active session is dropped.
pub open spec fn drop_model(m: ServerView) -> ServerView {
    ServerView { tick: m.tick, session: None, next_player_id: m.next_player_id }
}

impl ServerState {
    /// A server at tick zero with no player, handing out ids from one.
    pub fn new() -> (s: ServerState)
        ensures
            s@ == (ServerView { tick: 0, session: None, next_player_id: 1 }),
            well_formed(s@),
    {
        ServerState { tick: 0, active_session: None, next_player_id: 1 }
    }

    /// The current tick.
    pub fn tick(&self) -> (t: u64)
        ensures
            t == self@.tick,
    {
        self.tick
    }

    /// The active session, if a player holds the arena.
    pub fn active_session(&self) -> (s: Option<Session>)
        ensures
            s == self@.session,
    {
        self.active_session
    }

    /// The id the next admitted player receives.
    pub fn next_player_id(&self) -> (n: u64)
        ensures
            n == self@.next_player_id,
    {
        self.next_player_id
    }

    /// A client connects. While a player is active the connection is refused
    /// and nothing changes; else the client is admitted under the next id,
    /// with a fresh session, and the caller must fully reset the world.
    pub fn connect(&mut self) -> (a: Admission)
        ensures
            well_formed(final(self)@),
            final(self)@ == connect_model(old(self)@),
            a@ == connect_answer(old(self)@),
    {
        proof {
            use_type_invariant(&*self);
        }
        if self.active_session.is_some() {
            return Admission::Refused { message: server_full_message() };
        }
        let player_id = self.next_player_id;
        self.next_player_id = self.next_player_id.saturating_add(1);
        self.active_session = Some(
            Session { player_id, last_input_sequence: 0, game_over_sent: false },
        );
        Admission::Admitted { player_id }
    }

    /// `player_id`'s connection has closed. Returns whether that player held
    /// the session, which then ends; the caller must then fully reset the world.
    pub fn disconnect(&mut self, player_id: u64) -> (ended: bool)
        ensures
            well_formed(final(self)@),
            final(self)@ == disconnect_model(old(self)@, player_id),
            ended == owns(old(self)@, player_id),
    {
        proof {
            use_type_invariant(&*self);
        }
        match self.active_session {
            Some(s) => {
                if s.player_id == player_id {
                    self.active_session = None;
                    true
                } else {
                    false
                }
            },
            None => false,
        }
    }

    /// Applies `player_id`'s command. Commands of anyone but the active player
    /// are ignored.
    pub fn receive(&mut self, player_id: u64, command: ClientCommand) -> (e: CommandEffect)
        ensures
            well_formed(final(self)@),
            final(self)@ == command_model(old(self)@, player_id, command),
            e == command_effect(old(self)@, player_id, command),
    {
        proof {
            use_type_invariant(&*self);
        }
        match self.active_session {
            None => CommandEffect::Ignored,
            Some(s) => {
                if s.player_id != player_id {
                    return CommandEffect::Ignored;
                }
                match command {
                    ClientCommand::Join => CommandEffect::Joined,
                    ClientCommand::Input { sequence } => {
                        self.active_session = Some(
                            Session {
                                player_id: s.player_id,
                                last_input_sequence: sequence,
                                game_over_sent: s.game_over_sent,
                            },
                        );
                        CommandEffect::InputStored
                    },
                    ClientCommand::Reset => {
                        self.active_session = Some(
                            Session {
                                player_id: s.player_id,
                                last_input_sequence: s.last_input_sequence,
                                game_over_sent: false,
                            },
                        );
                        CommandEffect::GameReset
                    },
                }
            },
        }
    }

    /// Advances the tick counter (it stops at its maximum) and says whether a
    /// snapshot is due after this tick's step: one every
    /// `snapshot_interval_ticks()` ticks.
    pub fn begin_tick(&mut self) -> (p: TickPlan)
        ensures
            well_formed(final(self)@),
            final(self)@ == begin_tick_model(old(self)@),
            p == tick_plan(old(self)@),
    {
        proof {
            use_type_invariant(&*self);
        }
        self.tick = self.tick.saturating_add(1);
        let interval = snapshot_interval_ticks();
        TickPlan { tick: self.tick, snapshot_due: self.tick % interval == 0 }
    }

    /// Decides the messages that follow a step run under `plan`, whose
    /// outcome is `outcome` and after which the score is `score`: a game-over
    /// notice once per game over, then the snapshot when one is due. Without
    /// an active player nothing is sent.
    pub fn finish_tick(&mut self, plan: TickPlan, outcome: StepOutcome, score: u32) -> (out: Vec<
        Outbound,
    >)
        ensures
            well_formed(final(self)@),
            final(self)@ == finish_tick_model(old(self)@, outcome.game_over_just_triggered),
            out@.len() == finish_tick_messages(
                old(self)@,
                plan,
                outcome.game_over_just_triggered,
                score,
                outcome.recent_hits@,
            ).len(),
            forall|i: int|
                0 <= i < out@.len() ==> #[trigger] out@[i]@ == finish_tick_messages(
                    old(self)@,
                    plan,
                    outcome.game_over_just_triggered,
                    score,
                    outcome.recent_hits@,
                )[i],
    {
        proof {
            use_type_invariant(&*self);
        }
        let mut out: Vec<Outbound> = Vec::new();
        let ghost hits = outcome.recent_hits@;
        match self.active_session {
            None => {},
            Some(s) => {
                let notify = outcome.game_over_just_triggered && !s.game_over_sent;
                self.active_session = Some(
                    Session {
                        player_id: s.player_id,
                        last_input_sequence: s.last_input_sequence,
                        game_over_sent: s.game_over_sent || outcome.game_over_just_triggered,
                    },
                );
                if notify {
                    out.push(
                        Outbound::GameOver {
                            player_id: s.player_id,
                            message: GameOverMessage { reason: fell_out_of_bounds_reason(), score },
                        },
                    );
                }
                if plan.snapshot_due {
                    out.push(
                        Outbound::Snapshot {
                            player_id: s.player_id,
                            tick: plan.tick,
                            last_processed_input: s.last_input_sequence,
                            recent_hits: outcome.recent_hits,
                        },
                    );
                }
                proof {
                    let expected = finish_tick_messages(
                        old(self)@,
                        plan,
                        outcome.game_over_just_triggered,
                        score,
                        hits,
                    );
                    assert(out@.len() == expected.len());
                    assert forall|i: int| 0 <= i < out@.len() implies #[trigger] out@[i]@
                        == expected[i] by {}
                }
            },
        }
        out
    }

    /// Ends the active session because its connection failed; the caller must
    /// then fully reset the world.
    pub fn drop_session(&mut self)
        ensures
            well_formed(final(self)@),
            final(self)@ == drop_model(old(self)@),
    {
        proof {
            use_type_invariant(&*self);
        }
        self.active_session = None;
    }
}

/// One event of the server's life, as far as it changes the session state.
pub enum ServerEvent {
    Connect,
    Disconnect { player_id: u64 },
    Command { player_id: u64, command: ClientCommand },
    BeginTick,
    FinishTick { game_over_just_triggered: bool },
    DropSession,
}

/// The state after one event.
pub open spec fn apply_event(m: ServerView, e: ServerEvent) -> ServerView {
    match e {
        ServerEvent::Connect => connect_model(m),
        ServerEvent::Disconnect { player_id } => disconnect_model(m, player_id),
        ServerEvent::Command { player_id, command } => command_model(m, player_id, command),
        ServerEvent::BeginTick => begin_tick_model(m),
        ServerEvent::FinishTick { game_over_just_triggered } => finish_tick_model(
            m,
            game_over_just_triggered,
        ),
        ServerEvent::DropSession => drop_model(m),
    }
}

/// The state after a run of events.
pub open spec fn run(m: ServerView, events: Seq<ServerEvent>) -> ServerView
    decreases events.len(),
{
    if events.len() == 0 {
        m
    } else {
        apply_event(run(m, events.drop_last()), events.last())
    }
}

/// The ids admitted during a run, in order.
pub open spec fn admitted_ids(m: ServerView, events: Seq<ServerEvent>) -> Seq<u64>
    decreases events.len(),
{
    if events.len() == 0 {
        seq![]
    } else {
        let earlier = admitted_ids(m, events.drop_last());
        match events.last() {
            ServerEvent::Connect => match connect_answer(run(m, events.drop_last())) {
                AdmissionView::Admitted { player_id } => earlier.push(player_id),
                AdmissionView::Refused { .. } => earlier,
            },
            _ => earlier,
        }
    }
}

/// The number of game-over notices sent during a run.
pub open spec fn game_over_notices(m: ServerView, events: Seq<ServerEvent>) -> nat
    decreases events.len(),
{
    if events.len() == 0 {
        0
    } else {
        let earlier = game_over_notices(m, events.drop_last());
        match events.last() {
            ServerEvent::FinishTick { game_over_just_triggered } => if notifies_game_over(
                run(m, events.drop_last()),
                game_over_just_triggered,
            ) {
                earlier + 1
            } else {
                earlier
            },
            _ => earlier,
        }
    }
}

/// Event `e` in state `m` makes a new game-over notice possible: it admits a
/// new player, or it is the active player's request to restart.
pub open spec fn rearms(m: ServerView, e: ServerEvent) -> bool {
    match e {
        ServerEvent::Connect => m.session is None,
        ServerEvent::Command { player_id, command } => command == ClientCommand::Reset && owns(
            m,
            player_id,
        ),
        _ => false,
    }
}

/// No event of the run re-arms the game-over notice.
pub open spec fn never_rearmed(m: ServerView, events: Seq<ServerEvent>) -> bool
    decreases events.len(),
{
    if events.len() == 0 {
        true
    } else {
        never_rearmed(m, events.drop_last()) && !rearms(run(m, events.drop_last()), events.last())
    }
}

/// An active player who has not yet been told of a game over.
pub open spec fn armed(m: ServerView) -> bool {
    match m.session {
        Some(s) => !s.game_over_sent,
        None => false,
    }
}

proof fn lemma_event_keeps_next_id(m: ServerView, e: ServerEvent)
    ensures
        apply_event(m, e).next_player_id >= m.next_player_id,
{
}

proof fn lemma_run_keeps_next_id(m: ServerView, events: Seq<ServerEvent>)
    ensures
        run(m, events).next_player_id >= m.next_player_id,
    decreases events.len(),
{
    if events.len() > 0 {
        lemma_run_keeps_next_id(m, events.drop_last());
        lemma_event_keeps_next_id(run(m, events.drop_last()), events.last());
    }
}

/// Every event keeps the state well formed.
pub proof fn lemma_run_stays_well_formed(m: ServerView, events: Seq<ServerEvent>)
    requires
        well_formed(m),
    ensures
        well_formed(run(m, events)),
    decreases events.len(),
{
    if events.len() > 0 {
        lemma_run_stays_well_formed(m, events.drop_last());
    }
}

/// While a player is active, a connection is refused with the server-full
/// message and the state stays as it is: one player at a time.
pub proof fn lemma_one_player_at_a_time(m: ServerView)
    requires
        m.session is Some,
    ensures
        connect_model(m) == m,
        connect_answer(m) == (AdmissionView::Refused { message: server_full_text() }),
{
}

/// Player ids are never handed out twice: over any run in which the id
/// counter does not reach its maximum, the admitted ids are consecutive,
/// starting at the counter at the start; they strictly increase, and the
/// counter at the end is the one after the last of them.
pub proof fn lemma_admitted_ids_strictly_increase(m: ServerView, events: Seq<ServerEvent>)
    requires
        run(m, events).next_player_id < u64::MAX,
    ensures
        run(m, events).next_player_id == m.next_player_id + admitted_ids(m, events).len(),
        forall|i: int|
            0 <= i < admitted_ids(m, events).len() ==> #[trigger] admitted_ids(m, events)[i]
                == m.next_player_id + i,
        forall|i: int, j: int|
            0 <= i < j < admitted_ids(m, events).len() ==> admitted_ids(m, events)[i]
                < admitted_ids(m, events)[j],
        forall|i: int|
            0 <= i < admitted_ids(m, events).len() ==> m.next_player_id <= #[trigger] admitted_ids(
                m,
                events,
            )[i] < run(m, events).next_player_id,
    decreases events.len(),
{
    if events.len() > 0 {
        let prefix = events.drop_last();
        let p = run(m, prefix);
        lemma_event_keeps_next_id(p, events.last());
        lemma_run_keeps_next_id(m, prefix);
        lemma_admitted_ids_strictly_increase(m, prefix);
        let earlier = admitted_ids(m, prefix);
        let ids = admitted_ids(m, events);
        if events.last() is Connect && p.session is None {
            assert(ids == earlier.push(p.next_player_id));
            assert(run(m, events).next_player_id == p.next_player_id + 1);
            assert forall|i: int, j: int| 0 <= i < j < ids.len() implies ids[i] < ids[j] by {
                if j < earlier.len() {
                    assert(ids[i] == earlier[i] && ids[j] == earlier[j]);
                } else {
                    assert(ids[i] == earlier[i]);
                }
            }
            assert forall|i: int| 0 <= i < ids.len() implies m.next_player_id <= #[trigger] ids[i]
                < run(m, events).next_player_id by {
                if i < earlier.len() {
                    assert(ids[i] == earlier[i]);
                }
            }
            assert forall|i: int| 0 <= i < ids.len() implies #[trigger] ids[i]
                == m.next_player_id + i by {
                if i < earlier.len() {
                    assert(ids[i] == earlier[i]);
                }
            }
        } else {
            assert(ids == earlier);
            assert(run(m, events).next_player_id == p.next_player_id);
        }
    }
}

/// A game over is announced at most once: over any run in which no player is
/// admitted and the active player never asks to restart, at most one
/// game-over notice goes out.
pub proof fn lemma_game_over_notified_at_most_once(m: ServerView, events: Seq<ServerEvent>)
    requires
        never_rearmed(m, events),
    ensures
        game_over_notices(m, events) <= 1,
        game_over_notices(m, events) + (if armed(run(m, events)) {
            1int
        } else {
            0int
        }) <= (if armed(m) {
            1int
        } else {
            0int
        }),
    decreases events.len(),
{
    if events.len() > 0 {
        lemma_game_over_notified_at_most_once(m, events.drop_last());
    }
}

/// A snapshot goes out on exactly one of any three consecutive ticks.
pub proof fn lemma_one_snapshot_per_interval(m: ServerView)
    requires
        m.tick + 3 <= u64::MAX,
    ensures
        ({
            let p1 = tick_plan(m);
            let p2 = tick_plan(begin_tick_model(m));
            let p3 = tick_plan(begin_tick_model(begin_tick_model(m)));
            (if p1.snapshot_due {
                1int
            } else {
                0int
            }) + (if p2.snapshot_due {
                1int
            } else {
                0int
            }) + (if p3.snapshot_due {
                1int
            } else {
                0int
            }) == 1
        }),
{
    let t = m.tick as int;
    assert(TICK_RATE_HZ / SNAPSHOT_RATE_HZ == 3);
    assert(tick_plan(m).tick == t + 1);
    assert(tick_plan(begin_tick_model(m)).tick == t + 2);
    assert(tick_plan(begin_tick_model(begin_tick_model(m))).tick == t + 3);
    assert((t + 1) % 3 == 0 || (t + 2) % 3 == 0 || (t + 3) % 3 == 0);
    assert(!((t + 1) % 3 == 0 && (t + 2) % 3 == 0));
    assert(!((t + 1) % 3 == 0 && (t + 3) % 3 == 0));
    assert(!((t + 2) % 3 == 0 && (t + 3) % 3 == 0));
}

/// With nobody playing, a connection at any tick admits the next id and
/// installs that player's fresh session; the next connection is then refused.
pub proof fn lemma_connect_installs_session(m: ServerView)
    requires
        m.session is None,
    ensures
        connect_answer(m) == (AdmissionView::Admitted { player_id: m.next_player_id }),
        connect_model(m).session == Some(
            Session { player_id: m.next_player_id, last_input_sequence: 0, game_over_sent: false },
        ),
        connect_model(m).tick == m.tick,
        owns(connect_model(m), m.next_player_id),
        connect_answer(connect_model(m)) == (AdmissionView::Refused {
            message: server_full_text(),
        }),
{
}

/// When the active player's connection closes, the session ends whatever its
/// input sequence or game-over flag, and the next connection is admitted. A
/// failed connection ends the session the same way.
pub proof fn lemma_disconnect_frees_arena(m: ServerView, player_id: u64)
    requires
        m.session matches Some(s) && s.player_id == player_id,
    ensures
        disconnect_model(m, player_id).session is None,
        disconnect_model(m, player_id).next_player_id == m.next_player_id,
        disconnect_model(m, player_id).tick == m.tick,
        connect_answer(disconnect_model(m, player_id)) == (AdmissionView::Admitted {
            player_id: m.next_player_id,
        }),
        drop_model(m).session is None,
        connect_answer(drop_model(m)) == (AdmissionView::Admitted {
            player_id: m.next_player_id,
        }),
{
}

/// The messages after a step, spelled out from the session: without a
/// player nothing goes out; with one, a game-over notice comes first exactly
/// when the step just ended the game and the player has not been told, and a
/// snapshot for the plan's tick with the player's latest input sequence and
/// the step's hits comes last exactly when a snapshot is due, whether or not
/// the game is over.
pub proof fn lemma_finish_tick_messages_spelled_out(
    m: ServerView,
    plan: TickPlan,
    game_over_just_triggered: bool,
    score: u32,
    hits: Seq<HitEvent>,
)
    ensures
        m.session is None ==> finish_tick_messages(m, plan, game_over_just_triggered, score, hits).len()
            == 0,
        m.session matches Some(s) ==> {
            let msgs = finish_tick_messages(m, plan, game_over_just_triggered, score, hits);
            let notice = game_over_just_triggered && !s.game_over_sent;
            &&& msgs.len() == (if notice {
                1int
            } else {
                0int
            }) + (if plan.snapshot_due {
                1int
            } else {
                0int
            })
            &&& notice ==> msgs[0] == OutboundView::GameOver {
                player_id: s.player_id,
                reason: fell_out_reason(),
                score,
            }
            &&& plan.snapshot_due ==> msgs[msgs.len() - 1] == OutboundView::Snapshot {
                player_id: s.player_id,
                tick: plan.tick,
                last_processed_input: s.last_input_sequence,
                recent_hits: hits,
            }
            &&& forall|k: int|
                0 <= k < msgs.len() ==> (#[trigger] msgs[k] is Snapshot) ==> plan.snapshot_due
        },
{
}

/// A command of the active player, spelled out: an input records its
/// sequence number, a restart request re-arms the game-over notice, a join
/// changes nothing, and none of them touches the player's id, the tick or
/// the id counter. Anyone else's command changes nothing.
pub proof fn lemma_command_spelled_out(m: ServerView, player_id: u64, command: ClientCommand)
    ensures
        !owns(m, player_id) ==> command_model(
            m,
            player_id,
            command,
        ) == m && command_effect(m, player_id, command) == CommandEffect::Ignored,
        owns(m, player_id) ==> {
            let s = m.session->0;
            let after = command_model(m, player_id, command);
            &&& after.tick == m.tick
            &&& after.next_player_id == m.next_player_id
            &&& after.session matches Some(a) && a.player_id == player_id && match command {
                ClientCommand::Join => a == s,
                ClientCommand::Input { sequence } => a.last_input_sequence == sequence
                    && a.game_over_sent == s.game_over_sent,
                ClientCommand::Reset => !a.game_over_sent && a.last_input_sequence
                    == s.last_input_sequence,
            }
        },
{
}

} // verus!
