//! The rules of the arena: which targets stand, what a shot does, the score,
//! and when the game is over. The geometry (movement, collisions, ray casts)
//! is measured by the caller and handed in as a `PhysicsReport`.

use crate::protocol::HitEvent;
use vstd::prelude::*;

verus! {

/// Identifies a collider of the physics scene by its slot and generation.
#[derive(Clone, Copy, Debug, PartialEq, Eq, Structural)]
pub struct ColliderKey {
    pub index: u32,
    pub generation: u32,
}

/// A target to place in a new world: its id and the collider that stands for it.
#[derive(Clone, Copy, Debug, PartialEq, Eq, Structural)]
pub struct TargetSpawn {
    pub id: u32,
    pub collider: ColliderKey,
}

/// A target of the arena.
#[derive(Clone, Copy, Debug, PartialEq, Eq, Structural)]
pub struct TargetState {
    pub id: u32,
    pub collider: ColliderKey,
    pub alive: bool,
}

/// What one simulation step produced for the player.
#[derive(Clone, Debug)]
pub struct StepOutcome {
    pub recent_hits: Vec<HitEvent>,
    pub game_over_just_triggered: bool,
}

impl Default for StepOutcome {
    fn default() -> (o: Self)
        ensures
            o.recent_hits@.len() == 0,
            !o.game_over_just_triggered,
    {
        StepOutcome { recent_hits: Vec::new(), game_over_just_triggered: false }
    }
}

/// What the physics measured during a step: whether the player fell below the
/// arena, and which collider the player's shot struck, if the player fired
/// and the ray met one.
#[derive(Clone, Copy, Debug)]
pub struct PhysicsReport {
    pub fell_out_of_bounds: bool,
    pub shot: Option<ColliderKey>,
}

/// A step's outcome together with the index of the target it took down.
#[derive(Clone, Debug)]
pub struct StepResult {
    pub outcome: StepOutcome,
    pub killed_target: Option<usize>,
}

/// A target's id and whether it stands, as shown in a snapshot.
#[derive(Clone, Copy, Debug, PartialEq, Eq, Structural)]
pub struct TargetStatus {
    pub id: u32,
    pub alive: bool,
}

/// The part of a snapshot that the rules decide.
#[derive(Clone, Debug)]
pub struct SnapshotSummary {
    pub tick: u64,
    pub last_processed_input: u64,
    pub targets: Vec<TargetStatus>,
    pub score: u32,
    pub recent_hits: Vec<HitEvent>,
    pub game_over: bool,
}

/// The rules state of the arena.
pub struct GameWorld {
    targets: Vec<TargetState>,
    score: u32,
    game_over: bool,
}

/// The mathematical model of a `GameWorld`.
pub struct WorldView {
    pub targets: Seq<TargetState>,
    pub score: u32,
    pub game_over: bool,
}

impl View for GameWorld {
    type V = WorldView;

    closed spec fn view(&self) -> WorldView {
        WorldView { targets: self.targets@, score: self.score, game_over: self.game_over }
    }
}

/// A shot that strikes `key` takes down `t`.
pub open spec fn hittable(t: TargetState, key: ColliderKey) -> bool {
    t.collider == key && t.alive
}

/// `i` is the first target that a shot striking `key` takes down.
pub open spec fn is_first_hittable(targets: Seq<TargetState>, key: ColliderKey, i: int) -> bool {
    &&& 0 <= i < targets.len()
    &&& hittable(targets[i], key)
    &&& forall|j: int| 0 <= j < i ==> !hittable(#[trigger] targets[j], key)
}

/// The index of the first standing target whose collider is `key`, if any.
pub open spec fn first_hittable(targets: Seq<TargetState>, key: ColliderKey) -> Option<int> {
    if exists|i: int| is_first_hittable(targets, key, i) {
        Some(choose|i: int| is_first_hittable(targets, key, i))
    } else {
        None
    }
}

/// Adding one to a score, stopping at the largest `u32`.
pub open spec fn saturating_inc(s: u32) -> u32 {
    if s == u32::MAX {
        s
    } else {
        (s + 1) as u32
    }
}

/// The target a step takes down: the first standing target struck by the
/// shot, provided the game is running and the player did not fall.
pub open spec fn shot_target(w: WorldView, r: PhysicsReport) -> Option<int> {
    if w.game_over || r.fell_out_of_bounds {
        None
    } else {
        match r.shot {
            Some(key) => first_hittable(w.targets, key),
            None => None,
        }
    }
}

/// `t` taken down.
pub open spec fn downed(t: TargetState) -> TargetState {
    TargetState { id: t.id, collider: t.collider, alive: false }
}

/// `t` standing again.
pub open spec fn raised(t: TargetState) -> TargetState {
    TargetState { id: t.id, collider: t.collider, alive: true }
}

/// The world after a step.
pub open spec fn step_world(w: WorldView, r: PhysicsReport) -> WorldView {
    if w.game_over {
        w
    } else if r.fell_out_of_bounds {
        WorldView { targets: w.targets, score: w.score, game_over: true }
    } else {
        match shot_target(w, r) {
            Some(i) => WorldView {
                targets: w.targets.update(i, downed(w.targets[i])),
                score: saturating_inc(w.score),
                game_over: false,
            },
            None => w,
        }
    }
}

/// The hits a step reports.
pub open spec fn step_hits(w: WorldView, r: PhysicsReport) -> Seq<HitEvent> {
    match shot_target(w, r) {
        Some(i) => seq![HitEvent { target_id: w.targets[i].id, score: saturating_inc(w.score) }],
        None => seq![],
    }
}

/// Whether a step ends the game.
pub open spec fn step_ends_game(w: WorldView, r: PhysicsReport) -> bool {
    !w.game_over && r.fell_out_of_bounds
}

/// The world after a full reset: every target standing, score zero, game running.
pub open spec fn full_reset_world(w: WorldView) -> WorldView {
    WorldView {
        targets: Seq::new(w.targets.len(), |i: int| raised(w.targets[i])),
        score: 0,
        game_over: false,
    }
}

/// The world after a restart that follows a game over: the game runs again
/// and the score and targets stay.
pub open spec fn restarted_world(w: WorldView) -> WorldView {
    WorldView { targets: w.targets, score: w.score, game_over: false }
}

/// A fresh world with the given targets.
pub open spec fn spawned_world(spawns: Seq<TargetSpawn>) -> WorldView {
    WorldView {
        targets: Seq::new(
            spawns.len(),
            |i: int| TargetState { id: spawns[i].id, collider: spawns[i].collider, alive: true },
        ),
        score: 0,
        game_over: false,
    }
}

/// The world after the target at index `i` stands up again.
pub open spec fn revived_world(w: WorldView, i: int) -> WorldView {
    WorldView {
        targets: w.targets.update(i, raised(w.targets[i])),
        score: w.score,
        game_over: w.game_over,
    }
}

/// The status of a target as a snapshot shows it.
pub open spec fn status_of(t: TargetState) -> TargetStatus {
    TargetStatus { id: t.id, alive: t.alive }
}

impl GameWorld {
    /// A world whose targets are `spawns`, all standing, with score zero and
    /// the game running.
    pub fn new(spawns: Vec<TargetSpawn>) -> (w: GameWorld)
        ensures
            w@ == spawned_world(spawns@),
    {
        let mut targets: Vec<TargetState> = Vec::new();
        let mut i: usize = 0;
        while i < spawns.len()
            invariant
                i <= spawns.len(),
                targets@.len() == i,
                forall|j: int|
                    0 <= j < i ==> #[trigger] targets@[j] == (TargetState {
                        id: spawns@[j].id,
                        collider: spawns@[j].collider,
                        alive: true,
                    }),
            decreases spawns.len() - i,
        {
            let s = spawns[i];
            targets.push(TargetState { id: s.id, collider: s.collider, alive: true });
            i = i + 1;
        }
        let w = GameWorld { targets, score: 0, game_over: false };
        assert(w@.targets =~= spawned_world(spawns@).targets);
        w
    }

    /// The player's score.
    pub fn score(&self) -> (s: u32)
        ensures
            s == self@.score,
    {
        self.score
    }

    /// Whether the game is over.
    pub fn is_game_over(&self) -> (b: bool)
        ensures
            b == self@.game_over,
    {
        self.game_over
    }

    /// The number of targets.
    pub fn target_count(&self) -> (n: usize)
        ensures
            n == self@.targets.len(),
    {
        self.targets.len()
    }

    /// The target at index `i`.
    pub fn target(&self, i: usize) -> (t: TargetState)
        requires
            i < self@.targets.len(),
        ensures
            t == self@.targets[i as int],
    {
        self.targets[i]
    }

    /// The index of the first standing target whose collider is `key`.
    fn find_hittable(&self, key: ColliderKey) -> (r: Option<usize>)
        ensures
            match r {
                Some(i) => first_hittable(self@.targets, key) == Some(i as int),
                None => first_hittable(self@.targets, key) is None,
            },
    {
        let mut i: usize = 0;
        while i < self.targets.len()
            invariant
                i <= self.targets@.len(),
                forall|j: int| 0 <= j < i ==> !hittable(#[trigger] self.targets@[j], key),
            decreases self.targets@.len() - i,
        {
            let t = self.targets[i];
            if t.collider == key && t.alive {
                proof {
                    lemma_first_hittable_unique(self@.targets, key, i as int);
                }
                return Some(i);
            }
            i = i + 1;
        }
        proof {
            if exists|k: int| is_first_hittable(self@.targets, key, k) {
                let c = choose|k: int| is_first_hittable(self@.targets, key, k);
                assert(!hittable(self@.targets[c], key));
            }
        }
        None
    }

    /// Applies the rules to one simulation step. While the game is over
    /// nothing changes and the outcome is empty. A fall ends the game. Else a
    /// shot that struck the collider of a standing target takes down the first
    /// such target and scores one point (the score stops at its maximum).
    pub fn step(&mut self, report: PhysicsReport) -> (r: StepResult)
        ensures
            final(self)@ == step_world(old(self)@, report),
            r.outcome.recent_hits@ == step_hits(old(self)@, report),
            r.outcome.game_over_just_triggered == step_ends_game(old(self)@, report),
            match r.killed_target {
                Some(i) => shot_target(old(self)@, report) == Some(i as int),
                None => shot_target(old(self)@, report) is None,
            },
    {
        if self.game_over {
            return StepResult { outcome: StepOutcome::default(), killed_target: None };
        }
        if report.fell_out_of_bounds {
            self.game_over = true;
            return StepResult {
                outcome: StepOutcome { recent_hits: Vec::new(), game_over_just_triggered: true },
                killed_target: None,
            };
        }
        match report.shot {
            None => StepResult { outcome: StepOutcome::default(), killed_target: None },
            Some(key) => match self.find_hittable(key) {
                None => StepResult { outcome: StepOutcome::default(), killed_target: None },
                Some(i) => {
                    let t = self.targets[i];
                    self.targets[i] = TargetState { id: t.id, collider: t.collider, alive: false };
                    self.score = self.score.saturating_add(1);
                    let mut hits: Vec<HitEvent> = Vec::new();
                    hits.push(HitEvent { target_id: t.id, score: self.score });
                    proof {
                        assert(hits@ =~= step_hits(old(self)@, report));
                        assert(self@.targets =~= step_world(old(self)@, report).targets);
                    }
                    StepResult {
                        outcome: StepOutcome { recent_hits: hits, game_over_just_triggered: false },
                        killed_target: Some(i),
                    }
                },
            },
        }
    }

    /// Stands the target at index `i` up again, once its respawn time is over.
    pub fn revive_target(&mut self, i: usize)
        requires
            i < old(self)@.targets.len(),
        ensures
            final(self)@ == revived_world(old(self)@, i as int),
    {
        let t = self.targets[i];
        self.targets[i] = TargetState { id: t.id, collider: t.collider, alive: true };
        proof {
            assert(self@.targets =~= old(self)@.targets.update(
                i as int,
                raised(old(self)@.targets[i as int]),
            ));
        }
    }

    /// Restarts the game after a game over; the score and the targets stay.
    pub fn reset_after_game_over(&mut self)
        ensures
            final(self)@ == restarted_world(old(self)@),
    {
        self.game_over = false;
    }

    /// Starts over: every target stands, the score is zero and the game runs.
    pub fn full_reset(&mut self)
        ensures
            final(self)@ == full_reset_world(old(self)@),
    {
        self.score = 0;
        self.game_over = false;
        let mut i: usize = 0;
        while i < self.targets.len()
            invariant
                i <= self.targets@.len(),
                self.targets@.len() == old(self)@.targets.len(),
                self.score == 0,
                !self.game_over,
                forall|j: int|
                    0 <= j < i ==> #[trigger] self.targets@[j] == raised(old(self)@.targets[j]),
                forall|j: int|
                    i <= j < self.targets@.len() ==> #[trigger] self.targets@[j] == old(
                        self,
                    )@.targets[j],
            decreases self.targets@.len() - i,
        {
            let t = self.targets[i];
            self.targets[i] = TargetState { id: t.id, collider: t.collider, alive: true };
            i = i + 1;
        }
        proof {
            assert(self@.targets =~= full_reset_world(old(self)@).targets);
        }
    }

    /// The rules' part of a snapshot at `tick`: the targets' ids and whether
    /// they stand, the score, whether the game is over, and the given input
    /// sequence and hits.
    pub fn snapshot(&self, tick: u64, last_processed_input: u64, recent_hits: Vec<HitEvent>) -> (s:
        SnapshotSummary)
        ensures
            s.tick == tick,
            s.last_processed_input == last_processed_input,
            s.targets@ == self@.targets.map_values(|t: TargetState| status_of(t)),
            s.score == self@.score,
            s.recent_hits@ == recent_hits@,
            s.game_over == self@.game_over,
    {
        let mut targets: Vec<TargetStatus> = Vec::new();
        let mut i: usize = 0;
        while i < self.targets.len()
            invariant
                i <= self.targets@.len(),
                targets@ == self.targets@.subrange(0, i as int).map_values(
                    |t: TargetState| status_of(t),
                ),
            decreases self.targets@.len() - i,
        {
            let t = self.targets[i];
            targets.push(TargetStatus { id: t.id, alive: t.alive });
            proof {
                assert(self.targets@.subrange(0, i + 1) =~= self.targets@.subrange(0, i as int).push(
                    t,
                ));
                assert(targets@ =~= self.targets@.subrange(0, i + 1).map_values(
                    |t: TargetState| status_of(t),
                ));
            }
            i = i + 1;
        }
        proof {
            assert(self.targets@.subrange(0, self.targets@.len() as int) =~= self.targets@);
        }
        SnapshotSummary {
            tick,
            last_processed_input,
            targets,
            score: self.score,
            recent_hits,
            game_over: self.game_over,
        }
    }
}

/// The first standing target struck by a shot is a standing target with that
/// collider, and no earlier target is one.
pub proof fn lemma_first_hittable_is_first(targets: Seq<TargetState>, key: ColliderKey)
    ensures
        match first_hittable(targets, key) {
            Some(i) => is_first_hittable(targets, key, i),
            None => forall|j: int| 0 <= j < targets.len() ==> !hittable(#[trigger] targets[j], key),
        },
{
    if first_hittable(targets, key) is None {
        assert forall|j: int| 0 <= j < targets.len() implies !hittable(#[trigger] targets[j], key) by {
            if hittable(targets[j], key) {
                lemma_some_first_hittable(targets, key, j);
            }
        }
    }
}

/// The first standing target struck by a shot is determined: any index that
/// is the first hittable one is the one `first_hittable` names.
pub proof fn lemma_first_hittable_unique(targets: Seq<TargetState>, key: ColliderKey, i: int)
    requires
        is_first_hittable(targets, key, i),
    ensures
        first_hittable(targets, key) == Some(i),
{
    let c = choose|k: int| is_first_hittable(targets, key, k);
    assert(is_first_hittable(targets, key, c));
    if c < i {
        assert(!hittable(targets[c], key));
    }
    if c > i {
        assert(!hittable(targets[i], key));
    }
}

proof fn lemma_some_first_hittable(targets: Seq<TargetState>, key: ColliderKey, j: int)
    requires
        0 <= j < targets.len(),
        hittable(targets[j], key),
    ensures
        exists|i: int| is_first_hittable(targets, key, i),
    decreases j,
{
    if forall|k: int| 0 <= k < j ==> !hittable(#[trigger] targets[k], key) {
        assert(is_first_hittable(targets, key, j));
    } else {
        let k = choose|k: int| 0 <= k < j && hittable(#[trigger] targets[k], key);
        lemma_some_first_hittable(targets, key, k);
    }
}

/// Once the game is over, a step changes nothing and reports nothing.
pub proof fn lemma_game_over_freezes_world(w: WorldView, r: PhysicsReport)
    requires
        w.game_over,
    ensures
        step_world(w, r) == w,
        step_hits(w, r).len() == 0,
        !step_ends_game(w, r),
{
}

/// After a fall ends the game, a restart brings back the same score and
/// targets with the game running again.
pub proof fn lemma_restart_after_fall_keeps_score(w: WorldView, r: PhysicsReport)
    requires
        !w.game_over,
        r.fell_out_of_bounds,
    ensures
        step_ends_game(w, r),
        step_world(w, r).game_over,
        step_hits(w, r).len() == 0,
        restarted_world(step_world(w, r)) == w,
{
}

/// A step scores at most one point: with a hit, the score grows by one
/// (stopping at its maximum), the hit reports the new score and the id of a
/// target that stood and now is down; without one the score and targets stay.
pub proof fn lemma_one_point_per_hit(w: WorldView, r: PhysicsReport)
    ensures
        step_hits(w, r).len() <= 1,
        step_world(w, r).score >= w.score,
        step_world(w, r).targets.len() == w.targets.len(),
        step_hits(w, r).len() == 1 ==> {
            let h = step_hits(w, r)[0];
            &&& step_world(w, r).score == saturating_inc(w.score)
            &&& h.score == step_world(w, r).score
            &&& exists|i: int|
                0 <= i < w.targets.len() && #[trigger] w.targets[i].id == h.target_id
                    && w.targets[i].alive && !step_world(w, r).targets[i].alive
        },
        step_hits(w, r).len() == 0 ==> step_world(w, r).score == w.score && step_world(
            w,
            r,
        ).targets == w.targets,
{
    match r.shot {
        Some(key) => lemma_first_hittable_is_first(w.targets, key),
        None => {},
    }
    if step_hits(w, r).len() == 1 {
        let i = shot_target(w, r)->0;
        assert(w.targets[i].id == step_hits(w, r)[0].target_id);
    }
}

/// A target that a step takes down cannot be taken down again by the next
/// step, whatever that step's shot.
pub proof fn lemma_downed_target_not_hit_again(w: WorldView, r: PhysicsReport, r2: PhysicsReport)
    requires
        shot_target(w, r) is Some,
    ensures
        shot_target(step_world(w, r), r2) != shot_target(w, r),
{
    let key = r.shot->0;
    lemma_first_hittable_is_first(w.targets, key);
    let w2 = step_world(w, r);
    match r2.shot {
        Some(key2) => lemma_first_hittable_is_first(w2.targets, key2),
        None => {},
    }
}

/// Steps, revivals, restarts and full resets keep the number of targets and
/// each target's id and collider.
pub proof fn lemma_targets_keep_identity(w: WorldView, r: PhysicsReport, i: int)
    requires
        0 <= i < w.targets.len(),
    ensures
        step_world(w, r).targets.len() == w.targets.len(),
        step_world(w, r).targets[i].id == w.targets[i].id,
        step_world(w, r).targets[i].collider == w.targets[i].collider,
        restarted_world(w).targets == w.targets,
        full_reset_world(w).targets.len() == w.targets.len(),
        full_reset_world(w).targets[i].id == w.targets[i].id,
        full_reset_world(w).targets[i].collider == w.targets[i].collider,
        full_reset_world(w).targets[i].alive,
{
}

/// A second full reset changes nothing.
pub proof fn lemma_full_reset_idempotent(w: WorldView)
    ensures
        full_reset_world(full_reset_world(w)) == full_reset_world(w),
{
    assert(full_reset_world(full_reset_world(w)).targets =~= full_reset_world(w).targets);
}

/// One operation of the rules that keeps the targets' identities: a step, a
/// restart after a game over, or a revival of the target at `index`.
pub enum WorldEvent {
    Step { report: PhysicsReport },
    Restart,
    Revive { index: int },
}

/// The world after one operation. A revival needs a target at `index`; the
/// library cannot be asked for one out of range.
pub open spec fn apply_world_event(w: WorldView, e: WorldEvent) -> WorldView {
    match e {
        WorldEvent::Step { report } => step_world(w, report),
        WorldEvent::Restart => restarted_world(w),
        WorldEvent::Revive { index } => if 0 <= index < w.targets.len() {
            revived_world(w, index)
        } else {
            w
        },
    }
}

/// The world after a run of operations.
pub open spec fn world_run(w: WorldView, events: Seq<WorldEvent>) -> WorldView
    decreases events.len(),
{
    if events.len() == 0 {
        w
    } else {
        apply_world_event(world_run(w, events.drop_last()), events.last())
    }
}

/// The number of hits that the steps of a run report.
pub open spec fn reported_hits(w: WorldView, events: Seq<WorldEvent>) -> nat
    decreases events.len(),
{
    if events.len() == 0 {
        0
    } else {
        let earlier = reported_hits(w, events.drop_last());
        match events.last() {
            WorldEvent::Step { report } => earlier + step_hits(
                world_run(w, events.drop_last()),
                report,
            ).len(),
            _ => earlier,
        }
    }
}

/// `n`, capped at the largest `u32`.
pub open spec fn capped_score(n: int) -> int {
    if n > u32::MAX {
        u32::MAX as int
    } else {
        n
    }
}

/// Over any run of steps, restarts and revivals, the score grows by the
/// number of reported hits, stopping at the largest `u32`.
pub proof fn lemma_score_counts_hits(w: WorldView, events: Seq<WorldEvent>)
    ensures
        world_run(w, events).score == capped_score(w.score + reported_hits(w, events)),
    decreases events.len(),
{
    if events.len() > 0 {
        let prefix = events.drop_last();
        lemma_score_counts_hits(w, prefix);
        match events.last() {
            WorldEvent::Step { report } => lemma_one_point_per_hit(world_run(w, prefix), report),
            _ => {},
        }
    }
}

/// Since a new world or a full reset, the score is the number of hits the
/// steps have reported, stopping at the largest `u32`.
pub proof fn lemma_score_counts_hits_since_reset(
    spawns: Seq<TargetSpawn>,
    w: WorldView,
    events: Seq<WorldEvent>,
)
    ensures
        world_run(spawned_world(spawns), events).score == capped_score(
            reported_hits(spawned_world(spawns), events) as int,
        ),
        world_run(full_reset_world(w), events).score == capped_score(
            reported_hits(full_reset_world(w), events) as int,
        ),
{
    lemma_score_counts_hits(spawned_world(spawns), events);
    lemma_score_counts_hits(full_reset_world(w), events);
}

/// A run of steps, restarts and revivals keeps the number of targets and each
/// target's id and collider.
pub proof fn lemma_run_keeps_identity(w: WorldView, events: Seq<WorldEvent>)
    ensures
        world_run(w, events).targets.len() == w.targets.len(),
        forall|i: int|
            0 <= i < w.targets.len() ==> (#[trigger] world_run(w, events).targets[i]).id
                == w.targets[i].id && world_run(w, events).targets[i].collider
                == w.targets[i].collider,
    decreases events.len(),
{
    if events.len() > 0 {
        let prefix = events.drop_last();
        lemma_run_keeps_identity(w, prefix);
        let p = world_run(w, prefix);
        assert forall|i: int| 0 <= i < w.targets.len() implies (#[trigger] world_run(
            w,
            events,
        ).targets[i]).id == w.targets[i].id && world_run(w, events).targets[i].collider
            == w.targets[i].collider by {
            match events.last() {
                WorldEvent::Step { report } => lemma_targets_keep_identity(p, report, i),
                _ => {},
            }
        }
    }
}

/// A full reset of a world reached from a new one by steps, restarts and
/// revivals gives back that new world.
pub proof fn lemma_full_reset_returns_to_new(spawns: Seq<TargetSpawn>, events: Seq<WorldEvent>)
    ensures
        full_reset_world(world_run(spawned_world(spawns), events)) == spawned_world(spawns),
{
    let start = spawned_world(spawns);
    lemma_run_keeps_identity(start, events);
    assert(full_reset_world(world_run(start, events)).targets =~= start.targets);
}

/// A shot at a standing target always scores, whatever the score: in a
/// running game without a fall, if the shot strikes the collider of some
/// standing target `i`, the step takes down a standing target `k <= i` with
/// that collider and no standing target with that collider before it, leaves
/// every other target as it was, raises the score by one (stopping at the
/// largest `u32`) and reports exactly that hit.
pub proof fn lemma_shot_at_standing_target_scores(
    w: WorldView,
    r: PhysicsReport,
    key: ColliderKey,
    i: int,
)
    requires
        !w.game_over,
        !r.fell_out_of_bounds,
        r.shot == Some(key),
        0 <= i < w.targets.len(),
        w.targets[i].collider == key,
        w.targets[i].alive,
    ensures
        exists|k: int|
            {
                &&& 0 <= k <= i
                &&& w.targets[k].collider == key
                &&& w.targets[k].alive
                &&& forall|j: int|
                    0 <= j < k ==> !((#[trigger] w.targets[j]).collider == key && w.targets[j].alive)
                &&& shot_target(w, r) == Some(k)
                &&& step_world(w, r).targets.len() == w.targets.len()
                &&& step_world(w, r).targets[k] == (TargetState {
                    id: w.targets[k].id,
                    collider: key,
                    alive: false,
                })
                &&& forall|j: int|
                    0 <= j < w.targets.len() && j != k ==> #[trigger] step_world(w, r).targets[j]
                        == w.targets[j]
                &&& step_hits(w, r) == seq![
                    HitEvent {
                        target_id: w.targets[k].id,
                        score: if w.score == u32::MAX {
                            w.score
                        } else {
                            (w.score + 1) as u32
                        },
                    },
                ]
            },
        step_world(w, r).score == (if w.score == u32::MAX {
            w.score
        } else {
            (w.score + 1) as u32
        }),
        !step_world(w, r).game_over,
        !step_ends_game(w, r),
{
    assert(hittable(w.targets[i], key));
    lemma_some_first_hittable(w.targets, key, i);
    lemma_first_hittable_is_first(w.targets, key);
    let k = first_hittable(w.targets, key)->0;
    assert(is_first_hittable(w.targets, key, k));
    assert(k <= i) by {
        if k > i {
            assert(!hittable(w.targets[i], key));
        }
    }
    assert forall|j: int| 0 <= j < k implies !((#[trigger] w.targets[j]).collider == key
        && w.targets[j].alive) by {
        assert(!hittable(w.targets[j], key));
    }
    assert(shot_target(w, r) == Some(k));
    let after = step_world(w, r);
    assert(after.targets == w.targets.update(k, downed(w.targets[k])));
    assert forall|j: int| 0 <= j < w.targets.len() && j != k implies #[trigger] after.targets[j]
        == w.targets[j] by {}
    assert(after.targets[k] == (TargetState { id: w.targets[k].id, collider: key, alive: false }));
    assert(w.targets[k].collider == key && w.targets[k].alive);
}

/// Standing target `i` up again changes only target `i`: it stands, keeps
/// its id and collider, and every other target, the score and the game-over
/// flag stay as they were.
pub proof fn lemma_revive_changes_only_that_target(w: WorldView, i: int)
    requires
        0 <= i < w.targets.len(),
    ensures
        revived_world(w, i).targets.len() == w.targets.len(),
        revived_world(w, i).targets[i] == (TargetState {
            id: w.targets[i].id,
            collider: w.targets[i].collider,
            alive: true,
        }),
        forall|j: int|
            0 <= j < w.targets.len() && j != i ==> #[trigger] revived_world(w, i).targets[j]
                == w.targets[j],
        revived_world(w, i).score == w.score,
        revived_world(w, i).game_over == w.game_over,
{
}

/// A new world holds the spawned targets in order, all standing, with score
/// zero and the game running.
pub proof fn lemma_new_world_spelled_out(spawns: Seq<TargetSpawn>)
    ensures
        spawned_world(spawns).targets.len() == spawns.len(),
        forall|i: int|
            0 <= i < spawns.len() ==> {
                let t = #[trigger] spawned_world(spawns).targets[i];
                t.id == spawns[i].id && t.collider == spawns[i].collider && t.alive
            },
        spawned_world(spawns).score == 0,
        !spawned_world(spawns).game_over,
{
}

} // verus!
