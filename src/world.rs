use vstd::prelude::*;

use crate::input::{dir_x, dir_y, Input, INPUT_DOWN, INPUT_LEFT, INPUT_RIGHT, INPUT_UP};

verus! {

/// Number of players in a round.
pub const NUM_PLAYERS: usize = 2;
/// Largest distance of an entity's centre from the arena's centre along x,
/// in thousandths of a world unit (half the arena width minus the radius).
pub const X_LIMIT: i32 = 375_000;
/// Largest distance of an entity's centre from the arena's centre along y.
pub const Y_LIMIT: i32 = 275_000;
/// Distance covered in one frame along a single axis.
pub const SPEED: i32 = 5_000;
/// Per-axis distance covered in one frame when moving diagonally, so that
/// the speed stays (to rounding) the same in every direction.
pub const DIAG_SPEED: i32 = 3_536;
/// Horizontal start offset of each player from the centre.
pub const SPAWN_OFFSET: i32 = 200_000;

/// The deterministic state of one player's entity.
#[derive(Clone, Copy, Debug, PartialEq, Eq, Structural)]
pub struct Entity {
    pub x: i32,
    pub y: i32,
    pub vx: i32,
    pub vy: i32,
    pub handle: u8,
}

/// Everything that takes part in a rollback: the frame counter and every
/// entity, in player order.
#[derive(Debug)]
pub struct World {
    pub frame: usize,
    pub players: Vec<Entity>,
}

/// The mathematical value of a [`World`].
pub struct WorldState {
    pub frame: nat,
    pub players: Seq<Entity>,
}

impl View for World {
    type V = WorldState;

    open spec fn view(&self) -> WorldState {
        WorldState { frame: self.frame as nat, players: self.players@ }
    }
}

pub open spec fn clamp(v: int, lim: int) -> int {
    if v > lim {
        lim
    } else if v < -lim {
        -lim
    } else {
        v
    }
}

/// `d` in {-1, 0, 1} times the speed `s`.
pub open spec fn scaled(d: int, s: int) -> int {
    if d > 0 {
        s
    } else if d < 0 {
        -s
    } else {
        0
    }
}

pub open spec fn axis_speed(i: Input) -> int {
    if dir_x(i.bits) != 0 && dir_y(i.bits) != 0 {
        DIAG_SPEED as int
    } else {
        SPEED as int
    }
}

/// Velocity after reading an input: set from a movement intent, kept as it
/// was on a neutral one.
pub open spec fn next_vx(e: Entity, i: Input) -> int {
    if i.is_moving() {
        scaled(dir_x(i.bits), axis_speed(i))
    } else {
        e.vx as int
    }
}

pub open spec fn next_vy(e: Entity, i: Input) -> int {
    if i.is_moving() {
        scaled(dir_y(i.bits), axis_speed(i))
    } else {
        e.vy as int
    }
}

/// One frame of one entity: new velocity, then movement, then clamping to
/// the arena (no bounce).
pub open spec fn step_entity(e: Entity, i: Input) -> Entity {
    Entity {
        x: clamp(e.x + next_vx(e, i), X_LIMIT as int) as i32,
        y: clamp(e.y + next_vy(e, i), Y_LIMIT as int) as i32,
        vx: next_vx(e, i) as i32,
        vy: next_vy(e, i) as i32,
        handle: e.handle,
    }
}

/// The entity lies inside the arena and moves at most at full speed.
pub open spec fn entity_ok(e: Entity) -> bool {
    &&& -X_LIMIT <= e.x <= X_LIMIT
    &&& -Y_LIMIT <= e.y <= Y_LIMIT
    &&& -SPEED <= e.vx <= SPEED
    &&& -SPEED <= e.vy <= SPEED
}

/// Every entity is in bounds and carries its own index as player handle.
pub open spec fn world_ok(w: WorldState) -> bool {
    &&& w.players.len() <= 256
    &&& forall|k: int|
        0 <= k < w.players.len() ==> entity_ok(#[trigger] w.players[k]) && w.players[k].handle
            == k
}

/// One simulation step: each entity reads the input of its own player.
pub open spec fn advance_spec(w: WorldState, inputs: Seq<Input>) -> WorldState {
    WorldState {
        frame: w.frame + 1,
        players: Seq::new(w.players.len(), |k: int| step_entity(w.players[k], inputs[k])),
    }
}

/// The state reached from `w` by running one step per element of `frames`.
pub open spec fn simulate(w: WorldState, frames: Seq<Seq<Input>>) -> WorldState
    decreases frames.len(),
{
    if frames.len() == 0 {
        w
    } else {
        advance_spec(simulate(w, frames.drop_last()), frames.last())
    }
}

/// Every frame holds one input per entity of `w`.
pub open spec fn frames_fit(w: WorldState, frames: Seq<Seq<Input>>) -> bool {
    forall|f: int| 0 <= f < frames.len() ==> (#[trigger] frames[f]).len() == w.players.len()
}

pub open spec fn spawn_entity(k: int) -> Entity {
    Entity {
        x: (if k == 0 { -SPAWN_OFFSET as int } else { SPAWN_OFFSET as int }) as i32,
        y: 0,
        vx: 0,
        vy: 0,
        handle: k as u8,
    }
}

/// The state at the start of a round.
pub open spec fn initial_state() -> WorldState {
    WorldState { frame: 0, players: Seq::new(NUM_PLAYERS as nat, |k: int| spawn_entity(k)) }
}

proof fn lemma_step_ok(e: Entity, i: Input)
    requires
        entity_ok(e),
    ensures
        entity_ok(step_entity(e, i)),
        step_entity(e, i).handle == e.handle,
{
}

/// A step keeps every entity inside the arena and advances the frame by one.
pub proof fn lemma_advance_ok(w: WorldState, inputs: Seq<Input>)
    requires
        world_ok(w),
        inputs.len() == w.players.len(),
    ensures
        world_ok(advance_spec(w, inputs)),
        advance_spec(w, inputs).players.len() == w.players.len(),
        advance_spec(w, inputs).frame == w.frame + 1,
{
    let r = advance_spec(w, inputs);
    assert forall|k: int| 0 <= k < r.players.len() implies entity_ok(#[trigger] r.players[k])
        && r.players[k].handle == k by {
        lemma_step_ok(w.players[k], inputs[k]);
    }
}

/// However long the input sequence, every state reached from an in-bounds
/// state stays in bounds; the entities stay the same in number and the frame
/// counter grows by one per frame.
pub proof fn lemma_simulate_ok(w: WorldState, frames: Seq<Seq<Input>>)
    requires
        world_ok(w),
        frames_fit(w, frames),
    ensures
        world_ok(simulate(w, frames)),
        simulate(w, frames).players.len() == w.players.len(),
        simulate(w, frames).frame == w.frame + frames.len(),
    decreases frames.len(),
{
    if frames.len() > 0 {
        let p = frames.drop_last();
        assert(frames_fit(w, p)) by {
            assert forall|f: int| 0 <= f < p.len() implies (#[trigger] p[f]).len()
                == w.players.len() by {
                assert(p[f] == frames[f]);
            }
        }
        lemma_simulate_ok(w, p);
        assert(frames.last() == frames[frames.len() - 1]);
        lemma_advance_ok(simulate(w, p), frames.last());
    }
}

/// Two runs of two frames from identical states with identical inputs end
/// in identical states.
pub proof fn lemma_determinism(s1: WorldState, s2: WorldState, i1: Seq<Input>, i2: Seq<Input>)
    requires
        s1 == s2,
    ensures
        advance_spec(advance_spec(s1, i1), i2) == advance_spec(advance_spec(s2, i1), i2),
{
}

/// Running `a` then `b` from `w` reaches the same state as first running
/// `a`, keeping that state as a snapshot, and replaying `b` from it.
pub proof fn lemma_replay_equivalence(w: WorldState, a: Seq<Seq<Input>>, b: Seq<Seq<Input>>)
    ensures
        simulate(w, a + b) == simulate(simulate(w, a), b),
    decreases b.len(),
{
    if b.len() == 0 {
        assert(a + b =~= a);
    } else {
        assert((a + b).drop_last() =~= a + b.drop_last());
        assert((a + b).last() == b.last());
        lemma_replay_equivalence(w, a, b.drop_last());
    }
}

/// Simulating frames `[0, n)` straight through equals simulating `[0, k)`,
/// then rolling back to that snapshot and replaying `[k, n)`.
pub proof fn lemma_rollback_replay(w: WorldState, frames: Seq<Seq<Input>>, k: int)
    requires
        0 <= k <= frames.len(),
    ensures
        simulate(w, frames) == simulate(
            simulate(w, frames.subrange(0, k)),
            frames.subrange(k, frames.len() as int),
        ),
{
    assert(frames =~= frames.subrange(0, k) + frames.subrange(k, frames.len() as int));
    lemma_replay_equivalence(w, frames.subrange(0, k), frames.subrange(k, frames.len() as int));
}

pub proof fn lemma_initial_ok()
    ensures
        world_ok(initial_state()),
        initial_state().players.len() == NUM_PLAYERS,
{
}

fn step_velocity(e: &Entity, i: Input) -> (r: (i32, i32))
    requires
        entity_ok(*e),
    ensures
        r.0 == next_vx(*e, i),
        r.1 == next_vy(*e, i),
{
    let right = i.bits & INPUT_RIGHT != 0;
    let left = i.bits & INPUT_LEFT != 0;
    let up = i.bits & INPUT_UP != 0;
    let down = i.bits & INPUT_DOWN != 0;
    let dx: i32 = if right && !left { 1 } else if left && !right { -1 } else { 0 };
    let dy: i32 = if up && !down { 1 } else if down && !up { -1 } else { 0 };
    if dx == 0 && dy == 0 {
        (e.vx, e.vy)
    } else {
        let s: i32 = if dx != 0 && dy != 0 { DIAG_SPEED } else { SPEED };
        let vx: i32 = if dx > 0 { s } else if dx < 0 { -s } else { 0 };
        let vy: i32 = if dy > 0 { s } else if dy < 0 { -s } else { 0 };
        (vx, vy)
    }
}

fn clamp_i32(v: i32, lim: i32) -> (r: i32)
    requires
        lim >= 0,
        v > i32::MIN,
    ensures
        r == clamp(v as int, lim as int),
{
    if v > lim {
        lim
    } else if v < -lim {
        -lim
    } else {
        v
    }
}

/// Advances one entity by one frame.
pub fn step(e: &Entity, i: Input) -> (r: Entity)
    requires
        entity_ok(*e),
    ensures
        r == step_entity(*e, i),
        entity_ok(r),
{
    let (vx, vy) = step_velocity(e, i);
    Entity {
        x: clamp_i32(e.x + vx, X_LIMIT),
        y: clamp_i32(e.y + vy, Y_LIMIT),
        vx,
        vy,
        handle: e.handle,
    }
}

impl World {
    /// The world at the start of a round: each player at its spawn point,
    /// at rest, frame zero.
    pub fn new() -> (r: World)
        ensures
            r@ == initial_state(),
            world_ok(r@),
    {
        let mut players: Vec<Entity> = Vec::new();
        players.push(Entity { x: -SPAWN_OFFSET, y: 0, vx: 0, vy: 0, handle: 0 });
        players.push(Entity { x: SPAWN_OFFSET, y: 0, vx: 0, vy: 0, handle: 1 });
        proof {
            assert(players@ =~= Seq::new(NUM_PLAYERS as nat, |k: int| spawn_entity(k)));
        }
        World { frame: 0, players }
    }

    /// Advances the world by one frame, entity `k` reading `inputs[k]`.
    pub fn advance(&self, inputs: &Vec<Input>) -> (r: World)
        requires
            world_ok(self@),
            inputs.len() == self.players.len(),
            self.frame < usize::MAX,
        ensures
            r@ == advance_spec(self@, inputs@),
            world_ok(r@),
    {
        let mut players: Vec<Entity> = Vec::new();
        let mut k: usize = 0;
        while k < self.players.len()
            invariant
                world_ok(self@),
                inputs.len() == self.players.len(),
                k <= self.players.len(),
                players@.len() == k,
                forall|j: int|
                    0 <= j < k ==> #[trigger] players@[j] == step_entity(
                        self.players@[j],
                        inputs@[j],
                    ),
            decreases self.players.len() - k,
        {
            let e = step(&self.players[k], inputs[k]);
            players.push(e);
            k = k + 1;
        }
        let r = World { frame: self.frame + 1, players };
        proof {
            assert(r@.players =~= advance_spec(self@, inputs@).players);
        }
        r
    }
}

} // verus!
