//! World state: tick, seed, generator and the rover registry.
//!
//! The physical fields of a rover (position, heading direction, speed) are
//! `f64` values in the simulation; the registry stores them as their IEEE 754
//! bit patterns, which is exactly what the state hash and the snapshot format
//! walk. The registry keeps rovers in strictly ascending id order, so every
//! walk over them (stepping, hashing, serializing) is deterministic.

use vstd::prelude::*;

use crate::commands::{
    bits_below_zero, bits_finite, command_error_text, f64_bits_below_zero, f64_bits_finite, Command, CommandError,
    ScanResult,
};
use crate::ids::{IdIssuer, RoverId};
use crate::rng::{all_zero, xoshiro_output, xoshiro_step, Rng};
use crate::rover::{advances_to, queues_batch, RoverTasks};
use crate::text::decimal;

verus! {

/// Physical fields of a rover as IEEE 754 `f64` bit patterns.
#[derive(Debug, Clone, Copy, PartialEq, Eq, Structural)]
pub struct RoverFields {
    /// Position, X component.
    pub position_x: u64,
    /// Position, Y component.
    pub position_y: u64,
    /// Heading direction vector, X component.
    pub heading_x: u64,
    /// Heading direction vector, Y component.
    pub heading_y: u64,
    /// Speed in world units per tick (`0` bits is `0.0`, the spawn value).
    pub speed: u64,
}

/// One registry entry: a rover id and its physical fields.
#[derive(Debug, Clone, Copy, PartialEq, Eq, Structural)]
pub struct RoverRecord {
    /// Entity id (registry key).
    pub id: RoverId,
    /// Physical fields.
    pub fields: RoverFields,
}

/// Rovers ordered by strictly ascending raw id (so no id occurs twice).
pub open spec fn ids_ascending(rovers: Seq<RoverRecord>) -> bool {
    forall|i: int, j: int| 0 <= i < j < rovers.len() ==> rovers[i].id@ < rovers[j].id@
}

/// Every rover id is non-zero and below the issuer watermark.
pub open spec fn ids_below(rovers: Seq<RoverRecord>, watermark: u32) -> bool {
    forall|i: int| 0 <= i < rovers.len() ==> 0 < #[trigger] rovers[i].id@ < watermark
}

/// Index of the rover with a given id, if present.
pub open spec fn index_of(rovers: Seq<RoverRecord>, id: RoverId) -> Option<int> {
    if exists|i: int| 0 <= i < rovers.len() && rovers[i].id == id {
        Some(choose|i: int| 0 <= i < rovers.len() && rovers[i].id == id)
    } else {
        None
    }
}

/// Full deterministic state of the simulated world.
///
/// Everything needed to continue the simulation identically lives here:
/// the logical tick (0 for a fresh world), the seed the world was generated
/// from, the rovers, the id issuer and the generator position.
#[derive(Debug, Clone, PartialEq, Eq)]
pub struct WorldState {
    tick: u64,
    seed: u64,
    rovers: Vec<RoverRecord>,
    id_issuer: IdIssuer,
    rng: Rng,
}

impl WorldState {
    /// The logical tick.
    pub closed spec fn current_tick(&self) -> u64 {
        self.tick
    }

    /// The seed.
    pub closed spec fn world_seed(&self) -> u64 {
        self.seed
    }

    /// The rovers, in ascending id order.
    pub closed spec fn rover_seq(&self) -> Seq<RoverRecord> {
        self.rovers@
    }

    /// Raw id the next spawned rover receives.
    pub closed spec fn watermark(&self) -> u32 {
        self.id_issuer.watermark()
    }

    /// The generator.
    pub closed spec fn rng_state(&self) -> Rng {
        self.rng
    }

    /// State invariant: ascending ids, all non-zero and below the issuer
    /// watermark, and a generator that is not in the all-zero state.
    pub open spec fn wf(&self) -> bool {
        &&& ids_ascending(self.rover_seq())
        &&& ids_below(self.rover_seq(), self.watermark())
        &&& self.watermark() >= 1
        &&& !all_zero(self.rng_state()@)
    }

    /// Empty world state for a seed: tick 0, no rovers, fresh id issuer,
    /// generator seeded from the seed.
    pub fn empty(seed: u64) -> (state: Self)
        ensures
            state.wf(),
            state.current_tick() == 0,
            state.world_seed() == seed,
            state.rover_seq() == Seq::<RoverRecord>::empty(),
            state.watermark() == 1,
            state.rng_state()@ == crate::rng::seeded_words(seed),
    {
        proof {
            crate::rng::lemma_seeded_words_not_all_zero(seed);
        }
        WorldState {
            tick: 0,
            seed,
            rovers: Vec::new(),
            id_issuer: IdIssuer::new(),
            rng: Rng::from_seed(seed),
        }
    }

    /// Logical tick number.
    pub fn tick(&self) -> (tick: u64)
        ensures
            tick == self.current_tick(),
    {
        self.tick
    }

    /// Seed the world was generated from.
    pub fn seed(&self) -> (seed: u64)
        ensures
            seed == self.world_seed(),
    {
        self.seed
    }

    /// Count one finished tick (saturating at `u64::MAX`).
    pub fn advance_tick(&mut self)
        ensures
            final(self).current_tick() == if old(self).current_tick() == u64::MAX {
                u64::MAX
            } else {
                (old(self).current_tick() + 1) as u64
            },
            final(self).world_seed() == old(self).world_seed(),
            final(self).rover_seq() == old(self).rover_seq(),
            final(self).watermark() == old(self).watermark(),
            final(self).rng_state() == old(self).rng_state(),
    {
        self.tick = self.tick.saturating_add(1);
    }

    /// The world generator (read-only).
    pub fn rng(&self) -> (rng: &Rng)
        ensures
            *rng == self.rng_state(),
    {
        &self.rng
    }

    /// Draw the next raw value from the world generator. Draws are part of
    /// the generation format and must stay ordered.
    pub fn next_u64(&mut self) -> (out: u64)
        requires
            old(self).wf(),
        ensures
            final(self).wf(),
            out == xoshiro_output(old(self).rng_state()@),
            final(self).rng_state()@ == xoshiro_step(old(self).rng_state()@),
            final(self).rover_seq() == old(self).rover_seq(),
            final(self).watermark() == old(self).watermark(),
            final(self).current_tick() == old(self).current_tick(),
            final(self).world_seed() == old(self).world_seed(),
    {
        proof {
            crate::rng::lemma_step_not_all_zero(self.rng@);
        }
        self.rng.next_u64()
    }

    /// Id-issuer watermark: the raw id the next spawned rover receives.
    pub fn next_rover_id(&self) -> (next: u32)
        ensures
            next == self.watermark(),
    {
        self.id_issuer.next_raw()
    }

    /// Rebuild a state from already-validated parts (snapshot decoding):
    /// ascending ids, all non-zero and below `next_rover_id`.
    pub fn from_parts(tick: u64, seed: u64, rovers: Vec<RoverRecord>, next_rover_id: u32, rng: Rng) -> (state: Self)
        requires
            ids_ascending(rovers@),
            ids_below(rovers@, next_rover_id),
            next_rover_id >= 1,
            !all_zero(rng@),
        ensures
            state.wf(),
            state.current_tick() == tick,
            state.world_seed() == seed,
            state.rover_seq() == rovers@,
            state.watermark() == next_rover_id,
            state.rng_state() == rng,
    {
        WorldState { tick, seed, rovers, id_issuer: IdIssuer::resume(next_rover_id), rng }
    }

    /// Spawn a rover with the given start pose (bit patterns) and speed 0,
    /// returning its id: the issuer watermark, which then moves up by one.
    ///
    /// The `u32` id space must not be exhausted (issuing past it is a
    /// caller error).
    pub fn spawn_rover(&mut self, position_x: u64, position_y: u64, heading_x: u64, heading_y: u64) -> (id: RoverId)
        requires
            old(self).wf(),
            old(self).watermark() < u32::MAX,
        ensures
            final(self).wf(),
            id@ == old(self).watermark(),
            final(self).watermark() == old(self).watermark() + 1,
            final(self).rover_seq() == old(self).rover_seq().push(RoverRecord {
                id,
                fields: RoverFields { position_x, position_y, heading_x, heading_y, speed: 0 },
            }),
            final(self).current_tick() == old(self).current_tick(),
            final(self).world_seed() == old(self).world_seed(),
            final(self).rng_state() == old(self).rng_state(),
    {
        let id = self.id_issuer.issue();
        let record = RoverRecord {
            id,
            fields: RoverFields { position_x, position_y, heading_x, heading_y, speed: 0 },
        };
        self.rovers.push(record);
        id
    }

    /// The rovers, in ascending id order.
    pub fn rovers(&self) -> (rovers: &[RoverRecord])
        ensures
            rovers@ == self.rover_seq(),
    {
        self.rovers.as_slice()
    }

    /// Position of the rover with this id in the ascending registry.
    pub(crate) fn find(&self, id: RoverId) -> (index: Option<usize>)
        requires
            self.wf(),
        ensures
            match index {
                Some(i) => i < self.rover_seq().len() && self.rover_seq()[i as int].id == id,
                None => forall|i: int| 0 <= i < self.rover_seq().len() ==> self.rover_seq()[i].id != id,
            },
    {
        let mut i: usize = 0;
        while i < self.rovers.len()
            invariant
                i <= self.rovers@.len(),
                forall|j: int| 0 <= j < i ==> self.rovers@[j].id != id,
            decreases self.rovers@.len() - i,
        {
            if self.rovers[i].id.raw() == id.raw() {
                proof {
                    RoverId::lemma_view_injective(self.rovers@[i as int].id, id);
                }
                return Some(i);
            }
            proof {
                RoverId::lemma_view_injective(self.rovers@[i as int].id, id);
            }
            i = i + 1;
        }
        None
    }

    /// Look up a rover by id.
    pub fn rover(&self, id: RoverId) -> (rover: Option<&RoverRecord>)
        requires
            self.wf(),
        ensures
            match rover {
                Some(r) => r.id == id && self.rover_seq().contains(*r),
                None => forall|i: int| 0 <= i < self.rover_seq().len() ==> self.rover_seq()[i].id != id,
            },
    {
        match self.find(id) {
            Some(i) => Some(&self.rovers[i]),
            None => None,
        }
    }

    /// Replace the physical fields of the rover at index `i`.
    pub(crate) fn set_fields_at(&mut self, i: usize, fields: RoverFields)
        requires
            old(self).wf(),
            i < old(self).rover_seq().len(),
        ensures
            final(self).wf(),
            final(self).rover_seq() == old(self).rover_seq().update(
                i as int,
                RoverRecord { id: old(self).rover_seq()[i as int].id, fields },
            ),
            final(self).watermark() == old(self).watermark(),
            final(self).current_tick() == old(self).current_tick(),
            final(self).world_seed() == old(self).world_seed(),
            final(self).rng_state() == old(self).rng_state(),
    {
        let id = self.rovers[i].id;
        self.rovers.set(i, RoverRecord { id, fields });
    }

    /// Replace the physical fields of the rover with this id; `false` (and
    /// no change) when there is no such rover.
    pub fn set_rover_fields(&mut self, id: RoverId, fields: RoverFields) -> (found: bool)
        requires
            old(self).wf(),
        ensures
            final(self).wf(),
            found == exists|i: int| 0 <= i < old(self).rover_seq().len() && old(self).rover_seq()[i].id == id,
            found ==> exists|i: int|
                0 <= i < old(self).rover_seq().len() && old(self).rover_seq()[i].id == id
                    && final(self).rover_seq() == old(self).rover_seq().update(i, RoverRecord { id, fields }),
            !found ==> final(self).rover_seq() == old(self).rover_seq(),
            final(self).watermark() == old(self).watermark(),
            final(self).current_tick() == old(self).current_tick(),
            final(self).world_seed() == old(self).world_seed(),
            final(self).rng_state() == old(self).rng_state(),
    {
        match self.find(id) {
            Some(i) => {
                let ghost before = self.rovers@;
                self.rovers.set(i, RoverRecord { id, fields });
                assert(self.rovers@ == before.update(i as int, RoverRecord { id, fields }));
                true
            },
            None => false,
        }
    }
}

/// A rover's command state has nothing pending or in flight.
pub open spec fn idle(t: RoverTasks) -> bool {
    &&& t.commands@.len() == 0
    &&& t.scan_buffer@.len() == 0
    &&& t.remaining_ticks == 0
}

/// The target of the rover's front command when it is a MoveTo.
pub open spec fn front_target(t: RoverTasks) -> Option<(u64, u64)> {
    if t.commands@.len() > 0 {
        match t.commands@[0] {
            Command::MoveTo { target_x, target_y } => Some((target_x, target_y)),
            _ => None,
        }
    } else {
        None
    }
}

/// A rover's movement over one tick, worked out by the host from its pose
/// and its front MoveTo target: the new physical fields and whether it
/// landed on the target.
#[derive(Debug, Clone, Copy, PartialEq, Eq, Structural)]
pub struct MoveResult {
    /// Fields after the tick's movement.
    pub fields: RoverFields,
    /// Whether the rover landed on its target this tick.
    pub arrived: bool,
}

/// A batch of commands was not queued.
#[derive(Debug, Clone, Copy, PartialEq, Eq)]
pub enum PushCommandsError {
    /// No rover with this id.
    UnknownRover(RoverId),
    /// A command failed validation; nothing was queued.
    Invalid(CommandError),
}

/// Text naming an unknown rover.
pub open spec fn unknown_rover_text(id: RoverId) -> Seq<char> {
    "no rover with id rover#"@ + decimal(id@ as nat)
}

/// Readable description of a push failure.
pub open spec fn push_error_text(e: PushCommandsError) -> Seq<char> {
    match e {
        PushCommandsError::UnknownRover(id) => unknown_rover_text(id),
        PushCommandsError::Invalid(error) => command_error_text(error),
    }
}

impl PushCommandsError {
    /// Readable description of the error (what `Display` shows).
    pub fn message(&self) -> (text: String)
        ensures
            text@ == push_error_text(*self),
    {
        match self {
            PushCommandsError::UnknownRover(id) => unknown_rover_message(*id),
            PushCommandsError::Invalid(error) => error.message(),
        }
    }
}

fn unknown_rover_message(id: RoverId) -> (text: String)
    ensures
        text@ == unknown_rover_text(id),
{
    let mut text = String::from_str("no rover with id rover#");
    crate::text::push_decimal(&mut text, id.raw() as u64);
    text
}

/// A cruise override was not set.
#[derive(Debug, Clone, Copy, PartialEq, Eq, Structural)]
pub enum SetSpeedError {
    /// No rover with this id.
    UnknownRover(RoverId),
    /// The speed is NaN or infinite.
    NotFinite,
    /// The speed is below zero.
    Negative,
}

/// Readable description of a speed failure.
pub open spec fn speed_error_text(e: SetSpeedError) -> Seq<char> {
    match e {
        SetSpeedError::UnknownRover(id) => unknown_rover_text(id),
        SetSpeedError::NotFinite => "speed is not finite"@,
        SetSpeedError::Negative => "speed is negative"@,
    }
}

impl SetSpeedError {
    /// Readable description of the error (what `Display` shows).
    pub fn message(&self) -> (text: String)
        ensures
            text@ == speed_error_text(*self),
    {
        match self {
            SetSpeedError::UnknownRover(id) => unknown_rover_message(*id),
            SetSpeedError::NotFinite => String::from_str("speed is not finite"),
            SetSpeedError::Negative => String::from_str("speed is negative"),
        }
    }
}

/// A world state together with every rover's command queue, scan buffer
/// and command progress, stepped one fixed tick at a time.
#[derive(Debug, Clone, PartialEq, Eq)]
pub struct World {
    state: WorldState,
    tasks: Vec<RoverTasks>,
}

/// One fixed tick of a world, from `before` to `after`, with the host's
/// movement `moves`: the tick counter moves on (saturating), seed,
/// watermark and generator stay, every rover keeps its id, takes its move
/// only when its front command is a MoveTo, and its front command advances
/// with the tick this step completes.
pub open spec fn steps_to(before: World, after: World, moves: Seq<MoveResult>) -> bool {
    &&& after.state_view().current_tick() == next_tick(before.state_view().current_tick())
    &&& after.state_view().world_seed() == before.state_view().world_seed()
    &&& after.state_view().watermark() == before.state_view().watermark()
    &&& after.state_view().rng_state() == before.state_view().rng_state()
    &&& after.state_view().rover_seq().len() == before.state_view().rover_seq().len()
    &&& forall|i: int|
        0 <= i < before.state_view().rover_seq().len() ==> (#[trigger] after.state_view().rover_seq()[i]).id
            == before.state_view().rover_seq()[i].id
    &&& forall|i: int|
        0 <= i < before.state_view().rover_seq().len() ==> (#[trigger] after.state_view().rover_seq()[i]).fields
            == if front_target(before.task_seq()[i]) is Some {
            moves[i].fields
        } else {
            before.state_view().rover_seq()[i].fields
        }
    &&& forall|i: int|
        0 <= i < before.task_seq().len() ==> advances_to(
            before.task_seq()[i],
            #[trigger] after.task_seq()[i],
            next_tick(before.state_view().current_tick()),
            moves[i].arrived,
        )
}

/// A rover's move target is the target of its front command when that
/// command is a MoveTo, and there is none otherwise, whatever is queued
/// behind the front.
pub proof fn lemma_front_target_is_front_command(t: RoverTasks)
    ensures
        front_target(t) is Some <==> (t.commands@.len() > 0 && t.commands@[0] is MoveTo),
        t.commands@.len() > 0 ==> (t.commands@[0] matches Command::MoveTo { target_x, target_y } ==> front_target(t)
            == Some((target_x, target_y))),
{
}

/// In a step, a rover whose front command is not a MoveTo (a Scan, a Noop,
/// or nothing queued) keeps its position, heading and speed, whatever is
/// queued behind it and whatever the host's move for it says; a rover whose
/// front command is a MoveTo takes the host's move.
pub proof fn lemma_step_moves_only_front_movers(before: World, after: World, moves: Seq<MoveResult>, i: int)
    requires
        steps_to(before, after, moves),
        0 <= i < before.state_view().rover_seq().len(),
    ensures
        !(before.task_seq()[i].commands@.len() > 0 && before.task_seq()[i].commands@[0] is MoveTo)
            ==> after.state_view().rover_seq()[i].fields == before.state_view().rover_seq()[i].fields,
        (before.task_seq()[i].commands@.len() > 0 && before.task_seq()[i].commands@[0] is MoveTo)
            ==> after.state_view().rover_seq()[i].fields == moves[i].fields,
{
    lemma_front_target_is_front_command(before.task_seq()[i]);
    assert(after.state_view().rover_seq()[i].fields == if front_target(before.task_seq()[i]) is Some {
        moves[i].fields
    } else {
        before.state_view().rover_seq()[i].fields
    });
}

/// A world step is determined by what a snapshot holds, the front MoveTo
/// targets and the host's movement: two worlds with the same snapshot
/// content and the same fronts, stepped with the same movement, again have
/// the same snapshot content. (So a world resumed from its snapshot goes on
/// exactly as the uninterrupted one.)
pub proof fn lemma_step_deterministic(a: World, b: World, a2: World, b2: World, moves: Seq<MoveResult>)
    requires
        crate::snapshot::same_snapshot_content(a.state_view(), b.state_view()),
        a.task_seq().len() == b.task_seq().len(),
        forall|i: int| 0 <= i < a.task_seq().len() ==> front_target(a.task_seq()[i]) == front_target(b.task_seq()[i]),
        a.wf(),
        b.wf(),
        steps_to(a, a2, moves),
        steps_to(b, b2, moves),
    ensures
        crate::snapshot::same_snapshot_content(a2.state_view(), b2.state_view()),
{
    let ra = a2.state_view().rover_seq();
    let rb = b2.state_view().rover_seq();
    assert forall|i: int| 0 <= i < ra.len() implies ra[i] == rb[i] by {
        assert(ra[i].id == a.state_view().rover_seq()[i].id);
        assert(rb[i].id == b.state_view().rover_seq()[i].id);
        assert(ra[i].fields == rb[i].fields);
    }
    assert(ra =~= rb);
}

impl World {
    /// The world state.
    pub closed spec fn state_view(&self) -> WorldState {
        self.state
    }

    /// The command state of each rover, in the order of the rovers.
    pub closed spec fn task_seq(&self) -> Seq<RoverTasks> {
        self.tasks@
    }

    /// A well-formed state, one command state per rover, each within its
    /// bounds.
    pub open spec fn wf(&self) -> bool {
        &&& self.state_view().wf()
        &&& self.task_seq().len() == self.state_view().rover_seq().len()
        &&& forall|i: int| 0 <= i < self.task_seq().len() ==> #[trigger] self.task_seq()[i].wf()
    }

    /// Resume from a state; every rover starts idle (queues are not part of
    /// a state).
    pub fn from_state(state: WorldState) -> (world: Self)
        requires
            state.wf(),
        ensures
            world.wf(),
            world.state_view() == state,
            forall|i: int| 0 <= i < world.task_seq().len() ==> idle(#[trigger] world.task_seq()[i]),
    {
        let n = state.rovers().len();
        let mut tasks: Vec<RoverTasks> = Vec::new();
        while tasks.len() < n
            invariant
                tasks@.len() <= n,
                forall|i: int| 0 <= i < tasks@.len() ==> (#[trigger] tasks@[i]).wf() && idle(tasks@[i]),
            decreases n - tasks@.len(),
        {
            tasks.push(RoverTasks::new());
        }
        World { state, tasks }
    }

    /// Hand over the state.
    pub fn into_state(self) -> (state: WorldState)
        ensures
            state == self.state_view(),
    {
        self.state
    }

    /// The state.
    pub fn state(&self) -> (state: &WorldState)
        ensures
            *state == self.state_view(),
    {
        &self.state
    }

    /// Current tick.
    pub fn tick(&self) -> (tick: u64)
        ensures
            tick == self.state_view().current_tick(),
    {
        self.state.tick()
    }

    /// Seed the world was created from.
    pub fn seed(&self) -> (seed: u64)
        ensures
            seed == self.state_view().world_seed(),
    {
        self.state.seed()
    }

    /// Spawn a rover (idle) and return its id.
    ///
    /// The `u32` id space must not be exhausted (issuing past it is a
    /// caller error).
    pub fn spawn_rover(&mut self, position_x: u64, position_y: u64, heading_x: u64, heading_y: u64) -> (id: RoverId)
        requires
            old(self).wf(),
            old(self).state_view().watermark() < u32::MAX,
        ensures
            final(self).wf(),
            id@ == old(self).state_view().watermark(),
            final(self).state_view().watermark() == old(self).state_view().watermark() + 1,
            final(self).state_view().rover_seq() == old(self).state_view().rover_seq().push(
                RoverRecord {
                    id,
                    fields: RoverFields { position_x, position_y, heading_x, heading_y, speed: 0 },
                },
            ),
            final(self).state_view().current_tick() == old(self).state_view().current_tick(),
            final(self).state_view().world_seed() == old(self).state_view().world_seed(),
            final(self).state_view().rng_state() == old(self).state_view().rng_state(),
            final(self).task_seq().len() == old(self).task_seq().len() + 1,
            final(self).task_seq().drop_last() == old(self).task_seq(),
            idle(final(self).task_seq().last()),
    {
        let id = self.state.spawn_rover(position_x, position_y, heading_x, heading_y);
        self.tasks.push(RoverTasks::new());
        assert(self.tasks@.drop_last() =~= old(self).tasks@);
        id
    }

    /// The command state of the rover with this id.
    pub fn tasks(&self, id: RoverId) -> (tasks: Option<&RoverTasks>)
        requires
            self.wf(),
        ensures
            match tasks {
                Some(t) => exists|i: int|
                    0 <= i < self.task_seq().len() && self.state_view().rover_seq()[i].id == id
                        && self.task_seq()[i] == *t,
                None => forall|i: int|
                    0 <= i < self.state_view().rover_seq().len() ==> self.state_view().rover_seq()[i].id != id,
            },
    {
        match self.state.find(id) {
            Some(i) => Some(&self.tasks[i]),
            None => None,
        }
    }

    /// The front MoveTo target of every rover (`None` where the front
    /// command is not a MoveTo), in the order of the rovers: what the host
    /// moves toward this tick.
    pub fn move_targets(&self) -> (targets: Vec<Option<(u64, u64)>>)
        requires
            self.wf(),
        ensures
            targets@.len() == self.task_seq().len(),
            forall|i: int| 0 <= i < targets@.len() ==> #[trigger] targets@[i] == front_target(self.task_seq()[i]),
            forall|i: int|
                0 <= i < targets@.len() ==> (#[trigger] targets@[i] is Some <==> (self.task_seq()[i].commands@.len()
                    > 0 && self.task_seq()[i].commands@[0] is MoveTo)),
            forall|i: int|
                0 <= i < targets@.len() && self.task_seq()[i].commands@.len() > 0 ==> (self.task_seq()[i].commands@[0] matches Command::MoveTo {
                    target_x,
                    target_y,
                } ==> #[trigger] targets@[i] == Some((target_x, target_y))),
    {
        let mut targets: Vec<Option<(u64, u64)>> = Vec::new();
        let mut i: usize = 0;
        while i < self.tasks.len()
            invariant
                i <= self.tasks@.len(),
                targets@.len() == i,
                forall|k: int| 0 <= k < i ==> #[trigger] targets@[k] == front_target(self.tasks@[k]),
            decreases self.tasks@.len() - i,
        {
            let target = match self.tasks[i].front() {
                Some(Command::MoveTo { target_x, target_y }) => Some((target_x, target_y)),
                _ => None,
            };
            targets.push(target);
            i = i + 1;
        }
        proof {
            assert forall|i: int| 0 <= i < targets@.len() implies #[trigger] targets@[i] is Some <==> (
            self.task_seq()[i].commands@.len() > 0 && self.task_seq()[i].commands@[0] is MoveTo) by {
                lemma_front_target_is_front_command(self.task_seq()[i]);
            }
            assert forall|i: int|
                0 <= i < targets@.len() && self.task_seq()[i].commands@.len() > 0 implies (
            self.task_seq()[i].commands@[0] matches Command::MoveTo { target_x, target_y } ==> #[trigger] targets@[i]
                == Some((target_x, target_y))) by {
                lemma_front_target_is_front_command(self.task_seq()[i]);
            }
        }
        targets
    }

    /// Validate a batch and queue it for a rover, atomically.
    pub fn push_commands(&mut self, id: RoverId, batch: &[Command]) -> (res: Result<(), PushCommandsError>)
        requires
            old(self).wf(),
        ensures
            final(self).wf(),
            final(self).state_view() == old(self).state_view(),
            match res {
                Err(PushCommandsError::UnknownRover(x)) => x == id && final(self).task_seq() == old(self).task_seq()
                    && forall|i: int|
                    0 <= i < old(self).state_view().rover_seq().len() ==> old(self).state_view().rover_seq()[i].id
                        != id,
                _ => exists|i: int|
                    0 <= i < old(self).task_seq().len() && old(self).state_view().rover_seq()[i].id == id
                        && final(self).task_seq() == old(self).task_seq().update(i, final(self).task_seq()[i])
                        && queues_batch(
                        old(self).task_seq()[i],
                        final(self).task_seq()[i],
                        batch@,
                        match res {
                            Ok(()) => Ok(()),
                            Err(PushCommandsError::Invalid(e)) => Err(e),
                            Err(PushCommandsError::UnknownRover(_)) => Ok(()),
                        },
                    ),
            },
    {
        match self.state.find(id) {
            None => Err(PushCommandsError::UnknownRover(id)),
            Some(i) => {
                let ghost before = self.tasks@;
                let r = self.tasks[i].push_commands(batch);
                proof {
                    assert(self.tasks@ =~= before.update(i as int, self.tasks@[i as int]));
                    assert forall|k: int| 0 <= k < self.tasks@.len() implies #[trigger] self.tasks@[k].wf() by {
                        assert(before[k].wf());
                        if k != i {
                            assert(self.tasks@[k] == before[k]);
                        } else {
                            assert(self.tasks@[k].scan_buffer == before[k].scan_buffer);
                        }
                    }
                }
                match r {
                    Ok(()) => Ok(()),
                    Err(e) => Err(PushCommandsError::Invalid(e)),
                }
            },
        }
    }

    /// Take a rover's completed scans out (read, then cleared), oldest
    /// first; `None` for an unknown rover.
    pub fn take_scan_results(&mut self, id: RoverId) -> (results: Option<Vec<ScanResult>>)
        requires
            old(self).wf(),
        ensures
            final(self).wf(),
            final(self).state_view() == old(self).state_view(),
            match results {
                None => final(self).task_seq() == old(self).task_seq() && forall|i: int|
                    0 <= i < old(self).state_view().rover_seq().len() ==> old(self).state_view().rover_seq()[i].id
                        != id,
                Some(r) => exists|i: int|
                    0 <= i < old(self).task_seq().len() && old(self).state_view().rover_seq()[i].id == id
                        && r@ == old(self).task_seq()[i].scan_buffer@ && final(self).task_seq() == old(self).task_seq().update(
                        i,
                        RoverTasks {
                            scan_buffer: final(self).task_seq()[i].scan_buffer,
                            ..old(self).task_seq()[i]
                        },
                    ) && final(self).task_seq()[i].scan_buffer@.len() == 0,
            },
    {
        match self.state.find(id) {
            None => None,
            Some(i) => {
                let ghost before = self.tasks@;
                let r = self.tasks[i].take_scan_results();
                proof {
                    assert(self.tasks@ =~= before.update(i as int, self.tasks@[i as int]));
                    assert forall|k: int| 0 <= k < self.tasks@.len() implies #[trigger] self.tasks@[k].wf() by {
                        assert(before[k].wf());
                        if k != i {
                            assert(self.tasks@[k] == before[k]);
                        }
                    }
                }
                Some(r)
            },
        }
    }

    /// Set a rover's cruise override (an `f64` bit pattern; zero selects
    /// the factory default). The rover must exist and the speed must be
    /// finite and not negative; nothing changes otherwise.
    pub fn set_rover_speed(&mut self, id: RoverId, speed: u64) -> (res: Result<(), SetSpeedError>)
        requires
            old(self).wf(),
        ensures
            final(self).wf(),
            final(self).task_seq() == old(self).task_seq(),
            final(self).state_view().current_tick() == old(self).state_view().current_tick(),
            final(self).state_view().world_seed() == old(self).state_view().world_seed(),
            final(self).state_view().watermark() == old(self).state_view().watermark(),
            final(self).state_view().rng_state() == old(self).state_view().rng_state(),
            (forall|i: int|
                0 <= i < old(self).state_view().rover_seq().len() ==> old(self).state_view().rover_seq()[i].id
                    != id) ==> res == Err::<(), SetSpeedError>(SetSpeedError::UnknownRover(id)),
            (exists|i: int|
                0 <= i < old(self).state_view().rover_seq().len() && old(self).state_view().rover_seq()[i].id
                    == id) ==> res == (if !bits_finite(speed) {
                Err::<(), SetSpeedError>(SetSpeedError::NotFinite)
            } else if bits_below_zero(speed) {
                Err(SetSpeedError::Negative)
            } else {
                Ok(())
            }),
            res is Err ==> final(self).state_view() == old(self).state_view(),
            res is Ok ==> exists|i: int|
                0 <= i < old(self).state_view().rover_seq().len() && old(self).state_view().rover_seq()[i].id
                    == id && final(self).state_view().rover_seq() == old(self).state_view().rover_seq().update(
                    i,
                    RoverRecord {
                        id,
                        fields: RoverFields { speed, ..old(self).state_view().rover_seq()[i].fields },
                    },
                ),
    {
        match self.state.find(id) {
            None => Err(SetSpeedError::UnknownRover(id)),
            Some(i) => {
                if !f64_bits_finite(speed) {
                    Err(SetSpeedError::NotFinite)
                } else if f64_bits_below_zero(speed) {
                    Err(SetSpeedError::Negative)
                } else {
                    let old_fields = self.state.rovers()[i].fields;
                    self.state.set_fields_at(i, RoverFields { speed, ..old_fields });
                    Ok(())
                }
            },
        }
    }

    /// Advance one fixed tick. `moves[i]` is the host's movement of the
    /// `i`-th rover toward its front MoveTo target: it is applied only to
    /// rovers whose front command is a MoveTo (the others keep their
    /// fields). Then every rover's front command advances in ascending id
    /// order, with the tick this step completes, and the tick counter
    /// moves on (saturating).
    pub fn step(&mut self, moves: &[MoveResult])
        requires
            old(self).wf(),
            moves@.len() == old(self).task_seq().len(),
        ensures
            final(self).wf(),
            steps_to(*old(self), *final(self), moves@),
            forall|i: int|
                0 <= i < old(self).task_seq().len() && !(old(self).task_seq()[i].commands@.len() > 0
                    && old(self).task_seq()[i].commands@[0] is MoveTo) ==> (
                #[trigger] final(self).state_view().rover_seq()[i]).fields == old(self).state_view().rover_seq()[i].fields,
    {
        let next = self.state.tick().saturating_add(1);
        let n = self.tasks.len();
        let mut i: usize = 0;
        while i < n
            invariant
                n == self.tasks@.len(),
                n == moves@.len(),
                i <= n,
                next == next_tick(old(self).state_view().current_tick()),
                self.state.wf(),
                self.state.rover_seq().len() == n,
                self.state.current_tick() == old(self).state_view().current_tick(),
                self.state.world_seed() == old(self).state_view().world_seed(),
                self.state.watermark() == old(self).state_view().watermark(),
                self.state.rng_state() == old(self).state_view().rng_state(),
                old(self).task_seq().len() == n,
                forall|k: int| 0 <= k < n ==> (#[trigger] self.tasks@[k]).wf(),
                forall|k: int| i <= k < n ==> #[trigger] self.tasks@[k] == old(self).task_seq()[k],
                forall|k: int| i <= k < n ==> #[trigger] self.state.rover_seq()[k] == old(self).state_view().rover_seq()[k],
                forall|k: int|
                    0 <= k < i ==> advances_to(
                        old(self).task_seq()[k],
                        #[trigger] self.tasks@[k],
                        next,
                        moves@[k].arrived,
                    ),
                forall|k: int| 0 <= k < n ==> (#[trigger] self.state.rover_seq()[k]).id == old(self).state_view().rover_seq()[k].id,
                forall|k: int|
                    0 <= k < i ==> (#[trigger] self.state.rover_seq()[k]).fields == if front_target(
                        old(self).task_seq()[k],
                    ) is Some {
                        moves@[k].fields
                    } else {
                        old(self).state_view().rover_seq()[k].fields
                    },
            decreases n - i,
        {
            let moving = self.tasks[i].is_moving();
            if moving {
                self.state.set_fields_at(i, moves[i].fields);
            }
            let ghost before = self.tasks@;
            self.tasks[i].advance(next, moves[i].arrived);
            proof {
                assert(self.tasks@ =~= before.update(i as int, self.tasks@[i as int]));
            }
            i = i + 1;
        }
        self.state.advance_tick();
        proof {
            assert forall|i: int|
                0 <= i < old(self).task_seq().len() && !(old(self).task_seq()[i].commands@.len() > 0
                    && old(self).task_seq()[i].commands@[0] is MoveTo) implies (
            #[trigger] self.state_view().rover_seq()[i]).fields == old(self).state_view().rover_seq()[i].fields by {
                lemma_step_moves_only_front_movers(*old(self), *self, moves@, i);
            }
        }
    }
}

/// The tick a step completes: one more, saturating at `u64::MAX`.
pub open spec fn next_tick(tick: u64) -> u64 {
    if tick == u64::MAX {
        u64::MAX
    } else {
        (tick + 1) as u64
    }
}

} // verus!
