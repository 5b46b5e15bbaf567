//! Rover command execution bookkeeping.
//!
//! A rover carries a FIFO command queue, a bounded buffer of completed
//! scan results and the progress of the command in flight. One tick
//! advances at most the front command: a MoveTo completes when the rover
//! has arrived (the movement itself is float arithmetic done by the
//! stepping host, which reports arrival), a Scan completes after
//! [`SCAN_TICKS`] ticks and buffers its result, a Noop completes at once.

use std::collections::VecDeque;

use vstd::prelude::*;

use crate::commands::{validation, Command, CommandError, ScanPoint, ScanResult, SCAN_TICKS};

verus! {

/// Maximum completed scans kept per rover; on overflow the oldest results
/// are evicted.
pub const MAX_SCAN_BUFFER: usize = 16;

/// The last [`MAX_SCAN_BUFFER`] elements of a sequence (all of it when it
/// is not longer).
pub open spec fn keep_latest<T>(s: Seq<T>) -> Seq<T> {
    if s.len() > MAX_SCAN_BUFFER {
        s.subrange(s.len() - MAX_SCAN_BUFFER, s.len() as int)
    } else {
        s
    }
}

/// `r` is the result a scan with this radius completing at this tick
/// produces.
pub open spec fn is_scan_result(r: ScanResult, tick: u64, radius: u64) -> bool {
    r.tick == tick && r.radius == radius && r.points@ == Seq::<ScanPoint>::empty()
}

/// Ticks a scan has left after one more tick of scanning, from the ticks
/// it had left before (`0` when it had not started: the tick arms the
/// full duration).
pub open spec fn scan_progress(remaining: u64) -> int {
    (if remaining == 0 {
        SCAN_TICKS
    } else {
        remaining
    }) - 1
}

/// Ticks left after `k` ticks of scanning from a scan that has not started.
pub open spec fn scan_left_after(k: nat) -> int
    decreases k,
{
    if k == 0 {
        0
    } else {
        scan_progress(scan_left_after((k - 1) as nat) as u64)
    }
}

/// A scan completes on exactly its [`SCAN_TICKS`]-th tick: after `k` ticks
/// of scanning, for `0 < k < SCAN_TICKS`, it has `SCAN_TICKS - k` ticks
/// left (still in flight), and the `SCAN_TICKS`-th tick brings it to zero.
pub proof fn lemma_scan_duration(k: nat)
    requires
        0 < k <= SCAN_TICKS,
    ensures
        scan_left_after(k) == SCAN_TICKS - k,
        k < SCAN_TICKS ==> scan_left_after(k) > 0,
    decreases k,
{
    if k > 1 {
        lemma_scan_duration((k - 1) as nat);
        let prev = scan_left_after((k - 1) as nat);
        assert(prev == SCAN_TICKS - (k - 1));
        assert(prev as u64 == prev);
        assert(scan_left_after(k) == scan_progress(prev as u64));
    } else {
        assert(scan_left_after(0) == 0);
        assert(scan_left_after(1) == scan_progress(0u64));
    }
}

/// Command queue, scan buffer and command progress of one rover.
#[derive(Debug, Clone, PartialEq, Eq)]
pub struct RoverTasks {
    /// Pending commands, front first.
    pub commands: VecDeque<Command>,
    /// Completed scan results, oldest first.
    pub scan_buffer: Vec<ScanResult>,
    /// Ticks left for the scan in flight (0 when none is in flight).
    pub remaining_ticks: u64,
}

/// Queueing a batch, from `before` to `after` with result `res`: `Ok`
/// exactly when every command is valid, and then all of them are appended
/// in order; otherwise the error of the first invalid command, and the
/// queue is untouched. The scan buffer and progress never change.
pub open spec fn queues_batch(
    before: RoverTasks,
    after: RoverTasks,
    batch: Seq<Command>,
    res: Result<(), CommandError>,
) -> bool {
    &&& res is Ok <==> forall|i: int| 0 <= i < batch.len() ==> #[trigger] validation(batch[i]) is Ok
    &&& res matches Err(e) ==> exists|i: int|
        0 <= i < batch.len() && validation(batch[i]) == Err::<(), CommandError>(e) && forall|j: int|
            0 <= j < i ==> #[trigger] validation(batch[j]) is Ok
    &&& res is Ok ==> after.commands@ == before.commands@ + batch
    &&& res is Err ==> after.commands@ == before.commands@
    &&& after.scan_buffer == before.scan_buffer
    &&& after.remaining_ticks == before.remaining_ticks
}

/// One tick of a rover's front command, from `before` to `after`; `tick`
/// is the world tick the step completes and `arrived` whether a front
/// MoveTo landed this tick. An empty queue stays as it is; a MoveTo leaves
/// the queue on arrival; a Noop leaves at once; a Scan counts down and, on
/// its last tick, buffers its result (keeping the latest ones) and leaves.
pub open spec fn advances_to(before: RoverTasks, after: RoverTasks, tick: u64, arrived: bool) -> bool {
    if before.commands@.len() == 0 {
        after == before
    } else {
        match before.commands@[0] {
            Command::MoveTo { .. } => if arrived {
                after.commands@ == before.commands@.drop_first() && after.remaining_ticks == 0
                    && after.scan_buffer == before.scan_buffer
            } else {
                after == before
            },
            Command::Noop => after.commands@ == before.commands@.drop_first() && after.remaining_ticks == 0
                && after.scan_buffer == before.scan_buffer,
            Command::Scan { radius } => {
                let left = scan_progress(before.remaining_ticks);
                if left == 0 {
                    &&& after.commands@ == before.commands@.drop_first()
                    &&& after.remaining_ticks == 0
                    &&& after.scan_buffer@.len() > 0
                    &&& after.scan_buffer@ == keep_latest(before.scan_buffer@.push(after.scan_buffer@.last()))
                    &&& is_scan_result(after.scan_buffer@.last(), tick, radius)
                } else {
                    &&& after.commands == before.commands
                    &&& after.remaining_ticks == left
                    &&& after.scan_buffer == before.scan_buffer
                }
            },
        }
    }
}

impl RoverTasks {
    /// Scan buffer within its bound and no scan progress beyond a scan's
    /// duration.
    pub open spec fn wf(&self) -> bool {
        self.scan_buffer@.len() <= MAX_SCAN_BUFFER && self.remaining_ticks <= SCAN_TICKS
    }

    /// No commands, no results, nothing in flight.
    pub fn new() -> (tasks: Self)
        ensures
            tasks.wf(),
            tasks.commands@ == Seq::<Command>::empty(),
            tasks.scan_buffer@ == Seq::<ScanResult>::empty(),
            tasks.remaining_ticks == 0,
    {
        RoverTasks { commands: VecDeque::new(), scan_buffer: Vec::new(), remaining_ticks: 0 }
    }

    /// The command at the front of the queue.
    pub fn front(&self) -> (front: Option<Command>)
        ensures
            front == (if self.commands@.len() > 0 {
                Some(self.commands@[0])
            } else {
                None
            }),
    {
        if self.commands.len() > 0 {
            Some(self.commands[0])
        } else {
            None
        }
    }

    /// Whether the rover is driving: the front command is a MoveTo that
    /// has not landed yet.
    pub fn is_moving(&self) -> (moving: bool)
        ensures
            moving == (self.commands@.len() > 0 && self.commands@[0] is MoveTo),
    {
        match self.front() {
            Some(Command::MoveTo { .. }) => true,
            _ => false,
        }
    }

    /// Validate a batch and queue it: either every command is valid and all
    /// are appended in order, or the first invalid command's error comes
    /// back and the queue is untouched.
    pub fn push_commands(&mut self, batch: &[Command]) -> (res: Result<(), CommandError>)
        ensures
            queues_batch(*old(self), *final(self), batch@, res),
    {
        let mut i: usize = 0;
        while i < batch.len()
            invariant
                i <= batch@.len(),
                forall|j: int| 0 <= j < i ==> #[trigger] validation(batch@[j]) is Ok,
                self.commands@ == old(self).commands@,
                self.scan_buffer == old(self).scan_buffer,
                self.remaining_ticks == old(self).remaining_ticks,
            decreases batch@.len() - i,
        {
            match batch[i].validate() {
                Ok(()) => {},
                Err(e) => return Err(e),
            }
            i = i + 1;
        }
        let mut k: usize = 0;
        while k < batch.len()
            invariant
                k <= batch@.len(),
                self.commands@ == old(self).commands@ + batch@.subrange(0, k as int),
                self.scan_buffer == old(self).scan_buffer,
                self.remaining_ticks == old(self).remaining_ticks,
            decreases batch@.len() - k,
        {
            self.commands.push_back(batch[k]);
            assert(batch@.subrange(0, k + 1) =~= batch@.subrange(0, k as int).push(batch@[k as int]));
            k = k + 1;
        }
        assert(batch@.subrange(0, batch@.len() as int) =~= batch@);
        Ok(())
    }

    /// Append a scan result, evicting the oldest results beyond
    /// [`MAX_SCAN_BUFFER`].
    fn buffer_result(&mut self, result: ScanResult)
        requires
            old(self).scan_buffer@.len() <= MAX_SCAN_BUFFER,
        ensures
            final(self).scan_buffer@ == keep_latest(old(self).scan_buffer@.push(result)),
            final(self).commands == old(self).commands,
            final(self).remaining_ticks == old(self).remaining_ticks,
    {
        let ghost pushed = self.scan_buffer@.push(result);
        self.scan_buffer.push(result);
        while self.scan_buffer.len() > MAX_SCAN_BUFFER
            invariant
                pushed.len() <= MAX_SCAN_BUFFER + 1,
                self.scan_buffer@ == pushed || (pushed.len() > MAX_SCAN_BUFFER && self.scan_buffer@
                    == keep_latest(pushed)),
                self.commands == old(self).commands,
                self.remaining_ticks == old(self).remaining_ticks,
            decreases self.scan_buffer@.len(),
        {
            self.scan_buffer.remove(0);
            assert(self.scan_buffer@ =~= keep_latest(pushed));
        }
    }

    /// Advance the front command by one tick; `tick` is the world tick this
    /// step completes (it timestamps finished scans), and `arrived` reports
    /// whether a front MoveTo landed on its target this tick.
    ///
    /// A completed command leaves the queue and resets the progress.
    pub fn advance(&mut self, tick: u64, arrived: bool)
        requires
            old(self).wf(),
        ensures
            final(self).wf(),
            advances_to(*old(self), *final(self), tick, arrived),
    {
        let command = match self.front() {
            Some(c) => c,
            None => return,
        };
        let completed = match command {
            Command::MoveTo { .. } => arrived,
            Command::Scan { radius } => {
                if self.remaining_ticks == 0 {
                    self.remaining_ticks = SCAN_TICKS;
                }
                self.remaining_ticks = self.remaining_ticks - 1;
                if self.remaining_ticks == 0 {
                    let result = ScanResult { tick, radius, points: Vec::new() };
                    self.buffer_result(result);
                    true
                } else {
                    false
                }
            },
            Command::Noop => true,
        };
        if completed {
            let _ = self.commands.pop_front();
            self.remaining_ticks = 0;
            assert(self.commands@ =~= old(self).commands@.drop_first());
        }
    }

    /// The buffered scan results, oldest first.
    pub fn scan_results(&self) -> (results: &[ScanResult])
        ensures
            results@ == self.scan_buffer@,
    {
        self.scan_buffer.as_slice()
    }

    /// The latest completed scan, if any (a peek: nothing is consumed).
    pub fn latest_scan(&self) -> (latest: Option<&ScanResult>)
        ensures
            latest == (if self.scan_buffer@.len() > 0 {
                Some(&self.scan_buffer@.last())
            } else {
                None
            }),
    {
        let n = self.scan_buffer.len();
        if n > 0 {
            Some(&self.scan_buffer[n - 1])
        } else {
            None
        }
    }

    /// Take all buffered results out (read, then cleared), oldest first.
    pub fn take_scan_results(&mut self) -> (results: Vec<ScanResult>)
        ensures
            results@ == old(self).scan_buffer@,
            final(self).scan_buffer@ == Seq::<ScanResult>::empty(),
            final(self).commands == old(self).commands,
            final(self).remaining_ticks == old(self).remaining_ticks,
    {
        let mut taken = Vec::new();
        std::mem::swap(&mut taken, &mut self.scan_buffer);
        taken
    }
}

} // verus!
