//! Log buffer for script output.
//!
//! Player-facing `print` writes here instead of stdout; the host drains the
//! buffer into the game console. Bounded ring semantics: when full, the
//! oldest entries are dropped, so a chatty script cannot grow memory
//! without bound.

use std::collections::VecDeque;

use vstd::prelude::*;

use crate::ids::RoverId;

verus! {

/// Maximum entries kept per buffer (oldest evicted on overflow).
pub const MAX_LOG_BUFFER: usize = 256;

/// One console line produced by a script.
#[derive(Debug, Clone, PartialEq, Eq)]
pub struct LogEntry {
    /// World tick at which the line was produced.
    pub tick: u64,
    /// Id of the script that produced the line.
    pub script_id: u32,
    /// Rover the script is attached to.
    pub rover_id: RoverId,
    /// The rendered text.
    pub text: String,
}

impl LogEntry {
    /// A field-by-field copy.
    pub fn duplicate(&self) -> (copy: LogEntry)
        ensures
            copy == *self,
    {
        LogEntry { tick: self.tick, script_id: self.script_id, rover_id: self.rover_id, text: self.text.clone() }
    }
}

/// The last [`MAX_LOG_BUFFER`] entries of a sequence (all of it when it is
/// not longer).
pub open spec fn keep_last(s: Seq<LogEntry>) -> Seq<LogEntry> {
    if s.len() > MAX_LOG_BUFFER {
        s.subrange(s.len() - MAX_LOG_BUFFER, s.len() as int)
    } else {
        s
    }
}

/// Bounded FIFO of [`LogEntry`] (ring: oldest evicted).
#[derive(Debug, Clone, PartialEq, Eq)]
pub struct LogBuffer {
    entries: VecDeque<LogEntry>,
}

impl View for LogBuffer {
    type V = Seq<LogEntry>;

    /// The held entries, oldest first.
    closed spec fn view(&self) -> Seq<LogEntry> {
        self.entries@
    }
}

impl Default for LogBuffer {
    fn default() -> (buffer: Self)
        ensures
            buffer@ == Seq::<LogEntry>::empty(),
    {
        LogBuffer { entries: VecDeque::new() }
    }
}

impl LogBuffer {
    /// New empty buffer.
    pub fn new() -> (buffer: Self)
        ensures
            buffer@ == Seq::<LogEntry>::empty(),
    {
        LogBuffer { entries: VecDeque::new() }
    }

    /// Append an entry, evicting the oldest ones beyond capacity.
    pub fn push(&mut self, entry: LogEntry)
        ensures
            final(self)@ == keep_last(old(self)@.push(entry)),
    {
        let ghost pushed = self.entries@.push(entry);
        self.entries.push_back(entry);
        while self.entries.len() > MAX_LOG_BUFFER
            invariant
                self.entries@.len() <= MAX_LOG_BUFFER ==> self.entries@ == keep_last(pushed),
                self.entries@.len() > MAX_LOG_BUFFER ==> keep_last(self.entries@) == keep_last(pushed),
            decreases self.entries@.len(),
        {
            let ghost before = self.entries@;
            let _ = self.entries.pop_front();
            assert(keep_last(self.entries@) =~= keep_last(before));
        }
    }

    /// Take all entries out (read, then cleared), oldest first.
    pub fn drain(&mut self) -> (entries: Vec<LogEntry>)
        ensures
            entries@ == old(self)@,
            final(self)@ == Seq::<LogEntry>::empty(),
    {
        let mut out: Vec<LogEntry> = Vec::new();
        let ghost all = self.entries@;
        while self.entries.len() > 0
            invariant
                out@ + self.entries@ == all,
            decreases self.entries@.len(),
        {
            match self.entries.pop_front() {
                Some(entry) => {
                    out.push(entry);
                },
                None => {},
            }
            assert(out@ + self.entries@ =~= all);
        }
        assert(out@ =~= all);
        out
    }

    /// Copy of the current entries, oldest first.
    pub fn snapshot(&self) -> (entries: Vec<LogEntry>)
        ensures
            entries@ == self@,
    {
        let mut out: Vec<LogEntry> = Vec::new();
        let mut i: usize = 0;
        while i < self.entries.len()
            invariant
                i <= self.entries@.len(),
                out@ == self.entries@.subrange(0, i as int),
            decreases self.entries@.len() - i,
        {
            out.push(self.entries[i].duplicate());
            assert(out@ =~= self.entries@.subrange(0, i + 1));
            i = i + 1;
        }
        assert(out@ =~= self.entries@);
        out
    }

    /// Number of entries currently held.
    pub fn len(&self) -> (n: usize)
        ensures
            n == self@.len(),
    {
        self.entries.len()
    }

    /// Whether the buffer holds nothing.
    pub fn is_empty(&self) -> (empty: bool)
        ensures
            empty == (self@.len() == 0),
    {
        self.entries.len() == 0
    }
}

/// The buffer never holds more than [`MAX_LOG_BUFFER`] entries after a
/// push, and the newest entry is always kept.
pub proof fn lemma_push_bounded(before: Seq<LogEntry>, entry: LogEntry)
    ensures
        keep_last(before.push(entry)).len() <= MAX_LOG_BUFFER,
        keep_last(before.push(entry)).last() == entry,
{
}

/// The buffer's entries after pushing `es` one by one onto `start`.
pub open spec fn after_pushes(start: Seq<LogEntry>, es: Seq<LogEntry>) -> Seq<LogEntry>
    decreases es.len(),
{
    if es.len() == 0 {
        start
    } else {
        keep_last(after_pushes(start, es.drop_last()).push(es.last()))
    }
}

proof fn lemma_keep_last_push(s: Seq<LogEntry>, e: LogEntry)
    ensures
        keep_last(keep_last(s).push(e)) == keep_last(s.push(e)),
{
    let l = s.len() as int;
    let m = MAX_LOG_BUFFER as int;
    if l > m {
        assert(keep_last(keep_last(s).push(e)) =~= keep_last(s.push(e)));
    }
}

/// Pushing entries one by one onto a buffer keeps the last
/// [`MAX_LOG_BUFFER`] of everything held and pushed, in push order: the
/// oldest are evicted first. From an empty buffer, after `k` pushes it holds
/// `min(k, MAX_LOG_BUFFER)` entries, the last ones pushed.
pub proof fn lemma_pushes_keep_last(start: Seq<LogEntry>, es: Seq<LogEntry>)
    requires
        start.len() <= MAX_LOG_BUFFER,
    ensures
        after_pushes(start, es) == keep_last(start + es),
        after_pushes(start, es).len() == if start.len() + es.len() > MAX_LOG_BUFFER {
            MAX_LOG_BUFFER as int
        } else {
            (start.len() + es.len()) as int
        },
    decreases es.len(),
{
    if es.len() == 0 {
        assert(start + es =~= start);
    } else {
        lemma_pushes_keep_last(start, es.drop_last());
        lemma_keep_last_push(start + es.drop_last(), es.last());
        assert((start + es.drop_last()).push(es.last()) =~= start + es);
    }
}

} // verus!
