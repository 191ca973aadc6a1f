//! The interactive display's loop, as a state machine.
//!
//! The host drives it: on every frame it hands in the time with `tick`, pulls
//! a snapshot and hands it in with `install` where the tick asked for one,
//! and then draws what `frame` returns. Selecting a sort order changes the
//! order and nothing else: every frame ranks the snapshot itself anew.

use vstd::prelude::*;
use crate::rank::{rank, stable_rank, SortOrder};
use crate::refresh::RefreshClock;
use crate::report::{
    cpu_line, cpu_line_text, memory_line, memory_line_text, process_line, process_line_text,
    swap_line, swap_line_text,
};
use crate::snapshot::{MetricsSnapshot, ProcessInfo};

verus! {

/// Whether the loop has a snapshot to draw.
#[derive(Clone, Copy, Debug, PartialEq, Eq, Structural)]
pub enum LoopState {
    /// No snapshot has been installed yet.
    Idle,
    /// A snapshot is at hand.
    Displaying,
}

/// What the host does with a tick before it draws.
#[derive(Clone, Copy, Debug, PartialEq, Eq, Structural)]
pub enum TickAction {
    /// Pull a new snapshot and install it.
    Acquire,
    /// Draw the snapshot at hand once more.
    Reuse,
}

/// What one frame of the display shows.
#[derive(Debug)]
pub struct Frame {
    pub memory_line: String,
    pub swap_line: String,
    pub cpu_line: String,
    /// The order that the selector shows as chosen.
    pub sort_order: SortOrder,
    /// One line for each process, in ranking order.
    pub process_lines: Vec<String>,
}

/// The state of the interactive display: the snapshot at hand, the selected
/// sort order and the time of the last acquisition.
#[derive(Debug)]
pub struct ReportLoop {
    snapshot: Option<MetricsSnapshot>,
    sort_order: SortOrder,
    clock: RefreshClock,
}

/// Whether `frame` shows `snapshot` under `order`.
pub open spec fn frame_shows(frame: Frame, snapshot: MetricsSnapshot, order: SortOrder) -> bool {
    let ranked = stable_rank(snapshot.processes@, order);
    &&& frame.memory_line@ == memory_line_text(
        snapshot.memory_used_bytes,
        snapshot.memory_total_bytes,
    )
    &&& frame.swap_line@ == swap_line_text(snapshot.swap_used_bytes, snapshot.swap_total_bytes)
    &&& frame.cpu_line@ == cpu_line_text(snapshot.cpu_usage)
    &&& frame.sort_order == order
    &&& frame.process_lines@.len() == ranked.len()
    &&& forall|i: int|
        0 <= i < ranked.len() ==> (#[trigger] frame.process_lines@[i])@ == process_line_text(
            ranked[i],
        )
}

impl ReportLoop {
    /// The snapshot at hand, if any.
    pub closed spec fn snapshot(self) -> Option<MetricsSnapshot> {
        self.snapshot
    }

    /// The selected sort order.
    pub closed spec fn order(self) -> SortOrder {
        self.sort_order
    }

    /// The clock that gates acquisition.
    pub closed spec fn clock(self) -> RefreshClock {
        self.clock
    }

    /// The state of the loop: idle until the first snapshot is installed.
    pub open spec fn state(self) -> LoopState {
        if self.snapshot().is_some() {
            LoopState::Displaying
        } else {
            LoopState::Idle
        }
    }

    /// The same loop with `order` selected.
    pub closed spec fn with_order(self, order: SortOrder) -> ReportLoop {
        ReportLoop { snapshot: self.snapshot, sort_order: order, clock: self.clock }
    }

    /// The ranking that a frame shows: that of the snapshot at hand under the
    /// selected order; empty while the loop is idle.
    pub open spec fn ranking(self) -> Seq<ProcessInfo> {
        match self.snapshot() {
            Some(snapshot) => stable_rank(snapshot.processes@, self.order()),
            None => Seq::empty(),
        }
    }

    /// A loop that starts with the snapshot pulled at `now`, ranked by CPU.
    pub fn new(snapshot: MetricsSnapshot, now: u64) -> (report_loop: ReportLoop)
        ensures
            report_loop.snapshot() == Some(snapshot),
            report_loop.order() == SortOrder::ByCpu,
            report_loop.clock() == RefreshClock::started_at(now),
            report_loop.state() == LoopState::Displaying,
    {
        ReportLoop {
            snapshot: Some(snapshot),
            sort_order: SortOrder::ByCpu,
            clock: RefreshClock::started(now),
        }
    }

    /// A loop without a snapshot: its first tick asks for one.
    pub fn idle() -> (report_loop: ReportLoop)
        ensures
            report_loop.snapshot().is_none(),
            report_loop.order() == SortOrder::ByCpu,
            report_loop.clock().last_acquired.is_none(),
            report_loop.state() == LoopState::Idle,
    {
        ReportLoop { snapshot: None, sort_order: SortOrder::ByCpu, clock: RefreshClock::idle() }
    }

    /// Tells whether the loop has a snapshot to draw.
    pub fn current_state(&self) -> (state: LoopState)
        ensures
            state == self.state(),
    {
        if self.snapshot.is_some() {
            LoopState::Displaying
        } else {
            LoopState::Idle
        }
    }

    /// The selected sort order.
    pub fn sort_order(&self) -> (order: SortOrder)
        ensures
            order == self.order(),
    {
        self.sort_order
    }

    /// The time of the last acquisition, if there was one.
    pub fn last_acquired(&self) -> (last: Option<u64>)
        ensures
            last == self.clock().last_acquired,
    {
        self.clock.last_acquired
    }

    /// Takes the tick at `now`. The loop asks for a new snapshot when it has
    /// none or when more than the refresh interval has passed since the last
    /// acquisition, and then records `now` as the time of the new one.
    /// Snapshot and sort order stay as they are.
    pub fn tick(&mut self, now: u64) -> (action: TickAction)
        ensures
            action == if old(self).clock().is_due(now) {
                TickAction::Acquire
            } else {
                TickAction::Reuse
            },
            final(self).clock() == old(self).clock().after_tick(now),
            final(self).snapshot() == old(self).snapshot(),
            final(self).order() == old(self).order(),
    {
        if self.clock.tick(now) {
            TickAction::Acquire
        } else {
            TickAction::Reuse
        }
    }

    /// Replaces the snapshot at hand by `snapshot`, whole. Sort order and
    /// clock stay as they are.
    pub fn install(&mut self, snapshot: MetricsSnapshot)
        ensures
            final(self).snapshot() == Some(snapshot),
            final(self).order() == old(self).order(),
            final(self).clock() == old(self).clock(),
            final(self).state() == LoopState::Displaying,
    {
        self.snapshot = Some(snapshot);
    }

    /// Selects `order`. Snapshot and clock stay as they are.
    pub fn select_order(&mut self, order: SortOrder)
        ensures
            *final(self) == old(self).with_order(order),
            final(self).order() == order,
            final(self).snapshot() == old(self).snapshot(),
            final(self).clock() == old(self).clock(),
    {
        self.sort_order = order;
    }

    /// The processes of the snapshot at hand, ranked under the selected
    /// order; none while the loop is idle.
    pub fn ranked(&self) -> (ranked: Vec<ProcessInfo>)
        ensures
            ranked@ == self.ranking(),
    {
        match &self.snapshot {
            Some(snapshot) => rank(&snapshot.processes, self.sort_order),
            None => Vec::new(),
        }
    }

    /// What the display shows now: the metric lines of the snapshot at hand
    /// and its processes ranked under the selected order, or nothing while
    /// the loop is idle.
    pub fn frame(&self) -> (frame: Option<Frame>)
        ensures
            frame.is_some() == self.snapshot().is_some(),
            frame.is_some() ==> frame_shows(
                frame.unwrap(),
                self.snapshot().unwrap(),
                self.order(),
            ),
    {
        match &self.snapshot {
            None => None,
            Some(snapshot) => {
                let ranked = rank(&snapshot.processes, self.sort_order);
                let mut process_lines: Vec<String> = Vec::new();
                let mut done: usize = 0;
                while done < ranked.len()
                    invariant
                        done <= ranked@.len(),
                        process_lines@.len() == done,
                        forall|i: int|
                            0 <= i < done ==> (#[trigger] process_lines@[i])@ == process_line_text(
                                ranked@[i],
                            ),
                    decreases ranked@.len() - done,
                {
                    process_lines.push(process_line(&ranked[done]));
                    done += 1;
                }
                Some(
                    Frame {
                        memory_line: memory_line(
                            snapshot.memory_used_bytes,
                            snapshot.memory_total_bytes,
                        ),
                        swap_line: swap_line(snapshot.swap_used_bytes, snapshot.swap_total_bytes),
                        cpu_line: cpu_line(snapshot.cpu_usage),
                        sort_order: self.sort_order,
                        process_lines,
                    },
                )
            },
        }
    }
}

/// Selecting another order and then the first one again shows the ranking
/// that was shown at first: a ranking depends on the snapshot and on the
/// selected order, and on no selection made before.
pub proof fn lemma_selection_leaves_no_trace(report_loop: ReportLoop, other: SortOrder)
    ensures
        report_loop.with_order(other).with_order(report_loop.order()).ranking()
            == report_loop.ranking(),
        report_loop.with_order(other).with_order(report_loop.order()) == report_loop,
{
}

/// Selecting an order changes the order, and neither snapshot nor clock.
pub proof fn lemma_with_order(report_loop: ReportLoop, order: SortOrder)
    ensures
        report_loop.with_order(order).order() == order,
        report_loop.with_order(order).snapshot() == report_loop.snapshot(),
        report_loop.with_order(order).clock() == report_loop.clock(),
{
}

} // verus!
