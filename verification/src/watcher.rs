//! Watching the directory: which file system events matter, and when a burst
//! of them has settled.
//!
//! The watcher itself and its clock belong to the caller. This module
//! decides which events count as a change of the library, and a
//! [`Debouncer`] decides, from the time of the last change and the time now,
//! when to scan again: once, when it has been quiet for half a second.

use crate::library::{has_supported_extension, is_audio_path, views, PathInfo, PathInfoView};
use vstd::prelude::*;

verus! {

/// Something in the directory may have changed.
#[derive(Debug, Clone, Copy, PartialEq, Eq, Structural)]
pub enum LibraryEvent {
    Changed,
}

/// The kinds of event that a file system watcher reports.
#[derive(Debug, Clone, Copy, PartialEq, Eq, Structural)]
pub enum ChangeKind {
    Any,
    Access,
    Create,
    Modify,
    Remove,
    Other,
}

/// Whether an event of this kind can change the library: a file was
/// created, removed or modified.
pub open spec fn is_change(kind: ChangeKind) -> bool {
    kind is Create || kind is Remove || kind is Modify
}

/// Whether one of the paths names an audio file. Only the name counts: a
/// file that was removed is no longer there to be looked at.
pub open spec fn touches_audio(paths: Seq<PathInfoView>) -> bool {
    exists|i: int| 0 <= i < paths.len() && is_audio_path(#[trigger] paths[i])
}

/// What an event of the watcher means for the library.
pub open spec fn event_for(kind: ChangeKind, paths: Seq<PathInfoView>) -> Option<LibraryEvent> {
    if is_change(kind) && touches_audio(paths) {
        Some(LibraryEvent::Changed)
    } else {
        None
    }
}

/// What an event of the watcher, of kind `kind` and about `paths`, means for
/// the library: a change, if a file was created, removed or modified and one
/// of the paths names an audio file; nothing otherwise.
pub fn library_event(kind: ChangeKind, paths: &Vec<PathInfo>) -> (event: Option<LibraryEvent>)
    ensures
        event == event_for(kind, views(paths@)),
{
    match kind {
        ChangeKind::Create | ChangeKind::Remove | ChangeKind::Modify => {},
        _ => {
            return None;
        },
    }
    let mut i: usize = 0;
    while i < paths.len()
        invariant
            i <= paths.len(),
            is_change(kind),
            forall|k: int| 0 <= k < i ==> !is_audio_path(#[trigger] views(paths@)[k]),
        decreases paths.len() - i,
    {
        if has_supported_extension(&paths[i]) {
            assert(is_audio_path(views(paths@)[i as int]));
            return Some(LibraryEvent::Changed);
        }
        i += 1;
    }
    None
}

/// How long, in milliseconds, the loop waits for a change before it looks at
/// the clock.
pub const POLL_INTERVAL_MS: u64 = 100;

/// The least time, in milliseconds, that must have passed since the last
/// change before a scan: half a second of quiet.
pub const QUIET_MIN_MS: u64 = 500;

/// The time, in milliseconds, after which a change that was not answered is
/// answered no more. It lies two poll intervals behind the minimum, so that
/// a loop that looks at the clock once in every interval, or even misses a
/// look, finds the scan due.
pub const QUIET_WINDOW_MS: u64 = 700;

/// What the loop gets from its queue.
#[derive(Debug, Clone, Copy, PartialEq, Eq, Structural)]
pub enum QueueEvent {
    /// A change arrived.
    Signal(LibraryEvent),
    /// Nothing arrived within the poll interval.
    Timeout,
    /// The queue is closed for good.
    Closed,
}

/// What the loop has to do next.
#[derive(Debug, Clone, Copy, PartialEq, Eq, Structural)]
pub enum DebounceAction {
    /// Wait for the next event.
    Wait,
    /// Scan the library and tell the listeners, then wait for the next event.
    Rescan,
    /// End the loop.
    Quit,
}

/// The time that has passed between `last` and `now` on a clock that does
/// not run backwards: none where `now` is the earlier.
pub open spec fn quiet_time(last: u64, now: u64) -> int {
    if now >= last {
        now - last
    } else {
        0
    }
}

/// Whether a scan is due: a change is unanswered, it has been quiet since
/// for the minimum at least, and the window is not over.
pub open spec fn is_due(pending: Option<u64>, now: u64) -> bool {
    pending matches Some(last) && QUIET_MIN_MS <= quiet_time(last, now) < QUIET_WINDOW_MS
}

/// The unanswered change after an event at time `now`: a signal is the last
/// change from now on, a timeout at which a scan is due answers it.
pub open spec fn pending_after(pending: Option<u64>, event: QueueEvent, now: u64) -> Option<u64> {
    match event {
        QueueEvent::Signal(_) => Some(now),
        QueueEvent::Timeout => if is_due(pending, now) {
            None
        } else {
            pending
        },
        QueueEvent::Closed => pending,
    }
}

/// What the loop has to do after an event at time `now`.
pub open spec fn action_after(pending: Option<u64>, event: QueueEvent, now: u64) -> DebounceAction {
    match event {
        QueueEvent::Signal(_) => DebounceAction::Wait,
        QueueEvent::Timeout => if is_due(pending, now) {
            DebounceAction::Rescan
        } else {
            DebounceAction::Wait
        },
        QueueEvent::Closed => DebounceAction::Quit,
    }
}

/// The number of scans along a run of events, each with the time at which it
/// was taken from the queue.
pub open spec fn rescans(pending: Option<u64>, run: Seq<(QueueEvent, u64)>) -> nat
    decreases run.len(),
{
    if run.len() == 0 {
        0
    } else {
        let (event, now) = run[0];
        let rest = rescans(pending_after(pending, event, now), run.drop_first());
        if action_after(pending, event, now) == DebounceAction::Rescan {
            rest + 1
        } else {
            rest
        }
    }
}

/// No change arrives during the run.
pub open spec fn is_quiet(run: Seq<(QueueEvent, u64)>) -> bool {
    forall|i: int| 0 <= i < run.len() ==> !((#[trigger] run[i]).0 is Signal)
}

/// Collapses bursts of changes into single scans. It holds the time of the
/// last change that no scan has answered yet.
#[derive(Debug)]
pub struct Debouncer {
    pending: Option<u64>,
}

impl View for Debouncer {
    type V = Option<u64>;

    closed spec fn view(&self) -> Option<u64> {
        self.pending
    }
}

impl Debouncer {
    /// A debouncer with no change to answer.
    pub fn new() -> (debouncer: Debouncer)
        ensures
            debouncer@ is None,
    {
        Debouncer { pending: None }
    }

    /// Takes one event from the queue, read at `now_ms` milliseconds on a
    /// clock that does not run backwards, and says what to do next.
    pub fn step(&mut self, event: QueueEvent, now_ms: u64) -> (action: DebounceAction)
        ensures
            final(self)@ == pending_after(old(self)@, event, now_ms),
            action == action_after(old(self)@, event, now_ms),
    {
        match event {
            QueueEvent::Signal(_) => {
                self.pending = Some(now_ms);
                DebounceAction::Wait
            },
            QueueEvent::Timeout => {
                match self.pending {
                    Some(last) => {
                        let quiet: u64 = if now_ms >= last {
                            now_ms - last
                        } else {
                            0
                        };
                        if QUIET_MIN_MS <= quiet && quiet < QUIET_WINDOW_MS {
                            self.pending = None;
                            DebounceAction::Rescan
                        } else {
                            DebounceAction::Wait
                        }
                    },
                    None => DebounceAction::Wait,
                }
            },
            QueueEvent::Closed => DebounceAction::Quit,
        }
    }
}

/// A scan answers a change, and not before things have settled: the loop
/// scans only at a timeout, and only when a change is unanswered after which
/// it has been quiet for half a second at least and for less than the
/// window. After the scan no change is unanswered.
pub proof fn lemma_rescan_answers_a_change(pending: Option<u64>, event: QueueEvent, now: u64)
    requires
        action_after(pending, event, now) == DebounceAction::Rescan,
    ensures
        event == QueueEvent::Timeout,
        pending matches Some(last) && last + QUIET_MIN_MS <= now < last + QUIET_WINDOW_MS,
        pending matches Some(last) && now - last >= 500,
        pending_after(pending, event, now) is None,
{
}

/// The window leaves room for two polls behind the minimum of quiet.
pub proof fn lemma_window_leaves_room()
    ensures
        QUIET_MIN_MS == 500,
        QUIET_WINDOW_MS == QUIET_MIN_MS + 2 * POLL_INTERVAL_MS,
{
}

/// Some look at the clock during the run finds a scan due for `pending`.
pub open spec fn has_due_timeout(pending: Option<u64>, run: Seq<(QueueEvent, u64)>) -> bool {
    exists|i: int|
        0 <= i < run.len() && (#[trigger] run[i]).0 == QueueEvent::Timeout && is_due(
            pending,
            run[i].1,
        )
}

/// What is left of a quiet run after its first event is quiet.
proof fn lemma_rest_is_quiet(run: Seq<(QueueEvent, u64)>)
    requires
        is_quiet(run),
        run.len() != 0,
    ensures
        is_quiet(run.drop_first()),
        !(run[0].0 is Signal),
{
    assert forall|i: int| 0 <= i < run.drop_first().len() implies !((
    #[trigger] run.drop_first()[i]).0 is Signal) by {
        assert(run.drop_first()[i] == run[i + 1]);
    }
}

/// Without a change there is no scan: while nothing is unanswered and no
/// change arrives, the loop never scans.
pub proof fn lemma_no_rescan_without_change(run: Seq<(QueueEvent, u64)>)
    requires
        is_quiet(run),
    ensures
        rescans(None, run) == 0,
    decreases run.len(),
{
    if run.len() != 0 {
        lemma_rest_is_quiet(run);
        lemma_no_rescan_without_change(run.drop_first());
    }
}

/// However many changes came before, once no further change arrives the
/// loop scans at most once, whenever and however often it looks at the
/// clock. It scans once if one of its looks at the clock
/// falls into the window of the last change, and never otherwise.
pub proof fn lemma_burst_collapses(pending: Option<u64>, run: Seq<(QueueEvent, u64)>)
    requires
        is_quiet(run),
    ensures
        rescans(pending, run) <= 1,
        rescans(pending, run) == 1 <==> has_due_timeout(pending, run),
    decreases run.len(),
{
    if run.len() != 0 {
        let (event, now) = run[0];
        let rest = run.drop_first();
        lemma_rest_is_quiet(run);
        if action_after(pending, event, now) == DebounceAction::Rescan {
            lemma_no_rescan_without_change(rest);
            assert(run[0].0 == QueueEvent::Timeout && is_due(pending, run[0].1));
        } else {
            assert(pending_after(pending, event, now) == pending);
            lemma_burst_collapses(pending, rest);
            if has_due_timeout(pending, rest) {
                let i = choose|i: int|
                    0 <= i < rest.len() && (#[trigger] rest[i]).0 == QueueEvent::Timeout
                        && is_due(pending, rest[i].1);
                assert(run[i + 1] == rest[i]);
            }
            if has_due_timeout(pending, run) {
                let i = choose|i: int|
                    0 <= i < run.len() && (#[trigger] run[i]).0 == QueueEvent::Timeout && is_due(
                        pending,
                        run[i].1,
                    );
                assert(i != 0);
                assert(rest[i - 1] == run[i]);
            }
        }
    }
}

/// Every event of the run is a look at the clock.
pub open spec fn is_polling(run: Seq<(QueueEvent, u64)>) -> bool {
    forall|i: int| 0 <= i < run.len() ==> (#[trigger] run[i]).0 == QueueEvent::Timeout
}

/// The loop looks at the clock steadily after a change at `last`: the first
/// look comes before the window is over, the clock never runs backwards,
/// each look comes less than two poll intervals after the one before, and
/// the last look comes when the minimum of quiet has passed.
pub open spec fn is_steady(last: u64, run: Seq<(QueueEvent, u64)>) -> bool {
    &&& run.len() != 0
    &&& last <= run[0].1 < last + QUIET_WINDOW_MS
    &&& forall|i: int, j: int|
        0 <= i && j == i + 1 && j < run.len() ==> (#[trigger] run[i]).1 <= (#[trigger] run[j]).1
            < run[i].1 + 2 * POLL_INTERVAL_MS
    &&& run.last().1 >= last + QUIET_MIN_MS
}

/// Along steady looks at the clock one of them finds the scan due.
proof fn lemma_steady_polling_finds_the_scan_due(last: u64, run: Seq<(QueueEvent, u64)>)
    requires
        is_polling(run),
        is_steady(last, run),
    ensures
        has_due_timeout(Some(last), run),
    decreases run.len(),
{
    if run[0].1 >= last + QUIET_MIN_MS {
        assert(run[0].0 == QueueEvent::Timeout && is_due(Some(last), run[0].1));
    } else {
        let rest = run.drop_first();
        assert(run.len() > 1) by {
            if run.len() == 1 {
                assert(run.last() == run[0]);
            }
        }
        assert(run[0].1 <= run[1].1 < run[0].1 + 2 * POLL_INTERVAL_MS);
        assert(rest[0] == run[1]);
        assert(rest.last() == run.last());
        assert forall|i: int| 0 <= i < rest.len() implies (#[trigger] rest[i]).0
            == QueueEvent::Timeout by {
            assert(rest[i] == run[i + 1]);
        }
        assert forall|i: int, j: int| 0 <= i && j == i + 1 && j < rest.len() implies (
        #[trigger] rest[i]).1 <= (#[trigger] rest[j]).1 < rest[i].1 + 2 * POLL_INTERVAL_MS by {
            assert(rest[i] == run[i + 1] && rest[j] == run[j + 1]);
        }
        lemma_steady_polling_finds_the_scan_due(last, rest);
        let i = choose|i: int|
            0 <= i < rest.len() && (#[trigger] rest[i]).0 == QueueEvent::Timeout && is_due(
                Some(last),
                rest[i].1,
            );
        assert(run[i + 1] == rest[i]);
    }
}

/// A burst is answered once things have settled: after the last change of a
/// burst, a loop that looks at the clock steadily until half a second of
/// quiet has passed scans exactly once, and that not before the half second
/// is over.
pub proof fn lemma_settled_burst_is_scanned_once(last: u64, run: Seq<(QueueEvent, u64)>)
    requires
        is_polling(run),
        is_steady(last, run),
    ensures
        rescans(Some(last), run) == 1,
        forall|i: int|
            0 <= i < run.len() && action_after(Some(last), (#[trigger] run[i]).0, run[i].1)
                == DebounceAction::Rescan ==> run[i].1 >= last + QUIET_MIN_MS,
{
    assert(is_quiet(run)) by {
        assert forall|i: int| 0 <= i < run.len() implies !((#[trigger] run[i]).0 is Signal) by {
            assert(run[i].0 == QueueEvent::Timeout);
        }
    }
    lemma_steady_polling_finds_the_scan_due(last, run);
    lemma_burst_collapses(Some(last), run);
}

/// Changes alone cause no scan: along a run of signals the loop only waits.
pub proof fn lemma_signals_only_wait(pending: Option<u64>, run: Seq<(QueueEvent, u64)>)
    requires
        forall|i: int| 0 <= i < run.len() ==> (#[trigger] run[i]).0 is Signal,
    ensures
        rescans(pending, run) == 0,
    decreases run.len(),
{
    if run.len() != 0 {
        let (event, now) = run[0];
        assert(run[0].0 is Signal);
        assert forall|i: int| 0 <= i < run.drop_first().len() implies (
        #[trigger] run.drop_first()[i]).0 is Signal by {
            assert(run.drop_first()[i] == run[i + 1]);
        }
        lemma_signals_only_wait(pending_after(pending, event, now), run.drop_first());
    }
}

} // verus!
