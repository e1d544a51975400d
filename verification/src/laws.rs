//! What holds of the supervisor over whole runs of events.

use crate::driver::{
    joins,
    merged,
    quit_commands,
    DriverActionView,
    DriverEventView,
    DriverView,
};
use crate::foreground_watcher::ForegroundWatcherMessage;
use crate::frame::FrameView;
use crate::image_viewer::{ImageViewerCommandView, ImageViewerMessage};
use crate::stdin_shell::StdinShellMessageView;
use crate::window::WindowHandle;
use crate::window_capture::WindowCaptureMessage;
use vstd::prelude::*;

verus! {

/// How often `action` occurs in `actions`.
pub open spec fn occurrences(actions: Seq<DriverActionView>, action: DriverActionView) -> nat
    decreases actions.len(),
{
    if actions.len() == 0 {
        0
    } else {
        occurrences(actions.drop_last(), action) + if actions.last() == action {
            1nat
        } else {
            0nat
        }
    }
}

/// One if `hwnd` has a worker in `state`, zero if not.
pub open spec fn worker_count(state: DriverView, hwnd: WindowHandle) -> nat {
    if state.tracks(hwnd) {
        1
    } else {
        0
    }
}

/// The frames that `actions` send to the display, in order.
pub open spec fn forwarded(actions: Seq<DriverActionView>) -> Seq<FrameView>
    decreases actions.len(),
{
    if actions.len() == 0 {
        Seq::empty()
    } else {
        match actions.last() {
            DriverActionView::Viewer(ImageViewerCommandView::Update(frame)) => forwarded(
                actions.drop_last(),
            ).push(frame),
            _ => forwarded(actions.drop_last()),
        }
    }
}

/// The frames of the window `hwnd` among `events`, in order.
pub open spec fn frames_of(events: Seq<DriverEventView>, hwnd: WindowHandle) -> Seq<FrameView>
    decreases events.len(),
{
    if events.len() == 0 {
        Seq::empty()
    } else {
        match events.last() {
            DriverEventView::Frame(frame) if frame.hwnd == hwnd => frames_of(
                events.drop_last(),
                hwnd,
            ).push(frame),
            _ => frames_of(events.drop_last(), hwnd),
        }
    }
}

/// Whether `event` asks the supervisor to stop.
pub open spec fn stops(event: DriverEventView) -> bool {
    event == DriverEventView::Viewer(ImageViewerMessage::Closed) || event == DriverEventView::Shell(
        StdinShellMessageView::QuitRequested,
    )
}

/// Whether `event` leaves focus and run state alone.
pub open spec fn keeps_focus(event: DriverEventView) -> bool {
    !(event is Watcher) && !stops(event)
}

/// Counting goes through concatenation.
pub proof fn lemma_occurrences_add(
    first: Seq<DriverActionView>,
    second: Seq<DriverActionView>,
    action: DriverActionView,
)
    ensures
        occurrences(first + second, action) == occurrences(first, action) + occurrences(
            second,
            action,
        ),
    decreases second.len(),
{
    if second.len() == 0 {
        assert(first + second =~= first);
    } else {
        assert((first + second).drop_last() =~= first + second.drop_last());
        lemma_occurrences_add(first, second.drop_last(), action);
    }
}

/// Among the requests to wait for the workers of a list without repeats,
/// each worker's request occurs once and no other action occurs.
proof fn lemma_occurrences_in_joins(workers: Seq<WindowHandle>, action: DriverActionView)
    requires
        workers.no_duplicates(),
    ensures
        occurrences(joins(workers), action) == if action matches DriverActionView::JoinCapture {
            hwnd,
        } && workers.contains(hwnd) {
            1nat
        } else {
            0nat
        },
    decreases workers.len(),
{
    if workers.len() > 0 {
        let rest = workers.drop_last();
        assert(joins(workers).drop_last() =~= joins(rest));
        lemma_occurrences_in_joins(rest, action);
        if let DriverActionView::JoinCapture { hwnd } = action {
            if workers.last() == hwnd {
                assert(!rest.contains(hwnd));
                assert(workers[workers.len() - 1] == hwnd);
            } else if workers.contains(hwnd) {
                let i = choose|i: int| 0 <= i < workers.len() && workers[i] == hwnd;
                assert(rest[i] == hwnd);
            } else if rest.contains(hwnd) {
                let i = choose|i: int| 0 <= i < rest.len() && rest[i] == hwnd;
                assert(workers[i] == hwnd);
            }
        }
    }
}

/// How often `action` occurs among up to three actions.
proof fn lemma_occurrences_short(actions: Seq<DriverActionView>, action: DriverActionView)
    requires
        actions.len() <= 3,
    ensures
        actions.len() == 0 ==> occurrences(actions, action) == 0,
        actions.len() == 1 ==> occurrences(actions, action) == if actions[0] == action {
            1nat
        } else {
            0nat
        },
        actions.len() == 2 ==> occurrences(actions, action) == (if actions[0] == action {
            1nat
        } else {
            0nat
        }) + (if actions[1] == action {
            1nat
        } else {
            0nat
        }),
        actions.len() == 3 ==> occurrences(actions, action) == (if actions[0] == action {
            1nat
        } else {
            0nat
        }) + (if actions[1] == action {
            1nat
        } else {
            0nat
        }) + (if actions[2] == action {
            1nat
        } else {
            0nat
        }),
    decreases actions.len(),
{
    if actions.len() > 0 {
        lemma_occurrences_short(actions.drop_last(), action);
    }
}

/// A list without repeats that loses the entry for `hwnd` holds what it
/// held before but `hwnd`, and is again without repeats.
proof fn lemma_remove_worker(workers: Seq<WindowHandle>, hwnd: WindowHandle)
    requires
        workers.no_duplicates(),
        workers.contains(hwnd),
    ensures
        workers.remove(workers.index_of(hwnd)).no_duplicates(),
        forall|other: WindowHandle|
            #[trigger] workers.remove(workers.index_of(hwnd)).contains(other) <==> (
            workers.contains(other) && other != hwnd),
{
    let at = workers.index_of(hwnd);
    let rest = workers.remove(at);
    assert forall|other: WindowHandle| #[trigger]
        rest.contains(other) <==> (workers.contains(other) && other != hwnd) by {
        if rest.contains(other) {
            let i = choose|i: int| 0 <= i < rest.len() && rest[i] == other;
            if i < at {
                assert(workers[i] == other);
            } else {
                assert(workers[i + 1] == other);
            }
        }
        if workers.contains(other) && other != hwnd {
            let i = choose|i: int| 0 <= i < workers.len() && workers[i] == other;
            if i < at {
                assert(rest[i] == other);
            } else {
                assert(rest[i - 1] == other);
            }
        }
    }
}

/// One event keeps the state well formed.
pub proof fn lemma_step_keeps_wf(state: DriverView, event: DriverEventView)
    requires
        state.wf(),
    ensures
        state.step(event).0.wf(),
{
    if state.running {
        match event {
            DriverEventView::Capture(WindowCaptureMessage::Closed {
                hwnd,
            }) => {
                if state.tracks(hwnd) {
                    lemma_remove_worker(state.workers, hwnd);
                }
            },
            DriverEventView::Disconnected { hwnd } => {
                if state.tracks(hwnd) {
                    lemma_remove_worker(state.workers, hwnd);
                }
            },
            DriverEventView::Finished { hwnd } => {
                if state.tracks(hwnd) {
                    lemma_remove_worker(state.workers, hwnd);
                }
            },
            DriverEventView::Shell(StdinShellMessageView::AllowHWND(hwnds)) => {
                lemma_merged_no_duplicates(state.allowed, hwnds);
            },
            _ => {},
        }
    }
}

/// Allowing handles keeps the allow-list without repeats.
pub proof fn lemma_merged_no_duplicates(allowed: Seq<WindowHandle>, hwnds: Seq<WindowHandle>)
    requires
        allowed.no_duplicates(),
    ensures
        merged(allowed, hwnds).no_duplicates(),
    decreases hwnds.len(),
{
    if hwnds.len() > 0 {
        if allowed.contains(hwnds[0]) {
            lemma_merged_no_duplicates(allowed, hwnds.drop_first());
        } else {
            lemma_merged_no_duplicates(allowed.push(hwnds[0]), hwnds.drop_first());
        }
    }
}

/// Allowing handles keeps what was allowed before in its place and adds
/// nothing but the handles given: the old list starts the new one, and a
/// handle is on the new list exactly if it was on the old one or is among
/// the handles given.
pub proof fn lemma_merged_holds_both(allowed: Seq<WindowHandle>, hwnds: Seq<WindowHandle>)
    ensures
        allowed.is_prefix_of(merged(allowed, hwnds)),
        forall|hwnd: WindowHandle| #[trigger]
            merged(allowed, hwnds).contains(hwnd) <==> allowed.contains(hwnd) || hwnds.contains(
                hwnd,
            ),
    decreases hwnds.len(),
{
    let all = merged(allowed, hwnds);
    if hwnds.len() == 0 {
        assert(allowed =~= all.subrange(0, allowed.len() as int));
        assert forall|hwnd: WindowHandle| #[trigger]
            all.contains(hwnd) <==> allowed.contains(hwnd) || hwnds.contains(hwnd) by {
            if hwnds.contains(hwnd) {
                let i = choose|i: int| 0 <= i < hwnds.len() && hwnds[i] == hwnd;
            }
        }
    } else {
        let first = hwnds[0];
        let rest = hwnds.drop_first();
        let next = if allowed.contains(first) {
            allowed
        } else {
            allowed.push(first)
        };
        lemma_merged_holds_both(next, rest);
        assert(all == merged(next, rest));
        assert(allowed =~= next.subrange(0, allowed.len() as int));
        assert(allowed =~= all.subrange(0, allowed.len() as int)) by {
            assert(next =~= all.subrange(0, next.len() as int));
        }
        assert forall|hwnd: WindowHandle| #[trigger]
            all.contains(hwnd) <==> allowed.contains(hwnd) || hwnds.contains(hwnd) by {
            assert(next.contains(hwnd) <==> allowed.contains(hwnd) || hwnd == first) by {
                if allowed.contains(hwnd) {
                    let i = choose|i: int| 0 <= i < allowed.len() && allowed[i] == hwnd;
                    assert(next[i] == hwnd);
                }
                if hwnd == first && !allowed.contains(first) {
                    assert(next[next.len() - 1] == hwnd);
                }
                if next.contains(hwnd) && !allowed.contains(hwnd) {
                    let i = choose|i: int| 0 <= i < next.len() && next[i] == hwnd;
                    if i < allowed.len() {
                        assert(allowed[i] == hwnd);
                    }
                }
            }
            assert(hwnds.contains(hwnd) <==> hwnd == first || rest.contains(hwnd)) by {
                if hwnds.contains(hwnd) {
                    let i = choose|i: int| 0 <= i < hwnds.len() && hwnds[i] == hwnd;
                    if i > 0 {
                        assert(rest[i - 1] == hwnd);
                    }
                }
                if rest.contains(hwnd) {
                    let i = choose|i: int| 0 <= i < rest.len() && rest[i] == hwnd;
                    assert(hwnds[i + 1] == hwnd);
                }
                if hwnd == first {
                    assert(hwnds[0] == hwnd);
                }
            }
        }
    }
}

/// Whatever events arrive, no window ever has two workers, no handle is on
/// the allow-list twice, and a supervisor that stopped has no worker left:
/// this holds after every event of the run.
pub proof fn lemma_run_keeps_wf(state: DriverView, events: Seq<DriverEventView>)
    requires
        state.wf(),
    ensures
        state.run(events).0.wf(),
        forall|n: int| 0 <= n <= events.len() ==> (#[trigger] state.run(events.take(n))).0.wf(),
    decreases events.len(),
{
    if events.len() > 0 {
        lemma_run_keeps_wf(state, events.drop_last());
        lemma_step_keeps_wf(state.run(events.drop_last()).0, events.last());
        assert forall|n: int| 0 <= n <= events.len() implies (#[trigger] state.run(
            events.take(n),
        )).0.wf() by {
            if n < events.len() {
                assert(events.drop_last().take(n) =~= events.take(n));
            } else {
                assert(events.take(n) =~= events);
            }
        }
    } else {
        assert forall|n: int| 0 <= n <= events.len() implies (#[trigger] state.run(
            events.take(n),
        )).0.wf() by {
            assert(events.take(n) =~= events);
        }
    }
}

/// Over one event, the workers started and the workers that the window had
/// before balance the workers waited for and the workers left.
proof fn lemma_step_balance(state: DriverView, event: DriverEventView, hwnd: WindowHandle)
    requires
        state.wf(),
    ensures
        occurrences(state.step(event).1, DriverActionView::StartCapture { hwnd }) + worker_count(
            state,
            hwnd,
        ) == occurrences(state.step(event).1, DriverActionView::JoinCapture { hwnd })
            + worker_count(state.step(event).0, hwnd),
{
    let start = DriverActionView::StartCapture { hwnd };
    let join = DriverActionView::JoinCapture { hwnd };
    let (after, actions) = state.step(event);
    if !state.running {
        lemma_occurrences_short(actions, start);
        lemma_occurrences_short(actions, join);
    } else if stops(event) {
        lemma_occurrences_add(quit_commands(), joins(state.workers), start);
        lemma_occurrences_add(quit_commands(), joins(state.workers), join);
        lemma_occurrences_short(quit_commands(), start);
        lemma_occurrences_short(quit_commands(), join);
        lemma_occurrences_in_joins(state.workers, start);
        lemma_occurrences_in_joins(state.workers, join);
    } else {
        lemma_occurrences_short(actions, start);
        lemma_occurrences_short(actions, join);
        let gone = match event {
            DriverEventView::Capture(WindowCaptureMessage::Closed {
                hwnd,
            }) => Some(hwnd),
            DriverEventView::Disconnected { hwnd } => Some(hwnd),
            DriverEventView::Finished { hwnd } => Some(hwnd),
            _ => None,
        };
        if let Some(closed) = gone {
            if state.tracks(closed) {
                lemma_remove_worker(state.workers, closed);
            }
        }
        if let DriverEventView::Watcher(ForegroundWatcherMessage::WindowChanged { hwnd: focused }) =
            event {
            if !state.tracks(focused) && state.is_eligible(focused) {
                let grown = state.workers.push(focused);
                assert(grown[grown.len() - 1] == focused);
                if state.tracks(hwnd) {
                    let i = choose|i: int| 0 <= i < state.workers.len() && state.workers[i] == hwnd;
                    assert(grown[i] == hwnd);
                }
            }
        }
    }
}

/// No worker is lost and none is waited for twice: over any run of events,
/// and for every window, the workers started for it, and the one it had at
/// the outset, are as many as the workers waited for and the one it has at
/// the end.
pub proof fn lemma_workers_are_joined_once(
    state: DriverView,
    events: Seq<DriverEventView>,
    hwnd: WindowHandle,
)
    requires
        state.wf(),
    ensures
        occurrences(state.run(events).1, DriverActionView::StartCapture { hwnd }) + worker_count(
            state,
            hwnd,
        ) == occurrences(state.run(events).1, DriverActionView::JoinCapture { hwnd })
            + worker_count(state.run(events).0, hwnd),
    decreases events.len(),
{
    if events.len() > 0 {
        let (before, earlier) = state.run(events.drop_last());
        let (after, actions) = before.step(events.last());
        lemma_workers_are_joined_once(state, events.drop_last(), hwnd);
        lemma_run_keeps_wf(state, events.drop_last());
        lemma_step_balance(before, events.last(), hwnd);
        lemma_occurrences_add(earlier, actions, DriverActionView::StartCapture { hwnd });
        lemma_occurrences_add(earlier, actions, DriverActionView::JoinCapture { hwnd });
    }
}

/// A worker is waited for only if its window had one: an event brings at
/// most one request to wait for a window's worker, and brings one exactly
/// when the window has a worker before the event and none after it.
pub proof fn lemma_join_follows_removal(
    state: DriverView,
    event: DriverEventView,
    hwnd: WindowHandle,
)
    requires
        state.wf(),
    ensures
        occurrences(state.step(event).1, DriverActionView::JoinCapture { hwnd }) == if state.tracks(
            hwnd,
        ) && !state.step(event).0.tracks(hwnd) {
            1nat
        } else {
            0nat
        },
{
    lemma_step_balance(state, event, hwnd);
    lemma_step_keeps_wf(state, event);
    let start = DriverActionView::StartCapture { hwnd };
    let actions = state.step(event).1;
    if state.running && stops(event) {
        lemma_occurrences_add(quit_commands(), joins(state.workers), start);
        lemma_occurrences_short(quit_commands(), start);
        lemma_occurrences_in_joins(state.workers, start);
    } else {
        lemma_occurrences_short(actions, start);
        if state.running {
            if let DriverEventView::Watcher(
                ForegroundWatcherMessage::WindowChanged { hwnd: focused },
            ) = event {
                if !state.tracks(focused) && state.is_eligible(focused) && focused == hwnd {
                    let grown = state.workers.push(focused);
                    assert(grown[grown.len() - 1] == focused);
                }
            }
        }
    }
}

/// Every window that has a worker at the end of a run had one at the
/// outset or came into focus during the run.
pub proof fn lemma_workers_were_focused(
    state: DriverView,
    events: Seq<DriverEventView>,
    hwnd: WindowHandle,
)
    requires
        state.run(events).0.tracks(hwnd),
    ensures
        state.tracks(hwnd) || events.contains(
            DriverEventView::Watcher(ForegroundWatcherMessage::WindowChanged { hwnd }),
        ),
    decreases events.len(),
{
    if events.len() > 0 {
        let before = state.run(events.drop_last()).0;
        let after = before.step(events.last()).0;
        if before.tracks(hwnd) {
            lemma_workers_were_focused(state, events.drop_last(), hwnd);
            if !state.tracks(hwnd) {
                let earlier = events.drop_last();
                let i = choose|i: int|
                    0 <= i < earlier.len() && earlier[i] == DriverEventView::Watcher(
                        ForegroundWatcherMessage::WindowChanged { hwnd },
                    );
                assert(events[i] == earlier[i]);
            }
        } else {
            let i = choose|i: int| 0 <= i < after.workers.len() && after.workers[i] == hwnd;
            assert(before.running);
            match events.last() {
                DriverEventView::Watcher(ForegroundWatcherMessage::WindowChanged { hwnd: focused }) => {
                    if i < before.workers.len() {
                        assert(before.workers[i] == hwnd);
                    }
                    assert(focused == hwnd);
                    assert(events[events.len() - 1] == events.last());
                },
                DriverEventView::Capture(
                    WindowCaptureMessage::Closed { hwnd: closed },
                ) => {
                    lemma_removed_from(before.workers, closed, hwnd);
                },
                DriverEventView::Disconnected { hwnd: closed } => {
                    lemma_removed_from(before.workers, closed, hwnd);
                },
                DriverEventView::Finished { hwnd: closed } => {
                    lemma_removed_from(before.workers, closed, hwnd);
                },
                _ => {},
            }
        }
    }
}

/// What is in a list after an entry was removed was in it before.
proof fn lemma_removed_from(workers: Seq<WindowHandle>, closed: WindowHandle, hwnd: WindowHandle)
    requires
        workers.contains(closed),
        workers.remove(workers.index_of(closed)).contains(hwnd),
    ensures
        workers.contains(hwnd),
{
    let at = workers.index_of(closed);
    let rest = workers.remove(at);
    let i = choose|i: int| 0 <= i < rest.len() && rest[i] == hwnd;
    if i < at {
        assert(workers[i] == hwnd);
    } else {
        assert(workers[i + 1] == hwnd);
    }
}

/// Each collaborator is told to quit at most once: over any run of events,
/// each of the three quit commands is issued once if the supervisor ran at
/// the outset and has stopped at the end, and never otherwise. A
/// supervisor that stopped has let go of every worker.
pub proof fn lemma_quit_is_sent_once(state: DriverView, events: Seq<DriverEventView>)
    requires
        state.wf(),
    ensures
        forall|i: int|
            0 <= i < 3 ==> occurrences(state.run(events).1, #[trigger] quit_commands()[i]) == if state.running
                && !state.run(events).0.running {
                1nat
            } else {
                0nat
            },
        state.run(events).0.running ==> state.running,
        !state.run(events).0.running ==> state.run(events).0.workers.len() == 0,
    decreases events.len(),
{
    lemma_run_keeps_wf(state, events);
    if events.len() > 0 {
        let (before, earlier) = state.run(events.drop_last());
        let (after, actions) = before.step(events.last());
        lemma_quit_is_sent_once(state, events.drop_last());
        lemma_run_keeps_wf(state, events.drop_last());
        assert forall|i: int| 0 <= i < 3 implies occurrences(
            state.run(events).1,
            #[trigger] quit_commands()[i],
        ) == if state.running && !after.running {
            1nat
        } else {
            0nat
        } by {
            let quit = quit_commands()[i];
            lemma_occurrences_add(earlier, actions, quit);
            if before.running && stops(events.last()) {
                lemma_occurrences_add(quit_commands(), joins(before.workers), quit);
                lemma_occurrences_short(quit_commands(), quit);
                lemma_occurrences_in_joins(before.workers, quit);
            } else {
                lemma_occurrences_short(actions, quit);
            }
        }
    } else {
        assert forall|i: int| 0 <= i < 3 implies occurrences(
            state.run(events).1,
            #[trigger] quit_commands()[i],
        ) == 0 by {
            lemma_occurrences_short(state.run(events).1, quit_commands()[i]);
        }
    }
}

/// Once an event asks for it, the supervisor has stopped, whatever follows.
pub proof fn lemma_stop_is_final(state: DriverView, events: Seq<DriverEventView>, at: int)
    requires
        0 <= at < events.len(),
        stops(events[at]),
    ensures
        !state.run(events).0.running,
    decreases events.len(),
{
    if at < events.len() - 1 {
        lemma_stop_is_final(state, events.drop_last(), at);
    }
}

/// Only the frames of the window in focus reach the display: over a run of
/// events that leave the focus alone and do not stop the supervisor, the
/// frames forwarded are the frames of the window in focus, all of them and
/// in the order of their arrival. Without a window in focus none is forwarded.
pub proof fn lemma_frames_follow_focus(state: DriverView, events: Seq<DriverEventView>)
    requires
        state.running,
        forall|i: int| 0 <= i < events.len() ==> keeps_focus(#[trigger] events[i]),
    ensures
        state.run(events).0.running,
        state.run(events).0.focused == state.focused,
        forwarded(state.run(events).1) == match state.focused {
            Some(hwnd) => frames_of(events, hwnd),
            None => Seq::empty(),
        },
    decreases events.len(),
{
    if events.len() > 0 {
        let earlier_events = events.drop_last();
        assert forall|i: int| 0 <= i < earlier_events.len() implies keeps_focus(
            #[trigger] earlier_events[i],
        ) by {
            assert(earlier_events[i] == events[i]);
        }
        lemma_frames_follow_focus(state, earlier_events);
        let (before, earlier) = state.run(earlier_events);
        let (after, actions) = before.step(events.last());
        assert(keeps_focus(events[events.len() - 1]));
        lemma_forwarded_add(earlier, actions);
        assert(actions.len() <= 2);
        lemma_forwarded_short(actions);
    }
}

/// After focus moved to a window, its frames are the ones forwarded, and a
/// frame of any other window, the one that was in focus before too, is not.
pub proof fn lemma_focus_switch_reroutes(
    state: DriverView,
    hwnd: WindowHandle,
    events: Seq<DriverEventView>,
)
    requires
        state.running,
        forall|i: int| 0 <= i < events.len() ==> keeps_focus(#[trigger] events[i]),
    ensures
        forwarded(
            state.step(
                DriverEventView::Watcher(ForegroundWatcherMessage::WindowChanged { hwnd }),
            ).0.run(events).1,
        ) == frames_of(events, hwnd),
        forall|i: int|
            0 <= i < frames_of(events, hwnd).len() ==> (#[trigger] frames_of(events, hwnd)[i]).hwnd
                == hwnd,
{
    let switched = state.step(
        DriverEventView::Watcher(ForegroundWatcherMessage::WindowChanged { hwnd }),
    ).0;
    lemma_frames_follow_focus(switched, events);
    lemma_frames_of_window(events, hwnd);
}

/// The frames of a window among some events are frames of that window.
pub proof fn lemma_frames_of_window(events: Seq<DriverEventView>, hwnd: WindowHandle)
    ensures
        forall|i: int|
            0 <= i < frames_of(events, hwnd).len() ==> (#[trigger] frames_of(events, hwnd)[i]).hwnd
                == hwnd,
    decreases events.len(),
{
    if events.len() > 0 {
        let earlier = frames_of(events.drop_last(), hwnd);
        let all = frames_of(events, hwnd);
        lemma_frames_of_window(events.drop_last(), hwnd);
        assert forall|i: int| 0 <= i < all.len() implies (#[trigger] all[i]).hwnd == hwnd by {
            if i < earlier.len() {
                assert(all[i] == earlier[i]);
            }
        }
    }
}

/// The frames forwarded go through concatenation.
proof fn lemma_forwarded_add(first: Seq<DriverActionView>, second: Seq<DriverActionView>)
    ensures
        forwarded(first + second) == forwarded(first) + forwarded(second),
    decreases second.len(),
{
    if second.len() == 0 {
        assert(first + second =~= first);
        assert(forwarded(first) + forwarded(second) =~= forwarded(first));
    } else {
        assert((first + second).drop_last() =~= first + second.drop_last());
        lemma_forwarded_add(first, second.drop_last());
        assert(forwarded(first + second) =~= forwarded(first) + forwarded(second));
    }
}

/// The frames forwarded by up to two actions.
proof fn lemma_forwarded_short(actions: Seq<DriverActionView>)
    requires
        actions.len() <= 2,
    ensures
        actions.len() == 0 ==> forwarded(actions) == Seq::<FrameView>::empty(),
        actions.len() == 1 ==> forwarded(actions) == match actions[0] {
            DriverActionView::Viewer(ImageViewerCommandView::Update(frame)) => seq![frame],
            _ => Seq::empty(),
        },
        actions.len() == 2 && !(actions[0] is Viewer) && !(actions[1] is Viewer) ==> forwarded(
            actions,
        ) == Seq::<FrameView>::empty(),
    decreases actions.len(),
{
    if actions.len() > 0 {
        lemma_forwarded_short(actions.drop_last());
        if actions.len() == 1 {
            assert(forwarded(actions) =~= match actions[0] {
                DriverActionView::Viewer(ImageViewerCommandView::Update(frame)) => seq![frame],
                _ => Seq::empty(),
            });
        }
    }
}

} // verus!
