//! The capture supervisor: decides which windows are captured, which frames
//! reach the display, when a worker is let go, and when everything stops.
//!
//! The supervisor is a state machine. It takes in one event at a time and
//! answers with the actions that the event calls for; whoever runs it
//! carries the actions out. A worker is started by `StartCapture` and its
//! execution unit is waited for on `JoinCapture`.

use crate::foreground_watcher::{ForegroundWatcherCommand, ForegroundWatcherMessage};
use crate::frame::{CapturedFrame, FrameView};
use crate::image_viewer::{ImageViewerCommand, ImageViewerCommandView, ImageViewerMessage};
use crate::stdin_shell::{
    StdinShellCommand,
    StdinShellCommandView,
    StdinShellMessage,
    StdinShellMessageView,
};
use crate::text::{hex_text, push_hex};
use crate::window::WindowHandle;
use crate::window_capture::WindowCaptureMessage;
use vstd::prelude::*;
use vstd::string::StringExecFns;

verus! {

/// Pause of the supervisor's loop after a round in which no queue held
/// anything, in milliseconds.
pub const IDLE_PAUSE_MILLIS: u64 = 1;

/// Which windows are captured once they come into focus.
#[derive(Clone, Copy, Debug, PartialEq, Eq, Structural)]
pub enum CapturePolicy {
    /// Every window.
    EveryWindow,
    /// Only the windows on the allow-list.
    AllowedOnly,
}

/// What the supervisor takes in.
#[derive(Clone, Debug, PartialEq, Eq)]
pub enum DriverEvent {
    /// A message of the display.
    Viewer(ImageViewerMessage),
    /// A message of the focus tracker.
    Watcher(ForegroundWatcherMessage),
    /// A message of the console.
    Shell(StdinShellMessage),
    /// A message of a worker.
    Capture(WindowCaptureMessage),
    /// A frame of a worker.
    Frame(CapturedFrame),
    /// The queues of the worker for `hwnd` were found disconnected.
    Disconnected { hwnd: WindowHandle },
    /// The execution unit of the worker for `hwnd` was found finished.
    Finished { hwnd: WindowHandle },
}

/// A [`DriverEvent`] as mathematical values.
pub enum DriverEventView {
    Viewer(ImageViewerMessage),
    Watcher(ForegroundWatcherMessage),
    Shell(StdinShellMessageView),
    Capture(WindowCaptureMessage),
    Frame(FrameView),
    Disconnected { hwnd: WindowHandle },
    Finished { hwnd: WindowHandle },
}

impl View for DriverEvent {
    type V = DriverEventView;

    open spec fn view(&self) -> DriverEventView {
        match self {
            DriverEvent::Viewer(message) => DriverEventView::Viewer(*message),
            DriverEvent::Watcher(message) => DriverEventView::Watcher(*message),
            DriverEvent::Shell(message) => DriverEventView::Shell(message@),
            DriverEvent::Capture(message) => DriverEventView::Capture(*message),
            DriverEvent::Frame(frame) => DriverEventView::Frame(frame@),
            DriverEvent::Disconnected { hwnd } => DriverEventView::Disconnected { hwnd: *hwnd },
            DriverEvent::Finished { hwnd } => DriverEventView::Finished { hwnd: *hwnd },
        }
    }
}

/// What the supervisor asks for.
#[derive(Clone, Debug, PartialEq, Eq)]
pub enum DriverAction {
    /// Send a command to the display.
    Viewer(ImageViewerCommand),
    /// Send a command to the focus tracker.
    Watcher(ForegroundWatcherCommand),
    /// Send a command to the console.
    Shell(StdinShellCommand),
    /// Start a worker for `hwnd`.
    StartCapture { hwnd: WindowHandle },
    /// Let go of the worker for `hwnd` and wait for its execution unit.
    JoinCapture { hwnd: WindowHandle },
    /// Print a diagnostic.
    Diagnostic { message: String },
}

/// A [`DriverAction`] as mathematical values.
pub enum DriverActionView {
    Viewer(ImageViewerCommandView),
    Watcher(ForegroundWatcherCommand),
    Shell(StdinShellCommandView),
    StartCapture { hwnd: WindowHandle },
    JoinCapture { hwnd: WindowHandle },
    Diagnostic { message: Seq<char> },
}

impl View for DriverAction {
    type V = DriverActionView;

    open spec fn view(&self) -> DriverActionView {
        match self {
            DriverAction::Viewer(command) => DriverActionView::Viewer(command@),
            DriverAction::Watcher(command) => DriverActionView::Watcher(*command),
            DriverAction::Shell(command) => DriverActionView::Shell(command@),
            DriverAction::StartCapture { hwnd } => DriverActionView::StartCapture { hwnd: *hwnd },
            DriverAction::JoinCapture { hwnd } => DriverActionView::JoinCapture { hwnd: *hwnd },
            DriverAction::Diagnostic { message } => DriverActionView::Diagnostic {
                message: message@,
            },
        }
    }
}

/// The views of a run of actions.
pub open spec fn action_views(actions: Seq<DriverAction>) -> Seq<DriverActionView> {
    actions.map_values(|action: DriverAction| action@)
}

/// The views of a run of events.
pub open spec fn event_views(events: Seq<DriverEvent>) -> Seq<DriverEventView> {
    events.map_values(|event: DriverEvent| event@)
}

/// The allow-list after `hwnds` were allowed: those not yet on it are added
/// at its end, in the order given.
pub open spec fn merged(allowed: Seq<WindowHandle>, hwnds: Seq<WindowHandle>) -> Seq<WindowHandle>
    decreases hwnds.len(),
{
    if hwnds.len() == 0 {
        allowed
    } else if allowed.contains(hwnds[0]) {
        merged(allowed, hwnds.drop_first())
    } else {
        merged(allowed.push(hwnds[0]), hwnds.drop_first())
    }
}

/// The allow-list as the console shows it: a heading, then each handle in
/// hexadecimal after a blank, in the order in which the handles were allowed.
pub open spec fn allow_list_text(allowed: Seq<WindowHandle>) -> Seq<char>
    decreases allowed.len(),
{
    if allowed.len() == 0 {
        "Allowed HWNDs:"@
    } else {
        allow_list_text(allowed.drop_last()) + seq![' '] + hex_text(allowed.last().0 as int)
    }
}

/// The diagnostic on a worker whose execution unit ended unannounced.
pub open spec fn finished_text(hwnd: WindowHandle) -> Seq<char> {
    seq!['['] + hex_text(hwnd.0 as int) + "] thread is finished"@
}

/// The requests to wait for the workers of `workers`, one each, in order.
pub open spec fn joins(workers: Seq<WindowHandle>) -> Seq<DriverActionView> {
    workers.map_values(|hwnd: WindowHandle| DriverActionView::JoinCapture { hwnd })
}

/// The commands that end the three collaborators, one each.
pub open spec fn quit_commands() -> Seq<DriverActionView> {
    seq![
        DriverActionView::Viewer(ImageViewerCommandView::Quit),
        DriverActionView::Watcher(ForegroundWatcherCommand::Quit),
        DriverActionView::Shell(StdinShellCommandView::Quit),
    ]
}

/// The supervisor's state as mathematical values.
pub struct DriverView {
    /// The windows that have a worker, in the order in which the workers were started.
    pub workers: Seq<WindowHandle>,
    /// The allow-list, in the order in which its handles were allowed.
    pub allowed: Seq<WindowHandle>,
    /// The window in focus, once one was reported.
    pub focused: Option<WindowHandle>,
    /// Whether the supervisor is running. A supervisor that stopped stays stopped.
    pub running: bool,
    /// Which windows are captured.
    pub policy: CapturePolicy,
}

impl DriverView {
    /// No window has two workers, no handle is on the allow-list twice, and
    /// a supervisor that stopped has let go of every worker.
    pub open spec fn wf(self) -> bool {
        &&& self.workers.no_duplicates()
        &&& self.allowed.no_duplicates()
        &&& !self.running ==> self.workers.len() == 0
    }

    /// Whether `hwnd` has a worker.
    pub open spec fn tracks(self, hwnd: WindowHandle) -> bool {
        self.workers.contains(hwnd)
    }

    /// Whether `hwnd` is captured once it comes into focus.
    pub open spec fn is_eligible(self, hwnd: WindowHandle) -> bool {
        self.policy is EveryWindow || self.allowed.contains(hwnd)
    }

    /// Focus moved to `hwnd`: the focus is recorded, and a worker is started
    /// if the window has none and is eligible.
    pub open spec fn focus(self, hwnd: WindowHandle) -> (DriverView, Seq<DriverActionView>) {
        let focused = DriverView { focused: Some(hwnd), ..self };
        if !self.tracks(hwnd) && self.is_eligible(hwnd) {
            (
                DriverView { workers: self.workers.push(hwnd), ..focused },
                seq![DriverActionView::StartCapture { hwnd }],
            )
        } else {
            (focused, Seq::empty())
        }
    }

    /// The worker for `hwnd` is over: it is let go and waited for, if there
    /// is one. `unannounced` adds a diagnostic in front.
    pub open spec fn release(self, hwnd: WindowHandle, unannounced: bool) -> (
        DriverView,
        Seq<DriverActionView>,
    ) {
        if self.tracks(hwnd) {
            (
                DriverView { workers: self.workers.remove(self.workers.index_of(hwnd)), ..self },
                if unannounced {
                    seq![
                        DriverActionView::Diagnostic { message: finished_text(hwnd) },
                        DriverActionView::JoinCapture { hwnd },
                    ]
                } else {
                    seq![DriverActionView::JoinCapture { hwnd }]
                },
            )
        } else {
            (self, Seq::empty())
        }
    }

    /// A frame arrived: it goes to the display if its window is in focus,
    /// and nowhere otherwise.
    pub open spec fn route(self, frame: FrameView) -> Seq<DriverActionView> {
        if self.focused == Some(frame.hwnd) {
            seq![DriverActionView::Viewer(ImageViewerCommandView::Update(frame))]
        } else {
            Seq::empty()
        }
    }

    /// The supervisor stops: each collaborator is told to quit, and every
    /// worker is let go and waited for.
    pub open spec fn stop(self) -> (DriverView, Seq<DriverActionView>) {
        (
            DriverView { running: false, workers: Seq::empty(), ..self },
            quit_commands() + joins(self.workers),
        )
    }

    /// What one event does to a running supervisor.
    pub open spec fn react(self, event: DriverEventView) -> (DriverView, Seq<DriverActionView>) {
        match event {
            DriverEventView::Viewer(ImageViewerMessage::Closed) => self.stop(),
            DriverEventView::Watcher(ForegroundWatcherMessage::WindowChanged { hwnd }) => {
                self.focus(hwnd)
            },
            DriverEventView::Shell(StdinShellMessageView::QuitRequested) => self.stop(),
            DriverEventView::Shell(StdinShellMessageView::AllowHWND(hwnds)) => (
                DriverView { allowed: merged(self.allowed, hwnds), ..self },
                Seq::empty(),
            ),
            DriverEventView::Shell(StdinShellMessageView::ListRequested) => (
                self,
                seq![
                    DriverActionView::Shell(
                        StdinShellCommandView::Output { message: allow_list_text(self.allowed) },
                    ),
                ],
            ),
            DriverEventView::Capture(WindowCaptureMessage::Closed { hwnd }) => self.release(
                hwnd,
                false,
            ),
            DriverEventView::Frame(frame) => (self, self.route(frame)),
            DriverEventView::Disconnected { hwnd } => self.release(hwnd, false),
            DriverEventView::Finished { hwnd } => self.release(hwnd, true),
        }
    }

    /// What one event does: a supervisor that stopped takes no notice of it.
    pub open spec fn step(self, event: DriverEventView) -> (DriverView, Seq<DriverActionView>) {
        if self.running {
            self.react(event)
        } else {
            (self, Seq::empty())
        }
    }

    /// What a run of events does, taken in order: the state at the end and
    /// all the actions asked for on the way.
    pub open spec fn run(self, events: Seq<DriverEventView>) -> (DriverView, Seq<DriverActionView>)
        decreases events.len(),
    {
        if events.len() == 0 {
            (self, Seq::empty())
        } else {
            let (before, earlier) = self.run(events.drop_last());
            let (after, actions) = before.step(events.last());
            (after, earlier + actions)
        }
    }
}

/// The supervisor.
pub struct Driver {
    caps: Vec<WindowHandle>,
    allowed: Vec<WindowHandle>,
    current_hwnd: Option<WindowHandle>,
    is_running: bool,
    policy: CapturePolicy,
}

impl View for Driver {
    type V = DriverView;

    closed spec fn view(&self) -> DriverView {
        DriverView {
            workers: self.caps@,
            allowed: self.allowed@,
            focused: self.current_hwnd,
            running: self.is_running,
            policy: self.policy,
        }
    }
}

/// The place of `hwnd` in `list`, if it is there.
fn position(list: &Vec<WindowHandle>, hwnd: WindowHandle) -> (found: Option<usize>)
    ensures
        found matches Some(i) ==> i < list@.len() && list@[i as int] == hwnd,
        found is None ==> !list@.contains(hwnd),
{
    let mut i: usize = 0;
    while i < list.len()
        invariant
            i <= list@.len(),
            forall|j: int| 0 <= j < i ==> list@[j] != hwnd,
        decreases list@.len() - i,
    {
        if list[i].0 == hwnd.0 {
            return Some(i);
        }
        i = i + 1;
    }
    None
}

/// Mapping to views goes through `push`.
proof fn lemma_views_push(actions: Seq<DriverAction>, action: DriverAction)
    ensures
        action_views(actions.push(action)) == action_views(actions).push(action@),
{
    assert(action_views(actions.push(action)) =~= action_views(actions).push(action@));
}

impl Driver {
    /// A running supervisor without workers, focus or allowed windows.
    pub fn new(policy: CapturePolicy) -> (driver: Self)
        ensures
            driver@ == (DriverView {
                workers: Seq::empty(),
                allowed: Seq::empty(),
                focused: None,
                running: true,
                policy,
            }),
            driver@.wf(),
    {
        Driver {
            caps: Vec::new(),
            allowed: Vec::new(),
            current_hwnd: None,
            is_running: true,
            policy,
        }
    }

    /// Takes in a message of the display.
    pub fn handle_image_viewer_message(&mut self, msg: ImageViewerMessage) -> (actions: Vec<
        DriverAction,
    >)
        requires
            old(self)@.wf(),
        ensures
            final(self)@.wf(),
            (final(self)@, action_views(actions@)) == old(self)@.step(DriverEventView::Viewer(msg)),
    {
        match msg {
            ImageViewerMessage::Closed => self.quit(),
        }
    }

    /// Takes in a message of the focus tracker.
    pub fn handle_foreground_watcher_message(&mut self, msg: ForegroundWatcherMessage) -> (actions:
        Vec<DriverAction>)
        requires
            old(self)@.wf(),
        ensures
            final(self)@.wf(),
            (final(self)@, action_views(actions@)) == old(self)@.step(
                DriverEventView::Watcher(msg),
            ),
    {
        let mut actions: Vec<DriverAction> = Vec::new();
        if !self.is_running {
            assert(action_views(actions@) =~= Seq::empty());
            return actions;
        }
        match msg {
            ForegroundWatcherMessage::WindowChanged { hwnd } => {
                self.current_hwnd = Some(hwnd);
                let eligible = match self.policy {
                    CapturePolicy::EveryWindow => true,
                    CapturePolicy::AllowedOnly => position(&self.allowed, hwnd).is_some(),
                };
                if eligible && position(&self.caps, hwnd).is_none() {
                    self.start_capture_for(hwnd, &mut actions);
                }
            },
        }
        assert(action_views(actions@) =~= old(self)@.step(DriverEventView::Watcher(msg)).1);
        actions
    }

    /// Records a worker for `hwnd` and asks for its start.
    fn start_capture_for(&mut self, hwnd: WindowHandle, actions: &mut Vec<DriverAction>)
        requires
            old(self)@.wf(),
            old(self)@.running,
            !old(self)@.tracks(hwnd),
        ensures
            final(self)@.wf(),
            final(self)@ == (DriverView { workers: old(self)@.workers.push(hwnd), ..old(self)@ }),
            final(actions)@ == old(actions)@.push(DriverAction::StartCapture { hwnd }),
    {
        self.caps.push(hwnd);
        actions.push(DriverAction::StartCapture { hwnd });
    }

    /// Stops the supervisor: each collaborator is told to quit and every
    /// worker is let go and waited for. A supervisor that stopped before
    /// stays as it is and asks for nothing.
    pub fn quit(&mut self) -> (actions: Vec<DriverAction>)
        requires
            old(self)@.wf(),
        ensures
            final(self)@.wf(),
            (final(self)@, action_views(actions@)) == if old(self)@.running {
                old(self)@.stop()
            } else {
                (old(self)@, Seq::empty())
            },
    {
        let mut actions: Vec<DriverAction> = Vec::new();
        if !self.is_running {
            assert(action_views(actions@) =~= Seq::empty());
            return actions;
        }
        self.is_running = false;
        actions.push(DriverAction::Viewer(ImageViewerCommand::Quit));
        actions.push(DriverAction::Watcher(ForegroundWatcherCommand::Quit));
        actions.push(DriverAction::Shell(StdinShellCommand::Quit));
        assert(action_views(actions@) =~= quit_commands());
        let mut i: usize = 0;
        while i < self.caps.len()
            invariant
                i <= self.caps@.len(),
                self.caps@ == old(self).caps@,
                action_views(actions@) == quit_commands() + joins(self.caps@.take(i as int)),
            decreases self.caps@.len() - i,
        {
            let hwnd = self.caps[i];
            proof {
                lemma_views_push(actions@, DriverAction::JoinCapture { hwnd });
                assert(joins(self.caps@.take(i + 1)) =~= joins(self.caps@.take(i as int)).push(
                    DriverActionView::JoinCapture { hwnd },
                ));
            }
            actions.push(DriverAction::JoinCapture { hwnd });
            i = i + 1;
        }
        assert(self.caps@.take(i as int) =~= self.caps@);
        self.caps.clear();
        actions
    }

    /// Takes in a message of the console.
    pub fn handle_stdin_shell_message(&mut self, msg: StdinShellMessage) -> (actions: Vec<
        DriverAction,
    >)
        requires
            old(self)@.wf(),
        ensures
            final(self)@.wf(),
            (final(self)@, action_views(actions@)) == old(self)@.step(DriverEventView::Shell(msg@)),
    {
        match msg {
            StdinShellMessage::QuitRequested => self.quit(),
            StdinShellMessage::AllowHWND(hwnds) => {
                if self.is_running {
                    self.allow(&hwnds);
                }
                let actions: Vec<DriverAction> = Vec::new();
                assert(action_views(actions@) =~= Seq::empty());
                actions
            },
            StdinShellMessage::ListRequested => {
                let mut actions: Vec<DriverAction> = Vec::new();
                assert(action_views(actions@) =~= Seq::empty());
                if self.is_running {
                    let message = self.allow_list();
                    proof {
                        lemma_views_push(
                            actions@,
                            DriverAction::Shell(StdinShellCommand::Output { message }),
                        );
                    }
                    actions.push(DriverAction::Shell(StdinShellCommand::Output { message }));
                    assert(action_views(actions@) =~= old(self)@.step(
                        DriverEventView::Shell(msg@),
                    ).1);
                }
                actions
            },
        }
    }

    /// Puts the handles of `hwnds` that are not yet allowed on the allow-list.
    fn allow(&mut self, hwnds: &Vec<WindowHandle>)
        requires
            old(self)@.wf(),
        ensures
            final(self)@.wf(),
            final(self)@ == (DriverView {
                allowed: merged(old(self)@.allowed, hwnds@),
                ..old(self)@
            }),
    {
        let mut i: usize = 0;
        assert(hwnds@.skip(0) =~= hwnds@);
        while i < hwnds.len()
            invariant
                i <= hwnds@.len(),
                self@.wf(),
                self@ == (DriverView { allowed: self@.allowed, ..old(self)@ }),
                merged(self@.allowed, hwnds@.skip(i as int)) == merged(old(self)@.allowed, hwnds@),
            decreases hwnds@.len() - i,
        {
            let hwnd = hwnds[i];
            assert(hwnds@.skip(i as int).drop_first() =~= hwnds@.skip(i + 1));
            if position(&self.allowed, hwnd).is_none() {
                self.allowed.push(hwnd);
            }
            i = i + 1;
        }
    }

    /// The allow-list as text.
    fn allow_list(&self) -> (text: String)
        ensures
            text@ == allow_list_text(self@.allowed),
    {
        let mut text = String::from_str("Allowed HWNDs:");
        let mut i: usize = 0;
        assert(self.allowed@.take(0) =~= Seq::empty());
        while i < self.allowed.len()
            invariant
                i <= self.allowed@.len(),
                text@ == allow_list_text(self.allowed@.take(i as int)),
            decreases self.allowed@.len() - i,
        {
            proof {
                reveal_strlit(" ");
                assert(self.allowed@.take(i + 1).drop_last() =~= self.allowed@.take(i as int));
            }
            text.append(" ");
            push_hex(&mut text, self.allowed[i]);
            assert(text@ =~= allow_list_text(self.allowed@.take(i + 1)));
            i = i + 1;
        }
        assert(self.allowed@.take(i as int) =~= self.allowed@);
        text
    }

    /// Takes in a message of a worker.
    pub fn handle_captures_message(&mut self, msg: WindowCaptureMessage) -> (actions: Vec<
        DriverAction,
    >)
        requires
            old(self)@.wf(),
        ensures
            final(self)@.wf(),
            (final(self)@, action_views(actions@)) == old(self)@.step(
                DriverEventView::Capture(msg),
            ),
    {
        match msg {
            WindowCaptureMessage::Closed { hwnd } => self.release(hwnd, false),
        }
    }

    /// Takes in a frame of a worker.
    pub fn handle_captures_frames(&mut self, frame: CapturedFrame) -> (actions: Vec<DriverAction>)
        requires
            old(self)@.wf(),
        ensures
            final(self)@.wf(),
            (final(self)@, action_views(actions@)) == old(self)@.step(
                DriverEventView::Frame(frame@),
            ),
    {
        let mut actions: Vec<DriverAction> = Vec::new();
        assert(action_views(actions@) =~= Seq::empty());
        let in_focus = match self.current_hwnd {
            Some(focused) => focused.0 == frame.hwnd.0,
            None => false,
        };
        if self.is_running && in_focus {
            proof {
                lemma_views_push(actions@, DriverAction::Viewer(ImageViewerCommand::Update(frame)));
            }
            actions.push(DriverAction::Viewer(ImageViewerCommand::Update(frame)));
            assert(action_views(actions@) =~= old(self)@.route(frame@));
        }
        actions
    }

    /// The queues of the worker for `hwnd` were found disconnected.
    pub fn handle_disconnected(&mut self, hwnd: WindowHandle) -> (actions: Vec<DriverAction>)
        requires
            old(self)@.wf(),
        ensures
            final(self)@.wf(),
            (final(self)@, action_views(actions@)) == old(self)@.step(
                DriverEventView::Disconnected { hwnd },
            ),
    {
        self.release(hwnd, false)
    }

    /// The execution unit of the worker for `hwnd` was found finished.
    pub fn cleanup_threads(&mut self, hwnd: WindowHandle) -> (actions: Vec<DriverAction>)
        requires
            old(self)@.wf(),
        ensures
            final(self)@.wf(),
            (final(self)@, action_views(actions@)) == old(self)@.step(
                DriverEventView::Finished { hwnd },
            ),
    {
        self.release(hwnd, true)
    }

    /// Lets go of the worker for `hwnd`, if the supervisor runs and has one.
    fn release(&mut self, hwnd: WindowHandle, unannounced: bool) -> (actions: Vec<DriverAction>)
        requires
            old(self)@.wf(),
        ensures
            final(self)@.wf(),
            (final(self)@, action_views(actions@)) == if old(self)@.running {
                old(self)@.release(hwnd, unannounced)
            } else {
                (old(self)@, Seq::empty())
            },
    {
        let mut actions: Vec<DriverAction> = Vec::new();
        assert(action_views(actions@) =~= Seq::empty());
        if !self.is_running {
            return actions;
        }
        match position(&self.caps, hwnd) {
            Some(i) => {
                assert(self.caps@.index_of(hwnd) == i);
                self.caps.remove(i);
                if unannounced {
                    let message = finished_notice(hwnd);
                    actions.push(DriverAction::Diagnostic { message });
                }
                actions.push(DriverAction::JoinCapture { hwnd });
                assert(action_views(actions@) =~= old(self)@.release(hwnd, unannounced).1);
            },
            None => {},
        }
        actions
    }

    /// Takes in one event, whatever its source.
    pub fn handle(&mut self, event: DriverEvent) -> (actions: Vec<DriverAction>)
        requires
            old(self)@.wf(),
        ensures
            final(self)@.wf(),
            (final(self)@, action_views(actions@)) == old(self)@.step(event@),
    {
        match event {
            DriverEvent::Viewer(msg) => self.handle_image_viewer_message(msg),
            DriverEvent::Watcher(msg) => self.handle_foreground_watcher_message(msg),
            DriverEvent::Shell(msg) => self.handle_stdin_shell_message(msg),
            DriverEvent::Capture(msg) => self.handle_captures_message(msg),
            DriverEvent::Frame(frame) => self.handle_captures_frames(frame),
            DriverEvent::Disconnected { hwnd } => self.handle_disconnected(hwnd),
            DriverEvent::Finished { hwnd } => self.cleanup_threads(hwnd),
        }
    }

    /// Takes in a run of events, oldest first, and returns all the actions
    /// asked for on the way, in order.
    pub fn run(&mut self, events: Vec<DriverEvent>) -> (actions: Vec<DriverAction>)
        requires
            old(self)@.wf(),
        ensures
            final(self)@.wf(),
            (final(self)@, action_views(actions@)) == old(self)@.run(event_views(events@)),
    {
        let ghost all = event_views(events@);
        let mut actions: Vec<DriverAction> = Vec::new();
        assert(action_views(actions@) =~= Seq::empty());
        assert(all.take(0) =~= Seq::empty());
        for event in it: events
            invariant
                self@.wf(),
                event_views(it.seq()) == all,
                (self@, action_views(actions@)) == old(self)@.run(all.take(it.index() as int)),
        {
            let ghost before = actions@;
            let ghost taken = all.take(it.index() + 1);
            assert(taken.drop_last() =~= all.take(it.index() as int));
            assert(taken.last() == event@);
            let mut more = self.handle(event);
            let ghost added = more@;
            actions.append(&mut more);
            assert(action_views(actions@) =~= action_views(before) + action_views(added));
        }
        assert(all.take(all.len() as int) =~= all);
        actions
    }

    /// Whether the supervisor is running.
    pub fn is_running(&self) -> (running: bool)
        ensures
            running == self@.running,
    {
        self.is_running
    }

    /// The window in focus, once one was reported.
    pub fn current_hwnd(&self) -> (hwnd: Option<WindowHandle>)
        ensures
            hwnd == self@.focused,
    {
        self.current_hwnd
    }

    /// Which windows are captured.
    pub fn policy(&self) -> (policy: CapturePolicy)
        ensures
            policy == self@.policy,
    {
        self.policy
    }

    /// Whether `hwnd` has a worker.
    pub fn is_capturing(&self, hwnd: WindowHandle) -> (capturing: bool)
        ensures
            capturing == self@.tracks(hwnd),
    {
        position(&self.caps, hwnd).is_some()
    }

    /// The windows that have a worker, in the order in which the workers were started.
    pub fn captured(&self) -> (workers: &Vec<WindowHandle>)
        ensures
            workers@ == self@.workers,
    {
        &self.caps
    }

    /// The allow-list, in the order in which its handles were allowed.
    pub fn allowed(&self) -> (allowed: &Vec<WindowHandle>)
        ensures
            allowed@ == self@.allowed,
    {
        &self.allowed
    }
}

/// The diagnostic on a worker whose execution unit ended unannounced.
fn finished_notice(hwnd: WindowHandle) -> (text: String)
    ensures
        text@ == finished_text(hwnd),
{
    proof {
        reveal_strlit("[");
    }
    let mut text = String::from_str("[");
    push_hex(&mut text, hwnd);
    text.append("] thread is finished");
    text
}

} // verus!
