//! The focus tracker: turns periodic observations of the foreground window
//! into change notifications.

use crate::window::WindowHandle;
use vstd::prelude::*;

verus! {

/// Pause between two observations of the foreground window, in milliseconds.
pub const POLL_INTERVAL_MILLIS: u64 = 100;

/// What the supervisor may ask of the tracker.
#[derive(Clone, Copy, Debug, PartialEq, Eq, Structural)]
pub enum ForegroundWatcherCommand {
    Quit,
}

/// What the tracker tells the supervisor.
#[derive(Clone, Copy, Debug, PartialEq, Eq, Structural)]
pub enum ForegroundWatcherMessage {
    WindowChanged { hwnd: WindowHandle },
}

/// Remembers the window that was in the foreground at the last observation.
pub struct ForegroundWatcher {
    old_hwnd: Option<WindowHandle>,
}

/// The notification that an observation calls for: one exactly when the
/// window seen differs from the one seen before.
pub open spec fn notification(
    previous: Option<WindowHandle>,
    seen: WindowHandle,
) -> Option<ForegroundWatcherMessage> {
    if previous == Some(seen) {
        None
    } else {
        Some(ForegroundWatcherMessage::WindowChanged { hwnd: seen })
    }
}

impl ForegroundWatcher {
    /// The window seen at the last observation, if there was one.
    pub closed spec fn last_seen(&self) -> Option<WindowHandle> {
        self.old_hwnd
    }

    /// A tracker that has not observed anything yet.
    pub fn new() -> (watcher: Self)
        ensures
            watcher.last_seen().is_none(),
    {
        ForegroundWatcher { old_hwnd: None }
    }

    /// Whether the tracker goes on after `command`: it stops on `Quit`.
    pub fn handle_command(&self, command: ForegroundWatcherCommand) -> (go_on: bool)
        ensures
            go_on == !(command is Quit),
    {
        match command {
            ForegroundWatcherCommand::Quit => false,
        }
    }

    /// Takes in one observation of the foreground window.
    pub fn observe(&mut self, hwnd: WindowHandle) -> (message: Option<ForegroundWatcherMessage>)
        ensures
            message == notification(old(self).last_seen(), hwnd),
            final(self).last_seen() == Some(hwnd),
    {
        let changed = match self.old_hwnd {
            Some(previous) => previous.0 != hwnd.0,
            None => true,
        };
        if changed {
            self.old_hwnd = Some(hwnd);
            Some(ForegroundWatcherMessage::WindowChanged { hwnd })
        } else {
            None
        }
    }
}

} // verus!
