use focus_capture::driver::{CapturePolicy, Driver, DriverAction, DriverEvent};
use focus_capture::foreground_watcher::{ForegroundWatcherCommand, ForegroundWatcherMessage};
use focus_capture::frame::{normalize, CapturedFrame};
use focus_capture::image_viewer::{ImageViewerCommand, ImageViewerMessage};
use focus_capture::stdin_shell::{StdinShell, StdinShellCommand, StdinShellMessage, UserInput};
use focus_capture::window::WindowHandle;
use focus_capture::window_capture::{Handler, WindowCapture, WindowCaptureMessage};

fn focus(raw: isize) -> ForegroundWatcherMessage {
    ForegroundWatcherMessage::WindowChanged { hwnd: WindowHandle(raw) }
}

fn frame(raw: isize, fill: u8) -> CapturedFrame {
    CapturedFrame { hwnd: WindowHandle(raw), width: 2, height: 1, bytes: vec![fill; 8] }
}

fn start(raw: isize) -> DriverAction {
    DriverAction::StartCapture { hwnd: WindowHandle(raw) }
}

fn join(raw: isize) -> DriverAction {
    DriverAction::JoinCapture { hwnd: WindowHandle(raw) }
}

fn update(f: CapturedFrame) -> DriverAction {
    DriverAction::Viewer(ImageViewerCommand::Update(f))
}

fn quits() -> Vec<DriverAction> {
    vec![
        DriverAction::Viewer(ImageViewerCommand::Quit),
        DriverAction::Watcher(ForegroundWatcherCommand::Quit),
        DriverAction::Shell(StdinShellCommand::Quit),
    ]
}

#[test]
fn new_supervisor_runs_without_workers() {
    let driver = Driver::new(CapturePolicy::EveryWindow);
    assert!(driver.is_running());
    assert_eq!(driver.current_hwnd(), None);
    assert!(driver.captured().is_empty());
    assert!(driver.allowed().is_empty());
    assert_eq!(driver.policy(), CapturePolicy::EveryWindow);
}

#[test]
fn focus_starts_one_worker_per_window() {
    let mut driver = Driver::new(CapturePolicy::EveryWindow);
    assert_eq!(driver.handle_foreground_watcher_message(focus(0x10)), vec![start(0x10)]);
    assert_eq!(driver.handle_foreground_watcher_message(focus(0x20)), vec![start(0x20)]);
    // Coming back to a window that is captured starts nothing.
    assert_eq!(driver.handle_foreground_watcher_message(focus(0x10)), vec![]);
    assert_eq!(driver.current_hwnd(), Some(WindowHandle(0x10)));
    assert_eq!(driver.captured(), &vec![WindowHandle(0x10), WindowHandle(0x20)]);
    assert!(driver.is_capturing(WindowHandle(0x20)));
    assert!(!driver.is_capturing(WindowHandle(0x30)));
}

#[test]
fn losing_focus_keeps_the_worker() {
    let mut driver = Driver::new(CapturePolicy::EveryWindow);
    driver.handle_foreground_watcher_message(focus(1));
    driver.handle_foreground_watcher_message(focus(2));
    assert!(driver.is_capturing(WindowHandle(1)));
    assert!(driver.is_capturing(WindowHandle(2)));
}

#[test]
fn only_frames_of_the_focused_window_are_forwarded() {
    let mut driver = Driver::new(CapturePolicy::EveryWindow);
    driver.handle_foreground_watcher_message(focus(0xB));
    driver.handle_foreground_watcher_message(focus(0xA));
    assert_eq!(driver.handle_captures_frames(frame(0xA, 1)), vec![update(frame(0xA, 1))]);
    assert_eq!(driver.handle_captures_frames(frame(0xB, 2)), vec![]);
    driver.handle_foreground_watcher_message(focus(0xB));
    assert_eq!(driver.handle_captures_frames(frame(0xA, 3)), vec![]);
    assert_eq!(driver.handle_captures_frames(frame(0xB, 4)), vec![update(frame(0xB, 4))]);
}

#[test]
fn frames_are_dropped_before_any_focus() {
    let mut driver = Driver::new(CapturePolicy::EveryWindow);
    assert_eq!(driver.handle_captures_frames(frame(7, 7)), vec![]);
}

#[test]
fn closed_worker_is_joined_once() {
    let mut driver = Driver::new(CapturePolicy::EveryWindow);
    driver.handle_foreground_watcher_message(focus(5));
    let closed = WindowCaptureMessage::Closed { hwnd: WindowHandle(5) };
    assert_eq!(driver.handle_captures_message(closed), vec![join(5)]);
    assert!(!driver.is_capturing(WindowHandle(5)));
    // A second report, a disconnect and a finished unit find nothing to join.
    assert_eq!(driver.handle_captures_message(closed), vec![]);
    assert_eq!(driver.handle_disconnected(WindowHandle(5)), vec![]);
    assert_eq!(driver.cleanup_threads(WindowHandle(5)), vec![]);
}

#[test]
fn disconnected_worker_is_joined() {
    let mut driver = Driver::new(CapturePolicy::EveryWindow);
    driver.handle_foreground_watcher_message(focus(5));
    driver.handle_foreground_watcher_message(focus(6));
    assert_eq!(driver.handle_disconnected(WindowHandle(5)), vec![join(5)]);
    assert_eq!(driver.captured(), &vec![WindowHandle(6)]);
}

#[test]
fn finished_worker_is_reaped_with_a_diagnostic() {
    let mut driver = Driver::new(CapturePolicy::EveryWindow);
    driver.handle_foreground_watcher_message(focus(0x1f));
    assert_eq!(
        driver.cleanup_threads(WindowHandle(0x1f)),
        vec![
            DriverAction::Diagnostic { message: "[0x1f] thread is finished".to_string() },
            join(0x1f),
        ]
    );
    assert!(driver.captured().is_empty());
}

#[test]
fn quit_request_stops_and_drains() {
    let mut driver = Driver::new(CapturePolicy::EveryWindow);
    driver.handle_foreground_watcher_message(focus(1));
    driver.handle_foreground_watcher_message(focus(2));
    let mut expected = quits();
    expected.push(join(1));
    expected.push(join(2));
    assert_eq!(driver.handle_stdin_shell_message(StdinShellMessage::QuitRequested), expected);
    assert!(!driver.is_running());
    assert!(driver.captured().is_empty());
}

#[test]
fn display_closure_stops_the_supervisor() {
    let mut driver = Driver::new(CapturePolicy::EveryWindow);
    assert_eq!(driver.handle_image_viewer_message(ImageViewerMessage::Closed), quits());
    assert!(!driver.is_running());
}

#[test]
fn quit_is_sent_once_whatever_asks_for_it() {
    let mut driver = Driver::new(CapturePolicy::EveryWindow);
    driver.handle_foreground_watcher_message(focus(9));
    let actions = driver.run(vec![
        DriverEvent::Shell(StdinShellMessage::QuitRequested),
        DriverEvent::Viewer(ImageViewerMessage::Closed),
        DriverEvent::Shell(StdinShellMessage::QuitRequested),
    ]);
    let mut expected = quits();
    expected.push(join(9));
    assert_eq!(actions, expected);
}

#[test]
fn quitting_twice_asks_for_nothing_the_second_time() {
    let mut driver = Driver::new(CapturePolicy::EveryWindow);
    driver.handle_foreground_watcher_message(focus(4));
    let mut expected = quits();
    expected.push(join(4));
    assert_eq!(driver.quit(), expected);
    assert_eq!(driver.quit(), vec![]);
    assert!(!driver.is_running());
}

#[test]
fn stopped_supervisor_ignores_events() {
    let mut driver = Driver::new(CapturePolicy::EveryWindow);
    driver.handle_foreground_watcher_message(focus(3));
    driver.handle_image_viewer_message(ImageViewerMessage::Closed);
    assert_eq!(driver.handle_foreground_watcher_message(focus(4)), vec![]);
    assert_eq!(driver.current_hwnd(), Some(WindowHandle(3)));
    assert_eq!(driver.handle_captures_frames(frame(3, 0)), vec![]);
    assert_eq!(driver.handle_stdin_shell_message(StdinShellMessage::ListRequested), vec![]);
    assert_eq!(
        driver.handle_stdin_shell_message(StdinShellMessage::AllowHWND(vec![WindowHandle(1)])),
        vec![]
    );
    assert!(driver.allowed().is_empty());
    assert_eq!(driver.cleanup_threads(WindowHandle(3)), vec![]);
}

#[test]
fn allow_list_gates_capture_when_asked_to() {
    let mut driver = Driver::new(CapturePolicy::AllowedOnly);
    assert_eq!(driver.handle_foreground_watcher_message(focus(0x2002)), vec![]);
    assert_eq!(driver.current_hwnd(), Some(WindowHandle(0x2002)));
    assert!(!driver.is_capturing(WindowHandle(0x2002)));
    driver.handle_stdin_shell_message(StdinShellMessage::AllowHWND(vec![WindowHandle(0x2002)]));
    // Allowing a window starts nothing; its next turn in focus does.
    assert!(!driver.is_capturing(WindowHandle(0x2002)));
    assert_eq!(driver.handle_foreground_watcher_message(focus(0x3003)), vec![]);
    assert_eq!(driver.handle_foreground_watcher_message(focus(0x2002)), vec![start(0x2002)]);
}

#[test]
fn allow_list_does_not_gate_capture_of_every_window() {
    let mut driver = Driver::new(CapturePolicy::EveryWindow);
    driver.handle_stdin_shell_message(StdinShellMessage::AllowHWND(vec![WindowHandle(1)]));
    assert_eq!(driver.handle_foreground_watcher_message(focus(2)), vec![start(2)]);
}

#[test]
fn allowed_windows_are_merged_in_order() {
    let mut driver = Driver::new(CapturePolicy::AllowedOnly);
    let allow = |raws: &[isize]| {
        StdinShellMessage::AllowHWND(raws.iter().map(|&r| WindowHandle(r)).collect())
    };
    assert_eq!(driver.handle_stdin_shell_message(allow(&[3, 1, 3])), vec![]);
    assert_eq!(driver.handle_stdin_shell_message(allow(&[2, 1, 4])), vec![]);
    assert_eq!(driver.handle_stdin_shell_message(allow(&[])), vec![]);
    assert_eq!(
        driver.allowed(),
        &vec![WindowHandle(3), WindowHandle(1), WindowHandle(2), WindowHandle(4)]
    );
}

#[test]
fn empty_allow_list_is_listed_as_a_heading() {
    let mut driver = Driver::new(CapturePolicy::EveryWindow);
    assert_eq!(
        driver.handle_stdin_shell_message(StdinShellMessage::ListRequested),
        vec![DriverAction::Shell(StdinShellCommand::Output {
            message: "Allowed HWNDs:".to_string()
        })]
    );
}

#[test]
fn run_takes_events_in_order() {
    let mut driver = Driver::new(CapturePolicy::EveryWindow);
    let actions = driver.run(vec![
        DriverEvent::Watcher(focus(1)),
        DriverEvent::Frame(frame(1, 10)),
        DriverEvent::Watcher(focus(2)),
        DriverEvent::Frame(frame(1, 11)),
        DriverEvent::Frame(frame(2, 12)),
        DriverEvent::Capture(WindowCaptureMessage::Closed { hwnd: WindowHandle(1) }),
        DriverEvent::Finished { hwnd: WindowHandle(1) },
        DriverEvent::Disconnected { hwnd: WindowHandle(2) },
    ]);
    assert_eq!(
        actions,
        vec![start(1), update(frame(1, 10)), start(2), update(frame(2, 12)), join(1), join(2)]
    );
    assert!(driver.is_running());
    assert!(driver.captured().is_empty());
    assert_eq!(driver.run(vec![]), vec![]);
}

#[test]
fn handle_agrees_with_the_named_handlers() {
    let mut one = Driver::new(CapturePolicy::EveryWindow);
    let mut other = Driver::new(CapturePolicy::EveryWindow);
    assert_eq!(
        one.handle(DriverEvent::Watcher(focus(8))),
        other.handle_foreground_watcher_message(focus(8))
    );
    assert_eq!(
        one.handle(DriverEvent::Frame(frame(8, 1))),
        other.handle_captures_frames(frame(8, 1))
    );
    assert_eq!(
        one.handle(DriverEvent::Finished { hwnd: WindowHandle(8) }),
        other.cleanup_threads(WindowHandle(8))
    );
    assert_eq!(
        one.handle(DriverEvent::Viewer(ImageViewerMessage::Closed)),
        other.handle_image_viewer_message(ImageViewerMessage::Closed)
    );
}

#[test]
fn every_started_worker_is_joined_exactly_once() {
    // Starts and joins balance for every window over a long mixed run.
    let mut driver = Driver::new(CapturePolicy::EveryWindow);
    let mut events = Vec::new();
    for round in 0..40isize {
        let hwnd = WindowHandle(round % 5);
        events.push(DriverEvent::Watcher(focus(hwnd.0)));
        if round % 3 == 0 {
            events.push(DriverEvent::Capture(WindowCaptureMessage::Closed { hwnd }));
        }
        if round % 4 == 0 {
            events.push(DriverEvent::Finished { hwnd: WindowHandle((round + 1) % 5) });
        }
        if round % 7 == 0 {
            events.push(DriverEvent::Disconnected { hwnd: WindowHandle((round + 2) % 5) });
        }
    }
    events.push(DriverEvent::Shell(StdinShellMessage::QuitRequested));
    let actions = driver.run(events);
    for raw in 0..5isize {
        let starts = actions.iter().filter(|a| **a == start(raw)).count();
        let joins = actions.iter().filter(|a| **a == join(raw)).count();
        assert_eq!(starts, joins);
        assert!(starts > 0);
    }
    // Between two starts of a window's worker lies a join of it.
    for raw in 0..5isize {
        let mut running = false;
        for action in &actions {
            if *action == start(raw) {
                assert!(!running);
                running = true;
            } else if *action == join(raw) {
                assert!(running);
                running = false;
            }
        }
        assert!(!running);
    }
    assert_eq!(actions.iter().filter(|a| **a == DriverAction::Viewer(ImageViewerCommand::Quit)).count(), 1);
    assert_eq!(actions.iter().filter(|a| **a == DriverAction::Watcher(ForegroundWatcherCommand::Quit)).count(), 1);
    assert_eq!(actions.iter().filter(|a| **a == DriverAction::Shell(StdinShellCommand::Quit)).count(), 1);
}

#[test]
fn window_is_captured_shown_closed_and_captured_again() {
    let window = WindowHandle(0x1001);
    let mut driver = Driver::new(CapturePolicy::EveryWindow);
    assert_eq!(driver.handle_foreground_watcher_message(focus(0x1001)), vec![start(0x1001)]);

    // The worker takes in a 64 by 64 image whose rows lie 96 pixels apart.
    let mut raw = vec![0xEEu8; 96 * 64 * 4];
    for row in 0..64usize {
        for byte in 0..64 * 4usize {
            raw[row * 96 * 4 + byte] = ((row + byte) % 199) as u8;
        }
    }
    let capture = WindowCapture::new(window);
    let mut handler = Handler::new(capture.args(), 1_000);
    let emitted = handler.on_frame_arrived(1_000, 64, 64, 96, &raw).expect("the first frame is due");
    assert_eq!(emitted.hwnd, window);
    assert_eq!((emitted.width, emitted.height), (64, 64));
    assert_eq!(emitted.bytes.len(), 64 * 64 * 4);
    assert_eq!(emitted.bytes, normalize(&raw, 64, 64, 96));
    assert!(emitted.bytes.iter().all(|&b| b != 0xEE));

    let forwarded = driver.handle_captures_frames(emitted.clone());
    assert_eq!(forwarded, vec![update(emitted)]);

    // The window closes: the worker says so and is let go.
    assert_eq!(driver.handle_captures_message(handler.on_closed()), vec![join(0x1001)]);
    assert!(!driver.is_capturing(window));

    // Focus comes back: a new worker is started.
    assert_eq!(driver.handle_foreground_watcher_message(focus(0x1001)), vec![start(0x1001)]);
    assert!(driver.is_capturing(window));
}

#[test]
fn allowed_windows_are_listed_in_the_order_given() {
    let shell = StdinShell::new();
    let mut driver = Driver::new(CapturePolicy::AllowedOnly);
    let input = shell.parse_command("allow 0x2002 0x2003").expect("both handles are read");
    assert_eq!(input, UserInput::AllowHWND(vec![WindowHandle(0x2002), WindowHandle(0x2003)]));
    if let UserInput::AllowHWND(hwnds) = input {
        assert_eq!(driver.handle_stdin_shell_message(StdinShellMessage::AllowHWND(hwnds)), vec![]);
    }
    assert_eq!(driver.allowed(), &vec![WindowHandle(0x2002), WindowHandle(0x2003)]);

    let reply = driver.handle_stdin_shell_message(StdinShellMessage::ListRequested);
    assert_eq!(
        reply,
        vec![DriverAction::Shell(StdinShellCommand::Output {
            message: "Allowed HWNDs: 0x2002 0x2003".to_string()
        })]
    );
    if let DriverAction::Shell(StdinShellCommand::Output { message }) = &reply[0] {
        let first = message.find("0x2002").expect("the first handle is listed");
        let second = message.find("0x2003").expect("the second handle is listed");
        assert!(first < second);
    }
}
