use focus_capture::foreground_watcher::{
    ForegroundWatcher, ForegroundWatcherCommand, ForegroundWatcherMessage, POLL_INTERVAL_MILLIS,
};
use focus_capture::frame::{aligned_stride, CapturedFrame};
use focus_capture::image_viewer::{ImageViewer, ImageViewerCommand, ImageViewerMessage};
use focus_capture::window::WindowHandle;
use focus_capture::window_capture::{
    Handler, WindowCapture, WindowCaptureArgs, WindowCaptureMessage, CAPTURE_FPS,
    FRAME_QUEUE_CAPACITY,
};

fn changed(raw: isize) -> Option<ForegroundWatcherMessage> {
    Some(ForegroundWatcherMessage::WindowChanged { hwnd: WindowHandle(raw) })
}

#[test]
fn tracker_reports_changes_only() {
    let mut watcher = ForegroundWatcher::new();
    assert_eq!(watcher.observe(WindowHandle(1)), changed(1));
    assert_eq!(watcher.observe(WindowHandle(1)), None);
    assert_eq!(watcher.observe(WindowHandle(1)), None);
    assert_eq!(watcher.observe(WindowHandle(2)), changed(2));
    assert_eq!(watcher.observe(WindowHandle(1)), changed(1));
    assert_eq!(watcher.observe(WindowHandle(0)), changed(0));
    assert_eq!(watcher.observe(WindowHandle(0)), None);
}

#[test]
fn tracker_reports_the_null_window_the_first_time() {
    let mut watcher = ForegroundWatcher::new();
    assert_eq!(watcher.observe(WindowHandle(0)), changed(0));
}

#[test]
fn tracker_stops_on_quit() {
    let watcher = ForegroundWatcher::new();
    assert!(!watcher.handle_command(ForegroundWatcherCommand::Quit));
    assert_eq!(POLL_INTERVAL_MILLIS, 100);
}

#[test]
fn display_serves_updates_until_quit() {
    let mut viewer = ImageViewer::new();
    assert!(!viewer.is_running());
    assert_eq!(viewer.active_hwnd(), None);
    viewer.start();
    assert!(viewer.is_running());
    let frame = CapturedFrame { hwnd: WindowHandle(4), width: 1, height: 1, bytes: vec![1, 2, 3, 4] };
    assert_eq!(viewer.handle_command(ImageViewerCommand::Update(frame.clone())), Some(frame));
    assert_eq!(viewer.active_hwnd(), Some(WindowHandle(4)));
    assert!(viewer.is_running());
    assert_eq!(viewer.handle_command(ImageViewerCommand::Quit), None);
    assert!(!viewer.is_running());
    assert_eq!(viewer.active_hwnd(), Some(WindowHandle(4)));
}

#[test]
fn display_reports_closure_when_rendering_fails() {
    let mut viewer = ImageViewer::new();
    viewer.start();
    assert_eq!(viewer.render_failed(), ImageViewerMessage::Closed);
    assert!(!viewer.is_running());
}

#[test]
fn worker_is_started_at_thirty_frames_per_second() {
    let capture = WindowCapture::new(WindowHandle(0x77));
    assert_eq!(capture.hwnd(), WindowHandle(0x77));
    assert_eq!(Some(capture.args()), WindowCaptureArgs::new(WindowHandle(0x77), 30));
    assert_eq!(CAPTURE_FPS, 30);
    assert_eq!(FRAME_QUEUE_CAPACITY, 5);
    assert_eq!(WindowCaptureArgs::new(WindowHandle(1), 0), None);
}

#[test]
fn worker_reports_a_failed_start_as_closed() {
    let capture = WindowCapture::new(WindowHandle(9));
    assert_eq!(capture.finish(false), Some(WindowCaptureMessage::Closed { hwnd: WindowHandle(9) }));
    assert_eq!(capture.finish(true), None);
}

#[test]
fn worker_reports_the_end_of_its_session() {
    let handler = Handler::new(WindowCapture::new(WindowHandle(9)).args(), 0);
    assert_eq!(handler.on_closed(), WindowCaptureMessage::Closed { hwnd: WindowHandle(9) });
}

#[test]
fn frames_before_the_deadline_are_discarded() {
    let raw = vec![5u8; 32 * 4];
    let mut handler = Handler::new(WindowCapture::new(WindowHandle(3)).args(), 1_000);
    assert!(!handler.is_due(999));
    assert!(handler.is_due(1_000));
    assert_eq!(handler.on_frame_arrived(999, 1, 1, 32, &raw), None);
    // The discarded frame did not move the deadline.
    assert!(handler.is_due(1_000));
    let first = handler.on_frame_arrived(1_000, 1, 1, 32, &raw);
    assert_eq!(
        first,
        Some(CapturedFrame { hwnd: WindowHandle(3), width: 1, height: 1, bytes: vec![5; 4] })
    );
    // Thirty frames per second: the next one is due 33 milliseconds later.
    assert!(!handler.is_due(1_032));
    assert!(handler.is_due(1_033));
    assert_eq!(handler.on_frame_arrived(1_032, 1, 1, 32, &raw), None);
    assert!(handler.on_frame_arrived(1_033, 1, 1, 32, &raw).is_some());
    assert!(!handler.is_due(1_065));
    assert!(handler.is_due(1_066));
}

#[test]
fn deadline_after_a_late_frame_is_one_period_past_the_old_one() {
    let mut handler = Handler::new(WindowCaptureArgs::new(WindowHandle(1), 10).unwrap(), 0);
    // The frame comes 250 ms after it was due: the deadline moves by one period only.
    handler.compute_next_update(250);
    assert!(handler.is_due(100));
    assert!(!handler.is_due(99));
    // The next frame comes 20 ms after it was due: the period is counted from its arrival.
    handler.compute_next_update(120);
    assert!(!handler.is_due(219));
    assert!(handler.is_due(220));
}

#[test]
fn deadline_stops_at_the_end_of_time() {
    let mut handler = Handler::new(WindowCaptureArgs::new(WindowHandle(1), 1).unwrap(), u64::MAX - 10);
    handler.compute_next_update(u64::MAX - 5);
    assert!(!handler.is_due(u64::MAX - 1));
    assert!(handler.is_due(u64::MAX));
}

#[test]
fn rates_above_a_thousand_do_not_throttle() {
    let mut handler = Handler::new(WindowCaptureArgs::new(WindowHandle(1), 5_000).unwrap(), 50);
    handler.compute_next_update(50);
    assert!(handler.is_due(50));
}

#[test]
fn worker_packs_with_the_stride_it_is_given() {
    let mut raw = vec![0xEEu8; aligned_stride(3) as usize * 2 * 4];
    for row in 0..2usize {
        for byte in 0..12usize {
            raw[row * 32 * 4 + byte] = (row * 12 + byte) as u8;
        }
    }
    let mut handler = Handler::new(WindowCapture::new(WindowHandle(8)).args(), 0);
    let frame = handler.on_frame_arrived(0, 3, 2, aligned_stride(3), &raw).unwrap();
    assert_eq!(frame.bytes, (0..24u8).collect::<Vec<u8>>());
}
