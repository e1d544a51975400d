//! Orchestration core of a tool that shows the window in focus on a second
//! surface.
//!
//! A focus tracker reports which window is in front, one capture worker per
//! window turns raw frames into packed ones, a supervisor starts and lets go
//! of the workers and picks the frames that reach the display, and a console
//! takes the operator's commands. Each of them is a state machine here: it
//! is handed what happened and answers with what is to be done. Threads,
//! queues, the window system and the screen belong to the program that runs
//! the machines.
//!
//! - [`window`]: the identity of a window.
//! - [`frame`]: captured frames and the removal of row padding.
//! - [`window_capture`]: the capture worker.
//! - [`foreground_watcher`]: the focus tracker.
//! - [`image_viewer`]: the display.
//! - [`stdin_shell`]: the console.
//! - [`text`]: handles as text.
//! - [`driver`]: the supervisor.
//! - [`laws`]: what holds of the supervisor over whole runs of events.

pub mod driver;
pub mod foreground_watcher;
pub mod frame;
pub mod image_viewer;
pub mod laws;
pub mod stdin_shell;
pub mod text;
pub mod window;
pub mod window_capture;
