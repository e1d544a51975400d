//! The display surface: shows the latest frame it is handed until it is told
//! to quit or can no longer render.

use crate::frame::{CapturedFrame, FrameView};
use crate::window::WindowHandle;
use vstd::prelude::*;

verus! {

/// What the supervisor may ask of the display.
#[derive(Clone, Debug, PartialEq, Eq)]
pub enum ImageViewerCommand {
    Update(CapturedFrame),
    Quit,
}

/// An [`ImageViewerCommand`] as mathematical values.
pub enum ImageViewerCommandView {
    Update(FrameView),
    Quit,
}

impl View for ImageViewerCommand {
    type V = ImageViewerCommandView;

    open spec fn view(&self) -> ImageViewerCommandView {
        match self {
            ImageViewerCommand::Update(frame) => ImageViewerCommandView::Update(frame@),
            ImageViewerCommand::Quit => ImageViewerCommandView::Quit,
        }
    }
}

/// What the display tells the supervisor.
#[derive(Clone, Copy, Debug, PartialEq, Eq, Structural)]
pub enum ImageViewerMessage {
    Closed,
}

/// The display's own bookkeeping: whether it is still serving commands, and
/// whose frame it shows.
pub struct ImageViewer {
    active_hwnd: Option<WindowHandle>,
    is_running: bool,
}

impl ImageViewer {
    /// The window whose frame was rendered last.
    pub closed spec fn shown(&self) -> Option<WindowHandle> {
        self.active_hwnd
    }

    /// Whether the display still serves commands.
    pub closed spec fn running(&self) -> bool {
        self.is_running
    }

    /// A display that has not been opened yet.
    pub fn new() -> (viewer: Self)
        ensures
            viewer.shown().is_none(),
            !viewer.running(),
    {
        ImageViewer { active_hwnd: None, is_running: false }
    }

    /// The surface exists: commands are served from now on.
    pub fn start(&mut self)
        ensures
            final(self).running(),
            final(self).shown() == old(self).shown(),
    {
        self.is_running = true;
    }

    /// Whether the display still serves commands.
    pub fn is_running(&self) -> (running: bool)
        ensures
            running == self.running(),
    {
        self.is_running
    }

    /// The window whose frame was rendered last.
    pub fn active_hwnd(&self) -> (hwnd: Option<WindowHandle>)
        ensures
            hwnd == self.shown(),
    {
        self.active_hwnd
    }

    /// Serves one command and returns the frame to render, if the command
    /// brings one. `Quit` ends the serving of commands.
    pub fn handle_command(&mut self, command: ImageViewerCommand) -> (render: Option<
        CapturedFrame,
    >)
        ensures
            match command {
                ImageViewerCommand::Update(frame) => {
                    &&& render == Some(frame)
                    &&& final(self).shown() == Some(frame.hwnd)
                    &&& final(self).running() == old(self).running()
                },
                ImageViewerCommand::Quit => {
                    &&& render.is_none()
                    &&& final(self).shown() == old(self).shown()
                    &&& !final(self).running()
                },
            },
    {
        match command {
            ImageViewerCommand::Update(frame) => {
                self.active_hwnd = Some(frame.hwnd);
                Some(frame)
            },
            ImageViewerCommand::Quit => {
                self.is_running = false;
                None
            },
        }
    }

    /// Rendering has become impossible: the display stops serving commands
    /// and reports its closure.
    pub fn render_failed(&mut self) -> (message: ImageViewerMessage)
        ensures
            message == ImageViewerMessage::Closed,
            !final(self).running(),
            final(self).shown() == old(self).shown(),
    {
        self.is_running = false;
        ImageViewerMessage::Closed
    }
}

} // verus!
