//! The Windows monitor.

use vstd::prelude::*;
use super::{ClipboardContent, ClipboardImage, ClipboardMonitor};
use super::detect::{ChangeDetector, MonitorState};

verus! {

/// The Windows clipboard monitor: polled every second by its caller.
pub struct WindowsClipboardMonitor {
    detector: ChangeDetector,
}

impl View for WindowsClipboardMonitor {
    type V = MonitorState;

    closed spec fn view(&self) -> MonitorState {
        self.detector@
    }
}

impl WindowsClipboardMonitor {
    /// A stopped, unpaused monitor that has reported nothing.
    pub fn new() -> (res: Self)
        ensures
            res@ == MonitorState::initial(),
    {
        WindowsClipboardMonitor { detector: ChangeDetector::new() }
    }
}

impl ClipboardMonitor for WindowsClipboardMonitor {
    open spec fn state(&self) -> MonitorState {
        self@
    }

    fn start(&mut self) -> (res: Result<(), String>) {
        self.detector.start();
        Ok(())
    }

    fn is_running(&self) -> (res: bool) {
        self.detector.is_running()
    }

    fn is_paused(&self) -> (res: bool) {
        self.detector.is_paused()
    }

    fn set_paused(&mut self, paused: bool) {
        self.detector.set_paused(paused);
    }

    fn prime(&mut self, current_text: Option<String>) {
        self.detector.prime(current_text);
    }

    fn poll(&mut self, image: Option<ClipboardImage>, text: Option<String>) -> (res: Option<
        ClipboardContent,
    >) {
        self.detector.observe(image, text)
    }
}

} // verus!
