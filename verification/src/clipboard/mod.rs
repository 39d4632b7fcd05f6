//! Clipboard change detection.
//!
//! A monitor keeps what it last reported and decides, for each reading of the
//! system clipboard, whether the reading is a new value to record. Reading
//! the clipboard, waiting between readings and recording the value are the
//! caller's part.

pub mod detect;
pub mod macos;
pub mod windows;

use vstd::prelude::*;
use self::detect::{MonitorState, opt_signature};
use crate::storage::models::opt_chars;
use self::macos::MacOSClipboardMonitor;
use self::windows::WindowsClipboardMonitor;

verus! {

/// An owned RGBA image read from the clipboard.
#[derive(Debug, Clone)]
pub struct ClipboardImage {
    pub width: usize,
    pub height: usize,
    pub bytes: Vec<u8>,
}

/// A value read from the clipboard.
#[derive(Debug, Clone)]
pub enum ClipboardContent {
    Text(String),
    RichText { plain: String, html: String },
    Image(ClipboardImage),
    FilePath(String),
}

/// A platform's clipboard monitor.
pub trait ClipboardMonitor: Sized {
    /// What the monitor is and has last reported.
    spec fn state(&self) -> MonitorState;

    /// Marks the monitor as running; the caller then polls it.
    fn start(&mut self) -> (res: Result<(), String>)
        ensures
            res is Ok,
            final(self).state() == (MonitorState { running: true, ..old(self).state() }),
    ;

    /// Whether the monitor has been started.
    fn is_running(&self) -> (res: bool)
        ensures
            res == self.state().running,
    ;

    /// Whether readings are currently ignored.
    fn is_paused(&self) -> (res: bool)
        ensures
            res == self.state().paused,
    ;

    /// Pauses or resumes the monitor; what it last reported is kept.
    fn set_paused(&mut self, paused: bool)
        ensures
            final(self).state() == (MonitorState { paused: paused, ..old(self).state() }),
    ;

    /// Takes the clipboard's text at the moment polling starts.
    fn prime(&mut self, current_text: Option<String>)
        ensures
            final(self).state() == old(self).state().primed(opt_chars(current_text)),
    ;

    /// Judges one reading of the clipboard (its image and its text, where
    /// they could be read) and answers the value to record, if any.
    fn poll(&mut self, image: Option<ClipboardImage>, text: Option<String>) -> (res: Option<
        ClipboardContent,
    >)
        ensures
            final(self).state() == old(self).state().after(opt_signature(image), opt_chars(text)),
            old(self).state().report(image, text, res),
    ;

    /// Flips the pause; answers whether the monitor was paused before, that
    /// is, whether it is active now.
    fn toggle_paused(&mut self) -> (was_paused: bool)
        ensures
            was_paused == old(self).state().paused,
            final(self).state() == (MonitorState { paused: !was_paused, ..old(self).state() }),
    {
        let was = self.is_paused();
        self.set_paused(!was);
        was
    }
}

/// The platforms that have a monitor.
#[derive(Debug, Clone, Copy, PartialEq, Eq)]
pub enum Platform {
    MacOS,
    Windows,
}

/// The monitor of one platform.
pub enum PlatformMonitor {
    MacOS(MacOSClipboardMonitor),
    Windows(WindowsClipboardMonitor),
}

impl ClipboardMonitor for PlatformMonitor {
    open spec fn state(&self) -> MonitorState {
        match self {
            PlatformMonitor::MacOS(m) => m.state(),
            PlatformMonitor::Windows(m) => m.state(),
        }
    }

    fn start(&mut self) -> (res: Result<(), String>) {
        match self {
            PlatformMonitor::MacOS(m) => m.start(),
            PlatformMonitor::Windows(m) => m.start(),
        }
    }

    fn is_running(&self) -> (res: bool) {
        match self {
            PlatformMonitor::MacOS(m) => m.is_running(),
            PlatformMonitor::Windows(m) => m.is_running(),
        }
    }

    fn is_paused(&self) -> (res: bool) {
        match self {
            PlatformMonitor::MacOS(m) => m.is_paused(),
            PlatformMonitor::Windows(m) => m.is_paused(),
        }
    }

    fn set_paused(&mut self, paused: bool) {
        match self {
            PlatformMonitor::MacOS(m) => m.set_paused(paused),
            PlatformMonitor::Windows(m) => m.set_paused(paused),
        }
    }

    fn prime(&mut self, current_text: Option<String>) {
        match self {
            PlatformMonitor::MacOS(m) => m.prime(current_text),
            PlatformMonitor::Windows(m) => m.prime(current_text),
        }
    }

    fn poll(&mut self, image: Option<ClipboardImage>, text: Option<String>) -> (res: Option<
        ClipboardContent,
    >) {
        match self {
            PlatformMonitor::MacOS(m) => m.poll(image, text),
            PlatformMonitor::Windows(m) => m.poll(image, text),
        }
    }
}

/// A new, stopped and unpaused monitor for `platform`.
pub fn create_monitor(platform: Platform) -> (res: PlatformMonitor)
    ensures
        res.state() == MonitorState::initial(),
        platform == Platform::MacOS ==> res is MacOS,
        platform == Platform::Windows ==> res is Windows,
{
    match platform {
        Platform::MacOS => PlatformMonitor::MacOS(MacOSClipboardMonitor::new()),
        Platform::Windows => PlatformMonitor::Windows(WindowsClipboardMonitor::new()),
    }
}

} // verus!
