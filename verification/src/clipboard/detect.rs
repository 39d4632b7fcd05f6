//! The change detection both platform monitors share: what was reported
//! last, and whether a reading of the clipboard is new.

use vstd::prelude::*;
use super::{ClipboardContent, ClipboardImage};
use crate::storage::models::opt_chars;

verus! {

/// The `n` low bytes of `x`, least significant first.
pub open spec fn le_bytes(x: nat, n: nat) -> Seq<u8>
    decreases n,
{
    if n == 0 {
        Seq::empty()
    } else {
        seq![(x % 256) as u8] + le_bytes(x / 256, (n - 1) as nat)
    }
}

/// A light fingerprint of an image: width and height as little-endian `u64`,
/// then the first 64 bytes of the pixels.
pub open spec fn signature_spec(width: usize, height: usize, bytes: Seq<u8>) -> Seq<u8> {
    let take = if bytes.len() <= 64 { bytes.len() as int } else { 64 };
    le_bytes(width as nat, 8) + le_bytes(height as nat, 8) + bytes.take(take)
}

pub open spec fn image_signature_of(img: ClipboardImage) -> Seq<u8> {
    signature_spec(img.width, img.height, img.bytes@)
}

pub open spec fn opt_signature(image: Option<ClipboardImage>) -> Option<Seq<u8>> {
    match image {
        Some(img) => Some(image_signature_of(img)),
        None => None,
    }
}

fn push_le_u64(x: u64, out: &mut Vec<u8>)
    ensures
        final(out)@ == old(out)@ + le_bytes(x as nat, 8),
{
    let mut v: u64 = x;
    let ghost start = out@;
    for i in 0..8
        invariant
            out@ + le_bytes(v as nat, (8 - i) as nat) == start + le_bytes(x as nat, 8),
    {
        let ghost before = out@;
        out.push((v % 256) as u8);
        proof {
            assert(le_bytes(v as nat, (8 - i) as nat) == seq![(v % 256) as u8] + le_bytes(
                (v / 256) as nat,
                (8 - i - 1) as nat,
            ));
            assert(out@ + le_bytes((v / 256) as nat, (8 - i - 1) as nat) =~= before + le_bytes(
                v as nat,
                (8 - i) as nat,
            ));
        }
        v = v / 256;
    }
    assert(le_bytes(v as nat, 0) =~= Seq::<u8>::empty());
    assert(out@ =~= start + le_bytes(x as nat, 8));
}

/// The fingerprint by which a new image is told from the last one.
pub fn image_signature(img: &ClipboardImage) -> (res: Vec<u8>)
    ensures
        res@ == image_signature_of(*img),
{
    let take = if img.bytes.len() <= 64 { img.bytes.len() } else { 64 };
    let mut sig: Vec<u8> = Vec::new();
    push_le_u64(img.width as u64, &mut sig);
    push_le_u64(img.height as u64, &mut sig);
    let ghost head = sig@;
    for i in 0..take
        invariant
            take <= img.bytes@.len(),
            sig@ == head + img.bytes@.take(i as int),
    {
        sig.push(img.bytes[i]);
        assert(img.bytes@.take(i + 1) =~= img.bytes@.take(i as int).push(img.bytes@[i as int]));
        assert(sig@ =~= head + img.bytes@.take(i + 1));
    }
    assert(sig@ =~= image_signature_of(*img));
    sig
}

fn bytes_equal(a: &Vec<u8>, b: &Vec<u8>) -> (res: bool)
    ensures
        res == (a@ == b@),
{
    if a.len() != b.len() {
        return false;
    }
    let n = a.len();
    for i in 0..n
        invariant
            n == a@.len(),
            n == b@.len(),
            forall|j: int| 0 <= j < i ==> a@[j] == b@[j],
    {
        if a[i] != b[i] {
            return false;
        }
    }
    assert(a@ =~= b@);
    true
}

/// The state of a monitor.
pub struct MonitorState {
    pub running: bool,
    pub paused: bool,
    /// The text last reported (or found when polling started); emptied when
    /// an image is reported.
    pub last_text: Seq<char>,
    /// The fingerprint of the image last reported; emptied when a text is
    /// reported.
    pub last_image: Seq<u8>,
}

/// What a reading leads to.
pub enum Reaction {
    Nothing,
    ReportImage,
    ReportText,
}

impl MonitorState {
    /// A stopped, unpaused monitor that has reported nothing.
    pub open spec fn initial() -> MonitorState {
        MonitorState { running: false, paused: false, last_text: Seq::empty(), last_image: Seq::empty() }
    }

    /// A reading is reported when the monitor is not paused and either the
    /// image's fingerprint differs from the last one, or (failing that) the
    /// text is non-empty and differs from the last text.
    pub open spec fn reaction(self, image_sig: Option<Seq<u8>>, text: Option<Seq<char>>) -> Reaction {
        if self.paused {
            Reaction::Nothing
        } else if image_sig matches Some(sig) && sig != self.last_image {
            Reaction::ReportImage
        } else if text matches Some(t) && t.len() > 0 && t != self.last_text {
            Reaction::ReportText
        } else {
            Reaction::Nothing
        }
    }

    /// The state after a reading: a reported image becomes the last image
    /// and forgets the last text; a reported text becomes the last text and
    /// forgets the last image.
    pub open spec fn after(self, image_sig: Option<Seq<u8>>, text: Option<Seq<char>>) -> MonitorState {
        match self.reaction(image_sig, text) {
            Reaction::ReportImage => MonitorState {
                last_image: image_sig->Some_0,
                last_text: Seq::empty(),
                ..self
            },
            Reaction::ReportText => MonitorState {
                last_text: text->Some_0,
                last_image: Seq::empty(),
                ..self
            },
            Reaction::Nothing => self,
        }
    }

    /// The state when polling starts: the text found then counts as
    /// reported, and no image has been reported yet.
    pub open spec fn primed(self, current_text: Option<Seq<char>>) -> MonitorState {
        MonitorState {
            last_text: match current_text {
                Some(t) => t,
                None => Seq::empty(),
            },
            last_image: Seq::empty(),
            ..self
        }
    }

    /// What `poll` answers for a reading.
    pub open spec fn report(
        self,
        image: Option<ClipboardImage>,
        text: Option<String>,
        res: Option<ClipboardContent>,
    ) -> bool {
        match self.reaction(opt_signature(image), opt_chars(text)) {
            Reaction::ReportImage => res == Some(ClipboardContent::Image(image->Some_0)),
            Reaction::ReportText => res == Some(ClipboardContent::Text(text->Some_0)),
            Reaction::Nothing => res is None,
        }
    }
}

/// The change detector of a monitor.
pub struct ChangeDetector {
    running: bool,
    paused: bool,
    last_text: String,
    last_image: Vec<u8>,
}

impl View for ChangeDetector {
    type V = MonitorState;

    closed spec fn view(&self) -> MonitorState {
        MonitorState {
            running: self.running,
            paused: self.paused,
            last_text: self.last_text@,
            last_image: self.last_image@,
        }
    }
}

impl ChangeDetector {
    pub fn new() -> (res: Self)
        ensures
            res@ == MonitorState::initial(),
    {
        let res = ChangeDetector {
            running: false,
            paused: false,
            last_text: String::new(),
            last_image: Vec::new(),
        };
        assert(res@.last_image =~= Seq::<u8>::empty());
        res
    }

    pub fn start(&mut self)
        ensures
            final(self)@ == (MonitorState { running: true, ..old(self)@ }),
    {
        self.running = true;
    }

    pub fn is_running(&self) -> (res: bool)
        ensures
            res == self@.running,
    {
        self.running
    }

    pub fn is_paused(&self) -> (res: bool)
        ensures
            res == self@.paused,
    {
        self.paused
    }

    pub fn set_paused(&mut self, paused: bool)
        ensures
            final(self)@ == (MonitorState { paused: paused, ..old(self)@ }),
    {
        self.paused = paused;
    }

    pub fn prime(&mut self, current_text: Option<String>)
        ensures
            final(self)@ == old(self)@.primed(opt_chars(current_text)),
    {
        self.last_text = match current_text {
            Some(t) => t,
            None => String::new(),
        };
        self.last_image = Vec::new();
        assert(self@.last_image =~= Seq::<u8>::empty());
    }

    /// Judges one reading, as `MonitorState::reaction` says.
    pub fn observe(&mut self, image: Option<ClipboardImage>, text: Option<String>) -> (res: Option<
        ClipboardContent,
    >)
        ensures
            final(self)@ == old(self)@.after(opt_signature(image), opt_chars(text)),
            old(self)@.report(image, text, res),
    {
        if self.paused {
            return None;
        }
        if let Some(img) = image {
            let sig = image_signature(&img);
            if !bytes_equal(&sig, &self.last_image) {
                self.last_image = sig;
                self.last_text = String::new();
                return Some(ClipboardContent::Image(img));
            }
        }
        if let Some(t) = text {
            if !t.as_str().is_empty() && !(t == self.last_text) {
                self.last_text = t.clone();
                self.last_image = Vec::new();
                assert(self@.last_image =~= Seq::<u8>::empty());
                return Some(ClipboardContent::Text(t));
            }
        }
        None
    }
}

} // verus!
