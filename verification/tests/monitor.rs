use clipboard_manager::clipboard::detect::image_signature;
use clipboard_manager::clipboard::macos::MacOSClipboardMonitor;
use clipboard_manager::clipboard::windows::WindowsClipboardMonitor;
use clipboard_manager::clipboard::{
    create_monitor, ClipboardContent, ClipboardImage, ClipboardMonitor, Platform, PlatformMonitor,
};

fn image(w: usize, h: usize, fill: u8) -> ClipboardImage {
    ClipboardImage { width: w, height: h, bytes: vec![fill; w * h * 4] }
}

fn text_of(c: Option<ClipboardContent>) -> Option<String> {
    match c {
        Some(ClipboardContent::Text(t)) => Some(t),
        _ => None,
    }
}

fn is_image(c: &Option<ClipboardContent>) -> bool {
    matches!(c, Some(ClipboardContent::Image(_)))
}

#[test]
fn signature_is_dims_and_prefix() {
    let img = ClipboardImage { width: 258, height: 1, bytes: (0..100u8).collect() };
    let sig = image_signature(&img);
    assert_eq!(sig.len(), 16 + 64);
    assert_eq!(&sig[..8], &258u64.to_le_bytes());
    assert_eq!(&sig[8..16], &1u64.to_le_bytes());
    assert_eq!(&sig[16..], &img.bytes[..64]);
    let small = ClipboardImage { width: 1, height: 1, bytes: vec![7, 8] };
    assert_eq!(image_signature(&small).len(), 18);
}

#[test]
fn mac_reports_new_text_once() {
    let mut m = MacOSClipboardMonitor::new();
    m.start().unwrap();
    assert!(m.is_running());
    m.prime(Some("already there".into()));
    assert!(m.poll(None, Some("already there".into())).is_none());
    assert_eq!(text_of(m.poll(None, Some("fresh".into()))), Some("fresh".into()));
    assert!(m.poll(None, Some("fresh".into())).is_none());
    // empty text is never reported
    assert!(m.poll(None, Some(String::new())).is_none());
}

#[test]
fn mac_prefers_new_images() {
    let mut m = MacOSClipboardMonitor::new();
    let first = m.poll(Some(image(2, 2, 1)), Some("t".into()));
    assert!(matches!(first, Some(ClipboardContent::Image(ref i)) if i.width == 2));
    // the same image again: the text is judged instead
    assert_eq!(text_of(m.poll(Some(image(2, 2, 1)), Some("t".into()))), Some("t".into()));
    assert!(m.poll(None, Some("t".into())).is_none());
    assert!(is_image(&m.poll(Some(image(3, 2, 1)), None)));
}

#[test]
fn other_kind_resets_memory() {
    // text "a", then an image, then "a" again: all three are reported
    let mut m = MacOSClipboardMonitor::new();
    m.prime(None);
    assert_eq!(text_of(m.poll(None, Some("a".into()))), Some("a".into()));
    assert!(is_image(&m.poll(Some(image(1, 1, 0)), None)));
    assert_eq!(text_of(m.poll(None, Some("a".into()))), Some("a".into()));
    // and the same image after a text is reported again
    assert!(is_image(&m.poll(Some(image(1, 1, 0)), None)));
}

#[test]
fn paused_monitor_reports_nothing() {
    let mut m = MacOSClipboardMonitor::new();
    m.set_paused(true);
    assert!(m.poll(Some(image(1, 1, 0)), Some("x".into())).is_none());
    // toggling answers whether the monitor was paused
    assert!(m.toggle_paused());
    assert_eq!(text_of(m.poll(None, Some("x".into()))), Some("x".into()));
    assert!(!m.toggle_paused());
    assert!(m.is_paused());
}

#[test]
fn pause_and_resume_keep_memory() {
    let mut m = MacOSClipboardMonitor::new();
    assert_eq!(text_of(m.poll(None, Some("x".into()))), Some("x".into()));
    m.set_paused(true);
    m.set_paused(false);
    assert!(m.poll(None, Some("x".into())).is_none());
    assert_eq!(text_of(m.poll(None, Some("y".into()))), Some("y".into()));
}

#[test]
fn windows_reads_images_first() {
    let mut w = WindowsClipboardMonitor::new();
    w.start().unwrap();
    w.prime(Some("already there".into()));
    assert!(w.poll(None, Some("already there".into())).is_none());
    assert!(is_image(&w.poll(Some(image(2, 1, 9)), None)));
    assert!(w.poll(Some(image(2, 1, 9)), None).is_none());
    assert_eq!(text_of(w.poll(Some(image(2, 1, 9)), Some("a".into()))), Some("a".into()));
    assert!(w.poll(None, Some(String::new())).is_none());
}

#[test]
fn create_monitor_per_platform() {
    let m = create_monitor(Platform::MacOS);
    assert!(matches!(m, PlatformMonitor::MacOS(_)));
    assert!(!m.is_running() && !m.is_paused());
    let mut w = create_monitor(Platform::Windows);
    assert!(matches!(w, PlatformMonitor::Windows(_)));
    w.start().unwrap();
    assert!(w.is_running());
}
