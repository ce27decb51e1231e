use whackamux::pane::{strip_ansi, PaneGeometry, PaneInfo, PaneStatus, Rgba, WindowInfo};

fn pane(status: PaneStatus, content: &[&str]) -> PaneInfo {
    PaneInfo {
        id: "%1".to_string(),
        index: 0,
        geometry: PaneGeometry { left: 0, top: 0, width: 80, height: 24 },
        status,
        content: content.iter().map(|s| s.to_string()).collect(),
    }
}

fn window(statuses: &[PaneStatus]) -> WindowInfo {
    WindowInfo {
        id: "@1".to_string(),
        host: "box".to_string(),
        session: "main".to_string(),
        window_index: 1,
        window_name: "vim".to_string(),
        width: 200,
        height: 50,
        panes: statuses.iter().map(|s| pane(*s, &[])).collect(),
    }
}

#[test]
fn borders_are_opaque_and_show_the_status() {
    assert_eq!(PaneStatus::NeedsAttention.border_color(), Rgba { r: 220, g: 50, b: 50, a: 255 });
    assert_eq!(PaneStatus::Active.border_color(), Rgba { r: 50, g: 180, b: 50, a: 255 });
    assert_eq!(PaneStatus::Idle.border_color(), Rgba { r: 100, g: 100, b: 100, a: 255 });
    assert_eq!(PaneStatus::Disconnected.border_color(), Rgba { r: 180, g: 100, b: 30, a: 255 });
    let c = egui::Color32::from_rgb(180, 100, 30);
    let b = PaneStatus::Disconnected.border_color();
    assert_eq!([b.r, b.g, b.b, b.a], c.to_array());
}

#[test]
fn labels() {
    assert_eq!(PaneStatus::NeedsAttention.label(), "WAITING");
    assert_eq!(PaneStatus::Active.label(), "ACTIVE");
    assert_eq!(PaneStatus::Idle.label(), "IDLE");
    assert_eq!(PaneStatus::Disconnected.label(), "DISCONNECTED");
    assert_eq!(window(&[]).display_label(), "box | main:vim");
}

#[test]
fn escape_sequences_are_stripped() {
    assert_eq!(strip_ansi("plain"), "plain");
    assert_eq!(strip_ansi("\x1b[31mred\x1b[0m"), "red");
    assert_eq!(strip_ansi("a\x1b[1;32;40mb\x1b[Kc"), "abc");
    assert_eq!(strip_ansi("a\x1bMb"), "ab");
    assert_eq!(strip_ansi("a\x1b]0;title\x07b"), "a0;title\x07b");
    assert_eq!(strip_ansi("a\x1b"), "a");
    assert_eq!(strip_ansi("a\x1b[12"), "a");
    assert_eq!(strip_ansi("a\x1b[@b"), "ab");
    assert_eq!(strip_ansi("a\x1b[~b"), "ab");
    assert_eq!(strip_ansi("a\x1b\x1b[1mb"), "a[1mb");
    assert_eq!(strip_ansi("ñ\x1b[3m→"), "ñ→");
}

#[test]
fn stripping_twice_changes_nothing() {
    for s in ["", "x", "\x1b[31mred\x1b[0m", "a\x1b\x1b[1mb", "\x1b[", "[1m"] {
        let once = strip_ansi(s);
        assert!(!once.contains('\x1b'));
        assert_eq!(strip_ansi(&once), once);
    }
}

#[test]
fn plain_content_strips_every_line() {
    let p = pane(PaneStatus::Idle, &["\x1b[1m$\x1b[0m ls", "", "x"]);
    assert_eq!(p.plain_content(), vec!["$ ls".to_string(), String::new(), "x".to_string()]);
}

#[test]
fn the_worst_status_wins() {
    assert_eq!(*window(&[]).worst_status(), PaneStatus::Idle);
    assert_eq!(*window(&[PaneStatus::Idle, PaneStatus::Idle]).worst_status(), PaneStatus::Idle);
    assert_eq!(*window(&[PaneStatus::Idle, PaneStatus::Disconnected]).worst_status(), PaneStatus::Disconnected);
    assert_eq!(*window(&[PaneStatus::Disconnected, PaneStatus::Active, PaneStatus::Idle]).worst_status(), PaneStatus::Active);
    assert_eq!(*window(&[PaneStatus::Active, PaneStatus::Disconnected, PaneStatus::NeedsAttention]).worst_status(), PaneStatus::NeedsAttention);
}

#[test]
fn attention_is_counted() {
    assert_eq!(window(&[]).attention_count(), 0);
    assert_eq!(window(&[PaneStatus::Active, PaneStatus::Idle]).attention_count(), 0);
    assert_eq!(window(&[PaneStatus::NeedsAttention, PaneStatus::Idle, PaneStatus::NeedsAttention]).attention_count(), 2);
}
