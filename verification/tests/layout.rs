use whackamux::app::{App, HostResult};
use whackamux::config::Config;
use whackamux::layout::{
    compute_columns, compute_rows, ends_row, pane_badge, pane_count_label, visible_lines,
};
use whackamux::pane::{PaneGeometry, PaneInfo, PaneStatus, WindowInfo};

fn pane(status: PaneStatus, content: &[&str]) -> PaneInfo {
    PaneInfo {
        id: "%1".to_string(),
        index: 0,
        geometry: PaneGeometry { left: 0, top: 0, width: 80, height: 24 },
        status,
        content: content.iter().map(|s| s.to_string()).collect(),
    }
}

fn window(panes: Vec<PaneInfo>) -> WindowInfo {
    WindowInfo {
        id: "@1".to_string(),
        host: "localhost".to_string(),
        session: "s".to_string(),
        window_index: 0,
        window_name: "w".to_string(),
        width: 80,
        height: 24,
        panes,
    }
}

fn dashboard(windows: Vec<WindowInfo>) -> App<u8> {
    let found = HostResult { host: "localhost".to_string(), result: Ok(windows) };
    App::new(Config::localhost(), vec![found], 0)
}

#[test]
fn columns_follow_the_number_of_tiles() {
    for (count, estimate, cols) in [
        (0, 9, 1), (1, 9, 1), (2, 9, 2), (4, 0, 2), (5, 9, 3), (9, 1, 3),
        (10, 0, 2), (10, 1, 2), (10, 4, 4), (10, 10, 10), (10, 11, 10), (100, usize::MAX, 100),
    ] {
        assert_eq!(compute_columns(count, estimate), cols);
    }
}

#[test]
fn the_grid_holds_all_tiles() {
    for count in 0..200usize {
        for estimate in [0usize, 3, 7, 50, 1000] {
            let cols = compute_columns(count, estimate);
            let rows = compute_rows(count, cols);
            assert_eq!(rows, (count + cols - 1) / cols);
            assert!(rows * cols >= count);
            if count > 0 {
                assert!((rows - 1) * cols < count);
                assert_eq!((0..count).filter(|i| ends_row(*i, cols)).count(), count / cols);
            }
        }
    }
    assert_eq!(compute_rows(usize::MAX, 2), usize::MAX / 2 + 1);
    assert!(ends_row(2, 3));
    assert!(!ends_row(3, 3));
}

#[test]
fn badges() {
    assert_eq!(pane_badge(PaneStatus::NeedsAttention, true), Some("INPUT"));
    assert_eq!(pane_badge(PaneStatus::NeedsAttention, false), Some("WAITING"));
    assert_eq!(pane_badge(PaneStatus::Active, false), None);
    assert_eq!(pane_badge(PaneStatus::Idle, true), Some("INPUT"));
}

#[test]
fn several_panes_are_counted() {
    let idle = || pane(PaneStatus::Idle, &[]);
    assert_eq!(pane_count_label(&window(vec![])), None);
    assert_eq!(pane_count_label(&window(vec![idle()])), None);
    assert_eq!(pane_count_label(&window(vec![idle(), idle()])), Some("2 panes".to_string()));
}

#[test]
fn the_last_lines_are_shown() {
    let p = pane(PaneStatus::Idle, &["one", "", "\x1b[1mthree\x1b[0m", "ñññ"]);
    assert_eq!(visible_lines(&p, 10, 10), vec!["one", " ", "three", "ñññ"]);
    assert_eq!(visible_lines(&p, 2, 2), vec!["th", "ññ"]);
    assert_eq!(visible_lines(&p, 3, 3), vec![" ", "thr", "ñññ"]);
    assert_eq!(visible_lines(&p, 2, 0), vec!["", ""]);
    assert!(visible_lines(&p, 0, 10).is_empty());
    assert!(visible_lines(&pane(PaneStatus::Idle, &[]), 3, 3).is_empty());
}

#[test]
fn toolbar_labels() {
    let waiting = window(vec![
        pane(PaneStatus::NeedsAttention, &[]),
        pane(PaneStatus::Idle, &[]),
    ]);
    let mut app = dashboard(vec![waiting, window(vec![pane(PaneStatus::Idle, &[])])]);
    assert_eq!(app.attention_label(), Some("1 needs attention".to_string()));
    assert_eq!(app.totals_label(), "2 windows / 3 panes");
    assert_eq!(app.showing_label(), "Showing: all");
    app.toggle_attention();
    assert_eq!(app.showing_label(), "Showing: attention only");
    assert_eq!(app.hidden_label(), None);
    app.hide_window("localhost\t@1".to_string());
    assert_eq!(app.hidden_label(), Some("1 hidden".to_string()));
    assert_eq!(app.host_label("localhost"), "localhost");
    app.connection_failed("localhost".to_string(), "x".to_string());
    assert_eq!(app.host_label("localhost"), "localhost !");
    assert_eq!(app.input_label(), None);
    app.click_pane("localhost\t%1");
    assert_eq!(app.input_label(), Some("INPUT: localhost:%1".to_string()));
    app.click_pane("no tab");
    assert_eq!(app.input_label(), None);
    assert_eq!(dashboard(vec![]).attention_label(), None);
}
