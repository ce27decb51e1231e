use whackamux::app::{
    collect_results, initial_hosts, make_pane_key, parse_ssh_spec, split_pane_key, App, HostResult,
    PollEvent,
};
use whackamux::config::{Config, HostConfig};
use whackamux::keys::{InputEvent, Key, Modifiers};
use whackamux::pane::{PaneGeometry, PaneInfo, PaneStatus, WindowInfo};
use whackamux::tmux::TmuxRunner;

const SECOND: u64 = 1_000_000_000;

fn host(name: &str, ssh: Option<&str>, local: bool) -> HostConfig {
    HostConfig {
        name: name.to_string(),
        ssh: ssh.map(|s| s.to_string()),
        port: 2200,
        local,
        key: None,
    }
}

fn config(hosts: Vec<HostConfig>) -> Config {
    Config { hosts, ..Config::localhost() }
}

fn window(host: &str, id: &str, statuses: &[PaneStatus]) -> WindowInfo {
    WindowInfo {
        id: id.to_string(),
        host: host.to_string(),
        session: "s".to_string(),
        window_index: 0,
        window_name: "w".to_string(),
        width: 80,
        height: 24,
        panes: statuses
            .iter()
            .map(|s| PaneInfo {
                id: "%1".to_string(),
                index: 0,
                geometry: PaneGeometry { left: 0, top: 0, width: 80, height: 24 },
                status: *s,
                content: Vec::new(),
            })
            .collect(),
    }
}

fn found(host: &str, windows: Vec<WindowInfo>) -> HostResult {
    HostResult { host: host.to_string(), result: Ok(windows) }
}

fn failed(host: &str, message: &str) -> HostResult {
    HostResult { host: host.to_string(), result: Err(message.to_string()) }
}

fn three_windows() -> App<u8> {
    App::new(
        config(vec![host("zeta", None, true), host("alpha", Some("bob@a"), false)]),
        vec![
            found("zeta", vec![window("zeta", "@1", &[PaneStatus::Idle]), window("zeta", "@2", &[PaneStatus::Idle, PaneStatus::NeedsAttention])]),
            failed("other", "no"),
            found("mid", vec![window("mid", "@1", &[PaneStatus::NeedsAttention])]),
        ],
        0,
    )
}

#[test]
fn pane_keys() {
    assert_eq!(make_pane_key("box", "%1"), "box\t%1");
    assert_eq!(split_pane_key("box\t%1"), Some(("box", "%1")));
    assert_eq!(split_pane_key("box"), None);
    assert_eq!(split_pane_key("a\tb\tc"), Some(("a", "b\tc")));
    let key = make_pane_key("höst", "%9");
    assert_eq!(split_pane_key(&key), Some(("höst", "%9")));
}

#[test]
fn ssh_specifications() {
    let pair = |a: &str, b: &str| (a.to_string(), b.to_string());
    assert_eq!(parse_ssh_spec("bob@example.org"), pair("bob", "example.org"));
    assert_eq!(parse_ssh_spec("example.org"), pair("root", "example.org"));
    assert_eq!(parse_ssh_spec("@h"), pair("", "h"));
    assert_eq!(parse_ssh_spec("a@b@c"), pair("a", "b@c"));
    assert_eq!(parse_ssh_spec(""), pair("root", ""));
}

#[test]
fn results_are_collected_host_by_host() {
    let (windows, errors) = collect_results(vec![
        found("a", vec![window("a", "@1", &[]), window("a", "@2", &[])]),
        failed("b", "broken"),
        found("c", vec![window("c", "@3", &[])]),
    ]);
    let ids: Vec<&str> = windows.iter().map(|w| w.id.as_str()).collect();
    assert_eq!(ids, vec!["@1", "@2", "@3"]);
    assert_eq!(errors, vec![("b".to_string(), "broken".to_string())]);
}

#[test]
fn a_new_dashboard_runs_tmux_here_for_local_hosts() {
    let c = config(vec![host("a", None, true), host("b", Some("b"), false), host("c", None, true)]);
    assert_eq!(initial_hosts(&c), vec!["a", "c"]);
    let app: App<u8> = App::new(c, Vec::new(), 0);
    assert!(matches!(app.runner("a"), Some(TmuxRunner::Local)));
    assert!(matches!(app.runner("c"), Some(TmuxRunner::Local)));
    assert!(app.runner("b").is_none());
    assert!(app.windows().is_empty());
    assert!(!app.poll_in_flight());
    assert!(app.focused_pane().is_none());
    assert_eq!(app.attention_patterns().len(), 5);
    assert_eq!(app.quick_actions().len(), 3);
}

#[test]
fn hosts_are_sorted_and_distinct() {
    assert_eq!(three_windows().hosts(), vec!["alpha", "mid", "zeta"]);
}

#[test]
fn windows_are_filtered() {
    let mut app = three_windows();
    assert_eq!(app.filtered_window_indices(), vec![0, 1, 2]);
    app.toggle_attention();
    assert!(app.shows_only_attention());
    assert_eq!(app.filtered_window_indices(), vec![1, 2]);
    app.click_host("zeta");
    assert!(app.is_filtered_for("zeta") && !app.shows_all_hosts());
    assert_eq!(app.filtered_window_indices(), vec![1]);
    app.toggle_attention();
    assert_eq!(app.filtered_window_indices(), vec![0, 1]);
    let key = App::<u8>::window_key(&app.windows()[0]);
    app.hide_window(key.clone());
    app.hide_window(key);
    assert_eq!(app.hidden_count(), 1);
    assert_eq!(app.filtered_window_indices(), vec![1]);
    app.click_host("zeta");
    assert!(app.shows_all_hosts());
    assert_eq!(app.filtered_window_indices(), vec![1, 2]);
    app.click_host("mid");
    app.click_all();
    app.unhide_all();
    assert_eq!(app.filtered_window_indices(), vec![0, 1, 2]);
}

#[test]
fn totals() {
    let app = three_windows();
    assert_eq!(app.total_attention(), 2);
    assert_eq!(app.total_panes(), 4);
}

#[test]
fn runners_for_panes() {
    let mut app = three_windows();
    assert!(matches!(app.runner_for_pane("zeta\t%1"), Some((TmuxRunner::Local, id)) if id == "%1"));
    assert!(app.runner_for_pane("alpha\t%1").is_none());
    assert!(app.runner_for_pane("zeta").is_none());
    app.connected("alpha".to_string(), 9);
    assert!(matches!(app.runner_for_pane("alpha\t%2"), Some((TmuxRunner::Remote(9), _))));
}

#[test]
fn connections_are_requested_once() {
    let mut hosts = vec![
        host("here", Some("x@y"), true),
        host("far", Some("bob@addr"), false),
        host("nowhere", None, false),
        host("further", Some("addr2"), false),
    ];
    hosts[3].key = Some("/key".to_string());
    let mut app: App<u8> = App::new(config(hosts), Vec::new(), 0);
    let first = app.next_connection(0).unwrap();
    assert_eq!((first.index, first.host_name.as_str()), (1, "far"));
    assert_eq!((first.user.as_str(), first.address.as_str()), ("bob", "addr"));
    assert_eq!((first.port, first.key), (2200, None));
    let second = app.next_connection(2).unwrap();
    assert_eq!((second.index, second.user.as_str()), (3, "root"));
    assert_eq!(second.key, Some("/key".to_string()));
    assert!(app.next_connection(4).is_none());
    assert!(app.next_connection(usize::MAX).is_none());
    app.connected("far".to_string(), 1);
    assert_eq!(app.next_connection(0).unwrap().index, 3);
}

#[test]
fn connection_errors_are_news_once() {
    let mut app = three_windows();
    let alpha = || "alpha".to_string();
    assert!(app.connection_error("alpha").is_none());
    assert!(app.connection_failed(alpha(), "refused".to_string()));
    assert!(!app.connection_failed(alpha(), "refused".to_string()));
    assert_eq!(app.connection_error("alpha"), Some("refused"));
    assert!(app.connection_failed(alpha(), "timeout".to_string()));
    assert_eq!(app.connection_error("alpha"), Some("timeout"));
    app.connected(alpha(), 1);
    assert!(app.connection_error("alpha").is_none());
}

#[test]
fn polls_run_one_at_a_time() {
    let mut app = three_windows();
    assert_eq!(app.start_poll(), Some(vec!["zeta".to_string()]));
    assert!(app.poll_in_flight());
    assert_eq!(app.start_poll(), None);
    app.check_poll_results(PollEvent::Pending);
    assert!(app.poll_in_flight());
    app.check_poll_results(PollEvent::Lost);
    assert!(!app.poll_in_flight());
    assert_eq!(app.windows().len(), 3);
    app.connected("alpha".to_string(), 1);
    assert_eq!(app.start_poll(), Some(vec!["zeta".to_string(), "alpha".to_string()]));
}

#[test]
fn failed_remote_hosts_are_connected_to_again() {
    let mut app = three_windows();
    app.connected("alpha".to_string(), 1);
    assert!(app.start_poll().is_some());
    let pair = |a: &str, b: &str| (a.to_string(), b.to_string());
    app.check_poll_results(PollEvent::Done {
        windows: vec![window("zeta", "@7", &[])],
        errors: vec![pair("alpha", "first"), pair("zeta", "no server"), pair("alpha", "gone")],
    });
    assert!(!app.poll_in_flight());
    assert_eq!(app.windows().len(), 1);
    assert!(app.runner("alpha").is_none());
    assert!(matches!(app.runner("zeta"), Some(TmuxRunner::Local)));
    assert_eq!(app.connection_error("alpha"), Some("gone"));
    assert_eq!(app.connection_error("zeta"), Some("no server"));
    assert_eq!(app.next_connection(0).unwrap().host_name, "alpha");
}

#[test]
fn polls_are_due_after_the_interval() {
    let mut app = three_windows();
    assert!(!app.poll_if_due(2 * SECOND - 1));
    assert!(app.poll_if_due(2 * SECOND));
    assert!(!app.poll_if_due(3 * SECOND));
    assert!(app.poll_if_due(4 * SECOND));
    assert!(app.start_poll().is_some());
    assert!(!app.poll_if_due(60 * SECOND));
}

#[test]
fn without_an_interval_polls_are_always_due() {
    let c = Config { poll_interval_secs: 0, ..Config::localhost() };
    let mut app: App<u8> = App::new(c, Vec::new(), 5);
    assert!(app.poll_if_due(5));
    assert!(app.poll_if_due(3));
    let c = Config { poll_interval_secs: u64::MAX, ..Config::localhost() };
    let mut app: App<u8> = App::new(c, Vec::new(), 0);
    assert!(!app.poll_if_due(u64::MAX));
    assert!(app.quick_action("nothing", "x", 1).is_none());
    assert!(app.poll_if_due(1));
}

#[test]
fn quick_actions_type_and_hurry_the_poll() {
    let mut app = three_windows();
    let run = app.quick_action("zeta\t%1", "y\n", 7).unwrap();
    assert_eq!(run.host, "zeta");
    assert_eq!(
        run.commands,
        vec![
            vec!["send-keys", "-t", "%1", "-l", "y"],
            vec!["send-keys", "-t", "%1", "Enter"],
        ]
    );
    assert!(app.poll_if_due(7));
    assert!(app.quick_action("alpha\t%1", "y\n", 8).is_none());
    assert!(app.poll_if_due(8));
}

#[test]
fn input_goes_to_the_focused_pane() {
    let mut app = three_windows();
    let hi = vec![InputEvent::Text("hi".to_string())];
    assert!(app.forward_input(&hi, 1).is_none());
    app.click_pane("zeta\t%1");
    assert!(app.is_focused("zeta\t%1"));
    let run = app.forward_input(&hi, 1).unwrap();
    assert_eq!(run.host, "zeta");
    assert_eq!(run.commands, vec![vec!["send-keys", "-t", "%1", "-l", "hi"]]);
    assert!(app.poll_if_due(1));

    let prefix = vec![InputEvent::Key {
        key: Key::B,
        pressed: true,
        modifiers: Modifiers { ctrl: true },
    }];
    let run = app.forward_input(&prefix, 2).unwrap();
    assert!(run.commands.is_empty());
    assert!(app.prefix_pending());
    assert!(!app.poll_if_due(2));
    let x = vec![InputEvent::Text("x".to_string())];
    let run = app.forward_input(&x, 3).unwrap();
    assert_eq!(run.commands, vec![vec!["kill-pane", "-t", "%1"]]);
    assert!(!app.prefix_pending());

    app.click_pane("alpha\t%1");
    assert_eq!(app.focused_pane(), Some("alpha\t%1"));
    assert!(app.forward_input(&prefix, 4).is_none());
    assert!(!app.prefix_pending());
    app.click_pane("alpha\t%1");
    assert!(app.focused_pane().is_none());
}

#[test]
fn after_all_attempts_unconnected_hosts_have_errors() {
    let names = ["a", "b", "c", "b"];
    let mut hosts: Vec<HostConfig> = names.iter().map(|n| host(n, Some("x@y"), false)).collect();
    hosts.push(host("here", None, true));
    let mut app: App<u8> = App::new(config(hosts), Vec::new(), 0);
    let mut asked = Vec::new();
    let mut from = 0;
    while let Some(request) = app.next_connection(from) {
        from = request.index + 1;
        asked.push(request.index);
        if request.host_name == "b" {
            app.connected(request.host_name, 1);
        } else {
            app.connection_failed(request.host_name, "refused".to_string());
        }
    }
    assert_eq!(asked, vec![0, 1, 2]);
    for name in names {
        assert!(app.runner(name).is_some() != app.connection_error(name).is_some());
    }
    assert!(matches!(app.runner("here"), Some(TmuxRunner::Local)));
}

#[test]
fn attention_is_counted_where_a_window_shows_it() {
    let app = three_windows();
    let waiting = app.windows().iter().any(|w| *w.worst_status() == PaneStatus::NeedsAttention);
    assert!(waiting && app.total_attention() > 0);
    let calm: App<u8> = App::new(
        config(Vec::new()),
        vec![found("a", vec![window("a", "@1", &[PaneStatus::Active])])],
        0,
    );
    let waiting = calm.windows().iter().any(|w| *w.worst_status() == PaneStatus::NeedsAttention);
    assert!(!waiting && calm.total_attention() == 0);
}
