use whackamux::keys::map_prefix_to_tmux_cmd;
use whackamux::pane::{PaneStatus, WindowInfo};
use whackamux::tmux::{
    capture_pane, capture_pane_args, detect_status, discover_windows, list_panes_args,
    local_result, parse_panes, remote_command, run_local, send_key_name, send_keys, send_literal,
    Invocation, TmuxRunner,
};

fn owned(v: &[&str]) -> Vec<String> {
    v.iter().map(|s| s.to_string()).collect()
}

fn line(session: &str, window: &str, index: &str, pane: &str, command: &str) -> String {
    [session, window, index, "name", "120", "40", pane, "1", "2", "3", "60", "20", command, "99"]
        .join("\t")
}

#[test]
fn remote_arguments_are_quoted() {
    assert_eq!(remote_command(&owned(&["list-panes", "-a"])), "tmux list-panes -a");
    assert_eq!(
        remote_command(&owned(&["send-keys", "-l", "a b"])),
        "tmux send-keys -l 'a b'"
    );
    assert_eq!(remote_command(&owned(&["-F#{x}", "{", "}", "a\u{3000}b"])), "tmux '-F#{x}' '{' '}' 'a\u{3000}b'");
    assert_eq!(remote_command(&owned(&[])), "tmux ");
    assert_eq!(remote_command(&owned(&["", "$x"])), "tmux  '$x'");
    assert_eq!(remote_command(&owned(&[""])), "tmux ");
    assert_eq!(
        remote_command(&owned(&["send-keys", "-t", "%1", "-l", "a;b"])),
        "tmux send-keys -t %1 -l 'a;b'"
    );
    assert_eq!(
        remote_command(&owned(&["list-panes", "-a", "-F#{pane_id}"])),
        "tmux list-panes -a '-F#{pane_id}'"
    );
    assert_eq!(remote_command(&owned(&["-l", "'"])), r"tmux -l ''\'''");
    assert_eq!(remote_command(&owned(&["don't"])), r"tmux 'don'\''t'");
    assert_eq!(remote_command(&owned(&["-I", "ñ"])), "tmux -I ñ");
    assert_eq!(remote_command(&owned(&["%+,-./:=@_^]azAZ09"])), "tmux %+,-./:=@_^]azAZ09");
    for c in ";&|<>()$`\\\"*?[#~!{} \t\r\n\u{a0}".chars() {
        let arg = c.to_string();
        assert_eq!(remote_command(&vec![arg.clone()]), format!("tmux '{}'", arg));
    }
}

/// The words that a POSIX shell makes of a line of words, quotes and backslashes.
fn words(line: &str) -> Vec<String> {
    let mut all = Vec::new();
    let mut word: Option<String> = None;
    let mut chars = line.chars();
    while let Some(c) = chars.next() {
        match c {
            '\'' => {
                let begun = word.get_or_insert_with(String::new);
                for q in chars.by_ref().take_while(|q| *q != '\'') {
                    begun.push(q);
                }
            }
            '\\' => word.get_or_insert_with(String::new).extend(chars.next()),
            ' ' => all.extend(word.take()),
            _ => word.get_or_insert_with(String::new).push(c),
        }
    }
    all.extend(word);
    all
}

#[test]
fn remote_arguments_arrive_unchanged() {
    let rename = map_prefix_to_tmux_cmd(",", "%1").unwrap();
    for args in [
        owned(&[]),
        owned(&[""]),
        owned(&["send-keys", "-t", "%1", "-l", "a;b"]),
        owned(&["-l", "it's '' \\ \"q\" $(x)\n", "", "'"]),
        list_panes_args(),
        rename,
    ] {
        let mut expected = owned(&["tmux"]);
        expected.extend(args.iter().filter(|a| !a.is_empty()).cloned());
        assert_eq!(words(&remote_command(&args)), expected);
    }
}

#[test]
fn runners_spawn_or_execute() {
    let args = owned(&["kill-pane", "-t", "%1"]);
    match TmuxRunner::<u8>::Local.run(&args) {
        Invocation::Spawn { args: a } => assert_eq!(a, args),
        Invocation::Execute { .. } => panic!("executed"),
    }
    match TmuxRunner::Remote(7u8).run(&args) {
        Invocation::Execute { session, command } => {
            assert_eq!(*session, 7);
            assert_eq!(command, "tmux kill-pane -t %1");
        }
        Invocation::Spawn { .. } => panic!("spawned"),
    }
}

#[test]
fn local_runs_give_output_or_an_error() {
    let args = owned(&["list-panes"]);
    assert_eq!(run_local(&args, true, b"ok\n", b"noise").unwrap(), "ok\n");
    assert_eq!(run_local(&args, true, b"a\xffb", b"").unwrap(), "a\u{fffd}b");
    let e = run_local(&args, false, b"x", "kaputt ñ".as_bytes()).unwrap_err();
    assert_eq!(e.message(), "tmux list-panes failed: kaputt ñ");
    assert_eq!(local_result(&args, true, "t".to_string()).unwrap(), "t");
    assert_eq!(local_result(&args, false, "t".to_string()).unwrap_err().stderr, "t");
}

#[test]
fn listing_arguments() {
    let args = list_panes_args();
    assert_eq!(args.len(), 3);
    assert_eq!(args[0], "list-panes");
    assert_eq!(args[1], "-a");
    assert_eq!(
        args[2],
        "-F#{session_name}\t#{window_id}\t#{window_index}\t#{window_name}\t#{window_width}\t#{window_height}\t#{pane_id}\t#{pane_index}\t#{pane_left}\t#{pane_top}\t#{pane_width}\t#{pane_height}\t#{pane_current_command}\t#{pane_pid}"
    );
    assert_eq!(capture_pane_args("%3"), owned(&["capture-pane", "-t", "%3", "-p"]));
}

#[test]
fn listings_are_read() {
    let text = format!(
        "{}\nshort\tline\n{}\textra\n",
        line("main", "@1", "4", "%1", "vim"),
        ["s", "@2", "x", "", "", "-1", "%2", "", "", "", "", "", "", ""].join("\t"),
    );
    let panes = parse_panes(&text);
    assert_eq!(panes.len(), 2);
    let p = &panes[0];
    assert_eq!((p.session.as_str(), p.window_id.as_str(), p.window_index), ("main", "@1", 4));
    assert_eq!((p.window_name.as_str(), p.window_width, p.window_height), ("name", 120, 40));
    assert_eq!((p.pane_id.as_str(), p.pane_index), ("%1", 1));
    assert_eq!((p.pane_left, p.pane_top, p.pane_width, p.pane_height), (2, 3, 60, 20));
    assert_eq!(p.current_command, "vim");
    let d = &panes[1];
    assert_eq!((d.window_index, d.window_width, d.window_height), (0, 200, 50));
    assert_eq!((d.pane_index, d.pane_left, d.pane_top), (0, 0, 0));
    assert_eq!((d.pane_width, d.pane_height), (80, 24));
    assert!(parse_panes("").is_empty());
    assert!(parse_panes("a\tb\n").is_empty());
}

#[test]
fn captures_lose_their_empty_end() {
    assert_eq!(capture_pane("a\n\nb\n\n\n"), owned(&["a", "", "b"]));
    assert_eq!(capture_pane("\n\n\n"), owned(&[""]));
    assert_eq!(capture_pane("a"), owned(&["a"]));
    assert_eq!(capture_pane("\na\r\n \n\n"), owned(&["", "a", " "]));
}

#[test]
fn statuses_are_detected() {
    let patterns = owned(&["yes/no", "Allow"]);
    let asking = owned(&["Proceed (yes/no)?"]);
    assert_eq!(detect_status(&asking, "bash", &patterns), PaneStatus::NeedsAttention);
    for shell in ["bash", "zsh", "fish", "sh", "dash", "tcsh", "csh"] {
        assert_eq!(detect_status(&owned(&["$"]), shell, &patterns), PaneStatus::Idle);
    }
    assert_eq!(detect_status(&owned(&["$"]), "vim", &patterns), PaneStatus::Active);
    assert_eq!(detect_status(&owned(&[]), "Bash", &patterns), PaneStatus::Active);
    assert_eq!(detect_status(&asking, "vim", &Vec::new()), PaneStatus::Active);
    assert_eq!(detect_status(&owned(&["x"]), "vim", &owned(&[""])), PaneStatus::NeedsAttention);
    assert_eq!(detect_status(&owned(&[]), "vim", &owned(&[""])), PaneStatus::Active);
}

#[test]
fn only_the_last_fifteen_lines_count() {
    let patterns = owned(&["Allow"]);
    let mut content = owned(&["Allow"]);
    content.extend((0..14).map(|i| i.to_string()));
    assert_eq!(detect_status(&content, "sh", &patterns), PaneStatus::NeedsAttention);
    content.push("more".to_string());
    assert_eq!(detect_status(&content, "sh", &patterns), PaneStatus::Idle);
}

fn discover(lines: &[String], captures: &[Option<&str>]) -> Vec<WindowInfo> {
    let parsed = parse_panes(&lines.join("\n"));
    let captures: Vec<Option<String>> =
        captures.iter().map(|c| c.map(|s| s.to_string())).collect();
    discover_windows("box", &owned(&["Allow"]), &parsed, &captures)
}

#[test]
fn windows_are_grouped_and_ordered() {
    let windows = discover(
        &[
            line("b", "@1", "0", "%1", "vim"),
            line("a", "@2", "10", "%2", "bash"),
            line("b", "@1", "7", "%3", "bash"),
            line("a", "@3", "9", "%4", "bash"),
        ],
        &[Some("x\n"), None, Some("Allow?\n\n"), Some("\n")],
    );
    let ids: Vec<&str> = windows.iter().map(|w| w.id.as_str()).collect();
    assert_eq!(ids, vec!["@3", "@2", "@1"]);
    assert!(windows.iter().all(|w| w.host == "box"));
    let last = &windows[2];
    assert_eq!((last.session.as_str(), last.window_index), ("b", 0));
    assert_eq!((last.width, last.height), (120, 40));
    assert_eq!(last.panes.len(), 2);
    assert_eq!(last.panes[0].id, "%1");
    assert_eq!(last.panes[0].status, PaneStatus::Active);
    assert_eq!(last.panes[0].content, owned(&["x"]));
    assert_eq!(last.panes[0].geometry.left, 2);
    assert_eq!(last.panes[0].geometry.top, 3);
    assert_eq!(last.panes[0].geometry.width, 60);
    assert_eq!(last.panes[0].geometry.height, 20);
    assert_eq!(last.panes[1].status, PaneStatus::NeedsAttention);
    assert!(windows[1].panes[0].content.is_empty());
    assert_eq!(windows[0].panes[0].content, owned(&[""]));
    let total: usize = windows.iter().map(|w| w.panes.len()).sum();
    assert_eq!(total, 4);
}

#[test]
fn panes_without_a_capture_are_left_out() {
    let windows = discover(
        &[line("a", "@1", "0", "%1", "vim"), line("a", "@2", "1", "%2", "vim")],
        &[Some("x")],
    );
    assert_eq!(windows.len(), 1);
    assert!(discover(&[], &[]).is_empty());
}

#[test]
fn keys_are_sent_line_by_line() {
    let literal = |s: &str| owned(&["send-keys", "-t", "%1", "-l", s]);
    let enter = owned(&["send-keys", "-t", "%1", "Enter"]);
    assert_eq!(send_keys("%1", "yes\n"), vec![literal("yes"), enter.clone()]);
    assert_eq!(send_keys("%1", "\n"), vec![enter.clone()]);
    assert_eq!(send_keys("%1", "a\n\nb"), vec![literal("a"), enter.clone(), enter.clone(), literal("b")]);
    assert!(send_keys("%1", "").is_empty());
    assert_eq!(send_key_name("%1", "C-c"), owned(&["send-keys", "-t", "%1", "C-c"]));
    assert_eq!(send_literal("%1", "x y"), Some(literal("x y")));
    assert_eq!(send_literal("%1", ""), None);
}

#[test]
fn sent_keys_type_the_text() {
    for keys in ["", "\n", "yes\n", "a\n\nb", "\nx\n", "no newline"] {
        let mut typed = String::new();
        for command in send_keys("%1", keys) {
            if command.len() == 5 {
                typed.push_str(&command[4]);
            } else {
                assert_eq!(command[3], "Enter");
                typed.push('\n');
            }
        }
        assert_eq!(typed, keys);
    }
}

#[test]
fn the_same_findings_give_the_same_windows() {
    let lines = [
        line("b", "@1", "0", "%1", "vim"),
        line("a", "@2", "1", "%2", "bash"),
        line("b", "@1", "0", "%3", "bash"),
    ];
    let captures = [Some("x\n"), Some("y\n"), None];
    let a = discover(&lines, &captures);
    let b = discover(&lines, &captures);
    assert_eq!(format!("{:?}", a), format!("{:?}", b));
    assert!(a.iter().all(|w| !w.panes.is_empty() && w.host == "box"));
}
