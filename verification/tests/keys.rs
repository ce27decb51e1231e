use whackamux::keys::{
    forward_event, forward_events, map_key_to_tmux, map_prefix_to_tmux_cmd, InputEvent, Key,
    Modifiers,
};

fn owned(v: &[&str]) -> Vec<String> {
    v.iter().map(|s| s.to_string()).collect()
}

fn press(key: Key, ctrl: bool) -> InputEvent {
    InputEvent::Key { key, pressed: true, modifiers: Modifiers { ctrl } }
}

fn text(s: &str) -> InputEvent {
    InputEvent::Text(s.to_string())
}

#[test]
fn keys_have_tmux_names() {
    let plain = Modifiers { ctrl: false };
    let ctrl = Modifiers { ctrl: true };
    let named = [
        (Key::Enter, "Enter"), (Key::Backspace, "BSpace"), (Key::Tab, "Tab"),
        (Key::Escape, "Escape"), (Key::ArrowUp, "Up"), (Key::ArrowDown, "Down"),
        (Key::ArrowLeft, "Left"), (Key::ArrowRight, "Right"), (Key::Delete, "DC"),
        (Key::Home, "Home"), (Key::End, "End"), (Key::PageUp, "PPage"), (Key::PageDown, "NPage"),
    ];
    for (key, name) in named {
        assert_eq!(map_key_to_tmux(key, &plain), Some(name.to_string()));
        assert_eq!(map_key_to_tmux(key, &ctrl), None);
    }
    let letters = [
        Key::A, Key::B, Key::C, Key::D, Key::E, Key::F, Key::G, Key::H, Key::I, Key::J, Key::K,
        Key::L, Key::M, Key::N, Key::O, Key::P, Key::Q, Key::R, Key::S, Key::T, Key::U, Key::V,
        Key::W, Key::X, Key::Y, Key::Z,
    ];
    for (i, key) in letters.iter().enumerate() {
        let name = format!("C-{}", (b'a' + i as u8) as char);
        assert_eq!(map_key_to_tmux(*key, &ctrl), Some(name));
        assert_eq!(map_key_to_tmux(*key, &plain), None);
    }
    assert_eq!(map_key_to_tmux(Key::Other, &plain), None);
    assert_eq!(map_key_to_tmux(Key::Other, &ctrl), None);
}

#[test]
fn prefixed_keys_are_commands() {
    let cases: [(&str, &[&str]); 20] = [
        ("c", &["new-window"]),
        ("n", &["next-window"]),
        ("p", &["previous-window"]),
        ("l", &["last-window"]),
        ("w", &["choose-tree", "-t", "%5"]),
        ("\"", &["split-window", "-t", "%5"]),
        ("%", &["split-window", "-h", "-t", "%5"]),
        ("x", &["kill-pane", "-t", "%5"]),
        ("z", &["resize-pane", "-Z", "-t", "%5"]),
        (",", &["command-prompt", "-t", "%5", "-I", "#W", "rename-window -- '%%'"]),
        ("[", &["copy-mode", "-t", "%5"]),
        ("o", &["select-pane", "-t", "%5.+"]),
        (";", &["last-pane"]),
        ("Up", &["select-pane", "-U", "-t", "%5"]),
        ("Down", &["select-pane", "-D", "-t", "%5"]),
        ("Left", &["select-pane", "-L", "-t", "%5"]),
        ("Right", &["select-pane", "-R", "-t", "%5"]),
        ("0", &["select-window", "-t", ":0"]),
        ("5", &["select-window", "-t", ":5"]),
        ("9", &["select-window", "-t", ":9"]),
    ];
    for (ch, args) in cases {
        assert_eq!(map_prefix_to_tmux_cmd(ch, "%5"), Some(owned(args)));
    }
    for ch in ["", "d", "10", "C", "٣", "up", ":"] {
        assert_eq!(map_prefix_to_tmux_cmd(ch, "%5"), None);
    }
}

#[test]
fn input_is_forwarded() {
    let r = forward_event(false, &text("hi"), "%1");
    assert_eq!(r.commands, vec![owned(&["send-keys", "-t", "%1", "-l", "hi"])]);
    assert!(r.sent_input && !r.prefix_pending);
    let r = forward_event(false, &press(Key::Enter, false), "%1");
    assert_eq!(r.commands, vec![owned(&["send-keys", "-t", "%1", "Enter"])]);
    assert!(r.sent_input);
    let r = forward_event(false, &text(""), "%1");
    assert!(r.commands.is_empty() && r.sent_input);
    let r = forward_event(false, &press(Key::A, false), "%1");
    assert!(r.commands.is_empty() && !r.sent_input);
    let r = forward_event(false, &InputEvent::Other, "%1");
    assert!(r.commands.is_empty() && !r.sent_input);
}

#[test]
fn the_prefix_key_starts_a_command() {
    let r = forward_events(false, &vec![press(Key::B, true), text("c")], "%1");
    assert_eq!(r.commands, vec![owned(&["new-window"])]);
    assert!(!r.prefix_pending && r.sent_input);

    let r = forward_events(false, &vec![press(Key::B, true), text("q"), text("q")], "%1");
    assert_eq!(r.commands, vec![owned(&["send-keys", "-t", "%1", "-l", "q"])]);

    let r = forward_events(false, &vec![press(Key::B, true), press(Key::ArrowUp, false)], "%1");
    assert_eq!(r.commands, vec![owned(&["select-pane", "-U", "-t", "%1"])]);

    let r = forward_events(true, &vec![press(Key::Enter, false), press(Key::B, true)], "%1");
    assert!(r.commands.is_empty() && r.prefix_pending && !r.sent_input);

    let r = forward_events(false, &vec![press(Key::B, true)], "%1");
    assert!(r.commands.is_empty() && r.prefix_pending && !r.sent_input);
}

#[test]
fn releases_do_nothing() {
    for pending in [false, true] {
        let up = InputEvent::Key {
            key: Key::B,
            pressed: false,
            modifiers: Modifiers { ctrl: true },
        };
        let r = forward_event(pending, &up, "%1");
        assert!(r.commands.is_empty() && !r.sent_input);
        assert_eq!(r.prefix_pending, pending);
    }
}

#[test]
fn events_in_portions() {
    let all = vec![text("a"), press(Key::B, true), text("n"), text("b")];
    let whole = forward_events(false, &all, "%1");
    let first = forward_events(false, &all[..2].to_vec(), "%1");
    let second = forward_events(first.prefix_pending, &all[2..].to_vec(), "%1");
    let mut commands = first.commands.clone();
    commands.extend(second.commands);
    assert_eq!(whole.commands, commands);
    assert_eq!(whole.prefix_pending, second.prefix_pending);
}

#[test]
fn key_names_tell_the_keys_apart() {
    let keys = [
        Key::A, Key::D, Key::Z, Key::Enter, Key::Backspace, Key::Tab, Key::Escape, Key::ArrowUp,
        Key::ArrowDown, Key::ArrowLeft, Key::ArrowRight, Key::Delete, Key::Home, Key::End,
        Key::PageUp, Key::PageDown,
    ];
    let mut names: Vec<String> = Vec::new();
    for key in keys {
        for ctrl in [false, true] {
            if let Some(name) = map_key_to_tmux(key, &Modifiers { ctrl }) {
                assert!(!names.contains(&name));
                names.push(name);
            }
        }
    }
    assert_eq!(names.len(), 16);
}
