//! Keyboard input and what it makes tmux do.

use vstd::prelude::*;
use vstd::string::*;
use crate::config::optional_text;
use crate::text::{chars_of, slices, str_eq, strings, texts};
use crate::tmux::{
    commands, key_command, received_from, send_key_name, send_literal, type_command, typing,
};

verus! {

/// A key of the keyboard.
#[derive(Debug, Clone, Copy, PartialEq, Eq, Structural)]
pub enum Key {
    A,
    B,
    C,
    D,
    E,
    F,
    G,
    H,
    I,
    J,
    K,
    L,
    M,
    N,
    O,
    P,
    Q,
    R,
    S,
    T,
    U,
    V,
    W,
    X,
    Y,
    Z,
    Enter,
    Backspace,
    Tab,
    Escape,
    ArrowUp,
    ArrowDown,
    ArrowLeft,
    ArrowRight,
    Delete,
    Home,
    End,
    PageUp,
    PageDown,
    /// Any key that is not forwarded.
    Other,
}

/// The modifier keys held down with a key.
#[derive(Debug, Clone, Copy, PartialEq, Eq, Structural)]
pub struct Modifiers {
    pub ctrl: bool,
}

/// The lower-case letter on a key.
pub open spec fn letter_on(key: Key) -> Option<char> {
    match key {
        Key::A => Some('a'),
        Key::B => Some('b'),
        Key::C => Some('c'),
        Key::D => Some('d'),
        Key::E => Some('e'),
        Key::F => Some('f'),
        Key::G => Some('g'),
        Key::H => Some('h'),
        Key::I => Some('i'),
        Key::J => Some('j'),
        Key::K => Some('k'),
        Key::L => Some('l'),
        Key::M => Some('m'),
        Key::N => Some('n'),
        Key::O => Some('o'),
        Key::P => Some('p'),
        Key::Q => Some('q'),
        Key::R => Some('r'),
        Key::S => Some('s'),
        Key::T => Some('t'),
        Key::U => Some('u'),
        Key::V => Some('v'),
        Key::W => Some('w'),
        Key::X => Some('x'),
        Key::Y => Some('y'),
        Key::Z => Some('z'),
        _ => None,
    }
}

/// The lower-case letter on a key.
fn letter(key: Key) -> (r: Option<char>)
    ensures
        r == letter_on(key),
{
    match key {
        Key::A => Some('a'),
        Key::B => Some('b'),
        Key::C => Some('c'),
        Key::D => Some('d'),
        Key::E => Some('e'),
        Key::F => Some('f'),
        Key::G => Some('g'),
        Key::H => Some('h'),
        Key::I => Some('i'),
        Key::J => Some('j'),
        Key::K => Some('k'),
        Key::L => Some('l'),
        Key::M => Some('m'),
        Key::N => Some('n'),
        Key::O => Some('o'),
        Key::P => Some('p'),
        Key::Q => Some('q'),
        Key::R => Some('r'),
        Key::S => Some('s'),
        Key::T => Some('t'),
        Key::U => Some('u'),
        Key::V => Some('v'),
        Key::W => Some('w'),
        Key::X => Some('x'),
        Key::Y => Some('y'),
        Key::Z => Some('z'),
        _ => None,
    }
}

/// The name that tmux has for a key without a letter on it.
pub open spec fn name_of(key: Key) -> Option<Seq<char>> {
    match key {
        Key::Enter => Some("Enter"@),
        Key::Backspace => Some("BSpace"@),
        Key::Tab => Some("Tab"@),
        Key::Escape => Some("Escape"@),
        Key::ArrowUp => Some("Up"@),
        Key::ArrowDown => Some("Down"@),
        Key::ArrowLeft => Some("Left"@),
        Key::ArrowRight => Some("Right"@),
        Key::Delete => Some("DC"@),
        Key::Home => Some("Home"@),
        Key::End => Some("End"@),
        Key::PageUp => Some("PPage"@),
        Key::PageDown => Some("NPage"@),
        _ => None,
    }
}

/// The name that tmux has for a key pressed with or without Ctrl; none for a key that is
/// not forwarded.
pub open spec fn tmux_key(key: Key, ctrl: bool) -> Option<Seq<char>> {
    if ctrl {
        match letter_on(key) {
            Some(c) => Some("C-"@.push(c)),
            None => None,
        }
    } else {
        name_of(key)
    }
}

/// The name that tmux has for a key pressed with these modifiers.
pub fn map_key_to_tmux(key: Key, modifiers: &Modifiers) -> (r: Option<String>)
    ensures
        optional_text(r) == tmux_key(key, modifiers.ctrl),
{
    if modifiers.ctrl {
        return match letter(key) {
            Some(c) => {
                let mut name = "C-".to_owned();
                name.push(c);
                Some(name)
            },
            None => None,
        };
    }
    match key {
        Key::Enter => Some("Enter".to_owned()),
        Key::Backspace => Some("BSpace".to_owned()),
        Key::Tab => Some("Tab".to_owned()),
        Key::Escape => Some("Escape".to_owned()),
        Key::ArrowUp => Some("Up".to_owned()),
        Key::ArrowDown => Some("Down".to_owned()),
        Key::ArrowLeft => Some("Left".to_owned()),
        Key::ArrowRight => Some("Right".to_owned()),
        Key::Delete => Some("DC".to_owned()),
        Key::Home => Some("Home".to_owned()),
        Key::End => Some("End".to_owned()),
        Key::PageUp => Some("PPage".to_owned()),
        Key::PageDown => Some("NPage".to_owned()),
        _ => None,
    }
}

/// No two keys share a name: the name tells the key and whether Ctrl was held.
pub proof fn key_names_are_distinct(a: Key, a_ctrl: bool, b: Key, b_ctrl: bool)
    requires
        tmux_key(a, a_ctrl) is Some,
        tmux_key(a, a_ctrl) == tmux_key(b, b_ctrl),
    ensures
        a == b,
        a_ctrl == b_ctrl,
{
    reveal_strlit("C-");
    reveal_strlit("Enter");
    reveal_strlit("BSpace");
    reveal_strlit("Tab");
    reveal_strlit("Escape");
    reveal_strlit("Up");
    reveal_strlit("Down");
    reveal_strlit("Left");
    reveal_strlit("Right");
    reveal_strlit("DC");
    reveal_strlit("Home");
    reveal_strlit("End");
    reveal_strlit("PPage");
    reveal_strlit("NPage");
    let name = tmux_key(a, a_ctrl)->0;
    if a_ctrl {
        assert(name[1] == '-');
        assert(name[2] == letter_on(a)->0);
    }
    if b_ctrl {
        assert(name[1] == '-');
        assert(name[2] == letter_on(b)->0);
    }
    if !a_ctrl && !b_ctrl {
        assert(name_of(a) == name_of(b));
        assert((name_of(a)->0).len() == (name_of(b)->0).len());
        assert((name_of(a)->0)[0] == (name_of(b)->0)[0]);
        assert((name_of(a)->0)[1] == (name_of(b)->0)[1]);
    }
}

/// The tmux command behind the prefix key and `ch`, for the pane `pane`.
pub open spec fn prefix_command(ch: Seq<char>, pane: Seq<char>) -> Option<Seq<Seq<char>>> {
    if ch == "c"@ {
        Some(seq!["new-window"@])
    } else if ch == "n"@ {
        Some(seq!["next-window"@])
    } else if ch == "p"@ {
        Some(seq!["previous-window"@])
    } else if ch == "l"@ {
        Some(seq!["last-window"@])
    } else if ch == "w"@ {
        Some(seq!["choose-tree"@, "-t"@, pane])
    } else if ch == "\""@ {
        Some(seq!["split-window"@, "-t"@, pane])
    } else if ch == "%"@ {
        Some(seq!["split-window"@, "-h"@, "-t"@, pane])
    } else if ch == "x"@ {
        Some(seq!["kill-pane"@, "-t"@, pane])
    } else if ch == "z"@ {
        Some(seq!["resize-pane"@, "-Z"@, "-t"@, pane])
    } else if ch == ","@ {
        Some(seq!["command-prompt"@, "-t"@, pane, "-I"@, "#W"@, "rename-window -- '%%'"@])
    } else if ch == "["@ {
        Some(seq!["copy-mode"@, "-t"@, pane])
    } else if ch == "o"@ {
        Some(seq!["select-pane"@, "-t"@, pane + ".+"@])
    } else if ch == ";"@ {
        Some(seq!["last-pane"@])
    } else if ch == "Up"@ {
        Some(seq!["select-pane"@, "-U"@, "-t"@, pane])
    } else if ch == "Down"@ {
        Some(seq!["select-pane"@, "-D"@, "-t"@, pane])
    } else if ch == "Left"@ {
        Some(seq!["select-pane"@, "-L"@, "-t"@, pane])
    } else if ch == "Right"@ {
        Some(seq!["select-pane"@, "-R"@, "-t"@, pane])
    } else if ch.len() == 1 && '0' <= ch[0] <= '9' {
        Some(seq!["select-window"@, "-t"@, ":"@ + ch])
    } else {
        None
    }
}

/// The tmux command behind the prefix key and `ch`, for the pane `pane_id`.
pub fn map_prefix_to_tmux_cmd(ch: &str, pane_id: &str) -> (r: Option<Vec<String>>)
    ensures
        match r {
            Some(args) => prefix_command(ch@, pane_id@) == Some(texts(args@)),
            None => prefix_command(ch@, pane_id@) is None,
        },
{
    if str_eq(ch, "c") {
        let v = ["new-window"];
        assert(slices(v@) =~= seq!["new-window"@]);
        return Some(strings(&v));
    }
    if str_eq(ch, "n") {
        let v = ["next-window"];
        assert(slices(v@) =~= seq!["next-window"@]);
        return Some(strings(&v));
    }
    if str_eq(ch, "p") {
        let v = ["previous-window"];
        assert(slices(v@) =~= seq!["previous-window"@]);
        return Some(strings(&v));
    }
    if str_eq(ch, "l") {
        let v = ["last-window"];
        assert(slices(v@) =~= seq!["last-window"@]);
        return Some(strings(&v));
    }
    if str_eq(ch, "w") {
        let v = ["choose-tree", "-t", pane_id];
        assert(slices(v@) =~= seq!["choose-tree"@, "-t"@, pane_id@]);
        return Some(strings(&v));
    }
    if str_eq(ch, "\"") {
        let v = ["split-window", "-t", pane_id];
        assert(slices(v@) =~= seq!["split-window"@, "-t"@, pane_id@]);
        return Some(strings(&v));
    }
    if str_eq(ch, "%") {
        let v = ["split-window", "-h", "-t", pane_id];
        assert(slices(v@) =~= seq!["split-window"@, "-h"@, "-t"@, pane_id@]);
        return Some(strings(&v));
    }
    if str_eq(ch, "x") {
        let v = ["kill-pane", "-t", pane_id];
        assert(slices(v@) =~= seq!["kill-pane"@, "-t"@, pane_id@]);
        return Some(strings(&v));
    }
    if str_eq(ch, "z") {
        let v = ["resize-pane", "-Z", "-t", pane_id];
        assert(slices(v@) =~= seq!["resize-pane"@, "-Z"@, "-t"@, pane_id@]);
        return Some(strings(&v));
    }
    if str_eq(ch, ",") {
        let v = ["command-prompt", "-t", pane_id, "-I", "#W", "rename-window -- '%%'"];
        assert(slices(v@) =~= seq!["command-prompt"@, "-t"@, pane_id@, "-I"@, "#W"@, "rename-window -- '%%'"@]);
        return Some(strings(&v));
    }
    if str_eq(ch, "[") {
        let v = ["copy-mode", "-t", pane_id];
        assert(slices(v@) =~= seq!["copy-mode"@, "-t"@, pane_id@]);
        return Some(strings(&v));
    }
    if str_eq(ch, "o") {
        let mut next = pane_id.to_owned();
        next.append(".+");
        let v = ["select-pane", "-t", next.as_str()];
        assert(slices(v@) =~= seq!["select-pane"@, "-t"@, pane_id@ + ".+"@]);
        return Some(strings(&v));
    }
    if str_eq(ch, ";") {
        let v = ["last-pane"];
        assert(slices(v@) =~= seq!["last-pane"@]);
        return Some(strings(&v));
    }
    if str_eq(ch, "Up") {
        let v = ["select-pane", "-U", "-t", pane_id];
        assert(slices(v@) =~= seq!["select-pane"@, "-U"@, "-t"@, pane_id@]);
        return Some(strings(&v));
    }
    if str_eq(ch, "Down") {
        let v = ["select-pane", "-D", "-t", pane_id];
        assert(slices(v@) =~= seq!["select-pane"@, "-D"@, "-t"@, pane_id@]);
        return Some(strings(&v));
    }
    if str_eq(ch, "Left") {
        let v = ["select-pane", "-L", "-t", pane_id];
        assert(slices(v@) =~= seq!["select-pane"@, "-L"@, "-t"@, pane_id@]);
        return Some(strings(&v));
    }
    if str_eq(ch, "Right") {
        let v = ["select-pane", "-R", "-t", pane_id];
        assert(slices(v@) =~= seq!["select-pane"@, "-R"@, "-t"@, pane_id@]);
        return Some(strings(&v));
    }
    let cs = chars_of(ch);
    if cs.len() == 1 && '0' <= cs[0] && cs[0] <= '9' {
        let mut window = ":".to_owned();
        window.append(ch);
        let v = ["select-window", "-t", window.as_str()];
        assert(slices(v@) =~= seq!["select-window"@, "-t"@, ":"@ + ch@]);
        return Some(strings(&v));
    }
    None
}

/// Something that happened on the keyboard.
#[derive(Debug, Clone)]
pub enum InputEvent {
    /// A key went down (`pressed`) or up.
    Key { key: Key, pressed: bool, modifiers: Modifiers },
    /// Text was entered.
    Text(String),
    /// Anything else.
    Other,
}

/// The model of an [`InputEvent`].
#[verifier::ext_equal]
pub enum EventModel {
    Key { key: Key, pressed: bool, ctrl: bool },
    Text(Seq<char>),
    Other,
}

impl View for InputEvent {
    type V = EventModel;

    open spec fn view(&self) -> EventModel {
        match self {
            InputEvent::Key { key, pressed, modifiers } => EventModel::Key {
                key: *key,
                pressed: *pressed,
                ctrl: modifiers.ctrl,
            },
            InputEvent::Text(text) => EventModel::Text(text@),
            InputEvent::Other => EventModel::Other,
        }
    }
}

/// The models of a sequence of events.
pub open spec fn event_models(v: Seq<InputEvent>) -> Seq<EventModel> {
    Seq::new(v.len(), |i: int| v[i]@)
}

/// What events lead to.
#[verifier::ext_equal]
pub struct ForwardModel {
    /// Whether the prefix key waits for the key after it.
    pub pending: bool,
    /// The tmux commands to run.
    pub run: Seq<Seq<Seq<char>>>,
    /// Whether anything was sent, so that the panes may have changed.
    pub sent: bool,
}

/// Whether the event is the prefix key, Ctrl and B.
pub open spec fn is_prefix_key(event: EventModel) -> bool {
    event == EventModel::Key { key: Key::B, pressed: true, ctrl: true }
}

/// What an event stands for behind the prefix key.
pub open spec fn prefixed_text(event: EventModel) -> Option<Seq<char>> {
    match event {
        EventModel::Text(text) => Some(text),
        EventModel::Key { key, pressed: true, .. } => match key {
            Key::ArrowUp => Some("Up"@),
            Key::ArrowDown => Some("Down"@),
            Key::ArrowLeft => Some("Left"@),
            Key::ArrowRight => Some("Right"@),
            _ => None,
        },
        _ => None,
    }
}

/// What one event leads to. The prefix key starts a prefixed command, and is itself never
/// forwarded. While it waits, only text and arrow keys count, and the first of them ends the
/// waiting, whether a command belongs to it or not. Otherwise text is typed and keys are
/// pressed in the pane.
pub open spec fn after_event(pending: bool, event: EventModel, pane: Seq<char>) -> ForwardModel {
    let nothing = ForwardModel { pending, run: Seq::empty(), sent: false };
    if is_prefix_key(event) {
        ForwardModel { pending: true, ..nothing }
    } else if pending {
        match prefixed_text(event) {
            Some(ch) => match prefix_command(ch, pane) {
                Some(args) => ForwardModel { pending: false, run: seq![args], sent: true },
                None => ForwardModel { pending: false, ..nothing },
            },
            None => nothing,
        }
    } else {
        match event {
            EventModel::Text(text) => ForwardModel {
                pending: false,
                run: typing(pane, text),
                sent: true,
            },
            EventModel::Key { key, pressed: true, ctrl } => match tmux_key(key, ctrl) {
                Some(name) => ForwardModel {
                    pending: false,
                    run: seq![key_command(pane, name)],
                    sent: true,
                },
                None => nothing,
            },
            _ => nothing,
        }
    }
}

/// What events lead to, one after the other.
pub open spec fn after_events(
    pending: bool,
    events: Seq<EventModel>,
    pane: Seq<char>,
) -> ForwardModel
    decreases events.len(),
{
    if events.len() == 0 {
        ForwardModel { pending, run: Seq::empty(), sent: false }
    } else {
        let before = after_events(pending, events.drop_last(), pane);
        let last = after_event(before.pending, events.last(), pane);
        ForwardModel {
            pending: last.pending,
            run: before.run + last.run,
            sent: before.sent || last.sent,
        }
    }
}

/// What events lead to.
#[derive(Debug, Clone)]
pub struct Forwarded {
    /// Whether the prefix key waits for the key after it.
    pub prefix_pending: bool,
    /// The tmux commands to run.
    pub commands: Vec<Vec<String>>,
    /// Whether anything was sent, so that the panes may have changed.
    pub sent_input: bool,
}

impl View for Forwarded {
    type V = ForwardModel;

    open spec fn view(&self) -> ForwardModel {
        ForwardModel {
            pending: self.prefix_pending,
            run: commands(self.commands@),
            sent: self.sent_input,
        }
    }
}

fn prefix_char(event: &InputEvent) -> (r: Option<String>)
    ensures
        optional_text(r) == prefixed_text(event@),
{
    match event {
        InputEvent::Text(text) => Some(text.clone()),
        InputEvent::Key { key, pressed: true, .. } => match key {
            Key::ArrowUp => Some("Up".to_owned()),
            Key::ArrowDown => Some("Down".to_owned()),
            Key::ArrowLeft => Some("Left".to_owned()),
            Key::ArrowRight => Some("Right".to_owned()),
            _ => None,
        },
        _ => None,
    }
}

/// The tmux command for an event, if any, and whether the prefix key then waits and whether
/// anything was sent.
pub fn forward_event(prefix_pending: bool, event: &InputEvent, pane_id: &str) -> (r: Forwarded)
    ensures
        r@ == after_event(prefix_pending, event@, pane_id@),
{
    let mut r = Forwarded { prefix_pending, commands: Vec::new(), sent_input: false };
    assert(r@.run =~= Seq::empty());
    if let InputEvent::Key { key, pressed: true, modifiers } = event {
        if modifiers.ctrl && *key == Key::B {
            r.prefix_pending = true;
            return r;
        }
    }
    assert(!is_prefix_key(event@));
    if prefix_pending {
        if let Some(ch) = prefix_char(event) {
            r.prefix_pending = false;
            if let Some(args) = map_prefix_to_tmux_cmd(ch.as_str(), pane_id) {
                r.commands.push(args);
                r.sent_input = true;
                assert(r@.run =~= seq![texts(args@)]);
            }
        }
        return r;
    }
    match event {
        InputEvent::Text(text) => {
            if let Some(args) = send_literal(pane_id, text.as_str()) {
                r.commands.push(args);
            }
            r.sent_input = true;
            assert(r@.run =~= typing(pane_id@, text@));
        },
        InputEvent::Key { key, pressed: true, modifiers } => {
            if let Some(name) = map_key_to_tmux(*key, modifiers) {
                r.commands.push(send_key_name(pane_id, name.as_str()));
                r.sent_input = true;
                assert(r@.run =~= seq![key_command(pane_id@, name@)]);
            }
        },
        _ => {},
    }
    r
}

/// The tmux commands for events, and whether the prefix key then waits and whether anything
/// was sent.
pub fn forward_events(prefix_pending: bool, events: &Vec<InputEvent>, pane_id: &str) -> (r:
    Forwarded)
    ensures
        r@ == after_events(prefix_pending, event_models(events@), pane_id@),
{
    let ghost all = event_models(events@);
    let mut r = Forwarded { prefix_pending, commands: Vec::new(), sent_input: false };
    let mut i: usize = 0;
    assert(r@ =~= after_events(prefix_pending, all.take(0), pane_id@));
    while i < events.len()
        invariant
            all == event_models(events@),
            i <= events@.len(),
            r@ == after_events(prefix_pending, all.take(i as int), pane_id@),
        decreases events@.len() - i,
    {
        let ghost before = r@;
        assert(all.take(i + 1).drop_last() =~= all.take(i as int));
        assert(all.take(i + 1).last() == events@[i as int]@);
        let next = forward_event(r.prefix_pending, &events[i], pane_id);
        let ghost step = next@;
        r.prefix_pending = next.prefix_pending;
        r.sent_input = r.sent_input || next.sent_input;
        let mut more = next.commands;
        r.commands.append(&mut more);
        assert(r@.run =~= before.run + step.run);
        i += 1;
    }
    assert(all.take(all.len() as int) =~= all);
    r
}

/// Events in two portions lead to what they lead to in one.
pub proof fn portions_of_events_add_up(
    pending: bool,
    a: Seq<EventModel>,
    b: Seq<EventModel>,
    pane: Seq<char>,
)
    ensures
        after_events(pending, a + b, pane) == ({
            let first = after_events(pending, a, pane);
            let second = after_events(first.pending, b, pane);
            ForwardModel {
                pending: second.pending,
                run: first.run + second.run,
                sent: first.sent || second.sent,
            }
        }),
    decreases b.len(),
{
    let first = after_events(pending, a, pane);
    if b.len() == 0 {
        assert(a + b =~= a);
        assert(first.run + Seq::<Seq<Seq<char>>>::empty() =~= first.run);
    } else {
        portions_of_events_add_up(pending, a, b.drop_last(), pane);
        assert((a + b).drop_last() =~= a + b.drop_last());
        assert((a + b).last() == b.last());
        let second = after_events(first.pending, b.drop_last(), pane);
        let last = after_event(second.pending, b.last(), pane);
        assert(first.run + second.run + last.run =~= first.run + (second.run + last.run));
    }
}

/// The text entered by events that enter text.
pub open spec fn entered(events: Seq<EventModel>) -> Seq<char>
    decreases events.len(),
{
    if events.len() == 0 {
        Seq::empty()
    } else {
        entered(events.drop_last()) + events.last()->Text_0
    }
}

/// Text entered without a waiting prefix key arrives in the pane as it was entered.
pub proof fn entered_text_arrives(events: Seq<EventModel>, pane: Seq<char>)
    requires
        forall|i: int| 0 <= i < events.len() ==> (#[trigger] events[i]) is Text,
    ensures
        !after_events(false, events, pane).pending,
        received_from(after_events(false, events, pane).run) == entered(events),
    decreases events.len(),
{
    if events.len() > 0 {
        let head = events.drop_last();
        assert forall|i: int| 0 <= i < head.len() implies (#[trigger] head[i]) is Text by {
            assert(head[i] == events[i]);
        }
        entered_text_arrives(head, pane);
        assert(events[events.len() - 1] is Text);
        let before = after_events(false, head, pane);
        let text = events.last()->Text_0;
        if text.len() == 0 {
            assert(before.run + typing(pane, text) =~= before.run);
            assert(entered(head) + text =~= entered(head));
        } else {
            let all = before.run + typing(pane, text);
            assert(all.drop_last() =~= before.run);
            assert(all.last() == type_command(pane, text));
        }
    }
}

/// A key that goes up changes nothing.
pub proof fn releases_are_ignored(pending: bool, key: Key, ctrl: bool, pane: Seq<char>)
    ensures
        after_event(pending, EventModel::Key { key, pressed: false, ctrl }, pane) == (
        ForwardModel { pending, run: Seq::empty(), sent: false }),
{
}

/// Text behind the prefix key is not typed: at most the command that belongs to it runs, and
/// the prefix key no longer waits.
pub proof fn prefixed_text_is_a_command(text: Seq<char>, pane: Seq<char>)
    ensures
        ({
            let prefix = EventModel::Key { key: Key::B, pressed: true, ctrl: true };
            let r = after_events(false, seq![prefix, EventModel::Text(text)], pane);
            &&& !r.pending
            &&& r.run == match prefix_command(text, pane) {
                Some(args) => seq![args],
                None => Seq::empty(),
            }
            &&& r.sent == (prefix_command(text, pane) is Some)
        }),
{
    let prefix = EventModel::Key { key: Key::B, pressed: true, ctrl: true };
    let events = seq![prefix, EventModel::Text(text)];
    let first = events.drop_last();
    assert(first.drop_last() =~= Seq::<EventModel>::empty());
    assert(first.last() == prefix);
    let start = after_events(false, first.drop_last(), pane);
    assert(start == (ForwardModel { pending: false, run: Seq::empty(), sent: false }));
    let mid = after_events(false, first, pane);
    assert(mid.pending);
    assert(mid.run =~= Seq::empty());
    let r = after_events(false, events, pane);
    assert(r.run =~= after_event(true, EventModel::Text(text), pane).run);
}

/// While no prefix key waits, a pressed key presses the key of its tmux name in the pane, with
/// Ctrl exactly if Ctrl was held; a letter with Ctrl is `C-` and that letter. A key without such
/// a name is not forwarded.
pub proof fn pressed_keys_reach_the_pane(key: Key, ctrl: bool, pane: Seq<char>)
    requires
        !(key == Key::B && ctrl),
    ensures
        ({
            let r = after_event(false, EventModel::Key { key, pressed: true, ctrl }, pane);
            &&& !r.pending
            &&& tmux_key(key, ctrl) matches Some(name) ==> r.sent && r.run == seq![
                seq!["send-keys"@, "-t"@, pane, name],
            ]
            &&& tmux_key(key, ctrl) is None ==> !r.sent && r.run.len() == 0
            &&& ctrl ==> (letter_on(key) matches Some(c) ==> r.sent && r.run == seq![
                seq!["send-keys"@, "-t"@, pane, seq!['C', '-', c]],
            ])
            &&& ctrl ==> (r.sent <==> letter_on(key) is Some)
        }),
{
    reveal_strlit("C-");
    if let Some(c) = letter_on(key) {
        assert("C-"@.push(c) =~= seq!['C', '-', c]);
    }
}

/// Every letter key has a letter of its own, in the order of the alphabet.
pub proof fn letters_are_those_of_the_alphabet()
    ensures
        letter_on(Key::A) == Some('a') && letter_on(Key::B) == Some('b') && letter_on(Key::C)
            == Some('c') && letter_on(Key::D) == Some('d') && letter_on(Key::E) == Some('e')
            && letter_on(Key::F) == Some('f') && letter_on(Key::G) == Some('g') && letter_on(Key::H)
            == Some('h') && letter_on(Key::I) == Some('i') && letter_on(Key::J) == Some('j')
            && letter_on(Key::K) == Some('k') && letter_on(Key::L) == Some('l') && letter_on(Key::M)
            == Some('m') && letter_on(Key::N) == Some('n') && letter_on(Key::O) == Some('o')
            && letter_on(Key::P) == Some('p') && letter_on(Key::Q) == Some('q') && letter_on(Key::R)
            == Some('r') && letter_on(Key::S) == Some('s') && letter_on(Key::T) == Some('t')
            && letter_on(Key::U) == Some('u') && letter_on(Key::V) == Some('v') && letter_on(Key::W)
            == Some('w') && letter_on(Key::X) == Some('x') && letter_on(Key::Y) == Some('y')
            && letter_on(Key::Z) == Some('z'),
{
}

/// While no prefix key waits, entered text is typed in the pane as it is.
pub proof fn entered_text_is_typed(text: Seq<char>, pane: Seq<char>)
    ensures
        ({
            let r = after_event(false, EventModel::Text(text), pane);
            &&& !r.pending
            &&& r.sent
            &&& text.len() > 0 ==> r.run == seq![seq!["send-keys"@, "-t"@, pane, "-l"@, text]]
            &&& text.len() == 0 ==> r.run.len() == 0
        }),
{
}

/// Ctrl and B wait for the next key, whether they waited before or not, and send nothing.
pub proof fn prefix_key_waits(pending: bool, pane: Seq<char>)
    ensures
        ({
            let r = after_event(
                pending,
                EventModel::Key { key: Key::B, pressed: true, ctrl: true },
                pane,
            );
            r.pending && !r.sent && r.run.len() == 0
        }),
{
}

/// Behind Ctrl and B an arrow key selects the pane in its direction, and nothing waits any more.
pub proof fn prefixed_arrows_select_panes(key: Key, ctrl: bool, pane: Seq<char>)
    requires
        key == Key::ArrowUp || key == Key::ArrowDown || key == Key::ArrowLeft || key
            == Key::ArrowRight,
    ensures
        ({
            let prefix = EventModel::Key { key: Key::B, pressed: true, ctrl: true };
            let arrow = EventModel::Key { key, pressed: true, ctrl };
            let r = after_events(false, seq![prefix, arrow], pane);
            &&& !r.pending
            &&& r.sent
            &&& key == Key::ArrowUp ==> r.run == seq![seq!["select-pane"@, "-U"@, "-t"@, pane]]
            &&& key == Key::ArrowDown ==> r.run == seq![seq!["select-pane"@, "-D"@, "-t"@, pane]]
            &&& key == Key::ArrowLeft ==> r.run == seq![seq!["select-pane"@, "-L"@, "-t"@, pane]]
            &&& key == Key::ArrowRight ==> r.run == seq![seq!["select-pane"@, "-R"@, "-t"@, pane]]
        }),
{
    let prefix = EventModel::Key { key: Key::B, pressed: true, ctrl: true };
    let arrow = EventModel::Key { key, pressed: true, ctrl };
    commands_behind_the_prefix("Up"@, pane);
    commands_behind_the_prefix("Down"@, pane);
    commands_behind_the_prefix("Left"@, pane);
    commands_behind_the_prefix("Right"@, pane);
    reveal_strlit("Up");
    reveal_strlit("Down");
    reveal_strlit("Left");
    reveal_strlit("Right");
    assert("Up"@.len() == 2 && "Down"@.len() == 4 && "Left"@.len() == 4 && "Right"@.len() == 5);
    assert("Down"@[0] == 'D' && "Left"@[0] == 'L');
    portions_of_events_add_up(false, seq![prefix], seq![arrow], pane);
    assert(seq![prefix] + seq![arrow] =~= seq![prefix, arrow]);
    one_event_alone(false, prefix, pane);
    one_event_alone(true, arrow, pane);
    let r = after_events(false, seq![prefix, arrow], pane);
    assert(r.run =~= after_event(true, arrow, pane).run);
}

/// One event alone leads to what that event leads to.
pub proof fn one_event_alone(pending: bool, event: EventModel, pane: Seq<char>)
    ensures
        after_events(pending, seq![event], pane) == after_event(pending, event, pane),
{
    assert(seq![event].drop_last() =~= Seq::<EventModel>::empty());
    let start = after_events(pending, seq![event].drop_last(), pane);
    assert(start == (ForwardModel { pending, run: Seq::empty(), sent: false }));
    assert(start.run + after_event(pending, event, pane).run =~= after_event(pending, event, pane).run);
}

/// While the prefix key waits, a key that is no arrow key changes nothing, and neither does
/// anything but keys and text at any time.
pub proof fn waiting_prefix_ignores_other_keys(pending: bool, key: Key, ctrl: bool, pane: Seq<char>)
    requires
        !(key == Key::B && ctrl),
        key != Key::ArrowUp && key != Key::ArrowDown && key != Key::ArrowLeft && key
            != Key::ArrowRight,
    ensures
        ({
            let r = after_event(true, EventModel::Key { key, pressed: true, ctrl }, pane);
            r.pending && !r.sent && r.run.len() == 0
        }),
        ({
            let r = after_event(pending, EventModel::Other, pane);
            r.pending == pending && !r.sent && r.run.len() == 0
        }),
{
}

/// Text behind the prefix key stands for the command that it stands for in tmux; any text but
/// these stands for none.
pub proof fn commands_behind_the_prefix(ch: Seq<char>, pane: Seq<char>)
    ensures
        ch == seq!['c'] ==> prefix_command(ch, pane) == Some(seq!["new-window"@]),
        ch == seq!['n'] ==> prefix_command(ch, pane) == Some(seq!["next-window"@]),
        ch == seq!['p'] ==> prefix_command(ch, pane) == Some(seq!["previous-window"@]),
        ch == seq!['l'] ==> prefix_command(ch, pane) == Some(seq!["last-window"@]),
        ch == seq!['w'] ==> prefix_command(ch, pane) == Some(seq!["choose-tree"@, "-t"@, pane]),
        ch == seq!['"'] ==> prefix_command(ch, pane) == Some(seq!["split-window"@, "-t"@, pane]),
        ch == seq!['%'] ==> prefix_command(ch, pane) == Some(
            seq!["split-window"@, "-h"@, "-t"@, pane],
        ),
        ch == seq!['x'] ==> prefix_command(ch, pane) == Some(seq!["kill-pane"@, "-t"@, pane]),
        ch == seq!['z'] ==> prefix_command(ch, pane) == Some(
            seq!["resize-pane"@, "-Z"@, "-t"@, pane],
        ),
        ch == seq![','] ==> prefix_command(ch, pane) == Some(
            seq!["command-prompt"@, "-t"@, pane, "-I"@, "#W"@, "rename-window -- '%%'"@],
        ),
        ch == seq!['['] ==> prefix_command(ch, pane) == Some(seq!["copy-mode"@, "-t"@, pane]),
        ch == seq!['o'] ==> prefix_command(ch, pane) == Some(
            seq!["select-pane"@, "-t"@, pane + seq!['.', '+']],
        ),
        ch == seq![';'] ==> prefix_command(ch, pane) == Some(seq!["last-pane"@]),
        ch == "Up"@ ==> prefix_command(ch, pane) == Some(seq!["select-pane"@, "-U"@, "-t"@, pane]),
        ch == "Down"@ ==> prefix_command(ch, pane) == Some(
            seq!["select-pane"@, "-D"@, "-t"@, pane],
        ),
        ch == "Left"@ ==> prefix_command(ch, pane) == Some(
            seq!["select-pane"@, "-L"@, "-t"@, pane],
        ),
        ch == "Right"@ ==> prefix_command(ch, pane) == Some(
            seq!["select-pane"@, "-R"@, "-t"@, pane],
        ),
        ch.len() == 1 && '0' <= ch[0] <= '9' ==> prefix_command(ch, pane) == Some(
            seq!["select-window"@, "-t"@, seq![':', ch[0]]],
        ),
        prefix_command(ch, pane) is Some ==> ch == "Up"@ || ch == "Down"@ || ch == "Left"@ || ch
            == "Right"@ || (ch.len() == 1 && ('0' <= ch[0] <= '9' || ch[0] == 'c' || ch[0] == 'n'
            || ch[0] == 'p' || ch[0] == 'l' || ch[0] == 'w' || ch[0] == '"' || ch[0] == '%' || ch[0]
            == 'x' || ch[0] == 'z' || ch[0] == ',' || ch[0] == '[' || ch[0] == 'o' || ch[0]
            == ';')),
{
    reveal_strlit("c");
    reveal_strlit("n");
    reveal_strlit("p");
    reveal_strlit("l");
    reveal_strlit("w");
    reveal_strlit("\"");
    reveal_strlit("%");
    reveal_strlit("x");
    reveal_strlit("z");
    reveal_strlit(",");
    reveal_strlit("[");
    reveal_strlit("o");
    reveal_strlit(";");
    reveal_strlit("Up");
    reveal_strlit("Down");
    reveal_strlit("Left");
    reveal_strlit("Right");
    reveal_strlit(":");
    reveal_strlit(".+");
    assert("c"@ =~= seq!['c']);
    assert("n"@ =~= seq!['n']);
    assert("p"@ =~= seq!['p']);
    assert("l"@ =~= seq!['l']);
    assert("w"@ =~= seq!['w']);
    assert("\""@ =~= seq!['"']);
    assert("%"@ =~= seq!['%']);
    assert("x"@ =~= seq!['x']);
    assert("z"@ =~= seq!['z']);
    assert(","@ =~= seq![',']);
    assert("["@ =~= seq!['[']);
    assert("o"@ =~= seq!['o']);
    assert(";"@ =~= seq![';']);
    assert(".+"@ =~= seq!['.', '+']);
    assert("Up"@.len() == 2 && "Down"@.len() == 4 && "Left"@.len() == 4 && "Right"@.len() == 5);
    assert("Down"@[0] == 'D' && "Left"@[0] == 'L');
    assert(seq!['c'][0] == 'c' && seq!['n'][0] == 'n' && seq!['p'][0] == 'p' && seq!['l'][0] == 'l'
        && seq!['w'][0] == 'w' && seq!['"'][0] == '"' && seq!['%'][0] == '%' && seq!['x'][0] == 'x'
        && seq!['z'][0] == 'z' && seq![','][0] == ',' && seq!['['][0] == '[' && seq!['o'][0] == 'o'
        && seq![';'][0] == ';');
    if ch.len() == 1 {
        assert(ch =~= seq![ch[0]]);
        assert(":"@ + ch =~= seq![':', ch[0]]);
    }
}

/// The model of an event tells what the event is.
pub proof fn event_models_tell_the_events(key: Key, pressed: bool, modifiers: Modifiers, text: String)
    ensures
        (InputEvent::Key { key, pressed, modifiers })@ == (EventModel::Key {
            key,
            pressed,
            ctrl: modifiers.ctrl,
        }),
        InputEvent::Text(text)@ == EventModel::Text(text@),
        InputEvent::Other@ == EventModel::Other,
{
}

} // verus!
