//! Panes and windows as they are shown.

use vstd::prelude::*;
use vstd::string::*;
use crate::text::{chars_of, texts};

verus! {

/// What a pane is doing.
#[derive(Debug, Clone, Copy, PartialEq, Eq, Structural)]
pub enum PaneStatus {
    Active,
    Idle,
    NeedsAttention,
    Disconnected,
}

/// A colour with premultiplied alpha.
#[derive(Debug, Clone, Copy, PartialEq, Eq, Structural)]
pub struct Rgba {
    pub r: u8,
    pub g: u8,
    pub b: u8,
    pub a: u8,
}

/// `egui::Color32::from_rgb`: the opaque colour with these three components, that is, with
/// alpha 255. Its four bytes are read off with `Color32::to_array`.
#[verifier::external_body]
fn opaque_rgb(r: u8, g: u8, b: u8) -> (c: Rgba)
    ensures
        c == (Rgba { r, g, b, a: 255 }),
{
    let [r, g, b, a] = egui::Color32::from_rgb(r, g, b).to_array();
    Rgba { r, g, b, a }
}

impl PaneStatus {
    /// The colour of a border around something with this status.
    pub open spec fn border(self) -> Rgba {
        match self {
            PaneStatus::NeedsAttention => Rgba { r: 220, g: 50, b: 50, a: 255 },
            PaneStatus::Active => Rgba { r: 50, g: 180, b: 50, a: 255 },
            PaneStatus::Idle => Rgba { r: 100, g: 100, b: 100, a: 255 },
            PaneStatus::Disconnected => Rgba { r: 180, g: 100, b: 30, a: 255 },
        }
    }

    /// The colour of a border around something with this status.
    pub fn border_color(&self) -> (c: Rgba)
        ensures
            c == self.border(),
            c == (match *self {
                PaneStatus::NeedsAttention => Rgba { r: 220, g: 50, b: 50, a: 255 },
                PaneStatus::Active => Rgba { r: 50, g: 180, b: 50, a: 255 },
                PaneStatus::Idle => Rgba { r: 100, g: 100, b: 100, a: 255 },
                PaneStatus::Disconnected => Rgba { r: 180, g: 100, b: 30, a: 255 },
            }),
    {
        match self {
            PaneStatus::NeedsAttention => opaque_rgb(220, 50, 50),
            PaneStatus::Active => opaque_rgb(50, 180, 50),
            PaneStatus::Idle => opaque_rgb(100, 100, 100),
            PaneStatus::Disconnected => opaque_rgb(180, 100, 30),
        }
    }

    /// The word shown for this status.
    pub open spec fn word(self) -> Seq<char> {
        match self {
            PaneStatus::NeedsAttention => "WAITING"@,
            PaneStatus::Active => "ACTIVE"@,
            PaneStatus::Idle => "IDLE"@,
            PaneStatus::Disconnected => "DISCONNECTED"@,
        }
    }

    /// The word shown for this status.
    pub fn label(&self) -> (r: &str)
        ensures
            r@ == self.word(),
            r@ == match *self {
                PaneStatus::NeedsAttention => "WAITING"@,
                PaneStatus::Active => "ACTIVE"@,
                PaneStatus::Idle => "IDLE"@,
                PaneStatus::Disconnected => "DISCONNECTED"@,
            },
    {
        match self {
            PaneStatus::NeedsAttention => "WAITING",
            PaneStatus::Active => "ACTIVE",
            PaneStatus::Idle => "IDLE",
            PaneStatus::Disconnected => "DISCONNECTED",
        }
    }
}

/// Geometry of a pane within its window, in tmux cells (columns and rows).
#[derive(Debug, Clone, Copy, PartialEq, Eq, Structural)]
pub struct PaneGeometry {
    pub left: u32,
    pub top: u32,
    pub width: u32,
    pub height: u32,
}

/// One pane and the lines on it.
#[derive(Debug, Clone)]
pub struct PaneInfo {
    pub id: String,
    pub index: u32,
    pub geometry: PaneGeometry,
    pub status: PaneStatus,
    pub content: Vec<String>,
}

/// The model of a [`PaneInfo`].
#[verifier::ext_equal]
pub struct PaneModel {
    pub id: Seq<char>,
    pub index: u32,
    pub geometry: PaneGeometry,
    pub status: PaneStatus,
    pub content: Seq<Seq<char>>,
}

impl View for PaneInfo {
    type V = PaneModel;

    open spec fn view(&self) -> PaneModel {
        PaneModel {
            id: self.id@,
            index: self.index,
            geometry: self.geometry,
            status: self.status,
            content: texts(self.content@),
        }
    }
}

/// A tmux window with one or more panes in a split layout.
#[derive(Debug, Clone)]
pub struct WindowInfo {
    pub id: String,
    pub host: String,
    pub session: String,
    pub window_index: u32,
    pub window_name: String,
    pub width: u32,
    pub height: u32,
    pub panes: Vec<PaneInfo>,
}

/// The model of a [`WindowInfo`].
#[verifier::ext_equal]
pub struct WindowModel {
    pub id: Seq<char>,
    pub host: Seq<char>,
    pub session: Seq<char>,
    pub window_index: u32,
    pub window_name: Seq<char>,
    pub width: u32,
    pub height: u32,
    pub panes: Seq<PaneModel>,
}

/// The models of a sequence of panes.
pub open spec fn pane_models(v: Seq<PaneInfo>) -> Seq<PaneModel> {
    Seq::new(v.len(), |i: int| v[i]@)
}

/// The models of a sequence of windows.
pub open spec fn window_models(v: Seq<WindowInfo>) -> Seq<WindowModel> {
    Seq::new(v.len(), |i: int| v[i]@)
}

impl View for WindowInfo {
    type V = WindowModel;

    open spec fn view(&self) -> WindowModel {
        WindowModel {
            id: self.id@,
            host: self.host@,
            session: self.session@,
            window_index: self.window_index,
            window_name: self.window_name@,
            width: self.width,
            height: self.height,
            panes: pane_models(self.panes@),
        }
    }
}

/// The escape character that starts a control sequence.
pub const ESCAPE: char = '\x1b';

/// What is left of `s` after the first character from `@` to `~`, which ends a control
/// sequence; nothing if no such character follows.
pub open spec fn after_final(s: Seq<char>) -> Seq<char>
    decreases s.len(),
{
    if s.len() == 0 {
        s
    } else if '@' <= s[0] <= '~' {
        s.skip(1)
    } else {
        after_final(s.skip(1))
    }
}

proof fn after_final_is_shorter(s: Seq<char>)
    ensures
        after_final(s).len() <= s.len(),
    decreases s.len(),
{
    if s.len() > 0 && !('@' <= s[0] <= '~') {
        after_final_is_shorter(s.skip(1));
    }
}

/// `s` without its escape sequences: an escape character goes together with the character
/// after it, and if that is `[`, with everything up to the final character of the sequence.
pub open spec fn stripped(s: Seq<char>) -> Seq<char>
    decreases s.len(),
    via stripped_decreases
{
    if s.len() == 0 {
        s
    } else if s[0] != ESCAPE {
        seq![s[0]] + stripped(s.skip(1))
    } else if s.len() == 1 {
        Seq::empty()
    } else if s[1] == '[' {
        stripped(after_final(s.skip(2)))
    } else {
        stripped(s.skip(2))
    }
}

#[via_fn]
proof fn stripped_decreases(s: Seq<char>) {
    if s.len() >= 2 {
        after_final_is_shorter(s.skip(2));
    }
}

/// No escape character is left in a stripped text.
pub proof fn stripped_has_no_escape(s: Seq<char>)
    ensures
        !stripped(s).contains(ESCAPE),
    decreases s.len(),
{
    if s.len() == 0 {
    } else if s[0] != ESCAPE {
        stripped_has_no_escape(s.skip(1));
        let rest = stripped(s.skip(1));
        let all = seq![s[0]] + rest;
        if all.contains(ESCAPE) {
            let k = choose|k: int| 0 <= k < all.len() && all[k] == ESCAPE;
            assert(rest[k - 1] == ESCAPE);
        }
    } else if s.len() == 1 {
    } else if s[1] == '[' {
        after_final_is_shorter(s.skip(2));
        stripped_has_no_escape(after_final(s.skip(2)));
    } else {
        stripped_has_no_escape(s.skip(2));
    }
}

/// Text before the first escape character stays as it is.
pub proof fn stripping_keeps_plain_text(plain: Seq<char>, s: Seq<char>)
    requires
        !plain.contains(ESCAPE),
    ensures
        stripped(plain + s) == plain + stripped(s),
    decreases plain.len(),
{
    if plain.len() == 0 {
        assert(plain + s =~= s);
        assert(plain + stripped(s) =~= stripped(s));
    } else {
        let rest = plain.skip(1);
        assert(plain[0] != ESCAPE);
        if rest.contains(ESCAPE) {
            let k = choose|k: int| 0 <= k < rest.len() && rest[k] == ESCAPE;
            assert(plain[k + 1] == ESCAPE);
        }
        stripping_keeps_plain_text(rest, s);
        assert((plain + s).skip(1) =~= rest + s);
        assert(seq![plain[0]] + (rest + stripped(s)) =~= plain + stripped(s));
    }
}

/// Stripping a second time changes nothing.
pub proof fn stripping_is_idempotent(s: Seq<char>)
    ensures
        stripped(stripped(s)) == stripped(s),
{
    let t = stripped(s);
    stripped_has_no_escape(s);
    stripping_keeps_plain_text(t, Seq::empty());
    assert(t + Seq::<char>::empty() =~= t);
}

/// Removes the escape sequences from `s`.
pub fn strip_ansi(s: &str) -> (r: String)
    ensures
        r@ == stripped(s@),
{
    let cs = chars_of(s);
    let mut r = String::new();
    let mut i: usize = 0;
    assert(s@.skip(0) =~= s@);
    assert(r@ + stripped(s@) =~= stripped(s@));
    while i < cs.len()
        invariant
            cs@ == s@,
            i <= cs@.len(),
            r@ + stripped(s@.skip(i as int)) == stripped(s@),
        decreases cs@.len() - i,
    {
        let ghost rest = s@.skip(i as int);
        let c = cs[i];
        if c == ESCAPE {
            i += 1;
            if i < cs.len() {
                let next = cs[i];
                i += 1;
                assert(rest.skip(2) =~= s@.skip(i as int));
                if next == '[' {
                    let ghost first = i;
                    let mut ended = false;
                    while i < cs.len() && !ended
                        invariant
                            cs@ == s@,
                            first <= i <= cs@.len(),
                            after_final(rest.skip(2)) == if ended {
                                s@.skip(i as int)
                            } else {
                                after_final(s@.skip(i as int))
                            },
                        decreases cs@.len() - i,
                    {
                        ended = '@' <= cs[i] && cs[i] <= '~';
                        assert(s@.skip(i as int).skip(1) =~= s@.skip(i + 1));
                        i += 1;
                    }
                }
            } else {
                assert(r@ + Seq::<char>::empty() =~= r@);
            }
        } else {
            assert(rest.skip(1) =~= s@.skip(i + 1));
            assert(r@ + (seq![c] + stripped(s@.skip(i + 1))) =~= r@.push(c) + stripped(
                s@.skip(i + 1),
            ));
            r.push(c);
            i += 1;
        }
    }
    assert(s@.skip(i as int) =~= Seq::<char>::empty());
    assert(r@ + Seq::<char>::empty() =~= r@);
    r
}

impl PaneInfo {
    /// The lines of the pane without escape sequences.
    pub fn plain_content(&self) -> (r: Vec<String>)
        ensures
            texts(r@) == self@.content.map_values(|line: Seq<char>| stripped(line)),
    {
        let mut r: Vec<String> = Vec::new();
        let mut i: usize = 0;
        while i < self.content.len()
            invariant
                i <= self.content@.len(),
                r@.len() == i,
                forall|k: int| 0 <= k < i ==> (#[trigger] r@[k])@ == stripped(self.content@[k]@),
            decreases self.content@.len() - i,
        {
            r.push(strip_ansi(self.content[i].as_str()));
            i += 1;
        }
        assert(texts(r@) =~= self@.content.map_values(|line: Seq<char>| stripped(line)));
        r
    }
}

/// Whether one of the panes has the status `status`.
pub open spec fn some_pane_is(panes: Seq<PaneModel>, status: PaneStatus) -> bool {
    exists|i: int| 0 <= i < panes.len() && (#[trigger] panes[i]).status == status
}

/// How many of the panes need attention.
pub open spec fn attention(panes: Seq<PaneModel>) -> nat
    decreases panes.len(),
{
    if panes.len() == 0 {
        0
    } else {
        attention(panes.drop_last()) + if panes.last().status == PaneStatus::NeedsAttention {
            1nat
        } else {
            0nat
        }
    }
}

/// At most every pane needs attention, and some pane does exactly if their number is not zero.
pub proof fn attention_counts(panes: Seq<PaneModel>)
    ensures
        attention(panes) <= panes.len(),
        attention(panes) > 0 <==> some_pane_is(panes, PaneStatus::NeedsAttention),
    decreases panes.len(),
{
    if panes.len() > 0 {
        let before = panes.drop_last();
        attention_counts(before);
        if panes.last().status == PaneStatus::NeedsAttention {
            assert(panes[panes.len() - 1].status == PaneStatus::NeedsAttention);
        }
        if some_pane_is(before, PaneStatus::NeedsAttention) {
            let i = choose|i: int|
                0 <= i < before.len() && (#[trigger] before[i]).status
                    == PaneStatus::NeedsAttention;
            assert(panes[i].status == PaneStatus::NeedsAttention);
        }
        if some_pane_is(panes, PaneStatus::NeedsAttention) && panes.last().status
            != PaneStatus::NeedsAttention {
            let i = choose|i: int|
                0 <= i < panes.len() && (#[trigger] panes[i]).status == PaneStatus::NeedsAttention;
            assert(before[i].status == PaneStatus::NeedsAttention);
        }
    }
}

impl WindowModel {
    /// The status that the whole window is shown with: that of the pane which wants looking
    /// at most.
    pub open spec fn worst(self) -> PaneStatus {
        if some_pane_is(self.panes, PaneStatus::NeedsAttention) {
            PaneStatus::NeedsAttention
        } else if some_pane_is(self.panes, PaneStatus::Active) {
            PaneStatus::Active
        } else if some_pane_is(self.panes, PaneStatus::Disconnected) {
            PaneStatus::Disconnected
        } else {
            PaneStatus::Idle
        }
    }
}

/// A window is shown as needing attention exactly if one of its panes counts as such.
pub proof fn worst_status_agrees_with_attention(w: WindowModel)
    ensures
        w.worst() == PaneStatus::NeedsAttention <==> attention(w.panes) > 0,
{
    attention_counts(w.panes);
}

impl WindowInfo {
    /// Host, session and window name in one line.
    pub fn display_label(&self) -> (r: String)
        ensures
            r@ == self@.host + " | "@ + self@.session + ":"@ + self@.window_name,
            r@ == self.host@ + " | "@ + self.session@ + ":"@ + self.window_name@,
    {
        let mut r = self.host.clone();
        r.append(" | ");
        r.append(self.session.as_str());
        r.append(":");
        r.append(self.window_name.as_str());
        r
    }

    fn has_pane_with(&self, status: PaneStatus) -> (r: bool)
        ensures
            r == some_pane_is(self@.panes, status),
    {
        let mut i: usize = 0;
        while i < self.panes.len()
            invariant
                i <= self.panes@.len(),
                forall|k: int| 0 <= k < i ==> (#[trigger] self@.panes[k]).status != status,
            decreases self.panes@.len() - i,
        {
            assert(self@.panes[i as int].status == self.panes@[i as int].status);
            if self.panes[i].status == status {
                return true;
            }
            i += 1;
        }
        false
    }

    /// The status that the whole window is shown with.
    pub fn worst_status(&self) -> (r: &PaneStatus)
        ensures
            *r == self@.worst(),
    {
        if self.has_pane_with(PaneStatus::NeedsAttention) {
            return &PaneStatus::NeedsAttention;
        }
        if self.has_pane_with(PaneStatus::Active) {
            return &PaneStatus::Active;
        }
        if self.has_pane_with(PaneStatus::Disconnected) {
            return &PaneStatus::Disconnected;
        }
        &PaneStatus::Idle
    }

    /// How many panes of the window need attention.
    pub fn attention_count(&self) -> (r: usize)
        ensures
            r == attention(self@.panes),
    {
        let ghost all = self@.panes;
        let mut r: usize = 0;
        let mut i: usize = 0;
        while i < self.panes.len()
            invariant
                all == self@.panes,
                r <= i <= self.panes@.len(),
                r == attention(all.take(i as int)),
            decreases self.panes@.len() - i,
        {
            assert(all.take(i + 1).drop_last() =~= all.take(i as int));
            if self.panes[i].status == PaneStatus::NeedsAttention {
                r += 1;
            }
            i += 1;
        }
        assert(all.take(i as int) =~= all);
        r
    }
}

/// Every escape sequence vanishes and what follows it is left: one of `[`, parameters and a final
/// character from `@` to `~`, or one of a single other character. A sequence that does not end
/// takes the rest of the text along.
pub proof fn escape_sequences_vanish(params: Seq<char>, last: char, other: char, rest: Seq<char>)
    requires
        forall|i: int| 0 <= i < params.len() ==> !('@' <= #[trigger] params[i] <= '~'),
        '@' <= last <= '~',
        other != '[',
    ensures
        stripped(seq!['\x1b', '['] + params + seq![last] + rest) == stripped(rest),
        stripped(seq!['\x1b', other] + rest) == stripped(rest),
        stripped(seq!['\x1b', '['] + params) == Seq::<char>::empty(),
        stripped(seq!['\x1b']) == Seq::<char>::empty(),
{
    let whole = seq!['\x1b', '['] + params + seq![last] + rest;
    assert(whole.skip(2) =~= params + seq![last] + rest);
    final_character_ends(params, last, rest);
    assert((seq!['\x1b', other] + rest).skip(2) =~= rest);
    assert((seq!['\x1b', '['] + params).skip(2) =~= params);
    assert(stripped(Seq::<char>::empty()) == Seq::<char>::empty());
}

proof fn final_character_ends(params: Seq<char>, last: char, rest: Seq<char>)
    requires
        forall|i: int| 0 <= i < params.len() ==> !('@' <= #[trigger] params[i] <= '~'),
        '@' <= last <= '~',
    ensures
        after_final(params + seq![last] + rest) == rest,
        after_final(params) == Seq::<char>::empty(),
    decreases params.len(),
{
    let all = params + seq![last] + rest;
    if params.len() == 0 {
        assert(all.skip(1) =~= rest);
        assert(params =~= Seq::<char>::empty());
    } else {
        let shorter = params.skip(1);
        assert(!('@' <= params[0] <= '~'));
        assert forall|i: int| 0 <= i < shorter.len() implies !('@' <= #[trigger] shorter[i] <= '~') by {
            assert(shorter[i] == params[i + 1]);
        }
        final_character_ends(shorter, last, rest);
        assert(all.skip(1) =~= shorter + seq![last] + rest);
    }
}

/// The panes that need attention are counted one by one: their number is that of the panes left
/// when all others are taken away, and the numbers of two groups of panes add up.
pub proof fn attention_counts_panes(a: Seq<PaneModel>, b: Seq<PaneModel>)
    ensures
        attention(a) == a.filter(|p: PaneModel| p.status == PaneStatus::NeedsAttention).len(),
        attention(a + b) == attention(a) + attention(b),
    decreases a.len() + b.len(),
{
    reveal(Seq::filter);
    if a.len() > 0 {
        attention_counts_panes(a.drop_last(), Seq::empty());
    }
    if b.len() == 0 {
        assert(a + b =~= a);
    } else {
        attention_counts_panes(a, b.drop_last());
        assert((a + b).drop_last() =~= a + b.drop_last());
        assert((a + b).last() == b.last());
    }
}

/// A window is shown as needing attention if one of its panes does, else as active if one of
/// them is, else as disconnected if one of them is, and as idle if all of them are.
pub proof fn worst_status_ranks(w: WindowModel)
    ensures
        w.worst() == PaneStatus::NeedsAttention <==> exists|i: int|
            0 <= i < w.panes.len() && (#[trigger] w.panes[i]).status == PaneStatus::NeedsAttention,
        w.worst() == PaneStatus::Active <==> (exists|i: int|
            0 <= i < w.panes.len() && (#[trigger] w.panes[i]).status == PaneStatus::Active) && (
        forall|i: int|
            0 <= i < w.panes.len() ==> (#[trigger] w.panes[i]).status
                != PaneStatus::NeedsAttention),
        w.worst() == PaneStatus::Idle <==> forall|i: int|
            0 <= i < w.panes.len() ==> (#[trigger] w.panes[i]).status == PaneStatus::Idle,
{
}

/// The models hold what the panes and windows hold, field by field.
pub proof fn models_hold_the_fields(p: PaneInfo, w: WindowInfo, i: int)
    requires
        0 <= i < w.panes@.len(),
    ensures
        p@.id == p.id@ && p@.index == p.index && p@.geometry == p.geometry && p@.status == p.status
            && p@.content == texts(p.content@),
        w@.id == w.id@ && w@.host == w.host@ && w@.session == w.session@ && w@.window_index
            == w.window_index && w@.window_name == w.window_name@ && w@.width == w.width && w@.height
            == w.height,
        w@.panes.len() == w.panes@.len() && w@.panes[i] == w.panes@[i]@,
{
}

} // verus!
