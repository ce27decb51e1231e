//! What is written on the dashboard, and where.

use vstd::arithmetic::div_mod::{lemma_fundamental_div_mod, lemma_fundamental_div_mod_converse};
use vstd::prelude::*;
use vstd::string::*;
use crate::app::{App, attention_total, split_pane_key};
use crate::pane::{PaneInfo, PaneModel, PaneStatus, WindowInfo, stripped};
use crate::ssh::beginning;
use crate::text::{chars_of, decimal, decimal_of, split_first, string_of, texts};
use crate::tmux::pane_total;

verus! {

/// The number of columns for `count` tiles. Beyond nine tiles it is `estimate`, as far as
/// that is at least two and at most the number of tiles.
pub open spec fn columns(count: int, estimate: int) -> int {
    if count <= 1 {
        1
    } else if count <= 4 {
        2
    } else if count <= 9 {
        3
    } else if estimate <= 2 {
        2
    } else if estimate <= count {
        estimate
    } else {
        count
    }
}

/// The number of columns for `count` tiles.
pub fn compute_columns(count: usize, estimate: usize) -> (r: usize)
    ensures
        r == columns(count as int, estimate as int),
        count <= 1 ==> r == 1,
        2 <= count <= 4 ==> r == 2,
        5 <= count <= 9 ==> r == 3,
        10 <= count && estimate < 2 ==> r == 2,
        10 <= count && 2 <= estimate <= count ==> r == estimate,
        10 <= count && count < estimate ==> r == count,
{
    if count <= 1 {
        return 1;
    }
    if count <= 4 {
        return 2;
    }
    if count <= 9 {
        return 3;
    }
    let wide: usize = if estimate < 2 { 2 } else { estimate };
    if wide <= count {
        wide
    } else {
        count
    }
}

/// The number of rows for `count` tiles in `cols` columns.
pub open spec fn rows(count: int, cols: int) -> int {
    (count + cols - 1) / cols
}

proof fn rows_are_filled_rows_and_a_rest(count: int, cols: int)
    requires
        0 <= count,
        0 < cols,
    ensures
        rows(count, cols) == count / cols + if count % cols == 0 {
            0int
        } else {
            1int
        },
{
    let q = count / cols;
    let r = count % cols;
    lemma_fundamental_div_mod(count, cols);
    if r == 0 {
        lemma_fundamental_div_mod_converse(count + cols - 1, cols, q, cols - 1);
    } else {
        assert(cols * (q + 1) == cols * q + cols) by (nonlinear_arith);
        lemma_fundamental_div_mod_converse(count + cols - 1, cols, q + 1, r - 1);
    }
}

/// The number of rows for `count` tiles in `cols` columns.
pub fn compute_rows(count: usize, cols: usize) -> (r: usize)
    requires
        cols > 0,
    ensures
        r == rows(count as int, cols as int),
{
    proof {
        rows_are_filled_rows_and_a_rest(count as int, cols as int);
        lemma_fundamental_div_mod(count as int, cols as int);
    }
    if count % cols == 0 {
        count / cols
    } else {
        assert(count / cols < count) by (nonlinear_arith)
            requires
                count == cols * (count / cols) + count % cols,
                count % cols > 0,
                cols > 0,
        ;
        count / cols + 1
    }
}

/// Whether a row ends after tile `i`.
pub fn ends_row(i: usize, cols: usize) -> (r: bool)
    requires
        cols > 0,
        i < usize::MAX,
    ensures
        r == ((i + 1) % cols as int == 0),
{
    (i + 1) % cols == 0
}

/// There is at least one column and, as soon as there is a tile, no more columns than tiles.
/// The grid holds all tiles, and no row of it is empty.
pub proof fn grid_holds_the_tiles(count: int, estimate: int)
    requires
        0 <= count,
    ensures
        ({
            let cols = columns(count, estimate);
            &&& 1 <= cols
            &&& count >= 1 ==> cols <= count
            &&& count <= rows(count, cols) * cols
            &&& count > 0 ==> (rows(count, cols) - 1) * cols < count
        }),
{
    let cols = columns(count, estimate);
    let q = count / cols;
    rows_are_filled_rows_and_a_rest(count, cols);
    lemma_fundamental_div_mod(count, cols);
    assert((q + 1) * cols == cols * q + cols) by (nonlinear_arith);
    assert(q * cols == cols * q) by (nonlinear_arith);
    assert((q - 1) * cols == cols * q - cols) by (nonlinear_arith);
}

/// What stands in the corner of a pane.
pub open spec fn badge(status: PaneStatus, focused: bool) -> Option<Seq<char>> {
    if focused {
        Some("INPUT"@)
    } else if status == PaneStatus::NeedsAttention {
        Some(status.word())
    } else {
        None
    }
}

/// What stands in the corner of a pane: that it gets the input, or that it waits.
pub fn pane_badge(status: PaneStatus, focused: bool) -> (r: Option<&'static str>)
    ensures
        match r {
            Some(text) => badge(status, focused) == Some(text@),
            None => badge(status, focused) is None,
        },
        focused ==> (r matches Some(text) && text@ == "INPUT"@),
        !focused && status == PaneStatus::NeedsAttention ==> (r matches Some(text) && text@
            == "WAITING"@),
        !focused && status != PaneStatus::NeedsAttention ==> r is None,
{
    if focused {
        Some("INPUT")
    } else {
        match status {
            PaneStatus::NeedsAttention => Some("WAITING"),
            _ => None,
        }
    }
}

/// How many panes a window has, if there is more than one.
pub fn pane_count_label(window: &WindowInfo) -> (r: Option<String>)
    ensures
        r is Some <==> window@.panes.len() > 1,
        r matches Some(label) ==> label@ == decimal(window@.panes.len()) + " panes"@,
{
    if window.panes.len() <= 1 {
        return None;
    }
    let mut r = decimal_of(window.panes.len() as u128);
    r.append(" panes");
    Some(r)
}

/// A line as it is shown where `max_chars` characters fit; a blank for an empty line.
pub open spec fn fitted(line: Seq<char>, max_chars: int) -> Seq<char> {
    if line.len() == 0 {
        " "@
    } else {
        beginning(line, max_chars)
    }
}

/// The last lines of a pane, as they are shown where `max_lines` lines of `max_chars`
/// characters fit.
pub open spec fn shown_lines(pane: PaneModel, max_lines: int, max_chars: int) -> Seq<Seq<char>> {
    let skipped = if pane.content.len() > max_lines { pane.content.len() - max_lines } else { 0 };
    Seq::new(
        (pane.content.len() - skipped) as nat,
        |i: int| fitted(stripped(pane.content[skipped + i]), max_chars),
    )
}

fn fit(line: &str, max_chars: usize) -> (r: String)
    ensures
        r@ == fitted(line@, max_chars as int),
{
    if line.is_empty() {
        return " ".to_owned();
    }
    let cs = chars_of(line);
    let n: usize = if cs.len() > max_chars { max_chars } else { cs.len() };
    let r = string_of(cs.as_slice(), 0, n);
    assert(r@ =~= fitted(line@, max_chars as int));
    r
}

/// The last lines of a pane, as they are shown where `max_lines` lines of `max_chars`
/// characters fit.
pub fn visible_lines(pane: &PaneInfo, max_lines: usize, max_chars: usize) -> (r: Vec<String>)
    ensures
        texts(r@) == shown_lines(pane@, max_lines as int, max_chars as int),
{
    let plain = pane.plain_content();
    let ghost all = texts(plain@);
    let n = plain.len();
    assert(all.len() == pane@.content.len());
    let skipped: usize = if n > max_lines { n - max_lines } else { 0 };
    let mut r: Vec<String> = Vec::new();
    let mut i: usize = skipped;
    while i < n
        invariant
            all == texts(plain@),
            n == plain@.len(),
            skipped <= i <= n,
            r@.len() == i - skipped,
            forall|k: int|
                0 <= k < r@.len() ==> (#[trigger] r@[k])@ == fitted(
                    all[skipped + k],
                    max_chars as int,
                ),
        decreases n - i,
    {
        r.push(fit(plain[i].as_str(), max_chars));
        i += 1;
    }
    assert(texts(r@) =~= shown_lines(pane@, max_lines as int, max_chars as int));
    r
}

/// Never more lines are shown than fit, and none is longer than fits, where at least one
/// character does.
pub proof fn shown_lines_fit(pane: PaneModel, max_lines: int, max_chars: int)
    requires
        0 <= max_lines,
        1 <= max_chars,
    ensures
        shown_lines(pane, max_lines, max_chars).len() <= max_lines,
        forall|i: int|
            0 <= i < shown_lines(pane, max_lines, max_chars).len() ==> (#[trigger] shown_lines(
                pane,
                max_lines,
                max_chars,
            )[i]).len() <= max_chars,
{
    reveal_strlit(" ");
}

impl<S> App<S> {
    /// How many panes need attention, if any do.
    pub fn attention_label(&self) -> (r: Option<String>)
        ensures
            r is Some <==> attention_total(self@.windows) > 0,
            r matches Some(label) ==> label@ == decimal(attention_total(self@.windows))
                + " needs attention"@,
    {
        let attention = self.total_attention();
        if attention == 0 {
            return None;
        }
        let mut r = decimal_of(attention);
        r.append(" needs attention");
        Some(r)
    }

    /// The name of a host, marked if the host has an error.
    pub fn host_label(&self, host: &str) -> (r: String)
        ensures
            r@ == if self@.errors.contains_key(host@) {
                host@ + " !"@
            } else {
                host@
            },
    {
        let mut r = host.to_owned();
        if self.connection_error(host).is_some() {
            r.append(" !");
        }
        r
    }

    /// Which windows are shown.
    pub fn showing_label(&self) -> (r: &'static str)
        ensures
            r@ == if self@.only_attention {
                "Showing: attention only"@
            } else {
                "Showing: all"@
            },
    {
        if self.shows_only_attention() {
            "Showing: attention only"
        } else {
            "Showing: all"
        }
    }

    /// How many windows are hidden, if any are.
    pub fn hidden_label(&self) -> (r: Option<String>)
        ensures
            r is Some <==> self@.hidden.len() > 0,
            r matches Some(label) ==> label@ == decimal(self@.hidden.len()) + " hidden"@,
    {
        let hidden = self.hidden_count();
        if hidden == 0 {
            return None;
        }
        let mut r = decimal_of(hidden as u128);
        r.append(" hidden");
        Some(r)
    }

    /// How many windows and panes there are.
    pub fn totals_label(&self) -> (r: String)
        ensures
            r@ == decimal(self@.windows.len()) + " windows / "@ + decimal(
                pane_total(self@.windows),
            ) + " panes"@,
    {
        let windows = self.windows();
        assert(self@.windows.len() == windows@.len());
        let mut r = decimal_of(windows.len() as u128);
        r.append(" windows / ");
        r.append(decimal_of(self.total_panes()).as_str());
        r.append(" panes");
        r
    }

    /// The pane that gets the input, if a pane is focused.
    pub fn input_label(&self) -> (r: Option<String>)
        ensures
            match self@.focused {
                Some(key) => match split_first(key, '\t') {
                    Some((host, id)) => r matches Some(label) && label@ == "INPUT: "@ + host + ":"@
                        + id,
                    None => r is None,
                },
                None => r is None,
            },
    {
        match self.focused_pane() {
            Some(key) => match split_pane_key(key) {
                Some((host, pane_id)) => {
                    let mut r = "INPUT: ".to_owned();
                    r.append(host);
                    r.append(":");
                    r.append(pane_id);
                    Some(r)
                },
                None => None,
            },
            None => None,
        }
    }
}

/// There are just as many rows as the tiles need: they hold all of them, and one row fewer would
/// not.
pub proof fn rows_are_just_enough(count: int, cols: int)
    requires
        0 <= count,
        0 < cols,
    ensures
        count <= rows(count, cols) * cols,
        (rows(count, cols) - 1) * cols < count,
{
    let q = count / cols;
    rows_are_filled_rows_and_a_rest(count, cols);
    lemma_fundamental_div_mod(count, cols);
    assert((q + 1) * cols == cols * q + cols) by (nonlinear_arith);
    assert(q * cols == cols * q) by (nonlinear_arith);
    assert((q - 1) * cols == cols * q - cols) by (nonlinear_arith);
}

/// The lines shown are the last lines of the pane, as many as fit, each without its escape
/// sequences and as far as it fits, and a blank for an empty one: counted from the end, line by
/// line.
pub proof fn last_lines_are_shown(pane: PaneModel, max_lines: int, max_chars: int, back: int)
    requires
        0 <= max_lines,
        0 <= max_chars,
    ensures
        ({
            let shown = shown_lines(pane, max_lines, max_chars);
            &&& shown.len() == if pane.content.len() <= max_lines {
                pane.content.len() as int
            } else {
                max_lines
            }
            &&& 0 <= back < shown.len() ==> {
                let line = shown[shown.len() - 1 - back];
                let plain = stripped(pane.content[pane.content.len() - 1 - back]);
                &&& plain.len() == 0 ==> line == seq![' ']
                &&& 0 < plain.len() <= max_chars ==> line == plain
                &&& max_chars < plain.len() ==> line == plain.take(max_chars)
            }
        }),
{
    reveal_strlit(" ");
    assert(" "@ =~= seq![' ']);
}

} // verus!
