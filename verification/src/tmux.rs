//! Talking to tmux: the commands, what they print, and the windows found in it.

use vstd::prelude::*;
use vstd::string::*;
use vstd::utf8::*;
use crate::pane::{PaneGeometry, PaneInfo, PaneModel, PaneStatus, WindowInfo, WindowModel, window_models};
use crate::text::{
    chars_of, contains, copies, decimal, decimal_reads_back, is_white_space, join, join_then_split, join_with, lines, lines_of,
    occurs_in, other_texts_are_no_numbers,
    parse_u32, slices, split, split_on, split_then_join, str_eq, str_le, strings, text_le,
    text_le_is_total, text_le_is_transitive, texts, u32_value, white_space,
};

verus! {

/// The text that `String::from_utf8_lossy` of std makes of `bytes`.
pub uninterp spec fn utf8_lossy(bytes: Seq<u8>) -> Seq<char>;

/// `String::from_utf8_lossy` of std: a text that depends on the bytes alone, and where they
/// are valid UTF-8, the text that they encode.
#[verifier::external_body]
pub(crate) fn from_utf8_lossy(bytes: &[u8]) -> (r: String)
    ensures
        r@ == utf8_lossy(bytes@),
        valid_utf8(bytes@) ==> r@ == decode_utf8(bytes@),
{
    String::from_utf8_lossy(bytes).into_owned()
}

/// What `tmux list-panes` is asked to print about each pane.
pub const LIST_PANES_FMT: &'static str = "#{session_name}\t#{window_id}\t#{window_index}\t#{window_name}\t#{window_width}\t#{window_height}\t#{pane_id}\t#{pane_index}\t#{pane_left}\t#{pane_top}\t#{pane_width}\t#{pane_height}\t#{pane_current_command}\t#{pane_pid}";

/// Where tmux runs: on this machine or behind a session of type `S`.
#[derive(Debug, Clone)]
pub enum TmuxRunner<S> {
    Local,
    Remote(S),
}

/// What running tmux takes.
pub enum Invocation<'a, S> {
    /// Start the program `tmux` here with these arguments.
    Spawn { args: Vec<String> },
    /// Have the session execute this command line.
    Execute { session: &'a S, command: String },
}

/// Whether a character is special to a shell: white space, and the characters that a shell gives
/// a meaning of their own where they stand unquoted in an argument.
pub open spec fn special(c: char) -> bool {
    ||| white_space(c)
    ||| c == '|' || c == '&' || c == ';' || c == '<' || c == '>' || c == '(' || c == ')'
    ||| c == '$' || c == '`' || c == '\\' || c == '"' || c == '\''
    ||| c == '*' || c == '?' || c == '[' || c == '#' || c == '~' || c == '!'
    ||| c == '{' || c == '}'
}

/// Whether one of the characters of `text` is special to a shell.
pub open spec fn has_special(text: Seq<char>) -> bool {
    exists|i: int| 0 <= i < text.len() && special(#[trigger] text[i])
}

/// `arg` as it stands between single quotes. A single quote cannot stand there: for each, the
/// quotes are closed, the quote follows behind a backslash, and the quotes are opened again.
pub open spec fn escaped(arg: Seq<char>) -> Seq<char>
    decreases arg.len(),
{
    if arg.len() == 0 {
        Seq::empty()
    } else if arg.last() == '\'' {
        escaped(arg.drop_last()) + seq!['\'', '\\', '\'', '\'']
    } else {
        escaped(arg.drop_last()).push(arg.last())
    }
}

/// An argument as it stands in a remote command line: in single quotes if one of its characters
/// is special, else as it is.
pub open spec fn quoted(arg: Seq<char>) -> Seq<char> {
    if has_special(arg) {
        "'"@ + escaped(arg) + "'"@
    } else {
        arg
    }
}

/// The command line that runs tmux with `args` on a remote shell.
pub open spec fn remote_command_line(args: Seq<Seq<char>>) -> Seq<char> {
    "tmux "@ + join(args.map_values(|arg: Seq<char>| quoted(arg)), " "@)
}

/// What the characters read so far mean for the next one.
pub enum ShellMode {
    /// It stands outside quotes.
    Bare,
    /// It stands between single quotes.
    Quoted,
    /// It follows a backslash outside quotes.
    Escaped,
}

/// How far a POSIX shell has come in reading the words of a command line.
#[verifier::ext_equal]
pub struct ShellState {
    /// The words that have ended.
    pub words: Seq<Seq<char>>,
    /// The word that has begun, if one has.
    pub word: Option<Seq<char>>,
    pub mode: ShellMode,
    /// Whether a character with a meaning of its own has stood outside quotes.
    pub stray: bool,
}

impl ShellState {
    /// The word that has begun; empty if none has.
    pub open spec fn begun(self) -> Seq<char> {
        match self.word {
            Some(word) => word,
            None => Seq::empty(),
        }
    }

    /// The state after the next character.
    pub open spec fn after(self, c: char) -> ShellState {
        match self.mode {
            ShellMode::Quoted => if c == '\'' {
                ShellState { mode: ShellMode::Bare, ..self }
            } else {
                ShellState { word: Some(self.begun().push(c)), ..self }
            },
            ShellMode::Escaped => ShellState {
                word: Some(self.begun().push(c)),
                mode: ShellMode::Bare,
                stray: self.stray || c == '\n',
                ..self
            },
            ShellMode::Bare => if c == '\'' {
                ShellState { word: Some(self.begun()), mode: ShellMode::Quoted, ..self }
            } else if c == '\\' {
                ShellState { mode: ShellMode::Escaped, ..self }
            } else if c == ' ' || c == '\t' {
                match self.word {
                    Some(word) => ShellState { words: self.words.push(word), word: None, ..self },
                    None => self,
                }
            } else {
                ShellState {
                    word: Some(self.begun().push(c)),
                    stray: self.stray || special(c),
                    ..self
                }
            },
        }
    }

    /// The words read so far, with the one that has begun.
    pub open spec fn all_words(self) -> Seq<Seq<char>> {
        match self.word {
            Some(word) => self.words.push(word),
            None => self.words,
        }
    }

    /// The state after `text`.
    pub open spec fn after_text(self, text: Seq<char>) -> ShellState
        decreases text.len(),
    {
        if text.len() == 0 {
            self
        } else {
            self.after_text(text.drop_last()).after(text.last())
        }
    }
}

/// The state before a command line is read.
pub open spec fn nothing_read() -> ShellState {
    ShellState { words: Seq::empty(), word: None, mode: ShellMode::Bare, stray: false }
}

/// The words that a shell reads in `line`: it is split at blanks outside single quotes, and
/// quotes and the backslashes outside them are taken away.
pub open spec fn shell_words(line: Seq<char>) -> Seq<Seq<char>> {
    nothing_read().after_text(line).all_words()
}

/// Whether `line` is nothing but words to a shell: no special character stands in it outside
/// quotes, but for the blanks between words and the quotes and backslashes themselves, and its
/// quotes are closed.
pub open spec fn only_words(line: Seq<char>) -> bool {
    let end = nothing_read().after_text(line);
    !end.stray && end.mode is Bare
}

proof fn texts_are_read_in_order(s: ShellState, a: Seq<char>, b: Seq<char>)
    ensures
        s.after_text(a + b) == s.after_text(a).after_text(b),
    decreases b.len(),
{
    if b.len() == 0 {
        assert(a + b =~= a);
    } else {
        texts_are_read_in_order(s, a, b.drop_last());
        assert((a + b).drop_last() =~= a + b.drop_last());
    }
}

proof fn one_character_is_read(s: ShellState, c: char)
    ensures
        s.after_text(seq![c]) == s.after(c),
{
    assert(seq![c].drop_last() =~= Seq::<char>::empty());
    assert(s.after_text(Seq::<char>::empty()) == s);
}

proof fn plain_text_is_read(s: ShellState, text: Seq<char>)
    requires
        s.mode is Bare,
        text.len() > 0,
        !has_special(text),
    ensures
        s.after_text(text) == (ShellState { word: Some(s.begun() + text), ..s }),
    decreases text.len(),
{
    let head = text.drop_last();
    assert(!special(text[text.len() - 1]));
    assert(s.begun() + text =~= (s.begun() + head).push(text.last()));
    if head.len() == 0 {
        assert(s.after_text(head) == s);
        assert(s.begun() + head =~= s.begun());
    } else {
        assert forall|i: int| 0 <= i < head.len() implies !special(#[trigger] head[i]) by {
            assert(head[i] == text[i]);
        }
        plain_text_is_read(s, head);
    }
}

proof fn escaped_text_is_read(s: ShellState, text: Seq<char>)
    requires
        s.mode is Quoted,
        s.word is Some,
    ensures
        s.after_text(escaped(text)) == (ShellState { word: Some(s.begun() + text), ..s }),
    decreases text.len(),
{
    if text.len() == 0 {
        assert(s.begun() + text =~= s.begun());
    } else {
        let head = text.drop_last();
        let before = s.after_text(escaped(head));
        escaped_text_is_read(s, head);
        assert(s.begun() + text =~= (s.begun() + head).push(text.last()));
        if text.last() == '\'' {
            let quote = seq!['\'', '\\', '\'', '\''];
            texts_are_read_in_order(s, escaped(head), quote);
            assert(quote.drop_last() =~= seq!['\'', '\\', '\'']);
            assert(quote.drop_last().drop_last() =~= seq!['\'', '\\']);
            assert(quote.drop_last().drop_last().drop_last() =~= seq!['\'']);
            one_character_is_read(before, '\'');
            let closed = before.after('\'');
            assert(before.after_text(seq!['\'', '\\']) == closed.after('\\'));
            assert(before.after_text(seq!['\'', '\\', '\'']) == closed.after('\\').after('\''));
            assert(before.after_text(quote) == closed.after('\\').after('\'').after('\''));
        } else {
            assert(escaped(text).drop_last() =~= escaped(head));
        }
    }
}

proof fn quoted_argument_is_read(s: ShellState, arg: Seq<char>)
    requires
        s.mode is Bare,
        s.word is None,
    ensures
        s.after_text(quoted(arg)) == if arg.len() == 0 {
            s
        } else {
            ShellState { word: Some(arg), ..s }
        },
{
    assert(Seq::<char>::empty() + arg =~= arg);
    if has_special(arg) {
        reveal_strlit("'");
        let mark = seq!['\''];
        assert("'"@ =~= mark);
        texts_are_read_in_order(s, mark + escaped(arg), mark);
        texts_are_read_in_order(s, mark, escaped(arg));
        one_character_is_read(s, '\'');
        let opened = s.after('\'');
        escaped_text_is_read(opened, arg);
        one_character_is_read(opened.after_text(escaped(arg)), '\'');
    } else if arg.len() > 0 {
        plain_text_is_read(s, arg);
    }
}

proof fn tmux_is_read()
    ensures
        nothing_read().after_text("tmux "@) == (ShellState { words: seq!["tmux"@], ..nothing_read() }),
{
    reveal_strlit("tmux ");
    reveal_strlit("tmux");
    let s = nothing_read();
    assert("tmux "@ =~= "tmux"@ + seq![' ']);
    texts_are_read_in_order(s, "tmux"@, seq![' ']);
    plain_text_is_read(s, "tmux"@);
    assert(Seq::<char>::empty() + "tmux"@ =~= "tmux"@);
    one_character_is_read(s.after_text("tmux"@), ' ');
    assert(Seq::<Seq<char>>::empty().push("tmux"@) =~= seq!["tmux"@]);
}

/// The texts among `v` that are not empty.
pub open spec fn non_empty(v: Seq<Seq<char>>) -> Seq<Seq<char>>
    decreases v.len(),
{
    if v.len() == 0 {
        v
    } else if v.last().len() == 0 {
        non_empty(v.drop_last())
    } else {
        non_empty(v.drop_last()).push(v.last())
    }
}

proof fn nothing_empty_to_drop(v: Seq<Seq<char>>)
    requires
        forall|i: int| 0 <= i < v.len() ==> (#[trigger] v[i]).len() > 0,
    ensures
        non_empty(v) == v,
    decreases v.len(),
{
    if v.len() > 0 {
        let head = v.drop_last();
        assert forall|i: int| 0 <= i < head.len() implies (#[trigger] head[i]).len() > 0 by {
            assert(head[i] == v[i]);
        }
        nothing_empty_to_drop(head);
        assert(v[v.len() - 1].len() > 0);
        assert(head.push(v.last()) =~= v);
    }
}

proof fn arguments_are_read(args: Seq<Seq<char>>)
    ensures
        ({
            let end = nothing_read().after_text(remote_command_line(args));
            &&& end.mode is Bare
            &&& !end.stray
            &&& end.all_words() == seq!["tmux"@] + non_empty(args)
        }),
    decreases args.len(),
{
    let s = nothing_read();
    let parts = args.map_values(|arg: Seq<char>| quoted(arg));
    tmux_is_read();
    if args.len() == 0 {
        assert(remote_command_line(args) =~= "tmux "@);
        assert(seq!["tmux"@] + non_empty(args) =~= seq!["tmux"@]);
    } else {
        let head = args.drop_last();
        let head_parts = head.map_values(|arg: Seq<char>| quoted(arg));
        assert(parts.drop_last() =~= head_parts);
        assert(parts.last() == quoted(args.last()));
        let known = seq!["tmux"@] + non_empty(head);
        let ready = ShellState { words: known, ..s };
        let line = if head.len() == 0 {
            "tmux "@
        } else {
            remote_command_line(head) + " "@
        };
        if head.len() == 0 {
            assert(known =~= seq!["tmux"@]);
        } else {
            arguments_are_read(head);
            reveal_strlit(" ");
            assert(" "@ =~= seq![' ']);
            texts_are_read_in_order(s, remote_command_line(head), seq![' ']);
            one_character_is_read(s.after_text(remote_command_line(head)), ' ');
        }
        assert(s.after_text(line) == ready);
        assert(remote_command_line(args) =~= line + quoted(args.last()));
        texts_are_read_in_order(s, line, quoted(args.last()));
        quoted_argument_is_read(ready, args.last());
        if args.last().len() > 0 {
            assert(known.push(args.last()) =~= seq!["tmux"@] + non_empty(args));
        }
    }
}

/// A remote shell hands tmux its arguments unchanged, but for empty ones, which it does not see:
/// the words of the command line are `tmux` and the arguments that are not empty, and nothing
/// else in the line means anything to the shell.
pub proof fn remote_arguments_arrive(args: Seq<Seq<char>>)
    ensures
        shell_words(remote_command_line(args)) == seq!["tmux"@] + non_empty(args),
        (forall|i: int| 0 <= i < args.len() ==> (#[trigger] args[i]).len() > 0) ==> shell_words(
            remote_command_line(args),
        ) == seq!["tmux"@] + args,
        only_words(remote_command_line(args)),
{
    arguments_are_read(args);
    if forall|i: int| 0 <= i < args.len() ==> (#[trigger] args[i]).len() > 0 {
        nothing_empty_to_drop(args);
    }
}

/// Whether a character is special to a shell.
fn is_special(c: char) -> (r: bool)
    ensures
        r == special(c),
{
    is_white_space(c) || c == '|' || c == '&' || c == ';' || c == '<' || c == '>' || c == '(' || c
        == ')' || c == '$' || c == '`' || c == '\\' || c == '"' || c == '\'' || c == '*' || c
        == '?' || c == '[' || c == '#' || c == '~' || c == '!' || c == '{' || c == '}'
}

/// Whether one of the characters is special to a shell.
fn needs_quotes(cs: &Vec<char>) -> (r: bool)
    ensures
        r == has_special(cs@),
{
    let mut i: usize = 0;
    while i < cs.len()
        invariant
            i <= cs@.len(),
            forall|k: int| 0 <= k < i ==> !special(#[trigger] cs@[k]),
        decreases cs@.len() - i,
    {
        if is_special(cs[i]) {
            assert(special(cs@[i as int]));
            return true;
        }
        i += 1;
    }
    false
}

/// An argument as it stands in a remote command line.
fn quote(arg: &str) -> (r: String)
    ensures
        r@ == quoted(arg@),
{
    let cs = chars_of(arg);
    if !needs_quotes(&cs) {
        return arg.to_owned();
    }
    let mut r = "'".to_owned();
    let mut i: usize = 0;
    proof {
        assert(arg@.take(0) =~= Seq::<char>::empty());
        assert("'"@ + escaped(arg@.take(0)) =~= "'"@);
    }
    while i < cs.len()
        invariant
            cs@ == arg@,
            i <= cs@.len(),
            r@ == "'"@ + escaped(arg@.take(i as int)),
        decreases cs@.len() - i,
    {
        let c = cs[i];
        let ghost before = r@;
        assert(arg@.take(i + 1).drop_last() =~= arg@.take(i as int));
        if c == '\'' {
            r.push('\'');
            r.push('\\');
            r.push('\'');
            r.push('\'');
            assert(r@ =~= before + seq!['\'', '\\', '\'', '\'']);
        } else {
            r.push(c);
        }
        assert(r@ =~= "'"@ + escaped(arg@.take(i + 1)));
        i += 1;
    }
    assert(arg@.take(i as int) =~= arg@);
    r.append("'");
    r
}

/// The command line that runs tmux with `args` on a remote shell.
pub fn remote_command(args: &Vec<String>) -> (r: String)
    ensures
        r@ == remote_command_line(texts(args@)),
{
    let mut parts: Vec<String> = Vec::new();
    let mut i: usize = 0;
    while i < args.len()
        invariant
            i <= args@.len(),
            parts@.len() == i,
            forall|k: int| 0 <= k < i ==> (#[trigger] parts@[k])@ == quoted(args@[k]@),
        decreases args@.len() - i,
    {
        parts.push(quote(args[i].as_str()));
        i += 1;
    }
    assert(texts(parts@) =~= texts(args@).map_values(|arg: Seq<char>| quoted(arg)));
    let mut r = "tmux ".to_owned();
    r.append(join_with(&parts, " ").as_str());
    r
}

impl<S> TmuxRunner<S> {
    /// What running tmux with `args` takes.
    pub fn run(&self, args: &Vec<String>) -> (r: Invocation<S>)
        ensures
            match (self, r) {
                (TmuxRunner::Local, Invocation::Spawn { args: a }) => texts(a@) == texts(args@),
                (TmuxRunner::Remote(s), Invocation::Execute { session, command }) => *session == *s
                    && command@ == remote_command_line(texts(args@)),
                _ => false,
            },
    {
        match self {
            TmuxRunner::Local => Invocation::Spawn { args: copies(args) },
            TmuxRunner::Remote(session) => Invocation::Execute {
                session,
                command: remote_command(args),
            },
        }
    }
}

/// A run of the local tmux that did not succeed.
#[derive(Debug, Clone)]
pub struct TmuxError {
    /// The first argument of the run.
    pub subcommand: String,
    /// What it printed on its standard error.
    pub stderr: String,
}

impl TmuxError {
    /// The message that reports the error.
    pub fn message(&self) -> (r: String)
        ensures
            r@ == "tmux "@ + self.subcommand@ + " failed: "@ + self.stderr@,
    {
        let mut r = "tmux ".to_owned();
        r.append(self.subcommand.as_str());
        r.append(" failed: ");
        r.append(self.stderr.as_str());
        r
    }
}

/// What a finished run of the local tmux gives, where `text` is what it printed: on its
/// standard output if it succeeded, else on its standard error.
pub fn local_result(args: &Vec<String>, success: bool, text: String) -> (r: Result<
    String,
    TmuxError,
>)
    requires
        !success ==> args@.len() > 0,
    ensures
        r is Ok <==> success,
        r matches Ok(t) ==> t@ == text@,
        r matches Err(e) ==> e.subcommand@ == args@[0]@ && e.stderr@ == text@,
{
    if success {
        Ok(text)
    } else {
        Err(TmuxError { subcommand: args[0].clone(), stderr: text })
    }
}

/// What a finished run of the local tmux gives: its output, or the error to report.
pub fn run_local(args: &Vec<String>, success: bool, stdout: &[u8], stderr: &[u8]) -> (r: Result<
    String,
    TmuxError,
>)
    requires
        !success ==> args@.len() > 0,
    ensures
        r is Ok <==> success,
        r matches Ok(text) ==> text@ == utf8_lossy(stdout@) && (valid_utf8(stdout@) ==> text@
            == decode_utf8(stdout@)),
        r matches Err(e) ==> e.subcommand@ == args@[0]@ && e.stderr@ == utf8_lossy(stderr@) && (
        valid_utf8(stderr@) ==> e.stderr@ == decode_utf8(stderr@)),
{
    if success {
        local_result(args, true, from_utf8_lossy(stdout))
    } else {
        local_result(args, false, from_utf8_lossy(stderr))
    }
}

/// The arguments that make tmux list all its panes.
pub fn list_panes_args() -> (r: Vec<String>)
    ensures
        texts(r@) == seq!["list-panes"@, "-a"@, "-F"@ + LIST_PANES_FMT@],
{
    let mut format = "-F".to_owned();
    format.append(LIST_PANES_FMT);
    let v = ["list-panes", "-a", format.as_str()];
    let r = strings(&v);
    assert(slices(v@) =~= seq!["list-panes"@, "-a"@, "-F"@ + LIST_PANES_FMT@]);
    r
}

/// One pane as tmux lists it.
#[derive(Debug, Clone)]
pub struct ParsedPane {
    pub session: String,
    pub window_id: String,
    pub window_index: u32,
    pub window_name: String,
    pub window_width: u32,
    pub window_height: u32,
    pub pane_id: String,
    pub pane_index: u32,
    pub pane_left: u32,
    pub pane_top: u32,
    pub pane_width: u32,
    pub pane_height: u32,
    pub current_command: String,
}

/// The model of a [`ParsedPane`].
#[verifier::ext_equal]
pub struct ParsedModel {
    pub session: Seq<char>,
    pub window_id: Seq<char>,
    pub window_index: u32,
    pub window_name: Seq<char>,
    pub window_width: u32,
    pub window_height: u32,
    pub pane_id: Seq<char>,
    pub pane_index: u32,
    pub pane_left: u32,
    pub pane_top: u32,
    pub pane_width: u32,
    pub pane_height: u32,
    pub current_command: Seq<char>,
}

impl View for ParsedPane {
    type V = ParsedModel;

    open spec fn view(&self) -> ParsedModel {
        ParsedModel {
            session: self.session@,
            window_id: self.window_id@,
            window_index: self.window_index,
            window_name: self.window_name@,
            window_width: self.window_width,
            window_height: self.window_height,
            pane_id: self.pane_id@,
            pane_index: self.pane_index,
            pane_left: self.pane_left,
            pane_top: self.pane_top,
            pane_width: self.pane_width,
            pane_height: self.pane_height,
            current_command: self.current_command@,
        }
    }
}

/// The models of a sequence of listed panes.
pub open spec fn parsed_models(v: Seq<ParsedPane>) -> Seq<ParsedModel> {
    Seq::new(v.len(), |i: int| v[i]@)
}

/// The number in a field, or `default` if the field holds none.
pub open spec fn number_or(field: Seq<char>, default: u32) -> u32 {
    match u32_value(field) {
        Some(n) => n,
        None => default,
    }
}

/// The pane that the fields of one line describe.
pub open spec fn pane_from_fields(fields: Seq<Seq<char>>) -> ParsedModel {
    ParsedModel {
        session: fields[0],
        window_id: fields[1],
        window_index: number_or(fields[2], 0),
        window_name: fields[3],
        window_width: number_or(fields[4], 200),
        window_height: number_or(fields[5], 50),
        pane_id: fields[6],
        pane_index: number_or(fields[7], 0),
        pane_left: number_or(fields[8], 0),
        pane_top: number_or(fields[9], 0),
        pane_width: number_or(fields[10], 80),
        pane_height: number_or(fields[11], 24),
        current_command: fields[12],
    }
}

/// The pane that a line describes; none if the line has fewer than fourteen fields.
pub open spec fn pane_from_line(line: Seq<char>) -> Option<ParsedModel> {
    let fields = split(line, '\t');
    if fields.len() < 14 {
        None
    } else {
        Some(pane_from_fields(fields))
    }
}

/// The panes that the lines of a listing describe, in order.
pub open spec fn panes_from_lines(listing: Seq<Seq<char>>) -> Seq<ParsedModel>
    decreases listing.len(),
{
    if listing.len() == 0 {
        Seq::empty()
    } else {
        let before = panes_from_lines(listing.drop_last());
        match pane_from_line(listing.last()) {
            Some(p) => before.push(p),
            None => before,
        }
    }
}

/// Fourteen fields or more, written in one line with tabs between them, are read back.
pub proof fn listed_fields_read_back(fields: Seq<Seq<char>>)
    requires
        fields.len() >= 14,
        forall|i: int| 0 <= i < fields.len() ==> !(#[trigger] fields[i]).contains('\t'),
    ensures
        pane_from_line(join(fields, seq!['\t'])) == Some(pane_from_fields(fields)),
{
    join_then_split(fields, '\t');
}

fn parse_or(field: &str, default: u32) -> (r: u32)
    ensures
        r == number_or(field@, default),
{
    match parse_u32(field) {
        Some(n) => n,
        None => default,
    }
}

/// Reads one line of a listing.
fn parse_line(line: &str) -> (r: Option<ParsedPane>)
    ensures
        match r {
            Some(p) => pane_from_line(line@) == Some(p@),
            None => pane_from_line(line@) is None,
        },
{
    let fields = split_on(line, '\t');
    let ghost all = split(line@, '\t');
    assert(all.len() == fields@.len());
    if fields.len() < 14 {
        return None;
    }
    assert forall|i: int| 0 <= i < all.len() implies fields@[i]@ == #[trigger] all[i] by {
        assert(texts(fields@)[i] == all[i]);
    }
    let p = ParsedPane {
        session: fields[0].clone(),
        window_id: fields[1].clone(),
        window_index: parse_or(fields[2].as_str(), 0),
        window_name: fields[3].clone(),
        window_width: parse_or(fields[4].as_str(), 200),
        window_height: parse_or(fields[5].as_str(), 50),
        pane_id: fields[6].clone(),
        pane_index: parse_or(fields[7].as_str(), 0),
        pane_left: parse_or(fields[8].as_str(), 0),
        pane_top: parse_or(fields[9].as_str(), 0),
        pane_width: parse_or(fields[10].as_str(), 80),
        pane_height: parse_or(fields[11].as_str(), 24),
        current_command: fields[12].clone(),
    };
    assert(p@ == pane_from_fields(all));
    Some(p)
}

/// Reads what `tmux list-panes` printed. Lines with fewer than fourteen fields are skipped.
pub fn parse_panes(stdout: &str) -> (r: Vec<ParsedPane>)
    ensures
        parsed_models(r@) == panes_from_lines(lines(stdout@)),
{
    let listing = lines_of(stdout);
    let ghost all = lines(stdout@);
    let mut r: Vec<ParsedPane> = Vec::new();
    let mut i: usize = 0;
    assert(parsed_models(r@) =~= panes_from_lines(all.take(0)));
    while i < listing.len()
        invariant
            all == texts(listing@),
            i <= listing@.len(),
            parsed_models(r@) == panes_from_lines(all.take(i as int)),
        decreases listing@.len() - i,
    {
        let ghost before = parsed_models(r@);
        assert(all.take(i + 1).drop_last() =~= all.take(i as int));
        assert(all.take(i + 1).last() == listing@[i as int]@);
        match parse_line(listing[i].as_str()) {
            Some(p) => {
                r.push(p);
                assert(parsed_models(r@) =~= before.push(p@));
            },
            None => {},
        }
        i += 1;
    }
    assert(all.take(all.len() as int) =~= all);
    r
}

/// The arguments that make tmux print what is on a pane.
pub fn capture_pane_args(pane_id: &str) -> (r: Vec<String>)
    ensures
        texts(r@) == seq!["capture-pane"@, "-t"@, pane_id@, "-p"@],
{
    let v = ["capture-pane", "-t", pane_id, "-p"];
    let r = strings(&v);
    assert(slices(v@) =~= seq!["capture-pane"@, "-t"@, pane_id@, "-p"@]);
    r
}

/// The lines of a screen without the empty ones at its end; its first line stays.
pub open spec fn trimmed(screen: Seq<Seq<char>>) -> Seq<Seq<char>>
    decreases screen.len(),
{
    if screen.len() <= 1 || screen.last().len() > 0 {
        screen
    } else {
        trimmed(screen.drop_last())
    }
}

/// Trimming drops lines at the end only, all of them empty, and stops at a line that is not
/// empty or at the first one.
pub proof fn trimming_drops_empty_lines(screen: Seq<Seq<char>>)
    ensures
        trimmed(screen).len() <= screen.len(),
        trimmed(screen) == screen.take(trimmed(screen).len() as int),
        forall|i: int|
            trimmed(screen).len() <= i < screen.len() ==> (#[trigger] screen[i]).len() == 0,
        trimmed(screen).len() > 1 ==> trimmed(screen).last().len() > 0,
        screen.len() > 0 ==> trimmed(screen).len() > 0,
    decreases screen.len(),
{
    if screen.len() <= 1 || screen.last().len() > 0 {
        assert(screen.take(screen.len() as int) =~= screen);
    } else {
        let shorter = screen.drop_last();
        trimming_drops_empty_lines(shorter);
        let n = trimmed(screen).len() as int;
        assert(screen.take(n) =~= shorter.take(n));
        assert forall|i: int| n <= i < screen.len() implies (#[trigger] screen[i]).len() == 0 by {
            if i < shorter.len() {
                assert(shorter[i] == screen[i]);
            }
        }
    }
}

/// The lines on a pane, from what `tmux capture-pane` printed.
pub fn capture_pane(stdout: &str) -> (r: Vec<String>)
    requires
        stdout@.len() > 0,
    ensures
        texts(r@) == trimmed(lines(stdout@)),
{
    let mut r = lines_of(stdout);
    while r.len() > 1 && r[r.len() - 1].as_str().is_empty()
        invariant
            trimmed(texts(r@)) == trimmed(lines(stdout@)),
        decreases r@.len(),
    {
        let ghost before = texts(r@);
        assert(before.last().len() == 0);
        r.pop();
        assert(texts(r@) =~= before.drop_last());
    }
    assert(r@.len() > 1 ==> texts(r@).last().len() > 0);
    r
}

/// How many lines at the end of a pane are searched for patterns.
pub const CHECKED_LINES: usize = 15;

/// Whether one of the last lines holds one of the patterns.
pub open spec fn asks(content: Seq<Seq<char>>, patterns: Seq<Seq<char>>) -> bool {
    exists|i: int, j: int|
        0 <= i < content.len() && content.len() - CHECKED_LINES <= i && 0 <= j < patterns.len()
            && #[trigger] occurs_in(content[i], patterns[j])
}

/// Whether a command is a shell.
pub open spec fn is_shell_name(command: Seq<char>) -> bool {
    ||| command == "bash"@
    ||| command == "zsh"@
    ||| command == "fish"@
    ||| command == "sh"@
    ||| command == "dash"@
    ||| command == "tcsh"@
    ||| command == "csh"@
}

/// The status of a pane with these lines that runs `command`.
pub open spec fn status_of(
    content: Seq<Seq<char>>,
    command: Seq<char>,
    patterns: Seq<Seq<char>>,
) -> PaneStatus {
    if asks(content, patterns) {
        PaneStatus::NeedsAttention
    } else if is_shell_name(command) {
        PaneStatus::Idle
    } else {
        PaneStatus::Active
    }
}

/// Lines above the last fifteen have no influence on the status.
pub proof fn earlier_lines_do_not_matter(
    above: Seq<Seq<char>>,
    content: Seq<Seq<char>>,
    command: Seq<char>,
    patterns: Seq<Seq<char>>,
)
    requires
        content.len() >= CHECKED_LINES,
    ensures
        status_of(above + content, command, patterns) == status_of(content, command, patterns),
{
    let all = above + content;
    let n = above.len() as int;
    if asks(all, patterns) {
        let (i, j) = choose|i: int, j: int|
            0 <= i < all.len() && all.len() - CHECKED_LINES <= i && 0 <= j < patterns.len()
                && #[trigger] occurs_in(all[i], patterns[j]);
        assert(all[i] == content[i - n]);
        assert(occurs_in(content[i - n], patterns[j]));
    }
    if asks(content, patterns) {
        let (i, j) = choose|i: int, j: int|
            0 <= i < content.len() && content.len() - CHECKED_LINES <= i && 0 <= j
                < patterns.len() && #[trigger] occurs_in(content[i], patterns[j]);
        assert(all[i + n] == content[i]);
        assert(occurs_in(all[i + n], patterns[j]));
    }
}

fn is_shell(command: &str) -> (r: bool)
    ensures
        r == is_shell_name(command@),
{
    str_eq(command, "bash") || str_eq(command, "zsh") || str_eq(command, "fish") || str_eq(
        command,
        "sh",
    ) || str_eq(command, "dash") || str_eq(command, "tcsh") || str_eq(command, "csh")
}

/// Whether `line` holds one of the patterns.
fn holds_pattern(line: &str, patterns: &Vec<String>) -> (r: bool)
    ensures
        r == exists|j: int|
            0 <= j < patterns@.len() && occurs_in(line@, (#[trigger] patterns@[j])@),
{
    let mut j: usize = 0;
    while j < patterns.len()
        invariant
            j <= patterns@.len(),
            forall|k: int| 0 <= k < j ==> !occurs_in(line@, (#[trigger] patterns@[k])@),
        decreases patterns@.len() - j,
    {
        if contains(line, patterns[j].as_str()) {
            return true;
        }
        j += 1;
    }
    false
}

/// The status of a pane with the lines `content` that runs `current_command`.
pub fn detect_status(
    content: &Vec<String>,
    current_command: &str,
    attention_patterns: &Vec<String>,
) -> (r: PaneStatus)
    ensures
        r == status_of(texts(content@), current_command@, texts(attention_patterns@)),
{
    let ghost all = texts(content@);
    let ghost patterns = texts(attention_patterns@);
    let n = content.len();
    let first: usize = if n > CHECKED_LINES { n - CHECKED_LINES } else { 0 };
    let mut i: usize = n;
    while i > first
        invariant
            n == content@.len(),
            all == texts(content@),
            patterns == texts(attention_patterns@),
            first == if n > CHECKED_LINES { n - CHECKED_LINES } else { 0 },
            first <= i <= n,
            forall|k: int, j: int|
                i <= k < n && 0 <= j < patterns.len() ==> !#[trigger] occurs_in(
                    all[k],
                    patterns[j],
                ),
        decreases i,
    {
        i -= 1;
        if holds_pattern(content[i].as_str(), attention_patterns) {
            proof {
                let j = choose|j: int|
                    0 <= j < attention_patterns@.len() && occurs_in(
                        content@[i as int]@,
                        (#[trigger] attention_patterns@[j])@,
                    );
                assert(occurs_in(all[i as int], patterns[j]));
            }
            return PaneStatus::NeedsAttention;
        }
        assert forall|j: int| 0 <= j < patterns.len() implies !#[trigger] occurs_in(
            all[i as int],
            patterns[j],
        ) by {
            assert(patterns[j] == attention_patterns@[j]@);
        }
    }
    if is_shell(current_command) {
        PaneStatus::Idle
    } else {
        PaneStatus::Active
    }
}

/// The lines that stand for a capture: none where it failed.
pub open spec fn screen_of(capture: Option<String>) -> Seq<Seq<char>> {
    match capture {
        Some(stdout) => trimmed(lines(stdout@)),
        None => Seq::empty(),
    }
}

/// The screens of a sequence of captures.
pub open spec fn screens(captures: Seq<Option<String>>) -> Seq<Seq<Seq<char>>> {
    Seq::new(captures.len(), |i: int| screen_of(captures[i]))
}

/// Everything that windows are made of: the listed panes, the screen of each, and the
/// patterns that ask for attention.
#[verifier::ext_equal]
pub struct Findings {
    pub host: Seq<char>,
    pub listed: Seq<ParsedModel>,
    pub screens: Seq<Seq<Seq<char>>>,
    pub patterns: Seq<Seq<char>>,
}

impl Findings {
    /// How many panes are both listed and captured.
    pub open spec fn len(self) -> int {
        if self.listed.len() <= self.screens.len() {
            self.listed.len() as int
        } else {
            self.screens.len() as int
        }
    }

    /// The pane with the number `k`.
    pub open spec fn pane(self, k: int) -> PaneModel {
        let p = self.listed[k];
        PaneModel {
            id: p.pane_id,
            index: p.pane_index,
            geometry: PaneGeometry {
                left: p.pane_left,
                top: p.pane_top,
                width: p.pane_width,
                height: p.pane_height,
            },
            status: status_of(self.screens[k], p.current_command, self.patterns),
            content: self.screens[k],
        }
    }

    /// The panes of the window `id` among the first `n`, in the order of the listing.
    pub open spec fn panes_of(self, id: Seq<char>, n: int) -> Seq<PaneModel>
        decreases n,
    {
        if n <= 0 {
            Seq::empty()
        } else if self.listed[n - 1].window_id == id {
            self.panes_of(id, n - 1).push(self.pane(n - 1))
        } else {
            self.panes_of(id, n - 1)
        }
    }

    /// Whether pane `k` is the first one listed of its window.
    pub open spec fn opens(self, k: int) -> bool {
        forall|j: int|
            0 <= j < k ==> (#[trigger] self.listed[j]).window_id != self.listed[k].window_id
    }

    /// Whether `w` is the window that pane `k` opens, with its panes among the first `n`.
    pub open spec fn window_opened_by(self, w: WindowModel, k: int, n: int) -> bool {
        let p = self.listed[k];
        &&& self.opens(k)
        &&& w.id == p.window_id
        &&& w.host == self.host
        &&& w.session == p.session
        &&& w.window_index == p.window_index
        &&& w.window_name == p.window_name
        &&& w.width == p.window_width
        &&& w.height == p.window_height
        &&& w.panes == self.panes_of(w.id, n)
    }

    /// Whether `w` is a window of the first `n` panes.
    #[verifier::opaque]
    pub open spec fn has_window(self, w: WindowModel, n: int) -> bool {
        exists|k: int| 0 <= k < n && self.window_opened_by(w, k, n)
    }

    /// Whether `windows` are the windows of the first `n` panes: each is opened by one of
    /// them, each pane's window is there, none is there twice, and they are in order.
    pub open spec fn grouped_in(self, windows: Seq<WindowModel>, n: int) -> bool {
        &&& forall|i: int|
            0 <= i < windows.len() ==> self.has_window(#[trigger] windows[i], n)
        &&& forall|k: int|
            0 <= k < n ==> one_has_id(windows, (#[trigger] self.listed[k]).window_id)
        &&& forall|i: int, j: int|
            0 <= i < j < windows.len() ==> (#[trigger] windows[i]).id != (#[trigger] windows[j]).id
        &&& in_order(windows)
    }

    /// Whether `windows` are the windows found.
    pub open spec fn gives(self, windows: Seq<WindowModel>) -> bool {
        self.grouped_in(windows, self.len())
    }
}

/// Whether one of the windows has this id.
pub open spec fn one_has_id(windows: Seq<WindowModel>, id: Seq<char>) -> bool {
    exists|i: int| 0 <= i < windows.len() && (#[trigger] windows[i]).id == id
}

/// Whether window `a` may be shown before window `b`: by session, then by index.
pub open spec fn before_or_level(a: WindowModel, b: WindowModel) -> bool {
    if a.session == b.session {
        a.window_index <= b.window_index
    } else {
        text_le(a.session, b.session)
    }
}

/// Whether windows stand in the order in which they are shown.
pub open spec fn in_order(windows: Seq<WindowModel>) -> bool {
    forall|i: int, j: int|
        0 <= i < j < windows.len() ==> before_or_level(#[trigger] windows[i], #[trigger] windows[j])
}

proof fn before_or_level_is_transitive(a: WindowModel, b: WindowModel, c: WindowModel)
    requires
        before_or_level(a, b),
        before_or_level(b, c),
    ensures
        before_or_level(a, c),
{
    if a.session != b.session && b.session != c.session {
        text_le_is_transitive(a.session, b.session, c.session);
        text_le_is_total(a.session, b.session);
    }
}

fn comes_before_or_level(a: &WindowInfo, b: &WindowInfo) -> (r: bool)
    ensures
        r == before_or_level(a@, b@),
        !r ==> before_or_level(b@, a@),
{
    proof {
        text_le_is_total(a@.session, b@.session);
    }
    if str_eq(a.session.as_str(), b.session.as_str()) {
        a.window_index <= b.window_index
    } else {
        str_le(a.session.as_str(), b.session.as_str())
    }
}

/// Puts `w` behind every window that may stand before it.
fn insert_in_order(windows: &mut Vec<WindowInfo>, w: WindowInfo) -> (at: usize)
    requires
        in_order(window_models(old(windows)@)),
    ensures
        at <= old(windows)@.len(),
        window_models(final(windows)@) == window_models(old(windows)@).insert(at as int, w@),
        in_order(window_models(final(windows)@)),
{
    let ghost before = window_models(windows@);
    let mut at: usize = windows.len();
    while at > 0 && !comes_before_or_level(&windows[at - 1], &w)
        invariant
            at <= windows@.len(),
            before == window_models(windows@),
            windows@ == old(windows)@,
            in_order(before),
            forall|k: int| at <= k < before.len() ==> before_or_level(w@, #[trigger] before[k]),
        decreases at,
    {
        at -= 1;
        assert(before[at as int] == windows@[at as int]@);
    }
    proof {
        let after = before.insert(at as int, w@);
        if at > 0 {
            assert(before[at - 1] == windows@[at - 1]@);
        }
        assert forall|k: int| 0 <= k < at implies before_or_level(#[trigger] before[k], w@) by {
            if k < at - 1 {
                before_or_level_is_transitive(before[k], before[at - 1], w@);
            }
        }
        assert(in_order(after)) by {
            assert forall|i: int, j: int| 0 <= i < j < after.len() implies before_or_level(
                #[trigger] after[i],
                #[trigger] after[j],
            ) by {
                let oi = if i < at { i } else { i - 1 };
                let oj = if j < at { j } else { j - 1 };
                if i != at && j != at {
                    assert(after[i] == before[oi]);
                    assert(after[j] == before[oj]);
                } else if i == at {
                    assert(after[j] == before[oj]);
                } else {
                    assert(after[i] == before[oi]);
                }
            }
        }
    }
    windows.insert(at, w);
    assert(window_models(windows@) =~= before.insert(at as int, w@));
    at
}

proof fn no_panes_of_unlisted(f: Findings, id: Seq<char>, n: int)
    requires
        forall|k: int| 0 <= k < n ==> (#[trigger] f.listed[k]).window_id != id,
    ensures
        f.panes_of(id, n) == Seq::<PaneModel>::empty(),
    decreases n,
{
    if n > 0 {
        no_panes_of_unlisted(f, id, n - 1);
    }
}

proof fn pane_joins_its_window(f: Findings, windows: Seq<WindowModel>, i: int, w: WindowModel, n: int)
    requires
        0 <= n,
        f.grouped_in(windows, n),
        0 <= i < windows.len(),
        windows[i].id == f.listed[n].window_id,
        w == (WindowModel { panes: windows[i].panes.push(f.pane(n)), ..windows[i] }),
    ensures
        f.grouped_in(windows.update(i, w), n + 1),
{
    let after = windows.update(i, w);
    assert forall|j: int| 0 <= j < after.len() implies f.has_window(#[trigger] after[j], n + 1) by {
        assert(f.has_window(windows[j], n));
        reveal(Findings::has_window);
        let k = choose|k: int| 0 <= k < n && f.window_opened_by(windows[j], k, n);
        if j != i {
            assert(windows[j].id != windows[i].id) by {
                if j < i {
                    assert(windows[j].id != windows[i].id);
                } else {
                    assert(windows[i].id != windows[j].id);
                }
            }
        }
        assert(f.window_opened_by(after[j], k, n + 1));
    }
    assert forall|k: int| 0 <= k < n + 1 implies one_has_id(
        after,
        (#[trigger] f.listed[k]).window_id,
    ) by {
        if k < n {
            let j = choose|j: int|
                0 <= j < windows.len() && windows[j].id == f.listed[k].window_id;
            assert(after[j].id == f.listed[k].window_id);
        } else {
            assert(after[i].id == f.listed[k].window_id);
        }
    }
    assert forall|a: int, b: int| 0 <= a < b < after.len() implies (#[trigger] after[a]).id != (
    #[trigger] after[b]).id by {
        assert(windows[a].id != windows[b].id);
    }
    assert forall|a: int, b: int| 0 <= a < b < after.len() implies before_or_level(
        #[trigger] after[a],
        #[trigger] after[b],
    ) by {
        assert(before_or_level(windows[a], windows[b]));
    }
}

proof fn inserting_keeps_ids_distinct(windows: Seq<WindowModel>, at: int, w: WindowModel)
    requires
        0 <= at <= windows.len(),
        forall|i: int, j: int|
            0 <= i < j < windows.len() ==> (#[trigger] windows[i]).id != (#[trigger] windows[j]).id,
        forall|i: int| 0 <= i < windows.len() ==> (#[trigger] windows[i]).id != w.id,
    ensures
        forall|i: int, j: int|
            0 <= i < j < windows.len() + 1 ==> (#[trigger] windows.insert(at, w)[i]).id != (
            #[trigger] windows.insert(at, w)[j]).id,
{
    let after = windows.insert(at, w);
    assert forall|i: int, j: int| 0 <= i < j < windows.len() + 1 implies (#[trigger] after[i]).id
        != (#[trigger] after[j]).id by {
        let oi = if i < at { i } else { i - 1 };
        let oj = if j < at { j } else { j - 1 };
        if i != at {
            assert(after[i] == windows[oi]);
        }
        if j != at {
            assert(after[j] == windows[oj]);
        }
    }
}

proof fn pane_opens_its_window(f: Findings, windows: Seq<WindowModel>, at: int, w: WindowModel, n: int)
    requires
        0 <= n,
        f.grouped_in(windows, n),
        0 <= at <= windows.len(),
        forall|i: int| 0 <= i < windows.len() ==> (#[trigger] windows[i]).id
            != f.listed[n].window_id,
        w == (WindowModel {
            id: f.listed[n].window_id,
            host: f.host,
            session: f.listed[n].session,
            window_index: f.listed[n].window_index,
            window_name: f.listed[n].window_name,
            width: f.listed[n].window_width,
            height: f.listed[n].window_height,
            panes: seq![f.pane(n)],
        }),
        in_order(windows.insert(at, w)),
    ensures
        f.grouped_in(windows.insert(at, w), n + 1),
{
    let after = windows.insert(at, w);
    let id = f.listed[n].window_id;
    assert forall|k: int| 0 <= k < n implies (#[trigger] f.listed[k]).window_id != id by {
        let i = choose|i: int| 0 <= i < windows.len() && windows[i].id == f.listed[k].window_id;
        assert(windows[i].id != id);
    }
    no_panes_of_unlisted(f, id, n);
    assert(w.panes =~= f.panes_of(id, n + 1));
    assert forall|j: int| 0 <= j < after.len() implies f.has_window(#[trigger] after[j], n + 1) by {
        reveal(Findings::has_window);
        if j == at {
            assert(f.window_opened_by(after[j], n, n + 1));
        } else {
            let o = if j < at { j } else { j - 1 };
            assert(after[j] == windows[o]);
            let k = choose|k: int| 0 <= k < n && f.window_opened_by(windows[o], k, n);
            assert(f.window_opened_by(after[j], k, n + 1));
        }
    }
    assert forall|k: int| 0 <= k < n + 1 implies one_has_id(
        after,
        (#[trigger] f.listed[k]).window_id,
    ) by {
        if k < n {
            let o = choose|o: int|
                0 <= o < windows.len() && windows[o].id == f.listed[k].window_id;
            let j = if o < at { o } else { o + 1 };
            assert(after[j] == windows[o]);
            assert(after[j].id == f.listed[k].window_id);
        } else {
            assert(after[at].id == f.listed[k].window_id);
        }
    }
    inserting_keeps_ids_distinct(windows, at, w);
}

/// The position of the window `id`, if it is among `windows`.
fn find_window(windows: &Vec<WindowInfo>, id: &str) -> (r: Option<usize>)
    ensures
        match r {
            Some(i) => i < windows@.len() && windows@[i as int].id@ == id@,
            None => forall|i: int| 0 <= i < windows@.len() ==> (#[trigger] windows@[i]).id@ != id@,
        },
{
    let mut i: usize = 0;
    while i < windows.len()
        invariant
            i <= windows@.len(),
            forall|k: int| 0 <= k < i ==> (#[trigger] windows@[k]).id@ != id@,
        decreases windows@.len() - i,
    {
        if str_eq(windows[i].id.as_str(), id) {
            return Some(i);
        }
        i += 1;
    }
    None
}

/// The windows on a host, from its listed panes and a capture of each, `None` where the
/// capture failed. Each window comes with the header of its first listed pane and with its
/// panes in the order of the listing; the windows are ordered by session, then by index.
pub fn discover_windows(
    host_name: &str,
    attention_patterns: &Vec<String>,
    parsed: &Vec<ParsedPane>,
    captures: &Vec<Option<String>>,
) -> (r: Vec<WindowInfo>)
    requires
        forall|i: int|
            0 <= i < captures@.len() ==> (#[trigger] captures@[i] matches Some(stdout)
                ==> stdout@.len() > 0),
    ensures
        (Findings {
            host: host_name@,
            listed: parsed_models(parsed@),
            screens: screens(captures@),
            patterns: texts(attention_patterns@),
        }).gives(window_models(r@)),
{
    let ghost f = Findings {
        host: host_name@,
        listed: parsed_models(parsed@),
        screens: screens(captures@),
        patterns: texts(attention_patterns@),
    };
    let mut windows: Vec<WindowInfo> = Vec::new();
    let mut n: usize = 0;
    while n < parsed.len() && n < captures.len()
        invariant
            f == (Findings {
                host: host_name@,
                listed: parsed_models(parsed@),
                screens: screens(captures@),
                patterns: texts(attention_patterns@),
            }),
            forall|i: int|
                0 <= i < captures@.len() ==> (#[trigger] captures@[i] matches Some(stdout)
                    ==> stdout@.len() > 0),
            n <= parsed@.len(),
            n <= captures@.len(),
            f.grouped_in(window_models(windows@), n as int),
        decreases parsed@.len() - n,
    {
        let p = &parsed[n];
        let content: Vec<String> = match &captures[n] {
            Some(stdout) => capture_pane(stdout.as_str()),
            None => Vec::new(),
        };
        assert(texts(content@) =~= f.screens[n as int]);
        let status = detect_status(&content, p.current_command.as_str(), attention_patterns);
        let pane = PaneInfo {
            id: p.pane_id.clone(),
            index: p.pane_index,
            geometry: PaneGeometry {
                left: p.pane_left,
                top: p.pane_top,
                width: p.pane_width,
                height: p.pane_height,
            },
            status,
            content,
        };
        let ghost pane_model = pane@;
        assert(pane_model == f.pane(n as int));
        let ghost before = window_models(windows@);
        match find_window(&windows, p.window_id.as_str()) {
            Some(i) => {
                let ghost old_window = windows@[i as int];
                windows[i].panes.push(pane);
                proof {
                    let w = windows@[i as int]@;
                    assert(w.panes =~= old_window@.panes.push(pane_model));
                    assert(window_models(windows@) =~= before.update(i as int, w));
                    pane_joins_its_window(f, before, i as int, w, n as int);
                }
            },
            None => {
                let mut panes: Vec<PaneInfo> = Vec::new();
                panes.push(pane);
                let w = WindowInfo {
                    id: p.window_id.clone(),
                    host: host_name.to_owned(),
                    session: p.session.clone(),
                    window_index: p.window_index,
                    window_name: p.window_name.clone(),
                    width: p.window_width,
                    height: p.window_height,
                    panes,
                };
                let ghost w_model = w@;
                let at = insert_in_order(&mut windows, w);
                proof {
                    assert(w_model.panes =~= seq![f.pane(n as int)]);
                    assert forall|i: int| 0 <= i < before.len() implies (#[trigger] before[i]).id
                        != f.listed[n as int].window_id by {}
                    pane_opens_its_window(f, before, at as int, w_model, n as int);
                }
            },
        }
        n += 1;
    }
    windows
}

/// How many panes the windows have together.
pub open spec fn pane_total(windows: Seq<WindowModel>) -> nat
    decreases windows.len(),
{
    if windows.len() == 0 {
        0
    } else {
        pane_total(windows.drop_last()) + windows.last().panes.len()
    }
}

/// How many of the first `n` panes belong to one of the windows, counted window by window.
spec fn counted(f: Findings, windows: Seq<WindowModel>, n: int) -> nat
    decreases windows.len(),
{
    if windows.len() == 0 {
        0
    } else {
        counted(f, windows.drop_last(), n) + f.panes_of(windows.last().id, n).len()
    }
}

proof fn another_pane_counts_once(f: Findings, windows: Seq<WindowModel>, n: int)
    requires
        0 <= n,
        forall|i: int, j: int|
            0 <= i < j < windows.len() ==> (#[trigger] windows[i]).id != (#[trigger] windows[j]).id,
    ensures
        counted(f, windows, n + 1) == counted(f, windows, n) + if one_has_id(
            windows,
            f.listed[n].window_id,
        ) {
            1nat
        } else {
            0nat
        },
    decreases windows.len(),
{
    let id = f.listed[n].window_id;
    if windows.len() > 0 {
        let head = windows.drop_last();
        assert forall|i: int, j: int| 0 <= i < j < head.len() implies (#[trigger] head[i]).id != (
        #[trigger] head[j]).id by {
            assert(windows[i].id != windows[j].id);
        }
        another_pane_counts_once(f, head, n);
        if windows.last().id == id {
            assert(windows[windows.len() - 1].id == id);
            assert forall|i: int| 0 <= i < head.len() implies (#[trigger] head[i]).id != id by {
                assert(windows[i].id != windows[windows.len() - 1].id);
            }
        } else {
            if one_has_id(head, id) {
                let i = choose|i: int| 0 <= i < head.len() && (#[trigger] head[i]).id == id;
                assert(windows[i].id == id);
            }
            if one_has_id(windows, id) {
                let i = choose|i: int| 0 <= i < windows.len() && (#[trigger] windows[i]).id == id;
                assert(head[i].id == id);
            }
        }
    }
}

proof fn nothing_counts_at_first(f: Findings, windows: Seq<WindowModel>)
    ensures
        counted(f, windows, 0) == 0,
    decreases windows.len(),
{
    if windows.len() > 0 {
        nothing_counts_at_first(f, windows.drop_last());
    }
}

proof fn all_panes_count(f: Findings, windows: Seq<WindowModel>, n: int)
    requires
        0 <= n,
        forall|i: int, j: int|
            0 <= i < j < windows.len() ==> (#[trigger] windows[i]).id != (#[trigger] windows[j]).id,
        forall|k: int| 0 <= k < n ==> one_has_id(windows, (#[trigger] f.listed[k]).window_id),
    ensures
        counted(f, windows, n) == n,
    decreases n,
{
    if n == 0 {
        nothing_counts_at_first(f, windows);
    } else {
        all_panes_count(f, windows, n - 1);
        another_pane_counts_once(f, windows, n - 1);
        let i = choose|i: int|
            0 <= i < windows.len() && windows[i].id == f.listed[n - 1].window_id;
        assert(windows[i].id == f.listed[n - 1].window_id);
    }
}

proof fn counted_is_total(f: Findings, windows: Seq<WindowModel>, n: int)
    requires
        forall|i: int|
            0 <= i < windows.len() ==> (#[trigger] windows[i]).panes == f.panes_of(
                windows[i].id,
                n,
            ),
    ensures
        counted(f, windows, n) == pane_total(windows),
    decreases windows.len(),
{
    if windows.len() > 0 {
        let head = windows.drop_last();
        assert forall|i: int| 0 <= i < head.len() implies (#[trigger] head[i]).panes == f.panes_of(
            head[i].id,
            n,
        ) by {
            assert(head[i] == windows[i]);
        }
        counted_is_total(f, head, n);
        assert(windows[windows.len() - 1] == windows.last());
    }
}

/// No pane gets lost and none is shown twice: the windows found have as many panes as were
/// listed and captured, and each of these is a pane of the window it was listed with.
pub proof fn every_pane_is_shown_once(f: Findings, windows: Seq<WindowModel>)
    requires
        f.gives(windows),
    ensures
        pane_total(windows) == f.len(),
        forall|k: int|
            0 <= k < f.len() ==> exists|i: int|
                0 <= i < windows.len() && windows[i].id == (#[trigger] f.listed[k]).window_id
                    && windows[i].panes.contains(f.pane(k)),
{
    let n = f.len();
    assert forall|i: int| 0 <= i < windows.len() implies (#[trigger] windows[i]).panes
        == f.panes_of(windows[i].id, n) by {
        assert(f.has_window(windows[i], n));
        reveal(Findings::has_window);
    }
    all_panes_count(f, windows, n);
    counted_is_total(f, windows, n);
    assert forall|k: int| 0 <= k < n implies exists|i: int|
        0 <= i < windows.len() && windows[i].id == (#[trigger] f.listed[k]).window_id
            && windows[i].panes.contains(f.pane(k)) by {
        let i = choose|i: int| 0 <= i < windows.len() && windows[i].id == f.listed[k].window_id;
        panes_of_holds_pane(f, k, n);
        assert(windows[i].panes == f.panes_of(windows[i].id, n));
    }
}

proof fn panes_of_holds_pane(f: Findings, k: int, n: int)
    requires
        0 <= k < n,
    ensures
        f.panes_of(f.listed[k].window_id, n).contains(f.pane(k)),
    decreases n,
{
    let id = f.listed[k].window_id;
    let all = f.panes_of(id, n);
    if k == n - 1 {
        assert(all.last() == f.pane(k));
        assert(all[all.len() - 1] == f.pane(k));
    } else {
        panes_of_holds_pane(f, k, n - 1);
        let shorter = f.panes_of(id, n - 1);
        let j = choose|j: int| 0 <= j < shorter.len() && shorter[j] == f.pane(k);
        assert(all[j] == f.pane(k));
    }
}

/// A window has at least one pane, and all windows are on the host they were looked for on.
pub proof fn windows_have_panes(f: Findings, windows: Seq<WindowModel>, i: int)
    requires
        f.gives(windows),
        0 <= i < windows.len(),
    ensures
        windows[i].panes.len() >= 1,
        windows[i].host == f.host,
{
    let n = f.len();
    assert(f.has_window(windows[i], n));
    reveal(Findings::has_window);
    let k = choose|k: int| 0 <= k < n && f.window_opened_by(windows[i], k, n);
    panes_of_holds_pane(f, k, n);
}

/// What is found is determined by what was listed and captured: two results for the same
/// findings hold the same windows.
pub proof fn findings_determine_the_windows(
    f: Findings,
    a: Seq<WindowModel>,
    b: Seq<WindowModel>,
    i: int,
)
    requires
        f.gives(a),
        f.gives(b),
        0 <= i < a.len(),
    ensures
        b.contains(a[i]),
{
    let n = f.len();
    assert(f.has_window(a[i], n));
    reveal(Findings::has_window);
    let k = choose|k: int| 0 <= k < n && f.window_opened_by(a[i], k, n);
    assert(f.listed[k].window_id == a[i].id);
    let j = choose|j: int| 0 <= j < b.len() && b[j].id == f.listed[k].window_id;
    assert(f.has_window(b[j], n));
    let l = choose|l: int| 0 <= l < n && f.window_opened_by(b[j], l, n);
    if k < l {
        assert(f.listed[k].window_id != f.listed[l].window_id);
    } else if l < k {
        assert(f.listed[l].window_id != f.listed[k].window_id);
    }
    assert(a[i] == b[j]);
}

proof fn first_windows_agree(f: Findings, a: Seq<WindowModel>, b: Seq<WindowModel>, n: int)
    requires
        f.gives(a),
        f.gives(b),
        no_two_level(a),
        0 <= n <= a.len(),
    ensures
        n <= b.len(),
        forall|i: int| 0 <= i < n ==> a[i] == b[i],
    decreases n,
{
    if n > 0 {
        let k = n - 1;
        first_windows_agree(f, a, b, k);
        findings_determine_the_windows(f, a, b, k);
        let j = choose|j: int| 0 <= j < b.len() && b[j] == a[k];
        if j < k {
            assert(a[j] == b[j]);
            assert(a[j].id != a[k].id);
        }
        findings_determine_the_windows(f, b, a, k);
        let i = choose|i: int| 0 <= i < a.len() && a[i] == b[k];
        if i < k {
            assert(a[i] == b[i]);
            assert(b[i].id != b[k].id);
        }
        if i > k {
            assert(j > k);
            assert(before_or_level(a[k], a[i]));
            assert(before_or_level(b[k], b[j]));
            text_le_is_total(a[k].session, a[i].session);
            assert(a[k].session == a[i].session);
            assert(!level(a[k], a[i]));
        }
    }
}

/// Whether two windows have the same session and the same index.
pub open spec fn level(a: WindowModel, b: WindowModel) -> bool {
    a.session == b.session && a.window_index == b.window_index
}

/// Whether no two of the windows have the same session and the same index.
pub open spec fn no_two_level(windows: Seq<WindowModel>) -> bool {
    forall|i: int, j: int|
        0 <= i < j < windows.len() ==> !level(#[trigger] windows[i], #[trigger] windows[j])
}

/// The order of the windows is determined too, where no two of them have the same session and
/// the same index.
pub proof fn findings_determine_the_order(f: Findings, a: Seq<WindowModel>, b: Seq<WindowModel>)
    requires
        f.gives(a),
        f.gives(b),
        no_two_level(a),
    ensures
        a == b,
{
    first_windows_agree(f, a, b, a.len() as int);
    if a.len() < b.len() {
        let n = a.len() as int;
        findings_determine_the_windows(f, b, a, n);
        let i = choose|i: int| 0 <= i < a.len() && a[i] == b[n];
        assert(a[i] == b[i]);
        assert(b[i].id != b[n].id);
    }
    assert(a =~= b);
}

/// The command that makes tmux type `text` into a pane.
pub open spec fn type_command(pane: Seq<char>, text: Seq<char>) -> Seq<Seq<char>> {
    seq!["send-keys"@, "-t"@, pane, "-l"@, text]
}

/// The command that makes tmux press a key in a pane.
pub open spec fn key_command(pane: Seq<char>, key: Seq<char>) -> Seq<Seq<char>> {
    seq!["send-keys"@, "-t"@, pane, key]
}

/// The commands that type `text`: none if there is nothing to type.
pub open spec fn typing(pane: Seq<char>, text: Seq<char>) -> Seq<Seq<Seq<char>>> {
    if text.len() == 0 {
        Seq::empty()
    } else {
        seq![type_command(pane, text)]
    }
}

/// The commands that type `parts` with the Enter key between each two of them.
pub open spec fn typing_lines(pane: Seq<char>, parts: Seq<Seq<char>>) -> Seq<Seq<Seq<char>>>
    decreases parts.len(),
{
    if parts.len() == 0 {
        Seq::empty()
    } else if parts.len() == 1 {
        typing(pane, parts[0])
    } else {
        typing_lines(pane, parts.drop_last()).push(key_command(pane, "Enter"@)) + typing(
            pane,
            parts.last(),
        )
    }
}

/// The texts of a sequence of commands.
pub open spec fn commands(v: Seq<Vec<String>>) -> Seq<Seq<Seq<char>>> {
    Seq::new(v.len(), |i: int| texts(v[i]@))
}

/// The command that presses a key by its tmux name.
pub fn send_key_name(pane_id: &str, key_name: &str) -> (r: Vec<String>)
    ensures
        texts(r@) == key_command(pane_id@, key_name@),
        texts(r@) == seq!["send-keys"@, "-t"@, pane_id@, key_name@],
{
    let v = ["send-keys", "-t", pane_id, key_name];
    let r = strings(&v);
    assert(slices(v@) =~= key_command(pane_id@, key_name@));
    r
}

/// The command that types `text` as it is; none for the empty text.
pub fn send_literal(pane_id: &str, text: &str) -> (r: Option<Vec<String>>)
    ensures
        r is None <==> text@.len() == 0,
        r matches Some(args) ==> texts(args@) == type_command(pane_id@, text@),
        r matches Some(args) ==> texts(args@) == seq!["send-keys"@, "-t"@, pane_id@, "-l"@, text@],
{
    if text.is_empty() {
        return None;
    }
    let v = ["send-keys", "-t", pane_id, "-l", text];
    let r = strings(&v);
    assert(slices(v@) =~= type_command(pane_id@, text@));
    Some(r)
}

/// The commands that type `keys`, with the Enter key for each line feed. They are to be run
/// one after the other, up to the first that fails.
pub fn send_keys(pane_id: &str, keys: &str) -> (r: Vec<Vec<String>>)
    ensures
        commands(r@) == typing_lines(pane_id@, split(keys@, '\n')),
{
    let parts = split_on(keys, '\n');
    let ghost all = split(keys@, '\n');
    let mut r: Vec<Vec<String>> = Vec::new();
    let mut i: usize = 0;
    assert(commands(r@) =~= typing_lines(pane_id@, all.take(0)));
    while i < parts.len()
        invariant
            all == texts(parts@),
            i <= parts@.len(),
            commands(r@) == typing_lines(pane_id@, all.take(i as int)),
        decreases parts@.len() - i,
    {
        let ghost done = commands(r@);
        assert(all.take(i + 1).drop_last() =~= all.take(i as int));
        assert(all.take(i + 1).last() == parts@[i as int]@);
        if i > 0 {
            r.push(send_key_name(pane_id, "Enter"));
            assert(commands(r@) =~= done.push(key_command(pane_id@, "Enter"@)));
        }
        let ghost entered = commands(r@);
        match send_literal(pane_id, parts[i].as_str()) {
            Some(args) => {
                r.push(args);
                assert(commands(r@) =~= entered + typing(pane_id@, parts@[i as int]@));
            },
            None => {
                assert(entered =~= entered + typing(pane_id@, parts@[i as int]@));
            },
        }
        assert(commands(r@) =~= typing_lines(pane_id@, all.take(i + 1)));
        i += 1;
    }
    assert(all.take(all.len() as int) =~= all);
    r
}

/// The text that a command types: the text of a command that types, a line feed for the Enter
/// key, and nothing for any other command.
pub open spec fn received(command: Seq<Seq<char>>) -> Seq<char> {
    if command.len() == 5 && command[3] == "-l"@ {
        command[4]
    } else if command.len() == 4 && command[3] == "Enter"@ {
        seq!['\n']
    } else {
        Seq::empty()
    }
}

/// The text that commands type, run in order.
pub open spec fn received_from(run: Seq<Seq<Seq<char>>>) -> Seq<char>
    decreases run.len(),
{
    if run.len() == 0 {
        Seq::empty()
    } else {
        received_from(run.drop_last()) + received(run.last())
    }
}

proof fn typed_lines_are_received(pane: Seq<char>, parts: Seq<Seq<char>>)
    ensures
        received_from(typing_lines(pane, parts)) == join(parts, seq!['\n']),
    decreases parts.len(),
{
    if parts.len() == 1 {
        typed_text_is_received(Seq::empty(), pane, parts[0]);
        assert(Seq::<Seq<Seq<char>>>::empty() + typing(pane, parts[0]) =~= typing(pane, parts[0]));
    } else if parts.len() > 1 {
        let before = typing_lines(pane, parts.drop_last());
        typed_lines_are_received(pane, parts.drop_last());
        let entered = before.push(key_command(pane, "Enter"@));
        assert(entered.drop_last() =~= before);
        typed_text_is_received(entered, pane, parts.last());
    }
}

proof fn typed_text_is_received(run: Seq<Seq<Seq<char>>>, pane: Seq<char>, text: Seq<char>)
    ensures
        received_from(run + typing(pane, text)) == received_from(run) + text,
{
    if text.len() == 0 {
        assert(run + typing(pane, text) =~= run);
        assert(received_from(run) + text =~= received_from(run));
    } else {
        let all = run + typing(pane, text);
        assert(all.drop_last() =~= run);
    }
}

/// The arguments of the commands for `keys` are those that type exactly `keys`: their texts, with
/// a line feed for each Enter key, make up `keys`. How the arguments reach tmux is another matter.
pub proof fn sent_keys_are_received(pane: Seq<char>, keys: Seq<char>)
    ensures
        received_from(typing_lines(pane, split(keys, '\n'))) == keys,
{
    split_then_join(keys, '\n');
    typed_lines_are_received(pane, split(keys, '\n'));
}

/// A pane waits for an answer as soon as a pattern stands in one of its last fifteen lines,
/// whatever it runs: in its last line, or in a line with fewer than fifteen lines behind it.
pub proof fn late_patterns_ask(
    above: Seq<Seq<char>>,
    line: Seq<char>,
    below: Seq<Seq<char>>,
    command: Seq<char>,
    patterns: Seq<Seq<char>>,
    j: int,
)
    requires
        below.len() < 15,
        0 <= j < patterns.len(),
        occurs_in(line, patterns[j]),
    ensures
        status_of(above.push(line), command, patterns) == PaneStatus::NeedsAttention,
        status_of(above.push(line) + below, command, patterns) == PaneStatus::NeedsAttention,
{
    let all = above.push(line) + below;
    let n = above.len() as int;
    assert(all[n] == line);
    assert(occurs_in(all[n], patterns[j]));
    assert(above.push(line)[n] == line);
    assert(occurs_in(above.push(line)[n], patterns[j]));
}

/// Where no pattern stands in the last fifteen lines of a pane, its command decides: a pane with
/// a shell is idle, any other is active.
pub proof fn without_patterns_the_command_decides(
    content: Seq<Seq<char>>,
    command: Seq<char>,
    patterns: Seq<Seq<char>>,
)
    requires
        forall|i: int, j: int|
            0 <= i < content.len() && content.len() - 15 <= i && 0 <= j < patterns.len()
                ==> !#[trigger] occurs_in(content[i], patterns[j]),
    ensures
        status_of(content, command, patterns) == if command == "bash"@ || command == "zsh"@
            || command == "fish"@ || command == "sh"@ || command == "dash"@ || command == "tcsh"@
            || command == "csh"@ {
            PaneStatus::Idle
        } else {
            PaneStatus::Active
        },
{
}

/// The numbers of the panes of the window `id` among the first `n`.
spec fn positions(f: Findings, id: Seq<char>, n: int) -> Seq<int>
    decreases n,
{
    if n <= 0 {
        Seq::empty()
    } else if f.listed[n - 1].window_id == id {
        positions(f, id, n - 1).push(n - 1)
    } else {
        positions(f, id, n - 1)
    }
}

proof fn positions_are_those_of_the_panes(f: Findings, id: Seq<char>, n: int)
    requires
        0 <= n,
    ensures
        f.panes_of(id, n).len() == positions(f, id, n).len(),
        forall|j: int|
            0 <= j < positions(f, id, n).len() ==> {
                &&& 0 <= #[trigger] positions(f, id, n)[j] < n
                &&& f.listed[positions(f, id, n)[j]].window_id == id
                &&& f.panes_of(id, n)[j] == f.pane(positions(f, id, n)[j])
            },
        forall|a: int, b: int|
            0 <= a < b < positions(f, id, n).len() ==> #[trigger] positions(f, id, n)[a]
                < #[trigger] positions(f, id, n)[b],
        forall|k: int|
            0 <= k < n && (#[trigger] f.listed[k]).window_id == id ==> positions(f, id, n).contains(
                k,
            ),
    decreases n,
{
    if n > 0 {
        positions_are_those_of_the_panes(f, id, n - 1);
        let before = positions(f, id, n - 1);
        let all = positions(f, id, n);
        assert forall|k: int| 0 <= k < n && (#[trigger] f.listed[k]).window_id == id implies all.contains(
            k,
        ) by {
            if k < n - 1 {
                assert(before.contains(k));
                let j = choose|j: int| 0 <= j < before.len() && before[j] == k;
                assert(all[j] == k);
            } else {
                assert(all[all.len() - 1] == k);
            }
        }
    }
}

/// A window shows the panes that were listed with its id, in the order of the listing, each with
/// what was listed and captured of it: there are ascending numbers, among them that of every
/// listed and captured pane of the window, such that each pane of the window has the id, the
/// index, the geometry and the screen of the listed pane with its number, and the status that
/// this screen and the command of this listed pane give. What the window says of itself was
/// listed with the first of them.
pub proof fn windows_show_what_was_listed(f: Findings, windows: Seq<WindowModel>, i: int)
    requires
        f.gives(windows),
        0 <= i < windows.len(),
    ensures
        exists|ks: Seq<int>|
            {
                let w = windows[i];
                let first = f.listed[ks[0]];
                &&& 0 < #[trigger] ks.len() == w.panes.len()
                &&& forall|a: int, b: int| 0 <= a < b < ks.len() ==> #[trigger] ks[a] < #[trigger] ks[b]
                &&& forall|k: int|
                    0 <= k < f.listed.len() && k < f.screens.len() && (#[trigger] f.listed[k]).window_id
                        == w.id ==> ks.contains(k)
                &&& forall|j: int|
                    0 <= j < ks.len() ==> {
                        let p = f.listed[#[trigger] ks[j]];
                        &&& 0 <= ks[j] < f.listed.len()
                        &&& ks[j] < f.screens.len()
                        &&& p.window_id == w.id
                        &&& w.panes[j].id == p.pane_id
                        &&& w.panes[j].index == p.pane_index
                        &&& w.panes[j].geometry.left == p.pane_left
                        &&& w.panes[j].geometry.top == p.pane_top
                        &&& w.panes[j].geometry.width == p.pane_width
                        &&& w.panes[j].geometry.height == p.pane_height
                        &&& w.panes[j].content == f.screens[ks[j]]
                        &&& w.panes[j].status == status_of(
                            f.screens[ks[j]],
                            p.current_command,
                            f.patterns,
                        )
                    }
                &&& w.host == f.host
                &&& w.session == first.session
                &&& w.window_index == first.window_index
                &&& w.window_name == first.window_name
                &&& w.width == first.window_width
                &&& w.height == first.window_height
            },
{
    let n = f.len();
    let w = windows[i];
    assert(f.has_window(w, n));
    reveal(Findings::has_window);
    let k = choose|k: int| 0 <= k < n && f.window_opened_by(w, k, n);
    let ks = positions(f, w.id, n);
    positions_are_those_of_the_panes(f, w.id, n);
    assert(f.listed[k].window_id == w.id);
    assert(ks.contains(k));
    let j = choose|j: int| 0 <= j < ks.len() && ks[j] == k;
    assert(ks[0] == k) by {
        if j > 0 {
            assert(ks[0] < ks[j]);
            assert(f.listed[ks[0]].window_id == w.id);
        }
    }
    assert(ks.len() == w.panes.len());
}

/// A listed and captured pane in whose last fifteen lines no pattern stands is shown as idle if
/// its command is a shell and as active otherwise, whatever else was listed of it; one with a
/// pattern there is shown as needing attention.
pub proof fn shown_statuses_follow_screen_and_command(f: Findings, windows: Seq<WindowModel>, k: int)
    requires
        f.gives(windows),
        0 <= k < f.listed.len(),
        k < f.screens.len(),
    ensures
        exists|i: int, j: int|
            {
                let command = f.listed[k].current_command;
                let screen = f.screens[k];
                &&& 0 <= i < windows.len()
                &&& 0 <= j < windows[i].panes.len()
                &&& windows[i].id == f.listed[k].window_id
                &&& (#[trigger] windows[i].panes[j]).id == f.listed[k].pane_id
                &&& windows[i].panes[j].content == screen
                &&& windows[i].panes[j].status == if exists|l: int, q: int|
                    0 <= l < screen.len() && screen.len() - 15 <= l && 0 <= q < f.patterns.len()
                        && #[trigger] occurs_in(screen[l], f.patterns[q]) {
                    PaneStatus::NeedsAttention
                } else if command == "bash"@ || command == "zsh"@ || command == "fish"@ || command
                    == "sh"@ || command == "dash"@ || command == "tcsh"@ || command == "csh"@ {
                    PaneStatus::Idle
                } else {
                    PaneStatus::Active
                }
            },
{
    every_pane_is_shown_once(f, windows);
    let i = choose|i: int|
        0 <= i < windows.len() && windows[i].id == f.listed[k].window_id
            && windows[i].panes.contains(f.pane(k));
    let j = choose|j: int| 0 <= j < windows[i].panes.len() && windows[i].panes[j] == f.pane(k);
    assert(windows[i].panes[j].id == f.listed[k].pane_id);
}

/// The windows of a host come session by session, in the order of the texts, and in each session
/// by index.
pub proof fn windows_come_by_session_and_index(f: Findings, windows: Seq<WindowModel>, i: int, j: int)
    requires
        f.gives(windows),
        0 <= i < j < windows.len(),
    ensures
        text_le(windows[i].session, windows[j].session),
        windows[i].session == windows[j].session ==> windows[i].window_index
            <= windows[j].window_index,
        windows[i].id != windows[j].id,
{
    assert(before_or_level(windows[i], windows[j]));
    text_le_is_total(windows[i].session, windows[j].session);
}

/// A capture that failed leaves the pane empty, and one that succeeded shows its lines without
/// the empty ones at the end.
pub proof fn screens_are_the_captured_lines(captures: Seq<Option<String>>, i: int)
    requires
        0 <= i < captures.len(),
    ensures
        screens(captures).len() == captures.len(),
        captures[i] is None ==> screens(captures)[i].len() == 0,
        captures[i] matches Some(stdout) ==> {
            let screen = screens(captures)[i];
            let all = lines(stdout@);
            &&& screen.len() <= all.len()
            &&& screen == all.take(screen.len() as int)
            &&& forall|l: int| screen.len() <= l < all.len() ==> (#[trigger] all[l]).len() == 0
            &&& screen.len() > 1 ==> screen.last().len() > 0
            &&& all.len() > 0 ==> screen.len() > 0
        },
{
    if let Some(stdout) = captures[i] {
        trimming_drops_empty_lines(lines(stdout@));
    }
}

/// A pane written in one line of a listing, its fields in order and its numbers in decimal, reads
/// back as that pane; a line with fewer fields describes none.
pub proof fn listed_panes_read_back(p: ParsedModel, pid: Seq<char>, few: Seq<Seq<char>>)
    requires
        !p.session.contains('\t'),
        !p.window_id.contains('\t'),
        !p.window_name.contains('\t'),
        !p.pane_id.contains('\t'),
        !p.current_command.contains('\t'),
        !pid.contains('\t'),
        0 < few.len() < 14,
        forall|i: int| 0 <= i < few.len() ==> !(#[trigger] few[i]).contains('\t'),
    ensures
        pane_from_line(
            join(
                seq![
                    p.session,
                    p.window_id,
                    decimal(p.window_index as nat),
                    p.window_name,
                    decimal(p.window_width as nat),
                    decimal(p.window_height as nat),
                    p.pane_id,
                    decimal(p.pane_index as nat),
                    decimal(p.pane_left as nat),
                    decimal(p.pane_top as nat),
                    decimal(p.pane_width as nat),
                    decimal(p.pane_height as nat),
                    p.current_command,
                    pid,
                ],
                seq!['\t'],
            ),
        ) == Some(p),
        pane_from_line(join(few, seq!['\t'])) is None,
{
    let fields = seq![
        p.session,
        p.window_id,
        decimal(p.window_index as nat),
        p.window_name,
        decimal(p.window_width as nat),
        decimal(p.window_height as nat),
        p.pane_id,
        decimal(p.pane_index as nat),
        decimal(p.pane_left as nat),
        decimal(p.pane_top as nat),
        decimal(p.pane_width as nat),
        decimal(p.pane_height as nat),
        p.current_command,
        pid,
    ];
    number_has_no_tab(p.window_index);
    number_has_no_tab(p.window_width);
    number_has_no_tab(p.window_height);
    number_has_no_tab(p.pane_index);
    number_has_no_tab(p.pane_left);
    number_has_no_tab(p.pane_top);
    number_has_no_tab(p.pane_width);
    number_has_no_tab(p.pane_height);
    assert forall|i: int| 0 <= i < fields.len() implies !(#[trigger] fields[i]).contains('\t') by {}
    listed_fields_read_back(fields);
    join_then_split(few, '\t');
}

proof fn number_has_no_tab(n: u32)
    ensures
        !decimal(n as nat).contains('\t'),
        u32_value(decimal(n as nat)) == Some(n),
{
    decimal_reads_back(n);
    let s = decimal(n as nat);
    if s.contains('\t') {
        let k = choose|k: int| 0 <= k < s.len() && s[k] == '\t';
        other_texts_are_no_numbers(s, k);
    }
}

/// Where a field of a listed pane holds no number, the number is the usual one.
pub proof fn unreadable_numbers_are_the_usual_ones(fields: Seq<Seq<char>>, i: int)
    requires
        fields.len() >= 14,
        forall|k: int| 0 <= k < fields.len() ==> !(#[trigger] fields[k]).contains('\t'),
        0 <= i < fields.len(),
        u32_value(fields[i]) is None,
    ensures
        pane_from_line(join(fields, seq!['\t'])) matches Some(p) && {
            &&& i == 2 ==> p.window_index == 0
            &&& i == 4 ==> p.window_width == 200
            &&& i == 5 ==> p.window_height == 50
            &&& i == 7 ==> p.pane_index == 0
            &&& i == 8 ==> p.pane_left == 0
            &&& i == 9 ==> p.pane_top == 0
            &&& i == 10 ==> p.pane_width == 80
            &&& i == 11 ==> p.pane_height == 24
        },
{
    listed_fields_read_back(fields);
}

/// Listings are read line by line: the panes of two listings are those of the first and then
/// those of the second, and one line gives its pane, if it describes one.
pub proof fn listings_add_up(a: Seq<Seq<char>>, b: Seq<Seq<char>>, line: Seq<char>)
    ensures
        panes_from_lines(a + b) == panes_from_lines(a) + panes_from_lines(b),
        panes_from_lines(seq![line]) == match pane_from_line(line) {
            Some(p) => seq![p],
            None => Seq::empty(),
        },
    decreases b.len(),
{
    assert(seq![line].drop_last() =~= Seq::<Seq<char>>::empty());
    assert(panes_from_lines(seq![line].drop_last()) == Seq::<ParsedModel>::empty());
    if b.len() == 0 {
        assert(a + b =~= a);
        assert(panes_from_lines(a) + panes_from_lines(b) =~= panes_from_lines(a));
    } else {
        listings_add_up(a, b.drop_last(), line);
        assert((a + b).drop_last() =~= a + b.drop_last());
        assert((a + b).last() == b.last());
        assert(panes_from_lines(a + b) =~= panes_from_lines(a) + panes_from_lines(b));
    }
}

/// Keys go to the pane they are for, and only as typed text without line feeds or as the Enter
/// key.
pub proof fn keys_go_to_their_pane(pane: Seq<char>, keys: Seq<char>, i: int)
    requires
        0 <= i < typing_lines(pane, split(keys, '\n')).len(),
    ensures
        ({
            let command = typing_lines(pane, split(keys, '\n'))[i];
            ||| command == seq!["send-keys"@, "-t"@, pane, "Enter"@]
            ||| {
                &&& command.len() == 5
                &&& command == seq!["send-keys"@, "-t"@, pane, "-l"@, command[4]]
                &&& command[4].len() > 0
                &&& !command[4].contains('\n')
            }
        }),
{
    split_then_join(keys, '\n');
    typed_parts_go_to_their_pane(pane, split(keys, '\n'), i);
}

proof fn typed_parts_go_to_their_pane(pane: Seq<char>, parts: Seq<Seq<char>>, i: int)
    requires
        forall|k: int| 0 <= k < parts.len() ==> !(#[trigger] parts[k]).contains('\n'),
        0 <= i < typing_lines(pane, parts).len(),
    ensures
        ({
            let command = typing_lines(pane, parts)[i];
            ||| command == seq!["send-keys"@, "-t"@, pane, "Enter"@]
            ||| {
                &&& command.len() == 5
                &&& command == seq!["send-keys"@, "-t"@, pane, "-l"@, command[4]]
                &&& command[4].len() > 0
                &&& !command[4].contains('\n')
            }
        }),
    decreases parts.len(),
{
    let head = parts.drop_last();
    let before = typing_lines(pane, head);
    assert(!parts[parts.len() - 1].contains('\n'));
    if parts.len() > 1 && i < before.len() {
        assert forall|k: int| 0 <= k < head.len() implies !(#[trigger] head[k]).contains('\n') by {
            assert(head[k] == parts[k]);
        }
        typed_parts_go_to_their_pane(pane, head, i);
    }
}

/// Which arguments are quoted: those that hold one of the characters special to a shell are put
/// between single quotes, as they are if they hold no single quote, and those of letters, digits
/// and characters without a meaning of their own stand as they are.
pub proof fn special_arguments_are_quoted(arg: Seq<char>, i: int)
    ensures
        0 <= i < arg.len() && (white_space(arg[i]) || arg[i] == ' ' || arg[i] == '\t' || arg[i] == '\n' || arg[i] == '|'
            || arg[i] == '&' || arg[i] == ';' || arg[i] == '<' || arg[i] == '>' || arg[i] == '('
            || arg[i] == ')' || arg[i] == '$' || arg[i] == '`' || arg[i] == '\\' || arg[i] == '"'
            || arg[i] == '*' || arg[i] == '?' || arg[i] == '[' || arg[i] == '#' || arg[i] == '~'
            || arg[i] == '!' || arg[i] == '{' || arg[i] == '}') && !arg.contains('\'') ==> quoted(
            arg,
        ) == seq!['\''] + arg + seq!['\''],
        arg.contains('\'') ==> quoted(arg) == seq!['\''] + escaped(arg) + seq!['\''],
        (forall|k: int|
            0 <= k < arg.len() ==> !white_space(#[trigger] arg[k]) && arg[k] != '|' && arg[k] != '&'
                && arg[k] != ';' && arg[k] != '<' && arg[k] != '>' && arg[k] != '(' && arg[k] != ')'
                && arg[k] != '$' && arg[k] != '`' && arg[k] != '\\' && arg[k] != '"' && arg[k]
                != '\'' && arg[k] != '*' && arg[k] != '?' && arg[k] != '[' && arg[k] != '#'
                && arg[k] != '~' && arg[k] != '!' && arg[k] != '{' && arg[k] != '}') ==> quoted(arg)
            == arg,
        (forall|k: int|
            0 <= k < arg.len() ==> ('a' <= #[trigger] arg[k] <= 'z' || 'A' <= arg[k] <= 'Z' || '0'
                <= arg[k] <= '9' || arg[k] == '%' || arg[k] == '+' || arg[k] == ',' || arg[k] == '-'
                || arg[k] == '.' || arg[k] == '/' || arg[k] == ':' || arg[k] == '=' || arg[k] == '@'
                || arg[k] == '_')) ==> quoted(arg) == arg,
{
    reveal_strlit("'");
    assert("'"@ =~= seq!['\'']);
    escaping_keeps_other_texts(arg);
    if 0 <= i < arg.len() && special(arg[i]) {
        assert(has_special(arg));
    }
    if arg.contains('\'') {
        let k = choose|k: int| 0 <= k < arg.len() && arg[k] == '\'';
        assert(special(arg[k]));
    }
}

/// Escaping goes character by character: a single quote becomes a quote that ends the quoted
/// text, an escaped one, and one that goes on with it; any other character stays.
pub proof fn escaping_goes_by_characters(a: Seq<char>, b: Seq<char>, c: char)
    ensures
        escaped(a + b) == escaped(a) + escaped(b),
        escaped(seq![c]) == if c == '\'' {
            seq!['\'', '\\', '\'', '\'']
        } else {
            seq![c]
        },
    decreases b.len(),
{
    assert(seq![c].drop_last() =~= Seq::<char>::empty());
    assert(escaped(seq![c].drop_last()) == Seq::<char>::empty());
    assert(escaped(seq![c]) =~= if c == '\'' {
        seq!['\'', '\\', '\'', '\'']
    } else {
        seq![c]
    });
    if b.len() == 0 {
        assert(a + b =~= a);
        assert(escaped(a) + escaped(b) =~= escaped(a));
    } else {
        escaping_goes_by_characters(a, b.drop_last(), c);
        assert((a + b).drop_last() =~= a + b.drop_last());
        assert((a + b).last() == b.last());
        assert(escaped(a + b) =~= escaped(a) + escaped(b));
    }
}

proof fn escaping_keeps_other_texts(arg: Seq<char>)
    ensures
        !arg.contains('\'') ==> escaped(arg) == arg,
    decreases arg.len(),
{
    if arg.len() == 0 {
        assert(escaped(arg) =~= arg);
    } else if !arg.contains('\'') {
        let head = arg.drop_last();
        if head.contains('\'') {
            let k = choose|k: int| 0 <= k < head.len() && head[k] == '\'';
            assert(arg[k] == '\'');
        }
        escaping_keeps_other_texts(head);
        assert(arg[arg.len() - 1] != '\'');
        assert(head.push(arg.last()) =~= arg);
    }
}

/// A remote command line grows argument by argument, with one blank before each.
pub proof fn command_lines_grow_by_arguments(args: Seq<Seq<char>>, arg: Seq<char>)
    ensures
        args.len() > 0 ==> remote_command_line(args.push(arg)) == remote_command_line(args) + seq![
            ' ',
        ] + quoted(arg),
        remote_command_line(seq![arg]) == seq!['t', 'm', 'u', 'x', ' '] + quoted(arg),
{
    reveal_strlit(" ");
    reveal_strlit("tmux ");
    assert(" "@ =~= seq![' ']);
    assert("tmux "@ =~= seq!['t', 'm', 'u', 'x', ' ']);
    let parts = args.push(arg).map_values(|a: Seq<char>| quoted(a));
    assert(parts.drop_last() =~= args.map_values(|a: Seq<char>| quoted(a)));
    assert(remote_command_line(args.push(arg)) == "tmux "@ + join(parts, " "@));
    if args.len() > 0 {
        assert(remote_command_line(args.push(arg)) =~= remote_command_line(args) + seq![' ']
            + quoted(arg));
    }
}

/// Parts are typed one after the other, with the Enter key between each two: two groups of parts
/// are typed like all of them, and one part as its text, if it has any.
pub proof fn typed_parts_add_up(
    pane: Seq<char>,
    a: Seq<Seq<char>>,
    b: Seq<Seq<char>>,
    part: Seq<char>,
)
    ensures
        a.len() > 0 && b.len() > 0 ==> typing_lines(pane, a + b) == typing_lines(pane, a) + seq![
            seq!["send-keys"@, "-t"@, pane, "Enter"@],
        ] + typing_lines(pane, b),
        typing_lines(pane, seq![part]) == if part.len() == 0 {
            Seq::<Seq<Seq<char>>>::empty()
        } else {
            seq![seq!["send-keys"@, "-t"@, pane, "-l"@, part]]
        },
    decreases b.len(),
{
    if a.len() > 0 && b.len() > 0 {
        assert((a + b).drop_last() =~= a + b.drop_last());
        assert((a + b).last() == b.last());
        if b.len() == 1 {
            assert(a + b.drop_last() =~= a);
        } else {
            typed_parts_add_up(pane, a, b.drop_last(), part);
        }
        assert(typing_lines(pane, a + b) =~= typing_lines(pane, a) + seq![
            seq!["send-keys"@, "-t"@, pane, "Enter"@],
        ] + typing_lines(pane, b));
    }
}

/// The model of a listed pane holds what was listed, field by field.
pub proof fn parsed_models_hold_the_fields(p: ParsedPane)
    ensures
        p@.session == p.session@ && p@.window_id == p.window_id@ && p@.window_index
            == p.window_index && p@.window_name == p.window_name@ && p@.window_width
            == p.window_width && p@.window_height == p.window_height && p@.pane_id == p.pane_id@
            && p@.pane_index == p.pane_index && p@.pane_left == p.pane_left && p@.pane_top
            == p.pane_top && p@.pane_width == p.pane_width && p@.pane_height == p.pane_height
            && p@.current_command == p.current_command@,
{
}

} // verus!
