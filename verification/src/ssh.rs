//! Logging in over SSH and running commands there.

use vstd::prelude::*;
use vstd::string::*;
use vstd::utf8::*;
use crate::text::{chars_of, decimal, decimal_of, string_of};
use crate::tmux::{from_utf8_lossy, utf8_lossy};

verus! {

/// A file that may hold a key to log in with.
#[derive(Debug, Clone)]
pub enum KeyPath {
    /// The file at this path.
    Given(String),
    /// The file of this name in the directory `.ssh` of the user's home.
    InSshDir(String),
}

/// The model of a [`KeyPath`].
#[verifier::ext_equal]
pub enum KeyPathModel {
    Given(Seq<char>),
    InSshDir(Seq<char>),
}

impl View for KeyPath {
    type V = KeyPathModel;

    open spec fn view(&self) -> KeyPathModel {
        match self {
            KeyPath::Given(path) => KeyPathModel::Given(path@),
            KeyPath::InSshDir(name) => KeyPathModel::InSshDir(name@),
        }
    }
}

/// The models of a sequence of key files.
pub open spec fn key_path_models(v: Seq<KeyPath>) -> Seq<KeyPathModel> {
    Seq::new(v.len(), |i: int| v[i]@)
}

/// The usual key files: none if the user has no home.
pub open spec fn standard_key_paths(has_home: bool) -> Seq<KeyPathModel> {
    if has_home {
        seq![
            KeyPathModel::InSshDir("id_ed25519"@),
            KeyPathModel::InSshDir("id_rsa"@),
            KeyPathModel::InSshDir("id_ecdsa"@),
        ]
    } else {
        Seq::empty()
    }
}

/// The usual key files.
pub fn default_key_paths(has_home: bool) -> (r: Vec<KeyPath>)
    ensures
        key_path_models(r@) == standard_key_paths(has_home),
{
    let mut r: Vec<KeyPath> = Vec::new();
    if has_home {
        r.push(KeyPath::InSshDir("id_ed25519".to_owned()));
        r.push(KeyPath::InSshDir("id_rsa".to_owned()));
        r.push(KeyPath::InSshDir("id_ecdsa".to_owned()));
    }
    assert(key_path_models(r@) =~= standard_key_paths(has_home));
    r
}

/// The key files to try: the configured one, if there is one, then the usual ones.
pub fn key_paths(configured: Option<&str>, has_home: bool) -> (r: Vec<KeyPath>)
    ensures
        key_path_models(r@) == match configured {
            Some(path) => seq![KeyPathModel::Given(path@)] + standard_key_paths(has_home),
            None => standard_key_paths(has_home),
        },
{
    let mut usual = default_key_paths(has_home);
    match configured {
        Some(path) => {
            let mut r: Vec<KeyPath> = Vec::new();
            r.push(KeyPath::Given(path.to_owned()));
            r.append(&mut usual);
            assert(key_path_models(r@) =~= seq![KeyPathModel::Given(path@)] + standard_key_paths(
                has_home,
            ));
            r
        },
        None => usual,
    }
}

/// What came of trying a key file.
#[derive(Debug, Clone, Copy, PartialEq, Eq, Structural)]
pub enum KeyOutcome {
    /// There is no such file.
    Missing,
    /// The server let the user in.
    Accepted,
    /// The server did not let the user in.
    Rejected,
    /// The file could not be used, or the server could not be asked.
    Failed,
}

/// Why an SSH operation did not succeed.
#[derive(Debug, Clone)]
pub enum SshError {
    /// No key let the user in.
    Authentication { user: String, host: String, port: u16, keys: usize },
    /// The command did not finish in time.
    TimedOut { command: String },
    /// The command reported failure. `output` is the beginning of what it printed.
    Exited { code: u32, output: String },
}

impl SshError {
    /// The text of the message that reports the error.
    pub open spec fn report(self) -> Seq<char> {
        match self {
            SshError::Authentication { user, host, port, keys } => "SSH authentication failed for "@
                + user@ + "@"@ + host@ + ":"@ + decimal(port as nat) + " (tried "@ + decimal(
                keys as nat,
            ) + " keys)"@,
            SshError::TimedOut { command } => "SSH command timed out: "@ + command@,
            SshError::Exited { code, output } => "Remote command exited with "@ + decimal(
                code as nat,
            ) + ": "@ + output@,
        }
    }

    /// The message that reports the error.
    pub fn message(&self) -> (r: String)
        ensures
            r@ == self.report(),
            self matches SshError::Authentication { user, host, port, keys } ==> r@
                == "SSH authentication failed for "@ + user@ + "@"@ + host@ + ":"@ + decimal(
                *port as nat,
            ) + " (tried "@ + decimal(*keys as nat) + " keys)"@,
            self matches SshError::TimedOut { command } ==> r@ == "SSH command timed out: "@
                + command@,
            self matches SshError::Exited { code, output } ==> r@ == "Remote command exited with "@
                + decimal(*code as nat) + ": "@ + output@,
    {
        match self {
            SshError::Authentication { user, host, port, keys } => {
                let mut r = "SSH authentication failed for ".to_owned();
                r.append(user.as_str());
                r.append("@");
                r.append(host.as_str());
                r.append(":");
                r.append(decimal_of(*port as u128).as_str());
                r.append(" (tried ");
                r.append(decimal_of(*keys as u128).as_str());
                r.append(" keys)");
                r
            },
            SshError::TimedOut { command } => {
                let mut r = "SSH command timed out: ".to_owned();
                r.append(command.as_str());
                r
            },
            SshError::Exited { code, output } => {
                let mut r = "Remote command exited with ".to_owned();
                r.append(decimal_of(*code as u128).as_str());
                r.append(": ");
                r.append(output.as_str());
                r
            },
        }
    }
}

/// How far the attempts to log in have come.
#[verifier::ext_equal]
pub struct LoginModel {
    /// How many of the key files have been tried or found missing.
    pub next: int,
    pub authenticated: bool,
}

/// Where an attempt with the next of `n` key files leads. Nothing happens any more once the
/// user is in or no key file is left.
pub open spec fn after_outcome(n: nat, state: LoginModel, outcome: KeyOutcome) -> LoginModel {
    if state.authenticated || state.next >= n {
        state
    } else if outcome == KeyOutcome::Accepted {
        LoginModel { authenticated: true, ..state }
    } else {
        LoginModel { next: state.next + 1, ..state }
    }
}

/// Where attempts with `n` key files lead, one after the other.
pub open spec fn after_outcomes(n: nat, outcomes: Seq<KeyOutcome>) -> LoginModel
    decreases outcomes.len(),
{
    if outcomes.len() == 0 {
        LoginModel { next: 0, authenticated: false }
    } else {
        after_outcome(n, after_outcomes(n, outcomes.drop_last()), outcomes.last())
    }
}

/// The user gets in exactly if one of the key files, tried in order, is accepted, and the
/// first that is accepted is the last that is tried.
pub proof fn first_accepted_key_logs_in(n: nat, outcomes: Seq<KeyOutcome>)
    ensures
        after_outcomes(n, outcomes).authenticated <==> exists|i: int|
            0 <= i < outcomes.len() && i < n && #[trigger] outcomes[i] == KeyOutcome::Accepted,
        after_outcomes(n, outcomes).authenticated ==> ({
            let at = after_outcomes(n, outcomes).next;
            &&& 0 <= at < outcomes.len()
            &&& at < n
            &&& outcomes[at] == KeyOutcome::Accepted
            &&& forall|i: int| 0 <= i < at ==> #[trigger] outcomes[i] != KeyOutcome::Accepted
        }),
        !after_outcomes(n, outcomes).authenticated ==> after_outcomes(n, outcomes).next == if n
            <= outcomes.len() {
            n
        } else {
            outcomes.len()
        },
    decreases outcomes.len(),
{
    if outcomes.len() > 0 {
        let head = outcomes.drop_last();
        first_accepted_key_logs_in(n, head);
        let before = after_outcomes(n, head);
        assert forall|i: int| 0 <= i < head.len() implies head[i] == #[trigger] outcomes[i] by {}
        if before.authenticated {
            assert(outcomes[before.next] == KeyOutcome::Accepted);
        } else {
            assert forall|i: int| 0 <= i < head.len() && i < n implies #[trigger] outcomes[i]
                != KeyOutcome::Accepted by {
                assert(head[i] == outcomes[i]);
            }
            if outcomes.last() == KeyOutcome::Accepted && head.len() < n {
                assert(outcomes[head.len() as int] == KeyOutcome::Accepted);
            }
        }
    }
}

/// A key file in front of `n` others adds one attempt: the user gets in if that file is
/// accepted, and otherwise exactly if the others alone let the user in. So the usual key files
/// still count where the configured one is missing or not accepted.
pub proof fn refused_key_leaves_the_others(n: nat, first: KeyOutcome, rest: Seq<KeyOutcome>)
    ensures
        after_outcomes(n + 1, seq![first] + rest).authenticated <==> first == KeyOutcome::Accepted
            || after_outcomes(n, rest).authenticated,
{
    let all = seq![first] + rest;
    first_accepted_key_logs_in(n + 1, all);
    first_accepted_key_logs_in(n, rest);
    if first == KeyOutcome::Accepted {
        assert(all[0] == KeyOutcome::Accepted);
    }
    if after_outcomes(n, rest).authenticated {
        let i = after_outcomes(n, rest).next;
        assert(all[i + 1] == KeyOutcome::Accepted);
    }
    if after_outcomes(n + 1, all).authenticated && first != KeyOutcome::Accepted {
        let i = after_outcomes(n + 1, all).next;
        assert(rest[i - 1] == KeyOutcome::Accepted);
    }
}

/// An attempt to log in with one key file after the other.
#[derive(Debug)]
pub struct Login {
    paths: Vec<KeyPath>,
    next: usize,
    authenticated: bool,
}

impl Login {
    /// The key files to try.
    pub closed spec fn paths(&self) -> Seq<KeyPathModel> {
        key_path_models(self.paths@)
    }

    /// How far the attempts have come.
    pub closed spec fn state(&self) -> LoginModel {
        LoginModel { next: self.next as int, authenticated: self.authenticated }
    }

    #[verifier::type_invariant]
    spec fn valid(self) -> bool {
        self.next <= self.paths@.len()
    }

    /// Starts with the first of `paths`.
    pub fn new(paths: Vec<KeyPath>) -> (r: Login)
        ensures
            r.paths() == key_path_models(paths@),
            r.state() == (LoginModel { next: 0, authenticated: false }),
    {
        Login { paths, next: 0, authenticated: false }
    }

    /// The key file to try next: none once the user is in or no file is left.
    pub fn current(&self) -> (r: Option<&KeyPath>)
        ensures
            match r {
                Some(path) => !self.state().authenticated && 0 <= self.state().next
                    < self.paths().len() && path@ == self.paths()[self.state().next],
                None => self.state().authenticated || self.state().next == self.paths().len(),
            },
    {
        proof {
            use_type_invariant(self);
        }
        if self.authenticated || self.next >= self.paths.len() {
            None
        } else {
            Some(&self.paths[self.next])
        }
    }

    /// Takes note of what came of trying the current key file.
    pub fn report(&mut self, outcome: KeyOutcome)
        ensures
            final(self).paths() == old(self).paths(),
            final(self).state() == after_outcome(
                old(self).paths().len(),
                old(self).state(),
                outcome,
            ),
    {
        proof {
            use_type_invariant(&*self);
        }
        if self.authenticated || self.next >= self.paths.len() {
            return;
        }
        match outcome {
            KeyOutcome::Accepted => {
                self.authenticated = true;
            },
            KeyOutcome::Missing | KeyOutcome::Rejected | KeyOutcome::Failed => {
                self.next = self.next + 1;
            },
        }
    }

    /// Whether the user is in, and if not, the error to report.
    pub fn finish(&self, user: &str, host: &str, port: u16) -> (r: Result<(), SshError>)
        ensures
            r is Ok <==> self.state().authenticated,
            r matches Err(e) ==> e matches SshError::Authentication {
                user: u,
                host: h,
                port: p,
                keys,
            } && u@ == user@ && h@ == host@ && p == port && keys == self.paths().len(),
    {
        if self.authenticated {
            Ok(())
        } else {
            Err(
                SshError::Authentication {
                    user: user.to_owned(),
                    host: host.to_owned(),
                    port,
                    keys: self.paths.len(),
                },
            )
        }
    }
}

/// Something that a remote command sends.
#[derive(Debug, Clone)]
pub enum ChannelEvent {
    /// A part of what it prints.
    Data(Vec<u8>),
    /// Its exit status.
    ExitStatus(u32),
    /// It prints no more.
    Eof,
    /// The channel is closed, or nothing more comes.
    Close,
    /// Anything else.
    Other,
}

/// The model of a [`ChannelEvent`].
#[verifier::ext_equal]
pub enum ChannelModel {
    Data(Seq<u8>),
    ExitStatus(u32),
    Eof,
    Close,
    Other,
}

impl View for ChannelEvent {
    type V = ChannelModel;

    open spec fn view(&self) -> ChannelModel {
        match self {
            ChannelEvent::Data(data) => ChannelModel::Data(data@),
            ChannelEvent::ExitStatus(status) => ChannelModel::ExitStatus(*status),
            ChannelEvent::Eof => ChannelModel::Eof,
            ChannelEvent::Close => ChannelModel::Close,
            ChannelEvent::Other => ChannelModel::Other,
        }
    }
}

/// What has been received from a remote command.
#[derive(Debug)]
pub struct CommandOutput {
    pub stdout: Vec<u8>,
    pub exit_code: Option<u32>,
    /// Whether nothing more is waited for.
    pub done: bool,
}

/// How long a command may take, in seconds.
pub const COMMAND_TIMEOUT_SECS: u64 = 10;

/// How much of the output of a failed command is reported, in characters.
pub const HINT_CHARS: usize = 200;

/// The beginning of `s`, at most `n` characters.
pub open spec fn beginning(s: Seq<char>, n: int) -> Seq<char> {
    if s.len() <= n {
        s
    } else {
        s.take(n)
    }
}

/// The model of a [`CommandOutput`].
#[verifier::ext_equal]
pub struct OutputModel {
    pub stdout: Seq<u8>,
    pub exit_code: Option<u32>,
    pub done: bool,
}

impl View for CommandOutput {
    type V = OutputModel;

    open spec fn view(&self) -> OutputModel {
        OutputModel { stdout: self.stdout@, exit_code: self.exit_code, done: self.done }
    }
}

/// Nothing received yet.
pub open spec fn nothing_received() -> OutputModel {
    OutputModel { stdout: Seq::empty(), exit_code: None, done: false }
}

/// What has been received after another event. Nothing is taken note of once the command
/// prints no more or its channel is closed.
pub open spec fn after_channel_event(state: OutputModel, event: ChannelModel) -> OutputModel {
    if state.done {
        state
    } else {
        match event {
            ChannelModel::Data(data) => OutputModel { stdout: state.stdout + data, ..state },
            ChannelModel::ExitStatus(status) => OutputModel {
                exit_code: Some(status),
                ..state
            },
            ChannelModel::Eof | ChannelModel::Close => OutputModel { done: true, ..state },
            ChannelModel::Other => state,
        }
    }
}

/// What has been received after `events`.
pub open spec fn after_channel_events(events: Seq<ChannelModel>) -> OutputModel
    decreases events.len(),
{
    if events.len() == 0 {
        nothing_received()
    } else {
        after_channel_event(after_channel_events(events.drop_last()), events.last())
    }
}

/// What a command prints is received whole, in whatever portions it arrives.
pub proof fn portions_of_output_add_up(state: OutputModel, a: Seq<u8>, b: Seq<u8>)
    ensures
        after_channel_event(
            after_channel_event(state, ChannelModel::Data(a)),
            ChannelModel::Data(b),
        ) == after_channel_event(state, ChannelModel::Data(a + b)),
{
    assert(state.stdout + a + b =~= state.stdout + (a + b));
}

/// Nothing that arrives behind the end of the output counts.
pub proof fn end_of_output_is_final(before: Seq<ChannelModel>, after: Seq<ChannelModel>)
    ensures
        after_channel_events(before.push(ChannelModel::Eof) + after) == after_channel_events(
            before.push(ChannelModel::Eof),
        ),
        after_channel_events(before.push(ChannelModel::Close) + after) == after_channel_events(
            before.push(ChannelModel::Close),
        ),
{
    assert(before.push(ChannelModel::Eof).drop_last() =~= before);
    assert(before.push(ChannelModel::Close).drop_last() =~= before);
    nothing_counts_when_done(before.push(ChannelModel::Eof), after);
    nothing_counts_when_done(before.push(ChannelModel::Close), after);
}

proof fn nothing_counts_when_done(before: Seq<ChannelModel>, after: Seq<ChannelModel>)
    requires
        after_channel_events(before).done,
    ensures
        after_channel_events(before + after) == after_channel_events(before),
    decreases after.len(),
{
    if after.len() == 0 {
        assert(before + after =~= before);
    } else {
        nothing_counts_when_done(before, after.drop_last());
        assert((before + after).drop_last() =~= before + after.drop_last());
    }
}

impl CommandOutput {
    /// Nothing received yet.
    pub fn new() -> (r: CommandOutput)
        ensures
            r@ == nothing_received(),
            r.stdout@.len() == 0 && r.exit_code is None && !r.done,
    {
        CommandOutput { stdout: Vec::new(), exit_code: None, done: false }
    }

    /// Takes note of what the command sends.
    pub fn receive(&mut self, event: ChannelEvent)
        ensures
            final(self)@ == after_channel_event(old(self)@, event@),
            old(self).done ==> *final(self) == *old(self),
            !old(self).done ==> match event {
                ChannelEvent::Data(data) => final(self).stdout@ == old(self).stdout@ + data@
                    && final(self).exit_code == old(self).exit_code && !final(self).done,
                ChannelEvent::ExitStatus(status) => final(self).stdout@ == old(self).stdout@
                    && final(self).exit_code == Some(status) && !final(self).done,
                ChannelEvent::Eof | ChannelEvent::Close => final(self).stdout@ == old(self).stdout@
                    && final(self).exit_code == old(self).exit_code && final(self).done,
                ChannelEvent::Other => *final(self) == *old(self),
            },
    {
        if self.done {
            return;
        }
        match event {
            ChannelEvent::Data(data) => {
                let mut data = data;
                self.stdout.append(&mut data);
            },
            ChannelEvent::ExitStatus(status) => {
                self.exit_code = Some(status);
            },
            ChannelEvent::Eof | ChannelEvent::Close => {
                self.done = true;
            },
            ChannelEvent::Other => {},
        }
    }

    /// What the command gives: what it printed, or the error to report where it did not
    /// finish in time or reported a status other than zero.
    pub fn finish(&self, command: &str, timed_out: bool) -> (r: Result<String, SshError>)
        ensures
            r is Ok <==> !timed_out && (self.exit_code is None || self.exit_code == Some(0u32)),
            r matches Ok(text) ==> text@ == utf8_lossy(self.stdout@) && (valid_utf8(self.stdout@)
                ==> text@ == decode_utf8(self.stdout@)),
            r matches Err(e) ==> if timed_out {
                e matches SshError::TimedOut { command: c } && c@ == command@
            } else {
                e matches SshError::Exited { code, output } && Some(code) == self.exit_code
                    && output@ == beginning(utf8_lossy(self.stdout@), HINT_CHARS as int) && (
                valid_utf8(self.stdout@) ==> output@ == beginning(
                    decode_utf8(self.stdout@),
                    HINT_CHARS as int,
                ))
            },
    {
        command_result(
            command,
            timed_out,
            self.exit_code,
            from_utf8_lossy(self.stdout.as_slice()),
        )
    }
}

/// What a command gives that printed `text`: that text, or the error to report where the
/// command did not finish in time or reported a status other than zero.
pub fn command_result(
    command: &str,
    timed_out: bool,
    exit_code: Option<u32>,
    text: String,
) -> (r: Result<String, SshError>)
    ensures
        r is Ok <==> !timed_out && (exit_code is None || exit_code == Some(0u32)),
        r matches Ok(t) ==> t@ == text@,
        r matches Err(e) ==> if timed_out {
            e matches SshError::TimedOut { command: c } && c@ == command@
        } else {
            e matches SshError::Exited { code, output } && Some(code) == exit_code && output@
                == beginning(text@, HINT_CHARS as int)
        },
{
    if timed_out {
        return Err(SshError::TimedOut { command: command.to_owned() });
    }
    if let Some(code) = exit_code {
        if code != 0 {
            return Err(SshError::Exited { code, output: hint(text.as_str()) });
        }
    }
    Ok(text)
}

/// The beginning of what a failed command printed.
fn hint(output: &str) -> (r: String)
    ensures
        r@ == beginning(output@, HINT_CHARS as int),
{
    let cs = chars_of(output);
    let n: usize = if cs.len() <= HINT_CHARS { cs.len() } else { HINT_CHARS };
    let r = string_of(cs.as_slice(), 0, n);
    assert(r@ =~= beginning(output@, HINT_CHARS as int));
    r
}

/// The beginning of a text is as much of it as is asked for: all of it if it is no longer than
/// that, and in any case what the text starts with.
pub proof fn beginnings_start_the_text(s: Seq<char>, n: int)
    requires
        0 <= n,
    ensures
        beginning(s, n).len() == if s.len() <= n {
            s.len() as int
        } else {
            n
        },
        forall|i: int| 0 <= i < beginning(s, n).len() ==> #[trigger] beginning(s, n)[i] == s[i],
{
}

/// The usual key files are tried in this order, in the directory of the user.
pub proof fn usual_keys_come_in_order(has_home: bool)
    ensures
        standard_key_paths(has_home).len() == if has_home {
            3int
        } else {
            0
        },
        has_home ==> standard_key_paths(has_home)[0] == KeyPathModel::InSshDir("id_ed25519"@)
            && standard_key_paths(has_home)[1] == KeyPathModel::InSshDir("id_rsa"@)
            && standard_key_paths(has_home)[2] == KeyPathModel::InSshDir("id_ecdsa"@),
{
}

} // verus!
