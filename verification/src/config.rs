//! What the user configures, and what holds where nothing is configured.

use vstd::prelude::*;
use vstd::string::*;
use crate::text::{slices, strings, texts};

verus! {

/// The configuration of the dashboard.
#[derive(Debug, Clone)]
pub struct Config {
    pub hosts: Vec<HostConfig>,
    pub poll_interval_secs: u64,
    pub attention_patterns: Vec<String>,
    pub quick_actions: Vec<QuickAction>,
}

/// One host to watch.
#[derive(Debug, Clone)]
pub struct HostConfig {
    pub name: String,
    /// `user@address`, or an address alone, of a host that is reached over SSH.
    pub ssh: Option<String>,
    pub port: u16,
    pub local: bool,
    /// The file of the key to try first when logging in.
    pub key: Option<String>,
}

/// A button that types `keys`.
#[derive(Debug, Clone)]
pub struct QuickAction {
    pub label: String,
    pub keys: String,
}

/// The text of an optional string.
pub open spec fn optional_text(s: Option<String>) -> Option<Seq<char>> {
    match s {
        Some(s) => Some(s@),
        None => None,
    }
}

/// The model of a [`HostConfig`].
#[verifier::ext_equal]
pub struct HostModel {
    pub name: Seq<char>,
    pub ssh: Option<Seq<char>>,
    pub port: u16,
    pub local: bool,
    pub key: Option<Seq<char>>,
}

impl View for HostConfig {
    type V = HostModel;

    open spec fn view(&self) -> HostModel {
        HostModel {
            name: self.name@,
            ssh: optional_text(self.ssh),
            port: self.port,
            local: self.local,
            key: optional_text(self.key),
        }
    }
}

/// The models of a sequence of hosts.
pub open spec fn host_models(v: Seq<HostConfig>) -> Seq<HostModel> {
    Seq::new(v.len(), |i: int| v[i]@)
}

/// The model of a [`QuickAction`].
#[verifier::ext_equal]
pub struct ActionModel {
    pub label: Seq<char>,
    pub keys: Seq<char>,
}

impl View for QuickAction {
    type V = ActionModel;

    open spec fn view(&self) -> ActionModel {
        ActionModel { label: self.label@, keys: self.keys@ }
    }
}

/// The models of a sequence of quick actions.
pub open spec fn action_models(v: Seq<QuickAction>) -> Seq<ActionModel> {
    Seq::new(v.len(), |i: int| v[i]@)
}

/// Seconds between two polls.
pub fn default_poll_interval() -> (r: u64)
    ensures
        r == 2,
{
    2
}

/// The port of an SSH server.
pub fn default_port() -> (r: u16)
    ensures
        r == 22,
{
    22
}

/// The patterns whose presence on a pane means that it waits for an answer.
pub open spec fn standard_patterns() -> Seq<Seq<char>> {
    seq!["Do you want to"@, "Allow"@, "yes/no"@, "Permission"@, "Press enter"@]
}

/// The patterns whose presence on a pane means that it waits for an answer.
pub fn default_attention_patterns() -> (r: Vec<String>)
    ensures
        texts(r@) == standard_patterns(),
{
    let v = ["Do you want to", "Allow", "yes/no", "Permission", "Press enter"];
    let r = strings(&v);
    assert(slices(v@) =~= standard_patterns());
    r
}

/// The answers offered as buttons.
pub open spec fn standard_actions() -> Seq<ActionModel> {
    seq![
        ActionModel { label: "yes"@, keys: "yes\n"@ },
        ActionModel { label: "y"@, keys: "y\n"@ },
        ActionModel { label: "enter"@, keys: "\n"@ },
    ]
}

/// The answers offered as buttons.
pub fn default_quick_actions() -> (r: Vec<QuickAction>)
    ensures
        action_models(r@) == standard_actions(),
{
    let mut r: Vec<QuickAction> = Vec::new();
    r.push(QuickAction { label: "yes".to_owned(), keys: "yes\n".to_owned() });
    r.push(QuickAction { label: "y".to_owned(), keys: "y\n".to_owned() });
    r.push(QuickAction { label: "enter".to_owned(), keys: "\n".to_owned() });
    assert(action_models(r@) =~= standard_actions());
    r
}

impl Config {
    /// The configuration where there is no configuration file: this machine alone, and the
    /// defaults for everything else.
    pub fn localhost() -> (r: Config)
        ensures
            host_models(r.hosts@) == seq![
                HostModel { name: "localhost"@, ssh: None, port: 22, local: true, key: None },
            ],
            r.poll_interval_secs == 2,
            texts(r.attention_patterns@) == standard_patterns(),
            action_models(r.quick_actions@) == standard_actions(),
    {
        let mut hosts: Vec<HostConfig> = Vec::new();
        hosts.push(
            HostConfig {
                name: "localhost".to_owned(),
                ssh: None,
                port: default_port(),
                local: true,
                key: None,
            },
        );
        assert(host_models(hosts@) =~= seq![
            HostModel { name: "localhost"@, ssh: None, port: 22, local: true, key: None },
        ]);
        Config {
            hosts,
            poll_interval_secs: default_poll_interval(),
            attention_patterns: default_attention_patterns(),
            quick_actions: default_quick_actions(),
        }
    }
}

/// The models hold what is configured, field by field.
pub proof fn models_hold_what_is_configured(host: HostConfig, action: QuickAction)
    ensures
        host@.name == host.name@ && host@.port == host.port && host@.local == host.local,
        host.ssh is None <==> host@.ssh is None,
        host.ssh matches Some(ssh) ==> host@.ssh == Some(ssh@),
        host.key is None <==> host@.key is None,
        host.key matches Some(key) ==> host@.key == Some(key@),
        action@.label == action.label@ && action@.keys == action.keys@,
{
}

} // verus!
