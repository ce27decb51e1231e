//! The state of the dashboard and what changes it.

use vstd::hash_map::StringHashMap;
use vstd::hash_set::StringHashSet;
use vstd::prelude::*;
use vstd::string::*;
use crate::config::{
    ActionModel, Config, HostConfig, HostModel, QuickAction, action_models, host_models,
    optional_text,
};
use crate::keys::{InputEvent, after_events, event_models, forward_events};
use crate::pane::{
    PaneModel, PaneStatus, WindowInfo, WindowModel, attention, attention_counts,
    attention_counts_panes, window_models,
};
use crate::text::{
    split_first, split_first_at, split_first_needs_the_separator, split_once, str_eq, str_le, text_le, text_le_is_total,
    text_le_is_transitive, texts,
};
use crate::tmux::{TmuxRunner, commands, pane_total, send_keys, typing_lines};

verus! {

/// The key under which a pane or a window of a host is known.
pub open spec fn key_of(host: Seq<char>, id: Seq<char>) -> Seq<char> {
    host + seq!['\t'] + id
}

/// The key under which a pane or a window of a host is known.
pub fn make_pane_key(host: &str, pane_id: &str) -> (r: String)
    ensures
        r@ == key_of(host@, pane_id@),
        r@ == host@ + seq!['\t'] + pane_id@,
{
    let mut r = host.to_owned();
    r.push('\t');
    r.append(pane_id);
    assert(r@ =~= key_of(host@, pane_id@));
    r
}

/// The host and the id in a key: what stands before and after its first tab.
pub fn split_pane_key(key: &str) -> (r: Option<(&str, &str)>)
    ensures
        match r {
            Some((host, id)) => split_first(key@, '\t') == Some((host@, id@)),
            None => split_first(key@, '\t') is None,
        },
{
    split_once(key, '\t')
}

/// A key gives back the host and the id that it was made of, for a host without a tab in
/// its name.
pub proof fn pane_keys_split(host: Seq<char>, id: Seq<char>)
    requires
        !host.contains('\t'),
    ensures
        split_first(key_of(host, id), '\t') == Some((host, id)),
{
    split_first_at(host, '\t', id);
}

/// Two panes have the same key only if they are the same pane, for hosts without a tab in
/// their names.
pub proof fn pane_keys_are_distinct(
    host: Seq<char>,
    id: Seq<char>,
    other_host: Seq<char>,
    other_id: Seq<char>,
)
    requires
        !host.contains('\t'),
        !other_host.contains('\t'),
        key_of(host, id) == key_of(other_host, other_id),
    ensures
        host == other_host,
        id == other_id,
{
    pane_keys_split(host, id);
    pane_keys_split(other_host, other_id);
}

/// User and address in an SSH specification: what stands before and after its first `@`;
/// the user is `root` where there is none.
pub open spec fn ssh_target(spec: Seq<char>) -> (Seq<char>, Seq<char>) {
    match split_first(spec, '@') {
        Some(target) => target,
        None => ("root"@, spec),
    }
}

/// User and address in an SSH specification.
pub fn parse_ssh_spec(spec: &str) -> (r: (String, String))
    ensures
        (r.0@, r.1@) == ssh_target(spec@),
{
    match split_once(spec, '@') {
        Some((user, host)) => (user.to_owned(), host.to_owned()),
        None => ("root".to_owned(), spec.to_owned()),
    }
}

/// A user without `@`, then `@`, then an address reads back as the two; an address without
/// `@` is that of `root`.
pub proof fn ssh_targets_read_back(user: Seq<char>, address: Seq<char>)
    ensures
        !user.contains('@') ==> ssh_target(user + seq!['@'] + address) == (user, address),
        !address.contains('@') ==> ssh_target(address) == ("root"@, address),
{
    if !user.contains('@') {
        split_first_at(user, '@', address);
    }
}

/// What discovery gave for one host: its windows, or the message of an error.
#[derive(Debug)]
pub struct HostResult {
    pub host: String,
    pub result: Result<Vec<WindowInfo>, String>,
}

/// The windows found, host by host.
pub open spec fn found_windows(results: Seq<HostResult>) -> Seq<WindowModel>
    decreases results.len(),
{
    if results.len() == 0 {
        Seq::empty()
    } else {
        found_windows(results.drop_last()) + match results.last().result {
            Ok(windows) => window_models(windows@),
            Err(_) => Seq::empty(),
        }
    }
}

/// The hosts where discovery failed, each with the message.
pub open spec fn found_errors(results: Seq<HostResult>) -> Seq<(Seq<char>, Seq<char>)>
    decreases results.len(),
{
    if results.len() == 0 {
        Seq::empty()
    } else {
        let before = found_errors(results.drop_last());
        match results.last().result {
            Ok(_) => before,
            Err(message) => before.push((results.last().host@, message@)),
        }
    }
}

/// The texts of pairs of strings.
pub open spec fn pairs(v: Seq<(String, String)>) -> Seq<(Seq<char>, Seq<char>)> {
    Seq::new(v.len(), |i: int| (v[i].0@, v[i].1@))
}

/// The windows of all hosts, and the hosts where discovery failed.
pub fn collect_results(results: Vec<HostResult>) -> (r: (Vec<WindowInfo>, Vec<(String, String)>))
    ensures
        window_models(r.0@) == found_windows(results@),
        pairs(r.1@) == found_errors(results@),
{
    let ghost all = results@;
    let mut rest = results;
    let mut windows: Vec<WindowInfo> = Vec::new();
    let mut errors: Vec<(String, String)> = Vec::new();
    let ghost mut n: int = 0;
    proof {
        assert(window_models(windows@) =~= found_windows(all.take(0)));
        assert(pairs(errors@) =~= found_errors(all.take(0)));
        assert(all.skip(0) =~= all);
    }
    while rest.len() > 0
        invariant
            0 <= n <= all.len(),
            rest@ == all.skip(n),
            window_models(windows@) == found_windows(all.take(n)),
            pairs(errors@) == found_errors(all.take(n)),
        decreases rest@.len(),
    {
        let ghost windows_before = window_models(windows@);
        let ghost errors_before = pairs(errors@);
        let next = rest.remove(0);
        proof {
            assert(next == all[n]);
            assert(all.take(n + 1).drop_last() =~= all.take(n));
            assert(rest@ =~= all.skip(n + 1));
        }
        match next.result {
            Ok(found) => {
                let ghost more = window_models(found@);
                let mut found = found;
                windows.append(&mut found);
                assert(window_models(windows@) =~= windows_before + more);
            },
            Err(message) => {
                errors.push((next.host, message));
                assert(pairs(errors@) =~= errors_before.push((next.host@, message@)));
                assert(windows_before + Seq::<WindowModel>::empty() =~= windows_before);
            },
        }
        proof {
            n = n + 1;
        }
    }
    assert(all.take(n) =~= all);
    (windows, errors)
}

/// The dashboard. `S` is the type of the sessions with remote hosts.
#[verifier::reject_recursive_types(S)]
pub struct App<S> {
    windows: Vec<WindowInfo>,
    runners: StringHashMap<TmuxRunner<S>>,
    quick_actions: Vec<QuickAction>,
    attention_patterns: Vec<String>,
    host_configs: Vec<HostConfig>,
    poll_interval_secs: u64,
    last_poll: i128,
    focused_pane: Option<String>,
    filter_host: Option<String>,
    show_only_attention: bool,
    connection_errors: StringHashMap<String>,
    poll_in_flight: bool,
    hidden_windows: StringHashSet,
    tmux_prefix_pending: bool,
}

/// The model of an [`App`].
#[verifier::ext_equal]
#[verifier::reject_recursive_types(S)]
pub struct AppModel<S> {
    /// The windows found by the last poll.
    pub windows: Seq<WindowModel>,
    /// How to reach tmux on each host that can be reached.
    pub runners: Map<Seq<char>, TmuxRunner<S>>,
    pub quick_actions: Seq<ActionModel>,
    pub patterns: Seq<Seq<char>>,
    pub hosts: Seq<HostModel>,
    pub poll_interval_secs: u64,
    /// When the last poll started, in nanoseconds.
    pub last_poll: int,
    /// The key of the pane that gets the keyboard input.
    pub focused: Option<Seq<char>>,
    /// The host whose windows alone are shown.
    pub filter_host: Option<Seq<char>>,
    pub only_attention: bool,
    /// The last error of each host that has one.
    pub errors: Map<Seq<char>, Seq<char>>,
    pub in_flight: bool,
    /// The keys of the windows that are not shown.
    pub hidden: Set<Seq<char>>,
    pub prefix_pending: bool,
}

impl<S> View for App<S> {
    type V = AppModel<S>;

    closed spec fn view(&self) -> AppModel<S> {
        AppModel {
            windows: window_models(self.windows@),
            runners: self.runners@,
            quick_actions: action_models(self.quick_actions@),
            patterns: texts(self.attention_patterns@),
            hosts: host_models(self.host_configs@),
            poll_interval_secs: self.poll_interval_secs,
            last_poll: self.last_poll as int,
            focused: optional_text(self.focused_pane),
            filter_host: optional_text(self.filter_host),
            only_attention: self.show_only_attention,
            errors: self.connection_errors@.map_values(|message: String| message@),
            in_flight: self.poll_in_flight,
            hidden: self.hidden_windows@,
            prefix_pending: self.tmux_prefix_pending,
        }
    }
}

/// Whether a host of this name is configured as local.
pub open spec fn is_local(hosts: Seq<HostModel>, name: Seq<char>) -> bool {
    exists|i: int| 0 <= i < hosts.len() && (#[trigger] hosts[i]).name == name && hosts[i].local
}

/// The runners of a dashboard that has not connected to any host.
pub open spec fn local_runners<S>(hosts: Seq<HostModel>) -> Map<Seq<char>, TmuxRunner<S>> {
    Map::new(|name: Seq<char>| is_local(hosts, name), |name: Seq<char>| TmuxRunner::Local)
}

impl<S> AppModel<S> {
    /// Whether tmux runs on this machine for every host that is configured as local.
    pub open spec fn local_hosts_run(self) -> bool {
        forall|name: Seq<char>| #[trigger]
            is_local(self.hosts, name) ==> self.runners.contains_key(name) && self.runners[name]
                == TmuxRunner::<S>::Local
    }
}

/// Whether a host of this name is configured as local.
fn host_is_local(hosts: &Vec<HostConfig>, name: &str) -> (r: bool)
    ensures
        r == is_local(host_models(hosts@), name@),
{
    let mut i: usize = 0;
    while i < hosts.len()
        invariant
            i <= hosts@.len(),
            forall|k: int|
                0 <= k < i ==> !((#[trigger] host_models(hosts@)[k]).name == name@ && host_models(
                    hosts@,
                )[k].local),
        decreases hosts@.len() - i,
    {
        assert(host_models(hosts@)[i as int] == hosts@[i as int]@);
        if str_eq(hosts[i].name.as_str(), name) && hosts[i].local {
            return true;
        }
        i += 1;
    }
    false
}

impl<S> App<S> {
    /// A dashboard with the windows that discovery found on the local hosts at the start.
    /// Hosts that are not local get their runners when they are connected to.
    pub fn new(config: Config, discovered: Vec<HostResult>, now: u64) -> (r: App<S>)
        ensures
            r@ == (AppModel::<S> {
                windows: found_windows(discovered@),
                runners: local_runners(host_models(config.hosts@)),
                quick_actions: action_models(config.quick_actions@),
                patterns: texts(config.attention_patterns@),
                hosts: host_models(config.hosts@),
                poll_interval_secs: config.poll_interval_secs,
                last_poll: now as int,
                focused: None,
                filter_host: None,
                only_attention: false,
                errors: Map::empty(),
                in_flight: false,
                hidden: Set::empty(),
                prefix_pending: false,
            }),
            r@.local_hosts_run(),
    {
        let ghost hosts = host_models(config.hosts@);
        let mut runners: StringHashMap<TmuxRunner<S>> = StringHashMap::new();
        let mut i: usize = 0;
        while i < config.hosts.len()
            invariant
                hosts == host_models(config.hosts@),
                i <= config.hosts@.len(),
                forall|name: Seq<char>| #[trigger]
                    runners@.contains_key(name) <==> is_local(hosts.take(i as int), name),
                forall|name: Seq<char>| #[trigger]
                    runners@.contains_key(name) ==> runners@[name] == TmuxRunner::<S>::Local,
            decreases config.hosts@.len() - i,
        {
            let host = &config.hosts[i];
            proof {
                let before = hosts.take(i as int);
                let after = hosts.take(i + 1);
                assert(after[i as int] == host@);
                assert forall|name: Seq<char>| #[trigger] is_local(after, name) <==> (is_local(
                    before,
                    name,
                ) || (host@.local && host@.name == name)) by {
                    if is_local(before, name) {
                        let k = choose|k: int|
                            0 <= k < before.len() && (#[trigger] before[k]).name == name
                                && before[k].local;
                        assert(after[k] == before[k]);
                    }
                    if is_local(after, name) && !(host@.local && host@.name == name) {
                        let k = choose|k: int|
                            0 <= k < after.len() && (#[trigger] after[k]).name == name
                                && after[k].local;
                        assert(after[k] == before[k]);
                    }
                }
            }
            if host.local {
                runners.insert(host.name.clone(), TmuxRunner::Local);
            }
            i += 1;
        }
        let (windows, _errors) = collect_results(discovered);
        let app = App {
            windows,
            runners,
            quick_actions: config.quick_actions,
            attention_patterns: config.attention_patterns,
            host_configs: config.hosts,
            poll_interval_secs: config.poll_interval_secs,
            last_poll: now as i128,
            focused_pane: None,
            filter_host: None,
            show_only_attention: false,
            connection_errors: StringHashMap::new(),
            poll_in_flight: false,
            hidden_windows: StringHashSet::new(),
            tmux_prefix_pending: false,
        };
        proof {
            assert(hosts.take(i as int) =~= hosts);
            assert(app@.runners =~= local_runners(hosts));
            assert(app@.errors =~= Map::empty());
        }
        app
    }
}

/// The names of the local hosts, in the order of the configuration.
pub open spec fn local_names(hosts: Seq<HostModel>) -> Seq<Seq<char>>
    decreases hosts.len(),
{
    if hosts.len() == 0 {
        Seq::empty()
    } else if hosts.last().local {
        local_names(hosts.drop_last()).push(hosts.last().name)
    } else {
        local_names(hosts.drop_last())
    }
}

/// The hosts whose windows are discovered before the dashboard starts.
pub fn initial_hosts(config: &Config) -> (r: Vec<String>)
    ensures
        texts(r@) == local_names(host_models(config.hosts@)),
{
    let ghost hosts = host_models(config.hosts@);
    let mut r: Vec<String> = Vec::new();
    let mut i: usize = 0;
    assert(texts(r@) =~= local_names(hosts.take(0)));
    while i < config.hosts.len()
        invariant
            hosts == host_models(config.hosts@),
            i <= config.hosts@.len(),
            texts(r@) == local_names(hosts.take(i as int)),
        decreases config.hosts@.len() - i,
    {
        let host = &config.hosts[i];
        let ghost before = texts(r@);
        assert(hosts.take(i + 1).drop_last() =~= hosts.take(i as int));
        assert(hosts.take(i + 1).last() == host@);
        if host.local {
            r.push(host.name.clone());
            assert(texts(r@) =~= before.push(host@.name));
        }
        i += 1;
    }
    assert(hosts.take(i as int) =~= hosts);
    r
}

/// Whether texts stand in strictly ascending order.
pub open spec fn ascending(v: Seq<Seq<char>>) -> bool {
    forall|i: int, j: int|
        0 <= i < j < v.len() ==> text_le(#[trigger] v[i], #[trigger] v[j]) && v[i] != v[j]
}

/// Adds `name` to `names` at its place, unless it is there.
fn add_name(names: &mut Vec<String>, name: &str)
    requires
        ascending(texts(old(names)@)),
    ensures
        ascending(texts(final(names)@)),
        forall|s: Seq<char>| #[trigger]
            texts(final(names)@).contains(s) <==> texts(old(names)@).contains(s) || s == name@,
{
    let ghost before = texts(names@);
    let mut at: usize = 0;
    while at < names.len() && !str_le(name, names[at].as_str())
        invariant
            names@ == old(names)@,
            before == texts(names@),
            at <= names@.len(),
            forall|k: int| 0 <= k < at ==> !text_le(name@, #[trigger] before[k]),
        decreases names@.len() - at,
    {
        assert(before[at as int] == names@[at as int]@);
        at += 1;
    }
    if at < names.len() && str_eq(names[at].as_str(), name) {
        assert(before[at as int] == name@);
        return;
    }
    proof {
        let after = before.insert(at as int, name@);
        assert forall|k: int| 0 <= k < at implies text_le(#[trigger] before[k], name@)
            && before[k] != name@ by {
            text_le_is_total(before[k], name@);
        }
        assert forall|k: int| at <= k < before.len() implies text_le(name@, #[trigger] before[k])
            && before[k] != name@ by {
            assert(before[at as int] == names@[at as int]@);
            if k > at {
                assert(text_le(before[at as int], before[k]));
                text_le_is_transitive(name@, before[at as int], before[k]);
                if before[k] == name@ {
                    text_le_is_total(name@, before[at as int]);
                }
            }
        }
        assert(ascending(after)) by {
            assert forall|i: int, j: int| 0 <= i < j < after.len() implies text_le(
                #[trigger] after[i],
                #[trigger] after[j],
            ) && after[i] != after[j] by {
                let oi = if i < at { i } else { i - 1 };
                let oj = if j < at { j } else { j - 1 };
                if i != at {
                    assert(after[i] == before[oi]);
                }
                if j != at {
                    assert(after[j] == before[oj]);
                }
            }
        }
        assert forall|s: Seq<char>| #[trigger] after.contains(s) <==> before.contains(s) || s
            == name@ by {
            if before.contains(s) {
                let k = choose|k: int| 0 <= k < before.len() && before[k] == s;
                let j = if k < at { k } else { k + 1 };
                assert(after[j] == s);
            }
            if s == name@ {
                assert(after[at as int] == s);
            }
            if after.contains(s) && s != name@ {
                let j = choose|j: int| 0 <= j < after.len() && after[j] == s;
                let k = if j < at { j } else { j - 1 };
                assert(before[k] == s);
            }
        }
    }
    names.insert(at, name.to_owned());
    assert(texts(names@) =~= before.insert(at as int, name@));
}

impl<S> AppModel<S> {
    /// Whether a window is on a host of this name or a host of this name is configured.
    pub open spec fn knows_host(self, name: Seq<char>) -> bool {
        ||| exists|i: int| 0 <= i < self.windows.len() && (#[trigger] self.windows[i]).host == name
        ||| exists|i: int| 0 <= i < self.hosts.len() && (#[trigger] self.hosts[i]).name == name
    }

    /// Whether a window is shown: it is not hidden, it is on the host that is filtered for, if
    /// any, and it needs attention, if only such windows are shown.
    pub open spec fn shows(self, w: WindowModel) -> bool {
        &&& !self.hidden.contains(key_of(w.host, w.id))
        &&& self.filter_host matches Some(host) ==> w.host == host
        &&& self.only_attention ==> attention(w.panes) > 0
    }
}

/// How many panes need attention in all windows together.
pub open spec fn attention_total(windows: Seq<WindowModel>) -> nat
    decreases windows.len(),
{
    if windows.len() == 0 {
        0
    } else {
        attention_total(windows.drop_last()) + attention(windows.last().panes)
    }
}

/// Some pane counts as needing attention exactly if some window is shown with that status.
pub proof fn attention_total_counts(windows: Seq<WindowModel>)
    ensures
        attention_total(windows) > 0 <==> exists|i: int|
            0 <= i < windows.len() && (#[trigger] windows[i]).worst()
                == PaneStatus::NeedsAttention,
    decreases windows.len(),
{
    if windows.len() > 0 {
        let head = windows.drop_last();
        attention_total_counts(head);
        attention_counts(windows.last().panes);
        if windows.last().worst() == PaneStatus::NeedsAttention {
            assert(windows[windows.len() - 1].worst() == PaneStatus::NeedsAttention);
        }
        if attention_total(head) > 0 {
            let i = choose|i: int|
                0 <= i < head.len() && (#[trigger] head[i]).worst() == PaneStatus::NeedsAttention;
            assert(windows[i].worst() == PaneStatus::NeedsAttention);
        }
        assert forall|i: int|
            0 <= i < windows.len() && (#[trigger] windows[i]).worst()
                == PaneStatus::NeedsAttention implies attention_total(windows) > 0 by {
            if i < head.len() {
                assert(head[i].worst() == PaneStatus::NeedsAttention);
            }
        }
    }
}

impl<S> App<S> {
    /// The hosts to choose from: those with windows and those configured, in ascending order.
    pub fn hosts(&self) -> (r: Vec<String>)
        ensures
            ascending(texts(r@)),
            forall|name: Seq<char>| #[trigger]
                texts(r@).contains(name) <==> self@.knows_host(name),
            forall|i: int|
                0 <= i < self@.windows.len() ==> texts(r@).contains(
                    (#[trigger] self@.windows[i]).host,
                ),
            forall|i: int|
                0 <= i < self@.hosts.len() ==> texts(r@).contains((#[trigger] self@.hosts[i]).name),
            forall|name: Seq<char>| #[trigger]
                texts(r@).contains(name) ==> (exists|i: int|
                    0 <= i < self@.windows.len() && (#[trigger] self@.windows[i]).host == name) || (
                exists|i: int|
                    0 <= i < self@.hosts.len() && (#[trigger] self@.hosts[i]).name == name),
    {
        let mut r: Vec<String> = Vec::new();
        let ghost windows = self@.windows;
        let ghost hosts = self@.hosts;
        let mut i: usize = 0;
        while i < self.windows.len()
            invariant
                windows == window_models(self.windows@),
                i <= self.windows@.len(),
                ascending(texts(r@)),
                forall|name: Seq<char>| #[trigger]
                    texts(r@).contains(name) <==> exists|k: int|
                        0 <= k < i && (#[trigger] windows[k]).host == name,
            decreases self.windows@.len() - i,
        {
            assert(windows[i as int].host == self.windows@[i as int].host@);
            add_name(&mut r, self.windows[i].host.as_str());
            i += 1;
        }
        let mut j: usize = 0;
        while j < self.host_configs.len()
            invariant
                hosts == host_models(self.host_configs@),
                j <= self.host_configs@.len(),
                ascending(texts(r@)),
                forall|name: Seq<char>| #[trigger]
                    texts(r@).contains(name) <==> ((exists|k: int|
                        0 <= k < windows.len() && (#[trigger] windows[k]).host == name) || (exists|
                        k: int,
                    | 0 <= k < j && (#[trigger] hosts[k]).name == name)),
            decreases self.host_configs@.len() - j,
        {
            assert(hosts[j as int].name == self.host_configs@[j as int].name@);
            add_name(&mut r, self.host_configs[j].name.as_str());
            j += 1;
        }
        proof {
            let names = texts(r@);
            assert forall|i: int| 0 <= i < self@.windows.len() implies names.contains(
                (#[trigger] self@.windows[i]).host,
            ) by {
                assert(self@.knows_host(self@.windows[i].host));
            }
            assert forall|i: int| 0 <= i < self@.hosts.len() implies names.contains(
                (#[trigger] self@.hosts[i]).name,
            ) by {
                assert(self@.knows_host(self@.hosts[i].name));
            }
        }
        r
    }

    /// The key of a window.
    pub fn window_key(w: &WindowInfo) -> (r: String)
        ensures
            r@ == key_of(w@.host, w@.id),
            r@ == w.host@ + seq!['\t'] + w.id@,
    {
        make_pane_key(w.host.as_str(), w.id.as_str())
    }

    fn shows_window(&self, w: &WindowInfo) -> (r: bool)
        ensures
            r == self@.shows(w@),
    {
        if self.hidden_windows.contains(Self::window_key(w).as_str()) {
            return false;
        }
        if let Some(host) = &self.filter_host {
            if !str_eq(w.host.as_str(), host.as_str()) {
                return false;
            }
        }
        if self.show_only_attention && w.attention_count() == 0 {
            return false;
        }
        true
    }

    /// The positions of the windows that are shown, in ascending order.
    pub fn filtered_window_indices(&self) -> (r: Vec<usize>)
        ensures
            forall|a: int, b: int|
                0 <= a < b < r@.len() ==> #[trigger] r@[a] < #[trigger] r@[b],
            forall|i: usize| #[trigger]
                r@.contains(i) <==> i < self@.windows.len() && self@.shows(self@.windows[i as int]),
    {
        let mut r: Vec<usize> = Vec::new();
        let mut i: usize = 0;
        while i < self.windows.len()
            invariant
                i <= self.windows@.len(),
                forall|a: int, b: int|
                    0 <= a < b < r@.len() ==> #[trigger] r@[a] < #[trigger] r@[b],
                forall|a: int| 0 <= a < r@.len() ==> #[trigger] r@[a] < i,
                forall|k: usize| #[trigger]
                    r@.contains(k) <==> k < i && self@.shows(self@.windows[k as int]),
            decreases self.windows@.len() - i,
        {
            let ghost before = r@;
            assert(self@.windows[i as int] == self.windows@[i as int]@);
            if self.shows_window(&self.windows[i]) {
                r.push(i);
                proof {
                    assert(r@[before.len() as int] == i);
                    assert forall|k: usize| #[trigger] r@.contains(k) <==> before.contains(k) || k
                        == i by {
                        if before.contains(k) {
                            let a = choose|a: int| 0 <= a < before.len() && before[a] == k;
                            assert(r@[a] == k);
                        }
                        if k == i {
                            assert(r@[before.len() as int] == k);
                        }
                    }
                }
            }
            i += 1;
        }
        r
    }

    /// How many panes need attention.
    pub fn total_attention(&self) -> (r: u128)
        ensures
            r == attention_total(self@.windows),
    {
        let ghost all = self@.windows;
        let mut r: u128 = 0;
        let mut i: usize = 0;
        while i < self.windows.len()
            invariant
                all == window_models(self.windows@),
                i <= self.windows@.len(),
                r == attention_total(all.take(i as int)),
                r <= i * usize::MAX,
            decreases self.windows@.len() - i,
        {
            assert(all.take(i + 1).drop_last() =~= all.take(i as int));
            assert(all.take(i + 1).last() == self.windows@[i as int]@);
            proof {
                sums_fit(i);
            }
            r = r + self.windows[i].attention_count() as u128;
            i += 1;
        }
        assert(all.take(i as int) =~= all);
        r
    }

    /// How many panes there are.
    pub fn total_panes(&self) -> (r: u128)
        ensures
            r == pane_total(self@.windows),
    {
        let ghost all = self@.windows;
        let mut r: u128 = 0;
        let mut i: usize = 0;
        while i < self.windows.len()
            invariant
                all == window_models(self.windows@),
                i <= self.windows@.len(),
                r == pane_total(all.take(i as int)),
                r <= i * usize::MAX,
            decreases self.windows@.len() - i,
        {
            assert(all.take(i + 1).drop_last() =~= all.take(i as int));
            assert(all.take(i + 1).last() == self.windows@[i as int]@);
            proof {
                sums_fit(i);
            }
            r = r + self.windows[i].panes.len() as u128;
            i += 1;
        }
        assert(all.take(i as int) =~= all);
        r
    }

    /// How to reach tmux for the pane with this key, and the id of the pane.
    pub fn runner_for_pane(&self, focused_key: &str) -> (r: Option<(&TmuxRunner<S>, String)>)
        ensures
            match split_first(focused_key@, '\t') {
                Some((host, id)) if self@.runners.contains_key(host) => r matches Some((runner, p))
                    && *runner == self@.runners[host] && p@ == id,
                _ => r is None,
            },
    {
        match split_pane_key(focused_key) {
            Some((host, pane_id)) => match self.runners.get(host) {
                Some(runner) => Some((runner, pane_id.to_owned())),
                None => None,
            },
            None => None,
        }
    }
}

proof fn sums_fit(i: usize)
    requires
        i < usize::MAX,
    ensures
        i * usize::MAX + usize::MAX == (i + 1) * usize::MAX,
        (i + 1) * usize::MAX <= u128::MAX,
{
    assert(i * usize::MAX + usize::MAX == (i + 1) * usize::MAX) by (nonlinear_arith);
    assert((i + 1) * usize::MAX <= usize::MAX * usize::MAX) by (nonlinear_arith)
        requires
            i < usize::MAX,
    ;
    assert(usize::MAX * usize::MAX <= u128::MAX) by (nonlinear_arith)
        requires
            usize::MAX <= 0xffff_ffff_ffff_ffff,
    ;
}

/// A connection to make.
#[derive(Debug, Clone)]
pub struct ConnectRequest {
    /// The position of the host in the configuration.
    pub index: usize,
    pub host_name: String,
    pub user: String,
    pub address: String,
    pub port: u16,
    /// The file of the key to try first when logging in, if one is configured.
    pub key: Option<String>,
}

impl<S> AppModel<S> {
    /// Whether host `i` is still to be connected to: it is not local, it is not connected, and
    /// it has an SSH specification.
    pub open spec fn wants_connection(self, i: int) -> bool {
        let host = self.hosts[i];
        &&& !host.local
        &&& !self.runners.contains_key(host.name)
        &&& host.ssh is Some
    }

    /// Whether `request` asks for the connection that host `i` wants.
    pub open spec fn requested_by(self, request: ConnectRequest, i: int) -> bool {
        let host = self.hosts[i];
        &&& request.index == i
        &&& request.host_name@ == host.name
        &&& (request.user@, request.address@) == ssh_target(host.ssh->0)
        &&& request.port == host.port
        &&& optional_text(request.key) == host.key
    }

    /// The state after the host `name` has been connected to.
    pub open spec fn with_connection(self, name: Seq<char>, session: S) -> AppModel<S> {
        AppModel {
            runners: self.runners.insert(name, TmuxRunner::Remote(session)),
            errors: self.errors.remove(name),
            ..self
        }
    }

    /// The state after connecting to the host `name` has failed.
    pub open spec fn with_error(self, name: Seq<char>, message: Seq<char>) -> AppModel<S> {
        AppModel { errors: self.errors.insert(name, message), ..self }
    }
}

/// A connection is made once: no host of a name that is connected wants a connection, and
/// what the other hosts want does not change.
pub proof fn connections_are_made_once<S>(m: AppModel<S>, name: Seq<char>, session: S, i: int)
    requires
        0 <= i < m.hosts.len(),
    ensures
        m.hosts[i].name == name ==> !m.with_connection(name, session).wants_connection(i),
        m.hosts[i].name != name ==> m.with_connection(name, session).wants_connection(i)
            == m.wants_connection(i),
{
}

/// A connection clears the error of its host, whatever failed before it.
pub proof fn connections_clear_errors<S>(
    m: AppModel<S>,
    name: Seq<char>,
    session: S,
    message: Seq<char>,
)
    ensures
        !m.with_connection(name, session).errors.contains_key(name),
        m.with_error(name, message).with_connection(name, session).errors
            == m.with_connection(name, session).errors,
{
    assert(m.errors.insert(name, message).remove(name) =~= m.errors.remove(name));
}

/// Connecting to a host that wants a connection leaves the local hosts running on this
/// machine.
pub proof fn connecting_keeps_local_hosts<S>(m: AppModel<S>, i: int, session: S)
    requires
        m.local_hosts_run(),
        0 <= i < m.hosts.len(),
        m.wants_connection(i),
    ensures
        m.with_connection(m.hosts[i].name, session).local_hosts_run(),
{
    let after = m.with_connection(m.hosts[i].name, session);
    assert forall|name: Seq<char>| #[trigger] is_local(after.hosts, name) implies after.runners.contains_key(
        name,
    ) && after.runners[name] == TmuxRunner::<S>::Local by {
        assert(is_local(m.hosts, name));
    }
}

/// What became of an attempt to connect: a session, or the message of an error.
pub type Attempt<S> = Result<S, Seq<char>>;

impl<S> AppModel<S> {
    /// The state after the hosts from position `from` on that still want a connection have been
    /// tried one after the other, where `attempts` says what becomes of trying each.
    pub open spec fn after_attempts(self, from: int, attempts: Seq<Attempt<S>>) -> AppModel<S>
        decreases self.hosts.len() - from,
    {
        if from < 0 || from >= self.hosts.len() {
            self
        } else if self.wants_connection(from) {
            let name = self.hosts[from].name;
            match attempts[from] {
                Ok(session) => self.with_connection(name, session).after_attempts(
                    from + 1,
                    attempts,
                ),
                Err(message) => self.with_error(name, message).after_attempts(from + 1, attempts),
            }
        } else {
            self.after_attempts(from + 1, attempts)
        }
    }

    /// Whether each of the first `n` hosts that wants a connection has an error.
    pub open spec fn settled(self, n: int) -> bool {
        forall|i: int|
            0 <= i < n && #[trigger] self.wants_connection(i) ==> self.errors.contains_key(
                self.hosts[i].name,
            )
    }
}

/// The attempts are those that are asked for: trying the next host that wants a connection, and
/// taking note of what became of it, leads to where trying all hosts leads, with the hosts behind
/// that one still to be tried.
pub proof fn attempts_follow_the_requests<S>(
    m: AppModel<S>,
    from: int,
    i: int,
    attempts: Seq<Attempt<S>>,
)
    requires
        0 <= from <= i < m.hosts.len(),
        m.wants_connection(i),
        forall|k: int| from <= k < i ==> !#[trigger] m.wants_connection(k),
    ensures
        m.after_attempts(from, attempts) == match attempts[i] {
            Ok(session) => m.with_connection(m.hosts[i].name, session).after_attempts(
                i + 1,
                attempts,
            ),
            Err(message) => m.with_error(m.hosts[i].name, message).after_attempts(i + 1, attempts),
        },
    decreases i - from,
{
    if from < i {
        assert(!m.wants_connection(from));
        attempts_follow_the_requests(m, from + 1, i, attempts);
    }
}

/// Where no host from `from` on wants a connection, no attempt is left and nothing changes.
pub proof fn attempts_end_without_a_request<S>(
    m: AppModel<S>,
    from: int,
    attempts: Seq<Attempt<S>>,
)
    requires
        0 <= from,
        forall|k: int| from <= k < m.hosts.len() ==> !#[trigger] m.wants_connection(k),
    ensures
        m.after_attempts(from, attempts) == m,
    decreases m.hosts.len() - from,
{
    if from < m.hosts.len() {
        assert(!m.wants_connection(from));
        attempts_end_without_a_request(m, from + 1, attempts);
    }
}

proof fn attempts_settle_the_rest<S>(m: AppModel<S>, from: int, attempts: Seq<Attempt<S>>)
    requires
        0 <= from <= m.hosts.len(),
        m.settled(from),
        m.local_hosts_run(),
    ensures
        m.after_attempts(from, attempts).settled(m.hosts.len() as int),
        m.after_attempts(from, attempts).local_hosts_run(),
        m.after_attempts(from, attempts).hosts == m.hosts,
        m.after_attempts(from, attempts).windows == m.windows,
        forall|name: Seq<char>| #[trigger]
            m.runners.contains_key(name) ==> m.after_attempts(
                from,
                attempts,
            ).runners.contains_key(name) && m.after_attempts(from, attempts).runners[name]
                == m.runners[name],
    decreases m.hosts.len() - from,
{
    if from < m.hosts.len() {
        let name = m.hosts[from].name;
        let next = if m.wants_connection(from) {
            match attempts[from] {
                Ok(session) => {
                    connecting_keeps_local_hosts(m, from, session);
                    m.with_connection(name, session)
                },
                Err(message) => {
                    let next = m.with_error(name, message);
                    assert(next.local_hosts_run()) by {
                        assert(next.hosts == m.hosts && next.runners == m.runners);
                    }
                    next
                },
            }
        } else {
            m
        };
        assert forall|i: int| 0 <= i < from + 1 && #[trigger] next.wants_connection(
            i,
        ) implies next.errors.contains_key(next.hosts[i].name) by {
            assert(m.wants_connection(i));
        }
        attempts_settle_the_rest(next, from + 1, attempts);
        let after = m.after_attempts(from, attempts);
        assert forall|n: Seq<char>| #[trigger]
            m.runners.contains_key(n) implies after.runners.contains_key(n) && after.runners[n]
            == m.runners[n] by {
            assert(next.runners.contains_key(n));
        }
    }
}

/// After all hosts that want a connection have been tried, a host still wants one only if an
/// error is known of it. The local hosts run on this machine as before, connections that were
/// there are kept, and the windows stay the same.
pub proof fn attempts_settle_every_host<S>(m: AppModel<S>, attempts: Seq<Attempt<S>>)
    requires
        m.local_hosts_run(),
    ensures
        m.after_attempts(0, attempts).settled(m.hosts.len() as int),
        m.after_attempts(0, attempts).local_hosts_run(),
        m.after_attempts(0, attempts).windows == m.windows,
        forall|name: Seq<char>| #[trigger]
            m.runners.contains_key(name) ==> m.after_attempts(0, attempts).runners.contains_key(
                name,
            ) && m.after_attempts(0, attempts).runners[name] == m.runners[name],
{
    attempts_settle_the_rest(m, 0, attempts);
}

impl<S> App<S> {
    /// The next connection to make, looking from position `from` of the configuration on.
    pub fn next_connection(&self, from: usize) -> (r: Option<ConnectRequest>)
        ensures
            match r {
                Some(request) => from <= request.index < self@.hosts.len()
                    && self@.wants_connection(request.index as int) && self@.requested_by(
                    request,
                    request.index as int,
                ) && forall|k: int|
                    from <= k < request.index ==> !#[trigger] self@.wants_connection(k),
                None => forall|k: int|
                    from <= k < self@.hosts.len() ==> !#[trigger] self@.wants_connection(k),
            },
            r matches Some(request) ==> {
                let host = self@.hosts[request.index as int];
                &&& !host.local && host.ssh is Some && !self@.runners.contains_key(host.name)
                &&& request.host_name@ == host.name && request.port == host.port
                &&& optional_text(request.key) == host.key
                &&& (request.user@, request.address@) == ssh_target(host.ssh->0)
            },
            forall|k: int|
                from <= k < self@.hosts.len() && (r matches Some(request) ==> k < request.index)
                    ==> (#[trigger] self@.hosts[k]).local || self@.hosts[k].ssh is None
                    || self@.runners.contains_key(self@.hosts[k].name),
    {
        let mut i: usize = from;
        while i < self.host_configs.len()
            invariant
                from <= i,
                from <= self.host_configs@.len() ==> i <= self.host_configs@.len(),
                forall|k: int| from <= k < i ==> !#[trigger] self@.wants_connection(k),
                forall|k: int|
                    from <= k < i && k < self@.hosts.len() ==> (#[trigger] self@.hosts[k]).local
                        || self@.hosts[k].ssh is None || self@.runners.contains_key(
                        self@.hosts[k].name,
                    ),
            decreases self.host_configs@.len() - i,
        {
            let host = &self.host_configs[i];
            assert(self@.hosts[i as int] == host@);
            if !host.local && !self.runners.contains_key(host.name.as_str()) {
                if let Some(ssh_spec) = &host.ssh {
                    let (user, address) = parse_ssh_spec(ssh_spec.as_str());
                    let request = ConnectRequest {
                        index: i,
                        host_name: host.name.clone(),
                        user,
                        address,
                        port: host.port,
                        key: match &host.key {
                            Some(key) => Some(key.clone()),
                            None => None,
                        },
                    };
                    assert(self@.requested_by(request, i as int));
                    return Some(request);
                }
            }
            i += 1;
        }
        None
    }

    /// Takes note that a host has been connected to.
    pub fn connected(&mut self, host_name: String, session: S)
        ensures
            final(self)@ == old(self)@.with_connection(host_name@, session),
            final(self)@ == (AppModel::<S> {
                runners: old(self)@.runners.insert(host_name@, TmuxRunner::Remote(session)),
                errors: old(self)@.errors.remove(host_name@),
                ..old(self)@
            }),
    {
        self.connection_errors.remove(host_name.as_str());
        self.runners.insert(host_name, TmuxRunner::Remote(session));
        assert(self@.errors =~= old(self)@.errors.remove(host_name@));
    }

    /// Takes note that connecting to a host has failed, and says whether that is news: whether
    /// the last error of the host was another one.
    pub fn connection_failed(&mut self, host_name: String, message: String) -> (r: bool)
        ensures
            final(self)@ == old(self)@.with_error(host_name@, message@),
            final(self)@ == (AppModel::<S> {
                errors: old(self)@.errors.insert(host_name@, message@),
                ..old(self)@
            }),
            r == !(old(self)@.errors.contains_key(host_name@) && old(self)@.errors[host_name@]
                == message@),
    {
        let known = match self.connection_errors.get(host_name.as_str()) {
            Some(last) => str_eq(last.as_str(), message.as_str()),
            None => false,
        };
        if !known {
            self.connection_errors.insert(host_name, message);
        }
        assert(self@.errors =~= old(self)@.errors.insert(host_name@, message@));
        !known
    }
}

/// The configured hosts that can be reached, in the order of the configuration.
pub open spec fn reachable<S>(
    hosts: Seq<HostModel>,
    runners: Map<Seq<char>, TmuxRunner<S>>,
) -> Seq<Seq<char>>
    decreases hosts.len(),
{
    if hosts.len() == 0 {
        Seq::empty()
    } else if runners.contains_key(hosts.last().name) {
        reachable(hosts.drop_last(), runners).push(hosts.last().name)
    } else {
        reachable(hosts.drop_last(), runners)
    }
}

/// Whether one of the errors is that of the host `name`.
pub open spec fn has_error(errors: Seq<(Seq<char>, Seq<char>)>, name: Seq<char>) -> bool {
    exists|i: int| 0 <= i < errors.len() && (#[trigger] errors[i]).0 == name
}

/// `known` with `errors` added; the last error of a host counts.
pub open spec fn with_errors(
    known: Map<Seq<char>, Seq<char>>,
    errors: Seq<(Seq<char>, Seq<char>)>,
) -> Map<Seq<char>, Seq<char>>
    decreases errors.len(),
{
    if errors.len() == 0 {
        known
    } else {
        with_errors(known, errors.drop_last()).insert(errors.last().0, errors.last().1)
    }
}

/// What has become of a poll.
pub enum PollEvent {
    /// It is done: these windows were found, and discovery failed on these hosts.
    Done { windows: Vec<WindowInfo>, errors: Vec<(String, String)> },
    /// It is still running.
    Pending,
    /// It ended without a result.
    Lost,
}

impl<S> AppModel<S> {
    /// The state after a poll that found `windows` and failed on the hosts in `errors`. A
    /// remote host that failed has to be connected to again; a local one stays as it is.
    pub open spec fn with_poll(
        self,
        windows: Seq<WindowModel>,
        errors: Seq<(Seq<char>, Seq<char>)>,
    ) -> AppModel<S> {
        AppModel {
            windows,
            runners: Map::new(
                |name: Seq<char>|
                    self.runners.contains_key(name) && !(has_error(errors, name) && !is_local(
                        self.hosts,
                        name,
                    )),
                |name: Seq<char>| self.runners[name],
            ),
            errors: with_errors(self.errors, errors),
            in_flight: false,
            ..self
        }
    }
}

/// Polls leave the local hosts running on this machine.
pub proof fn polling_keeps_local_hosts<S>(
    m: AppModel<S>,
    windows: Seq<WindowModel>,
    errors: Seq<(Seq<char>, Seq<char>)>,
)
    requires
        m.local_hosts_run(),
    ensures
        m.with_poll(windows, errors).local_hosts_run(),
{
    let after = m.with_poll(windows, errors);
    assert forall|name: Seq<char>| #[trigger] is_local(after.hosts, name) implies after.runners.contains_key(
        name,
    ) && after.runners[name] == TmuxRunner::<S>::Local by {
        assert(is_local(m.hosts, name));
    }
}

/// A remote host on which a poll failed wants a connection again, if it has an SSH
/// specification.
pub proof fn failed_hosts_reconnect<S>(
    m: AppModel<S>,
    windows: Seq<WindowModel>,
    errors: Seq<(Seq<char>, Seq<char>)>,
    i: int,
)
    requires
        0 <= i < m.hosts.len(),
        m.hosts[i].ssh is Some,
        !is_local(m.hosts, m.hosts[i].name),
        has_error(errors, m.hosts[i].name),
    ensures
        m.with_poll(windows, errors).wants_connection(i),
        m.with_poll(windows, errors).errors.contains_key(m.hosts[i].name),
{
    if m.hosts[i].local {
        assert(is_local(m.hosts, m.hosts[i].name));
    }
    failing_is_recorded(m.errors, errors, m.hosts[i].name);
}

proof fn failing_is_recorded(
    known: Map<Seq<char>, Seq<char>>,
    errors: Seq<(Seq<char>, Seq<char>)>,
    name: Seq<char>,
)
    requires
        has_error(errors, name),
    ensures
        with_errors(known, errors).contains_key(name),
    decreases errors.len(),
{
    if errors.last().0 != name {
        let i = choose|i: int| 0 <= i < errors.len() && (#[trigger] errors[i]).0 == name;
        assert(errors.drop_last()[i].0 == name);
        failing_is_recorded(known, errors.drop_last(), name);
    }
}

/// Every local host is polled.
pub proof fn local_hosts_are_polled<S>(m: AppModel<S>, name: Seq<char>)
    requires
        m.local_hosts_run(),
        is_local(m.hosts, name),
    ensures
        reachable(m.hosts, m.runners).contains(name),
{
    let i = choose|i: int|
        0 <= i < m.hosts.len() && (#[trigger] m.hosts[i]).name == name && m.hosts[i].local;
    reachable_hosts_are_listed(m.hosts, m.runners, i);
}

proof fn reachable_hosts_are_listed<S>(
    hosts: Seq<HostModel>,
    runners: Map<Seq<char>, TmuxRunner<S>>,
    i: int,
)
    requires
        0 <= i < hosts.len(),
        runners.contains_key(hosts[i].name),
    ensures
        reachable(hosts, runners).contains(hosts[i].name),
    decreases hosts.len(),
{
    let all = reachable(hosts, runners);
    let before = reachable(hosts.drop_last(), runners);
    if i == hosts.len() - 1 {
        assert(all[all.len() - 1] == hosts[i].name);
    } else {
        reachable_hosts_are_listed(hosts.drop_last(), runners, i);
        let k = choose|k: int| 0 <= k < before.len() && before[k] == hosts[i].name;
        assert(all[k] == hosts[i].name);
    }
}

impl<S> App<S> {
    /// Starts a poll, unless one is in flight, and gives the hosts to discover windows on.
    pub fn start_poll(&mut self) -> (r: Option<Vec<String>>)
        ensures
            r is None <==> old(self)@.in_flight,
            final(self)@ == (AppModel::<S> { in_flight: true, ..old(self)@ }),
            r matches Some(names) ==> texts(names@) == reachable(
                old(self)@.hosts,
                old(self)@.runners,
            ),
    {
        if self.poll_in_flight {
            return None;
        }
        self.poll_in_flight = true;
        let ghost hosts = self@.hosts;
        let ghost runners = self@.runners;
        let mut names: Vec<String> = Vec::new();
        let mut i: usize = 0;
        assert(texts(names@) =~= reachable(hosts.take(0), runners));
        while i < self.host_configs.len()
            invariant
                hosts == host_models(self.host_configs@),
                runners == self.runners@,
                i <= self.host_configs@.len(),
                texts(names@) == reachable(hosts.take(i as int), runners),
            decreases self.host_configs@.len() - i,
        {
            let ghost before = texts(names@);
            let name = &self.host_configs[i].name;
            assert(hosts.take(i + 1).drop_last() =~= hosts.take(i as int));
            assert(hosts.take(i + 1).last().name == name@);
            if self.runners.contains_key(name.as_str()) {
                names.push(name.clone());
                assert(texts(names@) =~= before.push(name@));
            }
            i += 1;
        }
        assert(hosts.take(i as int) =~= hosts);
        Some(names)
    }

    /// Takes note of what has become of the poll in flight.
    pub fn check_poll_results(&mut self, event: PollEvent)
        ensures
            final(self)@ == match event {
                PollEvent::Done { windows, errors } => old(self)@.with_poll(
                    window_models(windows@),
                    pairs(errors@),
                ),
                PollEvent::Pending => old(self)@,
                PollEvent::Lost => AppModel::<S> { in_flight: false, ..old(self)@ },
            },
    {
        match event {
            PollEvent::Done { windows, errors } => {
                let ghost failed = pairs(errors@);
                self.windows = windows;
                self.drop_failed_runners(&errors);
                self.note_errors(errors);
                self.poll_in_flight = false;
                assert(self@ =~= old(self)@.with_poll(window_models(windows@), failed));
            },
            PollEvent::Pending => {},
            PollEvent::Lost => {
                self.poll_in_flight = false;
            },
        }
    }

    /// Drops the runners of the remote hosts in `errors`.
    fn drop_failed_runners(&mut self, errors: &Vec<(String, String)>)
        ensures
            final(self)@ == (AppModel::<S> {
                runners: old(self)@.with_poll(Seq::empty(), pairs(errors@)).runners,
                ..old(self)@
            }),
    {
        let ghost m = self@;
        let ghost all = pairs(errors@);
        let mut i: usize = 0;
        assert(m.with_poll(Seq::empty(), all.take(0)).runners =~= m.runners);
        while i < errors.len()
            invariant
                all == pairs(errors@),
                i <= errors@.len(),
                self@ == (AppModel::<S> {
                    runners: m.with_poll(Seq::empty(), all.take(i as int)).runners,
                    ..m
                }),
            decreases errors@.len() - i,
        {
            let name = &errors[i].0;
            let ghost before = all.take(i as int);
            let ghost after = all.take(i + 1);
            proof {
                assert(after[i as int].0 == name@);
                assert forall|n: Seq<char>| #[trigger] has_error(after, n) <==> has_error(before, n)
                    || n == name@ by {
                    if has_error(before, n) {
                        let k = choose|k: int|
                            0 <= k < before.len() && (#[trigger] before[k]).0 == n;
                        assert(after[k].0 == n);
                    }
                    if has_error(after, n) && n != name@ {
                        let k = choose|k: int| 0 <= k < after.len() && (#[trigger] after[k]).0 == n;
                        assert(before[k].0 == n);
                    }
                }
            }
            if !host_is_local(&self.host_configs, name.as_str()) {
                self.runners.remove(name.as_str());
            }
            assert(self@.runners =~= m.with_poll(Seq::empty(), after).runners);
            i += 1;
        }
        assert(all.take(i as int) =~= all);
    }

    /// Takes note of `errors`.
    fn note_errors(&mut self, errors: Vec<(String, String)>)
        ensures
            final(self)@ == (AppModel::<S> {
                errors: with_errors(old(self)@.errors, pairs(errors@)),
                ..old(self)@
            }),
    {
        let ghost m = self@;
        let ghost all = pairs(errors@);
        let mut i: usize = 0;
        while i < errors.len()
            invariant
                all == pairs(errors@),
                i <= errors@.len(),
                self@ == (AppModel::<S> {
                    errors: with_errors(m.errors, all.take(i as int)),
                    ..m
                }),
            decreases errors@.len() - i,
        {
            let ghost before = self@.errors;
            assert(all.take(i + 1).drop_last() =~= all.take(i as int));
            self.connection_errors.insert(errors[i].0.clone(), errors[i].1.clone());
            assert(self@.errors =~= before.insert(errors@[i as int].0@, errors@[i as int].1@));
            i += 1;
        }
        assert(all.take(i as int) =~= all);
    }
}

/// Nanoseconds in a second.
pub const SECOND: i128 = 1_000_000_000;

/// Nanoseconds in a millisecond.
pub const MILLISECOND: i128 = 1_000_000;

impl<S> AppModel<S> {
    /// Whether a poll is due at the time `now`: the interval has passed since the last one
    /// started, and none is in flight.
    pub open spec fn due(self, now: int) -> bool {
        let elapsed = if self.last_poll <= now { now - self.last_poll } else { 0 };
        elapsed >= self.poll_interval_secs * SECOND && !self.in_flight
    }

    /// The state in which the next poll is due at once, instead of when the interval has
    /// passed.
    pub open spec fn hurried(self, now: int) -> AppModel<S> {
        AppModel {
            last_poll: now - self.poll_interval_secs * SECOND - MILLISECOND,
            ..self
        }
    }
}

/// After hurrying, a poll is due from that time on, as soon as none is in flight.
pub proof fn hurried_polls_are_due<S>(m: AppModel<S>, now: int, later: int)
    requires
        now <= later,
    ensures
        m.hurried(now).due(later) <==> !m.in_flight,
{
}

/// After a poll has been stamped, the next one is due exactly when the interval has passed.
pub proof fn stamped_polls_wait<S>(m: AppModel<S>, now: int, later: int)
    requires
        now <= later,
        !m.in_flight,
    ensures
        (AppModel::<S> { last_poll: now, ..m }).due(later) <==> later - now >= m.poll_interval_secs
            * SECOND,
{
}

impl<S> App<S> {
    /// Whether a poll is due at the time `now`, in nanoseconds. If so, that time counts as its
    /// start.
    pub fn poll_if_due(&mut self, now: u64) -> (r: bool)
        ensures
            r == old(self)@.due(now as int),
            final(self)@ == if r {
                AppModel::<S> { last_poll: now as int, ..old(self)@ }
            } else {
                old(self)@
            },
    {
        let time = now as i128;
        let interval = self.poll_interval_secs as i128 * SECOND;
        let due = if self.last_poll <= time {
            self.last_poll <= time - interval
        } else {
            interval == 0
        };
        if due && !self.poll_in_flight {
            self.last_poll = time;
            true
        } else {
            false
        }
    }

    /// Makes the next poll due at once.
    fn hurry(&mut self, now: u64)
        ensures
            final(self)@ == old(self)@.hurried(now as int),
    {
        self.last_poll = now as i128 - self.poll_interval_secs as i128 * SECOND - MILLISECOND;
    }
}

/// Commands to run with tmux on a host. Those for a quick action are run one after the other, up
/// to the first that fails; those that forward input are run independently of each other.
#[derive(Debug, Clone)]
pub struct HostCommands {
    pub host: String,
    pub commands: Vec<Vec<String>>,
}

impl<S> AppModel<S> {
    /// The host and the id of the pane with this key, if tmux can be reached there.
    pub open spec fn reached(self, pane_key: Seq<char>) -> Option<(Seq<char>, Seq<char>)> {
        match split_first(pane_key, '\t') {
            Some((host, id)) if self.runners.contains_key(host) => Some((host, id)),
            _ => None,
        }
    }

    /// The pane that keyboard input goes to, if tmux can be reached there.
    pub open spec fn input_target(self) -> Option<(Seq<char>, Seq<char>)> {
        match self.focused {
            Some(pane_key) => self.reached(pane_key),
            None => None,
        }
    }

    /// The focus after a click on the pane with this key: a click on the focused pane takes
    /// the focus away, any other click sets it.
    pub open spec fn focus_after_click(self, pane_key: Seq<char>) -> Option<Seq<char>> {
        if self.focused == Some(pane_key) {
            None
        } else {
            Some(pane_key)
        }
    }

    /// The host filtered for after a click on a host: a click on that host ends the filtering.
    pub open spec fn filter_after_click(self, host: Seq<char>) -> Option<Seq<char>> {
        if self.filter_host == Some(host) {
            None
        } else {
            Some(host)
        }
    }
}

/// Whether an optional string holds this text.
fn holds(s: &Option<String>, text: &str) -> (r: bool)
    ensures
        r == (optional_text(*s) == Some(text@)),
{
    match s {
        Some(s) => str_eq(s.as_str(), text),
        None => false,
    }
}

impl<S> App<S> {
    /// The commands for a quick action on a pane: those that type `keys` there, if tmux can be
    /// reached. They are to be run one after the other, up to the first that fails. Either way
    /// the next poll is due at once.
    pub fn quick_action(&mut self, pane_key: &str, keys: &str, now: u64) -> (r: Option<
        HostCommands,
    >)
        ensures
            final(self)@ == old(self)@.hurried(now as int),
            match old(self)@.reached(pane_key@) {
                Some((host, id)) => r matches Some(run) && run.host@ == host && commands(
                    run.commands@,
                ) == typing_lines(id, crate::text::split(keys@, '\n')),
                None => r is None,
            },
    {
        self.hurry(now);
        match split_pane_key(pane_key) {
            Some((host, pane_id)) => if self.runners.contains_key(host) {
                Some(HostCommands { host: host.to_owned(), commands: send_keys(pane_id, keys) })
            } else {
                None
            },
            None => None,
        }
    }

    /// The commands that forward keyboard input to the focused pane, to be run independently of
    /// each other. Nothing happens if no pane is focused or tmux cannot be reached there. If
    /// anything is sent, the next poll is due at once.
    pub fn forward_input(&mut self, events: &Vec<InputEvent>, now: u64) -> (r: Option<
        HostCommands,
    >)
        ensures
            match old(self)@.input_target() {
                Some((host, id)) => {
                    let outcome = after_events(
                        old(self)@.prefix_pending,
                        event_models(events@),
                        id,
                    );
                    let waiting = AppModel::<S> { prefix_pending: outcome.pending, ..old(self)@ };
                    &&& r matches Some(run) && run.host@ == host && commands(run.commands@)
                        == outcome.run
                    &&& final(self)@ == if outcome.sent {
                        waiting.hurried(now as int)
                    } else {
                        waiting
                    }
                },
                None => r is None && final(self)@ == old(self)@,
            },
    {
        let (host, pane_id) = match &self.focused_pane {
            Some(pane_key) => match split_pane_key(pane_key.as_str()) {
                Some((host, pane_id)) => (host.to_owned(), pane_id.to_owned()),
                None => return None,
            },
            None => return None,
        };
        if !self.runners.contains_key(host.as_str()) {
            return None;
        }
        let outcome = forward_events(self.tmux_prefix_pending, events, pane_id.as_str());
        self.tmux_prefix_pending = outcome.prefix_pending;
        if outcome.sent_input {
            self.hurry(now);
        }
        Some(HostCommands { host, commands: outcome.commands })
    }

    /// A click on a pane.
    pub fn click_pane(&mut self, pane_key: &str)
        ensures
            final(self)@ == (AppModel::<S> {
                focused: old(self)@.focus_after_click(pane_key@),
                ..old(self)@
            }),
            old(self)@.focused == Some(pane_key@) ==> final(self)@.focused is None,
            old(self)@.focused != Some(pane_key@) ==> final(self)@.focused == Some(pane_key@),
    {
        self.focused_pane = if holds(&self.focused_pane, pane_key) {
            None
        } else {
            Some(pane_key.to_owned())
        };
    }

    /// A click on a host.
    pub fn click_host(&mut self, host: &str)
        ensures
            final(self)@ == (AppModel::<S> {
                filter_host: old(self)@.filter_after_click(host@),
                ..old(self)@
            }),
            old(self)@.filter_host == Some(host@) ==> final(self)@.filter_host is None,
            old(self)@.filter_host != Some(host@) ==> final(self)@.filter_host == Some(host@),
    {
        self.filter_host = if holds(&self.filter_host, host) { None } else { Some(host.to_owned()) };
    }

    /// A click on "All": the windows of all hosts are shown.
    pub fn click_all(&mut self)
        ensures
            final(self)@ == (AppModel::<S> { filter_host: None, ..old(self)@ }),
    {
        self.filter_host = None;
    }

    /// Switches between all windows and those that need attention.
    pub fn toggle_attention(&mut self)
        ensures
            final(self)@ == (AppModel::<S> {
                only_attention: !old(self)@.only_attention,
                ..old(self)@
            }),
    {
        self.show_only_attention = !self.show_only_attention;
    }

    /// Hides the window with this key.
    pub fn hide_window(&mut self, key: String)
        ensures
            final(self)@ == (AppModel::<S> { hidden: old(self)@.hidden.insert(key@), ..old(self)@ }),
    {
        self.hidden_windows.insert(key);
    }

    /// Shows all hidden windows again.
    pub fn unhide_all(&mut self)
        ensures
            final(self)@ == (AppModel::<S> { hidden: Set::empty(), ..old(self)@ }),
    {
        self.hidden_windows.clear();
    }

    /// The windows found by the last poll.
    pub fn windows(&self) -> (r: &Vec<WindowInfo>)
        ensures
            window_models(r@) == self@.windows,
    {
        &self.windows
    }

    /// The buttons offered on panes that need attention.
    pub fn quick_actions(&self) -> (r: &Vec<QuickAction>)
        ensures
            action_models(r@) == self@.quick_actions,
    {
        &self.quick_actions
    }

    /// The patterns that ask for attention.
    pub fn attention_patterns(&self) -> (r: &Vec<String>)
        ensures
            texts(r@) == self@.patterns,
    {
        &self.attention_patterns
    }

    /// How to reach tmux on a host.
    pub fn runner(&self, host: &str) -> (r: Option<&TmuxRunner<S>>)
        ensures
            match r {
                Some(runner) => self@.runners.contains_key(host@) && *runner
                    == self@.runners[host@],
                None => !self@.runners.contains_key(host@),
            },
    {
        self.runners.get(host)
    }

    /// Whether a poll is in flight.
    pub fn poll_in_flight(&self) -> (r: bool)
        ensures
            r == self@.in_flight,
    {
        self.poll_in_flight
    }

    /// Whether the prefix key waits for the key after it.
    pub fn prefix_pending(&self) -> (r: bool)
        ensures
            r == self@.prefix_pending,
    {
        self.tmux_prefix_pending
    }

    /// Whether the pane with this key is focused.
    pub fn is_focused(&self, pane_key: &str) -> (r: bool)
        ensures
            r == (self@.focused == Some(pane_key@)),
    {
        holds(&self.focused_pane, pane_key)
    }

    /// The key of the focused pane.
    pub fn focused_pane(&self) -> (r: Option<&str>)
        ensures
            match r {
                Some(key) => self@.focused == Some(key@),
                None => self@.focused is None,
            },
    {
        match &self.focused_pane {
            Some(key) => Some(key.as_str()),
            None => None,
        }
    }

    /// Whether the windows of this host alone are shown.
    pub fn is_filtered_for(&self, host: &str) -> (r: bool)
        ensures
            r == (self@.filter_host == Some(host@)),
    {
        holds(&self.filter_host, host)
    }

    /// Whether the windows of all hosts are shown.
    pub fn shows_all_hosts(&self) -> (r: bool)
        ensures
            r == (self@.filter_host is None),
    {
        self.filter_host.is_none()
    }

    /// Whether only windows that need attention are shown.
    pub fn shows_only_attention(&self) -> (r: bool)
        ensures
            r == self@.only_attention,
    {
        self.show_only_attention
    }

    /// How many windows are hidden.
    pub fn hidden_count(&self) -> (r: usize)
        ensures
            r == self@.hidden.len(),
    {
        self.hidden_windows.len()
    }

    /// The last error of a host.
    pub fn connection_error(&self, host: &str) -> (r: Option<&str>)
        ensures
            match r {
                Some(message) => self@.errors.contains_key(host@) && message@
                    == self@.errors[host@],
                None => !self@.errors.contains_key(host@),
            },
    {
        match self.connection_errors.get(host) {
            Some(message) => Some(message.as_str()),
            None => None,
        }
    }
}

/// Without a filter, with nothing hidden and not limited to attention, every window is shown.
pub proof fn everything_is_shown_at_first<S>(m: AppModel<S>, w: WindowModel)
    requires
        m.filter_host is None,
        !m.only_attention,
        m.hidden == Set::<Seq<char>>::empty(),
    ensures
        m.shows(w),
{
}

/// Hiding a window hides it and no other, if host names hold no tab.
pub proof fn hiding_hides_one_window<S>(m: AppModel<S>, w: WindowModel, other: WindowModel)
    requires
        !w.host.contains('\t'),
        !other.host.contains('\t'),
    ensures
        ({
            let after = AppModel::<S> { hidden: m.hidden.insert(key_of(w.host, w.id)), ..m };
            &&& !after.shows(w)
            &&& (other.host != w.host || other.id != w.id) ==> after.shows(other) == m.shows(other)
        }),
{
    if key_of(w.host, w.id) == key_of(other.host, other.id) {
        pane_keys_are_distinct(w.host, w.id, other.host, other.id);
    }
}

/// A second click on a pane takes back the focus that the first one gave, and a second click
/// on a host ends the filtering that the first one started.
pub proof fn second_click_ends_focus_and_filter<S>(m: AppModel<S>, pane: Seq<char>, host: Seq<char>)
    ensures
        m.focused != Some(pane) ==> (AppModel::<S> {
            focused: m.focus_after_click(pane),
            ..m
        }).focus_after_click(pane) is None,
        m.filter_host != Some(host) ==> (AppModel::<S> {
            filter_host: m.filter_after_click(host),
            ..m
        }).filter_after_click(host) is None,
{
}

/// A pane whose key is focused is the one that input goes to, if tmux can be reached on its
/// host and the name of the host holds no tab.
pub proof fn focused_pane_gets_the_input<S>(m: AppModel<S>, host: Seq<char>, id: Seq<char>)
    requires
        !host.contains('\t'),
        m.runners.contains_key(host),
        m.focused == Some(key_of(host, id)),
    ensures
        m.input_target() == Some((host, id)),
{
    pane_keys_split(host, id);
}

/// The total counts panes, not windows: that of one window is the number of its panes that need
/// attention, and the totals of two groups of windows add up.
pub proof fn attention_totals_add_up(a: Seq<WindowModel>, b: Seq<WindowModel>, w: WindowModel)
    ensures
        attention_total(seq![w]) == w.panes.filter(
            |p: PaneModel| p.status == PaneStatus::NeedsAttention,
        ).len(),
        attention_total(a + b) == attention_total(a) + attention_total(b),
        attention_total(Seq::empty()) == 0,
    decreases b.len(),
{
    attention_counts_panes(w.panes, Seq::empty());
    assert(seq![w].drop_last() =~= Seq::<WindowModel>::empty());
    assert(attention_total(seq![w].drop_last()) == 0);
    if b.len() == 0 {
        assert(a + b =~= a);
    } else {
        attention_totals_add_up(a, b.drop_last(), w);
        assert((a + b).drop_last() =~= a + b.drop_last());
        assert((a + b).last() == b.last());
    }
}

/// The panes of two groups of windows add up, and those of one window are its panes.
pub proof fn pane_totals_add_up(a: Seq<WindowModel>, b: Seq<WindowModel>, w: WindowModel)
    ensures
        pane_total(seq![w]) == w.panes.len(),
        pane_total(a + b) == pane_total(a) + pane_total(b),
        pane_total(Seq::empty()) == 0,
    decreases b.len(),
{
    assert(seq![w].drop_last() =~= Seq::<WindowModel>::empty());
    assert(pane_total(seq![w].drop_last()) == 0);
    if b.len() == 0 {
        assert(a + b =~= a);
    } else {
        pane_totals_add_up(a, b.drop_last(), w);
        assert((a + b).drop_last() =~= a + b.drop_last());
        assert((a + b).last() == b.last());
    }
}

/// What was found on some hosts and then on others is what was found on all of them: windows and
/// errors stay in order, and a host gives either its windows or its error.
pub proof fn results_add_up(a: Seq<HostResult>, b: Seq<HostResult>, r: HostResult)
    ensures
        found_windows(a + b) == found_windows(a) + found_windows(b),
        found_errors(a + b) == found_errors(a) + found_errors(b),
        match r.result {
            Ok(windows) => found_windows(seq![r]) == window_models(windows@) && found_errors(
                seq![r],
            ).len() == 0,
            Err(message) => found_windows(seq![r]).len() == 0 && found_errors(seq![r]) == seq![
                (r.host@, message@),
            ],
        },
    decreases b.len(),
{
    assert(seq![r].drop_last() =~= Seq::<HostResult>::empty());
    assert(found_windows(seq![r].drop_last()) == Seq::<WindowModel>::empty());
    assert(found_errors(seq![r].drop_last()) == Seq::<(Seq<char>, Seq<char>)>::empty());
    if let Ok(windows) = r.result {
        assert(found_windows(seq![r]) =~= window_models(windows@));
    }
    if b.len() == 0 {
        assert(a + b =~= a);
        assert(found_windows(a) + found_windows(b) =~= found_windows(a));
        assert(found_errors(a) + found_errors(b) =~= found_errors(a));
    } else {
        results_add_up(a, b.drop_last(), r);
        assert((a + b).drop_last() =~= a + b.drop_last());
        assert((a + b).last() == b.last());
        assert(found_windows(a + b) =~= found_windows(a) + found_windows(b));
        assert(found_errors(a + b) =~= found_errors(a) + found_errors(b));
    }
}

/// Host by host, in the order of the configuration, the local hosts are discovered at the start
/// and the hosts with a runner are polled.
pub proof fn hosts_are_gone_through_in_order<S>(
    a: Seq<HostModel>,
    b: Seq<HostModel>,
    host: HostModel,
    runners: Map<Seq<char>, TmuxRunner<S>>,
)
    ensures
        local_names(a + b) == local_names(a) + local_names(b),
        local_names(seq![host]) == if host.local {
            seq![host.name]
        } else {
            Seq::<Seq<char>>::empty()
        },
        reachable(a + b, runners) == reachable(a, runners) + reachable(b, runners),
        reachable(seq![host], runners) == if runners.contains_key(host.name) {
            seq![host.name]
        } else {
            Seq::<Seq<char>>::empty()
        },
    decreases b.len(),
{
    assert(seq![host].drop_last() =~= Seq::<HostModel>::empty());
    assert(local_names(seq![host].drop_last()) == Seq::<Seq<char>>::empty());
    assert(reachable(seq![host].drop_last(), runners) == Seq::<Seq<char>>::empty());
    if b.len() == 0 {
        assert(a + b =~= a);
        assert(local_names(a) + local_names(b) =~= local_names(a));
        assert(reachable(a, runners) + reachable(b, runners) =~= reachable(a, runners));
    } else {
        hosts_are_gone_through_in_order(a, b.drop_last(), host, runners);
        assert((a + b).drop_last() =~= a + b.drop_last());
        assert((a + b).last() == b.last());
        assert(local_names(a + b) =~= local_names(a) + local_names(b));
        assert(reachable(a + b, runners) =~= reachable(a, runners) + reachable(b, runners));
    }
}

/// At first exactly the names of hosts configured as local have a runner, and it runs tmux on
/// this machine.
pub proof fn local_hosts_alone_run_at_first<S>(hosts: Seq<HostModel>, name: Seq<char>)
    ensures
        local_runners::<S>(hosts).contains_key(name) <==> exists|i: int|
            0 <= i < hosts.len() && (#[trigger] hosts[i]).name == name && hosts[i].local,
        local_runners::<S>(hosts).contains_key(name) ==> local_runners::<S>(hosts)[name]
            == TmuxRunner::<S>::Local,
{
}

/// A poll replaces the windows, drops the runners of exactly the remote hosts that failed, and
/// ends. The last error of a host that failed is its error then; that of any other host stays.
/// Nothing else changes.
pub proof fn polls_change_only_what_they_found<S>(
    m: AppModel<S>,
    windows: Seq<WindowModel>,
    errors: Seq<(Seq<char>, Seq<char>)>,
    name: Seq<char>,
    i: int,
)
    ensures
        ({
            let after = m.with_poll(windows, errors);
            let failed = exists|k: int| 0 <= k < errors.len() && (#[trigger] errors[k]).0 == name;
            let local = exists|k: int|
                0 <= k < m.hosts.len() && (#[trigger] m.hosts[k]).name == name && m.hosts[k].local;
            &&& after == (AppModel::<S> {
                windows,
                runners: after.runners,
                errors: after.errors,
                in_flight: false,
                ..m
            })
            &&& after.runners.contains_key(name) <==> m.runners.contains_key(name) && (!failed
                || local)
            &&& after.runners.contains_key(name) ==> after.runners[name] == m.runners[name]
            &&& !failed ==> (after.errors.contains_key(name) <==> m.errors.contains_key(name))
            &&& !failed && m.errors.contains_key(name) ==> after.errors[name] == m.errors[name]
            &&& (0 <= i < errors.len() && errors[i].0 == name && forall|k: int|
                i < k < errors.len() ==> (#[trigger] errors[k]).0 != name)
                ==> after.errors.contains_key(name) && after.errors[name] == errors[i].1
        }),
{
    last_errors_count(m.errors, errors, name, i);
}

proof fn last_errors_count(
    known: Map<Seq<char>, Seq<char>>,
    errors: Seq<(Seq<char>, Seq<char>)>,
    name: Seq<char>,
    i: int,
)
    ensures
        (forall|k: int| 0 <= k < errors.len() ==> (#[trigger] errors[k]).0 != name) ==> (with_errors(
            known,
            errors,
        ).contains_key(name) <==> known.contains_key(name)) && (known.contains_key(name)
            ==> with_errors(known, errors)[name] == known[name]),
        (0 <= i < errors.len() && errors[i].0 == name && forall|k: int|
            i < k < errors.len() ==> (#[trigger] errors[k]).0 != name) ==> with_errors(
            known,
            errors,
        ).contains_key(name) && with_errors(known, errors)[name] == errors[i].1,
    decreases errors.len(),
{
    if errors.len() > 0 {
        let head = errors.drop_last();
        let n = errors.len() - 1;
        last_errors_count(known, head, name, i);
        assert forall|k: int| 0 <= k < head.len() implies head[k] == #[trigger] errors[k] by {}
        if forall|k: int| 0 <= k < errors.len() ==> (#[trigger] errors[k]).0 != name {
            assert(errors[n].0 != name);
            assert forall|k: int| 0 <= k < head.len() implies (#[trigger] head[k]).0 != name by {
                assert(errors[k].0 != name);
            }
        }
        if 0 <= i < n && errors[i].0 == name && (forall|k: int|
            i < k < errors.len() ==> (#[trigger] errors[k]).0 != name) {
            assert(errors[n].0 != name);
            assert forall|k: int| i < k < head.len() implies (#[trigger] head[k]).0 != name by {
                assert(errors[k].0 != name);
            }
        }
    }
}

/// A poll is due when none is in flight and the interval, in seconds, has passed in nanoseconds;
/// a clock that goes back counts as one that stands still. Hurrying changes nothing but the time
/// of the last poll.
pub proof fn polls_are_due_after_the_interval<S>(m: AppModel<S>, now: int)
    ensures
        m.due(now) ==> !m.in_flight,
        !m.in_flight && m.last_poll <= now ==> (m.due(now) <==> now - m.last_poll
            >= m.poll_interval_secs * 1_000_000_000),
        !m.in_flight && now < m.last_poll ==> (m.due(now) <==> m.poll_interval_secs == 0),
        m.hurried(now) == (AppModel::<S> {
            last_poll: now - m.poll_interval_secs * 1_000_000_000 - 1_000_000,
            ..m
        }),
{
}

/// A pane can be reached exactly if its key has a tab and tmux can be reached on the host that
/// stands before the first one; what stands behind it is the id of the pane.
pub proof fn panes_are_reached_through_their_hosts<S>(
    m: AppModel<S>,
    host: Seq<char>,
    id: Seq<char>,
    other: Seq<char>,
)
    requires
        !host.contains('\t'),
        !other.contains('\t'),
    ensures
        m.reached(host + seq!['\t'] + id) == if m.runners.contains_key(host) {
            Some((host, id))
        } else {
            None
        },
        m.reached(other) is None,
        m.focused is None ==> m.input_target() is None,
        m.focused == Some(host + seq!['\t'] + id) ==> m.input_target() == m.reached(
            host + seq!['\t'] + id,
        ),
{
    split_first_at(host, '\t', id);
    split_first_needs_the_separator(other, '\t');
}

/// What is shown: of a host that is filtered for, what would be shown without the filter, and of
/// other hosts nothing; with attention alone, of what would be shown otherwise exactly the
/// windows with a pane that needs it; and never a window whose key is hidden.
pub proof fn filters_take_windows_away<S>(m: AppModel<S>, host: Seq<char>, w: WindowModel)
    ensures
        (AppModel::<S> { filter_host: Some(host), ..m }).shows(w) <==> w.host == host && (AppModel::<
            S,
        > { filter_host: None, ..m }).shows(w),
        (AppModel::<S> { only_attention: true, ..m }).shows(w) <==> (AppModel::<S> {
            only_attention: false,
            ..m
        }).shows(w) && exists|i: int|
            0 <= i < w.panes.len() && (#[trigger] w.panes[i]).status == PaneStatus::NeedsAttention,
        (AppModel::<S> { filter_host: None, only_attention: false, ..m }).shows(w)
            <==> !m.hidden.contains(w.host + seq!['\t'] + w.id),
{
    attention_counts(w.panes);
}

} // verus!
