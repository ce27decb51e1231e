use whackamux::config::{
    default_attention_patterns, default_poll_interval, default_port, default_quick_actions, Config,
};

#[test]
fn the_defaults() {
    assert_eq!(default_poll_interval(), 2);
    assert_eq!(default_port(), 22);
    assert_eq!(
        default_attention_patterns(),
        vec!["Do you want to", "Allow", "yes/no", "Permission", "Press enter"]
    );
    let actions: Vec<(String, String)> =
        default_quick_actions().into_iter().map(|a| (a.label, a.keys)).collect();
    let expected: Vec<(String, String)> = [("yes", "yes\n"), ("y", "y\n"), ("enter", "\n")]
        .iter()
        .map(|(l, k)| (l.to_string(), k.to_string()))
        .collect();
    assert_eq!(actions, expected);
}

#[test]
fn without_a_file_this_machine_is_watched() {
    let config = Config::localhost();
    assert_eq!(config.hosts.len(), 1);
    assert_eq!(config.hosts[0].name, "localhost");
    assert_eq!(config.hosts[0].ssh, None);
    assert_eq!(config.hosts[0].port, 22);
    assert!(config.hosts[0].local);
    assert_eq!(config.hosts[0].key, None);
    assert_eq!(config.poll_interval_secs, 2);
    assert_eq!(config.attention_patterns.len(), 5);
    assert_eq!(config.quick_actions.len(), 3);
}
