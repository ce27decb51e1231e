use whackamux::ssh::{
    command_result, default_key_paths, key_paths, ChannelEvent, CommandOutput, KeyOutcome, KeyPath,
    Login, SshError,
};

fn names(paths: &[KeyPath]) -> Vec<String> {
    paths
        .iter()
        .map(|p| match p {
            KeyPath::Given(path) => format!("given {}", path),
            KeyPath::InSshDir(name) => format!("home {}", name),
        })
        .collect()
}

#[test]
fn key_files() {
    let usual = vec!["home id_ed25519", "home id_rsa", "home id_ecdsa"];
    assert_eq!(names(&default_key_paths(true)), usual);
    assert!(default_key_paths(false).is_empty());
    assert_eq!(names(&key_paths(None, true)), usual);
    assert!(key_paths(None, false).is_empty());
    assert_eq!(
        names(&key_paths(Some("/k"), true)),
        vec!["given /k", "home id_ed25519", "home id_rsa", "home id_ecdsa"]
    );
    assert_eq!(names(&key_paths(Some("/k"), false)), vec!["given /k"]);
}

#[test]
fn the_first_accepted_key_is_the_last_one_tried() {
    let mut login = Login::new(default_key_paths(true));
    assert_eq!(names(&[login.current().unwrap().clone()]), vec!["home id_ed25519"]);
    login.report(KeyOutcome::Missing);
    assert_eq!(names(&[login.current().unwrap().clone()]), vec!["home id_rsa"]);
    login.report(KeyOutcome::Accepted);
    assert!(login.current().is_none());
    assert!(login.finish("u", "h", 22).is_ok());
    login.report(KeyOutcome::Rejected);
    assert!(login.finish("u", "h", 22).is_ok());
}

#[test]
fn the_usual_keys_follow_a_configured_one() {
    for first in [KeyOutcome::Missing, KeyOutcome::Rejected, KeyOutcome::Failed] {
        let mut login = Login::new(key_paths(Some("/k"), true));
        login.report(first);
        assert_eq!(names(&[login.current().unwrap().clone()]), vec!["home id_ed25519"]);
        login.report(KeyOutcome::Accepted);
        assert!(login.finish("u", "h", 22).is_ok());
    }
    let mut login = Login::new(key_paths(Some("/k"), true));
    login.report(KeyOutcome::Accepted);
    assert!(login.current().is_none());
    assert!(login.finish("u", "h", 22).is_ok());
    let mut login = Login::new(key_paths(Some("/k"), true));
    for _ in 0..4 {
        login.report(KeyOutcome::Rejected);
    }
    assert_eq!(
        login.finish("u", "h", 22).unwrap_err().message(),
        "SSH authentication failed for u@h:22 (tried 4 keys)"
    );
}

#[test]
fn a_login_without_an_accepted_key_fails() {
    let mut login = Login::new(default_key_paths(true));
    for outcome in [KeyOutcome::Missing, KeyOutcome::Rejected, KeyOutcome::Failed] {
        assert!(login.current().is_some());
        login.report(outcome);
    }
    assert!(login.current().is_none());
    login.report(KeyOutcome::Accepted);
    let e = login.finish("bob", "example.org", 2222).unwrap_err();
    assert_eq!(
        e.message(),
        "SSH authentication failed for bob@example.org:2222 (tried 3 keys)"
    );
    let none = Login::new(Vec::new());
    assert!(none.current().is_none());
    assert_eq!(
        none.finish("a", "b", 22).unwrap_err().message(),
        "SSH authentication failed for a@b:22 (tried 0 keys)"
    );
}

#[test]
fn command_output_is_collected() {
    let mut output = CommandOutput::new();
    output.receive(ChannelEvent::Data(b"ab".to_vec()));
    output.receive(ChannelEvent::Other);
    output.receive(ChannelEvent::Data(b"c\xff".to_vec()));
    output.receive(ChannelEvent::ExitStatus(0));
    assert!(!output.done);
    output.receive(ChannelEvent::Eof);
    assert!(output.done);
    output.receive(ChannelEvent::Data(b"late".to_vec()));
    output.receive(ChannelEvent::ExitStatus(1));
    assert_eq!(output.stdout, b"abc\xff".to_vec());
    assert_eq!(output.exit_code, Some(0));
    assert_eq!(output.finish("ls", false).unwrap(), "abc\u{fffd}");
}

#[test]
fn commands_may_fail_or_time_out() {
    let mut output = CommandOutput::new();
    output.receive(ChannelEvent::Data("é".repeat(300).into_bytes()));
    output.receive(ChannelEvent::ExitStatus(127));
    output.receive(ChannelEvent::Close);
    let e = output.finish("ls", false).unwrap_err();
    assert_eq!(e.message(), format!("Remote command exited with 127: {}", "é".repeat(200)));
    let e = output.finish("ls -l", true).unwrap_err();
    assert!(matches!(e, SshError::TimedOut { .. }));
    assert_eq!(e.message(), "SSH command timed out: ls -l");
}

#[test]
fn results_of_commands() {
    let text = || "out".to_string();
    assert_eq!(command_result("c", false, None, text()).unwrap(), "out");
    assert_eq!(command_result("c", false, Some(0), text()).unwrap(), "out");
    assert_eq!(
        command_result("c", false, Some(1), text()).unwrap_err().message(),
        "Remote command exited with 1: out"
    );
    assert_eq!(
        command_result("c", true, Some(0), text()).unwrap_err().message(),
        "SSH command timed out: c"
    );
}
