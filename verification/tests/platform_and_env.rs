use subshell::env_unicode::{get, get_all, get_path, EnvError};
use subshell::platform::{Action, IoFailure, OsText, Platform};

fn s(text: &str) -> String {
    String::from(text)
}

fn text(value: &str) -> OsText {
    OsText::Text(String::from(value))
}

fn host_with(vars: &[(&str, &str)]) -> Platform {
    let mut host = Platform::new();
    for (name, value) in vars {
        host.push_var(text(name), text(value));
    }
    host
}

#[test]
fn empty_record_knows_nothing() {
    let host = Platform::new();
    assert_eq!(host.var_count(), 0);
    assert_eq!(host.var(&s("HOME")), None);
    assert_eq!(host.status(&s("/")), Err(IoFailure::NotFound));
    assert!(!host.present(&s("/")));
}

#[test]
fn var_gives_the_last_entry_of_a_name() {
    let mut host = host_with(&[("A", "1"), ("B", "2"), ("A", "3")]);
    assert_eq!(host.var(&s("A")), Some(text("3")));
    assert_eq!(host.var(&s("B")), Some(text("2")));
    host.push_var(text("B"), OsText::NotText);
    assert_eq!(host.var(&s("B")), Some(OsText::NotText));
    assert_eq!(host.var_count(), 4);
}

#[test]
fn var_at_follows_enumeration() {
    let host = host_with(&[("A", "1"), ("B", "2")]);
    assert_eq!(host.var_at(0), (&text("A"), &text("1")));
    assert_eq!(host.var_at(1), (&text("B"), &text("2")));
}

#[test]
fn entry_with_a_name_that_is_not_text_matches_no_name() {
    let mut host = Platform::new();
    host.push_var(OsText::NotText, text("1"));
    assert_eq!(host.var(&s("")), None);
}

#[test]
fn status_gives_the_last_record_of_a_path() {
    let mut host = Platform::new();
    host.record(s("/a"), Err(IoFailure::Other(s("permission denied"))));
    host.record(s("/b"), Ok(()));
    assert_eq!(host.status(&s("/a")), Err(IoFailure::Other(s("permission denied"))));
    assert_eq!(host.status(&s("/b")), Ok(()));
    assert!(host.present(&s("/b")));
    assert!(!host.present(&s("/a")));
    host.record(s("/a"), Ok(()));
    assert!(host.present(&s("/a")));
    host.record(s("/b"), Err(IoFailure::NotFound));
    assert!(!host.present(&s("/b")));
}

#[test]
fn perform_notes_what_an_action_changes() {
    let mut host = host_with(&[("A", "1")]);
    host.perform(&Action::CreateDir { path: s("/base") });
    host.perform(&Action::CopyFile { from: s("/home/.zshrc"), to: s("/base/.zshrc") });
    host.perform(&Action::SetVar { name: s("A"), value: s("2") });
    assert!(host.present(&s("/base")));
    assert!(host.present(&s("/base/.zshrc")));
    assert!(!host.present(&s("/home/.zshrc")));
    assert_eq!(host.var(&s("A")), Some(text("2")));
}

#[test]
fn perform_all_goes_in_order() {
    let mut host = Platform::new();
    host.perform_all(&vec![
        Action::SetVar { name: s("A"), value: s("1") },
        Action::CreateDir { path: s("/d") },
        Action::SetVar { name: s("A"), value: s("2") },
    ]);
    assert_eq!(host.var(&s("A")), Some(text("2")));
    assert!(host.present(&s("/d")));
}

#[test]
fn failure_kinds_are_told_apart() {
    assert!(IoFailure::NotFound.is_not_found());
    assert!(!IoFailure::Other(s("busy")).is_not_found());
    assert_eq!(IoFailure::Other(s("busy")).duplicate(), IoFailure::Other(s("busy")));
    assert_eq!(text("x").duplicate(), text("x"));
    assert_eq!(OsText::NotText.duplicate(), OsText::NotText);
}

#[test]
fn get_gives_the_text_of_a_variable() {
    let host = host_with(&[("HOME", "/home/u"), ("PATH", "/usr/bin")]);
    assert_eq!(get(s("HOME"), &host), Ok(s("/home/u")));
    assert_eq!(get(s("PATH"), &host), Ok(s("/usr/bin")));
}

#[test]
fn get_of_an_absent_variable_is_not_found() {
    let host = host_with(&[("HOME", "/home/u")]);
    assert_eq!(get(s("SHELL"), &host), Err(EnvError::NotFound(s("SHELL"))));
}

#[test]
fn get_of_a_value_that_is_not_text_is_invalid_unicode() {
    let mut host = host_with(&[("HOME", "/home/u")]);
    host.push_var(text("BAD"), OsText::NotText);
    assert_eq!(get(s("BAD"), &host), Err(EnvError::InvalidUnicode(s("BAD"))));
}

#[test]
fn get_path_splits_at_colons() {
    let host = host_with(&[("PATH", "/usr/local/bin:/usr/bin:/bin")]);
    assert_eq!(get_path(&host), Ok(vec![s("/usr/local/bin"), s("/usr/bin"), s("/bin")]));
}

#[test]
fn get_path_keeps_empty_segments() {
    let host = host_with(&[("PATH", ":/usr/bin::/bin:")]);
    assert_eq!(get_path(&host), Ok(vec![s(""), s("/usr/bin"), s(""), s("/bin"), s("")]));
}

#[test]
fn get_path_of_an_empty_value_is_one_empty_segment() {
    let host = host_with(&[("PATH", "")]);
    assert_eq!(get_path(&host), Ok(vec![s("")]));
}

#[test]
fn get_path_without_the_variable_is_not_found() {
    let host = host_with(&[("HOME", "/home/u")]);
    assert_eq!(get_path(&host), Err(EnvError::NotFound(s("PATH"))));
}

#[test]
fn get_path_of_a_value_that_is_not_text_is_invalid_unicode() {
    let mut host = Platform::new();
    host.push_var(text("PATH"), OsText::NotText);
    assert_eq!(get_path(&host), Err(EnvError::InvalidUnicode(s("PATH"))));
}

#[test]
fn get_all_captures_every_variable() {
    let host = host_with(&[("HOME", "/home/u"), ("PATH", "/usr/bin"), ("EMPTY", "")]);
    let env = get_all(&host).unwrap();
    assert_eq!(env.len(), 3);
    assert_eq!(env.get(&s("HOME")), Some(&s("/home/u")));
    assert_eq!(env.get(&s("PATH")), Some(&s("/usr/bin")));
    assert_eq!(env.get(&s("EMPTY")), Some(&s("")));
    assert_eq!(env.get(&s("SHELL")), None);
}

#[test]
fn get_all_of_an_empty_environment_is_empty() {
    let env = get_all(&Platform::new()).unwrap();
    assert!(env.is_empty());
}

#[test]
fn get_all_lets_the_last_of_two_entries_win() {
    let host = host_with(&[("A", "1"), ("B", "x"), ("A", "2")]);
    let env = get_all(&host).unwrap();
    assert_eq!(env.get(&s("A")), Some(&s("2")));
    assert_eq!(env.len(), 2);
    assert_eq!(env.entry(0), (&s("A"), &s("2")));
    assert_eq!(env.entry(1), (&s("B"), &s("x")));
}

#[test]
fn get_all_fails_on_a_value_that_is_not_text() {
    let mut host = host_with(&[("HOME", "/home/u")]);
    host.push_var(text("BAD"), OsText::NotText);
    host.push_var(text("PATH"), text("/usr/bin"));
    assert_eq!(get_all(&host).err(), Some(EnvError::InvalidUnicode(s("BAD"))));
}

#[test]
fn get_all_fails_on_a_name_that_is_not_text() {
    let mut host = host_with(&[("HOME", "/home/u")]);
    host.push_var(OsText::NotText, text("value"));
    assert_eq!(get_all(&host).err(), Some(EnvError::InvalidUnicode(s("<key>"))));
}

#[test]
fn get_all_reports_the_first_entry_that_is_not_text() {
    let mut host = Platform::new();
    host.push_var(text("FIRST"), OsText::NotText);
    host.push_var(OsText::NotText, text("value"));
    assert_eq!(get_all(&host).err(), Some(EnvError::InvalidUnicode(s("FIRST"))));
    let mut other = Platform::new();
    other.push_var(OsText::NotText, OsText::NotText);
    other.push_var(text("SECOND"), OsText::NotText);
    assert_eq!(get_all(&other).err(), Some(EnvError::InvalidUnicode(s("<key>"))));
}

#[test]
fn captured_value_is_what_the_platform_held() {
    let host = host_with(&[("HOME", "/home/u"), ("LANG", "C.UTF-8"), ("TERM", "xterm")]);
    let env = get_all(&host).unwrap();
    for index in 0..host.var_count() {
        let (name, value) = host.var_at(index);
        match (name, value) {
            (OsText::Text(name), OsText::Text(value)) => assert_eq!(env.get(name), Some(value)),
            _ => panic!("every entry is text"),
        }
    }
}

#[test]
fn env_error_messages() {
    assert_eq!(
        EnvError::InvalidUnicode(s("BAD")).message(),
        "invalid unicode on the value of BAD\n"
    );
    assert_eq!(EnvError::NotFound(s("HOME")).message(), "environment variable HOME not found\n");
    assert_eq!(EnvError::NotFound(s("X")).duplicate(), EnvError::NotFound(s("X")));
    assert_eq!(EnvError::InvalidUnicode(s("X")).duplicate(), EnvError::InvalidUnicode(s("X")));
}
