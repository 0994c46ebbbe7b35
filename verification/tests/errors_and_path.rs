use subshell::env_unicode::EnvError;
use subshell::error::{LaunchError, SubShellError};
use subshell::path::{candidates, find_in_path, NotInPathError};
use subshell::platform::{IoFailure, OsText, Platform};

fn s(text: &str) -> String {
    String::from(text)
}

fn text(value: &str) -> OsText {
    OsText::Text(String::from(value))
}

fn host_with_path(path: &str, present: &[&str]) -> Platform {
    let mut host = Platform::new();
    host.push_var(text("PATH"), text(path));
    for p in present {
        host.record(s(p), Ok(()));
    }
    host
}

#[test]
fn message_of_a_missing_directory() {
    assert_eq!(
        SubShellError::SubShellDir(IoFailure::NotFound).message(),
        ".subshell directory not found\n"
    );
}

#[test]
fn message_of_a_directory_out_of_reach() {
    assert_eq!(
        SubShellError::SubShellDir(IoFailure::Other(s("permission denied"))).message(),
        "cannot create/open directory .subshell\n"
    );
}

#[test]
fn message_of_a_reserved_name() {
    assert_eq!(
        SubShellError::CreateReserved(s("reserved")).message(),
        "cannot create profile name with reserved word reserved\n"
    );
}

#[test]
fn message_of_an_unknown_word() {
    assert_eq!(
        SubShellError::NoSuchProfileOrCommand(s("wrk")).message(),
        "wrk profile is not found or it is an invalid command. Please refer to the help\n"
    );
}

#[test]
fn message_of_an_unset_profile_and_of_an_unbound_one() {
    assert_eq!(SubShellError::ProfileIsNotSet.message(), "profile is not set\n");
    assert_eq!(SubShellError::InvalidSubShell.message(), "invalid subshell\n");
}

#[test]
fn source_is_the_platform_failure() {
    let failure = IoFailure::Other(s("busy"));
    assert_eq!(SubShellError::SubShellDir(IoFailure::Other(s("busy"))).source(), Some(&failure));
    assert_eq!(SubShellError::SubShellDir(IoFailure::NotFound).source(), Some(&IoFailure::NotFound));
    assert_eq!(SubShellError::CreateReserved(s("x")).source(), None);
    assert_eq!(SubShellError::NoSuchProfileOrCommand(s("x")).source(), None);
    assert_eq!(SubShellError::ProfileIsNotSet.source(), None);
    assert_eq!(SubShellError::InvalidSubShell.source(), None);
}

#[test]
fn platform_failure_becomes_a_directory_error() {
    assert_eq!(
        SubShellError::from(IoFailure::NotFound),
        SubShellError::SubShellDir(IoFailure::NotFound)
    );
    let converted: SubShellError = IoFailure::Other(s("busy")).into();
    assert_eq!(converted, SubShellError::SubShellDir(IoFailure::Other(s("busy"))));
}

#[test]
fn duplicate_of_an_error_is_the_same_error() {
    let errors = vec![
        SubShellError::SubShellDir(IoFailure::Other(s("busy"))),
        SubShellError::CreateReserved(s("a")),
        SubShellError::NoSuchProfileOrCommand(s("b")),
        SubShellError::ProfileIsNotSet,
        SubShellError::InvalidSubShell,
    ];
    for e in &errors {
        assert_eq!(&e.duplicate(), e);
    }
}

#[test]
fn launch_error_messages() {
    assert_eq!(
        LaunchError::Env(EnvError::NotFound(s("HOME"))).message(),
        "environment variable HOME not found\n"
    );
    assert_eq!(LaunchError::NotInPath(NotInPathError).message(), "not found in PATH env variable");
    assert_eq!(LaunchError::SubShell(SubShellError::ProfileIsNotSet).message(), "profile is not set\n");
    assert_eq!(LaunchError::Io(IoFailure::NotFound).message(), "entity not found");
    assert_eq!(LaunchError::Io(IoFailure::Other(s("disk full"))).message(), "disk full");
    assert_eq!(NotInPathError.message(), "not found in PATH env variable");
}

#[test]
fn candidates_follow_the_search_path() {
    let host = host_with_path("/usr/local/bin:/usr/bin::/bin", &[]);
    assert_eq!(
        candidates(&s("zsh"), &host),
        vec![s("/usr/local/bin/zsh"), s("/usr/bin/zsh"), s("/zsh"), s("/bin/zsh")]
    );
}

#[test]
fn candidates_without_a_search_path_are_none() {
    assert_eq!(candidates(&s("zsh"), &Platform::new()), Vec::<String>::new());
}

#[test]
fn find_gives_the_only_match() {
    let host = host_with_path("/usr/bin", &["/usr/bin/zsh"]);
    assert_eq!(find_in_path(s("zsh"), &host), Ok(s("/usr/bin/zsh")));
}

#[test]
fn find_gives_the_first_directory_in_path_order() {
    let host = host_with_path("/opt/bin:/usr/bin:/bin", &["/bin/zsh", "/usr/bin/zsh"]);
    assert_eq!(find_in_path(s("zsh"), &host), Ok(s("/usr/bin/zsh")));
    let reversed = host_with_path("/bin:/usr/bin:/opt/bin", &["/bin/zsh", "/usr/bin/zsh"]);
    assert_eq!(find_in_path(s("zsh"), &reversed), Ok(s("/bin/zsh")));
}

#[test]
fn find_fails_when_no_directory_has_the_name() {
    let host = host_with_path("/opt/bin:/usr/bin", &["/usr/bin/bash", "/sbin/zsh"]);
    assert_eq!(find_in_path(s("zsh"), &host), Err(NotInPathError));
}

#[test]
fn find_does_not_match_part_of_a_name() {
    let host = host_with_path("/usr/bin", &["/usr/bin/zsh5", "/usr/bin/zs", "/usr/binzsh"]);
    assert_eq!(find_in_path(s("zsh"), &host), Err(NotInPathError));
}

#[test]
fn find_fails_when_the_search_path_is_not_set() {
    let mut host = Platform::new();
    host.record(s("/usr/bin/zsh"), Ok(()));
    assert_eq!(find_in_path(s("zsh"), &host), Err(NotInPathError));
}

#[test]
fn find_fails_when_the_search_path_is_not_text() {
    let mut host = Platform::new();
    host.push_var(text("PATH"), OsText::NotText);
    host.record(s("/usr/bin/zsh"), Ok(()));
    assert_eq!(find_in_path(s("zsh"), &host), Err(NotInPathError));
}

#[test]
fn find_passes_over_a_path_that_the_platform_cannot_reach() {
    let mut host = host_with_path("/secret:/usr/bin", &["/usr/bin/zsh"]);
    host.record(s("/secret/zsh"), Err(IoFailure::Other(s("permission denied"))));
    assert_eq!(find_in_path(s("zsh"), &host), Ok(s("/usr/bin/zsh")));
}

#[test]
fn find_looks_in_an_empty_segment_at_the_root() {
    let host = host_with_path(":/usr/bin", &["/zsh", "/usr/bin/zsh"]);
    assert_eq!(find_in_path(s("zsh"), &host), Ok(s("/zsh")));
}
