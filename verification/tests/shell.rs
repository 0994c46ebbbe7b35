use subshell::env_map::EnvMap;
use subshell::env_unicode::EnvError;
use subshell::error::{LaunchError, SubShellError};
use subshell::path::NotInPathError;
use subshell::plan::Plan;
use subshell::platform::{Action, IoFailure, Launch, OsText, Platform};
use subshell::profile::prepare;
use subshell::subzsh::{startup_files, SubZsh};
use subshell::Profile as ProfileOps;
use subshell::{EnvInput, EnvQuery, EnvResult, SubShell};

fn s(text: &str) -> String {
    String::from(text)
}

fn text(value: &str) -> OsText {
    OsText::Text(String::from(value))
}

fn set(name: &str, value: &str) -> Action {
    Action::SetVar { name: s(name), value: s(value) }
}

fn copy(from: &str, to: &str) -> Action {
    Action::CopyFile { from: s(from), to: s(to) }
}

/// A machine with zsh in /usr/bin and the given variables.
fn machine(vars: &[(&str, &str)]) -> Platform {
    let mut host = Platform::new();
    for (name, value) in vars {
        host.push_var(text(name), text(value));
    }
    host.record(s("/usr/bin/zsh"), Ok(()));
    host
}

fn usual() -> Platform {
    machine(&[("HOME", "/home/u"), ("PATH", "/usr/bin")])
}

fn zsh_on(host: &Platform) -> SubZsh {
    subshell::subzsh::prepare_zsh(host).unwrap()
}

fn single(shell: &SubZsh, name: &str) -> Result<String, EnvError> {
    match shell.get_env(EnvQuery::Single(s(name))) {
        Ok(EnvResult::Single(value)) => Ok(value),
        Ok(EnvResult::Multi(_)) => panic!("one name was asked for"),
        Err(e) => Err(e),
    }
}

fn multi(shell: &SubZsh, names: &[&str]) -> Result<EnvMap, EnvError> {
    match shell.get_env(EnvQuery::Multi(names.iter().map(|n| s(n)).collect())) {
        Ok(EnvResult::Multi(env)) => Ok(env),
        Ok(EnvResult::Single(_)) => panic!("several names were asked for"),
        Err(e) => Err(e),
    }
}

#[test]
fn zsh_startup_files_in_order() {
    assert_eq!(
        startup_files(),
        vec![s(".zshenv"), s(".zprofile"), s(".zshrc"), s(".zlogin"), s(".zlogout")]
    );
}

#[test]
fn prepare_finds_zsh_and_captures_the_environment() {
    let host = usual();
    let shell = zsh_on(&host);
    assert_eq!(shell.exec(), Launch { program: s("/usr/bin/zsh"), args: vec![s("-l")] });
    assert_eq!(single(&shell, "HOME"), Ok(s("/home/u")));
    assert_eq!(single(&shell, "PATH"), Ok(s("/usr/bin")));
}

#[test]
fn every_way_of_preparing_gives_the_same_shell() {
    let host = usual();
    let boxed = subshell::prepare_zsh(&host).unwrap();
    let other = subshell::subzsh::prepare(&host).unwrap();
    assert_eq!(boxed.exec(), zsh_on(&host).exec());
    assert_eq!(other.exec(), zsh_on(&host).exec());
    assert_eq!(boxed.get_home_env(), Ok(s("/home/u")));
    assert_eq!(other.get_home_env(), Ok(s("/home/u")));
}

#[test]
fn prepare_without_zsh_is_not_in_path() {
    let mut host = Platform::new();
    host.push_var(text("PATH"), text("/usr/bin"));
    assert_eq!(
        subshell::subzsh::prepare_zsh(&host).err(),
        Some(LaunchError::NotInPath(NotInPathError))
    );
    assert_eq!(subshell::prepare_zsh(&host).err(), Some(LaunchError::NotInPath(NotInPathError)));
    assert_eq!(
        subshell::subzsh::prepare(&Platform::new()).err(),
        Some(LaunchError::NotInPath(NotInPathError))
    );
}

#[test]
fn prepare_with_a_poisoned_environment_fails() {
    let mut host = usual();
    host.push_var(text("BAD"), OsText::NotText);
    assert_eq!(
        subshell::subzsh::prepare_zsh(&host).err(),
        Some(LaunchError::Env(EnvError::InvalidUnicode(s("BAD"))))
    );
}

#[test]
fn search_fails_before_the_capture_does() {
    let mut host = Platform::new();
    host.push_var(text("PATH"), text("/usr/bin"));
    host.push_var(text("BAD"), OsText::NotText);
    assert_eq!(
        subshell::subzsh::prepare_zsh(&host).err(),
        Some(LaunchError::NotInPath(NotInPathError))
    );
}

#[test]
fn populate_replaces_the_environment() {
    let mut shell = zsh_on(&usual());
    let later = machine(&[("HOME", "/root"), ("LANG", "C")]);
    assert_eq!(shell.populate_env_hashmap(&later), Ok(()));
    assert_eq!(single(&shell, "HOME"), Ok(s("/root")));
    assert_eq!(single(&shell, "LANG"), Ok(s("C")));
    assert_eq!(single(&shell, "PATH"), Err(EnvError::NotFound(s("PATH"))));
    assert_eq!(shell.exec().program, "/usr/bin/zsh");
}

#[test]
fn populate_that_fails_changes_nothing() {
    let mut shell = zsh_on(&usual());
    let mut later = machine(&[("HOME", "/root")]);
    later.push_var(OsText::NotText, text("x"));
    assert_eq!(shell.populate_env_hashmap(&later), Err(EnvError::InvalidUnicode(s("<key>"))));
    assert_eq!(single(&shell, "HOME"), Ok(s("/home/u")));
}

#[test]
fn single_query_for_an_absent_name_is_not_found() {
    let shell = zsh_on(&usual());
    assert_eq!(single(&shell, "SHELL"), Err(EnvError::NotFound(s("SHELL"))));
    assert_eq!(single(&shell, ""), Err(EnvError::NotFound(s(""))));
}

#[test]
fn query_sees_the_environment_of_the_capture_only() {
    let mut host = usual();
    let shell = zsh_on(&host);
    host.push_var(text("HOME"), text("/elsewhere"));
    host.push_var(text("NEW"), text("1"));
    assert_eq!(single(&shell, "HOME"), Ok(s("/home/u")));
    assert_eq!(single(&shell, "NEW"), Err(EnvError::NotFound(s("NEW"))));
}

#[test]
fn multi_query_gives_the_names_that_exist() {
    let shell = zsh_on(&machine(&[("HOME", "/home/u"), ("PATH", "/usr/bin"), ("LANG", "C")]));
    let env = multi(&shell, &["PATH", "NOPE", "HOME", "PATH"]).unwrap();
    assert_eq!(env.get(&s("PATH")), Some(&s("/usr/bin")));
    assert_eq!(env.get(&s("HOME")), Some(&s("/home/u")));
    assert_eq!(env.get(&s("NOPE")), None);
    assert_eq!(env.get(&s("LANG")), None);
}

#[test]
fn multi_query_for_nothing_that_exists_is_not_found() {
    let shell = zsh_on(&usual());
    assert_eq!(multi(&shell, &["A", "B"]).err(), Some(EnvError::NotFound(s("<multiple keys>"))));
    assert_eq!(multi(&shell, &[]).err(), Some(EnvError::NotFound(s("<multiple keys>"))));
}

#[test]
fn get_all_env_is_the_whole_capture() {
    let shell = zsh_on(&usual());
    match shell.get_all_env() {
        Ok(EnvResult::Multi(env)) => {
            assert_eq!(env.len(), 2);
            assert_eq!(env.entry(0), (&s("HOME"), &s("/home/u")));
            assert_eq!(env.entry(1), (&s("PATH"), &s("/usr/bin")));
        }
        other => panic!("unexpected answer {:?}", other),
    }
}

#[test]
fn home_comes_from_the_capture() {
    assert_eq!(zsh_on(&usual()).get_home_env(), Ok(s("/home/u")));
    let homeless = zsh_on(&machine(&[("PATH", "/usr/bin")]));
    assert_eq!(homeless.get_home_env(), Err(EnvError::NotFound(s("HOME"))));
}

#[test]
fn set_env_sets_one_variable() {
    let mut shell = zsh_on(&usual());
    assert_eq!(shell.set_env(EnvInput::KeyVal(s("EDITOR"), s("vi"))), Ok(()));
    assert_eq!(shell.set_env(EnvInput::KeyVal(s("HOME"), s("/root"))), Ok(()));
    assert_eq!(single(&shell, "EDITOR"), Ok(s("vi")));
    assert_eq!(single(&shell, "HOME"), Ok(s("/root")));
    assert_eq!(single(&shell, "PATH"), Ok(s("/usr/bin")));
    assert_eq!(shell.exec().program, "/usr/bin/zsh");
}

#[test]
fn set_env_sets_every_entry_of_a_map() {
    let mut shell = zsh_on(&usual());
    let mut more = EnvMap::new();
    more.insert(s("A"), s("1"));
    more.insert(s("HOME"), s("/root"));
    more.insert(s("A"), s("2"));
    assert_eq!(shell.set_env(EnvInput::Mapping(more)), Ok(()));
    assert_eq!(single(&shell, "A"), Ok(s("2")));
    assert_eq!(single(&shell, "HOME"), Ok(s("/root")));
    assert_eq!(single(&shell, "PATH"), Ok(s("/usr/bin")));
    assert_eq!(shell.set_env(EnvInput::Mapping(EnvMap::new())), Ok(()));
    assert_eq!(single(&shell, "A"), Ok(s("2")));
    match shell.get_all_env() {
        Ok(EnvResult::Multi(env)) => {
            assert_eq!(env.len(), 3);
            assert_eq!(env.entry(0), (&s("HOME"), &s("/root")));
            assert_eq!(env.entry(1), (&s("PATH"), &s("/usr/bin")));
            assert_eq!(env.entry(2), (&s("A"), &s("2")));
        }
        other => panic!("unexpected answer {:?}", other),
    }
}

#[test]
fn exec_is_the_shell_as_a_login_shell() {
    let mut host = Platform::new();
    host.push_var(text("PATH"), text("/opt/zsh/bin:/usr/bin"));
    host.record(s("/opt/zsh/bin/zsh"), Ok(()));
    let shell = zsh_on(&host);
    assert_eq!(shell.exec(), Launch { program: s("/opt/zsh/bin/zsh"), args: vec![s("-l")] });
}

#[test]
fn apply_binds_the_configuration_directory() {
    let mut host = usual();
    host.record(s("/home/u/.subshell"), Ok(()));
    host.record(s("/home/u/.subshell/work"), Ok(()));
    let shell = zsh_on(&host);
    let (mut profile, steps) = prepare(s("/home/u/.subshell"), Some(&shell), &host).unwrap();
    assert_eq!(steps, vec![]);
    profile.set_profile_name(s("work"));
    let plan = shell.apply_environment(&profile, &host);
    assert_eq!(
        plan,
        Plan {
            steps: vec![
                set("HOME", "/home/u"),
                set("PATH", "/usr/bin"),
                set("ZDOTDIR", "/home/u/.subshell/work"),
            ],
            outcome: Ok(()),
        }
    );
    assert_eq!(profile.apply(&host), plan);
    host.perform_all(&plan.steps);
    assert_eq!(host.var(&s("ZDOTDIR")), Some(text("/home/u/.subshell/work")));
    assert_eq!(Ok(s("/home/u/.subshell/work")), profile.profile_path(&host));
}

#[test]
fn apply_writes_every_captured_variable() {
    let mut host = machine(&[("HOME", "/home/u"), ("PATH", "/usr/bin"), ("LANG", "C")]);
    host.record(s("/b/p"), Ok(()));
    let mut shell = zsh_on(&host);
    shell.set_env(EnvInput::KeyVal(s("LANG"), s("de_DE.UTF-8"))).unwrap();
    let (mut profile, _) = prepare(s("/b"), Some(&shell), &host).unwrap();
    profile.set_profile_name(s("p"));
    let mut live = Platform::new();
    live.perform_all(&profile.apply(&host).steps);
    assert_eq!(live.var(&s("HOME")), Some(text("/home/u")));
    assert_eq!(live.var(&s("PATH")), Some(text("/usr/bin")));
    assert_eq!(live.var(&s("LANG")), Some(text("de_DE.UTF-8")));
    assert_eq!(live.var(&s("ZDOTDIR")), Some(text("/b/p")));
}

#[test]
fn apply_seeds_what_the_profile_lacks_and_home_has() {
    let mut host = usual();
    host.record(s("/b/p"), Ok(()));
    host.record(s("/home/u/.zshenv"), Ok(()));
    host.record(s("/home/u/.zshrc"), Ok(()));
    host.record(s("/home/u/.zlogout"), Ok(()));
    host.record(s("/b/p/.zshrc"), Ok(()));
    host.record(s("/b/p/.zlogin"), Ok(()));
    let shell = zsh_on(&host);
    let (mut profile, _) = prepare(s("/b"), Some(&shell), &host).unwrap();
    profile.set_profile_name(s("p"));
    assert_eq!(
        profile.apply(&host),
        Plan {
            steps: vec![
                set("HOME", "/home/u"),
                set("PATH", "/usr/bin"),
                copy("/home/u/.zshenv", "/b/p/.zshenv"),
                copy("/home/u/.zlogout", "/b/p/.zlogout"),
                set("ZDOTDIR", "/b/p"),
            ],
            outcome: Ok(()),
        }
    );
}

#[test]
fn apply_with_files_absent_on_both_sides_copies_nothing() {
    let mut host = usual();
    host.record(s("/b/p"), Ok(()));
    let shell = zsh_on(&host);
    let (mut profile, _) = prepare(s("/b"), Some(&shell), &host).unwrap();
    profile.set_profile_name(s("p"));
    assert_eq!(
        profile.apply(&host),
        Plan {
            steps: vec![set("HOME", "/home/u"), set("PATH", "/usr/bin"), set("ZDOTDIR", "/b/p")],
            outcome: Ok(()),
        }
    );
}

#[test]
fn apply_passes_over_a_home_file_out_of_reach() {
    let mut host = usual();
    host.record(s("/b/p"), Ok(()));
    host.record(s("/home/u/.zshrc"), Err(IoFailure::Other(s("permission denied"))));
    let shell = zsh_on(&host);
    let (mut profile, _) = prepare(s("/b"), Some(&shell), &host).unwrap();
    profile.set_profile_name(s("p"));
    let plan = profile.apply(&host);
    assert_eq!(plan.outcome, Ok(()));
    assert_eq!(plan.steps.len(), 3);
}

#[test]
fn applying_twice_copies_nothing_the_second_time() {
    let mut host = usual();
    host.record(s("/b/p"), Ok(()));
    for file in startup_files() {
        host.record(format!("/home/u/{}", file), Ok(()));
    }
    let shell = zsh_on(&host);
    let (mut profile, _) = prepare(s("/b"), Some(&shell), &host).unwrap();
    profile.set_profile_name(s("p"));
    let first = profile.apply(&host);
    assert_eq!(first.outcome, Ok(()));
    let copies: Vec<&Action> =
        first.steps.iter().filter(|a| matches!(a, Action::CopyFile { .. })).collect();
    assert_eq!(
        copies,
        vec![
            &copy("/home/u/.zshenv", "/b/p/.zshenv"),
            &copy("/home/u/.zprofile", "/b/p/.zprofile"),
            &copy("/home/u/.zshrc", "/b/p/.zshrc"),
            &copy("/home/u/.zlogin", "/b/p/.zlogin"),
            &copy("/home/u/.zlogout", "/b/p/.zlogout"),
        ]
    );
    host.perform_all(&first.steps);
    let second = profile.apply(&host);
    assert_eq!(second.outcome, Ok(()));
    assert!(second.steps.iter().all(|a| !matches!(a, Action::CopyFile { .. })));
    assert_eq!(second.steps.last(), Some(&set("ZDOTDIR", "/b/p")));
}

#[test]
fn apply_stops_where_the_platform_fails() {
    let mut host = usual();
    host.record(s("/b/p"), Ok(()));
    host.record(s("/home/u/.zshenv"), Ok(()));
    host.record(s("/home/u/.zshrc"), Ok(()));
    host.record(s("/b/p/.zprofile"), Err(IoFailure::Other(s("permission denied"))));
    let shell = zsh_on(&host);
    let (mut profile, _) = prepare(s("/b"), Some(&shell), &host).unwrap();
    profile.set_profile_name(s("p"));
    assert_eq!(
        profile.apply(&host),
        Plan {
            steps: vec![
                set("HOME", "/home/u"),
                set("PATH", "/usr/bin"),
                copy("/home/u/.zshenv", "/b/p/.zshenv"),
            ],
            outcome: Err(LaunchError::Io(IoFailure::Other(s("permission denied")))),
        }
    );
}

#[test]
fn apply_without_home_fails_after_the_variables_are_set() {
    let mut host = machine(&[("PATH", "/usr/bin")]);
    host.record(s("/b/p"), Ok(()));
    let shell = zsh_on(&host);
    let (mut profile, _) = prepare(s("/b"), Some(&shell), &host).unwrap();
    profile.set_profile_name(s("p"));
    assert_eq!(
        profile.apply(&host),
        Plan {
            steps: vec![set("PATH", "/usr/bin")],
            outcome: Err(LaunchError::Env(EnvError::NotFound(s("HOME")))),
        }
    );
}

#[test]
fn apply_of_an_unset_profile_fails() {
    let mut host = usual();
    host.record(s("/b"), Ok(()));
    let shell = zsh_on(&host);
    let (profile, _) = prepare(s("/b"), Some(&shell), &host).unwrap();
    assert_eq!(
        profile.apply(&host),
        Plan {
            steps: vec![set("HOME", "/home/u"), set("PATH", "/usr/bin")],
            outcome: Err(LaunchError::SubShell(SubShellError::ProfileIsNotSet)),
        }
    );
}

#[test]
fn apply_of_a_profile_that_is_not_there_fails() {
    let mut host = usual();
    host.record(s("/b"), Ok(()));
    let shell = zsh_on(&host);
    let (mut profile, _) = prepare(s("/b"), Some(&shell), &host).unwrap();
    profile.set_profile_name(s("gone"));
    assert_eq!(
        profile.apply(&host).outcome,
        Err(LaunchError::SubShell(SubShellError::SubShellDir(IoFailure::NotFound)))
    );
}

#[test]
fn home_is_missed_before_the_profile_is() {
    let host = machine(&[("PATH", "/usr/bin")]);
    let shell = zsh_on(&host);
    let (profile, _) = prepare(s("/b"), Some(&shell), &host).unwrap();
    assert_eq!(profile.apply(&host).outcome, Err(LaunchError::Env(EnvError::NotFound(s("HOME")))));
}
