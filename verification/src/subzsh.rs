//! The Z shell.

use vstd::prelude::*;
use crate::env_map::{distinct_names, lemma_unique, map_of, upsert_all, EnvMap};
use crate::env_unicode::{
    capture, capture_unique, get_all, lemma_capture_keeps, EnvError, EnvErrorView,
};
use crate::error::{LaunchError, LaunchErrorView, SubShellErrorView};
use crate::path::{candidates_on, find_in_path, first_present};
use crate::platform::{Action, ActionView, IoFailure, Launch, Platform, PlatformView};
use crate::text::join_path;
use crate::plan::{
    lemma_seeding_in_turn, lemma_seeding_stops, plain_names, seed_paths, seeding, seeding_in_turn,
    set_steps, Plan,
};
use crate::{
    answer, any_known, home_of, located, selection, EnvInput, EnvQuery, EnvQueryView, EnvResult,
    EnvResultView, Profile, ShellView, SubShell,
};

verus! {

/// The start-up files of zsh, in the order in which it reads them.
pub open spec fn zsh_startup_files() -> Seq<Seq<char>> {
    seq![".zshenv"@, ".zprofile"@, ".zshrc"@, ".zlogin"@, ".zlogout"@]
}

/// The start-up files of zsh are five different names of entries.
pub proof fn lemma_zsh_startup_files()
    ensures
        zsh_startup_files().len() == 5,
        plain_names(zsh_startup_files()),
{
    reveal_strlit(".zshenv");
    reveal_strlit(".zprofile");
    reveal_strlit(".zshrc");
    reveal_strlit(".zlogin");
    reveal_strlit(".zlogout");
    let files = zsh_startup_files();
    assert(files[0][2] != files[3][2]);
    assert forall|i: int| 0 <= i < files.len() implies !(#[trigger] files[i]).contains('/') by {
        let file = files[i];
        if file.contains('/') {
            let k = choose|k: int| 0 <= k < file.len() && file[k] == '/';
            assert(file[k] != '/');
        }
    }
}

/// For zsh it makes no difference whether the platform is looked at once,
/// before anything is copied, or again before every start-up file.
pub proof fn lemma_zsh_seeding_in_turn(home: Seq<char>, dir: Seq<char>, host: PlatformView)
    ensures
        seeding_in_turn(home, dir, zsh_startup_files(), host) == seeding(
            home,
            dir,
            zsh_startup_files(),
            host,
        ),
{
    lemma_zsh_startup_files();
    lemma_seeding_in_turn(home, dir, zsh_startup_files(), host);
}

/// zsh with the given executable and captured environment.
pub open spec fn zsh(program: Seq<char>, env: Seq<(Seq<char>, Seq<char>)>) -> ShellView {
    ShellView {
        program,
        env,
        startup_files: zsh_startup_files(),
        config_var: "ZDOTDIR"@,
        login_flag: "-l"@,
    }
}

/// What preparing zsh on `host` gives. The executable is the first `zsh` on
/// the search path and the environment is the whole capture. Without a `zsh`
/// there the result is the search's error, whatever the environment holds;
/// with one, a capture that fails gives the capture's error.
pub open spec fn prepare_on(host: PlatformView) -> Result<ShellView, LaunchErrorView> {
    match first_present(host, candidates_on(host, "zsh"@)) {
        None => Err(LaunchErrorView::NotInPath),
        Some(program) => match capture_unique(host.vars) {
            Err(e) => Err(LaunchErrorView::Env(e)),
            Ok(env) => Ok(zsh(program, env)),
        },
    }
}

/// The environment of a prepared shell holds every name once.
pub proof fn lemma_prepared_names_are_single(host: PlatformView)
    requires
        prepare_on(host) is Ok,
    ensures
        distinct_names(prepare_on(host)->Ok_0.env),
{
    lemma_unique(capture(host.vars)->Ok_0);
}

/// The relation between the result of a preparation and the platform.
pub open spec fn prepared(r: Result<Box<SubZsh>, LaunchError>, host: PlatformView) -> bool {
    match r {
        Ok(shell) => prepare_on(host) == Ok::<ShellView, LaunchErrorView>(shell.model()),
        Err(e) => prepare_on(host) == Err::<ShellView, LaunchErrorView>(e@),
    }
}

/// zsh: where its executable is, and the environment that was captured for it.
#[derive(Debug)]
pub struct SubZsh {
    path: String,
    env: EnvMap,
}

/// The names of the start-up files of zsh, in the order of seeding.
pub fn startup_files() -> (r: Vec<String>)
    ensures
        r.deep_view() == zsh_startup_files(),
{
    let mut r: Vec<String> = Vec::new();
    r.push(String::from_str(".zshenv"));
    r.push(String::from_str(".zprofile"));
    r.push(String::from_str(".zshrc"));
    r.push(String::from_str(".zlogin"));
    r.push(String::from_str(".zlogout"));
    assert(r.deep_view() =~= zsh_startup_files());
    r
}

impl SubShell for SubZsh {
    closed spec fn model(&self) -> ShellView {
        zsh(self.path@, self.env.pairs())
    }

    fn exec(&self) -> (r: Launch) {
        let mut args: Vec<String> = Vec::new();
        args.push(String::from_str("-l"));
        assert(args.deep_view() =~= seq!["-l"@]);
        Launch { program: self.path.clone(), args }
    }

    fn get_all_env(&self) -> (r: Result<EnvResult, EnvError>) {
        Ok(EnvResult::Multi(self.env.duplicate()))
    }

    fn get_env(&self, q: EnvQuery) -> (r: Result<EnvResult, EnvError>) {
        match q {
            EnvQuery::Single(name) => {
                match self.env.get(&name) {
                    Some(x) => Ok(EnvResult::Single(x.clone())),
                    None => Err(EnvError::NotFound(name)),
                }
            },
            EnvQuery::Multi(names) => {
                let mut result = EnvMap::new();
                let mut i: usize = 0;
                let ghost env = self.env@;
                assert(result@ =~= selection(env, names.deep_view().take(0)));
                while i < names.len()
                    invariant
                        i <= names.len(),
                        env == self.env@,
                        result@ == selection(env, names.deep_view().take(i as int)),
                    decreases names.len() - i,
                {
                    let ghost seen = names.deep_view().take(i as int);
                    let ghost more = names.deep_view().take(i + 1);
                    assert(more =~= seen.push(names[i as int]@));
                    assert forall|name: Seq<char>| more.contains(name) <==> (seen.contains(name)
                        || name == names[i as int]@) by {
                        if seen.contains(name) {
                            let k = choose|k: int| 0 <= k < seen.len() && seen[k] == name;
                            assert(more[k] == name);
                        }
                        if name == names[i as int]@ {
                            assert(more[i as int] == name);
                        }
                    }
                    match self.env.get(&names[i]) {
                        Some(x) => {
                            result.insert(names[i].clone(), x.clone());
                            assert(result@ =~= selection(env, more));
                        },
                        None => {
                            assert(result@ =~= selection(env, more));
                        },
                    }
                    i += 1;
                }
                assert(names.deep_view().take(names.len() as int) =~= names.deep_view());
                proof {
                    let all = names.deep_view();
                    if any_known(env, all) {
                        let k = choose|k: int| 0 <= k < all.len() && env.contains_key(#[trigger] all[k]);
                        assert(all.contains(all[k]));
                        assert(result@.contains_key(all[k]));
                    } else {
                        assert forall|name: Seq<char>| !result@.contains_key(name) by {
                            if all.contains(name) {
                                let k = choose|k: int| 0 <= k < all.len() && all[k] == name;
                                assert(!env.contains_key(all[k]));
                            }
                        }
                        assert(result@ =~= Map::empty());
                    }
                }
                if result.is_empty() {
                    return Err(EnvError::NotFound(String::from_str("<multiple keys>")));
                }
                Ok(EnvResult::Multi(result))
            },
        }
    }

    fn get_home_env(&self) -> (r: Result<String, EnvError>) {
        let home = String::from_str("HOME");
        match self.env.get(&home) {
            Some(h) => Ok(h.clone()),
            None => Err(EnvError::NotFound(home)),
        }
    }

    fn set_env(&mut self, input: EnvInput) -> (r: Result<(), EnvError>) {
        match input {
            EnvInput::KeyVal(key, val) => {
                self.env.insert(key, val);
                assert(input.pairs().drop_last() =~= Seq::empty());
                assert(upsert_all(old(self).env.pairs(), Seq::empty()) == old(self).env.pairs());
                Ok(())
            },
            EnvInput::Mapping(m) => {
                let count: usize = m.len();
                let mut i: usize = 0;
                assert(m.pairs().take(0) =~= Seq::empty());
                while i < count
                    invariant
                        i <= count,
                        count == m.pairs().len(),
                        self.path == old(self).path,
                        self.env.pairs() == upsert_all(
                            old(self).env.pairs(),
                            m.pairs().take(i as int),
                        ),
                    decreases count - i,
                {
                    let (key, val) = m.entry(i);
                    let ghost next = m.pairs().take(i + 1);
                    assert(next.drop_last() =~= m.pairs().take(i as int));
                    assert(next.last() == m.pairs()[i as int]);
                    self.env.insert(key.clone(), val.clone());
                    i += 1;
                }
                assert(m.pairs().take(count as int) =~= m.pairs());
                Ok(())
            },
        }
    }

    fn seed_paths(&self, dir: &String) -> (r: Vec<String>) {
        let mut paths: Vec<String> = Vec::new();
        let home = match self.get_home_env() {
            Ok(h) => h,
            Err(_) => {
                assert(paths.deep_view() =~= Seq::empty());
                return paths;
            },
        };
        let files = startup_files();
        let mut k: usize = 0;
        assert(files.deep_view().take(0) =~= Seq::empty());
        assert(paths.deep_view() =~= seed_paths(home@, dir@, files.deep_view().take(0)));
        while k < files.len()
            invariant
                k <= files.len(),
                paths.deep_view() == seed_paths(home@, dir@, files.deep_view().take(k as int)),
            decreases files.len() - k,
        {
            let ghost next = files.deep_view().take(k + 1);
            assert(next.drop_last() =~= files.deep_view().take(k as int));
            assert(next.last() == files[k as int]@);
            let ghost before = paths.deep_view();
            let target = join_path(dir.as_str(), files[k].as_str());
            let source = join_path(home.as_str(), files[k].as_str());
            paths.push(target);
            paths.push(source);
            assert(paths.deep_view() =~= before.push(target@).push(source@));
            k += 1;
        }
        assert(files.deep_view().take(files.len() as int) =~= files.deep_view());
        paths
    }

    fn apply_environment(&self, profile: &dyn Profile, host: &Platform) -> (r: Plan) {
        let mut steps: Vec<Action> = Vec::new();
        let count: usize = self.env.len();
        let mut i: usize = 0;
        let ghost sets = set_steps(self.env.pairs());
        assert(steps.deep_view() =~= sets.take(0));
        while i < count
            invariant
                i <= count,
                count == self.env.pairs().len(),
                sets == set_steps(self.env.pairs()),
                steps.deep_view() == sets.take(i as int),
            decreases count - i,
        {
            let (key, val) = self.env.entry(i);
            let ghost before = steps.deep_view();
            steps.push(Action::SetVar { name: key.clone(), value: val.clone() });
            assert(steps.deep_view() =~= before.push(sets[i as int]));
            assert(steps.deep_view() =~= sets.take(i + 1));
            i += 1;
        }
        assert(sets.take(count as int) =~= sets);

        let home = match self.get_home_env() {
            Ok(h) => h,
            Err(e) => {
                return Plan { steps, outcome: Err(LaunchError::Env(e)) };
            },
        };
        let dir = match profile.profile_path(host) {
            Ok(d) => d,
            Err(e) => {
                return Plan { steps, outcome: Err(LaunchError::SubShell(e)) };
            },
        };
        let files = startup_files();
        let mut k: usize = 0;
        assert(files.deep_view().take(0) =~= Seq::empty());
        assert(steps.deep_view() =~= sets + seeding(home@, dir@, files.deep_view().take(0), host@).steps);
        while k < files.len()
            invariant
                k <= files.len(),
                files.deep_view() == zsh_startup_files(),
                sets == set_steps(self.model().env),
                home_of(map_of(self.model().env)) == Ok::<Seq<char>, EnvErrorView>(home@),
                located(profile.base(), profile.name(), host@) == Ok::<Seq<char>, SubShellErrorView>(
                    dir@,
                ),
                seeding(home@, dir@, files.deep_view().take(k as int), host@).outcome is Ok,
                steps.deep_view() == sets + seeding(
                    home@,
                    dir@,
                    files.deep_view().take(k as int),
                    host@,
                ).steps,
            decreases files.len() - k,
        {
            let ghost done = files.deep_view().take(k as int);
            let ghost next = files.deep_view().take(k + 1);
            assert(next.drop_last() =~= done);
            assert(next.last() == files[k as int]@);
            let ghost before = steps.deep_view();
            let target = join_path(dir.as_str(), files[k].as_str());
            match host.status(&target) {
                Ok(_) => {},
                Err(IoFailure::NotFound) => {
                    let source = join_path(home.as_str(), files[k].as_str());
                    if host.present(&source) {
                        steps.push(Action::CopyFile { from: source, to: target });
                        assert(steps.deep_view() =~= before.push(
                            ActionView::CopyFile { from: source@, to: target@ },
                        ));
                        assert(seeding(home@, dir@, next, host@).steps == seeding(
                            home@,
                            dir@,
                            done,
                            host@,
                        ).steps.push(ActionView::CopyFile { from: source@, to: target@ }));
                        assert(steps.deep_view() =~= sets + seeding(home@, dir@, next, host@).steps);
                    }
                },
                Err(e) => {
                    proof {
                        lemma_seeding_stops(home@, dir@, files.deep_view(), host@, k + 1);
                    }
                    return Plan { steps, outcome: Err(LaunchError::Io(e)) };
                },
            }
            k += 1;
        }
        assert(files.deep_view().take(files.len() as int) =~= files.deep_view());
        let ghost seeded = steps.deep_view();
        steps.push(Action::SetVar { name: String::from_str("ZDOTDIR"), value: dir });
        assert(steps.deep_view() =~= seeded.push(ActionView::SetVar { name: "ZDOTDIR"@, value: dir@ }));
        Plan { steps, outcome: Ok(()) }
    }
}

/// A shell answers a question about one captured name with the value that
/// the platform held for it when the environment was captured.
pub proof fn lemma_round_trip(host: PlatformView, i: int)
    requires
        capture_unique(host.vars) is Ok,
        0 <= i < host.vars.len(),
        forall|j: int| i < j < host.vars.len() ==> (#[trigger] host.vars[j]).0 != host.vars[i].0,
    ensures
        host.vars[i].0 is Some,
        host.vars[i].1 is Some,
        answer(
            map_of(capture_unique(host.vars)->Ok_0),
            EnvQueryView::Single(host.vars[i].0->Some_0),
        ) == Ok::<EnvResultView, EnvErrorView>(EnvResultView::Single(host.vars[i].1->Some_0)),
{
    lemma_capture_keeps(host.vars, i);
    lemma_unique(capture(host.vars)->Ok_0);
}

impl SubZsh {
    /// Replaces the captured environment by a new capture. A capture that
    /// fails leaves the shell as it was.
    pub fn populate_env_hashmap(&mut self, host: &Platform) -> (r: Result<(), EnvError>)
        ensures
            match r {
                Ok(_) => capture_unique(host@.vars) == Ok::<
                    Seq<(Seq<char>, Seq<char>)>,
                    EnvErrorView,
                >(final(self).model().env) && final(self).model().program == old(
                    self,
                ).model().program,
                Err(e) => capture_unique(host@.vars) == Err::<
                    Seq<(Seq<char>, Seq<char>)>,
                    EnvErrorView,
                >(e@) && final(self).model() == old(self).model(),
            },
    {
        match get_all(host) {
            Ok(env) => {
                self.env = env;
                Ok(())
            },
            Err(e) => Err(e),
        }
    }
}

/// Finds zsh on the search path and captures the environment.
pub fn prepare_zsh(host: &Platform) -> (r: Result<SubZsh, LaunchError>)
    ensures
        match r {
            Ok(shell) => prepare_on(host@) == Ok::<ShellView, LaunchErrorView>(shell.model()),
            Err(e) => prepare_on(host@) == Err::<ShellView, LaunchErrorView>(e@),
        },
{
    let path = match find_in_path(String::from_str("zsh"), host) {
        Ok(p) => p,
        Err(e) => {
            return Err(LaunchError::NotInPath(e));
        },
    };
    let mut zsh = SubZsh { path, env: EnvMap::new() };
    match zsh.populate_env_hashmap(host) {
        Ok(_) => Ok(zsh),
        Err(e) => Err(LaunchError::Env(e)),
    }
}

/// Finds zsh on the search path and captures the environment.
pub fn prepare(host: &Platform) -> (r: Result<Box<SubZsh>, LaunchError>)
    ensures
        prepared(r, host@),
{
    match prepare_zsh(host) {
        Ok(zsh) => Ok(Box::new(zsh)),
        Err(e) => Err(e),
    }
}

} // verus!
