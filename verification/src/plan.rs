//! What applying a profile asks of the platform.

use vstd::prelude::*;
use crate::env_map::map_of;
use crate::error::{outcome_view, LaunchError, LaunchErrorView, SubShellErrorView};
use crate::platform::{
    lemma_after, lemma_after_all, lemma_after_all_concat, lemma_after_all_vars, makes, Action,
    ActionView, IoFailureView, PlatformView,
};
use crate::text::{child, lemma_child_injective};
use crate::{home_of, located, ShellView};

verus! {

/// The actions to carry out, in order, and how the step ends once they are
/// done. Where the outcome is an error, the actions before it are still to
/// be carried out: nothing is rolled back.
#[derive(Debug, PartialEq, Eq)]
pub struct Plan {
    pub steps: Vec<Action>,
    pub outcome: Result<(), LaunchError>,
}

/// A [`Plan`] as a plain value.
pub struct PlanView {
    pub steps: Seq<ActionView>,
    pub outcome: Result<(), LaunchErrorView>,
}

impl View for Plan {
    type V = PlanView;

    open spec fn view(&self) -> PlanView {
        PlanView { steps: self.steps.deep_view(), outcome: outcome_view(self.outcome) }
    }
}

/// One action per entry of `env`, in order: set the variable to the value.
pub open spec fn set_steps(env: Seq<(Seq<char>, Seq<char>)>) -> Seq<ActionView> {
    Seq::new(env.len(), |i: int| ActionView::SetVar { name: env[i].0, value: env[i].1 })
}

/// Seeding the directory `dir` from `home`, file by file in the order of
/// `files`. A file that `dir` has is left alone. A file that `dir` lacks is
/// copied from `home` where `home` has it, and passed over where it has not.
/// Where the platform cannot say whether `dir` has a file, seeding stops there
/// with that failure.
pub open spec fn seeding(
    home: Seq<char>,
    dir: Seq<char>,
    files: Seq<Seq<char>>,
    host: PlatformView,
) -> PlanView
    decreases files.len(),
{
    if files.len() == 0 {
        PlanView { steps: Seq::empty(), outcome: Ok(()) }
    } else {
        let before = seeding(home, dir, files.drop_last(), host);
        let file = files.last();
        match before.outcome {
            Err(_) => before,
            Ok(_) => match host.status(child(dir, file)) {
                Ok(_) => before,
                Err(IoFailureView::NotFound) => if host.present(child(home, file)) {
                    PlanView {
                        steps: before.steps.push(
                            ActionView::CopyFile { from: child(home, file), to: child(dir, file) },
                        ),
                        outcome: Ok(()),
                    }
                } else {
                    before
                },
                Err(e) => PlanView { steps: before.steps, outcome: Err(LaunchErrorView::Io(e)) },
            },
        }
    }
}

/// Applying a profile. First every captured variable is set. Then the home
/// directory is read from the captured environment and the profile's
/// directory is asked for; either may end the step. Then the directory is
/// seeded, and last the shell's configuration variable is bound to it.
pub open spec fn apply_plan(
    shell: ShellView,
    dir: Result<Seq<char>, SubShellErrorView>,
    host: PlatformView,
) -> PlanView {
    let sets = set_steps(shell.env);
    match home_of(map_of(shell.env)) {
        Err(e) => PlanView { steps: sets, outcome: Err(LaunchErrorView::Env(e)) },
        Ok(home) => match dir {
            Err(e) => PlanView { steps: sets, outcome: Err(LaunchErrorView::SubShell(e)) },
            Ok(dir) => {
                let seed = seeding(home, dir, shell.startup_files, host);
                match seed.outcome {
                    Err(e) => PlanView { steps: sets + seed.steps, outcome: Err(e) },
                    Ok(_) => PlanView {
                        steps: (sets + seed.steps).push(
                            ActionView::SetVar { name: shell.config_var, value: dir },
                        ),
                        outcome: Ok(()),
                    },
                }
            },
        },
    }
}

/// Seeding that has stopped on a failure stays as it is, whatever files follow.
pub proof fn lemma_seeding_stops(
    home: Seq<char>,
    dir: Seq<char>,
    files: Seq<Seq<char>>,
    host: PlatformView,
    n: int,
)
    requires
        0 <= n <= files.len(),
        seeding(home, dir, files.take(n), host).outcome is Err,
    ensures
        seeding(home, dir, files, host) == seeding(home, dir, files.take(n), host),
    decreases files.len() - n,
{
    if n < files.len() {
        let next = files.take(n + 1);
        assert(next.drop_last() =~= files.take(n));
        lemma_seeding_stops(home, dir, files, host, n + 1);
    } else {
        assert(files.take(n) =~= files);
    }
}

/// The paths that seeding looks at: for each file, first where it would be
/// in `dir`, then where it would be in `home`.
pub open spec fn seed_paths(home: Seq<char>, dir: Seq<char>, files: Seq<Seq<char>>) -> Seq<Seq<char>>
    decreases files.len(),
{
    if files.len() == 0 {
        Seq::empty()
    } else {
        seed_paths(home, dir, files.drop_last()).push(child(dir, files.last())).push(
            child(home, files.last()),
        )
    }
}

/// The paths that the seeding of `dir` looks at for `shell`; none where the
/// captured environment names no home directory.
pub open spec fn seed_paths_of(shell: ShellView, dir: Seq<char>) -> Seq<Seq<char>> {
    match home_of(map_of(shell.env)) {
        Ok(home) => seed_paths(home, dir, shell.startup_files),
        Err(_) => Seq::empty(),
    }
}

/// The paths that applying the profile `name` below `base` looks at: the
/// profile's directory, and what its seeding looks at.
pub open spec fn watched_paths(shell: ShellView, base: Seq<char>, name: Seq<char>) -> Seq<Seq<char>> {
    if name.len() == 0 {
        Seq::empty()
    } else {
        seq![child(base, name)] + seed_paths_of(shell, child(base, name))
    }
}

/// Whether two platforms say the same of every one of `paths`.
pub open spec fn same_at(a: PlatformView, b: PlatformView, paths: Seq<Seq<char>>) -> bool {
    forall|i: int| 0 <= i < paths.len() ==> a.status(#[trigger] paths[i]) == b.status(paths[i])
}

/// Seeding depends on the platform only through the paths that it looks at.
pub proof fn lemma_seeding_reads(
    home: Seq<char>,
    dir: Seq<char>,
    files: Seq<Seq<char>>,
    a: PlatformView,
    b: PlatformView,
)
    requires
        same_at(a, b, seed_paths(home, dir, files)),
    ensures
        seeding(home, dir, files, a) == seeding(home, dir, files, b),
    decreases files.len(),
{
    if files.len() > 0 {
        let paths = seed_paths(home, dir, files);
        let init = seed_paths(home, dir, files.drop_last());
        assert forall|i: int| 0 <= i < init.len() implies a.status(#[trigger] init[i]) == b.status(
            init[i],
        ) by {
            assert(paths[i] == init[i]);
        }
        lemma_seeding_reads(home, dir, files.drop_last(), a, b);
        assert(paths[paths.len() - 2] == child(dir, files.last()));
        assert(paths[paths.len() - 1] == child(home, files.last()));
    }
}

/// Applying a profile depends on the platform only through the paths that it
/// looks at: two platforms that say the same of those lead to the same plan.
pub proof fn lemma_apply_reads(
    shell: ShellView,
    base: Seq<char>,
    name: Seq<char>,
    a: PlatformView,
    b: PlatformView,
)
    requires
        same_at(a, b, watched_paths(shell, base, name)),
    ensures
        apply_plan(shell, located(base, name, a), a) == apply_plan(
            shell,
            located(base, name, b),
            b,
        ),
{
    if name.len() > 0 {
        let dir = child(base, name);
        let paths = watched_paths(shell, base, name);
        assert(paths[0] == dir);
        if home_of(map_of(shell.env)) is Ok {
            let home = home_of(map_of(shell.env))->Ok_0;
            let seeds = seed_paths(home, dir, shell.startup_files);
            assert forall|i: int| 0 <= i < seeds.len() implies a.status(#[trigger] seeds[i])
                == b.status(seeds[i]) by {
                assert(paths[i + 1] == seeds[i]);
            }
            lemma_seeding_reads(home, dir, shell.startup_files, a, b);
        }
    }
}

/// The copy that seeds `file`.
pub open spec fn seed_copy(home: Seq<char>, dir: Seq<char>, file: Seq<char>) -> ActionView {
    ActionView::CopyFile { from: child(home, file), to: child(dir, file) }
}

/// Whether `file` is to be seeded: `dir` lacks it and `home` has it.
pub open spec fn to_seed(home: Seq<char>, dir: Seq<char>, file: Seq<char>, host: PlatformView) -> bool {
    host.status(child(dir, file)) == Err::<(), IoFailureView>(IoFailureView::NotFound)
        && host.present(child(home, file))
}

/// Whether `step` is the copy of one of `files` that is to be seeded.
pub open spec fn seeds_one(
    step: ActionView,
    home: Seq<char>,
    dir: Seq<char>,
    files: Seq<Seq<char>>,
    host: PlatformView,
) -> bool {
    exists|k: int|
        0 <= k < files.len() && step == seed_copy(home, dir, #[trigger] files[k]) && to_seed(
            home,
            dir,
            files[k],
            host,
        )
}

/// Whether the platform can say of each of `files` whether `dir` has it.
pub open spec fn readable(dir: Seq<char>, files: Seq<Seq<char>>, host: PlatformView) -> bool {
    forall|k: int|
        0 <= k < files.len() ==> (host.status(child(dir, #[trigger] files[k])) matches Err(e) ==> e
            == IoFailureView::NotFound)
}

/// Seeding copies a file only if the profile's directory lacks it and the
/// home directory has it. Where the platform can say of every file whether
/// the directory has it, seeding succeeds and copies every such file. A file
/// that both directories lack is passed over: when that is so of all of them,
/// nothing is to be done and nothing fails.
pub proof fn lemma_seeding(home: Seq<char>, dir: Seq<char>, files: Seq<Seq<char>>, host: PlatformView)
    ensures
        forall|i: int|
            0 <= i < seeding(home, dir, files, host).steps.len() ==> seeds_one(
                #[trigger] seeding(home, dir, files, host).steps[i],
                home,
                dir,
                files,
                host,
            ),
        seeding(home, dir, files, host).outcome is Ok <==> readable(dir, files, host),
        seeding(home, dir, files, host).outcome is Ok ==> forall|k: int|
            0 <= k < files.len() && to_seed(home, dir, #[trigger] files[k], host) ==> seeding(
                home,
                dir,
                files,
                host,
            ).steps.contains(seed_copy(home, dir, files[k])),
        (forall|k: int| 0 <= k < files.len() ==> !to_seed(home, dir, #[trigger] files[k], host))
            ==> seeding(home, dir, files, host).steps == Seq::<ActionView>::empty(),
    decreases files.len(),
{
    let plan = seeding(home, dir, files, host);
    if files.len() > 0 {
        let init = files.drop_last();
        let before = seeding(home, dir, init, host);
        let n = files.len() - 1;
        lemma_seeding(home, dir, init, host);
        assert forall|k: int| 0 <= k < init.len() implies init[k] == files[k] by {}
        assert forall|i: int| 0 <= i < plan.steps.len() implies seeds_one(
            #[trigger] plan.steps[i],
            home,
            dir,
            files,
            host,
        ) by {
            if i < before.steps.len() {
                assert(plan.steps[i] == before.steps[i]);
                assert(seeds_one(before.steps[i], home, dir, init, host));
                let k = choose|k: int|
                    0 <= k < init.len() && before.steps[i] == seed_copy(home, dir, #[trigger] init[k])
                        && to_seed(home, dir, init[k], host);
                assert(files[k] == init[k]);
            } else {
                assert(plan.steps[i] == seed_copy(home, dir, files[n]));
            }
        }
        if readable(dir, files, host) {
            assert forall|k: int| 0 <= k < init.len() implies (host.status(
                child(dir, #[trigger] init[k]),
            ) matches Err(e) ==> e == IoFailureView::NotFound) by {
                assert(files[k] == init[k]);
            }
            assert(files[n] == files.last());
        }
        if plan.outcome is Ok {
            assert forall|k: int| 0 <= k < files.len() implies (host.status(
                child(dir, #[trigger] files[k]),
            ) matches Err(e) ==> e == IoFailureView::NotFound) by {
                if k < n {
                    assert(init[k] == files[k]);
                }
            }
            assert forall|k: int|
                0 <= k < files.len() && to_seed(
                    home,
                    dir,
                    #[trigger] files[k],
                    host,
                ) implies plan.steps.contains(seed_copy(home, dir, files[k])) by {
                if k < n {
                    assert(init[k] == files[k]);
                    assert(before.steps.contains(seed_copy(home, dir, init[k])));
                    let i = choose|i: int|
                        0 <= i < before.steps.len() && before.steps[i] == seed_copy(
                            home,
                            dir,
                            init[k],
                        );
                    assert(plan.steps[i] == before.steps[i]);
                } else {
                    assert(plan.steps[plan.steps.len() - 1] == seed_copy(home, dir, files[n]));
                }
            }
        }
        if forall|k: int| 0 <= k < files.len() ==> !to_seed(home, dir, #[trigger] files[k], host) {
            assert forall|k: int| 0 <= k < init.len() implies !to_seed(
                home,
                dir,
                #[trigger] init[k],
                host,
            ) by {
                assert(files[k] == init[k]);
            }
            assert(!to_seed(home, dir, files[n], host));
        }
    }
}

/// Seeding as it goes when every copy is carried out before the next file is
/// looked at: the platform that the next file meets is the platform after
/// the copies so far.
pub open spec fn seeding_in_turn(
    home: Seq<char>,
    dir: Seq<char>,
    files: Seq<Seq<char>>,
    host: PlatformView,
) -> PlanView
    decreases files.len(),
{
    if files.len() == 0 {
        PlanView { steps: Seq::empty(), outcome: Ok(()) }
    } else {
        let before = seeding_in_turn(home, dir, files.drop_last(), host);
        let now = host.after_all(before.steps);
        let file = files.last();
        match before.outcome {
            Err(_) => before,
            Ok(_) => match now.status(child(dir, file)) {
                Ok(_) => before,
                Err(IoFailureView::NotFound) => if now.present(child(home, file)) {
                    PlanView {
                        steps: before.steps.push(
                            ActionView::CopyFile { from: child(home, file), to: child(dir, file) },
                        ),
                        outcome: Ok(()),
                    }
                } else {
                    before
                },
                Err(e) => PlanView { steps: before.steps, outcome: Err(LaunchErrorView::Io(e)) },
            },
        }
    }
}

/// Whether `files` are names of entries, each different from the others.
pub open spec fn plain_names(files: Seq<Seq<char>>) -> bool {
    &&& forall|i: int| 0 <= i < files.len() ==> !(#[trigger] files[i]).contains('/')
    &&& forall|i: int, j: int| 0 <= i < j < files.len() ==> files[i] != files[j]
}

/// For files that are plain names it makes no difference whether the
/// platform is looked at once, before anything is copied, or again before
/// every file: no copy puts a file where a later look goes.
pub proof fn lemma_seeding_in_turn(
    home: Seq<char>,
    dir: Seq<char>,
    files: Seq<Seq<char>>,
    host: PlatformView,
)
    requires
        plain_names(files),
    ensures
        seeding_in_turn(home, dir, files, host) == seeding(home, dir, files, host),
    decreases files.len(),
{
    if files.len() > 0 {
        let init = files.drop_last();
        let file = files.last();
        let n = files.len() - 1;
        assert(plain_names(init)) by {
            assert forall|i: int| 0 <= i < init.len() implies !(#[trigger] init[i]).contains('/') by {
                assert(init[i] == files[i]);
            }
            assert forall|i: int, j: int| 0 <= i < j < init.len() implies init[i] != init[j] by {
                assert(files[i] != files[j]);
            }
        }
        lemma_seeding_in_turn(home, dir, init, host);
        let before = seeding(home, dir, init, host);
        let now = host.after_all(before.steps);
        lemma_seeding(home, dir, init, host);
        assert(!files[n].contains('/'));
        assert forall|path: Seq<char>|
            path == child(dir, file) || path == child(home, file) implies now.status(path)
            == host.status(path) by {
            lemma_after_all(host, before.steps, path);
            if exists|i: int| 0 <= i < before.steps.len() && makes(#[trigger] before.steps[i], path) {
                let i = choose|i: int|
                    0 <= i < before.steps.len() && makes(#[trigger] before.steps[i], path);
                assert(seeds_one(before.steps[i], home, dir, init, host));
                let k = choose|k: int|
                    0 <= k < init.len() && before.steps[i] == seed_copy(home, dir, #[trigger] init[k])
                        && to_seed(home, dir, init[k], host);
                assert(init[k] == files[k]);
                assert(!files[k].contains('/'));
                assert(files[k] != files[n]);
                if path == child(dir, file) {
                    lemma_child_injective(dir, init[k], dir, file);
                } else {
                    lemma_child_injective(dir, init[k], home, file);
                }
            }
        }
    }
}

/// Applying a profile never copies onto a file that is there.
pub proof fn lemma_no_overwrite(
    shell: ShellView,
    dir: Result<Seq<char>, SubShellErrorView>,
    host: PlatformView,
)
    ensures
        forall|i: int|
            0 <= i < apply_plan(shell, dir, host).steps.len() ==> (#[trigger] apply_plan(
                shell,
                dir,
                host,
            ).steps[i] matches ActionView::CopyFile { to, .. } ==> !host.present(to)),
        forall|i: int|
            0 <= i < apply_plan(shell, dir, host).steps.len() ==> !(#[trigger] apply_plan(
                shell,
                dir,
                host,
            ).steps[i] is CreateDir),
{
    let plan = apply_plan(shell, dir, host);
    let sets = set_steps(shell.env);
    if home_of(map_of(shell.env)) is Ok && dir is Ok {
        let home = home_of(map_of(shell.env))->Ok_0;
        let seed = seeding(home, dir->Ok_0, shell.startup_files, host);
        lemma_seeding(home, dir->Ok_0, shell.startup_files, host);
        assert forall|i: int| 0 <= i < plan.steps.len() implies (#[trigger] plan.steps[i] matches ActionView::CopyFile {
            to,
            ..
        } ==> !host.present(to)) && !(plan.steps[i] is CreateDir) by {
            if sets.len() <= i < sets.len() + seed.steps.len() {
                assert(plan.steps[i] == seed.steps[i - sets.len()]);
                assert(seeds_one(seed.steps[i - sets.len()], home, dir->Ok_0, shell.startup_files, host));
            }
        }
    }
}

/// Applying a profile a second time, once the first application has been
/// carried out, copies onto no file that is there by then: neither onto one
/// that the first application copied, nor onto one that was there before it.
pub proof fn lemma_apply_twice(
    shell: ShellView,
    dir: Result<Seq<char>, SubShellErrorView>,
    again: Result<Seq<char>, SubShellErrorView>,
    host: PlatformView,
)
    ensures
        ({
            let first = apply_plan(shell, dir, host);
            let later = host.after_all(first.steps);
            let second = apply_plan(shell, again, later);
            forall|i: int|
                0 <= i < second.steps.len() ==> (#[trigger] second.steps[i] matches ActionView::CopyFile {
                    to,
                    ..
                } ==> {
                    &&& !later.present(to)
                    &&& !host.present(to)
                    &&& forall|j: int| 0 <= j < first.steps.len() ==> !makes(#[trigger] first.steps[j], to)
                })
        }),
{
    let first = apply_plan(shell, dir, host);
    let later = host.after_all(first.steps);
    let second = apply_plan(shell, again, later);
    lemma_no_overwrite(shell, again, later);
    assert forall|i: int| 0 <= i < second.steps.len() implies (#[trigger] second.steps[i] matches ActionView::CopyFile {
        to,
        ..
    } ==> {
        &&& !later.present(to)
        &&& !host.present(to)
        &&& forall|j: int| 0 <= j < first.steps.len() ==> !makes(#[trigger] first.steps[j], to)
    }) by {
        if second.steps[i] is CopyFile {
            let to = second.steps[i]->CopyFile_to;
            lemma_after_all(host, first.steps, to);
        }
    }
}

/// Once a profile has been applied with success, the shell's configuration
/// variable holds the profile's directory.
pub proof fn lemma_binds_config(
    shell: ShellView,
    dir: Result<Seq<char>, SubShellErrorView>,
    host: PlatformView,
)
    requires
        apply_plan(shell, dir, host).outcome is Ok,
    ensures
        dir is Ok,
        host.after_all(apply_plan(shell, dir, host).steps).var(shell.config_var) == Some(
            Some(dir->Ok_0),
        ),
{
    let plan = apply_plan(shell, dir, host);
    let before = host.after_all(plan.steps.drop_last());
    lemma_after(before, plan.steps.last(), Seq::empty(), shell.config_var);
}

/// Setting every captured variable leaves each with its captured value, and
/// every other variable and every file as it was.
pub proof fn lemma_set_steps(host: PlatformView, env: Seq<(Seq<char>, Seq<char>)>, name: Seq<char>)
    ensures
        host.after_all(set_steps(env)).var(name) == if map_of(env).contains_key(name) {
            Some(Some(map_of(env)[name]))
        } else {
            host.var(name)
        },
        host.after_all(set_steps(env)).files == host.files,
    decreases env.len(),
{
    if env.len() > 0 {
        let init = env.drop_last();
        lemma_set_steps(host, init, name);
        assert(set_steps(env).drop_last() =~= set_steps(init));
        lemma_after(host.after_all(set_steps(init)), set_steps(env).last(), Seq::empty(), name);
    }
}

/// Once the actions of an application have been carried out, every captured
/// variable other than the shell's configuration variable has its captured
/// value, whether the application ends well or not.
pub proof fn lemma_writes_environment(
    shell: ShellView,
    dir: Result<Seq<char>, SubShellErrorView>,
    host: PlatformView,
    name: Seq<char>,
)
    requires
        map_of(shell.env).contains_key(name),
        name != shell.config_var,
    ensures
        host.after_all(apply_plan(shell, dir, host).steps).var(name) == Some(
            Some(map_of(shell.env)[name]),
        ),
{
    let plan = apply_plan(shell, dir, host);
    let sets = set_steps(shell.env);
    let written = host.after_all(sets);
    lemma_set_steps(host, shell.env, name);
    if home_of(map_of(shell.env)) is Ok && dir is Ok {
        let home = home_of(map_of(shell.env))->Ok_0;
        let seed = seeding(home, dir->Ok_0, shell.startup_files, host);
        lemma_seeding(home, dir->Ok_0, shell.startup_files, host);
        assert forall|i: int| 0 <= i < seed.steps.len() implies !((#[trigger] seed.steps[i]) is SetVar) by {
            assert(seeds_one(seed.steps[i], home, dir->Ok_0, shell.startup_files, host));
        }
        lemma_after_all_vars(written, seed.steps);
        lemma_after_all_concat(host, sets, seed.steps);
        if seed.outcome is Ok {
            let bind = ActionView::SetVar { name: shell.config_var, value: dir->Ok_0 };
            assert(plan.steps.drop_last() =~= sets + seed.steps);
            lemma_after(host.after_all(sets + seed.steps), bind, Seq::empty(), name);
        }
    }
}

} // verus!
