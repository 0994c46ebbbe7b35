//! Profiles below a base directory.

use vstd::prelude::*;
use crate::error::{LaunchError, SubShellError, SubShellErrorView};
use crate::platform::{
    lemma_after_all, lemma_present_is_recorded, makes, Action, ActionView, IoFailure,
    IoFailureView, Platform, PlatformView,
};
use crate::text::{
    before, child, has_char, is_before, join_path, lemma_before_irreflexive, lemma_before_total,
    lemma_before_transitive, rest_after,
};
use crate::plan::{watched_paths, Plan};
use crate::Profile as _;
use crate::{ascending, holds_profile, is_profile_name, lists, located, ShellView, SubShell};

verus! {

/// What it takes to have a directory at `path`: nothing where the platform
/// has it, its creation where the platform lacks it. Any other failure of the
/// platform is handed on as it is.
pub open spec fn ensure_dir(path: Seq<char>, host: PlatformView) -> Result<
    Seq<ActionView>,
    SubShellErrorView,
> {
    match host.status(path) {
        Ok(_) => Ok(Seq::empty()),
        Err(IoFailureView::NotFound) => Ok(seq![ActionView::CreateDir { path }]),
        Err(e) => Err(SubShellErrorView::SubShellDir(e)),
    }
}

/// What it takes to create the profile `name` below `base`. A reserved name
/// is refused before any directory is looked at, and so is an empty one.
/// Otherwise the base directory comes first, then the profile's own.
pub open spec fn creation(
    base: Seq<char>,
    name: Seq<char>,
    reserved: Seq<Seq<char>>,
    host: PlatformView,
) -> Result<Seq<ActionView>, SubShellErrorView> {
    if reserved.contains(name) {
        Err(SubShellErrorView::CreateReserved(name))
    } else if name.len() == 0 {
        Err(SubShellErrorView::ProfileIsNotSet)
    } else {
        match ensure_dir(base, host) {
            Err(e) => Err(e),
            Ok(first) => match ensure_dir(child(base, name), host) {
                Err(e) => Err(e),
                Ok(second) => Ok(first + second),
            },
        }
    }
}

/// Once the directories that a creation asks for have been made, the base
/// directory and the profile's directory are there, and the profile is found
/// at `base/name`.
pub proof fn lemma_created_is_located(
    base: Seq<char>,
    name: Seq<char>,
    reserved: Seq<Seq<char>>,
    host: PlatformView,
)
    requires
        creation(base, name, reserved, host) is Ok,
    ensures
        ({
            let made = host.after_all(creation(base, name, reserved, host)->Ok_0);
            &&& made.present(base)
            &&& located(base, name, made) == Ok::<Seq<char>, SubShellErrorView>(child(base, name))
        }),
{
    let steps = creation(base, name, reserved, host)->Ok_0;
    let first = ensure_dir(base, host)->Ok_0;
    let second = ensure_dir(child(base, name), host)->Ok_0;
    assert(steps == first + second);
    lemma_after_all(host, steps, base);
    lemma_after_all(host, steps, child(base, name));
    if !host.present(base) {
        assert(makes(steps[0], base));
    }
    if !host.present(child(base, name)) {
        assert(makes(steps[steps.len() - 1], child(base, name)));
    }
}

/// A reserved name is refused whatever the platform holds, and the refusal
/// asks for no directory.
pub proof fn lemma_reserved_is_refused(
    base: Seq<char>,
    name: Seq<char>,
    reserved: Seq<Seq<char>>,
    host: PlatformView,
)
    requires
        reserved.contains(name),
    ensures
        creation(base, name, reserved, host) == Err::<Seq<ActionView>, SubShellErrorView>(
            SubShellErrorView::CreateReserved(name),
        ),
{
}

/// The base directory that belongs to the home directory `home`.
pub open spec fn default_base_of(home: Seq<char>) -> Seq<char> {
    child(home, ".subshell"@)
}

/// Steps or an error as plain values.
pub open spec fn steps_view(r: Result<Vec<Action>, SubShellError>) -> Result<
    Seq<ActionView>,
    SubShellErrorView,
> {
    match r {
        Ok(steps) => Ok(steps.deep_view()),
        Err(e) => Err(e@),
    }
}

/// The model of the shell behind a reference, if there is one.
pub open spec fn shell_of(subshell: Option<&dyn SubShell>) -> Option<ShellView> {
    match subshell {
        Some(s) => Some(s.model()),
        None => None,
    }
}

/// A profile: the base directory, the profile's name, and the shell to which
/// the profile is applied. The profile refers to the shell and does not own it.
pub struct Profile<'a> {
    path: String,
    name: String,
    subshell: Option<&'a dyn SubShell>,
}

fn plan_dir(path: &String, host: &Platform) -> (r: Result<Vec<Action>, SubShellError>)
    ensures
        steps_view(r) == ensure_dir(path@, host@),
{
    let mut steps: Vec<Action> = Vec::new();
    match host.status(path) {
        Ok(_) => {
            assert(steps.deep_view() =~= Seq::empty());
            Ok(steps)
        },
        Err(IoFailure::NotFound) => {
            steps.push(Action::CreateDir { path: path.clone() });
            assert(steps.deep_view() =~= seq![ActionView::CreateDir { path: path@ }]);
            Ok(steps)
        },
        Err(e) => Err(SubShellError::SubShellDir(e)),
    }
}

/// A profile without a name, below the base directory `path`, together with
/// what it takes to have that directory.
pub fn prepare<'a>(path: String, in_subshell: Option<&'a dyn SubShell>, host: &Platform) -> (r:
    Result<(Profile<'a>, Vec<Action>), SubShellError>)
    ensures
        match r {
            Ok((profile, steps)) => {
                &&& ensure_dir(path@, host@) == Ok::<Seq<ActionView>, SubShellErrorView>(
                    steps.deep_view(),
                )
                &&& profile.base() == path@
                &&& profile.name() == Seq::<char>::empty()
                &&& profile.shell() == shell_of(in_subshell)
            },
            Err(e) => ensure_dir(path@, host@) == Err::<Seq<ActionView>, SubShellErrorView>(e@),
        },
{
    match plan_dir(&path, host) {
        Ok(steps) => {
            let retval = Profile { path, name: String::new(), subshell: in_subshell };
            Ok((retval, steps))
        },
        Err(e) => Err(e),
    }
}

/// The base directory that belongs to the home directory `home`.
pub fn default_base(home: &String) -> (r: String)
    ensures
        r@ == default_base_of(home@),
{
    join_path(home.as_str(), ".subshell")
}

/// The name of the profile that is launched where none is asked for.
pub fn default_name() -> (r: String)
    ensures
        r@ == "default"@,
{
    String::from_str("default")
}

fn is_reserved(name: &String, reserved: &Vec<String>) -> (r: bool)
    ensures
        r == reserved.deep_view().contains(name@),
{
    let mut i: usize = 0;
    while i < reserved.len()
        invariant
            i <= reserved.len(),
            forall|j: int| 0 <= j < i ==> reserved.deep_view()[j] != name@,
        decreases reserved.len() - i,
    {
        if reserved[i] == *name {
            assert(reserved.deep_view()[i as int] == name@);
            return true;
        }
        i += 1;
    }
    false
}

/// Two ascending sequences with the same members are the same sequence.
pub proof fn lemma_ascending_unique(a: Seq<Seq<char>>, b: Seq<Seq<char>>)
    requires
        ascending(a),
        ascending(b),
        forall|x: Seq<char>| a.contains(x) <==> b.contains(x),
    ensures
        a == b,
    decreases a.len(),
{
    if a.len() == 0 {
        if b.len() > 0 {
            assert(b.contains(b[0]));
        }
        assert(a =~= b);
    } else {
        assert(a.contains(a[0]));
        let k = choose|k: int| 0 <= k < b.len() && b[k] == a[0];
        assert(b.contains(b[0]));
        let m = choose|m: int| 0 <= m < a.len() && a[m] == b[0];
        if k > 0 && m > 0 {
            assert(before(b[0], b[k]));
            assert(before(a[0], a[m]));
            lemma_before_transitive(a[0], b[0], a[0]);
            lemma_before_irreflexive(a[0]);
        }
        assert(a[0] == b[0]);
        let rest_a = a.drop_first();
        let rest_b = b.drop_first();
        assert(ascending(rest_a)) by {
            assert forall|i: int, j: int| 0 <= i < j < rest_a.len() implies before(
                rest_a[i],
                rest_a[j],
            ) by {
                assert(before(a[i + 1], a[j + 1]));
            }
        }
        assert(ascending(rest_b)) by {
            assert forall|i: int, j: int| 0 <= i < j < rest_b.len() implies before(
                rest_b[i],
                rest_b[j],
            ) by {
                assert(before(b[i + 1], b[j + 1]));
            }
        }
        assert forall|x: Seq<char>| rest_a.contains(x) <==> rest_b.contains(x) by {
            lemma_before_irreflexive(x);
            if rest_a.contains(x) {
                let i = choose|i: int| 0 <= i < rest_a.len() && rest_a[i] == x;
                assert(a[i + 1] == x);
                assert(before(a[0], a[i + 1]));
                assert(a.contains(x));
                let j = choose|j: int| 0 <= j < b.len() && b[j] == x;
                assert(rest_b[j - 1] == x);
            }
            if rest_b.contains(x) {
                let i = choose|i: int| 0 <= i < rest_b.len() && rest_b[i] == x;
                assert(b[i + 1] == x);
                assert(before(b[0], b[i + 1]));
                assert(b.contains(x));
                let j = choose|j: int| 0 <= j < a.len() && a[j] == x;
                assert(rest_a[j - 1] == x);
            }
        }
        lemma_ascending_unique(rest_a, rest_b);
        assert(a =~= seq![a[0]] + rest_a);
        assert(b =~= seq![b[0]] + rest_b);
    }
}

/// There is one list of the profiles below a base directory and no other:
/// the order decides the place of every name, and no name stands twice.
pub proof fn lemma_list_is_unique(
    a: Seq<Seq<char>>,
    b: Seq<Seq<char>>,
    base: Seq<char>,
    host: PlatformView,
)
    requires
        lists(a, base, host),
        lists(b, base, host),
    ensures
        a == b,
        forall|i: int, j: int| 0 <= i < j < a.len() ==> a[i] != a[j],
{
    lemma_ascending_unique(a, b);
    assert forall|i: int, j: int| 0 <= i < j < a.len() implies a[i] != a[j] by {
        lemma_before_irreflexive(a[i]);
        assert(before(a[i], a[j]));
    }
}

fn names_profile(name: &String) -> (r: bool)
    ensures
        r == is_profile_name(name@),
{
    if name.as_str().is_empty() {
        return false;
    }
    if name.as_str().get_char(0) == '.' {
        return false;
    }
    !has_char(name.as_str(), '/')
}

/// The place of `name` among `names`: everything before it comes before
/// `name`, and what stands there does not.
fn place(names: &Vec<String>, name: &String) -> (r: usize)
    ensures
        r <= names.len(),
        forall|j: int| 0 <= j < r ==> before(#[trigger] names.deep_view()[j], name@),
        r < names.len() ==> !before(names.deep_view()[r as int], name@),
{
    let mut i: usize = 0;
    while i < names.len()
        invariant
            i <= names.len(),
            forall|j: int| 0 <= j < i ==> before(#[trigger] names.deep_view()[j], name@),
        decreases names.len() - i,
    {
        if !is_before(names[i].as_str(), name.as_str()) {
            return i;
        }
        i += 1;
    }
    i
}

/// Puts `name` in its place among `names`, unless it is there already.
fn insert_name(names: &mut Vec<String>, name: String)
    requires
        ascending(old(names).deep_view()),
    ensures
        ascending(final(names).deep_view()),
        forall|x: Seq<char>|
            final(names).deep_view().contains(x) <==> (old(names).deep_view().contains(x) || x
                == name@),
{
    let ghost before_all = names.deep_view();
    let at = place(names, &name);
    if at < names.len() && names[at] == name {
        assert(before_all[at as int] == name@);
        return ;
    }
    proof {
        assert forall|j: int| at <= j < before_all.len() implies before(
            name@,
            #[trigger] before_all[j],
        ) by {
            lemma_before_total(before_all[at as int], name@);
            if j > at {
                lemma_before_transitive(name@, before_all[at as int], before_all[j]);
            }
        }
    }
    names.insert(at, name);
    let ghost after_all = names.deep_view();
    assert(after_all =~= before_all.insert(at as int, name@));
    assert forall|i: int, j: int| 0 <= i < j < after_all.len() implies before(
        after_all[i],
        after_all[j],
    ) by {
        if j < at {
            assert(before(before_all[i], before_all[j]));
        } else if j == at {
            assert(before(before_all[i], name@));
        } else if i < at {
            assert(before(before_all[i], before_all[j - 1]));
        } else if i == at {
            assert(before(name@, before_all[j - 1]));
        } else {
            assert(before(before_all[i - 1], before_all[j - 1]));
        }
    }
    assert forall|x: Seq<char>| after_all.contains(x) <==> (before_all.contains(x) || x
        == name@) by {
        if after_all.contains(x) {
            let k = choose|k: int| 0 <= k < after_all.len() && after_all[k] == x;
            if k < at {
                assert(before_all[k] == x);
            } else if k > at {
                assert(before_all[k - 1] == x);
            }
        }
        if before_all.contains(x) {
            let k = choose|k: int| 0 <= k < before_all.len() && before_all[k] == x;
            if k < at {
                assert(after_all[k] == x);
            } else {
                assert(after_all[k + 1] == x);
            }
        }
        if x == name@ {
            assert(after_all[at as int] == x);
        }
    }
}

impl<'a> Profile<'a> {
    /// The shell that the profile is bound to.
    pub fn subshell(&self) -> (r: Result<&'a dyn SubShell, SubShellError>)
        ensures
            match r {
                Ok(s) => self.shell() == Some(s.model()),
                Err(e) => self.shell() is None && e@
                    == SubShellErrorView::InvalidSubShell,
            },
    {
        self.subshell.ok_or(SubShellError::InvalidSubShell)
    }

    /// The directory that the profile would have under the name `name`.
    pub fn dir_of(&self, name: &String) -> (r: String)
        ensures
            r@ == child(self.base(), name@),
    {
        join_path(self.path.as_str(), name.as_str())
    }

    /// The paths to look at before the profile is applied.
    pub fn watched(&self) -> (r: Vec<String>)
        ensures
            r.deep_view() == match self.shell() {
                Some(shell) => watched_paths(shell, self.base(), self.name()),
                None => Seq::empty(),
            },
    {
        let mut paths: Vec<String> = Vec::new();
        assert(paths.deep_view() =~= Seq::empty());
        match self.subshell {
            Some(shell) => {
                if self.name.as_str().is_empty() {
                    return paths;
                }
                let dir = join_path(self.path.as_str(), self.name.as_str());
                let mut seeds = shell.seed_paths(&dir);
                let ghost tail = seeds.deep_view();
                paths.push(dir);
                paths.append(&mut seeds);
                assert(paths.deep_view() =~= seq![child(self.path@, self.name@)] + tail);
                paths
            },
            None => paths,
        }
    }

    /// Names the profile `name` and says what it takes to have its directory.
    /// Where the name is refused, or the platform fails, the profile keeps the
    /// name it had.
    pub fn create(&mut self, name: String, reserved: &Vec<String>, host: &Platform) -> (r: Result<
        Vec<Action>,
        SubShellError,
    >)
        ensures
            steps_view(r) == creation(old(self).base(), name@, reserved.deep_view(), host@),
            final(self).base() == old(self).base(),
            final(self).shell() == old(self).shell(),
            final(self).name() == if r is Ok {
                name@
            } else {
                old(self).name()
            },
    {
        if is_reserved(&name, reserved) {
            return Err(SubShellError::CreateReserved(name));
        }
        if name.as_str().is_empty() {
            return Err(SubShellError::ProfileIsNotSet);
        }
        let mut steps = match plan_dir(&self.path, host) {
            Ok(s) => s,
            Err(e) => {
                return Err(e);
            },
        };
        let dir = join_path(self.path.as_str(), name.as_str());
        let mut own = match plan_dir(&dir, host) {
            Ok(s) => s,
            Err(e) => {
                return Err(e);
            },
        };
        let ghost first = steps.deep_view();
        let ghost second = own.deep_view();
        steps.append(&mut own);
        assert(steps.deep_view() =~= first + second);
        self.name = name;
        Ok(steps)
    }
}

impl<'a> crate::Profile for Profile<'a> {
    closed spec fn base(&self) -> Seq<char> {
        self.path@
    }

    closed spec fn name(&self) -> Seq<char> {
        self.name@
    }

    closed spec fn shell(&self) -> Option<ShellView> {
        shell_of(self.subshell)
    }

    fn exist(&self, host: &Platform) -> (r: Result<(), SubShellError>) {
        match self.profile_path(host) {
            Ok(_) => Ok(()),
            Err(e) => Err(e),
        }
    }

    fn set_profile_name(&mut self, name: String) {
        self.name = name;
    }

    fn profile_path(&self, host: &Platform) -> (r: Result<String, SubShellError>) {
        if self.name.as_str().is_empty() {
            return Err(SubShellError::ProfileIsNotSet);
        }
        let profile_dir = join_path(self.path.as_str(), self.name.as_str());
        match host.status(&profile_dir) {
            Ok(_) => Ok(profile_dir),
            Err(e) => Err(SubShellError::SubShellDir(e)),
        }
    }

    fn list(&self, host: &Platform) -> (r: Result<Vec<String>, SubShellError>) {
        match host.status(&self.path) {
            Ok(_) => {},
            Err(e) => {
                return Err(SubShellError::SubShellDir(e));
            },
        }
        proof {
            reveal_strlit("/");
        }
        let prefix = self.path.clone().concat("/");
        assert(prefix@ =~= self.path@.push('/'));
        let mut names: Vec<String> = Vec::new();
        let count: usize = host.path_count();
        let mut i: usize = 0;
        let ghost base = self.path@;
        let ghost files = host@.files;
        assert(names.deep_view() =~= Seq::empty());
        while i < count
            invariant
                i <= count,
                count == files.len(),
                files == host@.files,
                base == self.path@,
                prefix@ == base.push('/'),
                ascending(names.deep_view()),
                forall|x: Seq<char>|
                    names.deep_view().contains(x) <==> (holds_profile(base, x, host@) && exists|
                        j: int,
                    |
                        0 <= j < i && (#[trigger] files[j]).0 == child(base, x)),
            decreases count - i,
        {
            let path = host.path_at(i);
            let ghost old_names = names.deep_view();
            let mut found: Option<String> = None;
            if host.present(path) {
                match rest_after(path.as_str(), prefix.as_str()) {
                    Some(name) => {
                        if names_profile(&name) {
                            found = Some(name);
                        }
                    },
                    None => {},
                }
            }
            let ghost name_view = found.deep_view();
            proof {
                assert(found matches Some(name) ==> path@ == child(base, name@) && holds_profile(
                    base,
                    name@,
                    host@,
                ));
                assert forall|x: Seq<char>|
                    holds_profile(base, x, host@) && files[i as int].0 == child(
                        base,
                        x,
                    ) implies name_view == Some(x) by {
                    assert(path@ == prefix@ + x);
                    assert(path@.take(prefix@.len() as int) =~= prefix@);
                    assert(path@.skip(prefix@.len() as int) =~= x);
                }
            }
            match found {
                Some(name) => {
                    insert_name(&mut names, name);
                },
                None => {},
            }
            proof {
                assert forall|x: Seq<char>|
                    names.deep_view().contains(x) <==> (holds_profile(base, x, host@) && exists|
                        j: int,
                    |
                        0 <= j < i + 1 && (#[trigger] files[j]).0 == child(base, x)) by {
                    if names.deep_view().contains(x) {
                        if old_names.contains(x) {
                            let j = choose|j: int|
                                0 <= j < i && (#[trigger] files[j]).0 == child(base, x);
                            assert(0 <= j < i + 1 && files[j].0 == child(base, x));
                        } else {
                            assert(name_view == Some(x));
                            assert(files[i as int].0 == child(base, x));
                        }
                    }
                    if holds_profile(base, x, host@) && exists|j: int|
                        0 <= j < i + 1 && (#[trigger] files[j]).0 == child(base, x) {
                        let j = choose|j: int|
                            0 <= j < i + 1 && (#[trigger] files[j]).0 == child(base, x);
                        if j < i {
                            assert(old_names.contains(x));
                        } else {
                            assert(name_view == Some(x));
                        }
                    }
                }
            }
            i += 1;
        }
        proof {
            assert forall|x: Seq<char>| names.deep_view().contains(x) <==> holds_profile(
                base,
                x,
                host@,
            ) by {
                if holds_profile(base, x, host@) {
                    lemma_present_is_recorded(files, child(base, x));
                }
            }
        }
        Ok(names)
    }

    fn apply(&self, host: &Platform) -> (r: Plan) {
        match self.subshell() {
            Ok(subshell) => subshell.apply_environment(self, host),
            Err(e) => {
                let steps: Vec<Action> = Vec::new();
                assert(steps.deep_view() =~= Seq::empty());
                Plan { steps, outcome: Err(LaunchError::SubShell(e)) }
            },
        }
    }
}

} // verus!
