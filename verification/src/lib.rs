//! Launching a shell inside a named profile.
//!
//! A profile is a directory of shell start-up files below a base directory.
//! The crate finds the shell on the search path, captures the environment,
//! makes sure that the profile's directory exists, seeds it with the start-up
//! files of the home directory that it lacks, binds the shell's
//! configuration directory to it, and says which program to become.
//!
//! All of this is decided over a [`platform::Platform`], a record of what the
//! caller found on the machine; what has to change there comes back as a
//! list of [`platform::Action`]s.

use vstd::prelude::*;
use crate::env_map::{map_of, upsert_all, EnvMap};
use crate::env_unicode::{EnvError, EnvErrorView};
use crate::error::{LaunchError, LaunchErrorView, SubShellError, SubShellErrorView};
use crate::plan::{apply_plan, seed_paths_of, Plan, PlanView};
use crate::platform::{Launch, LaunchView, Platform, PlatformView};
use crate::subzsh::SubZsh;
use crate::text::{before, child};

pub mod env_map;
pub mod env_unicode;
pub mod error;
pub mod path;
pub mod plan;
pub mod platform;
pub mod profile;
pub mod subzsh;
pub mod text;

verus! {

/// A question about the captured environment.
#[derive(Debug, PartialEq, Eq)]
pub enum EnvQuery {
    /// The value of one variable.
    Single(String),
    /// The values of those of the named variables that exist.
    Multi(Vec<String>),
}

/// An [`EnvQuery`] as a plain value.
pub enum EnvQueryView {
    Single(Seq<char>),
    Multi(Seq<Seq<char>>),
}

impl View for EnvQuery {
    type V = EnvQueryView;

    open spec fn view(&self) -> EnvQueryView {
        match self {
            EnvQuery::Single(name) => EnvQueryView::Single(name@),
            EnvQuery::Multi(names) => EnvQueryView::Multi(names.deep_view()),
        }
    }
}

/// The answer to an [`EnvQuery`], of the same shape as the question.
#[derive(Debug)]
pub enum EnvResult {
    Single(String),
    Multi(EnvMap),
}

/// An [`EnvResult`] as a plain value.
pub enum EnvResultView {
    Single(Seq<char>),
    Multi(Map<Seq<char>, Seq<char>>),
}

impl View for EnvResult {
    type V = EnvResultView;

    open spec fn view(&self) -> EnvResultView {
        match self {
            EnvResult::Single(value) => EnvResultView::Single(value@),
            EnvResult::Multi(env) => EnvResultView::Multi(env@),
        }
    }
}

/// A change to the captured environment.
#[derive(Debug)]
pub enum EnvInput {
    /// One variable and its new value.
    KeyVal(String, String),
    /// Every entry of a map, in the map's order.
    Mapping(EnvMap),
}

impl EnvInput {
    /// The entries that the input adds, in order.
    pub open spec fn pairs(&self) -> Seq<(Seq<char>, Seq<char>)> {
        match self {
            EnvInput::KeyVal(name, value) => seq![(name@, value@)],
            EnvInput::Mapping(env) => env.pairs(),
        }
    }
}

/// What a shell is to this crate.
pub struct ShellView {
    /// The path of the shell's executable.
    pub program: Seq<char>,
    /// The captured environment, entry by entry.
    pub env: Seq<(Seq<char>, Seq<char>)>,
    /// The names of the shell's start-up files, in the order of seeding.
    pub startup_files: Seq<Seq<char>>,
    /// The variable that tells the shell where its start-up files are.
    pub config_var: Seq<char>,
    /// The one argument that makes the shell a login shell.
    pub login_flag: Seq<char>,
}

/// The name under which a query for several variables reports that none of
/// them exists.
pub open spec fn several() -> Seq<char> {
    "<multiple keys>"@
}

/// The part of `env` that `names` asks for.
pub open spec fn selection(env: Map<Seq<char>, Seq<char>>, names: Seq<Seq<char>>) -> Map<
    Seq<char>,
    Seq<char>,
> {
    Map::new(|name: Seq<char>| names.contains(name) && env.contains_key(name), |name: Seq<char>| env[name])
}

/// Whether `env` has a value for at least one of `names`.
pub open spec fn any_known(env: Map<Seq<char>, Seq<char>>, names: Seq<Seq<char>>) -> bool {
    exists|i: int| 0 <= i < names.len() && env.contains_key(#[trigger] names[i])
}

/// The answer that `env` gives to `query`. One name gives its value, and
/// fails when it has none. Several names give the values of those that have
/// one, and fail when none of them has.
pub open spec fn answer(env: Map<Seq<char>, Seq<char>>, query: EnvQueryView) -> Result<
    EnvResultView,
    EnvErrorView,
> {
    match query {
        EnvQueryView::Single(name) => if env.contains_key(name) {
            Ok(EnvResultView::Single(env[name]))
        } else {
            Err(EnvErrorView::NotFound(name))
        },
        EnvQueryView::Multi(names) => if any_known(env, names) {
            Ok(EnvResultView::Multi(selection(env, names)))
        } else {
            Err(EnvErrorView::NotFound(several()))
        },
    }
}

/// An answer as a plain value.
pub open spec fn answer_view(r: Result<EnvResult, EnvError>) -> Result<EnvResultView, EnvErrorView> {
    match r {
        Ok(v) => Ok(v@),
        Err(e) => Err(e@),
    }
}

/// A text or an error as plain values.
pub open spec fn text_view<E: View>(r: Result<String, E>) -> Result<Seq<char>, E::V> {
    match r {
        Ok(v) => Ok(v@),
        Err(e) => Err(e@),
    }
}

/// The home directory according to `env`.
pub open spec fn home_of(env: Map<Seq<char>, Seq<char>>) -> Result<Seq<char>, EnvErrorView> {
    if env.contains_key("HOME"@) {
        Ok(env["HOME"@])
    } else {
        Err(EnvErrorView::NotFound("HOME"@))
    }
}

/// Where the profile `name` below `base` is on `host`. A profile without a
/// name is nowhere, whatever the platform holds. Otherwise the profile is the
/// directory `base/name`, and is there exactly when the platform has it.
pub open spec fn located(base: Seq<char>, name: Seq<char>, host: PlatformView) -> Result<
    Seq<char>,
    SubShellErrorView,
> {
    if name.len() == 0 {
        Err(SubShellErrorView::ProfileIsNotSet)
    } else {
        match host.status(child(base, name)) {
            Ok(_) => Ok(child(base, name)),
            Err(e) => Err(SubShellErrorView::SubShellDir(e)),
        }
    }
}

/// Whether `name` can be listed as a profile: it is not empty, it is not
/// hidden, and it names an entry of the base directory itself.
pub open spec fn is_profile_name(name: Seq<char>) -> bool {
    name.len() > 0 && name[0] != '.' && !name.contains('/')
}

/// Whether the base directory `base` holds the profile `name` on `host`.
pub open spec fn holds_profile(base: Seq<char>, name: Seq<char>, host: PlatformView) -> bool {
    is_profile_name(name) && host.present(child(base, name))
}

/// Each name comes before the names after it.
pub open spec fn ascending(names: Seq<Seq<char>>) -> bool {
    forall|i: int, j: int| 0 <= i < j < names.len() ==> before(names[i], names[j])
}

/// Whether `names` lists the profiles below `base` on `host`: every profile
/// once, in lexical order, and nothing else.
pub open spec fn lists(names: Seq<Seq<char>>, base: Seq<char>, host: PlatformView) -> bool {
    &&& ascending(names)
    &&& forall|name: Seq<char>| names.contains(name) <==> holds_profile(base, name, host)
}

/// A shell that can be launched inside a profile.
pub trait SubShell {
    /// What the shell is: its executable, the captured environment and the
    /// names that belong to its family of shells.
    spec fn model(&self) -> ShellView;

    /// The program to become: the shell's executable with the login flag as
    /// its only argument.
    fn exec(&self) -> (r: Launch)
        ensures
            r@ == (LaunchView { program: self.model().program, args: seq![self.model().login_flag] }),
    ;

    /// The whole captured environment.
    fn get_all_env(&self) -> (r: Result<EnvResult, EnvError>)
        ensures
            r matches Ok(EnvResult::Multi(env)) && env.pairs() == self.model().env,
    ;

    /// Answers a question about the captured environment.
    fn get_env(&self, q: EnvQuery) -> (r: Result<EnvResult, EnvError>)
        ensures
            answer_view(r) == answer(map_of(self.model().env), q@),
    ;

    /// The home directory according to the captured environment.
    fn get_home_env(&self) -> (r: Result<String, EnvError>)
        ensures
            text_view(r) == home_of(map_of(self.model().env)),
    ;

    /// Changes the captured environment, and nothing else: every entry of
    /// the input is given in order, a later one over an earlier one.
    fn set_env(&mut self, input: EnvInput) -> (r: Result<(), EnvError>)
        ensures
            r is Ok,
            final(self).model() == (ShellView {
                env: upsert_all(old(self).model().env, input.pairs()),
                ..old(self).model()
            }),
    ;

    /// The paths to look at before a profile whose directory is `dir` is
    /// applied.
    fn seed_paths(&self, dir: &String) -> (r: Vec<String>)
        ensures
            r.deep_view() == seed_paths_of(self.model(), dir@),
    ;

    /// Plans the application of `profile` on `host`.
    fn apply_environment(&self, profile: &dyn Profile, host: &Platform) -> (r: Plan)
        ensures
            r@ == apply_plan(self.model(), located(profile.base(), profile.name(), host@), host@),
    ;
}

/// A named directory of start-up files below a base directory.
pub trait Profile {
    /// The base directory.
    spec fn base(&self) -> Seq<char>;

    /// The profile's name; empty while the profile is not set.
    spec fn name(&self) -> Seq<char>;

    /// The shell that the profile is bound to.
    spec fn shell(&self) -> Option<ShellView>;

    /// Whether the profile's directory is there: what `profile_path` says,
    /// without the path.
    fn exist(&self, host: &Platform) -> (r: Result<(), SubShellError>)
        ensures
            match r {
                Ok(_) => located(self.base(), self.name(), host@) is Ok,
                Err(e) => located(self.base(), self.name(), host@) == Err::<
                    Seq<char>,
                    SubShellErrorView,
                >(e@),
            },
    ;

    /// Names the profile.
    fn set_profile_name(&mut self, name: String)
        ensures
            final(self).name() == name@,
            final(self).base() == old(self).base(),
            final(self).shell() == old(self).shell(),
    ;

    /// The profile's directory.
    fn profile_path(&self, host: &Platform) -> (r: Result<String, SubShellError>)
        ensures
            text_view(r) == located(self.base(), self.name(), host@),
    ;

    /// The names of the profiles below the base directory, in lexical order.
    /// Hidden entries are left out. Where the platform gives no access to
    /// the base directory, its failure is handed on.
    fn list(&self, host: &Platform) -> (r: Result<Vec<String>, SubShellError>)
        ensures
            match r {
                Ok(names) => host@.present(self.base()) && lists(
                    names.deep_view(),
                    self.base(),
                    host@,
                ),
                Err(e) => host@.status(self.base()) matches Err(failure) && e@
                    == SubShellErrorView::SubShellDir(failure),
            },
    ;

    /// Plans the application of the profile to the shell it is bound to.
    /// Bound to no shell, the profile cannot be applied and nothing is to be
    /// done.
    fn apply(&self, host: &Platform) -> (r: Plan)
        ensures
            r@ == match self.shell() {
                Some(shell) => apply_plan(
                    shell,
                    located(self.base(), self.name(), host@),
                    host@,
                ),
                None => PlanView {
                    steps: Seq::empty(),
                    outcome: Err(LaunchErrorView::SubShell(SubShellErrorView::InvalidSubShell)),
                },
            },
    ;
}

/// Finds zsh on the search path and captures the environment.
pub fn prepare_zsh(host: &Platform) -> (r: Result<Box<SubZsh>, LaunchError>)
    ensures
        crate::subzsh::prepared(r, host@),
{
    crate::subzsh::prepare(host)
}

} // verus!
