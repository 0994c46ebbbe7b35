//! The platform as the launcher sees it.
//!
//! Nothing in this crate touches the operating system. Every function that
//! depends on the process environment or on the file system takes a
//! [`Platform`]: the environment entries as they were enumerated and the
//! outcome of looking at each path that was looked at. Every function that
//! would change the platform returns the [`Action`]s to carry out instead.
//! The caller fills the record, carries the actions out in order, and notes
//! each one that succeeded with [`Platform::perform`].

use vstd::prelude::*;

verus! {

/// A string handed over by the operating system.
#[derive(Debug, PartialEq, Eq)]
pub enum OsText {
    /// Valid text.
    Text(String),
    /// Something the platform cannot represent as text.
    NotText,
}

impl View for OsText {
    type V = Option<Seq<char>>;

    open spec fn view(&self) -> Option<Seq<char>> {
        match self {
            OsText::Text(s) => Some(s@),
            OsText::NotText => None,
        }
    }
}

impl DeepView for OsText {
    type V = Option<Seq<char>>;

    open spec fn deep_view(&self) -> Option<Seq<char>> {
        self@
    }
}

impl OsText {
    /// A copy of the string.
    pub fn duplicate(&self) -> (r: OsText)
        ensures
            r@ == self@,
    {
        match self {
            OsText::Text(s) => OsText::Text(s.clone()),
            OsText::NotText => OsText::NotText,
        }
    }
}

/// Why the platform could not give access to a path.
#[derive(Debug, PartialEq, Eq)]
pub enum IoFailure {
    /// Nothing exists at the path.
    NotFound,
    /// Any other failure, with the platform's own description of it.
    Other(String),
}

/// An [`IoFailure`] as a plain value.
pub enum IoFailureView {
    NotFound,
    Other(Seq<char>),
}

impl View for IoFailure {
    type V = IoFailureView;

    open spec fn view(&self) -> IoFailureView {
        match self {
            IoFailure::NotFound => IoFailureView::NotFound,
            IoFailure::Other(detail) => IoFailureView::Other(detail@),
        }
    }
}

impl DeepView for IoFailure {
    type V = IoFailureView;

    open spec fn deep_view(&self) -> IoFailureView {
        self@
    }
}

impl IoFailure {
    /// A copy of the failure.
    pub fn duplicate(&self) -> (r: IoFailure)
        ensures
            r@ == self@,
    {
        match self {
            IoFailure::NotFound => IoFailure::NotFound,
            IoFailure::Other(detail) => IoFailure::Other(detail.clone()),
        }
    }

    /// Whether the failure is that nothing exists at the path.
    pub fn is_not_found(&self) -> (r: bool)
        ensures
            r == (self@ == IoFailureView::NotFound),
    {
        match self {
            IoFailure::NotFound => true,
            IoFailure::Other(_) => false,
        }
    }
}

/// What looking at a path gave: `Ok` when something exists there.
pub open spec fn status_view(status: Result<(), IoFailure>) -> Result<(), IoFailureView> {
    match status {
        Ok(_) => Ok(()),
        Err(e) => Err(e@),
    }
}

/// One change to the platform that the caller is asked to make.
#[derive(Debug, PartialEq, Eq)]
pub enum Action {
    /// Set an environment variable of the running process.
    SetVar { name: String, value: String },
    /// Create one directory.
    CreateDir { path: String },
    /// Copy the file at `from`, byte for byte, to `to`.
    CopyFile { from: String, to: String },
}

/// An [`Action`] as a plain value.
pub enum ActionView {
    SetVar { name: Seq<char>, value: Seq<char> },
    CreateDir { path: Seq<char> },
    CopyFile { from: Seq<char>, to: Seq<char> },
}

impl View for Action {
    type V = ActionView;

    open spec fn view(&self) -> ActionView {
        match self {
            Action::SetVar { name, value } => ActionView::SetVar { name: name@, value: value@ },
            Action::CreateDir { path } => ActionView::CreateDir { path: path@ },
            Action::CopyFile { from, to } => ActionView::CopyFile { from: from@, to: to@ },
        }
    }
}

impl DeepView for Action {
    type V = ActionView;

    open spec fn deep_view(&self) -> ActionView {
        self@
    }
}

/// The program to become, and its arguments after the program's own name.
#[derive(Debug, PartialEq, Eq)]
pub struct Launch {
    pub program: String,
    pub args: Vec<String>,
}

/// A [`Launch`] as a plain value.
pub struct LaunchView {
    pub program: Seq<char>,
    pub args: Seq<Seq<char>>,
}

impl View for Launch {
    type V = LaunchView;

    open spec fn view(&self) -> LaunchView {
        LaunchView { program: self.program@, args: self.args.deep_view() }
    }
}

/// The record of the platform: environment entries in the order in which they
/// were enumerated, and paths with what looking at them gave. Of two entries
/// for one name, and of two for one path, the later one holds. A path that
/// was never recorded counts as not found.
#[derive(Debug)]
pub struct Platform {
    vars: Vec<(OsText, OsText)>,
    files: Vec<(String, Result<(), IoFailure>)>,
}

/// A [`Platform`] as a plain value.
pub struct PlatformView {
    pub vars: Seq<(Option<Seq<char>>, Option<Seq<char>>)>,
    pub files: Seq<(Seq<char>, Result<(), IoFailureView>)>,
}

/// The value recorded last under `name`: `None` when no entry has that name,
/// `Some(None)` when the value is not text.
pub open spec fn var_in(
    vars: Seq<(Option<Seq<char>>, Option<Seq<char>>)>,
    name: Seq<char>,
) -> Option<Option<Seq<char>>>
    decreases vars.len(),
{
    if vars.len() == 0 {
        None
    } else if vars.last().0 == Some(name) {
        Some(vars.last().1)
    } else {
        var_in(vars.drop_last(), name)
    }
}

/// What was recorded last for `path`; not found when nothing was.
pub open spec fn status_in(
    files: Seq<(Seq<char>, Result<(), IoFailureView>)>,
    path: Seq<char>,
) -> Result<(), IoFailureView>
    decreases files.len(),
{
    if files.len() == 0 {
        Err(IoFailureView::NotFound)
    } else if files.last().0 == path {
        files.last().1
    } else {
        status_in(files.drop_last(), path)
    }
}

impl PlatformView {
    /// The value of the variable `name`.
    pub open spec fn var(self, name: Seq<char>) -> Option<Option<Seq<char>>> {
        var_in(self.vars, name)
    }

    /// What looking at `path` gave.
    pub open spec fn status(self, path: Seq<char>) -> Result<(), IoFailureView> {
        status_in(self.files, path)
    }

    /// Whether something exists at `path`.
    pub open spec fn present(self, path: Seq<char>) -> bool {
        self.status(path) is Ok
    }

    /// The platform once `action` has been carried out with success.
    pub open spec fn after(self, action: ActionView) -> PlatformView {
        match action {
            ActionView::SetVar { name, value } => PlatformView {
                vars: self.vars.push((Some(name), Some(value))),
                files: self.files,
            },
            ActionView::CreateDir { path } => PlatformView {
                vars: self.vars,
                files: self.files.push((path, Ok(()))),
            },
            ActionView::CopyFile { from, to } => PlatformView {
                vars: self.vars,
                files: self.files.push((to, Ok(()))),
            },
        }
    }

    /// The platform once every action of `actions` has been carried out, in order.
    pub open spec fn after_all(self, actions: Seq<ActionView>) -> PlatformView
        decreases actions.len(),
    {
        if actions.len() == 0 {
            self
        } else {
            self.after_all(actions.drop_last()).after(actions.last())
        }
    }
}

/// A path at which something exists has a record.
pub proof fn lemma_present_is_recorded(
    files: Seq<(Seq<char>, Result<(), IoFailureView>)>,
    path: Seq<char>,
)
    requires
        status_in(files, path) is Ok,
    ensures
        exists|i: int| 0 <= i < files.len() && (#[trigger] files[i]).0 == path,
    decreases files.len(),
{
    if files.last().0 == path {
        assert(files[files.len() - 1].0 == path);
    } else {
        lemma_present_is_recorded(files.drop_last(), path);
        let i = choose|i: int| 0 <= i < files.len() - 1 && (#[trigger] files.drop_last()[i]).0 == path;
        assert(files[i].0 == path);
    }
}

/// Whether carrying out `action` puts something at `path`.
pub open spec fn makes(action: ActionView, path: Seq<char>) -> bool {
    match action {
        ActionView::SetVar { .. } => false,
        ActionView::CreateDir { path: made } => made == path,
        ActionView::CopyFile { to, .. } => to == path,
    }
}

/// Whether carrying out `action` gives the variable `name` a value.
pub open spec fn binds(action: ActionView, name: Seq<char>) -> bool {
    action matches ActionView::SetVar { name: bound, .. } && bound == name
}

/// What one action changes: the path that it makes exists afterwards and the
/// variable that it sets has the new value; every other path and variable
/// is as before.
pub proof fn lemma_after(host: PlatformView, action: ActionView, path: Seq<char>, name: Seq<char>)
    ensures
        host.after(action).status(path) == if makes(action, path) {
            Ok::<(), IoFailureView>(())
        } else {
            host.status(path)
        },
        host.after(action).var(name) == if binds(action, name) {
            Some(Some(action->SetVar_value))
        } else {
            host.var(name)
        },
{
    match action {
        ActionView::SetVar { name: bound, value } => {
            assert(host.vars.push((Some(bound), Some(value))).drop_last() =~= host.vars);
        },
        ActionView::CreateDir { path: made } => {
            assert(host.files.push((made, Ok(()))).drop_last() =~= host.files);
        },
        ActionView::CopyFile { from, to } => {
            assert(host.files.push((to, Ok(()))).drop_last() =~= host.files);
        },
    }
}

/// What a run of actions changes on disk: a path exists afterwards exactly
/// when it existed before or one of the actions makes it, and a path that no
/// action makes is as the platform reported it.
pub proof fn lemma_after_all(host: PlatformView, actions: Seq<ActionView>, path: Seq<char>)
    ensures
        host.after_all(actions).status(path) == if exists|i: int|
            0 <= i < actions.len() && makes(#[trigger] actions[i], path) {
            Ok::<(), IoFailureView>(())
        } else {
            host.status(path)
        },
    decreases actions.len(),
{
    if actions.len() > 0 {
        let init = actions.drop_last();
        lemma_after_all(host, init, path);
        lemma_after(host.after_all(init), actions.last(), path, Seq::empty());
        if exists|i: int| 0 <= i < init.len() && makes(#[trigger] init[i], path) {
            let i = choose|i: int| 0 <= i < init.len() && makes(#[trigger] init[i], path);
            assert(makes(actions[i], path));
        }
        if makes(actions.last(), path) {
            assert(makes(actions[actions.len() - 1], path));
        }
        if exists|i: int| 0 <= i < actions.len() && makes(#[trigger] actions[i], path) {
            let i = choose|i: int| 0 <= i < actions.len() && makes(#[trigger] actions[i], path);
            if i < init.len() {
                assert(makes(init[i], path));
            }
        }
    }
}

/// Carrying out one run of actions and then another is carrying out both.
pub proof fn lemma_after_all_concat(host: PlatformView, first: Seq<ActionView>, then: Seq<ActionView>)
    ensures
        host.after_all(first + then) == host.after_all(first).after_all(then),
    decreases then.len(),
{
    if then.len() == 0 {
        assert(first + then =~= first);
    } else {
        lemma_after_all_concat(host, first, then.drop_last());
        assert((first + then).drop_last() =~= first + then.drop_last());
        assert((first + then).last() == then.last());
    }
}

/// A run of actions that sets no variable leaves every variable as it was.
pub proof fn lemma_after_all_vars(host: PlatformView, actions: Seq<ActionView>)
    requires
        forall|i: int| 0 <= i < actions.len() ==> !((#[trigger] actions[i]) is SetVar),
    ensures
        host.after_all(actions).vars == host.vars,
    decreases actions.len(),
{
    if actions.len() > 0 {
        let init = actions.drop_last();
        assert forall|i: int| 0 <= i < init.len() implies !((#[trigger] init[i]) is SetVar) by {
            assert(!(actions[i] is SetVar));
        }
        lemma_after_all_vars(host, init);
        assert(!(actions[actions.len() - 1] is SetVar));
    }
}

impl View for Platform {
    type V = PlatformView;

    closed spec fn view(&self) -> PlatformView {
        PlatformView {
            vars: self.vars.deep_view(),
            files: Seq::new(
                self.files.len() as nat,
                |i: int| (self.files[i].0@, status_view(self.files[i].1)),
            ),
        }
    }
}

impl Platform {
    /// A record with no environment entry and no path.
    pub fn new() -> (r: Platform)
        ensures
            r@.vars == Seq::<(Option<Seq<char>>, Option<Seq<char>>)>::empty(),
            r@.files == Seq::<(Seq<char>, Result<(), IoFailureView>)>::empty(),
    {
        let r = Platform { vars: Vec::new(), files: Vec::new() };
        assert(r@.vars =~= Seq::empty());
        assert(r@.files =~= Seq::empty());
        r
    }

    /// Adds one environment entry as the platform enumerated it.
    pub fn push_var(&mut self, name: OsText, value: OsText)
        ensures
            final(self)@.vars == old(self)@.vars.push((name@, value@)),
            final(self)@.files == old(self)@.files,
    {
        self.vars.push((name, value));
        assert(self@.vars =~= old(self)@.vars.push((name@, value@)));
        assert(self@.files =~= old(self)@.files);
    }

    /// Records what looking at `path` gave.
    pub fn record(&mut self, path: String, status: Result<(), IoFailure>)
        ensures
            final(self)@.vars == old(self)@.vars,
            final(self)@.files == old(self)@.files.push((path@, status_view(status))),
    {
        self.files.push((path, status));
        assert(self@.vars =~= old(self)@.vars);
        assert(self@.files =~= old(self)@.files.push((path@, status_view(status))));
    }

    /// The number of environment entries.
    pub fn var_count(&self) -> (r: usize)
        ensures
            r == self@.vars.len(),
    {
        self.vars.len()
    }

    /// The environment entry at `index`, in the order of enumeration.
    pub fn var_at(&self, index: usize) -> (r: (&OsText, &OsText))
        requires
            index < self@.vars.len(),
        ensures
            (r.0@, r.1@) == self@.vars[index as int],
    {
        let entry = &self.vars[index];
        (&entry.0, &entry.1)
    }

    /// The number of records of paths.
    pub fn path_count(&self) -> (r: usize)
        ensures
            r == self@.files.len(),
    {
        self.files.len()
    }

    /// The path of the record at `index`.
    pub fn path_at(&self, index: usize) -> (r: &String)
        requires
            index < self@.files.len(),
        ensures
            r@ == self@.files[index as int].0,
    {
        &self.files[index].0
    }

    /// The value of the variable `name`.
    pub fn var(&self, name: &String) -> (r: Option<OsText>)
        ensures
            r.deep_view() == self@.var(name@),
    {
        let mut i: usize = self.vars.len();
        assert(self@.vars.take(i as int) =~= self@.vars);
        while i > 0
            invariant
                i <= self.vars.len(),
                var_in(self@.vars, name@) == var_in(self@.vars.take(i as int), name@),
            decreases i,
        {
            i -= 1;
            let ghost prefix = self@.vars.take(i + 1);
            assert(prefix.last() == self@.vars[i as int]);
            assert(prefix.drop_last() =~= self@.vars.take(i as int));
            match &self.vars[i].0 {
                OsText::Text(key) => {
                    if *key == *name {
                        return Some(self.vars[i].1.duplicate());
                    }
                },
                OsText::NotText => {},
            }
        }
        assert(self@.vars.take(0) =~= Seq::empty());
        None
    }

    /// What looking at `path` gave.
    pub fn status(&self, path: &String) -> (r: Result<(), IoFailure>)
        ensures
            status_view(r) == self@.status(path@),
    {
        let mut i: usize = self.files.len();
        assert(self@.files.take(i as int) =~= self@.files);
        while i > 0
            invariant
                i <= self.files.len(),
                status_in(self@.files, path@) == status_in(self@.files.take(i as int), path@),
            decreases i,
        {
            i -= 1;
            let ghost prefix = self@.files.take(i + 1);
            assert(prefix.last() == self@.files[i as int]);
            assert(prefix.drop_last() =~= self@.files.take(i as int));
            if self.files[i].0 == *path {
                return match &self.files[i].1 {
                    Ok(_) => Ok(()),
                    Err(e) => Err(e.duplicate()),
                };
            }
        }
        assert(self@.files.take(0) =~= Seq::empty());
        Err(IoFailure::NotFound)
    }

    /// Whether something exists at `path`.
    pub fn present(&self, path: &String) -> (r: bool)
        ensures
            r == self@.present(path@),
    {
        self.status(path).is_ok()
    }

    /// Notes that `action` has been carried out with success.
    pub fn perform(&mut self, action: &Action)
        ensures
            final(self)@ == old(self)@.after(action@),
    {
        match action {
            Action::SetVar { name, value } => {
                self.push_var(OsText::Text(name.clone()), OsText::Text(value.clone()));
            },
            Action::CreateDir { path } => {
                self.record(path.clone(), Ok(()));
            },
            Action::CopyFile { from, to } => {
                self.record(to.clone(), Ok(()));
            },
        }
    }

    /// Notes that every action of `actions` has been carried out, in order.
    pub fn perform_all(&mut self, actions: &Vec<Action>)
        ensures
            final(self)@ == old(self)@.after_all(actions.deep_view()),
    {
        let mut i: usize = 0;
        while i < actions.len()
            invariant
                i <= actions.len(),
                self@ == old(self)@.after_all(actions.deep_view().take(i as int)),
            decreases actions.len() - i,
        {
            let ghost done = actions.deep_view().take(i + 1);
            assert(done.last() == actions[i as int]@);
            assert(done.drop_last() =~= actions.deep_view().take(i as int));
            self.perform(&actions[i]);
            i += 1;
        }
        assert(actions.deep_view().take(actions.len() as int) =~= actions.deep_view());
    }
}

} // verus!
