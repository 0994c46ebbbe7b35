//! The errors of profile handling, and the one error type of a launch.

use vstd::prelude::*;
use crate::env_unicode::{EnvError, EnvErrorView};
use crate::path::NotInPathError;
use crate::platform::{IoFailure, IoFailureView};

verus! {

/// Why a profile could not be made, found or applied.
#[derive(Debug, PartialEq, Eq)]
pub enum SubShellError {
    /// The platform refused access to the base directory or to a profile's
    /// directory; the failure is kept as the platform reported it.
    SubShellDir(IoFailure),
    /// The name asked for is reserved.
    CreateReserved(String),
    /// The word given names neither a profile nor a command.
    NoSuchProfileOrCommand(String),
    /// The profile has no name yet.
    ProfileIsNotSet,
    /// The profile is bound to no shell.
    InvalidSubShell,
}

/// A [`SubShellError`] as a plain value.
pub enum SubShellErrorView {
    SubShellDir(IoFailureView),
    CreateReserved(Seq<char>),
    NoSuchProfileOrCommand(Seq<char>),
    ProfileIsNotSet,
    InvalidSubShell,
}

impl View for SubShellError {
    type V = SubShellErrorView;

    open spec fn view(&self) -> SubShellErrorView {
        match self {
            SubShellError::SubShellDir(e) => SubShellErrorView::SubShellDir(e@),
            SubShellError::CreateReserved(name) => SubShellErrorView::CreateReserved(name@),
            SubShellError::NoSuchProfileOrCommand(word) => SubShellErrorView::NoSuchProfileOrCommand(
                word@,
            ),
            SubShellError::ProfileIsNotSet => SubShellErrorView::ProfileIsNotSet,
            SubShellError::InvalidSubShell => SubShellErrorView::InvalidSubShell,
        }
    }
}

impl SubShellErrorView {
    /// The line that describes the error. A directory that is missing is told
    /// apart from one that cannot be reached for another reason.
    pub open spec fn message(self) -> Seq<char> {
        match self {
            SubShellErrorView::SubShellDir(IoFailureView::NotFound) => ".subshell directory not found\n"@,
            SubShellErrorView::SubShellDir(IoFailureView::Other(_)) => "cannot create/open directory .subshell\n"@,
            SubShellErrorView::CreateReserved(name) => "cannot create profile name with reserved word "@
                + name + "\n"@,
            SubShellErrorView::NoSuchProfileOrCommand(word) => word
                + " profile is not found or it is an invalid command. Please refer to the help\n"@,
            SubShellErrorView::ProfileIsNotSet => "profile is not set\n"@,
            SubShellErrorView::InvalidSubShell => "invalid subshell\n"@,
        }
    }

    /// The platform's failure behind the error, where there is one.
    pub open spec fn source(self) -> Option<IoFailureView> {
        match self {
            SubShellErrorView::SubShellDir(e) => Some(e),
            _ => None,
        }
    }
}

impl SubShellError {
    /// The line that describes the error.
    pub fn message(&self) -> (r: String)
        ensures
            r@ == self@.message(),
    {
        match self {
            SubShellError::SubShellDir(e) => {
                if e.is_not_found() {
                    String::from_str(".subshell directory not found\n")
                } else {
                    String::from_str("cannot create/open directory .subshell\n")
                }
            },
            SubShellError::CreateReserved(name) => String::from_str(
                "cannot create profile name with reserved word ",
            ).concat(name.as_str()).concat("\n"),
            SubShellError::NoSuchProfileOrCommand(word) => word.clone().concat(
                " profile is not found or it is an invalid command. Please refer to the help\n",
            ),
            SubShellError::ProfileIsNotSet => String::from_str("profile is not set\n"),
            SubShellError::InvalidSubShell => String::from_str("invalid subshell\n"),
        }
    }

    /// The platform's failure behind the error, where there is one.
    pub fn source(&self) -> (r: Option<&IoFailure>)
        ensures
            r.deep_view() == self@.source(),
    {
        match self {
            SubShellError::SubShellDir(e) => Some(e),
            SubShellError::CreateReserved(_) => None,
            SubShellError::NoSuchProfileOrCommand(_) => None,
            SubShellError::ProfileIsNotSet => None,
            SubShellError::InvalidSubShell => None,
        }
    }

    /// A copy of the error.
    pub fn duplicate(&self) -> (r: SubShellError)
        ensures
            r@ == self@,
    {
        match self {
            SubShellError::SubShellDir(e) => SubShellError::SubShellDir(e.duplicate()),
            SubShellError::CreateReserved(name) => SubShellError::CreateReserved(name.clone()),
            SubShellError::NoSuchProfileOrCommand(word) => SubShellError::NoSuchProfileOrCommand(
                word.clone(),
            ),
            SubShellError::ProfileIsNotSet => SubShellError::ProfileIsNotSet,
            SubShellError::InvalidSubShell => SubShellError::InvalidSubShell,
        }
    }
}

impl From<IoFailure> for SubShellError {
    fn from(err: IoFailure) -> (r: SubShellError) {
        SubShellError::SubShellDir(err)
    }
}

impl vstd::std_specs::convert::FromSpecImpl<IoFailure> for SubShellError {
    open spec fn obeys_from_spec() -> bool {
        true
    }

    open spec fn from_spec(err: IoFailure) -> SubShellError {
        SubShellError::SubShellDir(err)
    }
}

/// Whatever can stop a launch.
#[derive(Debug, PartialEq, Eq)]
pub enum LaunchError {
    /// A variable could not be read.
    Env(EnvError),
    /// The shell is in no directory of the search path.
    NotInPath(NotInPathError),
    /// The profile could not be made, found or applied.
    SubShell(SubShellError),
    /// The platform refused access to a file; the failure is kept as reported.
    Io(IoFailure),
}

/// A [`LaunchError`] as a plain value.
pub enum LaunchErrorView {
    Env(EnvErrorView),
    NotInPath,
    SubShell(SubShellErrorView),
    Io(IoFailureView),
}

impl View for LaunchError {
    type V = LaunchErrorView;

    open spec fn view(&self) -> LaunchErrorView {
        match self {
            LaunchError::Env(e) => LaunchErrorView::Env(e@),
            LaunchError::NotInPath(_) => LaunchErrorView::NotInPath,
            LaunchError::SubShell(e) => LaunchErrorView::SubShell(e@),
            LaunchError::Io(e) => LaunchErrorView::Io(e@),
        }
    }
}

impl LaunchErrorView {
    /// The text that describes the error.
    pub open spec fn message(self) -> Seq<char> {
        match self {
            LaunchErrorView::Env(e) => e.message(),
            LaunchErrorView::NotInPath => "not found in PATH env variable"@,
            LaunchErrorView::SubShell(e) => e.message(),
            LaunchErrorView::Io(IoFailureView::NotFound) => "entity not found"@,
            LaunchErrorView::Io(IoFailureView::Other(detail)) => detail,
        }
    }
}

impl LaunchError {
    /// The text that describes the error.
    pub fn message(&self) -> (r: String)
        ensures
            r@ == self@.message(),
    {
        match self {
            LaunchError::Env(e) => e.message(),
            LaunchError::NotInPath(e) => e.message(),
            LaunchError::SubShell(e) => e.message(),
            LaunchError::Io(IoFailure::NotFound) => String::from_str("entity not found"),
            LaunchError::Io(IoFailure::Other(detail)) => detail.clone(),
        }
    }
}

/// The outcome of a step of the launch, as a plain value.
pub open spec fn outcome_view(outcome: Result<(), LaunchError>) -> Result<(), LaunchErrorView> {
    match outcome {
        Ok(_) => Ok(()),
        Err(e) => Err(e@),
    }
}

} // verus!
