//! Reading environment variables as text.

use vstd::prelude::*;
use crate::env_map::{lemma_map_of_value, map_of, unique, EnvMap};
use crate::platform::{OsText, Platform, PlatformView};
use crate::text::{split, split_on};

verus! {

/// Why an environment variable could not be read.
#[derive(Debug, PartialEq, Eq)]
pub enum EnvError {
    /// The variable named here, or its value, is not valid text.
    InvalidUnicode(String),
    /// No variable has the name given here.
    NotFound(String),
}

/// An [`EnvError`] as a plain value.
pub enum EnvErrorView {
    InvalidUnicode(Seq<char>),
    NotFound(Seq<char>),
}

impl View for EnvError {
    type V = EnvErrorView;

    open spec fn view(&self) -> EnvErrorView {
        match self {
            EnvError::InvalidUnicode(name) => EnvErrorView::InvalidUnicode(name@),
            EnvError::NotFound(name) => EnvErrorView::NotFound(name@),
        }
    }
}

impl EnvErrorView {
    /// The line that describes the error.
    pub open spec fn message(self) -> Seq<char> {
        match self {
            EnvErrorView::InvalidUnicode(name) => "invalid unicode on the value of "@ + name
                + "\n"@,
            EnvErrorView::NotFound(name) => "environment variable "@ + name + " not found\n"@,
        }
    }
}

impl EnvError {
    /// The line that describes the error.
    pub fn message(&self) -> (r: String)
        ensures
            r@ == self@.message(),
    {
        match self {
            EnvError::InvalidUnicode(name) => String::from_str(
                "invalid unicode on the value of ",
            ).concat(name.as_str()).concat("\n"),
            EnvError::NotFound(name) => String::from_str("environment variable ").concat(
                name.as_str(),
            ).concat(" not found\n"),
        }
    }

    /// A copy of the error.
    pub fn duplicate(&self) -> (r: EnvError)
        ensures
            r@ == self@,
    {
        match self {
            EnvError::InvalidUnicode(name) => EnvError::InvalidUnicode(name.clone()),
            EnvError::NotFound(name) => EnvError::NotFound(name.clone()),
        }
    }
}

/// The text of the variable `name` on `host`.
pub open spec fn text_of(host: PlatformView, name: Seq<char>) -> Result<Seq<char>, EnvErrorView> {
    match host.var(name) {
        None => Err(EnvErrorView::NotFound(name)),
        Some(None) => Err(EnvErrorView::InvalidUnicode(name)),
        Some(Some(value)) => Ok(value),
    }
}

/// The directories of the search path on `host`.
pub open spec fn search_path(host: PlatformView) -> Result<Seq<Seq<char>>, EnvErrorView> {
    match text_of(host, "PATH"@) {
        Ok(value) => Ok(split(value, ':')),
        Err(e) => Err(e),
    }
}

/// The name under which an entry is reported whose own name is not text.
pub open spec fn unnamed() -> Seq<char> {
    "<key>"@
}

/// The entries of a whole environment as text, in the order of enumeration.
/// The first entry whose name or value is not text makes the whole capture
/// fail: with the placeholder for a name, with the entry's name for a value.
pub open spec fn capture(vars: Seq<(Option<Seq<char>>, Option<Seq<char>>)>) -> Result<
    Seq<(Seq<char>, Seq<char>)>,
    EnvErrorView,
>
    decreases vars.len(),
{
    if vars.len() == 0 {
        Ok(Seq::empty())
    } else {
        match capture(vars.drop_last()) {
            Err(e) => Err(e),
            Ok(pairs) => match vars.last() {
                (None, _) => Err(EnvErrorView::InvalidUnicode(unnamed())),
                (Some(name), None) => Err(EnvErrorView::InvalidUnicode(name)),
                (Some(name), Some(value)) => Ok(pairs.push((name, value))),
            },
        }
    }
}

/// Whether both the name and the value of an entry are text.
pub open spec fn is_text(entry: (Option<Seq<char>>, Option<Seq<char>>)) -> bool {
    entry.0 is Some && entry.1 is Some
}

/// A capture succeeds exactly when every entry is text, and then keeps every
/// entry in its place; otherwise the first entry that is not text decides the
/// error.
pub proof fn lemma_capture(vars: Seq<(Option<Seq<char>>, Option<Seq<char>>)>)
    ensures
        capture(vars) is Ok <==> forall|i: int| 0 <= i < vars.len() ==> is_text(#[trigger] vars[i]),
        capture(vars) matches Ok(pairs) ==> pairs.len() == vars.len() && forall|i: int|
            0 <= i < vars.len() ==> (#[trigger] vars[i]) == (Some(pairs[i].0), Some(pairs[i].1)),
        forall|k: int|
            0 <= k < vars.len() && !is_text(vars[k]) && (forall|i: int|
                0 <= i < k ==> is_text(#[trigger] vars[i])) ==> capture(vars) == Err::<
                Seq<(Seq<char>, Seq<char>)>,
                EnvErrorView,
            >(
                EnvErrorView::InvalidUnicode(
                    match vars[k].0 {
                        Some(name) => name,
                        None => unnamed(),
                    },
                ),
            ),
    decreases vars.len(),
{
    if vars.len() > 0 {
        let init = vars.drop_last();
        let n = vars.len() - 1;
        lemma_capture(init);
        assert forall|i: int| 0 <= i < init.len() implies init[i] == vars[i] by {}
        if capture(vars) is Ok {
            assert forall|i: int| 0 <= i < vars.len() implies is_text(#[trigger] vars[i]) by {
                if i < n {
                    assert(is_text(init[i]));
                }
            }
            let pairs = capture(vars)->Ok_0;
            let before = capture(init)->Ok_0;
            assert forall|i: int| 0 <= i < vars.len() implies (#[trigger] vars[i]) == (
                Some(pairs[i].0),
                Some(pairs[i].1),
            ) by {
                if i < n {
                    assert(init[i] == (Some(before[i].0), Some(before[i].1)));
                }
            }
        }
        if forall|i: int| 0 <= i < vars.len() ==> is_text(#[trigger] vars[i]) {
            assert forall|i: int| 0 <= i < init.len() implies is_text(#[trigger] init[i]) by {
                assert(is_text(vars[i]));
            }
            assert(is_text(vars[n]));
        }
        assert forall|k: int|
            0 <= k < vars.len() && !is_text(vars[k]) && (forall|i: int|
                0 <= i < k ==> is_text(#[trigger] vars[i])) implies capture(vars) == Err::<
            Seq<(Seq<char>, Seq<char>)>,
            EnvErrorView,
        >(
            EnvErrorView::InvalidUnicode(
                match vars[k].0 {
                    Some(name) => name,
                    None => unnamed(),
                },
            ),
        ) by {
            if k < n {
                assert(!is_text(init[k]));
                assert forall|i: int| 0 <= i < k implies is_text(#[trigger] init[i]) by {
                    assert(is_text(vars[i]));
                }
            } else {
                assert forall|i: int| 0 <= i < init.len() implies is_text(#[trigger] init[i]) by {
                    assert(is_text(vars[i]));
                }
            }
        }
    }
}

/// A captured environment keeps, for every name, the value of the last entry
/// with that name.
pub proof fn lemma_capture_keeps(vars: Seq<(Option<Seq<char>>, Option<Seq<char>>)>, i: int)
    requires
        capture(vars) is Ok,
        0 <= i < vars.len(),
        forall|j: int| i < j < vars.len() ==> (#[trigger] vars[j]).0 != vars[i].0,
    ensures
        vars[i].0 is Some,
        vars[i].1 is Some,
        map_of(capture(vars)->Ok_0).contains_key(vars[i].0->Some_0),
        map_of(capture(vars)->Ok_0)[vars[i].0->Some_0] == vars[i].1->Some_0,
{
    let pairs = capture(vars)->Ok_0;
    lemma_capture(vars);
    assert(is_text(vars[i]));
    let name = vars[i].0->Some_0;
    assert(pairs[i].0 == name);
    assert forall|j: int| i < j < pairs.len() implies (#[trigger] pairs[j]).0 != pairs[i].0 by {
        assert(vars[j].0 != vars[i].0);
        assert(vars[j] == (Some(pairs[j].0), Some(pairs[j].1)));
    }
    lemma_map_of_value(pairs, i);
}

/// Reads the variable `name`.
pub fn get(name: String, host: &Platform) -> (r: Result<String, EnvError>)
    ensures
        match r {
            Ok(value) => text_of(host@, name@) == Ok::<Seq<char>, EnvErrorView>(value@),
            Err(e) => text_of(host@, name@) == Err::<Seq<char>, EnvErrorView>(e@),
        },
{
    match host.var(&name) {
        Some(OsText::Text(value)) => Ok(value),
        Some(OsText::NotText) => Err(EnvError::InvalidUnicode(name)),
        None => Err(EnvError::NotFound(name)),
    }
}

/// Reads the search path and splits it at every `:`. Empty pieces stay.
pub fn get_path(host: &Platform) -> (r: Result<Vec<String>, EnvError>)
    ensures
        match r {
            Ok(dirs) => search_path(host@) == Ok::<Seq<Seq<char>>, EnvErrorView>(dirs.deep_view()),
            Err(e) => search_path(host@) == Err::<Seq<Seq<char>>, EnvErrorView>(e@),
        },
{
    match get(String::from_str("PATH"), host) {
        Ok(value) => Ok(split_on(value.as_str(), ':')),
        Err(e) => Err(e),
    }
}

/// The captured entries of an environment with one entry for each name.
pub open spec fn capture_unique(vars: Seq<(Option<Seq<char>>, Option<Seq<char>>)>) -> Result<
    Seq<(Seq<char>, Seq<char>)>,
    EnvErrorView,
> {
    match capture(vars) {
        Ok(pairs) => Ok(unique(pairs)),
        Err(e) => Err(e),
    }
}

/// Captures the whole environment: every variable with the value that the
/// platform holds for it.
pub fn get_all(host: &Platform) -> (r: Result<EnvMap, EnvError>)
    ensures
        match r {
            Ok(env) => capture_unique(host@.vars) == Ok::<
                Seq<(Seq<char>, Seq<char>)>,
                EnvErrorView,
            >(env.pairs()) && env.wf(),
            Err(e) => capture_unique(host@.vars) == Err::<
                Seq<(Seq<char>, Seq<char>)>,
                EnvErrorView,
            >(e@),
        },
{
    let mut result = EnvMap::new();
    let count: usize = host.var_count();
    let mut i: usize = 0;
    assert(host@.vars.take(0) =~= Seq::empty());
    while i < count
        invariant
            i <= count,
            count == host@.vars.len(),
            result.wf(),
            capture_unique(host@.vars.take(i as int)) == Ok::<
                Seq<(Seq<char>, Seq<char>)>,
                EnvErrorView,
            >(result.pairs()),
        decreases count - i,
    {
        let ghost seen = host@.vars.take(i + 1);
        let ghost kept = capture(host@.vars.take(i as int))->Ok_0;
        assert(seen.drop_last() =~= host@.vars.take(i as int));
        assert(seen.last() == host@.vars[i as int]);
        let (key, val) = host.var_at(i);
        match key {
            OsText::Text(envkey) => match val {
                OsText::Text(envval) => {
                    result.insert(envkey.clone(), envval.clone());
                    assert(kept.push((envkey@, envval@)).drop_last() =~= kept);
                },
                OsText::NotText => {
                    proof {
                        lemma_capture_fails(host@.vars, i + 1);
                    }
                    return Err(EnvError::InvalidUnicode(envkey.clone()));
                },
            },
            OsText::NotText => {
                proof {
                    lemma_capture_fails(host@.vars, i + 1);
                }
                return Err(EnvError::InvalidUnicode(String::from_str("<key>")));
            },
        }
        i += 1;
    }
    assert(host@.vars.take(count as int) =~= host@.vars);
    Ok(result)
}

/// A capture that fails on a prefix fails in the same way on the whole.
proof fn lemma_capture_fails(vars: Seq<(Option<Seq<char>>, Option<Seq<char>>)>, n: int)
    requires
        0 <= n <= vars.len(),
        capture(vars.take(n)) is Err,
    ensures
        capture(vars) == capture(vars.take(n)),
    decreases vars.len() - n,
{
    if n < vars.len() {
        let next = vars.take(n + 1);
        assert(next.drop_last() =~= vars.take(n));
        lemma_capture_fails(vars, n + 1);
    } else {
        assert(vars.take(n) =~= vars);
    }
}

} // verus!
