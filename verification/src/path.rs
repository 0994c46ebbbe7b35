//! Finding an executable on the search path.

use vstd::prelude::*;
use crate::env_unicode::{get_path, search_path};
use crate::platform::{Platform, PlatformView};
use crate::text::{child, join_path};

verus! {

/// The executable is in no directory of the search path, or there is no
/// search path to look through.
#[derive(Debug, Clone, Copy, PartialEq, Eq)]
pub struct NotInPathError;

impl NotInPathError {
    /// The text that describes the error.
    pub fn message(&self) -> (r: String)
        ensures
            r@ == "not found in PATH env variable"@,
    {
        String::from_str("not found in PATH env variable")
    }
}

/// Where `name` would be in each directory of `dirs`, in the same order.
pub open spec fn candidates_in(dirs: Seq<Seq<char>>, name: Seq<char>) -> Seq<Seq<char>> {
    Seq::new(dirs.len(), |i: int| child(dirs[i], name))
}

/// The paths at which `name` is looked for on `host`, in the order of the
/// search path; none where the search path cannot be read.
pub open spec fn candidates_on(host: PlatformView, name: Seq<char>) -> Seq<Seq<char>> {
    match search_path(host) {
        Ok(dirs) => candidates_in(dirs, name),
        Err(_) => Seq::empty(),
    }
}

/// The first of `paths` at which something exists on `host`.
pub open spec fn first_present(host: PlatformView, paths: Seq<Seq<char>>) -> Option<Seq<char>>
    decreases paths.len(),
{
    if paths.len() == 0 {
        None
    } else if host.present(paths[0]) {
        Some(paths[0])
    } else {
        first_present(host, paths.drop_first())
    }
}

/// What `first_present` gives, by position: the result is the path at the
/// least index at which something exists, and there is no result exactly when
/// nothing exists at any of the paths.
pub proof fn lemma_first_present(host: PlatformView, paths: Seq<Seq<char>>)
    ensures
        first_present(host, paths) is None <==> forall|i: int|
            0 <= i < paths.len() ==> !host.present(#[trigger] paths[i]),
        first_present(host, paths) matches Some(found) ==> exists|k: int|
            0 <= k < paths.len() && #[trigger] paths[k] == found && host.present(found) && forall|
                i: int,
            |
                0 <= i < k ==> !host.present(#[trigger] paths[i]),
    decreases paths.len(),
{
    if paths.len() > 0 {
        let rest = paths.drop_first();
        assert forall|i: int| 0 <= i < rest.len() implies rest[i] == paths[i + 1] by {}
        if host.present(paths[0]) {
            assert(paths[0] == paths[0] && forall|i: int|
                0 <= i < 0 ==> !host.present(#[trigger] paths[i]));
        } else {
            lemma_first_present(host, rest);
            if first_present(host, rest) is None {
                assert forall|i: int| 0 <= i < paths.len() implies !host.present(
                    #[trigger] paths[i],
                ) by {
                    if i > 0 {
                        assert(!host.present(rest[i - 1]));
                    }
                }
            } else {
                let found = first_present(host, rest)->Some_0;
                let k = choose|k: int|
                    0 <= k < rest.len() && #[trigger] rest[k] == found && host.present(found)
                        && forall|i: int| 0 <= i < k ==> !host.present(#[trigger] rest[i]);
                assert(paths[k + 1] == found);
                assert forall|i: int| 0 <= i < k + 1 implies !host.present(#[trigger] paths[i]) by {
                    if i > 0 {
                        assert(!host.present(rest[i - 1]));
                    }
                }
                assert(!(forall|i: int| 0 <= i < paths.len() ==> !host.present(#[trigger] paths[i])))
                    by {
                    assert(host.present(paths[k + 1]));
                }
            }
            if forall|i: int| 0 <= i < paths.len() ==> !host.present(#[trigger] paths[i]) {
                assert forall|i: int| 0 <= i < rest.len() implies !host.present(
                    #[trigger] rest[i],
                ) by {
                    assert(!host.present(paths[i + 1]));
                }
            }
        }
    }
}

/// The paths to look at before `find_in_path` is asked for `name`.
pub fn candidates(name: &String, host: &Platform) -> (r: Vec<String>)
    ensures
        r.deep_view() == candidates_on(host@, name@),
{
    let mut out: Vec<String> = Vec::new();
    match get_path(host) {
        Ok(dirs) => {
            let mut i: usize = 0;
            while i < dirs.len()
                invariant
                    i <= dirs.len(),
                    out.deep_view() == candidates_in(dirs.deep_view(), name@).take(i as int),
                decreases dirs.len() - i,
            {
                let ghost before = out.deep_view();
                out.push(join_path(dirs[i].as_str(), name.as_str()));
                assert(out.deep_view() =~= before.push(child(dirs.deep_view()[i as int], name@)));
                assert(out.deep_view() =~= candidates_in(dirs.deep_view(), name@).take(i + 1));
                i += 1;
            }
            assert(out.deep_view() =~= candidates_in(dirs.deep_view(), name@));
        },
        Err(_) => {
            assert(out.deep_view() =~= Seq::empty());
        },
    }
    out
}

/// Where the search path can be read and some directory of it holds `name`,
/// the search gives the entry in the first such directory.
pub proof fn lemma_found_in_first_directory(host: PlatformView, name: Seq<char>)
    requires
        search_path(host) is Ok,
        exists|k: int|
            0 <= k < search_path(host)->Ok_0.len() && host.present(
                child(#[trigger] search_path(host)->Ok_0[k], name),
            ),
    ensures
        exists|k: int|
            0 <= k < search_path(host)->Ok_0.len() && first_present(host, candidates_on(host, name))
                == Some(child(#[trigger] search_path(host)->Ok_0[k], name)) && host.present(
                child(search_path(host)->Ok_0[k], name),
            ) && forall|i: int|
                0 <= i < k ==> !host.present(child(#[trigger] search_path(host)->Ok_0[i], name)),
{
    let dirs = search_path(host)->Ok_0;
    let paths = candidates_on(host, name);
    lemma_first_present(host, paths);
    let w = choose|k: int| 0 <= k < dirs.len() && host.present(child(#[trigger] dirs[k], name));
    assert(host.present(paths[w]));
    let found = first_present(host, paths)->Some_0;
    let k = choose|k: int|
        0 <= k < paths.len() && #[trigger] paths[k] == found && host.present(found) && forall|
            i: int,
        |
            0 <= i < k ==> !host.present(#[trigger] paths[i]);
    assert(found == child(dirs[k], name));
    assert forall|i: int| 0 <= i < k implies !host.present(child(#[trigger] dirs[i], name)) by {
        assert(!host.present(paths[i]));
    }
}

/// Where no directory of the search path holds `name`, and where the search
/// path cannot be read, the search gives nothing.
pub proof fn lemma_missing_is_not_found(host: PlatformView, name: Seq<char>)
    requires
        search_path(host) is Ok ==> forall|k: int|
            0 <= k < search_path(host)->Ok_0.len() ==> !host.present(
                child(#[trigger] search_path(host)->Ok_0[k], name),
            ),
    ensures
        first_present(host, candidates_on(host, name)) is None,
{
    let paths = candidates_on(host, name);
    lemma_first_present(host, paths);
    if search_path(host) is Ok {
        let dirs = search_path(host)->Ok_0;
        assert forall|i: int| 0 <= i < paths.len() implies !host.present(#[trigger] paths[i]) by {
            assert(!host.present(child(dirs[i], name)));
        }
    }
}

fn search(name: &String, host: &Platform) -> (r: Result<String, NotInPathError>)
    ensures
        match r {
            Ok(found) => first_present(host@, candidates_on(host@, name@)) == Some(found@),
            Err(_) => first_present(host@, candidates_on(host@, name@)) is None,
        },
{
    let paths = candidates(name, host);
    let mut i: usize = 0;
    assert(paths.deep_view().skip(0) =~= paths.deep_view());
    while i < paths.len()
        invariant
            i <= paths.len(),
            paths.deep_view() == candidates_on(host@, name@),
            first_present(host@, paths.deep_view()) == first_present(
                host@,
                paths.deep_view().skip(i as int),
            ),
        decreases paths.len() - i,
    {
        let ghost rest = paths.deep_view().skip(i as int);
        assert(rest[0] == paths[i as int]@);
        assert(rest.drop_first() =~= paths.deep_view().skip(i + 1));
        if host.present(&paths[i]) {
            return Ok(paths[i].clone());
        }
        i += 1;
    }
    Err(NotInPathError)
}

/// Finds `name`: the first directory of the search path, in its order, that
/// holds an entry of that name decides. Whether the entry can be executed is
/// not looked at. The search fails exactly when no directory holds such an
/// entry, which is also so when the search path is not set or is not text.
pub fn find_in_path(name: String, host: &Platform) -> (r: Result<String, NotInPathError>)
    ensures
        match r {
            Ok(found) => first_present(host@, candidates_on(host@, name@)) == Some(found@),
            Err(_) => first_present(host@, candidates_on(host@, name@)) is None,
        },
        r is Err <==> forall|i: int|
            0 <= i < candidates_on(host@, name@).len() ==> !host@.present(
                #[trigger] candidates_on(host@, name@)[i],
            ),
        r matches Ok(found) ==> exists|k: int|
            0 <= k < candidates_on(host@, name@).len() && #[trigger] candidates_on(host@, name@)[k]
                == found@ && host@.present(found@) && forall|i: int|
                0 <= i < k ==> !host@.present(#[trigger] candidates_on(host@, name@)[i]),
{
    proof {
        lemma_first_present(host@, candidates_on(host@, name@));
    }
    search(&name, host)
}

} // verus!
