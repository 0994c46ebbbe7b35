//! Text operations that the rest of the crate is stated over.

use vstd::prelude::*;

verus! {

/// The pieces of `s` between occurrences of `sep`, in order. There is always
/// one piece more than there are separators, so two separators in a row, or
/// one at either end, give an empty piece.
pub open spec fn split(s: Seq<char>, sep: char) -> Seq<Seq<char>>
    decreases s.len(),
{
    if s.len() == 0 {
        seq![Seq::empty()]
    } else {
        let before = split(s.drop_last(), sep);
        if s.last() == sep {
            before.push(Seq::empty())
        } else {
            before.drop_last().push(before.last().push(s.last()))
        }
    }
}

/// The pieces put together again, with `sep` between neighbours.
pub open spec fn join(pieces: Seq<Seq<char>>, sep: char) -> Seq<char>
    decreases pieces.len(),
{
    if pieces.len() == 0 {
        Seq::empty()
    } else if pieces.len() == 1 {
        pieces[0]
    } else {
        join(pieces.drop_last(), sep).push(sep) + pieces.last()
    }
}

/// Splitting loses nothing: no piece holds the separator, and joining the
/// pieces gives the text back.
pub proof fn lemma_split_join(s: Seq<char>, sep: char)
    ensures
        split(s, sep).len() >= 1,
        forall|i: int| 0 <= i < split(s, sep).len() ==> !(#[trigger] split(s, sep)[i]).contains(sep),
        join(split(s, sep), sep) == s,
    decreases s.len(),
{
    if s.len() == 0 {
        assert(join(split(s, sep), sep) =~= s);
    } else {
        let before = split(s.drop_last(), sep);
        lemma_split_join(s.drop_last(), sep);
        if s.last() == sep {
            let all = before.push(Seq::empty());
            assert(all.drop_last() =~= before);
            assert(join(all, sep) =~= s);
        } else {
            let grown = before.last().push(s.last());
            let all = before.drop_last().push(grown);
            assert forall|i: int| 0 <= i < all.len() implies !(#[trigger] all[i]).contains(sep) by {
                if i == all.len() - 1 {
                    assert(!before.last().contains(sep));
                    if grown.contains(sep) {
                        let k = choose|k: int| 0 <= k < grown.len() && grown[k] == sep;
                        if k < before.last().len() {
                            assert(before.last()[k] == sep);
                        }
                    }
                } else {
                    assert(all[i] == before[i]);
                }
            }
            if before.len() == 1 {
                assert(join(all, sep) =~= s);
            } else {
                assert(all.drop_last() =~= before.drop_last());
                assert(all.last() == grown);
                assert(s =~= s.drop_last().push(s.last()));
                assert(join(all, sep) == join(before.drop_last(), sep).push(sep) + grown);
                assert(join(all, sep) =~= s);
            }
        }
    }
}

/// The path of the entry `name` inside the directory `dir`.
pub open spec fn child(dir: Seq<char>, name: Seq<char>) -> Seq<char> {
    dir.push('/') + name
}

/// A path says in which directory an entry is and how the entry is called:
/// two directories and two names without a slash that give the same path are
/// the same directory and the same name.
pub proof fn lemma_child_injective(dir: Seq<char>, name: Seq<char>, other: Seq<char>, entry: Seq<char>)
    requires
        child(dir, name) == child(other, entry),
        !name.contains('/'),
        !entry.contains('/'),
    ensures
        dir == other,
        name == entry,
{
    let path = child(dir, name);
    let also = child(other, entry);
    assert(path.len() == dir.len() + 1 + name.len());
    assert(also.len() == other.len() + 1 + entry.len());
    if name.len() < entry.len() {
        assert(path[dir.len() as int] == '/');
        assert(also[dir.len() as int] == entry[dir.len() - other.len() - 1]);
    } else if entry.len() < name.len() {
        assert(also[other.len() as int] == '/');
        assert(path[other.len() as int] == name[other.len() - dir.len() - 1]);
    } else {
        assert forall|i: int| 0 <= i < name.len() implies name[i] == entry[i] by {
            assert(path[dir.len() + 1 + i] == name[i]);
            assert(also[other.len() + 1 + i] == entry[i]);
        }
        assert(name =~= entry);
        assert forall|i: int| 0 <= i < dir.len() implies dir[i] == other[i] by {
            assert(path[i] == dir[i]);
            assert(also[i] == other[i]);
        }
        assert(dir =~= other);
    }
}

/// Splits `s` at every `sep`.
pub fn split_on(s: &str, sep: char) -> (r: Vec<String>)
    ensures
        r.deep_view() == split(s@, sep),
{
    let len: usize = s.unicode_len();
    let mut out: Vec<String> = Vec::new();
    let mut start: usize = 0;
    let mut i: usize = 0;
    assert(s@.take(0) =~= Seq::empty());
    assert(out.deep_view().push(s@.subrange(0, 0)) =~= seq![Seq::empty()]);
    for c in it: s.chars()
        invariant
            it.seq() == s@,
            len == s@.len(),
            i == it.index(),
            start <= i,
            split(s@.take(i as int), sep) == out.deep_view().push(
                s@.subrange(start as int, i as int),
            ),
    {
        let ghost seen = s@.take(i + 1);
        let ghost before = out.deep_view().push(s@.subrange(start as int, i as int));
        assert(seen.drop_last() =~= s@.take(i as int));
        assert(seen.last() == c);
        if c == sep {
            let piece = s.substring_char(start, i);
            let ghost old_out = out.deep_view();
            out.push(piece.to_owned());
            assert(out.deep_view() =~= old_out.push(piece@));
            start = i + 1;
            assert(s@.subrange(start as int, i + 1) =~= Seq::empty());
        } else {
            assert(before.drop_last() =~= out.deep_view());
            assert(before.last().push(c) =~= s@.subrange(start as int, i + 1));
        }
        i += 1;
    }
    assert(s@.take(len as int) =~= s@);
    let piece = s.substring_char(start, len);
    let ghost old_out = out.deep_view();
    out.push(piece.to_owned());
    assert(out.deep_view() =~= old_out.push(piece@));
    out
}

/// Builds the path of `name` inside `dir`.
pub fn join_path(dir: &str, name: &str) -> (r: String)
    ensures
        r@ == child(dir@, name@),
{
    proof {
        reveal_strlit("/");
    }
    let r = dir.to_owned().concat("/").concat(name);
    assert(r@ =~= child(dir@, name@));
    r
}

/// Whether `a` comes before `b` in lexical order: text is compared character
/// by character, by code point, and a text comes before every longer text
/// that starts with it.
pub open spec fn before(a: Seq<char>, b: Seq<char>) -> bool
    decreases a.len(),
{
    if b.len() == 0 {
        false
    } else if a.len() == 0 {
        true
    } else if a[0] == b[0] {
        before(a.drop_first(), b.drop_first())
    } else {
        a[0] < b[0]
    }
}

/// No text comes before itself.
pub proof fn lemma_before_irreflexive(a: Seq<char>)
    ensures
        !before(a, a),
    decreases a.len(),
{
    if a.len() > 0 {
        lemma_before_irreflexive(a.drop_first());
    }
}

/// What comes before a text comes before everything that the text comes before.
pub proof fn lemma_before_transitive(a: Seq<char>, b: Seq<char>, c: Seq<char>)
    requires
        before(a, b),
        before(b, c),
    ensures
        before(a, c),
    decreases a.len(),
{
    if a.len() > 0 && a[0] == b[0] && b[0] == c[0] {
        lemma_before_transitive(a.drop_first(), b.drop_first(), c.drop_first());
    }
}

/// Of two different texts one comes before the other.
pub proof fn lemma_before_total(a: Seq<char>, b: Seq<char>)
    requires
        a != b,
    ensures
        before(a, b) || before(b, a),
    decreases a.len(),
{
    if a.len() > 0 && b.len() > 0 && a[0] == b[0] {
        if a.drop_first() == b.drop_first() {
            assert(a =~= seq![a[0]] + a.drop_first());
            assert(b =~= seq![b[0]] + b.drop_first());
        }
        lemma_before_total(a.drop_first(), b.drop_first());
    } else if a.len() == 0 && b.len() == 0 {
        assert(a =~= b);
    } else if a.len() > 0 && b.len() > 0 {
        assert(a[0] < b[0] || b[0] < a[0]);
    }
}

/// Whether `a` comes before `b` in lexical order.
pub fn is_before(a: &str, b: &str) -> (r: bool)
    ensures
        r == before(a@, b@),
{
    let la: usize = a.unicode_len();
    let lb: usize = b.unicode_len();
    let mut i: usize = 0;
    assert(a@.skip(0) =~= a@);
    assert(b@.skip(0) =~= b@);
    while i < la && i < lb
        invariant
            i <= la,
            i <= lb,
            la == a@.len(),
            lb == b@.len(),
            before(a@, b@) == before(a@.skip(i as int), b@.skip(i as int)),
        decreases la - i,
    {
        let ca = a.get_char(i);
        let cb = b.get_char(i);
        assert(a@.skip(i as int)[0] == ca);
        assert(b@.skip(i as int)[0] == cb);
        if ca != cb {
            return ca < cb;
        }
        assert(a@.skip(i as int).drop_first() =~= a@.skip(i + 1));
        assert(b@.skip(i as int).drop_first() =~= b@.skip(i + 1));
        i += 1;
    }
    i < lb
}

/// Whether `s` begins with `prefix`.
pub open spec fn starts_with(s: Seq<char>, prefix: Seq<char>) -> bool {
    prefix.len() <= s.len() && s.take(prefix.len() as int) == prefix
}

/// What follows `prefix` in `s`, where `s` begins with it.
pub fn rest_after(s: &str, prefix: &str) -> (r: Option<String>)
    ensures
        r is Some <==> starts_with(s@, prefix@),
        r matches Some(rest) ==> rest@ == s@.skip(prefix@.len() as int) && s@ == prefix@ + rest@,
{
    let ls: usize = s.unicode_len();
    let lp: usize = prefix.unicode_len();
    if lp > ls {
        return None;
    }
    let mut i: usize = 0;
    while i < lp
        invariant
            i <= lp,
            lp <= ls,
            ls == s@.len(),
            lp == prefix@.len(),
            forall|j: int| 0 <= j < i ==> s@[j] == prefix@[j],
        decreases lp - i,
    {
        if s.get_char(i) != prefix.get_char(i) {
            assert(s@.take(lp as int)[i as int] != prefix@[i as int]);
            return None;
        }
        i += 1;
    }
    assert(s@.take(lp as int) =~= prefix@);
    let rest = s.substring_char(lp, ls);
    assert(rest@ =~= s@.skip(lp as int));
    assert(s@ =~= prefix@ + rest@);
    Some(rest.to_owned())
}

/// Whether `c` occurs in `s`.
pub fn has_char(s: &str, c: char) -> (r: bool)
    ensures
        r == s@.contains(c),
{
    let len: usize = s.unicode_len();
    let mut i: usize = 0;
    while i < len
        invariant
            i <= len,
            len == s@.len(),
            forall|j: int| 0 <= j < i ==> s@[j] != c,
        decreases len - i,
    {
        if s.get_char(i) == c {
            assert(s@[i as int] == c);
            return true;
        }
        i += 1;
    }
    false
}

} // verus!
