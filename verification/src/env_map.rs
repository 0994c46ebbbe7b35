//! A map from variable names to values.

use vstd::prelude::*;

verus! {

/// The map that a sequence of entries stands for: of two entries with one
/// name, the later one holds.
pub open spec fn map_of(pairs: Seq<(Seq<char>, Seq<char>)>) -> Map<Seq<char>, Seq<char>>
    decreases pairs.len(),
{
    if pairs.len() == 0 {
        Map::empty()
    } else {
        map_of(pairs.drop_last()).insert(pairs.last().0, pairs.last().1)
    }
}

/// A name is in the map exactly when some entry has it.
pub proof fn lemma_map_of(pairs: Seq<(Seq<char>, Seq<char>)>, name: Seq<char>)
    ensures
        map_of(pairs).dom().finite(),
        map_of(pairs).contains_key(name) <==> exists|i: int|
            0 <= i < pairs.len() && (#[trigger] pairs[i]).0 == name,
    decreases pairs.len(),
{
    if pairs.len() > 0 {
        let init = pairs.drop_last();
        lemma_map_of(init, name);
        if map_of(pairs).contains_key(name) {
            if pairs.last().0 == name {
                assert(pairs[pairs.len() - 1].0 == name);
            } else {
                let i = choose|i: int| 0 <= i < init.len() && (#[trigger] init[i]).0 == name;
                assert(pairs[i].0 == name);
            }
        }
        if exists|i: int| 0 <= i < pairs.len() && (#[trigger] pairs[i]).0 == name {
            let i = choose|i: int| 0 <= i < pairs.len() && (#[trigger] pairs[i]).0 == name;
            if i < init.len() {
                assert(init[i].0 == name);
            }
        }
    }
}

/// The value of a name is that of the last entry with the name.
pub proof fn lemma_map_of_value(pairs: Seq<(Seq<char>, Seq<char>)>, i: int)
    requires
        0 <= i < pairs.len(),
        forall|j: int| i < j < pairs.len() ==> (#[trigger] pairs[j]).0 != pairs[i].0,
    ensures
        map_of(pairs).contains_key(pairs[i].0),
        map_of(pairs)[pairs[i].0] == pairs[i].1,
    decreases pairs.len(),
{
    if i < pairs.len() - 1 {
        let init = pairs.drop_last();
        assert(pairs[pairs.len() - 1].0 != pairs[i].0);
        assert forall|j: int| i < j < init.len() implies (#[trigger] init[j]).0 != init[i].0 by {
            assert(pairs[j].0 != pairs[i].0);
        }
        lemma_map_of_value(init, i);
    }
}

/// No name occurs twice.
pub open spec fn distinct_names(pairs: Seq<(Seq<char>, Seq<char>)>) -> bool {
    forall|i: int, j: int| 0 <= i < j < pairs.len() ==> pairs[i].0 != pairs[j].0
}

/// Where the last entry named `name` stands, if there is one.
pub open spec fn index_of(pairs: Seq<(Seq<char>, Seq<char>)>, name: Seq<char>) -> Option<int>
    decreases pairs.len(),
{
    if pairs.len() == 0 {
        None
    } else if pairs.last().0 == name {
        Some(pairs.len() - 1)
    } else {
        index_of(pairs.drop_last(), name)
    }
}

/// The entries once `name` has been given the value `value`: the entry of
/// that name is replaced where it stands, and a new name goes to the end.
pub open spec fn upsert(pairs: Seq<(Seq<char>, Seq<char>)>, name: Seq<char>, value: Seq<char>) -> Seq<
    (Seq<char>, Seq<char>),
> {
    match index_of(pairs, name) {
        Some(i) => pairs.update(i, (name, value)),
        None => pairs.push((name, value)),
    }
}

/// The entries once every entry of `more` has been given, in order.
pub open spec fn upsert_all(
    pairs: Seq<(Seq<char>, Seq<char>)>,
    more: Seq<(Seq<char>, Seq<char>)>,
) -> Seq<(Seq<char>, Seq<char>)>
    decreases more.len(),
{
    if more.len() == 0 {
        pairs
    } else {
        upsert(upsert_all(pairs, more.drop_last()), more.last().0, more.last().1)
    }
}

/// The entries of `pairs` with one entry for each name: the place is that of
/// the name's first entry, the value that of its last.
pub open spec fn unique(pairs: Seq<(Seq<char>, Seq<char>)>) -> Seq<(Seq<char>, Seq<char>)> {
    upsert_all(Seq::empty(), pairs)
}

/// What `index_of` finds: the last entry of the name, or that there is none.
pub proof fn lemma_index_of(pairs: Seq<(Seq<char>, Seq<char>)>, name: Seq<char>)
    ensures
        match index_of(pairs, name) {
            Some(i) => 0 <= i < pairs.len() && pairs[i].0 == name && forall|j: int|
                i < j < pairs.len() ==> (#[trigger] pairs[j]).0 != name,
            None => forall|j: int| 0 <= j < pairs.len() ==> (#[trigger] pairs[j]).0 != name,
        },
    decreases pairs.len(),
{
    if pairs.len() > 0 && pairs.last().0 != name {
        let init = pairs.drop_last();
        lemma_index_of(init, name);
        assert forall|j: int| 0 <= j < init.len() implies init[j] == pairs[j] by {}
        match index_of(init, name) {
            Some(i) => {
                assert forall|j: int| i < j < pairs.len() implies (#[trigger] pairs[j]).0 != name by {
                    if j < init.len() {
                        assert(init[j].0 != name);
                    }
                }
            },
            None => {
                assert forall|j: int| 0 <= j < pairs.len() implies (#[trigger] pairs[j]).0
                    != name by {
                    if j < init.len() {
                        assert(init[j].0 != name);
                    }
                }
            },
        }
    }
}

proof fn lemma_update_last(pairs: Seq<(Seq<char>, Seq<char>)>, i: int, value: Seq<char>)
    requires
        0 <= i < pairs.len(),
        forall|j: int| i < j < pairs.len() ==> (#[trigger] pairs[j]).0 != pairs[i].0,
    ensures
        map_of(pairs.update(i, (pairs[i].0, value))) == map_of(pairs).insert(pairs[i].0, value),
    decreases pairs.len(),
{
    let name = pairs[i].0;
    let changed = pairs.update(i, (name, value));
    let init = pairs.drop_last();
    if i == pairs.len() - 1 {
        assert(changed.drop_last() =~= init);
        assert(map_of(changed) =~= map_of(pairs).insert(name, value));
    } else {
        assert forall|j: int| i < j < init.len() implies (#[trigger] init[j]).0 != init[i].0 by {
            assert(pairs[j].0 != pairs[i].0);
        }
        lemma_update_last(init, i, value);
        assert(changed.drop_last() =~= init.update(i, (name, value)));
        assert(changed.last() == pairs.last());
        assert(pairs[pairs.len() - 1].0 != name);
        assert(map_of(changed) =~= map_of(pairs).insert(name, value));
    }
}

/// Giving a name a value is inserting into the map, and keeps every name
/// single where it was.
pub proof fn lemma_upsert(pairs: Seq<(Seq<char>, Seq<char>)>, name: Seq<char>, value: Seq<char>)
    ensures
        map_of(upsert(pairs, name, value)) == map_of(pairs).insert(name, value),
        distinct_names(pairs) ==> distinct_names(upsert(pairs, name, value)),
{
    lemma_index_of(pairs, name);
    let after = upsert(pairs, name, value);
    match index_of(pairs, name) {
        Some(i) => {
            lemma_update_last(pairs, i, value);
            if distinct_names(pairs) {
                assert forall|a: int, b: int| 0 <= a < b < after.len() implies after[a].0
                    != after[b].0 by {
                    assert(pairs[a].0 != pairs[b].0);
                }
            }
        },
        None => {
            assert(after.drop_last() =~= pairs);
            if distinct_names(pairs) {
                assert forall|a: int, b: int| 0 <= a < b < after.len() implies after[a].0
                    != after[b].0 by {
                    if b < pairs.len() {
                        assert(pairs[a].0 != pairs[b].0);
                    } else {
                        assert(pairs[a].0 != name);
                    }
                }
            }
        },
    }
}

/// Giving entries one after the other gives the map of all of them, and
/// keeps every name single where it was.
pub proof fn lemma_upsert_all(pairs: Seq<(Seq<char>, Seq<char>)>, more: Seq<(Seq<char>, Seq<char>)>)
    ensures
        map_of(upsert_all(pairs, more)) == map_of(pairs + more),
        distinct_names(pairs) ==> distinct_names(upsert_all(pairs, more)),
    decreases more.len(),
{
    if more.len() == 0 {
        assert(pairs + more =~= pairs);
    } else {
        lemma_upsert_all(pairs, more.drop_last());
        lemma_upsert(upsert_all(pairs, more.drop_last()), more.last().0, more.last().1);
        assert((pairs + more).drop_last() =~= pairs + more.drop_last());
        assert((pairs + more).last() == more.last());
    }
}

/// Entries made unique stand for the same map, and no name occurs twice.
pub proof fn lemma_unique(pairs: Seq<(Seq<char>, Seq<char>)>)
    ensures
        map_of(unique(pairs)) == map_of(pairs),
        distinct_names(unique(pairs)),
{
    lemma_upsert_all(Seq::empty(), pairs);
    assert(Seq::<(Seq<char>, Seq<char>)>::empty() + pairs =~= pairs);
}

/// Environment variables by name. A map that is made with `new` and filled
/// with `insert` holds every name once, at the place where the name first
/// came in.
#[derive(Debug)]
pub struct EnvMap {
    entries: Vec<(String, String)>,
}

impl View for EnvMap {
    type V = Map<Seq<char>, Seq<char>>;

    open spec fn view(&self) -> Map<Seq<char>, Seq<char>> {
        map_of(self.pairs())
    }
}

impl EnvMap {
    /// The entries in the order in which they are kept.
    pub closed spec fn pairs(&self) -> Seq<(Seq<char>, Seq<char>)> {
        self.entries.deep_view()
    }

    /// No name occurs twice among the entries.
    pub open spec fn wf(&self) -> bool {
        distinct_names(self.pairs())
    }

    /// The empty map.
    pub fn new() -> (r: EnvMap)
        ensures
            r.pairs() == Seq::<(Seq<char>, Seq<char>)>::empty(),
            r@ == Map::<Seq<char>, Seq<char>>::empty(),
            r.wf(),
    {
        let r = EnvMap { entries: Vec::new() };
        assert(r.entries.deep_view() =~= Seq::empty());
        r
    }

    /// The number of entries.
    pub fn len(&self) -> (r: usize)
        ensures
            r == self.pairs().len(),
    {
        self.entries.len()
    }

    /// The entry at `index`.
    pub fn entry(&self, index: usize) -> (r: (&String, &String))
        requires
            index < self.pairs().len(),
        ensures
            (r.0@, r.1@) == self.pairs()[index as int],
    {
        let e = &self.entries[index];
        (&e.0, &e.1)
    }

    /// Whether no name has a value.
    pub fn is_empty(&self) -> (r: bool)
        ensures
            r == (self@ == Map::<Seq<char>, Seq<char>>::empty()),
            r == (self.pairs().len() == 0),
    {
        proof {
            if self.pairs().len() > 0 {
                assert(self@.contains_key(self.pairs().last().0));
            }
        }
        self.entries.len() == 0
    }

    fn position(&self, name: &String) -> (r: Option<usize>)
        ensures
            match r {
                Some(i) => index_of(self.pairs(), name@) == Some(i as int),
                None => index_of(self.pairs(), name@) is None,
            },
    {
        let mut i: usize = self.entries.len();
        assert(self.pairs().take(i as int) =~= self.pairs());
        while i > 0
            invariant
                i <= self.entries.len(),
                index_of(self.pairs(), name@) == index_of(self.pairs().take(i as int), name@),
            decreases i,
        {
            i -= 1;
            let ghost prefix = self.pairs().take(i + 1);
            assert(prefix.last() == self.pairs()[i as int]);
            assert(prefix.drop_last() =~= self.pairs().take(i as int));
            if self.entries[i].0 == *name {
                return Some(i);
            }
        }
        assert(self.pairs().take(0) =~= Seq::empty());
        None
    }

    /// The value of `name`.
    pub fn get(&self, name: &String) -> (r: Option<&String>)
        ensures
            r is Some <==> self@.contains_key(name@),
            r is Some ==> r->Some_0@ == self@[name@],
    {
        proof {
            lemma_map_of(self.pairs(), name@);
            lemma_index_of(self.pairs(), name@);
        }
        match self.position(name) {
            Some(i) => {
                proof {
                    lemma_map_of_value(self.pairs(), i as int);
                }
                Some(&self.entries[i].1)
            },
            None => None,
        }
    }

    /// Whether `name` has a value.
    pub fn contains_key(&self, name: &String) -> (r: bool)
        ensures
            r == self@.contains_key(name@),
    {
        self.get(name).is_some()
    }

    /// Gives `name` the value `value`, whatever it had before.
    pub fn insert(&mut self, name: String, value: String)
        ensures
            final(self).pairs() == upsert(old(self).pairs(), name@, value@),
            final(self)@ == old(self)@.insert(name@, value@),
            old(self).wf() ==> final(self).wf(),
    {
        proof {
            lemma_upsert(self.pairs(), name@, value@);
        }
        let ghost before = self.pairs();
        match self.position(&name) {
            Some(i) => {
                proof {
                    lemma_index_of(before, name@);
                }
                self.entries.set(i, (name, value));
                assert(self.pairs() =~= before.update(i as int, (name@, value@)));
            },
            None => {
                self.entries.push((name, value));
                assert(self.pairs() =~= before.push((name@, value@)));
            },
        }
    }

    /// A copy with the same entries in the same order.
    pub fn duplicate(&self) -> (r: EnvMap)
        ensures
            r.pairs() == self.pairs(),
            r@ == self@,
    {
        let mut copy: Vec<(String, String)> = Vec::new();
        let mut i: usize = 0;
        assert(copy.deep_view() =~= self.entries.deep_view().take(0));
        while i < self.entries.len()
            invariant
                i <= self.entries.len(),
                copy.deep_view() == self.entries.deep_view().take(i as int),
            decreases self.entries.len() - i,
        {
            let ghost before = copy.deep_view();
            copy.push((self.entries[i].0.clone(), self.entries[i].1.clone()));
            assert(copy.deep_view() =~= before.push(self.entries.deep_view()[i as int]));
            assert(copy.deep_view() =~= self.entries.deep_view().take(i + 1));
            i += 1;
        }
        assert(self.entries.deep_view().take(self.entries.len() as int) =~= self.entries.deep_view());
        EnvMap { entries: copy }
    }
}

} // verus!
