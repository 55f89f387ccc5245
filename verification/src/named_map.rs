//! A map keyed by name, kept as a list without duplicate names.

use vstd::prelude::*;

use crate::actor::ActorPath;
use crate::schema::SchemaId;

verus! {

/// A key that stands for a name.
pub trait Key: View<V = Seq<char>> + Sized {
    /// Whether two keys have the same name.
    fn same(&self, other: &Self) -> (r: bool)
        ensures
            r == (self@ == other@),
    ;

    /// Copies the key.
    fn copy(&self) -> (key: Self)
        ensures
            key == *self,
    ;
}

impl Key for ActorPath {
    fn same(&self, other: &Self) -> (r: bool) {
        ActorPath::same(self, other)
    }

    fn copy(&self) -> (key: Self) {
        self.clone()
    }
}

impl Key for SchemaId {
    fn same(&self, other: &Self) -> (r: bool) {
        SchemaId::same(self, other)
    }

    fn copy(&self) -> (key: Self) {
        self.clone()
    }
}

/// A map keyed by name.
pub struct NamedMap<K: Key, T> {
    items: Vec<(K, T)>,
}

/// A map keyed by actor path.
pub type PathMap<T> = NamedMap<ActorPath, T>;

/// A map keyed by schema.
pub type SchemaMap<T> = NamedMap<SchemaId, T>;

/// Whether `after` maps `path` to something and is otherwise `before`.
pub open spec fn only_changes<T>(before: Map<Seq<char>, T>, path: Seq<char>, after: Map<Seq<char>, T>) -> bool {
    after.dom().contains(path) && after.remove(path) == before.remove(path)
}

/// Every path but the changed one maps to what it mapped to.
pub proof fn lemma_others_kept<T>(before: Map<Seq<char>, T>, path: Seq<char>, after: Map<Seq<char>, T>)
    requires
        only_changes(before, path, after),
    ensures
        forall|p: Seq<char>|
            p != path ==> (#[trigger] after.dom().contains(p) <==> before.dom().contains(p)),
        forall|p: Seq<char>| p != path && before.dom().contains(p) ==> #[trigger] after[p] == before[p],
{
    assert forall|p: Seq<char>| p != path implies (#[trigger] after.dom().contains(p) <==> before.dom().contains(
        p,
    )) by {
        assert(after.remove(path).dom().contains(p) <==> after.dom().contains(p));
        assert(before.remove(path).dom().contains(p) <==> before.dom().contains(p));
    }
    assert forall|p: Seq<char>| p != path && before.dom().contains(p) implies #[trigger] after[p] == before[p] by {
        assert(before.remove(path)[p] == before[p]);
        assert(after.remove(path)[p] == after[p]);
    }
}

/// Whether no path occurs twice in a list of pairs.
spec fn distinct_keys<K: Key, T>(items: Seq<(K, T)>) -> bool {
    forall|i: int, j: int|
        0 <= i < j < items.len() ==> (#[trigger] items[i]).0@ != (#[trigger] items[j]).0@
}

/// Whether a path occurs in a list of pairs.
spec fn has_key<K: Key, T>(items: Seq<(K, T)>, path: Seq<char>) -> bool {
    exists|i: int| 0 <= i < items.len() && (#[trigger] items[i]).0@ == path
}

/// The map that a list of pairs stands for.
spec fn pairs_map<K: Key, T>(items: Seq<(K, T)>) -> Map<Seq<char>, T> {
    Map::new(
        |path: Seq<char>| has_key(items, path),
        |path: Seq<char>|
            {
                let i = choose|i: int| 0 <= i < items.len() && (#[trigger] items[i]).0@ == path;
                items[i].1
            },
    )
}

/// A path of a list without duplicates maps to the value beside it.
proof fn lemma_pair_at<K: Key, T>(items: Seq<(K, T)>, i: int)
    requires
        distinct_keys(items),
        0 <= i < items.len(),
    ensures
        pairs_map(items).dom().contains(items[i].0@),
        pairs_map(items)[items[i].0@] == items[i].1,
{
    let path = items[i].0@;
    assert(has_key(items, path));
    let at = choose|at: int| 0 <= at < items.len() && (#[trigger] items[at]).0@ == path;
    if at < i {
        assert(items[at].0@ != items[i].0@);
    } else if i < at {
        assert(items[i].0@ != items[at].0@);
    }
}

impl<K: Key, T> View for NamedMap<K, T> {
    type V = Map<Seq<char>, T>;

    closed spec fn view(&self) -> Map<Seq<char>, T> {
        pairs_map(self.items@)
    }
}

impl<K: Key, T> NamedMap<K, T> {
    #[verifier::type_invariant]
    spec fn inv(self) -> bool {
        distinct_keys(self.items@)
    }

    /// The pairs in the order they are walked.
    pub closed spec fn pairs(&self) -> Seq<(K, T)> {
        self.items@
    }

    /// An empty map.
    pub fn new() -> (map: Self)
        ensures
            map@ == Map::<Seq<char>, T>::empty(),
            map.pairs().len() == 0,
    {
        let map = NamedMap { items: Vec::new() };
        assert(map@ =~= Map::<Seq<char>, T>::empty());
        map
    }

    /// The number of paths.
    pub fn len(&self) -> (n: usize)
        ensures
            n == self.pairs().len(),
            forall|i: int, j: int|
                0 <= i < j < self.pairs().len() ==> (#[trigger] self.pairs()[i]).0@ != (
                #[trigger] self.pairs()[j]).0@,
    {
        proof {
            use_type_invariant(self);
        }
        self.items.len()
    }

    /// The pair at a place of the walk.
    pub fn at(&self, i: usize) -> (pair: &(K, T))
        requires
            i < self.pairs().len(),
        ensures
            *pair == self.pairs()[i as int],
            self@.dom().contains(pair.0@),
            self@[pair.0@] == pair.1,
    {
        proof {
            use_type_invariant(self);
            lemma_pair_at(self.items@, i as int);
        }
        &self.items[i]
    }

    /// The pairs walked are the map: each path once, and none left out.
    pub proof fn lemma_pairs(&self, path: Seq<char>)
        ensures
            self@.dom().contains(path) <==> exists|i: int|
                0 <= i < self.pairs().len() && (#[trigger] self.pairs()[i]).0@ == path,
    {
        let items = self.items@;
        if has_key(items, path) {
            let i = choose|i: int| 0 <= i < items.len() && (#[trigger] items[i]).0@ == path;
            assert(self.pairs()[i].0@ == path);
        }
        if exists|i: int| 0 <= i < self.pairs().len() && (#[trigger] self.pairs()[i]).0@ == path {
            let i = choose|i: int| 0 <= i < self.pairs().len() && (#[trigger] self.pairs()[i]).0@ == path;
            assert(items[i].0@ == path);
        }
    }

    /// The map gives a walked path the value beside it.
    pub proof fn lemma_pair(&self, i: int)
        requires
            0 <= i < self.pairs().len(),
            forall|x: int, y: int|
                0 <= x < y < self.pairs().len() ==> (#[trigger] self.pairs()[x]).0@ != (
                #[trigger] self.pairs()[y]).0@,
        ensures
            self@.dom().contains(self.pairs()[i].0@),
            self@[self.pairs()[i].0@] == self.pairs()[i].1,
    {
        lemma_pair_at(self.items@, i);
    }

    /// The place of a path.
    fn find(&self, path: &K) -> (at: Option<usize>)
        ensures
            match at {
                Some(i) => i < self.items@.len() && self.items@[i as int].0@ == path@,
                None => !has_key(self.items@, path@),
            },
    {
        let mut i: usize = 0;
        while i < self.items.len()
            invariant
                i <= self.items.len(),
                forall|j: int| 0 <= j < i ==> (#[trigger] self.items@[j]).0@ != path@,
            decreases self.items.len() - i,
        {
            if self.items[i].0.same(path) {
                return Some(i);
            }
            i += 1;
        }
        None
    }

    /// The value of a path.
    pub fn get(&self, path: &K) -> (value: Option<&T>)
        ensures
            match value {
                Some(value) => self@.dom().contains(path@) && self@[path@] == *value,
                None => !self@.dom().contains(path@),
            },
    {
        match self.find(path) {
            Some(i) => {
                proof {
                    use_type_invariant(self);
                    lemma_pair_at(self.items@, i as int);
                }
                Some(&self.items[i].1)
            },
            None => None,
        }
    }

    /// Whether a path is mapped.
    pub fn contains(&self, path: &K) -> (r: bool)
        ensures
            r == self@.dom().contains(path@),
    {
        self.get(path).is_some()
    }

    /// Removes a path and gives its value back.
    pub fn take(&mut self, path: &K) -> (value: Option<T>)
        ensures
            final(self)@ == old(self)@.remove(path@),
            match value {
                Some(value) => old(self)@.dom().contains(path@) && old(self)@[path@] == value,
                None => !old(self)@.dom().contains(path@),
            },
            final(self).pairs().len() == if old(self)@.dom().contains(path@) {
                old(self).pairs().len() - 1
            } else {
                old(self).pairs().len() as int
            },
    {
        proof {
            use_type_invariant(&*self);
        }
        let ghost before = self.items@;
        match self.find(path) {
            Some(i) => {
                proof {
                    lemma_pair_at(before, i as int);
                }
                let mut items: Vec<(K, T)> = Vec::new();
                std::mem::swap(&mut items, &mut self.items);
                let (_path, value) = items.remove(i);
                let ghost after = before.remove(i as int);
                proof {
                    assert(items@ == after);
                    assert forall|j: int, k: int| 0 <= j < k < after.len() implies (#[trigger] after[j]).0@ != (
                    #[trigger] after[k]).0@ by {
                        let x = if j < i {
                            j
                        } else {
                            j + 1
                        };
                        let y = if k < i {
                            k
                        } else {
                            k + 1
                        };
                        assert(after[j] == before[x] && after[k] == before[y]);
                    }
                    lemma_removed(before, i as int);
                }
                std::mem::swap(&mut items, &mut self.items);
                Some(value)
            },
            None => {
                assert(self@ =~= self@.remove(path@));
                None
            },
        }
    }

    /// Removes the last pair of the walk.
    pub fn pop(&mut self) -> (pair: Option<(K, T)>)
        ensures
            match pair {
                Some(pair) => {
                    &&& old(self)@.dom().contains(pair.0@)
                    &&& old(self)@[pair.0@] == pair.1
                    &&& final(self)@ == old(self)@.remove(pair.0@)
                    &&& final(self).pairs().len() == old(self).pairs().len() - 1
                },
                None => old(self)@ == Map::<Seq<char>, T>::empty() && *final(self) == *old(self),
            },
    {
        proof {
            use_type_invariant(&*self);
        }
        let ghost before = self.items@;
        if self.items.len() == 0 {
            assert(self@ =~= Map::<Seq<char>, T>::empty());
            return None;
        }
        let mut items: Vec<(K, T)> = Vec::new();
        std::mem::swap(&mut items, &mut self.items);
        let pair = items.pop();
        proof {
            let i = before.len() - 1;
            assert(items@ =~= before.remove(i));
            assert forall|j: int, k: int| 0 <= j < k < items@.len() implies (#[trigger] items@[j]).0@ != (
            #[trigger] items@[k]).0@ by {
                assert(items@[j] == before[j] && items@[k] == before[k]);
            }
            lemma_pair_at(before, i);
            lemma_removed(before, i);
        }
        std::mem::swap(&mut items, &mut self.items);
        pair
    }

    /// Maps a path to a value, giving the value it had back.
    pub fn put(&mut self, path: &K, value: T) -> (previous: Option<T>)
        ensures
            final(self)@ == old(self)@.insert(path@, value),
            match previous {
                Some(previous) => old(self)@.dom().contains(path@) && old(self)@[path@] == previous,
                None => !old(self)@.dom().contains(path@),
            },
            final(self).pairs().len() == if old(self)@.dom().contains(path@) {
                old(self).pairs().len()
            } else {
                old(self).pairs().len() + 1
            },
    {
        let ghost map = self@;
        let previous = self.take(path);
        let ghost before = self.items@;
        proof {
            use_type_invariant(&*self);
            assert(!pairs_map(before).dom().contains(path@));
            assert(!has_key(before, path@));
        }
        let mut items: Vec<(K, T)> = Vec::new();
        std::mem::swap(&mut items, &mut self.items);
        items.push((path.copy(), value));
        let ghost after = before.push((*path, value));
        proof {
            assert(items@ == after);
            assert forall|j: int, k: int| 0 <= j < k < after.len() implies (#[trigger] after[j]).0@ != (
            #[trigger] after[k]).0@ by {
                assert(after[j] == before[j]);
                if k < before.len() {
                    assert(after[k] == before[k]);
                }
            }
            lemma_pushed(before, (*path, value));
        }
        std::mem::swap(&mut items, &mut self.items);
        assert(map.remove(path@).insert(path@, value) =~= map.insert(path@, value));
        previous
    }
}

/// Removing a pair of a list without duplicates removes its path from the map.
proof fn lemma_removed<K: Key, T>(items: Seq<(K, T)>, i: int)
    requires
        distinct_keys(items),
        0 <= i < items.len(),
        distinct_keys(items.remove(i)),
    ensures
        pairs_map(items.remove(i)) == pairs_map(items).remove(items[i].0@),
{
    let after = items.remove(i);
    let gone = items[i].0@;
    assert forall|path: Seq<char>| #[trigger] pairs_map(after).dom().contains(path) <==> pairs_map(items).remove(
        gone,
    ).dom().contains(path) by {
        if has_key(after, path) {
            let j = choose|j: int| 0 <= j < after.len() && (#[trigger] after[j]).0@ == path;
            let x = if j < i {
                j
            } else {
                j + 1
            };
            assert(items[x] == after[j]);
            if x < i {
                assert(items[x].0@ != items[i].0@);
            } else {
                assert(items[i].0@ != items[x].0@);
            }
        }
        if has_key(items, path) && path != gone {
            let x = choose|x: int| 0 <= x < items.len() && (#[trigger] items[x]).0@ == path;
            let j = if x < i {
                x
            } else {
                x - 1
            };
            assert(after[j] == items[x]);
        }
    }
    assert forall|path: Seq<char>| #[trigger] pairs_map(after).dom().contains(path) implies pairs_map(after)[path]
        == pairs_map(items).remove(gone)[path] by {
        let j = choose|j: int| 0 <= j < after.len() && (#[trigger] after[j]).0@ == path;
        let x = if j < i {
            j
        } else {
            j + 1
        };
        assert(items[x] == after[j]);
        lemma_pair_at(after, j);
        lemma_pair_at(items, x);
    }
    assert(pairs_map(after) =~= pairs_map(items).remove(gone));
}

/// Adding a pair of a new path adds the path to the map.
proof fn lemma_pushed<K: Key, T>(items: Seq<(K, T)>, pair: (K, T))
    requires
        distinct_keys(items),
        distinct_keys(items.push(pair)),
    ensures
        pairs_map(items.push(pair)) == pairs_map(items).insert(pair.0@, pair.1),
{
    let after = items.push(pair);
    let n = items.len() as int;
    assert(after[n] == pair);
    assert forall|path: Seq<char>| #[trigger] pairs_map(after).dom().contains(path) <==> pairs_map(items).insert(
        pair.0@,
        pair.1,
    ).dom().contains(path) by {
        if has_key(after, path) {
            let j = choose|j: int| 0 <= j < after.len() && (#[trigger] after[j]).0@ == path;
            if j < n {
                assert(items[j] == after[j]);
            }
        }
        if has_key(items, path) {
            let j = choose|j: int| 0 <= j < items.len() && (#[trigger] items[j]).0@ == path;
            assert(after[j] == items[j]);
        }
    }
    assert forall|path: Seq<char>| #[trigger] pairs_map(after).dom().contains(path) implies pairs_map(after)[path]
        == pairs_map(items).insert(pair.0@, pair.1)[path] by {
        let j = choose|j: int| 0 <= j < after.len() && (#[trigger] after[j]).0@ == path;
        lemma_pair_at(after, j);
        if j < n {
            assert(items[j] == after[j]);
            assert(after[j].0@ != after[n].0@);
            lemma_pair_at(items, j);
        }
    }
    assert(pairs_map(after) =~= pairs_map(items).insert(pair.0@, pair.1));
}

} // verus!
