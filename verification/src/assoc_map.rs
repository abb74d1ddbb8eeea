use vstd::prelude::*;

verus! {

/// A key that can be compared and copied by its view.
pub trait MapKey: View + Sized {
    fn same_key(&self, other: &Self) -> (r: bool)
        ensures
            r == (self@ == other@),
    ;

    fn copy_key(&self) -> (r: Self)
        ensures
            r@ == self@,
    ;
}

impl MapKey for String {
    fn same_key(&self, other: &Self) -> (r: bool) {
        *self == *other
    }

    fn copy_key(&self) -> (r: Self) {
        self.clone()
    }
}

/// A finite map kept as a list of entries with distinct keys.
/// Its view is the mathematical map from the keys' views to the values.
pub struct AssocMap<K: View, V> {
    entries: Vec<(K, V)>,
    map: Ghost<Map<<K as View>::V, V>>,
}

impl<K: View, V> View for AssocMap<K, V> {
    type V = Map<<K as View>::V, V>;

    closed spec fn view(&self) -> Map<<K as View>::V, V> {
        self.map@
    }
}

impl<K: MapKey, V> AssocMap<K, V> {
    /// The entries have distinct keys and hold exactly the pairs of the view.
    pub closed spec fn wf(&self) -> bool {
        &&& forall|i: int, j: int|
            0 <= i < self.entries@.len() && 0 <= j < self.entries@.len() && i != j
                ==> #[trigger] self.entries@[i].0@ != #[trigger] self.entries@[j].0@
        &&& forall|i: int|
            0 <= i < self.entries@.len() ==> {
                &&& self.map@.contains_key(#[trigger] self.entries@[i].0@)
                &&& self.map@[self.entries@[i].0@] == self.entries@[i].1
            }
        &&& forall|k: <K as View>::V| #[trigger]
            self.map@.contains_key(k) ==> exists|i: int|
                0 <= i < self.entries@.len() && #[trigger] self.entries@[i].0@ == k
        &&& self.map@.dom().finite()
        &&& self.map@.dom().len() == self.entries@.len()
    }

    pub fn new() -> (r: Self)
        ensures
            r.wf(),
            r@ == Map::<<K as View>::V, V>::empty(),
    {
        AssocMap { entries: Vec::new(), map: Ghost(Map::empty()) }
    }

    pub fn len(&self) -> (r: usize)
        requires
            self.wf(),
        ensures
            r == self@.len(),
    {
        self.entries.len()
    }

    pub fn is_empty(&self) -> (r: bool)
        requires
            self.wf(),
        ensures
            r == (self@.len() == 0),
            r == (self@ == Map::<<K as View>::V, V>::empty()),
    {
        proof {
            if self.entries@.len() == 0 {
                assert(self@ =~= Map::<<K as View>::V, V>::empty());
            } else {
                assert(self@.contains_key(self.entries@[0].0@));
                assert(!Map::<<K as View>::V, V>::empty().contains_key(self.entries@[0].0@));
            }
        }
        self.entries.len() == 0
    }

    fn index_of(&self, k: &K) -> (r: Option<usize>)
        requires
            self.wf(),
        ensures
            match r {
                Some(i) => i < self.entries@.len() && self.entries@[i as int].0@ == k@,
                None => !self@.contains_key(k@),
            },
    {
        let n = self.entries.len();
        let mut i: usize = 0;
        while i < n
            invariant
                n == self.entries@.len(),
                i <= n,
                forall|j: int| 0 <= j < i ==> self.entries@[j].0@ != k@,
            decreases n - i,
        {
            if self.entries[i].0.same_key(k) {
                return Some(i);
            }
            i = i + 1;
        }
        None
    }

    pub fn contains_key(&self, k: &K) -> (r: bool)
        requires
            self.wf(),
        ensures
            r == self@.contains_key(k@),
    {
        match self.index_of(k) {
            Some(_) => true,
            None => false,
        }
    }

    pub fn get(&self, k: &K) -> (r: Option<&V>)
        requires
            self.wf(),
        ensures
            r is Some == self@.contains_key(k@),
            r matches Some(v) ==> *v == self@[k@],
    {
        match self.index_of(k) {
            Some(i) => Some(&self.entries[i].1),
            None => None,
        }
    }

    /// Sets the value of `k` to `v`, and hands back the value it replaced.
    pub fn insert(&mut self, k: K, v: V) -> (r: Option<V>)
        requires
            old(self).wf(),
        ensures
            final(self).wf(),
            final(self)@ == old(self)@.insert(k@, v),
            r is Some == old(self)@.contains_key(k@),
            r matches Some(o) ==> o == old(self)@[k@],
    {
        let ghost kv = k@;
        match self.index_of(&k) {
            Some(i) => {
                let ghost prev = self.entries@;
                self.entries.push((k, v));
                let (_, o) = self.entries.swap_remove(i);
                proof {
                    assert(self.entries@ =~= prev.update(i as int, (k, v)));
                    self.map@ = self.map@.insert(kv, v);
                    assert(self.map@.dom() =~= old(self).map@.dom());
                    assert forall|kk: <K as View>::V| #[trigger]
                        self.map@.contains_key(kk) implies exists|j: int|
                            0 <= j < self.entries@.len() && #[trigger] self.entries@[j].0@ == kk by {
                        if kk != kv {
                            let j = choose|j: int|
                                0 <= j < prev.len() && #[trigger] prev[j].0@ == kk;
                            assert(self.entries@[j].0@ == kk);
                        } else {
                            assert(self.entries@[i as int].0@ == kk);
                        }
                    }
                }
                Some(o)
            },
            None => {
                let ghost prev = self.entries@;
                self.entries.push((k, v));
                proof {
                    self.map@ = self.map@.insert(kv, v);
                    assert forall|kk: <K as View>::V| #[trigger]
                        self.map@.contains_key(kk) implies exists|j: int|
                            0 <= j < self.entries@.len() && #[trigger] self.entries@[j].0@ == kk by {
                        if kk != kv {
                            let j = choose|j: int|
                                0 <= j < prev.len() && #[trigger] prev[j].0@ == kk;
                            assert(self.entries@[j].0@ == kk);
                        } else {
                            assert(self.entries@[prev.len() as int].0@ == kk);
                        }
                    }
                }
                None
            },
        }
    }

    /// Takes `k` out of the map, and hands back its value.
    pub fn remove(&mut self, k: &K) -> (r: Option<V>)
        requires
            old(self).wf(),
        ensures
            final(self).wf(),
            final(self)@ == old(self)@.remove(k@),
            r is Some == old(self)@.contains_key(k@),
            r matches Some(o) ==> o == old(self)@[k@],
    {
        match self.index_of(k) {
            Some(i) => {
                let ghost prev = self.entries@;
                let ghost kv = k@;
                let (_, o) = self.entries.swap_remove(i);
                proof {
                    let last = prev.len() - 1;
                    assert(self.entries@ =~= prev.update(i as int, prev[last]).drop_last());
                    self.map@ = self.map@.remove(kv);
                    assert forall|a: int|
                        0 <= a < self.entries@.len() implies #[trigger] self.entries@[a].0@
                        != kv by {
                        if a == i {
                            assert(prev[last].0@ != prev[i as int].0@);
                        } else {
                            assert(prev[a].0@ != prev[i as int].0@);
                        }
                    }
                    assert forall|kk: <K as View>::V| #[trigger]
                        self.map@.contains_key(kk) implies exists|j: int|
                            0 <= j < self.entries@.len() && #[trigger] self.entries@[j].0@ == kk by {
                        let j = choose|j: int| 0 <= j < prev.len() && #[trigger] prev[j].0@ == kk;
                        if j == last {
                            assert(self.entries@[i as int].0@ == kk);
                        } else {
                            assert(self.entries@[j].0@ == kk);
                        }
                    }
                }
                Some(o)
            },
            None => {
                proof {
                    assert(self.map@.remove(k@) =~= self.map@);
                }
                None
            },
        }
    }

    /// Takes some entry out of the map, or None where the map is empty.
    fn pop_entry(&mut self) -> (r: Option<(K, V)>)
        requires
            old(self).wf(),
        ensures
            final(self).wf(),
            match r {
                Some(e) => {
                    &&& old(self)@.contains_key(e.0@)
                    &&& old(self)@[e.0@] == e.1
                    &&& final(self)@ == old(self)@.remove(e.0@)
                },
                None => old(self)@ == Map::<<K as View>::V, V>::empty() && final(self)@ == old(self)@,
            },
    {
        let ghost prev = self.entries@;
        match self.entries.pop() {
            Some(e) => {
                proof {
                    let last = prev.len() - 1;
                    assert(e == prev[last]);
                    self.map@ = self.map@.remove(e.0@);
                    assert forall|a: int|
                        0 <= a < self.entries@.len() implies #[trigger] self.entries@[a].0@
                        != e.0@ by {
                        assert(prev[a].0@ != prev[last].0@);
                    }
                    assert forall|kk: <K as View>::V| #[trigger]
                        self.map@.contains_key(kk) implies exists|j: int|
                            0 <= j < self.entries@.len() && #[trigger] self.entries@[j].0@ == kk by {
                        let j = choose|j: int| 0 <= j < prev.len() && #[trigger] prev[j].0@ == kk;
                        assert(self.entries@[j].0@ == kk);
                    }
                }
                Some(e)
            },
            None => {
                proof {
                    assert(self.map@ =~= Map::<<K as View>::V, V>::empty());
                }
                None
            },
        }
    }

    /// Keeps only the keys that `keep` has.
    pub fn retain_keys<W>(&mut self, keep: &AssocMap<K, W>)
        requires
            old(self).wf(),
            keep.wf(),
        ensures
            final(self).wf(),
            final(self)@ == old(self)@.restrict(keep@.dom()),
    {
        let ghost orig = self@;
        let mut rest: AssocMap<K, V> = AssocMap::new();
        std::mem::swap(self, &mut rest);
        loop
            invariant
                rest.wf(),
                self.wf(),
                keep.wf(),
                forall|k: <K as View>::V| #[trigger]
                    rest@.contains_key(k) ==> orig.contains_key(k) && rest@[k] == orig[k],
                forall|k: <K as View>::V| #[trigger]
                    self@.contains_key(k) == (orig.contains_key(k) && !rest@.contains_key(k)
                        && keep@.dom().contains(k)),
                forall|k: <K as View>::V| #[trigger]
                    self@.contains_key(k) ==> self@[k] == orig[k],
            ensures
                self.wf(),
                self@ == orig.restrict(keep@.dom()),
            decreases rest@.len(),
        {
            match rest.pop_entry() {
                None => {
                    assert(self@ =~= orig.restrict(keep@.dom()));
                    break ;
                },
                Some(e) => {
                    let (k, v) = e;
                    if keep.contains_key(&k) {
                        self.insert(k, v);
                    }
                },
            }
        }
    }

    /// Copies of all the keys, each once.
    pub fn keys(&self) -> (r: Vec<K>)
        requires
            self.wf(),
        ensures
            r@.len() == self@.len(),
            forall|i: int| 0 <= i < r@.len() ==> self@.contains_key(#[trigger] r@[i]@),
            forall|k: <K as View>::V| #[trigger]
                self@.contains_key(k) ==> exists|i: int| 0 <= i < r@.len() && #[trigger] r@[i]@ == k,
            forall|i: int, j: int|
                0 <= i < r@.len() && 0 <= j < r@.len() && i != j ==> #[trigger] r@[i]@
                    != #[trigger] r@[j]@,
    {
        let n = self.entries.len();
        let mut out: Vec<K> = Vec::new();
        let mut i: usize = 0;
        while i < n
            invariant
                n == self.entries@.len(),
                self.wf(),
                i <= n,
                out@.len() == i,
                forall|j: int| 0 <= j < i ==> #[trigger] out@[j]@ == self.entries@[j].0@,
            decreases n - i,
        {
            out.push(self.entries[i].0.copy_key());
            i = i + 1;
        }
        proof {
            assert forall|k: <K as View>::V| #[trigger]
                self@.contains_key(k) implies exists|j: int|
                    0 <= j < out@.len() && #[trigger] out@[j]@ == k by {
                let j = choose|j: int|
                    0 <= j < self.entries@.len() && #[trigger] self.entries@[j].0@ == k;
                assert(out@[j]@ == k);
            }
            assert forall|a: int, b: int|
                0 <= a < out@.len() && 0 <= b < out@.len() && a != b implies #[trigger] out@[a]@
                != #[trigger] out@[b]@ by {
                assert(self.entries@[a].0@ != self.entries@[b].0@);
            }
            assert forall|a: int| 0 <= a < out@.len() implies self@.contains_key(
                #[trigger] out@[a]@,
            ) by {
                assert(out@[a]@ == self.entries@[a].0@);
            }
        }
        out
    }
}

} // verus!
