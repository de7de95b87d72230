//! A small map from strings to strings that keeps its keys in insertion order.
use vstd::prelude::*;
use crate::layout::{contains_chars, views};
use crate::text::chars_eq;

verus! {

/// Keys and values side by side; no key occurs twice.
pub struct StrMap {
    pub keys: Vec<Vec<char>>,
    pub vals: Vec<Vec<char>>,
}

impl StrMap {
    pub open spec fn wf(&self) -> bool {
        &&& self.keys@.len() == self.vals@.len()
        &&& views(self.keys@).no_duplicates()
    }

    /// The map the rows stand for.
    pub open spec fn view_map(&self) -> Map<Seq<char>, Seq<char>> {
        Map::new(
            |k: Seq<char>| views(self.keys@).contains(k),
            |k: Seq<char>| self.vals@[views(self.keys@).index_of(k)]@,
        )
    }

    /// An empty map.
    pub fn new() -> (m: Self)
        ensures
            m.wf(),
            m.view_map() == Map::<Seq<char>, Seq<char>>::empty(),
    {
        let m = StrMap { keys: Vec::new(), vals: Vec::new() };
        assert(views(m.keys@) =~= Seq::<Seq<char>>::empty());
        assert(m.view_map() =~= Map::<Seq<char>, Seq<char>>::empty());
        m
    }

    fn find(&self, k: &Vec<char>) -> (r: Option<usize>)
        requires
            self.wf(),
        ensures
            r matches Some(i) ==> i < self.keys@.len() && views(self.keys@)[i as int] == k@ && views(self.keys@).index_of(k@) == i,
            r is None ==> !views(self.keys@).contains(k@),
    {
        let mut i: usize = 0;
        while i < self.keys.len()
            invariant
                self.wf(),
                i <= self.keys@.len(),
                forall|j: int| 0 <= j < i ==> views(self.keys@)[j] != k@,
            decreases self.keys@.len() - i,
        {
            if chars_eq(&self.keys[i], k) {
                proof {
                    lemma_index_of_unique(views(self.keys@), k@, i as int);
                }
                return Some(i);
            }
            i += 1;
        }
        None
    }

    /// The value stored for `k`.
    pub fn get(&self, k: &Vec<char>) -> (r: Option<Vec<char>>)
        requires
            self.wf(),
        ensures
            match r {
                Some(v) => self.view_map().contains_key(k@) && self.view_map()[k@] == v@,
                None => !self.view_map().contains_key(k@),
            },
    {
        match self.find(k) {
            Some(i) => Some(self.vals[i].clone()),
            None => None,
        }
    }

    /// Stores `v` for `k`, replacing any value stored before (`HashMap::insert`).
    pub fn insert(&mut self, k: Vec<char>, v: Vec<char>)
        requires
            old(self).wf(),
        ensures
            final(self).wf(),
            final(self).view_map() == old(self).view_map().insert(k@, v@),
    {
        match self.find(&k) {
            Some(i) => {
                let ghost ks = views(self.keys@);
                self.vals.set(i, v);
                assert(views(self.keys@) == ks);
                assert(self.view_map() =~= old(self).view_map().insert(k@, v@)) by {
                    assert forall|x: Seq<char>| #[trigger] self.view_map().contains_key(x) implies self.view_map()[x]
                        == old(self).view_map().insert(k@, v@)[x] by {
                        if x != k@ {
                            let a = choose|a: int| 0 <= a < ks.len() && ks[a] == x;
                            lemma_index_of_unique(ks, x, a);
                        }
                    }
                }
            },
            None => {
                let ghost ks = views(self.keys@);
                let ghost kk = k@;
                let ghost vv = v@;
                self.keys.push(k);
                self.vals.push(v);
                proof {
                    let ks2 = views(self.keys@);
                    assert(ks2 =~= ks.push(kk));
                    assert(ks2.no_duplicates()) by {
                        assert forall|a: int, b: int| 0 <= a < ks2.len() && 0 <= b < ks2.len() && a != b implies ks2[a] != ks2[b] by {
                            if a < ks.len() && b < ks.len() {
                            } else if a < ks.len() {
                                assert(ks2[a] == ks[a]);
                            } else if b < ks.len() {
                                assert(ks2[b] == ks[b]);
                            }
                        }
                    }
                    assert forall|x: Seq<char>| #[trigger] self.view_map().contains_key(x) <==> old(self).view_map().insert(kk, vv).contains_key(x) by {
                        if ks2.contains(x) && x != kk {
                            let a = choose|a: int| 0 <= a < ks2.len() && ks2[a] == x;
                            assert(a < ks.len());
                            assert(ks[a] == x);
                        }
                        if ks.contains(x) {
                            let a = choose|a: int| 0 <= a < ks.len() && ks[a] == x;
                            assert(ks2[a] == x);
                        }
                        if x == kk {
                            assert(ks2[ks.len() as int] == kk);
                        }
                    }
                    assert forall|x: Seq<char>| #[trigger] self.view_map().contains_key(x) implies self.view_map()[x]
                        == old(self).view_map().insert(kk, vv)[x] by {
                        if x == kk {
                            assert(ks2[ks.len() as int] == kk);
                            lemma_index_of_unique(ks2, x, ks.len() as int);
                        } else {
                            let a = choose|a: int| 0 <= a < ks2.len() && ks2[a] == x;
                            assert(a < ks.len());
                            assert(ks[a] == x);
                            lemma_index_of_unique(ks2, x, a);
                            lemma_index_of_unique(ks, x, a);
                        }
                    }
                    assert(self.view_map() =~= old(self).view_map().insert(kk, vv));
                }
            },
        }
    }

    /// Stores `v` for `k` unless `k` has a value already (`entry(k).or_insert(v)`).
    pub fn insert_if_absent(&mut self, k: Vec<char>, v: Vec<char>)
        requires
            old(self).wf(),
        ensures
            final(self).wf(),
            final(self).view_map() == or_insert(old(self).view_map(), k@, v@),
    {
        if self.find(&k).is_none() {
            self.insert(k, v);
        }
    }
}

/// In a list without repetitions, the index of an element is where it stands.
pub proof fn lemma_index_of_unique(ks: Seq<Seq<char>>, x: Seq<char>, i: int)
    requires
        ks.no_duplicates(),
        0 <= i < ks.len(),
        ks[i] == x,
    ensures
        ks.index_of(x) == i,
        ks.contains(x),
{
    assert(exists|j: int| 0 <= j < ks.len() && ks[j] == x);
    let c = ks.index_of(x);
    assert(0 <= c < ks.len() && ks[c] == x);
}

/// `m` with `v` stored for `k` unless `k` has a value already.
pub open spec fn or_insert(m: Map<Seq<char>, Seq<char>>, k: Seq<char>, v: Seq<char>) -> Map<Seq<char>, Seq<char>> {
    if m.contains_key(k) { m } else { m.insert(k, v) }
}

} // verus!
