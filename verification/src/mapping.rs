//! The output mapping: entry names, exact spelling preserved, to weights in
//! `[1, 999]`. Keys are unique; inserting an existing exact key overwrites
//! its weight with the newest value.

use vstd::prelude::*;

use crate::text::str_eq;
use vstd::pervasive::VecAdditionalExecFns;

verus! {

/// The mapping a pair list stands for: later pairs win on an equal key.
pub open spec fn map_of(ps: Seq<(Seq<char>, u32)>) -> Map<Seq<char>, u32>
    decreases ps.len(),
{
    if ps.len() == 0 {
        Map::empty()
    } else {
        map_of(ps.drop_last()).insert(ps.last().0, ps.last().1)
    }
}

/// A key stands in the mapping of a pair list exactly when some pair holds it.
pub proof fn lemma_map_of_contains(ps: Seq<(Seq<char>, u32)>, k: Seq<char>)
    ensures
        map_of(ps).dom().contains(k) <==> exists|i: int| 0 <= i < ps.len() && ps[i].0 == k,
    decreases ps.len(),
{
    if ps.len() > 0 {
        lemma_map_of_contains(ps.drop_last(), k);
        if ps.last().0 == k {
            assert(ps[ps.len() - 1].0 == k);
        } else if map_of(ps).dom().contains(k) {
            let i = choose|i: int| 0 <= i < ps.drop_last().len() && ps.drop_last()[i].0 == k;
            assert(ps[i].0 == k);
        } else if exists|i: int| 0 <= i < ps.len() && ps[i].0 == k {
            let i = choose|i: int| 0 <= i < ps.len() && ps[i].0 == k;
            assert(0 <= i < ps.len() - 1);
            assert(ps.drop_last()[i].0 == k);
        }
    }
}

/// When no later pair repeats the key of pair `i`, the mapping gives pair
/// `i`'s weight for it.
pub proof fn lemma_map_of_index(ps: Seq<(Seq<char>, u32)>, i: int)
    requires
        0 <= i < ps.len(),
        forall|j: int| i < j < ps.len() ==> ps[j].0 != ps[i].0,
    ensures
        map_of(ps).dom().contains(ps[i].0),
        map_of(ps)[ps[i].0] == ps[i].1,
    decreases ps.len(),
{
    if i == ps.len() - 1 {
    } else {
        assert(ps.drop_last()[i] == ps[i]);
        lemma_map_of_index(ps.drop_last(), i);
    }
}

/// Updating the pair that holds a key changes the mapping as an insert of
/// the new weight, provided no later pair repeats that key.
pub proof fn lemma_map_of_update(ps: Seq<(Seq<char>, u32)>, i: int, w: u32)
    requires
        0 <= i < ps.len(),
        forall|j: int| i < j < ps.len() ==> ps[j].0 != ps[i].0,
    ensures
        map_of(ps.update(i, (ps[i].0, w))) == map_of(ps).insert(ps[i].0, w),
    decreases ps.len(),
{
    let k = ps[i].0;
    let qs = ps.update(i, (k, w));
    if i == ps.len() - 1 {
        assert(qs.drop_last() =~= ps.drop_last());
        assert(map_of(qs) =~= map_of(ps).insert(k, w));
    } else {
        assert(ps.drop_last()[i] == ps[i]);
        lemma_map_of_update(ps.drop_last(), i, w);
        assert(qs.drop_last() =~= ps.drop_last().update(i, (k, w)));
        assert(qs.last() == ps.last());
        assert(map_of(qs) == map_of(ps.drop_last()).insert(k, w).insert(ps.last().0, ps.last().1));
        assert(map_of(qs) =~= map_of(ps).insert(k, w));
    }
}

/// When every pair's weight lies in `[1, 999]`, so does every weight the
/// mapping gives out.
pub proof fn lemma_map_of_values(ps: Seq<(Seq<char>, u32)>, k: Seq<char>)
    requires
        forall|i: int| 0 <= i < ps.len() ==> 1 <= (#[trigger] ps[i]).1 <= 999,
        map_of(ps).dom().contains(k),
    ensures
        1 <= map_of(ps)[k] <= 999,
    decreases ps.len(),
{
    if ps.len() > 0 && ps.last().0 != k {
        lemma_map_of_values(ps.drop_last(), k);
    }
}

/// The accumulated name-to-weight mapping. Keys are exact name strings, case
/// preserved; weights lie in `[1, 999]`.
pub struct NameMap {
    pairs: Vec<(String, u32)>,
}

impl View for NameMap {
    type V = Map<Seq<char>, u32>;

    open spec fn view(&self) -> Map<Seq<char>, u32> {
        map_of(self.pairs_view())
    }
}

impl NameMap {
    /// The pairs held, in insertion order of their keys.
    pub closed spec fn pairs_view(&self) -> Seq<(Seq<char>, u32)> {
        self.pairs@.map_values(|p: (String, u32)| (p.0@, p.1))
    }

    /// The keys held, in insertion order.
    pub open spec fn keys(&self) -> Seq<Seq<char>> {
        self.pairs_view().map_values(|p: (Seq<char>, u32)| p.0)
    }

    /// Well-formed: keys are unique and every weight lies in `[1, 999]`.
    pub open spec fn wf(&self) -> bool {
        &&& forall|i: int, j: int|
            0 <= i < j < self.pairs_view().len() ==> self.pairs_view()[i].0
                != self.pairs_view()[j].0
        &&& forall|i: int|
            0 <= i < self.pairs_view().len() ==> 1 <= (#[trigger] self.pairs_view()[i]).1 <= 999
    }

    /// An empty mapping.
    pub fn new() -> (r: NameMap)
        ensures
            r.wf(),
            r@ == Map::<Seq<char>, u32>::empty(),
            r.keys() == Seq::<Seq<char>>::empty(),
    {
        let r = NameMap { pairs: Vec::new() };
        proof {
            assert(r.pairs_view() =~= Seq::<(Seq<char>, u32)>::empty());
            assert(r.keys() =~= Seq::<Seq<char>>::empty());
        }
        r
    }

    /// How many names the mapping holds.
    pub fn len(&self) -> (r: usize)
        ensures
            r == self.keys().len(),
    {
        self.pairs.len()
    }

    /// Upserts a name: an existing exact-string key keeps its place and takes
    /// the new weight; a new key is appended.
    pub fn insert(&mut self, name: String, w: u32)
        requires
            old(self).wf(),
            1 <= w <= 999,
        ensures
            final(self).wf(),
            final(self)@ == old(self)@.insert(name@, w),
            old(self)@.dom().contains(name@) ==> final(self).keys() == old(self).keys(),
            !old(self)@.dom().contains(name@) ==> final(self).keys() == old(self).keys().push(
                name@,
            ),
    {
        let n = self.pairs.len();
        let mut i: usize = 0;
        while i < n
            invariant
                0 <= i <= n,
                n == self.pairs@.len(),
                *self == *old(self),
                old(self).wf(),
                1 <= w <= 999,
                forall|j: int| 0 <= j < i ==> self.pairs_view()[j].0 != name@,
            decreases n - i,
        {
            if str_eq(self.pairs[i].0.as_str(), name.as_str()) {
                proof {
                    lemma_map_of_update(self.pairs_view(), i as int, w);
                    lemma_map_of_contains(old(self).pairs_view(), name@);
                }
                self.pairs.set(i, (name, w));
                proof {
                    assert(self.pairs_view() =~= old(self).pairs_view().update(
                        i as int,
                        (old(self).pairs_view()[i as int].0, w),
                    ));
                    assert(self.keys() =~= old(self).keys());
                }
                return ;
            }
            i = i + 1;
        }
        proof {
            lemma_map_of_contains(self.pairs_view(), name@);
        }
        self.pairs.push((name, w));
        proof {
            assert(self.pairs_view() =~= old(self).pairs_view().push((name@, w)));
            assert(self.pairs_view().drop_last() =~= old(self).pairs_view());
            assert(self.keys() =~= old(self).keys().push(name@));
        }
    }

    /// Looks a name up by its exact spelling.
    pub fn get(&self, name: &str) -> (r: Option<u32>)
        requires
            self.wf(),
        ensures
            self@.dom().contains(name@) ==> r == Some(self@[name@]),
            !self@.dom().contains(name@) ==> r is None,
    {
        let n = self.pairs.len();
        let mut i: usize = 0;
        while i < n
            invariant
                0 <= i <= n,
                n == self.pairs@.len(),
                self.wf(),
                forall|j: int| 0 <= j < i ==> self.pairs_view()[j].0 != name@,
            decreases n - i,
        {
            if str_eq(self.pairs[i].0.as_str(), name) {
                proof {
                    lemma_map_of_index(self.pairs_view(), i as int);
                }
                return Some(self.pairs[i].1);
            }
            i = i + 1;
        }
        proof {
            lemma_map_of_contains(self.pairs_view(), name@);
        }
        None
    }

    /// Borrows the pairs held, key spelling preserved, in key insertion order.
    pub fn pairs(&self) -> (r: &Vec<(String, u32)>)
        ensures
            r@.map_values(|p: (String, u32)| (p.0@, p.1)) == self.pairs_view(),
    {
        &self.pairs
    }
}

/// A later upsert of the same exact key overwrites the weight: after
/// inserting `k` with `v1` and then with `v2`, the mapping holds `k` once,
/// with `v2`, as if the first insert had not happened.
pub proof fn lemma_merge_override(m: Map<Seq<char>, u32>, k: Seq<char>, v1: u32, v2: u32)
    ensures
        m.insert(k, v1).insert(k, v2) == m.insert(k, v2),
        m.insert(k, v1).insert(k, v2)[k] == v2,
{
    assert(m.insert(k, v1).insert(k, v2) =~= m.insert(k, v2));
}

/// Keys that differ in spelling, even only in letter case, persist as
/// separate keys with their own weights.
pub proof fn lemma_case_distinct_keys(
    m: Map<Seq<char>, u32>,
    k1: Seq<char>,
    v1: u32,
    k2: Seq<char>,
    v2: u32,
)
    requires
        k1 != k2,
    ensures
        m.insert(k1, v1).insert(k2, v2).dom().contains(k1),
        m.insert(k1, v1).insert(k2, v2).dom().contains(k2),
        m.insert(k1, v1).insert(k2, v2)[k1] == v1,
        m.insert(k1, v1).insert(k2, v2)[k2] == v2,
{
}

} // verus!
