//! A parsed document: a sequence of entries, in the order the source gave
//! them, with a case-insensitive sort on offer.

use vstd::prelude::*;

use crate::entry::Entry;
use crate::text::lemma_lex_cmp_flip;
use crate::text::lemma_lex_cmp_trans;
use crate::text::lex_cmp;

verus! {

broadcast use vstd::seq_lib::group_to_multiset_ensures;

/// A sequence of entries ordered case-insensitively by name, earlier to later.
pub open spec fn sorted_ci(s: Seq<Entry>) -> bool {
    forall|i: int, j: int|
        0 <= i < j < s.len() ==> lex_cmp(s[i].key(), s[j].key()) != core::cmp::Ordering::Greater
}

/// A parsed input document, structurally a list of entries.
pub enum Input {
    Values(Vec<Entry>),
}

impl Input {
    /// The entries the document holds, in document order.
    pub open spec fn entries(&self) -> Seq<Entry> {
        match self {
            Input::Values(v) => v@,
        }
    }

    /// Borrows the underlying list of entries.
    pub fn get(&self) -> (r: &Vec<Entry>)
        ensures
            r@ == self.entries(),
    {
        match self {
            Input::Values(entries) => entries,
        }
    }

    /// The same entries, rearranged into case-insensitive name order.
    /// The result holds exactly the entries of `self`, as a multiset.
    pub fn sorted(self) -> (r: Input)
        ensures
            sorted_ci(r.entries()),
            r.entries().to_multiset() == self.entries().to_multiset(),
    {
        let ghost orig = self.entries();
        let Input::Values(mut entries) = self;
        let mut out: Vec<Entry> = Vec::new();
        while entries.len() > 0
            invariant
                out@.to_multiset().add(entries@.to_multiset()) == orig.to_multiset(),
                sorted_ci(out@),
                forall|i: int, j: int|
                    0 <= i < out@.len() && 0 <= j < entries@.len() ==> lex_cmp(
                        out@[i].key(),
                        entries@[j].key(),
                    ) != core::cmp::Ordering::Greater,
            decreases entries.len(),
        {
            let mut best: usize = 0;
            let mut k: usize = 1;
            proof {
                crate::text::lemma_lex_cmp_equal(entries@[0].key(), entries@[0].key());
            }
            while k < entries.len()
                invariant
                    0 <= best < k,
                    k <= entries.len(),
                    entries.len() > 0,
                    forall|j: int|
                        0 <= j < k ==> lex_cmp(entries@[best as int].key(), entries@[j].key())
                            != core::cmp::Ordering::Greater,
                decreases entries.len() - k,
            {
                let c = entries[k].cmp(&entries[best]);
                if matches!(c, core::cmp::Ordering::Less) {
                    proof {
                        lemma_lex_cmp_flip(entries@[k as int].key(), entries@[best as int].key());
                        assert forall|j: int| 0 <= j < k + 1 implies lex_cmp(
                            entries@[k as int].key(),
                            entries@[j].key(),
                        ) != core::cmp::Ordering::Greater by {
                            if j == k {
                                crate::text::lemma_lex_cmp_equal(
                                    entries@[k as int].key(),
                                    entries@[k as int].key(),
                                );
                            }
                            if j < k {
                                lemma_lex_cmp_trans(
                                    entries@[k as int].key(),
                                    entries@[best as int].key(),
                                    entries@[j].key(),
                                );
                            }
                        }
                    }
                    best = k;
                } else {
                    proof {
                        lemma_lex_cmp_flip(entries@[k as int].key(), entries@[best as int].key());
                    }
                }
                k = k + 1;
            }
            let ghost entries_before = entries@;
            let e = entries.remove(best);
            proof {
                assert(out@.push(e).to_multiset() =~= out@.to_multiset().insert(e));
                assert(entries_before.to_multiset().count(e) >= 1) by {
                    assert(entries_before[best as int] == e);
                    assert(entries_before.contains(e));
                }
                assert(out@.push(e).to_multiset().add(entries@.to_multiset()) =~= orig.to_multiset());
            }
            out.push(e);
        }
        proof {
            assert(out@.to_multiset().add(entries@.to_multiset()) =~= out@.to_multiset());
        }
        Input::Values(out)
    }
}

impl From<Vec<Entry>> for Input {
    fn from(entries: Vec<Entry>) -> (r: Input) {
        Input::Values(entries)
    }
}

impl vstd::std_specs::convert::FromSpecImpl<Vec<Entry>> for Input {
    open spec fn obeys_from_spec() -> bool {
        true
    }

    open spec fn from_spec(entries: Vec<Entry>) -> Input {
        Input::Values(entries)
    }
}

} // verus!
