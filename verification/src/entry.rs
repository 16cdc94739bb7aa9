//! A named item with case-insensitive identity and ordering.

use vstd::prelude::*;

use crate::text::cmp_lower;
use crate::text::eq_lower;
use crate::text::lemma_lex_cmp_equal;
use crate::text::lex_cmp;
use crate::text::lower;
use crate::text::lower_char;
use vstd::std_specs::cmp::PartialEqSpec;

verus! {

/// One named item. Two entries are equal when their names agree after
/// ASCII-lowercasing; ordering is lexicographic over the lowered names.
/// The exact spelling is kept and is what mapping keys use.
#[derive(Debug)]
pub struct Entry {
    pub name: String,
}

impl Entry {
    /// The comparison key: the name, ASCII-lowercased.
    pub open spec fn key(&self) -> Seq<char> {
        lower(self.name@)
    }

    /// Compares two entries by their lowered names.
    pub fn cmp(&self, other: &Entry) -> (r: core::cmp::Ordering)
        ensures
            r == lex_cmp(self.key(), other.key()),
    {
        cmp_lower(self.name.as_str(), other.name.as_str())
    }
}

impl PartialEq for Entry {
    fn eq(&self, other: &Entry) -> (r: bool) {
        eq_lower(self.name.as_str(), other.name.as_str())
    }
}

impl vstd::std_specs::cmp::PartialEqSpecImpl for Entry {
    open spec fn obeys_eq_spec() -> bool {
        true
    }

    open spec fn eq_spec(&self, other: &Entry) -> bool {
        self.key() == other.key()
    }
}

impl Eq for Entry {

}

impl PartialOrd for Entry {
    fn partial_cmp(&self, other: &Entry) -> (r: Option<core::cmp::Ordering>) {
        proof {
            lemma_lex_cmp_equal(self.key(), other.key());
        }
        Some(self.cmp(other))
    }
}

impl vstd::std_specs::cmp::PartialOrdSpecImpl for Entry {
    open spec fn obeys_partial_cmp_spec() -> bool {
        true
    }

    open spec fn partial_cmp_spec(&self, other: &Entry) -> Option<core::cmp::Ordering> {
        Some(lex_cmp(self.key(), other.key()))
    }
}

impl Clone for Entry {
    /// A clone keeps the name, character for character.
    fn clone(&self) -> (r: Entry)
        ensures
            r.name@ == self.name@,
    {
        Entry { name: self.name.clone() }
    }
}

impl From<String> for Entry {
    fn from(name: String) -> (r: Entry) {
        Entry { name }
    }
}

impl vstd::std_specs::convert::FromSpecImpl<String> for Entry {
    open spec fn obeys_from_spec() -> bool {
        true
    }

    open spec fn from_spec(name: String) -> Entry {
        Entry { name }
    }
}

impl<'a> From<&'a str> for Entry {
    fn from(name: &'a str) -> (r: Entry)
        ensures
            r.name@ == name@,
    {
        Entry { name: name.to_owned() }
    }
}

impl<'a> vstd::std_specs::convert::FromSpecImpl<&'a str> for Entry {
    /// A borrowed name is copied into a fresh `String`; which `String` value
    /// that is cannot be pinned down here, so the direct `ensures` on
    /// `from` above carries the contract instead.
    open spec fn obeys_from_spec() -> bool {
        false
    }

    open spec fn from_spec(name: &'a str) -> Entry {
        choose|e: Entry| e.name@ == name@
    }
}

/// Two names that differ only in letter case: same length, and each pair of
/// characters agrees once lowered.
pub open spec fn differ_only_in_case(a: Seq<char>, b: Seq<char>) -> bool {
    &&& a.len() == b.len()
    &&& forall|i: int| 0 <= i < a.len() ==> lower_char(a[i]) == lower_char(b[i])
}

/// Entries whose names differ only in letter case are equal under the
/// entry comparison.
pub proof fn lemma_case_insensitive_equality(a: Entry, b: Entry)
    requires
        differ_only_in_case(a.name@, b.name@),
    ensures
        a.eq_spec(&b),
{
    assert(lower(a.name@) =~= lower(b.name@));
}

} // verus!
