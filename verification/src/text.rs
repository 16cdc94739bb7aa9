//! Case folding and case-insensitive comparison of character sequences.
//!
//! Identity of entries is two-tier: names are compared and ordered after
//! ASCII-lowercasing, while the exact spelling is kept for mapping keys.

use vstd::prelude::*;

verus! {

/// ASCII lowercasing of one character: `'A'..='Z'` shift down, all else unchanged.
pub open spec fn lower_char(c: char) -> char {
    if 'A' <= c && c <= 'Z' {
        (((c as u8) + 32) as char)
    } else {
        c
    }
}

/// ASCII lowercasing of a whole character sequence.
pub open spec fn lower(s: Seq<char>) -> Seq<char> {
    s.map_values(|c: char| lower_char(c))
}

/// Lexicographic comparison of two character sequences, from position `i` on.
/// A proper prefix orders before any extension of it.
pub open spec fn lex_cmp_from(a: Seq<char>, b: Seq<char>, i: int) -> core::cmp::Ordering
    decreases a.len() - i,
{
    if i < 0 {
        core::cmp::Ordering::Equal
    } else if i >= a.len() && i >= b.len() {
        core::cmp::Ordering::Equal
    } else if i >= a.len() {
        core::cmp::Ordering::Less
    } else if i >= b.len() {
        core::cmp::Ordering::Greater
    } else if a[i] < b[i] {
        core::cmp::Ordering::Less
    } else if b[i] < a[i] {
        core::cmp::Ordering::Greater
    } else {
        lex_cmp_from(a, b, i + 1)
    }
}

/// Lexicographic comparison of two character sequences.
pub open spec fn lex_cmp(a: Seq<char>, b: Seq<char>) -> core::cmp::Ordering {
    lex_cmp_from(a, b, 0)
}

/// From any position on, the comparison reports `Equal` exactly when the
/// remaining characters agree and the lengths do.
pub proof fn lemma_lex_cmp_from_equal(a: Seq<char>, b: Seq<char>, i: int)
    requires
        0 <= i <= a.len(),
        0 <= i <= b.len(),
    ensures
        lex_cmp_from(a, b, i) == core::cmp::Ordering::Equal <==> (a.len() == b.len()
            && (forall|j: int| i <= j < a.len() ==> a[j] == b[j])),
    decreases a.len() - i,
{
    if i < a.len() && i < b.len() && !(a[i] < b[i]) && !(b[i] < a[i]) {
        assert(a[i] == b[i]);
        lemma_lex_cmp_from_equal(a, b, i + 1);
    }
}

/// Lexicographic comparison reports `Equal` exactly on equal sequences.
pub proof fn lemma_lex_cmp_equal(a: Seq<char>, b: Seq<char>)
    ensures
        lex_cmp(a, b) == core::cmp::Ordering::Equal <==> a == b,
{
    lemma_lex_cmp_from_equal(a, b, 0);
    if lex_cmp(a, b) == core::cmp::Ordering::Equal {
        assert(a =~= b);
    }
}

/// Swapping the arguments of the lexicographic comparison swaps `Less` and
/// `Greater`.
pub proof fn lemma_lex_cmp_from_flip(a: Seq<char>, b: Seq<char>, i: int)
    requires
        0 <= i,
    ensures
        lex_cmp_from(a, b, i) == core::cmp::Ordering::Less <==> lex_cmp_from(b, a, i)
            == core::cmp::Ordering::Greater,
        lex_cmp_from(a, b, i) == core::cmp::Ordering::Equal <==> lex_cmp_from(b, a, i)
            == core::cmp::Ordering::Equal,
    decreases a.len() - i,
{
    if i < a.len() && i < b.len() && !(a[i] < b[i]) && !(b[i] < a[i]) {
        lemma_lex_cmp_from_flip(a, b, i + 1);
    }
}

/// The lexicographic order is transitive in its non-strict form: if `a` is
/// no later than `b` and `b` no later than `c`, then `a` is no later than `c`.
pub proof fn lemma_lex_cmp_from_trans(a: Seq<char>, b: Seq<char>, c: Seq<char>, i: int)
    requires
        0 <= i,
        lex_cmp_from(a, b, i) != core::cmp::Ordering::Greater,
        lex_cmp_from(b, c, i) != core::cmp::Ordering::Greater,
    ensures
        lex_cmp_from(a, c, i) != core::cmp::Ordering::Greater,
    decreases a.len() - i,
{
    if i < a.len() && i < b.len() && i < c.len() && !(a[i] < c[i]) && !(c[i] < a[i]) {
        if !(a[i] < b[i]) && !(b[i] < a[i]) && !(b[i] < c[i]) && !(c[i] < b[i]) {
            lemma_lex_cmp_from_trans(a, b, c, i + 1);
        }
    }
}

/// Non-strict transitivity of `lex_cmp`.
pub proof fn lemma_lex_cmp_trans(a: Seq<char>, b: Seq<char>, c: Seq<char>)
    requires
        lex_cmp(a, b) != core::cmp::Ordering::Greater,
        lex_cmp(b, c) != core::cmp::Ordering::Greater,
    ensures
        lex_cmp(a, c) != core::cmp::Ordering::Greater,
{
    lemma_lex_cmp_from_trans(a, b, c, 0);
}

/// Swapping the arguments of `lex_cmp` swaps `Less` and `Greater`.
pub proof fn lemma_lex_cmp_flip(a: Seq<char>, b: Seq<char>)
    ensures
        lex_cmp(a, b) == core::cmp::Ordering::Less <==> lex_cmp(b, a)
            == core::cmp::Ordering::Greater,
        lex_cmp(a, b) == core::cmp::Ordering::Equal <==> lex_cmp(b, a)
            == core::cmp::Ordering::Equal,
{
    lemma_lex_cmp_from_flip(a, b, 0);
}

/// Compares two strings lexicographically after lowercasing, character by
/// character.
pub fn cmp_lower(a: &str, b: &str) -> (r: core::cmp::Ordering)
    ensures
        r == lex_cmp(lower(a@), lower(b@)),
{
    let na: usize = a.unicode_len();
    let nb: usize = b.unicode_len();
    let mut i: usize = 0;
    loop
        invariant
            0 <= i <= na,
            0 <= i <= nb,
            na == a@.len(),
            nb == b@.len(),
            lex_cmp(lower(a@), lower(b@)) == lex_cmp_from(lower(a@), lower(b@), i as int),
        decreases na - i,
    {
        if i >= na && i >= nb {
            return core::cmp::Ordering::Equal;
        }
        if i >= na {
            return core::cmp::Ordering::Less;
        }
        if i >= nb {
            return core::cmp::Ordering::Greater;
        }
        let ca = lower_char_exec(a.get_char(i));
        let cb = lower_char_exec(b.get_char(i));
        if ca < cb {
            return core::cmp::Ordering::Less;
        }
        if cb < ca {
            return core::cmp::Ordering::Greater;
        }
        i = i + 1;
    }
}

/// Relies on String::push: appends exactly the one character.
#[verifier::external_body]
pub(crate) fn push_char(s: &mut String, c: char)
    ensures
        final(s)@ == old(s)@.push(c),
{
    s.push(c);
}

/// Lowercases one character.
pub fn lower_char_exec(c: char) -> (r: char)
    ensures
        r == lower_char(c),
{
    if 'A' <= c && c <= 'Z' {
        ((c as u8) + 32) as char
    } else {
        c
    }
}

/// Whether two strings are equal after lowercasing.
pub fn eq_lower(a: &str, b: &str) -> (r: bool)
    ensures
        r == (lower(a@) == lower(b@)),
{
    let r = cmp_lower(a, b);
    proof {
        lemma_lex_cmp_equal(lower(a@), lower(b@));
    }
    matches!(r, core::cmp::Ordering::Equal)
}

/// Whether two strings are equal, character for character.
pub fn str_eq(a: &str, b: &str) -> (r: bool)
    ensures
        r == (a@ == b@),
{
    let na: usize = a.unicode_len();
    let nb: usize = b.unicode_len();
    if na != nb {
        proof {
            if a@ == b@ {
                assert(a@.len() == b@.len());
            }
        }
        return false;
    }
    let mut i: usize = 0;
    while i < na
        invariant
            0 <= i <= na,
            na == a@.len(),
            na == b@.len(),
            forall|j: int| 0 <= j < i ==> a@[j] == b@[j],
        decreases na - i,
    {
        if a.get_char(i) != b.get_char(i) {
            proof {
                if a@ == b@ {
                    assert(a@[i as int] == b@[i as int]);
                }
            }
            return false;
        }
        i = i + 1;
    }
    proof {
        assert(a@ =~= b@);
    }
    true
}

} // verus!
