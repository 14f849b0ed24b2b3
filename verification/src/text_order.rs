//! Lexicographic order on character sequences.
//!
//! The font list is sorted ascending by file name. This module defines
//! that order over `Seq<char>`, proves it is a strict total order, gives
//! an executable comparison on `&str` that decides it, and shows that a
//! strictly sorted sequence is determined by its members alone — the fact
//! that makes the font list canonical.

use vstd::prelude::*;
use vstd::string::StrSliceExecFns;
use vstd::utf8::char_u32_cast;

verus! {

/// Strict lexicographic order on character sequences, comparing characters
/// by their Unicode scalar values; a proper prefix precedes its extensions.
pub open spec fn lex_lt(a: Seq<char>, b: Seq<char>) -> bool
    decreases a.len(),
{
    if b.len() == 0 {
        false
    } else if a.len() == 0 {
        true
    } else if (a[0] as u32) < (b[0] as u32) {
        true
    } else if (b[0] as u32) < (a[0] as u32) {
        false
    } else {
        lex_lt(a.drop_first(), b.drop_first())
    }
}

/// No sequence precedes itself.
pub proof fn lemma_lex_lt_irreflexive(a: Seq<char>)
    ensures
        !lex_lt(a, a),
    decreases a.len(),
{
    if a.len() > 0 {
        lemma_lex_lt_irreflexive(a.drop_first());
    }
}

/// Any two sequences are ordered one way, the other way, or equal.
pub proof fn lemma_lex_lt_trichotomy(a: Seq<char>, b: Seq<char>)
    ensures
        lex_lt(a, b) || lex_lt(b, a) || a == b,
    decreases a.len(),
{
    if a.len() == 0 && b.len() == 0 {
        assert(a =~= b);
    } else if a.len() > 0 && b.len() > 0 {
        if (a[0] as u32) == (b[0] as u32) {
            char_u32_cast(a[0], a[0] as u32);
            char_u32_cast(b[0], b[0] as u32);
            assert(a[0] == b[0]);
            lemma_lex_lt_trichotomy(a.drop_first(), b.drop_first());
            if a.drop_first() == b.drop_first() {
                assert(a.drop_first().len() == b.drop_first().len());
                assert(a.len() == b.len());
                assert forall|i: int| 0 <= i < a.len() implies a[i] == b[i] by {
                    if i > 0 {
                        assert(0 <= i - 1 < b.drop_first().len());
                        assert(a[i] == a.drop_first()[i - 1]);
                        assert(b[i] == b.drop_first()[i - 1]);
                    }
                }
                assert(a =~= b);
            }
        }
    }
}

/// The order is transitive.
pub proof fn lemma_lex_lt_transitive(a: Seq<char>, b: Seq<char>, c: Seq<char>)
    requires
        lex_lt(a, b),
        lex_lt(b, c),
    ensures
        lex_lt(a, c),
    decreases a.len(),
{
    if b.len() > 0 && c.len() > 0 && a.len() > 0 {
        if (a[0] as u32) == (b[0] as u32) && (b[0] as u32) == (c[0] as u32) {
            lemma_lex_lt_transitive(a.drop_first(), b.drop_first(), c.drop_first());
        }
    }
}

/// Sequences that agree on their first `i` characters are ordered exactly
/// as their remainders after those characters are.
proof fn lemma_lex_lt_common_prefix(a: Seq<char>, b: Seq<char>, i: int)
    requires
        0 <= i <= a.len(),
        i <= b.len(),
        forall|j: int| 0 <= j < i ==> a[j] == b[j],
    ensures
        lex_lt(a, b) == lex_lt(a.skip(i), b.skip(i)),
    decreases i,
{
    if i == 0 {
        assert(a.skip(0) =~= a);
        assert(b.skip(0) =~= b);
    } else {
        assert(a.len() > 0 && b.len() > 0);
        assert(a[0] == b[0]);
        assert(lex_lt(a, b) == lex_lt(a.drop_first(), b.drop_first()));
        assert(forall|j: int|
            0 <= j < i - 1 ==> #[trigger] a.drop_first()[j] == b.drop_first()[j]);
        lemma_lex_lt_common_prefix(a.drop_first(), b.drop_first(), i - 1);
        assert(a.drop_first().skip(i - 1) =~= a.skip(i));
        assert(b.drop_first().skip(i - 1) =~= b.skip(i));
    }
}

/// Decides the lexicographic order on two strings.
pub fn str_lex_lt(a: &str, b: &str) -> (r: bool)
    ensures
        r == lex_lt(a@, b@),
{
    let a_len = a.unicode_len();
    let b_len = b.unicode_len();
    let shorter: usize = if a_len < b_len {
        a_len
    } else {
        b_len
    };
    let mut i: usize = 0;
    while i < shorter
        invariant
            0 <= i <= shorter,
            shorter <= a@.len(),
            shorter <= b@.len(),
            a_len == a@.len(),
            b_len == b@.len(),
            forall|j: int| 0 <= j < i ==> a@[j] == b@[j],
        decreases shorter - i,
    {
        let ca = a.get_char(i);
        let cb = b.get_char(i);
        let ua = ca as u32;
        let ub = cb as u32;
        if ua != ub {
            proof {
                lemma_lex_lt_common_prefix(a@, b@, i as int);
                assert(a@.skip(i as int)[0] == a@[i as int]);
                assert(b@.skip(i as int)[0] == b@[i as int]);
            }
            return ua < ub;
        }
        proof {
            char_u32_cast(ca, ua);
            char_u32_cast(cb, ub);
        }
        i = i + 1;
    }
    proof {
        lemma_lex_lt_common_prefix(a@, b@, shorter as int);
        assert(a@.skip(shorter as int).len() == a@.len() - shorter);
        assert(b@.skip(shorter as int).len() == b@.len() - shorter);
    }
    a_len < b_len
}

/// A sequence of names in strictly ascending lexicographic order.
pub open spec fn strictly_sorted(names: Seq<Seq<char>>) -> bool {
    forall|i: int, j: int| 0 <= i < j < names.len() ==> lex_lt(#[trigger] names[i], #[trigger] names[j])
}

/// A strictly sorted sequence holds no name twice.
pub proof fn lemma_strictly_sorted_no_duplicates(names: Seq<Seq<char>>)
    requires
        strictly_sorted(names),
    ensures
        forall|i: int, j: int|
            0 <= i < j < names.len() ==> #[trigger] names[i] != #[trigger] names[j],
{
    assert forall|i: int, j: int|
        0 <= i < j < names.len() implies #[trigger] names[i] != #[trigger] names[j] by {
        lemma_lex_lt_irreflexive(names[i]);
    }
}

/// Two strictly sorted sequences with the same members are equal: the
/// sorted, deduplicated list of a set of names is canonical.
pub proof fn lemma_strictly_sorted_canonical(a: Seq<Seq<char>>, b: Seq<Seq<char>>)
    requires
        strictly_sorted(a),
        strictly_sorted(b),
        forall|name: Seq<char>| a.contains(name) <==> b.contains(name),
    ensures
        a == b,
    decreases a.len(),
{
    if a.len() == 0 {
        if b.len() > 0 {
            assert(b.contains(b[0]));
            assert(a.contains(b[0]));
        }
        assert(a =~= b);
    } else if b.len() == 0 {
        assert(a.contains(a[0]));
        assert(b.contains(a[0]));
    } else {
        // The heads agree: each is its sequence's least member.
        assert(a.contains(a[0]));
        assert(b.contains(b[0]));
        let ia = choose|i: int| 0 <= i < a.len() && a[i] == b[0];
        let ib = choose|i: int| 0 <= i < b.len() && b[i] == a[0];
        assert(a.contains(b[0]));
        assert(b.contains(a[0]));
        if a[0] != b[0] {
            assert(0 < ia < a.len() || 0 < ib < b.len());
            if 0 < ia {
                assert(lex_lt(a[0], a[ia]));
                assert(lex_lt(b[0], b[ib]) || b[0] == b[ib]);
                if b[0] == b[ib] {
                    lemma_lex_lt_irreflexive(a[0]);
                    assert(lex_lt(a[0], b[0]) && a[0] == b[ib] && b[0] == a[ia]);
                    assert(false);
                } else {
                    lemma_lex_lt_transitive(a[0], a[ia], b[ib]);
                    lemma_lex_lt_irreflexive(a[0]);
                    assert(false);
                }
            } else {
                assert(a[0] == b[ib] && 0 < ib);
                assert(lex_lt(b[0], b[ib]));
                assert(lex_lt(a[0], a[ia]) || a[0] == a[ia]);
                if a[0] == a[ia] {
                    lemma_lex_lt_irreflexive(b[0]);
                    assert(false);
                } else {
                    lemma_lex_lt_transitive(b[0], b[ib], a[ia]);
                    lemma_lex_lt_irreflexive(b[0]);
                    assert(false);
                }
            }
        }
        // The tails hold the same members: everything but the shared head.
        assert forall|name: Seq<char>|
            a.drop_first().contains(name) <==> b.drop_first().contains(name) by {
            lemma_drop_first_membership(a, name);
            lemma_drop_first_membership(b, name);
        }
        lemma_strictly_sorted_canonical(a.drop_first(), b.drop_first());
        assert forall|i: int| 0 <= i < a.len() implies a[i] == b[i] by {
            if i > 0 {
                assert(a[i] == a.drop_first()[i - 1]);
                assert(b[i] == b.drop_first()[i - 1]);
            }
        }
        assert(a =~= b);
    }
}

/// In a strictly sorted, nonempty sequence, the tail's members are exactly
/// the members other than the head.
proof fn lemma_drop_first_membership(s: Seq<Seq<char>>, name: Seq<char>)
    requires
        strictly_sorted(s),
        s.len() > 0,
    ensures
        s.drop_first().contains(name) <==> (s.contains(name) && name != s[0]),
{
    lemma_strictly_sorted_no_duplicates(s);
    if s.drop_first().contains(name) {
        let i = choose|i: int| 0 <= i < s.drop_first().len() && s.drop_first()[i] == name;
        assert(s[i + 1] == name);
        assert(s.contains(name));
        assert(name != s[0]);
    }
    if s.contains(name) && name != s[0] {
        let i = choose|i: int| 0 <= i < s.len() && s[i] == name;
        assert(i > 0);
        assert(s.drop_first()[i - 1] == name);
        assert(s.drop_first().contains(name));
    }
}

} // verus!
