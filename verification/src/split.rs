//! Splitting a sequence at a separator element.
//!
//! The address grammar splits bytes at dots and colons; the filter grammar
//! splits a token stream at spaces and a token at the first bar.  The
//! functions here define both, over any element type.

use vstd::prelude::*;

verus! {

/// Index of the first occurrence of `sep` in `s`, or -1 if there is none.
pub open spec fn find_in<A>(s: Seq<A>, sep: A) -> int
    decreases s.len(),
{
    if s.len() == 0 {
        -1
    } else if s[0] == sep {
        0
    } else {
        let r = find_in(s.drop_first(), sep);
        if r < 0 {
            -1
        } else {
            r + 1
        }
    }
}

/// Split `s` at every occurrence of `sep`; `n` separators give `n + 1`
/// parts, none of which contains `sep`.
pub open spec fn split_on<A>(s: Seq<A>, sep: A) -> Seq<Seq<A>>
    decreases s.len(),
{
    let i = find_in(s, sep);
    if 0 <= i < s.len() {
        seq![s.take(i)] + split_on(s.skip(i + 1), sep)
    } else {
        seq![s]
    }
}

/// `find_in` points at the first occurrence of the separator.
pub proof fn lemma_find_in<A>(s: Seq<A>, sep: A)
    ensures
        -1 <= find_in(s, sep) < s.len(),
        find_in(s, sep) >= 0 ==> s[find_in(s, sep)] == sep,
        find_in(s, sep) >= 0 ==> (forall|j: int| 0 <= j < find_in(s, sep) ==> s[j] != sep),
        find_in(s, sep) == -1 ==> (forall|j: int| 0 <= j < s.len() ==> s[j] != sep),
    decreases s.len(),
{
    if s.len() == 0 {
    } else if s[0] == sep {
    } else {
        lemma_find_in(s.drop_first(), sep);
        let r = find_in(s.drop_first(), sep);
        assert(forall|j: int| 0 <= j < s.drop_first().len() ==> s.drop_first()[j] == s[j + 1]);
        if r >= 0 {
            assert(s[r + 1] == s.drop_first()[r]);
            assert forall|j: int| 0 <= j < r + 1 implies s[j] != sep by {
                if j > 0 {
                    assert(s[j] == s.drop_first()[j - 1]);
                }
            }
        } else {
            assert forall|j: int| 0 <= j < s.len() implies s[j] != sep by {
                if j > 0 {
                    assert(s[j] == s.drop_first()[j - 1]);
                }
            }
        }
    }
}

/// The first occurrence determines `find_in` uniquely.
pub proof fn lemma_find_in_is<A>(s: Seq<A>, sep: A, i: int)
    requires
        0 <= i < s.len(),
        s[i] == sep,
        forall|j: int| 0 <= j < i ==> s[j] != sep,
    ensures
        find_in(s, sep) == i,
{
    lemma_find_in(s, sep);
    let f = find_in(s, sep);
    if f == -1 {
        assert(s[i] != sep);
    } else if f < i {
        assert(s[f] != sep);
    } else if f > i {
        assert(s[i] != sep);
    }
}

/// A sequence without the separator splits into itself alone.
pub proof fn lemma_split_no_sep<A>(s: Seq<A>, sep: A)
    requires
        forall|j: int| 0 <= j < s.len() ==> s[j] != sep,
    ensures
        split_on(s, sep) == seq![s],
{
    lemma_find_in(s, sep);
    let f = find_in(s, sep);
    if 0 <= f < s.len() {
        assert(s[f] != sep);
    }
}

/// Splitting a sequence that begins with a separator-free part followed by
/// a separator peels off that part.
pub proof fn lemma_split_concat<A>(s1: Seq<A>, rest: Seq<A>, sep: A)
    requires
        forall|j: int| 0 <= j < s1.len() ==> s1[j] != sep,
    ensures
        split_on(s1 + seq![sep] + rest, sep) == seq![s1] + split_on(rest, sep),
{
    let s = s1 + seq![sep] + rest;
    let n = s1.len() as int;
    assert(s[n] == sep);
    assert forall|j: int| 0 <= j < n implies s[j] != sep by {
        assert(s[j] == s1[j]);
    }
    lemma_find_in_is(s, sep, n);
    assert(s.take(n) =~= s1);
    assert(s.skip(n + 1) =~= rest);
    assert(split_on(s, sep) == seq![s.take(n)] + split_on(s.skip(n + 1), sep));
}

/// First occurrence of the byte `sep` in `s`, as executable code.
pub(crate) fn find_byte_at(s: &[u8], sep: u8) -> (r: Option<usize>)
    ensures
        (match r {
            Some(i) => find_in(s@, sep) == i as int,
            None => find_in(s@, sep) == -1,
        }),
{
    let mut i: usize = 0;
    while i < s.len()
        invariant
            0 <= i <= s@.len(),
            forall|j: int| 0 <= j < i ==> s@[j] != sep,
        decreases s@.len() - i,
    {
        if s[i] == sep {
            proof {
                lemma_find_in_is(s@, sep, i as int);
            }
            return Some(i);
        }
        i = i + 1;
    }
    proof {
        lemma_find_in(s@, sep);
        let f = find_in(s@, sep);
        if f >= 0 {
            assert(s@[f] != sep);
        }
    }
    None
}

} // verus!

