use vstd::prelude::*;

verus! {

/// How many times `a` occurs in `s`.
pub open spec fn occurrences<A>(s: Seq<A>, a: A) -> nat
    decreases s.len(),
{
    if s.len() == 0 {
        0
    } else {
        occurrences(s.drop_last(), a) + if s.last() == a {
            1nat
        } else {
            0nat
        }
    }
}

/// One more element of `s` counts once more if it is `a`.
pub(crate) proof fn lemma_occurrences_step<A>(s: Seq<A>, j: int, a: A)
    requires
        0 <= j < s.len(),
    ensures
        occurrences(s.take(j + 1), a) == occurrences(s.take(j), a) + if s[j] == a {
            1nat
        } else {
            0nat
        },
{
    assert(s.take(j + 1).drop_last() == s.take(j));
}

/// A prefix holds no more occurrences than the whole.
pub(crate) proof fn lemma_occurrences_prefix<A>(s: Seq<A>, k: int, a: A)
    requires
        0 <= k <= s.len(),
    ensures
        occurrences(s.take(k), a) <= occurrences(s, a),
    decreases s.len() - k,
{
    if k == s.len() {
        assert(s.take(k) == s);
    } else {
        lemma_occurrences_step(s, k, a);
        lemma_occurrences_prefix(s, k + 1, a);
    }
}

/// `a` occurs in `s` exactly when `s` contains it.
pub(crate) proof fn lemma_occurrences_contains<A>(s: Seq<A>, a: A)
    ensures
        occurrences(s, a) > 0 <==> s.contains(a),
    decreases s.len(),
{
    if s.len() > 0 {
        lemma_occurrences_contains(s.drop_last(), a);
        if s.drop_last().contains(a) {
            let k = choose|k: int| 0 <= k < s.drop_last().len() && s.drop_last()[k] == a;
            assert(s[k] == a);
        }
        if s.contains(a) && s.last() != a {
            let k = choose|k: int| 0 <= k < s.len() && s[k] == a;
            assert(s.drop_last()[k] == a);
        }
    }
}

/// Occurrences add up over a concatenation.
pub(crate) proof fn lemma_occurrences_concat<A>(x: Seq<A>, y: Seq<A>, a: A)
    ensures
        occurrences(x + y, a) == occurrences(x, a) + occurrences(y, a),
    decreases y.len(),
{
    if y.len() > 0 {
        assert((x + y).drop_last() == x + y.drop_last());
        lemma_occurrences_concat(x, y.drop_last(), a);
    } else {
        assert(x + y == x);
    }
}

/// `n` copies of `q` hold `n` occurrences of `q` and none of anything else.
pub(crate) proof fn lemma_occurrences_repeat<A>(n: nat, q: A, a: A)
    ensures
        occurrences(Seq::new(n, |_i: int| q), a) == if q == a {
            n
        } else {
            0
        },
    decreases n,
{
    if n > 0 {
        assert(Seq::new(n, |_i: int| q).drop_last() == Seq::new((n - 1) as nat, |_i: int| q));
        lemma_occurrences_repeat((n - 1) as nat, q, a);
    }
}

} // verus!
