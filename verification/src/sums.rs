//! Sums over finite sets of texts.
use vstd::prelude::*;

verus! {

/// The sum of `f` over a finite set.
pub open spec fn sum_over(s: Set<Seq<char>>, f: spec_fn(Seq<char>) -> nat) -> nat
    decreases s.len(),
{
    if s.finite() && s.len() > 0 {
        let x = s.choose();
        f(x) + sum_over(s.remove(x), f)
    } else {
        0
    }
}

/// A member's summand can be taken out first.
pub proof fn lemma_sum_remove(s: Set<Seq<char>>, f: spec_fn(Seq<char>) -> nat, x: Seq<char>)
    requires
        s.finite(),
        s.contains(x),
    ensures
        sum_over(s, f) == f(x) + sum_over(s.remove(x), f),
    decreases s.len(),
{
    let y = s.choose();
    assert(s.contains(y));
    if x != y {
        lemma_sum_remove(s.remove(y), f, x);
        lemma_sum_remove(s.remove(x), f, y);
        assert(s.remove(y).remove(x) =~= s.remove(x).remove(y));
    }
}

/// A new member adds its summand.
pub proof fn lemma_sum_insert(s: Set<Seq<char>>, f: spec_fn(Seq<char>) -> nat, x: Seq<char>)
    requires
        s.finite(),
        !s.contains(x),
    ensures
        sum_over(s.insert(x), f) == f(x) + sum_over(s, f),
{
    lemma_sum_remove(s.insert(x), f, x);
    assert(s.insert(x).remove(x) =~= s);
}

/// The sum depends on the summands of the members alone.
pub proof fn lemma_sum_same(
    s: Set<Seq<char>>,
    f: spec_fn(Seq<char>) -> nat,
    g: spec_fn(Seq<char>) -> nat,
)
    requires
        forall|x: Seq<char>| s.contains(x) ==> #[trigger] f(x) == g(x),
    ensures
        sum_over(s, f) == sum_over(s, g),
    decreases s.len(),
{
    if s.finite() && s.len() > 0 {
        let x = s.choose();
        assert(s.contains(x));
        assert(f(x) == g(x));
        lemma_sum_same(s.remove(x), f, g);
    }
}

/// A member's summand is at most the sum.
pub proof fn lemma_sum_at_least(s: Set<Seq<char>>, f: spec_fn(Seq<char>) -> nat, x: Seq<char>)
    requires
        s.finite(),
        s.contains(x),
    ensures
        f(x) <= sum_over(s, f),
{
    lemma_sum_remove(s, f, x);
}

/// A sum is positive where a summand is.
pub proof fn lemma_sum_positive(s: Set<Seq<char>>, f: spec_fn(Seq<char>) -> nat)
    requires
        s.finite(),
    ensures
        (sum_over(s, f) > 0) == (exists|x: Seq<char>| s.contains(x) && #[trigger] f(x) > 0),
    decreases s.len(),
{
    if s.len() > 0 {
        let x = s.choose();
        assert(s.contains(x));
        lemma_sum_positive(s.remove(x), f);
        if sum_over(s, f) > 0 {
            if f(x) == 0 {
                let y = choose|y: Seq<char>| s.remove(x).contains(y) && #[trigger] f(y) > 0;
                assert(s.contains(y) && f(y) > 0);
            }
        }
        if exists|y: Seq<char>| s.contains(y) && #[trigger] f(y) > 0 {
            let y = choose|y: Seq<char>| s.contains(y) && #[trigger] f(y) > 0;
            lemma_sum_at_least(s, f, y);
        }
    } else {
        assert(s =~= Set::empty());
    }
}

} // verus!
