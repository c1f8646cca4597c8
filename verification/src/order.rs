//! Lists made of others by leaving some of their members out.
use vstd::prelude::*;

verus! {

/// Whether `at` names places of a list of `n` members, in their order.
pub open spec fn are_places(at: Seq<int>, n: int) -> bool {
    &&& forall|i: int| 0 <= i < at.len() ==> 0 <= #[trigger] at[i] < n
    &&& forall|i: int, j: int| 0 <= i < j < at.len() ==> #[trigger] at[i] < #[trigger] at[j]
}

/// Whether `r` holds the members of `s` at the places `at`, and these are the places of all that
/// `keep` holds of.
pub open spec fn is_kept_at<A>(
    r: Seq<A>,
    s: Seq<A>,
    keep: spec_fn(A) -> bool,
    at: Seq<int>,
) -> bool {
    &&& are_places(at, s.len() as int)
    &&& r.len() == at.len()
    &&& forall|i: int| 0 <= i < r.len() ==> #[trigger] r[i] == s[at[i]]
    &&& forall|j: int| 0 <= j < s.len() ==> (keep(#[trigger] s[j]) <==> at.contains(j))
}

/// Whether `r` holds those members of `s` that `keep` holds of, in their order, and no others.
pub open spec fn keeps<A>(r: Seq<A>, s: Seq<A>, keep: spec_fn(A) -> bool) -> bool {
    exists|at: Seq<int>| is_kept_at(r, s, keep, at)
}

/// Filtering a list keeps what it says.
pub proof fn filtering_keeps<A>(s: Seq<A>, keep: spec_fn(A) -> bool)
    ensures
        keeps(s.filter(keep), s, keep),
    decreases s.len(),
{
    reveal(Seq::filter);
    if s.len() == 0 {
        let at = Seq::<int>::empty();
        assert(is_kept_at(s.filter(keep), s, keep, at));
    } else {
        let t = s.drop_last();
        let n = t.len() as int;
        filtering_keeps(t, keep);
        let before = choose|at: Seq<int>| is_kept_at(t.filter(keep), t, keep, at);
        let at = if keep(s.last()) {
            before.push(n)
        } else {
            before
        };
        let r = s.filter(keep);
        assert forall|i: int| 0 <= i < at.len() implies 0 <= #[trigger] at[i] < s.len() by {
            if i < before.len() {
                assert(at[i] == before[i]);
            }
        }
        assert forall|i: int, j: int| 0 <= i < j < at.len() implies #[trigger] at[i]
            < #[trigger] at[j] by {
            assert(at[i] == before[i]);
            if j < before.len() {
                assert(at[j] == before[j]);
            }
        }
        assert forall|i: int| 0 <= i < r.len() implies #[trigger] r[i] == s[at[i]] by {
            if i < before.len() {
                assert(t.filter(keep)[i] == t[before[i]]);
            }
        }
        assert forall|j: int| 0 <= j < s.len() implies (keep(#[trigger] s[j]) <==> at.contains(j)) by {
            if j < n {
                assert(t[j] == s[j]);
                if before.contains(j) {
                    let k = choose|k: int| 0 <= k < before.len() && before[k] == j;
                    assert(at[k] == j);
                }
                if at.contains(j) {
                    let k = choose|k: int| 0 <= k < at.len() && at[k] == j;
                    assert(before[k] == j);
                }
            } else {
                if keep(s.last()) {
                    assert(at[before.len() as int] == n);
                }
                if at.contains(j) && !keep(s.last()) {
                    let k = choose|k: int| 0 <= k < at.len() && at[k] == j;
                    assert(before[k] < n);
                }
            }
        }
        assert(is_kept_at(r, s, keep, at));
    }
}

/// What is kept was there and is wanted, and what is wanted is kept.
pub proof fn kept_members<A>(r: Seq<A>, s: Seq<A>, keep: spec_fn(A) -> bool)
    requires
        keeps(r, s, keep),
    ensures
        r.len() <= s.len(),
        forall|i: int| 0 <= i < r.len() ==> keep(#[trigger] r[i]) && s.contains(r[i]),
        forall|j: int| 0 <= j < s.len() && keep(#[trigger] s[j]) ==> r.contains(s[j]),
{
    let at = choose|at: Seq<int>| is_kept_at(r, s, keep, at);
    assert forall|i: int| 0 <= i < r.len() implies keep(#[trigger] r[i]) && s.contains(r[i]) by {
        assert(at.contains(at[i]));
        assert(keep(s[at[i]]));
    }
    assert forall|j: int| 0 <= j < s.len() && keep(#[trigger] s[j]) implies r.contains(s[j]) by {
        let k = choose|k: int| 0 <= k < at.len() && at[k] == j;
        assert(r[k] == s[j]);
    }
    lemma_places_len(at, s.len() as int);
}

proof fn lemma_places_len(at: Seq<int>, n: int)
    requires
        n >= 0,
        are_places(at, n),
    ensures
        at.len() <= n,
    decreases n,
{
    if at.len() > 0 {
        let t = at.drop_last();
        assert forall|i: int| 0 <= i < t.len() implies 0 <= #[trigger] t[i] < n - 1 by {
            assert(at[i] < at[at.len() - 1]);
        }
        assert forall|i: int, j: int| 0 <= i < j < t.len() implies #[trigger] t[i] < #[trigger] t[j] by {
            assert(at[i] < at[j]);
        }
        assert(0 <= at[0] < n);
        lemma_places_len(t, n - 1);
    }
}

/// Where everything is kept, nothing is left out.
pub proof fn keeping_all_changes_nothing<A>(r: Seq<A>, s: Seq<A>, keep: spec_fn(A) -> bool)
    requires
        keeps(r, s, keep),
        forall|j: int| 0 <= j < s.len() ==> keep(#[trigger] s[j]),
    ensures
        r == s,
    decreases s.len(),
{
    let at = choose|at: Seq<int>| is_kept_at(r, s, keep, at);
    assert forall|j: int| 0 <= j < s.len() implies #[trigger] at.contains(j) by {
        assert(keep(s[j]));
    }
    lemma_all_places(at, s.len() as int);
    assert(r =~= s);
}

proof fn lemma_all_places(at: Seq<int>, n: int)
    requires
        n >= 0,
        are_places(at, n),
        forall|j: int| 0 <= j < n ==> #[trigger] at.contains(j),
    ensures
        at.len() == n,
        forall|i: int| 0 <= i < n ==> at[i] == i,
    decreases n,
{
    if n > 0 {
        assert(at.contains(n - 1));
        let k = choose|k: int| 0 <= k < at.len() && at[k] == n - 1;
        if k < at.len() - 1 {
            assert(at[k] < at[at.len() - 1]);
        }
        let t = at.drop_last();
        assert forall|i: int| 0 <= i < t.len() implies 0 <= #[trigger] t[i] < n - 1 by {
            assert(at[i] < at[at.len() - 1]);
        }
        assert forall|i: int, j: int| 0 <= i < j < t.len() implies #[trigger] t[i] < #[trigger] t[j] by {
            assert(at[i] < at[j]);
        }
        assert forall|j: int| 0 <= j < n - 1 implies #[trigger] t.contains(j) by {
            assert(at.contains(j));
            let m = choose|m: int| 0 <= m < at.len() && at[m] == j;
            assert(t[m] == j);
        }
        lemma_all_places(t, n - 1);
        assert forall|i: int| 0 <= i < n implies at[i] == i by {
            if i < n - 1 {
                assert(t[i] == at[i]);
            }
        }
    } else if at.len() > 0 {
        assert(0 <= at[0] < n);
    }
}

/// Whether `n` members of `s` are such that `p` holds of them.
pub open spec fn counts<A>(s: Seq<A>, p: spec_fn(A) -> bool, n: int) -> bool {
    exists|r: Seq<A>| #[trigger] keeps(r, s, p) && r.len() == n
}

/// The length of a filtered list is the number of members that pass the filter.
pub proof fn filtering_counts<A>(s: Seq<A>, p: spec_fn(A) -> bool)
    ensures
        counts(s, p, s.filter(p).len() as int),
{
    filtering_keeps(s, p);
}

} // verus!
