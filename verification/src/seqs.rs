//! Small facts about duplicate-free sequences used by the pool and the
//! consumable registry.
use vstd::prelude::*;

verus! {

/// Membership in a sequence extended by one element.
pub proof fn lemma_push_contains<A>(s: Seq<A>, e: A, q: A)
    ensures
        s.push(e).contains(q) <==> (s.contains(q) || q == e),
{
    if s.push(e).contains(q) {
        let k = choose|k: int| 0 <= k < s.push(e).len() && s.push(e)[k] == q;
        if k < s.len() {
            assert(s[k] == q);
        }
    }
    if s.contains(q) {
        let k = choose|k: int| 0 <= k < s.len() && s[k] == q;
        assert(s.push(e)[k] == q);
    }
    if q == e {
        assert(s.push(e)[s.len() as int] == q);
    }
}

/// Pushing a fresh element keeps a sequence duplicate-free.
pub proof fn lemma_push_no_duplicates<A>(s: Seq<A>, e: A)
    requires
        s.no_duplicates(),
        !s.contains(e),
    ensures
        s.push(e).no_duplicates(),
{
    let t = s.push(e);
    assert forall|a: int, b: int| 0 <= a < b < t.len() implies t[a] != t[b] by {
        if b == s.len() {
            assert(t[a] == s[a]);
        } else {
            assert(t[a] == s[a] && t[b] == s[b]);
        }
    }
}

/// Removing index `i` by a swap with the last element removes exactly the
/// element at `i` from a duplicate-free sequence.
pub proof fn lemma_swap_remove_contains<A>(s: Seq<A>, i: int)
    requires
        s.no_duplicates(),
        0 <= i < s.len(),
    ensures
        ({
            let t = s.update(i, s.last()).drop_last();
            &&& t.no_duplicates()
            &&& forall|q: A| t.contains(q) <==> (s.contains(q) && q != s[i])
        }),
{
    let t = s.update(i, s.last()).drop_last();
    assert forall|q: A| t.contains(q) implies (s.contains(q) && q != s[i]) by {
        let k = choose|k: int| 0 <= k < t.len() && t[k] == q;
        if k == i {
            assert(s[s.len() - 1] == q);
        } else {
            assert(s[k] == q);
        }
    }
    assert forall|q: A| (s.contains(q) && q != s[i]) implies t.contains(q) by {
        let j = choose|j: int| 0 <= j < s.len() && s[j] == q;
        if j == s.len() - 1 {
            assert(i < s.len() - 1);
            assert(t[i] == q);
        } else if j == i {
            assert(false);
        } else {
            assert(t[j] == q);
        }
    }
    assert forall|a: int, b: int| 0 <= a < b < t.len() implies t[a] != t[b] by {
        if a == i {
            assert(t[a] == s[s.len() - 1] && t[b] == s[b]);
        } else if b == i {
            assert(t[a] == s[a] && t[b] == s[s.len() - 1]);
        } else {
            assert(t[a] == s[a] && t[b] == s[b]);
        }
    }
}

} // verus!
