//! Small reusable facts about sequence operations used by the
//! scheduler's list proofs.

use vstd::prelude::*;

verus! {

/// Effect of `push` on length, indices, membership and distinctness.
pub proof fn lemma_push_effect<A>(s: Seq<A>, e: A)
    ensures
        s.push(e).len() == s.len() + 1,
        s.push(e)[s.len() as int] == e,
        forall|i: int| 0 <= i < s.len() ==> s.push(e)[i] == s[i],
        forall|x: A| s.push(e).contains(x) <==> (x == e || s.contains(x)),
        (s.no_duplicates() && !s.contains(e)) ==> s.push(e).no_duplicates(),
{
    assert forall|x: A| s.push(e).contains(x) <==> (x == e || s.contains(x)) by {
        if s.push(e).contains(x) {
            let i = choose|i: int| 0 <= i < s.push(e).len() && s.push(e)[i] == x;
            if i < s.len() {
                assert(s[i] == x);
            }
        }
        if x == e {
            assert(s.push(e)[s.len() as int] == x);
        }
        if s.contains(x) {
            let i = choose|i: int| 0 <= i < s.len() && s[i] == x;
            assert(s.push(e)[i] == x);
        }
    }
}

/// Effect of `insert` on length, indices, membership and distinctness.
pub proof fn lemma_insert_effect<A>(s: Seq<A>, k: int, e: A)
    requires
        0 <= k <= s.len(),
    ensures
        s.insert(k, e).len() == s.len() + 1,
        s.insert(k, e)[k] == e,
        forall|i: int| 0 <= i < k ==> s.insert(k, e)[i] == s[i],
        forall|i: int| k <= i < s.len() ==> s.insert(k, e)[i + 1] == s[i],
        forall|x: A| s.insert(k, e).contains(x) <==> (x == e || s.contains(x)),
        (s.no_duplicates() && !s.contains(e)) ==> s.insert(k, e).no_duplicates(),
{
    s.insert_ensures(k, e);
    assert forall|x: A| s.insert(k, e).contains(x) <==> (x == e || s.contains(x)) by {
        if s.insert(k, e).contains(x) {
            let i = choose|i: int|
                0 <= i < s.insert(k, e).len() && s.insert(k, e)[i] == x;
            if i < k {
                assert(s[i] == x);
            } else if i > k {
                assert(s[i - 1] == x);
            }
        }
        if s.contains(x) {
            let i = choose|i: int| 0 <= i < s.len() && s[i] == x;
            if i < k {
                assert(s.insert(k, e)[i] == x);
            } else {
                assert(s.insert(k, e)[i + 1] == x);
            }
        }
    }
    if s.no_duplicates() && !s.contains(e) {
        assert forall|i: int, j: int|
            0 <= i < s.insert(k, e).len() && 0 <= j < s.insert(k, e).len() && i != j implies s.insert(
            k,
            e,
        )[i] != s.insert(k, e)[j] by {
            let t = s.insert(k, e);
            if i != k && j != k {
                let i0: int = if i < k {
                    i
                } else {
                    i - 1
                };
                let j0: int = if j < k {
                    j
                } else {
                    j - 1
                };
                assert(t[i] == s[i0] && t[j] == s[j0]);
            } else if i == k {
                let j0: int = if j < k {
                    j
                } else {
                    j - 1
                };
                assert(t[j] == s[j0] && s.contains(s[j0]));
            } else {
                let i0: int = if i < k {
                    i
                } else {
                    i - 1
                };
                assert(t[i] == s[i0] && s.contains(s[i0]));
            }
        }
    }
}

/// Effect of `remove` on length, indices, membership and distinctness.
pub proof fn lemma_remove_effect<A>(s: Seq<A>, k: int)
    requires
        0 <= k < s.len(),
    ensures
        s.remove(k).len() == s.len() - 1,
        forall|i: int| 0 <= i < k ==> s.remove(k)[i] == s[i],
        forall|i: int| k <= i < s.len() - 1 ==> s.remove(k)[i] == s[i + 1],
        forall|x: A| s.remove(k).contains(x) ==> s.contains(x),
        s.no_duplicates() ==> forall|x: A|
            s.remove(k).contains(x) <==> (s.contains(x) && x != s[k]),
        s.no_duplicates() ==> s.remove(k).no_duplicates(),
{
    s.remove_ensures(k);
    assert forall|x: A| s.remove(k).contains(x) implies s.contains(x) by {
        let i = choose|i: int| 0 <= i < s.remove(k).len() && s.remove(k)[i] == x;
        if i < k {
            assert(s[i] == x);
        } else {
            assert(s[i + 1] == x);
        }
    }
    if s.no_duplicates() {
        assert forall|x: A| s.remove(k).contains(x) <==> (s.contains(x) && x != s[k]) by {
            if s.remove(k).contains(x) {
                let i = choose|i: int| 0 <= i < s.remove(k).len() && s.remove(k)[i] == x;
                if i < k {
                    assert(s[i] == x && i != k);
                } else {
                    assert(s[i + 1] == x && i + 1 != k);
                }
            }
            if s.contains(x) && x != s[k] {
                let i = choose|i: int| 0 <= i < s.len() && s[i] == x;
                if i < k {
                    assert(s.remove(k)[i] == x);
                } else {
                    assert(i > k);
                    assert(s.remove(k)[i - 1] == x);
                }
            }
        }
        assert forall|i: int, j: int|
            0 <= i < s.remove(k).len() && 0 <= j < s.remove(k).len() && i != j implies s.remove(
            k,
        )[i] != s.remove(k)[j] by {
            let i0: int = if i < k {
                i
            } else {
                i + 1
            };
            let j0: int = if j < k {
                j
            } else {
                j + 1
            };
            assert(s.remove(k)[i] == s[i0] && s.remove(k)[j] == s[j0]);
        }
    }
}

/// Effect of `remove_value` on length, indices, membership and
/// distinctness; removing the head leaves the rest of the queue.
pub proof fn lemma_remove_value_effect<A>(s: Seq<A>, t: A)
    ensures
        !s.contains(t) ==> s.remove_value(t) == s,
        s.contains(t) ==> s.remove_value(t).len() == s.len() - 1,
        forall|x: A| s.remove_value(t).contains(x) ==> s.contains(x),
        s.no_duplicates() ==> s.remove_value(t).no_duplicates(),
        s.no_duplicates() ==> (forall|x: A|
            s.remove_value(t).contains(x) <==> (s.contains(x) && x != t)),
        s.no_duplicates() ==> !s.remove_value(t).contains(t),
        s.len() > 0 && s[0] == t ==> s.remove_value(t) == s.drop_first(),
{
    s.index_of_first_ensures(t);
    match s.index_of_first(t) {
        Some(i) => {
            lemma_remove_effect(s, i);
            assert(s.contains(t)) by {
                assert(s[i] == t);
            }
            if s.len() > 0 && s[0] == t {
                assert(i == 0);
                assert(s.remove(0) =~= s.drop_first());
            }
        },
        None => {
            if s.contains(t) {
                let j = choose|j: int| 0 <= j < s.len() && s[j] == t;
                assert(s[j] != t);
            }
        },
    }
}

/// In a duplicate-free sequence, removing an element by value removes
/// exactly its (unique) position.
pub proof fn lemma_remove_value_at<A>(s: Seq<A>, i: int)
    requires
        s.no_duplicates(),
        0 <= i < s.len(),
    ensures
        s.remove_value(s[i]) == s.remove(i),
{
    s.index_of_first_ensures(s[i]);
    match s.index_of_first(s[i]) {
        Some(i0) => {
            assert(s[i0] == s[i]);
            assert(i0 == i);
        },
        None => {
            assert(s[i] != s[i]);
        },
    }
}

} // verus!
