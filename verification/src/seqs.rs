//! Removal of the first occurrence of a value from a sequence, and the
//! facts about it that the registry and tree contracts rely on.

use vstd::prelude::*;

verus! {

/// The sequence with the first occurrence of `v` removed, or `s` itself
/// if `v` does not occur.
pub open spec fn seq_remove_first(s: Seq<u64>, v: u64) -> Seq<u64>
    decreases s.len(),
{
    if s.len() == 0 {
        s
    } else if s[0] == v {
        s.drop_first()
    } else {
        seq![s[0]] + seq_remove_first(s.drop_first(), v)
    }
}

/// Removing an absent value leaves the sequence unchanged.
pub proof fn lemma_remove_first_absent(s: Seq<u64>, v: u64)
    requires
        !s.contains(v),
    ensures
        seq_remove_first(s, v) == s,
    decreases s.len(),
{
    if s.len() == 0 {
    } else {
        assert(s[0] != v);
        assert(forall|i: int| 0 <= i < s.drop_first().len() ==> s.drop_first()[i] == s[i + 1]);
        lemma_remove_first_absent(s.drop_first(), v);
        assert(seq![s[0]] + s.drop_first() =~= s);
    }
}

/// Removing a value whose first occurrence is at index `k` is removal at
/// that index.
pub proof fn lemma_remove_first_at_index(s: Seq<u64>, v: u64, k: int)
    requires
        0 <= k < s.len(),
        s[k] == v,
        forall|j: int| 0 <= j < k ==> s[j] != v,
    ensures
        seq_remove_first(s, v) == s.remove(k),
    decreases k,
{
    if k == 0 {
        assert(seq_remove_first(s, v) == s.drop_first());
        assert(s.drop_first() =~= s.remove(0));
    } else {
        assert(s[0] != v);
        assert(s.drop_first()[k - 1] == v);
        lemma_remove_first_at_index(s.drop_first(), v, k - 1);
        assert(seq![s[0]] + s.drop_first().remove(k - 1) =~= s.remove(k));
    }
}

/// Removal distributes over concatenation: it strikes the value from the
/// first part that contains it.
pub proof fn lemma_remove_first_concat(a: Seq<u64>, b: Seq<u64>, v: u64)
    ensures
        seq_remove_first(a + b, v) == if a.contains(v) {
            seq_remove_first(a, v) + b
        } else {
            a + seq_remove_first(b, v)
        },
    decreases a.len(),
{
    if a.len() == 0 {
        assert(a + b =~= b);
        assert(!a.contains(v));
        assert(a + seq_remove_first(b, v) =~= seq_remove_first(b, v));
    } else {
        assert((a + b)[0] == a[0]);
        if a[0] == v {
            assert(a.contains(v));
            assert((a + b).drop_first() =~= a.drop_first() + b);
            assert(seq_remove_first(a, v) == a.drop_first());
        } else {
            assert((a + b).drop_first() =~= a.drop_first() + b);
            lemma_remove_first_concat(a.drop_first(), b, v);
            assert(a.contains(v) <==> a.drop_first().contains(v)) by {
                if a.contains(v) {
                    let i = choose|i: int| 0 <= i < a.len() && a[i] == v;
                    assert(i != 0);
                    assert(a.drop_first()[i - 1] == v);
                }
                if a.drop_first().contains(v) {
                    let i = choose|i: int| 0 <= i < a.drop_first().len() && a.drop_first()[i] == v;
                    assert(a[i + 1] == v);
                }
            }
            if a.contains(v) {
                assert(seq![a[0]] + (seq_remove_first(a.drop_first(), v) + b)
                    =~= (seq![a[0]] + seq_remove_first(a.drop_first(), v)) + b);
            } else {
                assert(seq![a[0]] + (a.drop_first() + seq_remove_first(b, v))
                    =~= (seq![a[0]] + a.drop_first()) + seq_remove_first(b, v));
                assert(seq![a[0]] + a.drop_first() =~= a);
            }
        }
    }
}

/// What removal does to membership: the value itself loses one occurrence,
/// every other value keeps all of its occurrences.
pub proof fn lemma_remove_first_multiset(s: Seq<u64>, v: u64)
    requires
        s.contains(v),
    ensures
        seq_remove_first(s, v).to_multiset() == s.to_multiset().remove(v),
        seq_remove_first(s, v).len() == s.len() - 1,
    decreases s.len(),
{
    broadcast use vstd::seq_lib::group_to_multiset_ensures;

    if s[0] == v {
        assert(s =~= seq![s[0]] + s.drop_first());
        assert(s == s.drop_first().insert(0, v));
        assert(s.drop_first().insert(0, v).to_multiset() =~= s.drop_first().to_multiset().insert(v));
        assert(seq_remove_first(s, v).to_multiset() =~= s.to_multiset().remove(v));
    } else {
        assert(s.drop_first().contains(v)) by {
            let i = choose|i: int| 0 <= i < s.len() && s[i] == v;
            assert(i != 0);
            assert(s.drop_first()[i - 1] == v);
        }
        lemma_remove_first_multiset(s.drop_first(), v);
        let rest = seq_remove_first(s.drop_first(), v);
        assert(seq![s[0]] + rest == rest.insert(0, s[0]));
        assert(rest.insert(0, s[0]).to_multiset() =~= rest.to_multiset().insert(s[0]));
        assert(s == s.drop_first().insert(0, s[0]));
        assert(s.drop_first().insert(0, s[0]).to_multiset() =~= s.drop_first().to_multiset().insert(s[0]));
        assert(seq_remove_first(s, v).to_multiset()
            =~= s.drop_first().to_multiset().remove(v).insert(s[0]));
        assert(s.to_multiset().remove(v) =~= s.drop_first().to_multiset().insert(s[0]).remove(v));
        assert(s.drop_first().to_multiset().remove(v).insert(s[0])
            =~= s.drop_first().to_multiset().insert(s[0]).remove(v));
    }
}

/// A sequence without duplicates stays duplicate-free when a value is
/// removed, and no longer contains the removed value.
pub proof fn lemma_remove_first_no_duplicates(s: Seq<u64>, v: u64)
    requires
        s.no_duplicates(),
    ensures
        seq_remove_first(s, v).no_duplicates(),
        !seq_remove_first(s, v).contains(v),
        forall|x: u64| x != v ==> (#[trigger] seq_remove_first(s, v).contains(x) <==> s.contains(x)),
    decreases s.len(),
{
    if s.len() == 0 {
    } else if s[0] == v {
        assert(s.drop_first().no_duplicates());
        assert forall|x: u64| x != v implies
            (#[trigger] seq_remove_first(s, v).contains(x) <==> s.contains(x)) by {
            if s.contains(x) {
                let i = choose|i: int| 0 <= i < s.len() && s[i] == x;
                assert(i != 0);
                assert(s.drop_first()[i - 1] == x);
            }
            if s.drop_first().contains(x) {
                let i = choose|i: int| 0 <= i < s.drop_first().len() && s.drop_first()[i] == x;
                assert(s[i + 1] == x);
            }
        }
        assert(!s.drop_first().contains(v)) by {
            if s.drop_first().contains(v) {
                let i = choose|i: int| 0 <= i < s.drop_first().len() && s.drop_first()[i] == v;
                assert(s[i + 1] == v && s[0] == v);
            }
        }
    } else {
        assert(s.drop_first().no_duplicates());
        lemma_remove_first_no_duplicates(s.drop_first(), v);
        let rest = seq_remove_first(s.drop_first(), v);
        let whole = seq![s[0]] + rest;
        assert forall|x: u64| whole.contains(x) implies x == s[0] || rest.contains(x) by {
            let i = choose|i: int| 0 <= i < whole.len() && whole[i] == x;
            if i != 0 {
                assert(rest[i - 1] == x);
            }
        }
        assert forall|x: u64| x != v implies (#[trigger] whole.contains(x) <==> s.contains(x)) by {
            if s.contains(x) {
                let i = choose|i: int| 0 <= i < s.len() && s[i] == x;
                if i == 0 {
                    assert(whole[0] == x);
                } else {
                    assert(s.drop_first()[i - 1] == x);
                    assert(s.drop_first().contains(x));
                    assert(rest.contains(x));
                    let j = choose|j: int| 0 <= j < rest.len() && rest[j] == x;
                    assert(whole[j + 1] == x);
                }
            }
            if whole.contains(x) {
                if x == s[0] {
                    assert(s[0] == x);
                } else {
                    assert(rest.contains(x));
                    assert(s.drop_first().contains(x));
                    let i = choose|i: int| 0 <= i < s.drop_first().len() && s.drop_first()[i] == x;
                    assert(s[i + 1] == x);
                }
            }
        }
        assert(!s.drop_first().contains(s[0])) by {
            if s.drop_first().contains(s[0]) {
                let i = choose|i: int| 0 <= i < s.drop_first().len() && s.drop_first()[i] == s[0];
                assert(s[i + 1] == s[0]);
            }
        }
        assert(!rest.contains(s[0]));
        assert(whole.no_duplicates()) by {
            assert forall|i: int, j: int| 0 <= i < j < whole.len() implies whole[i] != whole[j] by {
                if i == 0 {
                    assert(whole[j] == rest[j - 1]);
                    assert(rest.contains(rest[j - 1]));
                } else {
                    assert(whole[i] == rest[i - 1] && whole[j] == rest[j - 1]);
                }
            }
        }
        assert(!whole.contains(v)) by {
            if whole.contains(v) {
                assert(s[0] == v || rest.contains(v));
            }
        }
    }
}

/// Appending a fresh value keeps a sequence duplicate-free.
pub proof fn lemma_push_fresh_no_duplicates(s: Seq<u64>, v: u64)
    requires
        s.no_duplicates(),
        !s.contains(v),
    ensures
        s.push(v).no_duplicates(),
        forall|x: u64| #[trigger] s.push(v).contains(x) <==> (x == v || s.contains(x)),
{
    let w = s.push(v);
    assert forall|i: int, j: int| 0 <= i < j < w.len() implies w[i] != w[j] by {
        if j == s.len() {
            assert(s.contains(s[i]));
        }
    }
    assert forall|x: u64| #[trigger] w.contains(x) implies (x == v || s.contains(x)) by {
        let i = choose|i: int| 0 <= i < w.len() && w[i] == x;
        if i < s.len() {
            assert(s[i] == x);
        }
    }
    assert forall|x: u64| (x == v || s.contains(x)) implies #[trigger] w.contains(x) by {
        if x == v {
            assert(w[s.len() as int] == v);
        } else {
            let i = choose|i: int| 0 <= i < s.len() && s[i] == x;
            assert(w[i] == x);
        }
    }
}

/// Prepending a fresh value keeps a sequence duplicate-free.
pub proof fn lemma_cons_fresh_no_duplicates(s: Seq<u64>, v: u64)
    requires
        s.no_duplicates(),
        !s.contains(v),
    ensures
        (seq![v] + s).no_duplicates(),
        forall|x: u64| #[trigger] (seq![v] + s).contains(x) <==> (x == v || s.contains(x)),
{
    let w = seq![v] + s;
    assert forall|i: int, j: int| 0 <= i < j < w.len() implies w[i] != w[j] by {
        if i == 0 {
            assert(w[j] == s[j - 1]);
            assert(s.contains(s[j - 1]));
        } else {
            assert(w[i] == s[i - 1] && w[j] == s[j - 1]);
        }
    }
    assert forall|x: u64| #[trigger] w.contains(x) implies (x == v || s.contains(x)) by {
        let i = choose|i: int| 0 <= i < w.len() && w[i] == x;
        if i != 0 {
            assert(s[i - 1] == x);
        }
    }
    assert forall|x: u64| (x == v || s.contains(x)) implies #[trigger] w.contains(x) by {
        if x == v {
            assert(w[0] == v);
        } else {
            let i = choose|i: int| 0 <= i < s.len() && s[i] == x;
            assert(w[i + 1] == x);
        }
    }
}

/// Putting a value back after removing it restores the original set of
/// values: the set after remove-then-append equals the original set with
/// the value included.
pub proof fn lemma_remove_then_push_restores_set(s: Seq<u64>, v: u64)
    requires
        s.no_duplicates(),
    ensures
        seq_remove_first(s, v).push(v).to_set() == s.to_set().insert(v),
        seq_remove_first(s, v).push(v).no_duplicates(),
    decreases s.len(),
{
    lemma_remove_first_no_duplicates(s, v);
    let r = seq_remove_first(s, v);
    assert forall|x: u64| r.push(v).contains(x) implies s.to_set().insert(v).contains(x) by {
        if x != v {
            let i = choose|i: int| 0 <= i < r.push(v).len() && r.push(v)[i] == x;
            assert(i < r.len());
            assert(r.contains(x));
        }
    }
    assert forall|x: u64| s.to_set().insert(v).contains(x) implies r.push(v).contains(x) by {
        if x == v {
            assert(r.push(v)[r.len() as int] == v);
        } else {
            assert(s.contains(x));
            assert(r.contains(x));
            let i = choose|i: int| 0 <= i < r.len() && r[i] == x;
            assert(r.push(v)[i] == x);
        }
    }
    assert(r.push(v).to_set() =~= s.to_set().insert(v));
    assert(r.push(v).no_duplicates()) by {
        assert forall|i: int, j: int| 0 <= i < j < r.push(v).len() implies r.push(v)[i] != r.push(v)[j] by {
            if j == r.len() {
                assert(r.contains(r[i]));
            }
        }
    }
}

} // verus!
