use vstd::prelude::*;
use vstd::std_specs::btree::increasing_seq;
use vstd::std_specs::cmp::OrdSpec;

verus! {

/// Whether the ids of `q` stand in strictly increasing order.
pub open spec fn increasing_ids(q: Seq<u128>) -> bool {
    forall|i: int, j: int| 0 <= i < j < q.len() ==> #[trigger] q[i] < #[trigger] q[j]
}

/// The ids of `s` in increasing order (meaningful where `ordered(s)`).
pub open spec fn sorted_ids(s: Set<u128>) -> Seq<u128> {
    choose|q: Seq<u128>| increasing_ids(q) && q.to_set() == s
}

/// Whether the ids of `s` can be listed in increasing order, each once.
pub open spec fn ordered(s: Set<u128>) -> bool {
    increasing_ids(sorted_ids(s)) && sorted_ids(s).to_set() == s
}

/// The keys of a map walked in order come in increasing order.
pub proof fn lemma_walk_increasing(ks: Seq<u128>)
    requires
        increasing_seq(ks),
    ensures
        increasing_ids(ks),
{
    assert(vstd::laws_cmp::obeys_cmp::<u128>());
    vstd::std_specs::btree::axiom_increasing_seq_meaning(ks);
    assert forall|i: int, j: int| 0 <= i < j < ks.len() implies #[trigger] ks[i] < #[trigger] ks[j] by {
        assert(ks[i].cmp_spec(&ks[j]) is Less);
    }
}

/// Two increasing lists of the same ids are the same list.
pub proof fn lemma_increasing_unique(a: Seq<u128>, b: Seq<u128>)
    requires
        increasing_ids(a),
        increasing_ids(b),
        a.to_set() == b.to_set(),
    ensures
        a == b,
    decreases a.len(),
{
    if a.len() == 0 {
        if b.len() > 0 {
            assert(b.to_set().contains(b[0]));
        }
        assert(a =~= b);
    } else {
        assert(a.to_set().contains(a[0]));
        assert(b.len() > 0);
        assert(b.to_set().contains(b[0]));
        assert(a.contains(b[0]));
        assert(b.contains(a[0]));
        let i = choose|i: int| 0 <= i < a.len() && a[i] == b[0];
        let j = choose|j: int| 0 <= j < b.len() && b[j] == a[0];
        if i > 0 {
            assert(a[0] < a[i]);
        }
        if j > 0 {
            assert(b[0] < b[j]);
        }
        assert(a[0] == b[0]);
        let a1 = a.skip(1);
        let b1 = b.skip(1);
        assert(increasing_ids(a1)) by {
            assert forall|x: int, y: int| 0 <= x < y < a1.len() implies #[trigger] a1[x]
                < #[trigger] a1[y] by {
                assert(a1[x] == a[x + 1] && a1[y] == a[y + 1]);
            }
        }
        assert(increasing_ids(b1)) by {
            assert forall|x: int, y: int| 0 <= x < y < b1.len() implies #[trigger] b1[x]
                < #[trigger] b1[y] by {
                assert(b1[x] == b[x + 1] && b1[y] == b[y + 1]);
            }
        }
        assert forall|x: u128| a1.to_set().contains(x) <==> b1.to_set().contains(x) by {
            if a1.to_set().contains(x) {
                assert(a1.contains(x));
                let p = choose|p: int| 0 <= p < a1.len() && a1[p] == x;
                assert(a[p + 1] == x);
                assert(a[0] < a[p + 1]);
                assert(a.to_set().contains(x));
                assert(b.contains(x));
                let q = choose|q: int| 0 <= q < b.len() && b[q] == x;
                assert(q != 0);
                assert(b1[q - 1] == x);
                assert(b1.contains(x));
            }
            if b1.to_set().contains(x) {
                assert(b1.contains(x));
                let p = choose|p: int| 0 <= p < b1.len() && b1[p] == x;
                assert(b[p + 1] == x);
                assert(b[0] < b[p + 1]);
                assert(b.to_set().contains(x));
                assert(a.contains(x));
                let q = choose|q: int| 0 <= q < a.len() && a[q] == x;
                assert(q != 0);
                assert(a1[q - 1] == x);
                assert(a1.contains(x));
            }
        }
        assert(a1.to_set() =~= b1.to_set());
        lemma_increasing_unique(a1, b1);
        assert(a =~= seq![a[0]] + a1);
        assert(b =~= seq![b[0]] + b1);
    }
}

/// An increasing list of the ids of `s` is the one `sorted_ids` gives.
pub proof fn lemma_sorted_ids_is(q: Seq<u128>, s: Set<u128>)
    requires
        increasing_ids(q),
        q.to_set() == s,
    ensures
        ordered(s),
        sorted_ids(s) == q,
{
    let r = sorted_ids(s);
    assert(increasing_ids(r) && r.to_set() == s);
    lemma_increasing_unique(q, r);
}

/// Adding an id at its place keeps the list in order.
pub proof fn lemma_sorted_ids_insert(s: Set<u128>, k: u128, p: int)
    requires
        ordered(s),
        !s.contains(k),
        0 <= p <= sorted_ids(s).len(),
        forall|j: int| 0 <= j < p ==> #[trigger] sorted_ids(s)[j] < k,
        forall|j: int| p <= j < sorted_ids(s).len() ==> !(#[trigger] sorted_ids(s)[j] < k),
    ensures
        ordered(s.insert(k)),
        sorted_ids(s.insert(k)) == sorted_ids(s).insert(p, k),
{
    let q = sorted_ids(s);
    let t = q.insert(p, k);
    assert forall|j: int| p <= j < q.len() implies k < #[trigger] q[j] by {
        assert(q.to_set().contains(q[j]));
    }
    assert(increasing_ids(t)) by {
        assert forall|x: int, y: int| 0 <= x < y < t.len() implies #[trigger] t[x]
            < #[trigger] t[y] by {
            if y < p {
            } else if y == p {
            } else if x < p {
                assert(t[y] == q[y - 1]);
            } else if x == p {
                assert(t[y] == q[y - 1]);
            } else {
                assert(t[y] == q[y - 1]);
                assert(t[x] == q[x - 1]);
            }
        }
    }
    assert forall|x: u128| t.to_set().contains(x) <==> s.insert(k).contains(x) by {
        if t.to_set().contains(x) {
            assert(t.contains(x));
            let i = choose|i: int| 0 <= i < t.len() && t[i] == x;
            if i < p {
                assert(q[i] == x);
                assert(q.to_set().contains(x));
            } else if i > p {
                assert(q[i - 1] == x);
                assert(q.to_set().contains(x));
            }
        }
        if s.insert(k).contains(x) {
            if x == k {
                assert(t[p] == k);
            } else {
                assert(q.to_set().contains(x));
                assert(q.contains(x));
                let i = choose|i: int| 0 <= i < q.len() && q[i] == x;
                if i < p {
                    assert(t[i] == x);
                } else {
                    assert(t[i + 1] == x);
                }
            }
            assert(t.contains(x));
        }
    }
    assert(t.to_set() =~= s.insert(k));
    lemma_sorted_ids_is(t, s.insert(k));
}

/// Taking an id out keeps the list in order.
pub proof fn lemma_sorted_ids_remove(s: Set<u128>, p: int)
    requires
        ordered(s),
        0 <= p < sorted_ids(s).len(),
    ensures
        ordered(s.remove(sorted_ids(s)[p])),
        sorted_ids(s.remove(sorted_ids(s)[p])) == sorted_ids(s).remove(p),
{
    let q = sorted_ids(s);
    let k = q[p];
    let t = q.remove(p);
    assert(increasing_ids(t)) by {
        assert forall|x: int, y: int| 0 <= x < y < t.len() implies #[trigger] t[x]
            < #[trigger] t[y] by {
            if y < p {
            } else if x < p {
                assert(t[y] == q[y + 1]);
            } else {
                assert(t[y] == q[y + 1]);
                assert(t[x] == q[x + 1]);
            }
        }
    }
    assert forall|x: u128| t.to_set().contains(x) <==> s.remove(k).contains(x) by {
        if t.to_set().contains(x) {
            assert(t.contains(x));
            let i = choose|i: int| 0 <= i < t.len() && t[i] == x;
            if i < p {
                assert(q[i] == x);
                assert(x < k);
            } else {
                assert(q[i + 1] == x);
                assert(k < x);
            }
            assert(q.contains(x));
            assert(q.to_set().contains(x));
        }
        if s.remove(k).contains(x) {
            assert(q.to_set().contains(x));
            assert(q.contains(x));
            let i = choose|i: int| 0 <= i < q.len() && q[i] == x;
            assert(i != p);
            if i < p {
                assert(t[i] == x);
            } else {
                assert(t[i - 1] == x);
            }
            assert(t.contains(x));
        }
    }
    assert(t.to_set() =~= s.remove(k));
    lemma_sorted_ids_is(t, s.remove(k));
}

/// The empty set of ids is in order.
pub proof fn lemma_sorted_ids_empty()
    ensures
        ordered(Set::<u128>::empty()),
        sorted_ids(Set::<u128>::empty()) == Seq::<u128>::empty(),
{
    let e = Seq::<u128>::empty();
    assert(e.to_set() =~= Set::<u128>::empty());
    lemma_sorted_ids_is(e, Set::<u128>::empty());
}

/// A list of ids in increasing order has as many ids as the set it lists.
pub proof fn lemma_ids_count(q: Seq<u128>)
    requires
        increasing_ids(q),
    ensures
        q.to_set().len() == q.len(),
{
    assert(q.no_duplicates()) by {
        assert forall|i: int, j: int| 0 <= i < q.len() && 0 <= j < q.len() && i != j implies q[i]
            != q[j] by {
            if i < j {
                assert(q[i] < q[j]);
            } else {
                assert(q[j] < q[i]);
            }
        }
    }
    q.unique_seq_to_set();
}

} // verus!
