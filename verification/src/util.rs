use vstd::prelude::*;

verus! {

/// Whether an association sequence holds an entry for key `k`.
pub open spec fn alist_has<K, V>(s: Seq<(K, V)>, k: K) -> bool {
    exists|i: int| 0 <= i < s.len() && s[i].0 == k
}

/// The index of the entry for key `k` (meaningful when keys are unique).
pub open spec fn alist_idx<K, V>(s: Seq<(K, V)>, k: K) -> int {
    choose|i: int| 0 <= i < s.len() && s[i].0 == k
}

/// The value bound to key `k` (meaningful when `alist_has(s, k)`).
pub open spec fn alist_val<K, V>(s: Seq<(K, V)>, k: K) -> V {
    s[alist_idx(s, k)].1
}

/// Keys occur at most once.
pub open spec fn alist_unique<K, V>(s: Seq<(K, V)>) -> bool {
    forall|i: int, j: int| 0 <= i < s.len() && 0 <= j < s.len() && i != j ==> s[i].0 != s[j].0
}

/// Updating the entry at the key's own index leaves every other key's
/// binding as it was.
pub proof fn lemma_alist_update<K, V>(s: Seq<(K, V)>, k: K, v: V)
    requires
        alist_unique(s),
        alist_has(s, k),
    ensures
        alist_unique(s.update(alist_idx(s, k), (k, v))),
        alist_has(s.update(alist_idx(s, k), (k, v)), k),
        alist_val(s.update(alist_idx(s, k), (k, v)), k) == v,
        forall|k2: K| k2 != k ==> alist_has(s.update(alist_idx(s, k), (k, v)), k2) == alist_has(
            s,
            k2,
        ),
        forall|k2: K| k2 != k && alist_has(s, k2) ==> alist_val(
            s.update(alist_idx(s, k), (k, v)),
            k2,
        ) == alist_val(s, k2),
{
    let i = alist_idx(s, k);
    let t = s.update(i, (k, v));
    assert(0 <= i < s.len() && s[i].0 == k);
    assert forall|a: int| 0 <= a < t.len() implies t[a].0 == s[a].0 by {
        if a != i {
            assert(t[a] == s[a]);
        }
    }
    assert(t[i].0 == k);
    let i2 = alist_idx(t, k);
    assert(0 <= i2 < t.len() && t[i2].0 == k);
    assert(s[i2].0 == k);
    assert(i2 == i);
    assert(alist_val(t, k) == v);
    assert forall|k2: K| k2 != k implies alist_has(t, k2) == alist_has(s, k2) by {
        if alist_has(s, k2) {
            let j = alist_idx(s, k2);
            assert(j != i);
            assert(t[j].0 == k2);
        }
        if alist_has(t, k2) {
            let j = choose|j: int| 0 <= j < t.len() && t[j].0 == k2;
            assert(j != i);
            assert(s[j].0 == k2);
        }
    }
    assert forall|k2: K| k2 != k && alist_has(s, k2) implies alist_val(t, k2) == alist_val(s, k2) by {
        let j = alist_idx(t, k2);
        assert(0 <= j < t.len() && t[j].0 == k2);
        assert(j != i);
        let j2 = alist_idx(s, k2);
        assert(0 <= j2 < s.len() && s[j2].0 == k2);
        assert(j2 == j);
    }
}

/// Removing the entry at the key's own index drops that key and leaves
/// every other key's binding as it was.
pub proof fn lemma_alist_remove<K, V>(s: Seq<(K, V)>, k: K)
    requires
        alist_unique(s),
        alist_has(s, k),
    ensures
        alist_unique(s.remove(alist_idx(s, k))),
        !alist_has(s.remove(alist_idx(s, k)), k),
        forall|k2: K| k2 != k ==> alist_has(s.remove(alist_idx(s, k)), k2) == alist_has(s, k2),
        forall|k2: K| k2 != k && alist_has(s, k2) ==> alist_val(s.remove(alist_idx(s, k)), k2)
            == alist_val(s, k2),
{
    let i = alist_idx(s, k);
    let t = s.remove(i);
    assert(0 <= i < s.len() && s[i].0 == k);
    assert forall|k2: K| k2 != k implies alist_has(t, k2) == alist_has(s, k2) by {
        if alist_has(s, k2) {
            let j = alist_idx(s, k2);
            assert(j != i);
            if j < i {
                assert(t[j].0 == k2);
            } else {
                assert(t[j - 1].0 == k2);
            }
        }
        if alist_has(t, k2) {
            let j = choose|j: int| 0 <= j < t.len() && t[j].0 == k2;
            if j < i {
                assert(s[j].0 == k2);
            } else {
                assert(s[j + 1].0 == k2);
            }
        }
    }
    assert(!alist_has(t, k)) by {
        if alist_has(t, k) {
            let j = choose|j: int| 0 <= j < t.len() && t[j].0 == k;
            if j < i {
                assert(s[j].0 == k);
            } else {
                assert(s[j + 1].0 == k);
            }
        }
    }
    assert forall|k2: K| k2 != k && alist_has(s, k2) implies alist_val(t, k2) == alist_val(s, k2) by {
        let j = alist_idx(t, k2);
        assert(0 <= j < t.len() && t[j].0 == k2);
        let j2 = alist_idx(s, k2);
        assert(0 <= j2 < s.len() && s[j2].0 == k2);
        if j < i {
            assert(s[j].0 == k2);
            assert(j2 == j);
        } else {
            assert(s[j + 1].0 == k2);
            assert(j2 == j + 1);
        }
    }
}

/// Appending a fresh key binds it and leaves every other key's binding
/// as it was.
pub proof fn lemma_alist_push<K, V>(s: Seq<(K, V)>, k: K, v: V)
    requires
        alist_unique(s),
        !alist_has(s, k),
    ensures
        alist_unique(s.push((k, v))),
        alist_has(s.push((k, v)), k),
        alist_val(s.push((k, v)), k) == v,
        forall|k2: K| k2 != k ==> alist_has(s.push((k, v)), k2) == alist_has(s, k2),
        forall|k2: K| k2 != k && alist_has(s, k2) ==> alist_val(s.push((k, v)), k2) == alist_val(
            s,
            k2,
        ),
{
    let t = s.push((k, v));
    assert(t[s.len() as int].0 == k);
    assert forall|i: int, j: int|
        0 <= i < t.len() && 0 <= j < t.len() && i != j implies t[i].0 != t[j].0 by {
        if i < s.len() && j < s.len() {
            assert(s[i].0 != s[j].0);
        } else if i < s.len() {
            assert(!(s[i].0 == k));
        } else if j < s.len() {
            assert(!(s[j].0 == k));
        }
    }
    let i0 = alist_idx(t, k);
    assert(0 <= i0 < t.len() && t[i0].0 == k);
    if i0 < s.len() {
        assert(s[i0].0 == k);
    }
    assert(alist_val(t, k) == v);
    assert forall|k2: K| k2 != k implies alist_has(t, k2) == alist_has(s, k2) by {
        if alist_has(s, k2) {
            let j = alist_idx(s, k2);
            assert(t[j].0 == k2);
        }
        if alist_has(t, k2) {
            let j = choose|j: int| 0 <= j < t.len() && t[j].0 == k2;
            assert(j != s.len());
            assert(s[j].0 == k2);
        }
    }
    assert forall|k2: K| k2 != k && alist_has(s, k2) implies alist_val(t, k2) == alist_val(s, k2) by {
        let j = alist_idx(t, k2);
        assert(0 <= j < t.len() && t[j].0 == k2);
        assert(j != s.len());
        assert(s[j].0 == k2);
        let j2 = alist_idx(s, k2);
        assert(j2 == j);
    }
}

/// Filtering entries by any predicate keeps association keys unique.
pub proof fn lemma_filter_alist_unique<K, V>(s: Seq<(K, V)>, pred: spec_fn((K, V)) -> bool)
    requires
        alist_unique(s),
    ensures
        alist_unique(s.filter(pred)),
    decreases s.len(),
{
    reveal(Seq::filter);
    if s.len() > 0 {
        let rest = s.drop_last();
        assert(alist_unique(rest));
        lemma_filter_alist_unique(rest, pred);
        let rf = rest.filter(pred);
        if pred(s.last()) {
            let t = rf.push(s.last());
            assert(s.filter(pred) == t);
            assert forall|i: int, j: int|
                0 <= i < t.len() && 0 <= j < t.len() && i != j implies t[i].0 != t[j].0 by {
                if i < rf.len() && j < rf.len() {
                    assert(rf[i].0 != rf[j].0);
                } else {
                    let k = if i < rf.len() {
                        i
                    } else {
                        j
                    };
                    if t[i].0 == t[j].0 {
                        assert(rf.contains(rf[k]));
                        rest.lemma_filter_contains_rev(pred, rf[k]);
                        let m = choose|m: int| 0 <= m < rest.len() && rest[m] == rf[k];
                        assert(s[m] == rf[k]);
                        assert(s[m].0 == s[s.len() - 1].0);
                        assert(false);
                    }
                }
            }
        } else {
            assert(s.filter(pred) == rf);
        }
    }
}

/// Appending a fresh element keeps a sequence duplicate-free.
pub proof fn lemma_push_no_duplicates<A>(s: Seq<A>, x: A)
    requires
        s.no_duplicates(),
        !s.contains(x),
    ensures
        s.push(x).no_duplicates(),
        forall|z: A| s.push(x).contains(z) <==> s.contains(z) || z == x,
{
    let t = s.push(x);
    assert forall|i: int, j: int|
        0 <= i < t.len() && 0 <= j < t.len() && i != j implies t[i] != t[j] by {
        if i < s.len() && j < s.len() {
            assert(s[i] != s[j]);
        } else if i < s.len() {
            if t[i] == t[j] {
                assert(s[i] == x);
            }
        } else if j < s.len() {
            if t[i] == t[j] {
                assert(s[j] == x);
            }
        }
    }
    assert forall|z: A| t.contains(z) <==> s.contains(z) || z == x by {
        if t.contains(z) {
            let i = choose|i: int| 0 <= i < t.len() && t[i] == z;
            if i < s.len() {
                assert(s[i] == z);
            }
        }
        if s.contains(z) {
            let i = choose|i: int| 0 <= i < s.len() && s[i] == z;
            assert(t[i] == z);
        }
        if z == x {
            assert(t[s.len() as int] == z);
        }
    }
}

/// Linear membership test over a vector of session identifiers.
pub fn contains_id(v: &Vec<u128>, x: u128) -> (b: bool)
    ensures
        b == v@.contains(x),
{
    let mut i: usize = 0;
    while i < v.len()
        invariant
            i <= v@.len(),
            forall|j: int| 0 <= j < i ==> v@[j] != x,
        decreases v@.len() - i,
    {
        if v[i] == x {
            assert(v@[i as int] == x);
            return true;
        }
        i += 1;
    }
    false
}

/// Removes every occurrence of `x`, keeping the order of the rest.
pub fn remove_id(v: &mut Vec<u128>, x: u128)
    ensures
        final(v)@ == old(v)@.filter(|y: u128| y != x),
{
    let ghost orig = v@;
    let mut out: Vec<u128> = Vec::new();
    let mut i: usize = 0;
    while i < v.len()
        invariant
            i <= v@.len(),
            v@ == orig,
            out@ == orig.take(i as int).filter(|y: u128| y != x),
        decreases v@.len() - i,
    {
        proof {
            reveal(Seq::filter);
            assert(orig.take(i as int + 1).drop_last() =~= orig.take(i as int));
            assert(orig.take(i as int + 1).last() == orig[i as int]);
        }
        if v[i] != x {
            out.push(v[i]);
        }
        i += 1;
    }
    proof {
        assert(orig.take(orig.len() as int) =~= orig);
    }
    *v = out;
}

/// Filtering with any predicate keeps a duplicate-free sequence
/// duplicate-free.
pub proof fn lemma_filter_no_duplicates<A>(s: Seq<A>, pred: spec_fn(A) -> bool)
    requires
        s.no_duplicates(),
    ensures
        s.filter(pred).no_duplicates(),
    decreases s.len(),
{
    reveal(Seq::filter);
    if s.len() > 0 {
        let rest = s.drop_last();
        assert(rest.no_duplicates());
        lemma_filter_no_duplicates(rest, pred);
        let rf = rest.filter(pred);
        if pred(s.last()) {
            assert(s.filter(pred) == rf.push(s.last()));
            if rf.contains(s.last()) {
                rest.lemma_filter_contains_rev(pred, s.last());
                let j = choose|j: int| 0 <= j < rest.len() && rest[j] == s.last();
                assert(s[j] == s[s.len() - 1]);
                assert(false);
            }
            let t = rf.push(s.last());
            assert forall|i: int, j: int|
                0 <= i < t.len() && 0 <= j < t.len() && i != j implies t[i] != t[j] by {
                if i < rf.len() && j < rf.len() {
                    assert(rf[i] != rf[j]);
                } else if i < rf.len() {
                    assert(!rf.contains(t[j]));
                } else if j < rf.len() {
                    assert(!rf.contains(t[i]));
                }
            }
        } else {
            assert(s.filter(pred) == rf);
        }
    }
}

} // verus!
