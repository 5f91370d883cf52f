//! Keys in ascending order, each once.

use vstd::prelude::*;

verus! {

/// `k` put into its place in an ascending sequence, unless it is there.
pub open spec fn insert_key(s: Seq<u64>, k: u64) -> Seq<u64>
    decreases s.len(),
{
    if s.len() == 0 {
        seq![k]
    } else if s.last() == k {
        s
    } else if s.last() < k {
        s.push(k)
    } else {
        insert_key(s.drop_last(), k).push(s.last())
    }
}

/// Every element is greater than those before it.
pub open spec fn strictly_ascending(s: Seq<u64>) -> bool {
    forall|i: int, j: int| 0 <= i < j < s.len() ==> s[i] < s[j]
}

/// Inserting keeps the order and adds exactly the one key.
pub proof fn lemma_insert_key(s: Seq<u64>, k: u64)
    requires
        strictly_ascending(s),
    ensures
        strictly_ascending(insert_key(s, k)),
        forall|x: u64| #[trigger] insert_key(s, k).contains(x) <==> s.contains(x) || x == k,
    decreases s.len(),
{
    let r = insert_key(s, k);
    if s.len() == 0 {
        assert(r[0] == k);
    } else if s.last() == k {
        assert(s[s.len() - 1] == k);
    } else if s.last() < k {
        assert(r[s.len() as int] == k);
        assert forall|x: u64| #[trigger] r.contains(x) <==> s.contains(x) || x == k by {
            if s.contains(x) {
                let i = choose|i: int| 0 <= i < s.len() && s[i] == x;
                assert(r[i] == x);
            }
        }
    } else {
        let t = s.drop_last();
        let u = insert_key(t, k);
        lemma_insert_key(t, k);
        assert forall|i: int| 0 <= i < u.len() implies u[i] < s.last() by {
            assert(u.contains(u[i]));
            if t.contains(u[i]) {
                let j = choose|j: int| 0 <= j < t.len() && t[j] == u[i];
                assert(s[j] < s[s.len() - 1]);
            }
        }
        assert forall|x: u64| #[trigger] r.contains(x) <==> s.contains(x) || x == k by {
            if r.contains(x) {
                let i = choose|i: int| 0 <= i < r.len() && r[i] == x;
                if i < u.len() {
                    assert(u[i] == x);
                    assert(u.contains(x));
                    if t.contains(x) {
                        let j = choose|j: int| 0 <= j < t.len() && t[j] == x;
                        assert(s[j] == x);
                    }
                } else {
                    assert(s[s.len() - 1] == x);
                }
            }
            if s.contains(x) || x == k {
                if x == s.last() {
                    assert(r[r.len() - 1] == x);
                } else {
                    if s.contains(x) {
                        let j = choose|j: int| 0 <= j < s.len() && s[j] == x;
                        assert(t[j] == x);
                    }
                    assert(u.contains(x));
                    let i = choose|i: int| 0 <= i < u.len() && u[i] == x;
                    assert(r[i] == x);
                }
            }
        }
    }
}

/// Puts a key into its place, unless it is there.
pub fn insert_sorted(v: &mut Vec<u64>, k: u64)
    ensures
        final(v)@ == insert_key(old(v)@, k),
{
    let ghost s = v@;
    let n: usize = v.len();
    let mut p: usize = n;
    assert(s.take(n as int) == s);
    assert(s.skip(n as int) == Seq::<u64>::empty());
    assert(insert_key(s, k) == insert_key(s.take(n as int), k) + s.skip(n as int));
    while p > 0 && v[p - 1] > k
        invariant
            p <= n,
            n == v@.len(),
            v@ == s,
            insert_key(s, k) == insert_key(s.take(p as int), k) + s.skip(p as int),
        decreases p,
    {
        proof {
            let t = s.take(p as int);
            assert(t.drop_last() == s.take(p - 1));
            assert(insert_key(t, k) == insert_key(s.take(p - 1), k).push(s[p - 1]));
            assert(insert_key(s.take(p - 1), k).push(s[p - 1]) + s.skip(p as int) == insert_key(
                s.take(p - 1),
                k,
            ) + s.skip(p - 1));
        }
        p -= 1;
    }
    if p > 0 && v[p - 1] == k {
        assert(s.take(p as int) + s.skip(p as int) == s);
        return ;
    }
    proof {
        let t = s.take(p as int);
        assert(insert_key(t, k) == t.push(k));
        assert(t.push(k) + s.skip(p as int) == s.insert(p as int, k));
    }
    v.insert(p, k);
}

} // verus!
