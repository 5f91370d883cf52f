//! Lists of names, in order.

use vstd::prelude::*;
use crate::text::{chars_of, own};
#[allow(unused_imports)]
use crate::text::texts;

verus! {

/// A text stands before another, or is the same: by the first character in which
/// they differ, and a beginning before the whole.
pub open spec fn not_after(a: Seq<char>, b: Seq<char>) -> bool
    decreases a.len(),
{
    if a.len() == 0 {
        true
    } else if b.len() == 0 {
        false
    } else if a[0] != b[0] {
        a[0] < b[0]
    } else {
        not_after(a.skip(1), b.skip(1))
    }
}

proof fn lemma_total(a: Seq<char>, b: Seq<char>)
    ensures
        not_after(a, b) || not_after(b, a),
    decreases a.len(),
{
    if a.len() > 0 && b.len() > 0 && a[0] == b[0] {
        lemma_total(a.skip(1), b.skip(1));
    }
}

proof fn lemma_transitive(a: Seq<char>, b: Seq<char>, c: Seq<char>)
    requires
        not_after(a, b),
        not_after(b, c),
    ensures
        not_after(a, c),
    decreases a.len(),
{
    if a.len() > 0 && b.len() > 0 && c.len() > 0 && a[0] == b[0] && b[0] == c[0] {
        lemma_transitive(a.skip(1), b.skip(1), c.skip(1));
    }
}

fn comes_first(a: &str, b: &str) -> (r: bool)
    ensures
        r == not_after(a@, b@),
{
    let x = chars_of(a);
    let y = chars_of(b);
    let mut i: usize = 0;
    assert(x@.skip(0) == x@);
    assert(y@.skip(0) == y@);
    while i < x.len()
        invariant
            i <= x@.len(),
            i <= y@.len(),
            x@ == a@,
            y@ == b@,
            not_after(x@, y@) == not_after(x@.skip(i as int), y@.skip(i as int)),
        decreases x@.len() - i,
    {
        if i == y.len() {
            return false;
        }
        proof {
            let s = x@.skip(i as int);
            let t = y@.skip(i as int);
            assert(s[0] == x@[i as int] && t[0] == y@[i as int]);
            assert(s.skip(1) == x@.skip(i + 1));
            assert(t.skip(1) == y@.skip(i + 1));
        }
        if x[i] != y[i] {
            return x[i] < y[i];
        }
        i += 1;
    }
    true
}

/// The names stand in order.
pub open spec fn in_order(v: Seq<Seq<char>>) -> bool {
    forall|i: int, j: int|
        0 <= i < j < v.len() ==> not_after(#[trigger] v[i], #[trigger] v[j])
}

fn put(out: &mut Vec<String>, name: String)
    requires
        in_order(texts(old(out)@)),
    ensures
        in_order(texts(final(out)@)),
        texts(final(out)@).to_multiset() == texts(old(out)@).to_multiset().insert(name@),
{
    let ghost before = texts(out@);
    let ghost n = name@;
    let mut i: usize = 0;
    while i < out.len() && comes_first(out[i].as_str(), name.as_str())
        invariant
            i <= out@.len(),
            texts(out@) == before,
            name@ == n,
            forall|k: int| 0 <= k < i ==> not_after(#[trigger] before[k], n),
        decreases out@.len() - i,
    {
        assert(before[i as int] == out@[i as int]@);
        i += 1;
    }
    proof {
        if i < out@.len() {
            assert(before[i as int] == out@[i as int]@);
            lemma_total(before[i as int], n);
        }
    }
    out.insert(i, name);
    proof {
        let after = texts(out@);
        assert(after == before.insert(i as int, n));
        after.to_multiset_ensures();
        assert(after[i as int] == n);
        assert(after.contains(n));
        assert(after.remove(i as int) == before);
        assert(after.to_multiset().remove(n).insert(n) =~= after.to_multiset());
        assert forall|a: int, b: int| 0 <= a < b < after.len() implies not_after(
            #[trigger] after[a],
            #[trigger] after[b],
        ) by {
            if a < i && b > i {
                assert(after[a] == before[a] && after[b] == before[b - 1]);
            } else if b < i {
                assert(after[a] == before[a] && after[b] == before[b]);
            } else if b == i {
                assert(after[a] == before[a]);
            } else if a == i {
                assert(after[b] == before[b - 1]);
                if b - 1 > i {
                    assert(not_after(before[i as int], before[b - 1]));
                    lemma_transitive(n, before[i as int], before[b - 1]);
                }
            } else {
                assert(after[a] == before[a - 1] && after[b] == before[b - 1]);
            }
        }
    }
}

/// The same names in order.
pub fn sort_names(names: &[String]) -> (r: Vec<String>)
    ensures
        in_order(texts(r@)),
        texts(r@).to_multiset() == texts(names@).to_multiset(),
{
    let mut out: Vec<String> = Vec::new();
    let ghost all = texts(names@);
    let mut i: usize = 0;
    proof {
        assert(texts(out@) == Seq::<Seq<char>>::empty());
        assert(all.take(0) == Seq::<Seq<char>>::empty());
    }
    while i < names.len()
        invariant
            i <= names@.len(),
            names.len() == names@.len(),
            all == texts(names@),
            in_order(texts(out@)),
            texts(out@).to_multiset() == all.take(i as int).to_multiset(),
        decreases names@.len() - i,
    {
        proof {
            assert(all[i as int] == names@[i as int]@);
            assert(all.take(i + 1) == all.take(i as int).push(all[i as int]));
            all.take(i as int).to_multiset_ensures();
        }
        put(&mut out, own(names[i].as_str()));
        i += 1;
    }
    assert(all.take(i as int) == all);
    out
}

/// The index of the first name that is the given one; zero without such a name.
pub open spec fn index_or_first(names: Seq<Seq<char>>, wanted: Option<Seq<char>>) -> int {
    match wanted {
        Some(w) => match names.index_of_first(w) {
            Some(i) => i,
            None => 0,
        },
        None => 0,
    }
}

/// The index of the name that was chosen before; zero, where it is not among the
/// names.
pub fn selection_index(names: &[String], wanted: Option<&str>) -> (r: usize)
    ensures
        r == index_or_first(
            texts(names@),
            match wanted {
                Some(w) => Some(w@),
                None => None,
            },
        ),
{
    match wanted {
        None => 0,
        Some(w) => {
            let ghost all = texts(names@);
            let mut i: usize = 0;
            while i < names.len()
                invariant
                    i <= names@.len(),
                    names.len() == names@.len(),
                    all == texts(names@),
                    wanted == Some(w),
                    forall|k: int| 0 <= k < i ==> #[trigger] all[k] != w@,
                decreases names@.len() - i,
            {
                let name = chars_of(names[i].as_str());
                assert(all[i as int] == names@[i as int]@);
                if crate::text::eq_str(name.as_slice(), w) {
                    proof {
                        all.index_of_first_ensures(w@);
                        assert(all.contains(all[i as int]));
                        let k = all.index_of_first(w@)->0;
                        if k < i {
                            assert(all[k] != w@);
                        }
                    }
                    return i;
                }
                i += 1;
            }
            proof {
                all.index_of_first_ensures(w@);
            }
            0
        },
    }
}

/// The names of a list, or a single other one where there is none.
pub open spec fn names_or(names: Seq<Seq<char>>, other: Seq<char>) -> Seq<Seq<char>> {
    if names.len() == 0 {
        seq![other]
    } else {
        names
    }
}

/// The names in order, or a single other one where there is none.
pub fn sorted_or(names: &[String], other: &str) -> (r: Vec<String>)
    ensures
        in_order(texts(r@)),
        texts(r@).to_multiset() == names_or(texts(names@), other@).to_multiset(),
        names@.len() == 0 ==> texts(r@) == seq![other@],
{
    if names.len() == 0 {
        let mut out: Vec<String> = Vec::new();
        out.push(own(other));
        assert(texts(out@) == seq![other@]);
        assert(texts(names@).len() == 0);
        return out;
    }
    assert(texts(names@).len() == names@.len());
    sort_names(names)
}

} // verus!
