//! The order of names, and which of them is taken.

use crate::names::{index_or_first, names_or, not_after};
use vstd::prelude::*;

verus! {

/// Names are ordered by their first different character, and a name that goes on comes
/// after the one that ends: every two names are in one order, and only equal ones in
/// both.
pub proof fn law_names_are_ordered(a: Seq<char>, b: Seq<char>, c: Seq<char>)
    ensures
        not_after(a, a),
        not_after(a, b) || not_after(b, a),
        not_after(a, b) && not_after(b, a) ==> a == b,
        not_after(a, b) && not_after(b, c) ==> not_after(a, c),
        not_after(a, a + b),
    decreases a.len(),
{
    if a.len() > 0 {
        assert((a + b)[0] == a[0]);
        assert((a + b).skip(1) =~= a.skip(1) + b);
        if b.len() > 0 && c.len() > 0 {
            law_names_are_ordered(a.skip(1), b.skip(1), c.skip(1));
            if a[0] == b[0] && a.skip(1) == b.skip(1) {
                assert(a =~= seq![a[0]] + a.skip(1));
                assert(b =~= seq![b[0]] + b.skip(1));
            }
        } else if b.len() > 0 {
            law_names_are_ordered(a.skip(1), b.skip(1), Seq::empty());
            if a[0] == b[0] && a.skip(1) == b.skip(1) {
                assert(a =~= seq![a[0]] + a.skip(1));
                assert(b =~= seq![b[0]] + b.skip(1));
            }
        }
        law_names_are_ordered(a.skip(1), b, Seq::empty());
    } else if b.len() == 0 {
        assert(a =~= b);
    }
}

/// A lower character comes first, whatever follows.
pub proof fn law_first_difference_counts(
    s: Seq<char>,
    x: char,
    a: Seq<char>,
    y: char,
    b: Seq<char>,
)
    requires
        x < y,
    ensures
        not_after(s + seq![x] + a, s + seq![y] + b),
        !not_after(s + seq![y] + b, s + seq![x] + a),
    decreases s.len(),
{
    let p = s + seq![x] + a;
    let q = s + seq![y] + b;
    if s.len() > 0 {
        assert(p[0] == s[0] && q[0] == s[0]);
        assert(p.skip(1) =~= s.skip(1) + seq![x] + a);
        assert(q.skip(1) =~= s.skip(1) + seq![y] + b);
        law_first_difference_counts(s.skip(1), x, a, y, b);
    } else {
        assert(p[0] == x && q[0] == y);
    }
}

/// The place of a wanted name is its first one; a name that is missing, and none at all,
/// is the first of the list.
pub proof fn law_place_of_a_name(names: Seq<Seq<char>>, i: int)
    requires
        0 <= i < names.len(),
    ensures
        (forall|j: int| 0 <= j < i ==> #[trigger] names[j] != names[i]) ==> index_or_first(
            names,
            Some(names[i]),
        ) == i,
        index_or_first(names, None) == 0,
        forall|w: Seq<char>| !names.contains(w) ==> #[trigger] index_or_first(names, Some(w)) == 0,
{
    names.index_of_first_ensures(names[i]);
    assert(names.contains(names[i]));
    assert forall|w: Seq<char>| !names.contains(w) implies #[trigger] index_or_first(names, Some(w))
        == 0 by {
        names.index_of_first_ensures(w);
    }
}

/// A list without names has the other name alone.
pub proof fn law_names_or(names: Seq<Seq<char>>, other: Seq<char>)
    ensures
        names.len() > 0 ==> names_or(names, other) == names,
        names_or(Seq::empty(), other).len() == 1,
        names_or(Seq::empty(), other)[0] == other,
{
}

} // verus!
