//! Ordinal order on names and a stable sort of positions by name.

use vstd::prelude::*;

verus! {

/// `a` comes strictly before `b` in character-by-character (code point) order.
pub open spec fn name_lt(a: Seq<char>, b: Seq<char>) -> bool
    decreases a.len(),
{
    if a.len() == 0 {
        b.len() > 0
    } else if b.len() == 0 {
        false
    } else if a[0] != b[0] {
        a[0] < b[0]
    } else {
        name_lt(a.drop_first(), b.drop_first())
    }
}

/// Position `i` sorts before position `j`: by name, and equal names keep their positions' order.
pub open spec fn sorts_before(names: Seq<Seq<char>>, i: int, j: int) -> bool {
    name_lt(names[i], names[j]) || (names[i] == names[j] && i < j)
}

/// `order` lists every position of `names` once, sorted by name, equal names in their first order.
pub open spec fn is_name_order(names: Seq<Seq<char>>, order: Seq<usize>) -> bool {
    &&& order.len() == names.len()
    &&& forall|k: int| 0 <= k < order.len() ==> #[trigger] order[k] < names.len()
    &&& forall|a: int, b: int|
        0 <= a < b < order.len() ==> #[trigger] sorts_before(names, order[a] as int, order[b] as int)
}

pub open spec fn string_views(s: Seq<String>) -> Seq<Seq<char>> {
    s.map_values(|x: String| x@)
}

pub proof fn lemma_name_lt_irreflexive(a: Seq<char>)
    ensures
        !name_lt(a, a),
    decreases a.len(),
{
    if a.len() > 0 {
        lemma_name_lt_irreflexive(a.drop_first());
    }
}

pub proof fn lemma_name_lt_asymmetric(a: Seq<char>, b: Seq<char>)
    ensures
        name_lt(a, b) ==> !name_lt(b, a),
    decreases a.len(),
{
    if a.len() > 0 && b.len() > 0 && a[0] == b[0] {
        lemma_name_lt_asymmetric(a.drop_first(), b.drop_first());
    }
}

pub proof fn lemma_name_lt_transitive(a: Seq<char>, b: Seq<char>, c: Seq<char>)
    requires
        name_lt(a, b),
        name_lt(b, c),
    ensures
        name_lt(a, c),
    decreases a.len(),
{
    if a.len() > 0 && b.len() > 0 && c.len() > 0 && a[0] == b[0] && b[0] == c[0] {
        lemma_name_lt_transitive(a.drop_first(), b.drop_first(), c.drop_first());
    }
}

pub proof fn lemma_name_lt_total(a: Seq<char>, b: Seq<char>)
    ensures
        a != b ==> name_lt(a, b) || name_lt(b, a),
    decreases a.len(),
{
    if a.len() > 0 && b.len() > 0 && a[0] == b[0] {
        lemma_name_lt_total(a.drop_first(), b.drop_first());
        if a.drop_first() == b.drop_first() {
            assert(a =~= seq![a[0]] + a.drop_first());
            assert(b =~= seq![b[0]] + b.drop_first());
        }
    } else if a.len() == 0 && b.len() == 0 {
        assert(a =~= b);
    }
}

pub proof fn lemma_sorts_before_transitive(names: Seq<Seq<char>>, i: int, j: int, k: int)
    requires
        sorts_before(names, i, j),
        sorts_before(names, j, k),
    ensures
        sorts_before(names, i, k),
{
    if name_lt(names[i], names[j]) && name_lt(names[j], names[k]) {
        lemma_name_lt_transitive(names[i], names[j], names[k]);
    }
}

pub proof fn lemma_sorts_before_total(names: Seq<Seq<char>>, i: int, j: int)
    requires
        i != j,
    ensures
        sorts_before(names, i, j) || sorts_before(names, j, i),
{
    lemma_name_lt_total(names[i], names[j]);
}

pub proof fn lemma_sorts_before_irreflexive(names: Seq<Seq<char>>, i: int)
    ensures
        !sorts_before(names, i, i),
{
    lemma_name_lt_irreflexive(names[i]);
}

/// Compares two names in ordinal order.
pub fn name_less(a: &str, b: &str) -> (r: bool)
    ensures
        r == name_lt(a@, b@),
{
    let na = a.unicode_len();
    let nb = b.unicode_len();
    let mut i: usize = 0;
    assert(a@.skip(0) =~= a@ && b@.skip(0) =~= b@);
    while i < na && i < nb
        invariant
            na == a@.len(),
            nb == b@.len(),
            i <= na,
            i <= nb,
            name_lt(a@, b@) == name_lt(a@.skip(i as int), b@.skip(i as int)),
        decreases na - i,
    {
        let ca = a.get_char(i);
        let cb = b.get_char(i);
        assert(a@.skip(i as int)[0] == ca);
        assert(b@.skip(i as int)[0] == cb);
        if ca != cb {
            return ca < cb;
        }
        assert(a@.skip(i as int).drop_first() =~= a@.skip(i + 1));
        assert(b@.skip(i as int).drop_first() =~= b@.skip(i + 1));
        i = i + 1;
    }
    i == na && i < nb
}

/// The positions of `names`, sorted by name; equal names keep their order.
pub fn order_by_name(names: &Vec<String>) -> (order: Vec<usize>)
    ensures
        is_name_order(string_views(names@), order@),
{
    let ghost views = string_views(names@);
    let n = names.len();
    let mut order: Vec<usize> = Vec::new();
    let mut i: usize = 0;
    while i < n
        invariant
            n == names@.len(),
            views == string_views(names@),
            i <= n,
            order@.len() == i,
            forall|k: int| 0 <= k < order@.len() ==> #[trigger] order@[k] < i,
            forall|a: int, b: int|
                0 <= a < b < order@.len() ==> #[trigger] sorts_before(
                    views,
                    order@[a] as int,
                    order@[b] as int,
                ),
        decreases n - i,
    {
        let mut p: usize = order.len();
        while p > 0 && name_less(names[i].as_str(), names[order[p - 1]].as_str())
            invariant
                n == names@.len(),
                views == string_views(names@),
                i < n,
                p <= order@.len(),
                order@.len() == i,
                forall|k: int| 0 <= k < order@.len() ==> #[trigger] order@[k] < i,
                forall|q: int| p <= q < order@.len() ==> #[trigger] sorts_before(
                    views,
                    i as int,
                    order@[q] as int,
                ),
            decreases p,
        {
            p = p - 1;
        }
        proof {
            if p > 0 {
                let j = order@[p - 1] as int;
                assert(!name_lt(views[i as int], views[j]));
                lemma_sorts_before_total(views, i as int, j);
                assert(sorts_before(views, j, i as int));
                assert forall|a: int| 0 <= a < p implies #[trigger] sorts_before(
                    views,
                    order@[a] as int,
                    i as int,
                ) by {
                    if a < p - 1 {
                        lemma_sorts_before_transitive(views, order@[a] as int, j, i as int);
                    }
                }
            }
        }
        let ghost old_order = order@;
        order.insert(p, i);
        assert(order@ == old_order.insert(p as int, i));
        assert forall|a: int, b: int| 0 <= a < b < order@.len() implies #[trigger] sorts_before(
            views,
            order@[a] as int,
            order@[b] as int,
        ) by {
            if b < p {
                assert(order@[a] == old_order[a] && order@[b] == old_order[b]);
            } else if b == p {
                assert(order@[a] == old_order[a]);
            } else if a < p {
                assert(order@[a] == old_order[a] && order@[b] == old_order[b - 1]);
            } else if a == p {
                assert(order@[b] == old_order[b - 1]);
            } else {
                assert(order@[a] == old_order[a - 1] && order@[b] == old_order[b - 1]);
            }
        }
        i = i + 1;
    }
    order
}

} // verus!
