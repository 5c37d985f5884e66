//! Listing a set of indices in a given strict order.

use vstd::prelude::*;

verus! {

/// `order` lists `members`, each once, in the order `precedes`.
pub open spec fn is_ranking(
    order: Seq<int>,
    members: Set<int>,
    precedes: spec_fn(int, int) -> bool,
) -> bool {
    &&& forall|i: int| members.contains(i) <==> order.contains(i)
    &&& forall|a: int, b: int| 0 <= a < b < order.len() ==> precedes(#[trigger] order[a], #[trigger] order[b])
}

/// A strict total order on `members`.
pub open spec fn is_strict_order(
    members: Set<int>,
    precedes: spec_fn(int, int) -> bool,
) -> bool {
    &&& forall|i: int| members.contains(i) ==> !#[trigger] precedes(i, i)
    &&& forall|i: int, j: int, k: int|
        members.contains(i) && members.contains(j) && members.contains(k)
            && #[trigger] precedes(i, j) && #[trigger] precedes(j, k) ==> precedes(i, k)
    &&& forall|i: int, j: int|
        members.contains(i) && members.contains(j) && i != j ==> #[trigger] precedes(i, j)
            || precedes(j, i)
}

/// The members in the given order.
pub open spec fn ranking(members: Set<int>, precedes: spec_fn(int, int) -> bool) -> Seq<int> {
    choose|order: Seq<int>| is_ranking(order, members, precedes)
}

/// A strict order leaves one way only to list a set.
pub proof fn lemma_ranking_unique(
    a: Seq<int>,
    b: Seq<int>,
    members: Set<int>,
    precedes: spec_fn(int, int) -> bool,
)
    requires
        is_strict_order(members, precedes),
        is_ranking(a, members, precedes),
        is_ranking(b, members, precedes),
    ensures
        a == b,
    decreases a.len(),
{
    if a.len() == 0 {
        if b.len() > 0 {
            assert(b.contains(b[0]));
            assert(a.contains(b[0]));
        }
        assert(a =~= b);
    } else {
        assert(a.contains(a[0]));
        assert(b.contains(a[0]));
        let kb = b.index_of(a[0]);
        assert(b[kb] == a[0]);
        assert(b.contains(b[0]));
        assert(a.contains(b[0]));
        let ka = a.index_of(b[0]);
        assert(a[ka] == b[0]);
        if a[0] != b[0] {
            assert(precedes(b[0], b[kb]));
            assert(precedes(a[0], a[ka]));
            assert(precedes(a[0], a[0]));
        }
        let rest = members.remove(a[0]);
        lemma_ranking_rest(a, members, precedes);
        lemma_ranking_rest(b, members, precedes);
        lemma_ranking_unique(a.drop_first(), b.drop_first(), rest, precedes);
        assert(a =~= seq![a[0]] + a.drop_first());
        assert(b =~= seq![b[0]] + b.drop_first());
    }
}

proof fn lemma_ranking_rest(
    a: Seq<int>,
    members: Set<int>,
    precedes: spec_fn(int, int) -> bool,
)
    requires
        a.len() > 0,
        is_strict_order(members, precedes),
        is_ranking(a, members, precedes),
    ensures
        is_ranking(a.drop_first(), members.remove(a[0]), precedes),
        is_strict_order(members.remove(a[0]), precedes),
{
    let t = a.drop_first();
    assert(a.contains(a[0]));
    assert forall|i: int| members.remove(a[0]).contains(i) <==> t.contains(i) by {
        if members.remove(a[0]).contains(i) {
            let k = a.index_of(i);
            assert(a[k] == i);
            assert(t[k - 1] == i);
        }
        if t.contains(i) {
            let k = t.index_of(i);
            assert(t[k] == i);
            assert(a[k + 1] == i);
            assert(a.contains(i));
            assert(precedes(a[0], a[k + 1]));
        }
    }
}

/// How many at the head of `order` precede `x`.
spec fn lead(order: Seq<int>, x: int, precedes: spec_fn(int, int) -> bool) -> int
    decreases order.len(),
{
    if order.len() == 0 || !precedes(order[0], x) {
        0
    } else {
        1 + lead(order.drop_first(), x, precedes)
    }
}

proof fn lemma_lead(order: Seq<int>, x: int, precedes: spec_fn(int, int) -> bool)
    ensures
        0 <= lead(order, x, precedes) <= order.len(),
        forall|k: int| 0 <= k < lead(order, x, precedes) ==> precedes(#[trigger] order[k], x),
        lead(order, x, precedes) < order.len() ==> !precedes(order[lead(order, x, precedes)], x),
    decreases order.len(),
{
    if order.len() > 0 && precedes(order[0], x) {
        let rest = order.drop_first();
        lemma_lead(rest, x, precedes);
        assert forall|k: int| 0 <= k < lead(order, x, precedes) implies precedes(
            #[trigger] order[k],
            x,
        ) by {
            if k > 0 {
                assert(rest[k - 1] == order[k]);
            }
        }
    }
}

/// A finite set can be listed in any strict order: its ranking is one.
pub proof fn lemma_ranking_exists(members: Set<int>, precedes: spec_fn(int, int) -> bool)
    requires
        members.finite(),
        is_strict_order(members, precedes),
    ensures
        is_ranking(ranking(members, precedes), members, precedes),
    decreases members.len(),
{
    if members.len() == 0 {
        assert(is_ranking(Seq::empty(), members, precedes));
    } else {
        let x = members.choose();
        let rest = members.remove(x);
        lemma_ranking_exists(rest, precedes);
        let order = ranking(rest, precedes);
        lemma_lead(order, x, precedes);
        let k = lead(order, x, precedes);
        let full = order.insert(k, x);
        assert forall|a: int| 0 <= a < order.len() implies rest.contains(#[trigger] order[a]) by {
            assert(order.contains(order[a]));
        }
        assert forall|b: int| k <= b < order.len() implies precedes(x, #[trigger] order[b]) by {
            assert(rest.contains(order[k]) && order[k] != x);
            assert(precedes(order[k], x) || precedes(x, order[k]));
            if b > k {
                assert(rest.contains(order[b]));
                assert(precedes(order[k], order[b]));
                assert(precedes(x, order[k]) && precedes(order[k], order[b]));
            }
        }
        assert forall|a: int, b: int| 0 <= a < b < full.len() implies precedes(
            #[trigger] full[a],
            #[trigger] full[b],
        ) by {
            if b < k {
                assert(precedes(order[a], order[b]));
            } else if b == k {
                assert(precedes(order[a], x));
            } else if a == k {
                assert(precedes(x, order[b - 1]));
            } else if a < k {
                assert(precedes(order[a], order[b - 1]));
            } else {
                assert(precedes(order[a - 1], order[b - 1]));
            }
        }
        assert forall|i: int| members.contains(i) <==> full.contains(i) by {
            if members.contains(i) {
                if i == x {
                    assert(full[k] == x);
                } else {
                    assert(rest.contains(i));
                    let at = order.index_of(i);
                    assert(order[at] == i);
                    assert(full[if at < k { at } else { at + 1 }] == i);
                }
            }
            if full.contains(i) {
                let at = full.index_of(i);
                if at < k {
                    assert(rest.contains(order[at]));
                } else if at > k {
                    assert(rest.contains(order[at - 1]));
                }
            }
        }
        assert(is_ranking(full, members, precedes));
    }
}

/// The indices of a vector as integers.
pub open spec fn as_ints(v: Seq<usize>) -> Seq<int> {
    v.map_values(|i: usize| i as int)
}

/// Pushing the next index onto indices below it adds that index only.
pub proof fn lemma_places_step(before: Seq<usize>, after: Seq<usize>, i: usize, added: bool)
    requires
        after == (if added { before.push(i) } else { before }),
        forall|k: int| 0 <= k < before.len() ==> (#[trigger] before[k]) < i,
    ensures
        forall|k: int|
            0 <= k < i ==> (as_ints(after).contains(k) <==> #[trigger] as_ints(before).contains(
                k,
            )),
        as_ints(after).contains(i as int) == added,
{
    let a = as_ints(after);
    let b = as_ints(before);
    assert forall|k: int| 0 <= k < i implies (a.contains(k) <==> #[trigger] b.contains(k)) by {
        if b.contains(k) {
            let at = b.index_of(k);
            assert(a[at] == k);
        }
        if a.contains(k) {
            let at = a.index_of(k);
            assert(after[at] == k);
            if at < before.len() {
                assert(b[at] == k);
            }
        }
    }
    if added {
        assert(a[before.len() as int] == i);
    } else if a.contains(i as int) {
        let at = a.index_of(i as int);
        assert(before[at] == i);
    }
}

/// A strict total order on the indices `0..count`.
pub trait IndexOrder {
    spec fn count(&self) -> nat;

    spec fn valid(&self) -> bool;

    spec fn precedes(&self, i: int, j: int) -> bool;

    proof fn lemma_strict(&self)
        requires
            self.valid(),
        ensures
            is_strict_order(
                Set::new(|i: int| 0 <= i < self.count()),
                |i: int, j: int| self.precedes(i, j),
            ),
    ;

    fn before(&self, i: usize, j: usize) -> (r: bool)
        requires
            self.valid(),
            i < self.count(),
            j < self.count(),
        ensures
            r == self.precedes(i as int, j as int),
    ;
}

/// Lists `members` in the order of `by`.
pub fn rank<O: IndexOrder>(by: &O, members: &Vec<usize>) -> (r: Vec<usize>)
    requires
        by.valid(),
        members@.no_duplicates(),
        forall|k: int| 0 <= k < members@.len() ==> (#[trigger] members@[k]) < by.count(),
    ensures
        is_ranking(
            as_ints(r@),
            as_ints(members@).to_set(),
            |i: int, j: int| by.precedes(i, j),
        ),
        as_ints(r@) == ranking(
            as_ints(members@).to_set(),
            |i: int, j: int| by.precedes(i, j),
        ),
        r@.len() == members@.len(),
        forall|k: int| 0 <= k < r@.len() ==> (#[trigger] r@[k]) < by.count(),
{
    let ghost precedes = |i: int, j: int| by.precedes(i, j);
    let ghost all = Set::new(|i: int| 0 <= i < by.count());
    proof {
        by.lemma_strict();
    }
    let mut r: Vec<usize> = Vec::new();
    let mut n: usize = 0;
    while n < members.len()
        invariant
            n <= members@.len(),
            by.valid(),
            members@.no_duplicates(),
            precedes == (|i: int, j: int| by.precedes(i, j)),
            all == Set::new(|i: int| 0 <= i < by.count()),
            is_strict_order(all, precedes),
            forall|k: int| 0 <= k < members@.len() ==> (#[trigger] members@[k]) < by.count(),
            forall|k: int| 0 <= k < r@.len() ==> (#[trigger] r@[k]) < by.count(),
            r@.len() == n,
            forall|x: usize| r@.contains(x) <==> members@.take(n as int).contains(x),
            forall|a: int, b: int|
                0 <= a < b < r@.len() ==> by.precedes(#[trigger] r@[a] as int, #[trigger] r@[b] as int),
        decreases members@.len() - n,
    {
        let x: usize = members[n];
        let ghost before = r@;
        let mut k: usize = r.len();
        while k > 0 && by.before(x, r[k - 1])
            invariant
                k <= r@.len(),
                by.valid(),
                r@ == before,
                x < by.count(),
                forall|k: int| 0 <= k < r@.len() ==> (#[trigger] r@[k]) < by.count(),
                forall|b: int| k <= b < r@.len() ==> by.precedes(x as int, #[trigger] r@[b] as int),
            decreases k,
        {
            k -= 1;
        }
        proof {
            assert(!before.contains(x)) by {
                if before.contains(x) {
                    let m = members@.take(n as int).index_of(x);
                    assert(members@.take(n as int)[m] == x);
                    assert(members@[m] == x);
                }
            }
            assert forall|a: int| 0 <= a < k implies by.precedes(#[trigger] before[a] as int, x as int) by {
                let y = before[k - 1] as int;
                assert(before.contains(before[k - 1]));
                assert(all.contains(y) && all.contains(x as int) && y != x);
                assert(precedes(y, x as int) || precedes(x as int, y));
                if a < k - 1 {
                    assert(all.contains(before[a] as int));
                    assert(by.precedes(before[a] as int, before[k - 1] as int));
                    assert(precedes(before[a] as int, y) && precedes(y, x as int));
                    assert(precedes(before[a] as int, x as int));
                }
            }
        }
        r.insert(k, x);
        proof {
            assert forall|a: int, b: int| 0 <= a < b < r@.len() implies by.precedes(
                #[trigger] r@[a] as int,
                #[trigger] r@[b] as int,
            ) by {
                if b < k {
                    assert(by.precedes(before[a] as int, before[b] as int));
                } else if b == k {
                    assert(by.precedes(before[a] as int, x as int));
                } else if a == k {
                    assert(by.precedes(x as int, before[b - 1] as int));
                } else if a < k {
                    assert(by.precedes(before[a] as int, before[b - 1] as int));
                } else {
                    assert(by.precedes(before[a - 1] as int, before[b - 1] as int));
                }
            }
            let next = members@.take(n + 1);
            assert(next =~= members@.take(n as int).push(x));
            assert forall|y: usize| r@.contains(y) <==> next.contains(y) by {
                if r@.contains(y) {
                    let m = r@.index_of(y);
                    assert(r@[m] == y);
                    if m < k {
                        assert(before[m] == y);
                        assert(before.contains(y));
                        let p = members@.take(n as int).index_of(y);
                        assert(next[p] == y);
                    } else if m == k {
                        assert(next[n as int] == y);
                    } else {
                        assert(before[m - 1] == y);
                        assert(before.contains(y));
                        let p = members@.take(n as int).index_of(y);
                        assert(next[p] == y);
                    }
                }
                if next.contains(y) {
                    let p = next.index_of(y);
                    assert(next[p] == y);
                    if p < n {
                        assert(members@.take(n as int)[p] == y);
                        assert(before.contains(y));
                        let m = before.index_of(y);
                        assert(before[m] == y);
                        if m < k {
                            assert(r@[m] == y);
                        } else {
                            assert(r@[m + 1] == y);
                        }
                    } else {
                        assert(r@[k as int] == y);
                    }
                }
            }
        }
        n += 1;
    }
    proof {
        assert(members@.take(n as int) =~= members@);
        let members_set = as_ints(members@).to_set();
        assert forall|i: int| members_set.contains(i) <==> as_ints(r@).contains(i) by {
            if members_set.contains(i) {
                let m = as_ints(members@).index_of(i);
                assert(as_ints(members@)[m] == i);
                assert(members@.take(n as int).contains(members@[m]));
                assert(r@.contains(members@[m]));
                let p = r@.index_of(members@[m]);
                assert(r@[p] == members@[m]);
                assert(as_ints(r@)[p] == i);
            }
            if as_ints(r@).contains(i) {
                let m = as_ints(r@).index_of(i);
                assert(as_ints(r@)[m] == i);
                assert(r@.contains(r@[m]));
                assert(members@.take(n as int).contains(r@[m]));
                let p = members@.index_of(r@[m]);
                assert(members@[p] == r@[m]);
                assert(as_ints(members@)[p] == i);
            }
        }
        assert(is_ranking(as_ints(r@), members_set, precedes));
        assert forall|i: int| members_set.contains(i) implies all.contains(i) by {
            let m = as_ints(members@).index_of(i);
            assert(as_ints(members@)[m] == i);
            assert(members@[m] < by.count());
        }
        assert(is_strict_order(members_set, precedes));
        lemma_ranking_unique(
            as_ints(r@),
            ranking(members_set, precedes),
            members_set,
            precedes,
        );
    }
    r
}

} // verus!
