//! Lexicographic ranks, the first of the least-ranked candidates, and a stable order of ranks.

use vstd::prelude::*;

verus! {

/// What a candidate is ranked by: `major` first, then `minor`, then `last`.
#[derive(Clone, Copy, Debug, PartialEq, Eq, Structural)]
pub struct Rank {
    pub major: i128,
    pub minor: i128,
    pub last: i128,
}

/// Lexicographic order of ranks.
pub open spec fn before(a: Rank, b: Rank) -> bool {
    a.major < b.major || (a.major == b.major && (a.minor < b.minor || (a.minor == b.minor && a.last
        < b.last)))
}

/// Whether `a` ranks strictly before `b`.
pub fn ranks_before(a: Rank, b: Rank) -> (r: bool)
    ensures
        r == before(a, b),
{
    a.major < b.major || (a.major == b.major && (a.minor < b.minor || (a.minor == b.minor && a.last
        < b.last)))
}

/// Among the first `n` entries, `r` is the index of the least rank and, of several equal ones,
/// of the first; it is `None` where those entries hold no rank at all.
pub open spec fn is_first_least(ranks: Seq<Option<Rank>>, n: int, r: Option<int>) -> bool {
    match r {
        None => forall|j: int| 0 <= j < n ==> (#[trigger] ranks[j]) is None,
        Some(i) => {
            &&& 0 <= i < n
            &&& ranks[i] is Some
            &&& forall|j: int|
                0 <= j < n && (#[trigger] ranks[j]) is Some ==> !before(ranks[j]->0, ranks[i]->0)
            &&& forall|j: int|
                0 <= j < i && (#[trigger] ranks[j]) is Some ==> before(ranks[i]->0, ranks[j]->0)
        },
    }
}

/// The index of the first of the least ranks; `None` where there is no rank.
pub open spec fn first_least(ranks: Seq<Option<Rank>>) -> Option<int> {
    choose|r: Option<int>| is_first_least(ranks, ranks.len() as int, r)
}

/// There is only one first of the least ranks.
pub proof fn first_least_is_unique(ranks: Seq<Option<Rank>>, r: Option<int>)
    requires
        is_first_least(ranks, ranks.len() as int, r),
    ensures
        first_least(ranks) == r,
{
    let f = first_least(ranks);
    assert(is_first_least(ranks, ranks.len() as int, f));
    if f is Some && r is Some {
        if f->0 < r->0 {
            assert(before(ranks[r->0]->0, ranks[f->0]->0));
        }
        if r->0 < f->0 {
            assert(before(ranks[f->0]->0, ranks[r->0]->0));
        }
    } else if f is Some {
        assert(ranks[f->0] is None);
    } else if r is Some {
        assert(ranks[r->0] is None);
    }
}

/// Every sequence of ranks has a first of the least.
pub proof fn first_least_exists(ranks: Seq<Option<Rank>>)
    ensures
        is_first_least(ranks, ranks.len() as int, first_least(ranks)),
{
    let r = lemma_least_of_prefix(ranks, ranks.len());
    first_least_is_unique(ranks, r);
}

proof fn lemma_least_of_prefix(ranks: Seq<Option<Rank>>, n: nat) -> (r: Option<int>)
    requires
        n <= ranks.len(),
    ensures
        is_first_least(ranks, n as int, r),
    decreases n,
{
    if n == 0 {
        None
    } else {
        let r = lemma_least_of_prefix(ranks, (n - 1) as nat);
        let i = n - 1;
        match (r, ranks[i]) {
            (_, None) => r,
            (None, Some(_)) => Some(i),
            (Some(k), Some(rank)) => if before(rank, ranks[k]->0) {
                Some(i)
            } else {
                r
            },
        }
    }
}

/// The candidate that a search is holding after it has looked at one more.
pub fn better_of(
    best: Option<(u128, Rank)>,
    index: u128,
    rank: Option<Rank>,
) -> (next: Option<(u128, Rank)>)
    ensures
        forall|ranks: Seq<Option<Rank>>|
            #![trigger is_first_least(ranks, index as int, held_index(best))]
            index < ranks.len() && ranks[index as int] == rank && is_first_least(
                ranks,
                index as int,
                held_index(best),
            ) && held_rank(ranks, best) ==> is_first_least(ranks, index + 1, held_index(next))
                && held_rank(ranks, next),
        next == best || (rank is Some && (next matches Some((i, _)) && i == index)),
{
    match rank {
        None => best,
        Some(new_rank) => match best {
            None => Some((index, new_rank)),
            Some((_, old_rank)) => if ranks_before(new_rank, old_rank) {
                Some((index, new_rank))
            } else {
                best
            },
        },
    }
}

/// The index that a search holds.
pub open spec fn held_index(best: Option<(u128, Rank)>) -> Option<int> {
    match best {
        None => None,
        Some((i, _)) => Some(i as int),
    }
}

/// The rank that a search holds is the one at the index that it holds.
pub open spec fn held_rank(ranks: Seq<Option<Rank>>, best: Option<(u128, Rank)>) -> bool {
    best matches Some((i, rank)) ==> i < ranks.len() && ranks[i as int] == Some(rank)
}

/// Position `i` comes before position `j` in the stable order of `ranks`: by rank, and by
/// position where the ranks are equal.
pub open spec fn stably_before(ranks: Seq<Rank>, i: int, j: int) -> bool {
    before(ranks[i], ranks[j]) || (ranks[i] == ranks[j] && i < j)
}

/// `order` lists positions of `ranks` in stable order, each at most once.
pub open spec fn in_stable_order(ranks: Seq<Rank>, order: Seq<usize>) -> bool {
    &&& forall|k: int| 0 <= k < order.len() ==> (#[trigger] order[k]) < ranks.len()
    &&& forall|k: int, l: int|
        0 <= k < l < order.len() ==> stably_before(
            ranks,
            #[trigger] order[k] as int,
            #[trigger] order[l] as int,
        )
}

/// `order` lists every position of `ranks` in stable order.
pub open spec fn is_stable_order(ranks: Seq<Rank>, order: Seq<usize>) -> bool {
    &&& in_stable_order(ranks, order)
    &&& order.len() == ranks.len()
    &&& forall|i: usize| i < ranks.len() ==> order.contains(i)
}

/// Merges two lists of positions that are in stable order, all positions of the first standing
/// before all of the second.
fn merge_orders(ranks: &Vec<Rank>, left: &Vec<usize>, right: &Vec<usize>) -> (merged: Vec<usize>)
    requires
        in_stable_order(ranks@, left@),
        in_stable_order(ranks@, right@),
        left@.len() + right@.len() <= usize::MAX,
        forall|k: int, l: int|
            0 <= k < left@.len() && 0 <= l < right@.len() ==> (#[trigger] left@[k]) < (
            #[trigger] right@[l]),
    ensures
        in_stable_order(ranks@, merged@),
        merged@.len() == left@.len() + right@.len(),
        forall|i: usize| left@.contains(i) || right@.contains(i) ==> merged@.contains(i),
{
    let mut merged: Vec<usize> = Vec::new();
    let mut l: usize = 0;
    let mut r: usize = 0;
    while l < left.len() || r < right.len()
        invariant
            l <= left@.len(),
            r <= right@.len(),
            left@.len() + right@.len() <= usize::MAX,
            merged@.len() == l + r,
            in_stable_order(ranks@, left@),
            in_stable_order(ranks@, right@),
            in_stable_order(ranks@, merged@),
            forall|k: int, l: int|
                0 <= k < left@.len() && 0 <= l < right@.len() ==> (#[trigger] left@[k]) < (
                #[trigger] right@[l]),
            forall|k: int, m: int|
                0 <= k < merged@.len() && l <= m < left@.len() ==> stably_before(
                    ranks@,
                    #[trigger] merged@[k] as int,
                    #[trigger] left@[m] as int,
                ),
            forall|k: int, m: int|
                0 <= k < merged@.len() && r <= m < right@.len() ==> stably_before(
                    ranks@,
                    #[trigger] merged@[k] as int,
                    #[trigger] right@[m] as int,
                ),
            forall|k: int| 0 <= k < l ==> merged@.contains(#[trigger] left@[k]),
            forall|k: int| 0 <= k < r ==> merged@.contains(#[trigger] right@[k]),
        decreases left@.len() + right@.len() - l - r,
    {
        let take_left: bool = if l == left.len() {
            false
        } else if r == right.len() {
            true
        } else {
            !ranks_before(ranks[right[r]], ranks[left[l]])
        };
        let ghost previous = merged@;
        if take_left {
            merged.push(left[l]);
            l = l + 1;
        } else {
            merged.push(right[r]);
            r = r + 1;
        }
        proof {
            assert(forall|i: int| 0 <= i < previous.len() ==> merged@[i] == previous[i]);
            assert forall|i: usize| previous.contains(i) implies merged@.contains(i) by {
                let k = choose|k: int| 0 <= k < previous.len() && previous[k] == i;
                assert(merged@[k] == i);
            }
            assert(merged@.contains(merged@[merged@.len() - 1]));
        }
    }
    merged
}

/// The positions `from..to` of `ranks` in stable order.
fn order_range(ranks: &Vec<Rank>, from: usize, to: usize) -> (order: Vec<usize>)
    requires
        from <= to <= ranks@.len(),
    ensures
        in_stable_order(ranks@, order@),
        order@.len() == to - from,
        forall|k: int| 0 <= k < order@.len() ==> from <= (#[trigger] order@[k]) < to,
        forall|i: usize| from <= i < to ==> order@.contains(i),
    decreases to - from,
{
    let mut order: Vec<usize> = Vec::new();
    if to - from >= 2 {
        let middle: usize = from + (to - from) / 2;
        let left = order_range(ranks, from, middle);
        let right = order_range(ranks, middle, to);
        order = merge_orders(ranks, &left, &right);
        proof {
            lemma_all_from_range(order@, left@, right@, from, middle, to);
        }
    } else if to - from == 1 {
        order.push(from);
        assert(order@[0] == from);
    }
    order
}

/// A list without repetition that holds all of a range and is as long as it holds nothing else.
proof fn lemma_all_from_range(
    order: Seq<usize>,
    left: Seq<usize>,
    right: Seq<usize>,
    from: usize,
    middle: usize,
    to: usize,
)
    requires
        from <= middle <= to,
        order.len() == to - from,
        forall|i: usize| left.contains(i) || right.contains(i) ==> order.contains(i),
        forall|i: usize| from <= i < middle ==> left.contains(i),
        forall|i: usize| middle <= i < to ==> right.contains(i),
    ensures
        forall|k: int| 0 <= k < order.len() ==> from <= (#[trigger] order[k]) < to,
        forall|i: usize| from <= i < to ==> order.contains(i),
{
    let range: Set<usize> = Set::new(|i: usize| from <= i < to);
    let listed = order.to_set();
    assert forall|i: usize| from <= i < to implies order.contains(i) by {
        if i < middle {
            assert(left.contains(i));
        } else {
            assert(right.contains(i));
        }
    }
    lemma_range_len(from, to);
    order.lemma_cardinality_of_set();
    assert(range.subset_of(listed));
    vstd::set_lib::lemma_len_subset(range, listed);
    vstd::set_lib::lemma_subset_equality(range, listed);
    assert forall|k: int| 0 <= k < order.len() implies from <= (#[trigger] order[k]) < to by {
        assert(listed.contains(order[k]));
    }
}

/// A range has as many numbers as its bounds are apart.
pub proof fn lemma_range_len(from: usize, to: usize)
    requires
        from <= to,
    ensures
        Set::new(|i: usize| from <= i < to).finite(),
        Set::new(|i: usize| from <= i < to).len() == to - from,
    decreases to - from,
{
    let range: Set<usize> = Set::new(|i: usize| from <= i < to);
    if from == to {
        assert(range =~= Set::empty());
    } else {
        let last: usize = (to - 1) as usize;
        lemma_range_len(from, last);
        assert(range =~= Set::new(|i: usize| from <= i < last).insert(last));
    }
}

/// The positions of `ranks` in stable order: from the least rank up, equal ranks in the order in
/// which they stand.
pub fn stable_order(ranks: &Vec<Rank>) -> (order: Vec<usize>)
    ensures
        is_stable_order(ranks@, order@),
{
    order_range(ranks, 0, ranks.len())
}

/// A sequence that is read in another order, every place once, holds the same elements.
pub proof fn lemma_rearranging<A>(s: Seq<A>, places: Seq<int>)
    requires
        places.len() == s.len(),
        forall|k: int| 0 <= k < places.len() ==> 0 <= (#[trigger] places[k]) < s.len(),
        forall|k: int, l: int|
            0 <= k < l < places.len() ==> (#[trigger] places[k]) != (#[trigger] places[l]),
        forall|i: int| 0 <= i < s.len() ==> #[trigger] places.contains(i),
    ensures
        Seq::new(places.len(), |k: int| s[places[k]]).to_multiset() == s.to_multiset(),
    decreases s.len(),
{
    let read = Seq::new(places.len(), |k: int| s[places[k]]);
    if s.len() == 0 {
        assert(read =~= s);
    } else {
        let n = s.len() - 1;
        assert(places.contains(n));
        let m = choose|m: int| 0 <= m < places.len() && places[m] == n;
        let fewer = places.remove(m);
        let front = s.drop_last();
        assert forall|k: int| 0 <= k < fewer.len() implies 0 <= (#[trigger] fewer[k])
            < front.len() by {
            if k < m {
                assert(places[k] != places[m]);
            } else {
                assert(places[m] != places[k + 1]);
            }
        }
        assert forall|k: int, l: int| 0 <= k < l < fewer.len() implies (#[trigger] fewer[k]) != (
        #[trigger] fewer[l]) by {
            let k2 = if k < m { k } else { k + 1 };
            let l2 = if l < m { l } else { l + 1 };
            assert(places[k2] != places[l2]);
        }
        assert forall|i: int| 0 <= i < front.len() implies #[trigger] fewer.contains(i) by {
            assert(places.contains(i));
            let j = choose|j: int| 0 <= j < places.len() && places[j] == i;
            let j2 = if j < m { j } else { j - 1 };
            assert(fewer[j2] == i);
        }
        lemma_rearranging(front, fewer);
        assert(read.remove(m) =~= Seq::new(fewer.len(), |k: int| front[fewer[k]]));
        assert(s.remove(n) =~= front);
        vstd::seq_lib::to_multiset_remove(read, m);
        vstd::seq_lib::to_multiset_remove(s, n);
        assert(read[m] == s[n]);
        vstd::seq_lib::to_multiset_contains(read, read[m]);
        vstd::seq_lib::to_multiset_contains(s, s[n]);
        assert(read.to_multiset() =~= read.remove(m).to_multiset().insert(s[n]));
        assert(s.to_multiset() =~= front.to_multiset().insert(s[n]));
    }
}

/// Ranks are ordered by their first parts, then by their second, then by their third.
pub proof fn ranks_are_ordered_part_by_part(a: Rank, b: Rank)
    ensures
        a.major < b.major ==> before(a, b) && !before(b, a),
        a.major == b.major && a.minor < b.minor ==> before(a, b) && !before(b, a),
        a.major == b.major && a.minor == b.minor && a.last < b.last ==> before(a, b) && !before(
            b,
            a,
        ),
        !before(a, a),
{
}

} // verus!
