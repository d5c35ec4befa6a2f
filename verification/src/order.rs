//! Putting things in order.
use vstd::prelude::*;
use vstd::seq_lib::*;
use crate::text;
use crate::time::Timestamp;

verus! {

/// What things are put in order by.
pub trait Ranked: Sized {
    /// Where the key stands.
    spec fn rank(&self) -> int;

    /// Whether the key stands no later than another.
    fn at_most(&self, other: &Self) -> (r: bool)
        ensures
            r == (self.rank() <= other.rank()),
    ;
}

/// A point in time of which the latest comes first.
#[derive(Debug, Clone, Copy, PartialEq, Eq, Structural)]
pub struct Newest(pub Timestamp);

impl Ranked for Newest {
    open spec fn rank(&self) -> int {
        -(self.0.secs * 0x1_0000_0000 + self.0.nanos)
    }

    fn at_most(&self, other: &Self) -> (r: bool) {
        self.0.secs > other.0.secs || (self.0.secs == other.0.secs && self.0.nanos
            >= other.0.nanos)
    }
}

/// Where a thing belongs among ordered ones: behind all that do not come after it.
pub open spec fn spot<K: Ranked, V>(sorted: Seq<(K, V)>, rank: int) -> int
    decreases sorted.len(),
{
    if sorted.len() == 0 {
        0
    } else if sorted.last().0.rank() <= rank {
        sorted.len() as int
    } else {
        spot(sorted.drop_last(), rank)
    }
}

/// The things in order; those of one rank stay in the order they had.
pub open spec fn ranked<K: Ranked, V>(items: Seq<(K, V)>) -> Seq<(K, V)>
    decreases items.len(),
{
    if items.len() == 0 {
        Seq::empty()
    } else {
        let before = ranked(items.drop_last());
        before.insert(spot(before, items.last().0.rank()), items.last())
    }
}

/// Whether things are in order.
pub open spec fn ordered<K: Ranked, V>(items: Seq<(K, V)>) -> bool {
    forall|i: int, j: int|
        0 <= i <= j < items.len() ==> (#[trigger] items[i]).0.rank() <= (
        #[trigger] items[j]).0.rank()
}

/// A spot lies within, and parts what comes before from what comes after.
proof fn lemma_spot<K: Ranked, V>(sorted: Seq<(K, V)>, rank: int)
    requires
        ordered(sorted),
    ensures
        0 <= spot(sorted, rank) <= sorted.len(),
        forall|i: int|
            0 <= i < spot(sorted, rank) ==> (#[trigger] sorted[i]).0.rank() <= rank,
        forall|i: int|
            spot(sorted, rank) <= i < sorted.len() ==> (#[trigger] sorted[i]).0.rank() > rank,
    decreases sorted.len(),
{
    if sorted.len() > 0 {
        let last = sorted[sorted.len() - 1];
        if last.0.rank() <= rank {
        } else {
            let before = sorted.drop_last();
            assert forall|i: int, j: int| 0 <= i <= j < before.len() implies (
            #[trigger] before[i]).0.rank() <= (#[trigger] before[j]).0.rank() by {
                assert(before[i] == sorted[i] && before[j] == sorted[j]);
            }
            lemma_spot(before, rank);
            assert forall|i: int|
                spot(sorted, rank) <= i < sorted.len() implies (#[trigger] sorted[i]).0.rank()
                > rank by {
                if i < before.len() {
                    assert(before[i] == sorted[i]);
                }
            }
            assert forall|i: int| 0 <= i < spot(sorted, rank) implies (
            #[trigger] sorted[i]).0.rank() <= rank by {
                assert(before[i] == sorted[i]);
            }
        }
    }
}

/// Putting things in order orders them, and neither loses nor adds any.
pub proof fn law_ranking_orders<K: Ranked, V>(items: Seq<(K, V)>)
    ensures
        ordered(ranked(items)),
        ranked(items).to_multiset() == items.to_multiset(),
        ranked(items).len() == items.len(),
    decreases items.len(),
{
    broadcast use group_to_multiset_ensures;

    if items.len() > 0 {
        let before = items.drop_last();
        law_ranking_orders(before);
        let sorted = ranked(before);
        let item = items.last();
        lemma_spot(sorted, item.0.rank());
        let at = spot(sorted, item.0.rank());
        let all = sorted.insert(at, item);
        assert forall|i: int, j: int| 0 <= i <= j < all.len() implies (
        #[trigger] all[i]).0.rank() <= (#[trigger] all[j]).0.rank() by {
            let a = if i < at {
                i
            } else {
                i - 1
            };
            let b = if j < at {
                j
            } else {
                j - 1
            };
            if i != at {
                assert(all[i] == sorted[a]);
            }
            if j != at {
                assert(all[j] == sorted[b]);
            }
        }
        assert(items =~= before.push(item));
        assert(all.to_multiset() =~= sorted.to_multiset().insert(item));
    }
}

/// The things in order; those of one rank stay in the order they had.
pub fn sort_ranked<K: Ranked, V>(items: Vec<(K, V)>) -> (r: Vec<(K, V)>)
    ensures
        r@ == ranked(items@),
{
    let ghost given = items@;
    let mut sorted: Vec<(K, V)> = Vec::new();
    assert(given.take(0) =~= Seq::<(K, V)>::empty());
    for item in iter: items
        invariant
            iter.seq() == given,
            sorted@ == ranked(given.take(iter.index() as int)),
    {
        proof {
            let k = iter.index() as int;
            assert(given.take(k + 1).drop_last() =~= given.take(k));
            assert(given.take(k + 1).last() == item);
            law_ranking_orders(given.take(k));
            lemma_spot(sorted@, item.0.rank());
        }
        let mut at: usize = sorted.len();
        assert(sorted@.take(at as int) =~= sorted@);
        while at > 0 && !sorted[at - 1].0.at_most(&item.0)
            invariant
                at <= sorted@.len(),
                spot(sorted@.take(at as int), item.0.rank()) == spot(sorted@, item.0.rank()),
            decreases at,
        {
            assert(sorted@.take(at as int).drop_last() =~= sorted@.take(at - 1));
            at = at - 1;
        }
        sorted.insert(at, item);
    }
    assert(given.take(given.len() as int) =~= given);
    sorted
}

/// Where things belong depends on their keys alone.
pub proof fn lemma_ranked_keys<K: Ranked, V, W>(items: Seq<(K, V)>, others: Seq<(K, W)>, view: spec_fn(V) -> W)
    requires
        items.len() == others.len(),
        forall|i: int|
            0 <= i < items.len() ==> #[trigger] others[i] == (items[i].0, view(items[i].1)),
    ensures
        ranked(items).len() == ranked(others).len(),
        forall|i: int|
            0 <= i < ranked(items).len() ==> #[trigger] ranked(others)[i] == (
                ranked(items)[i].0,
                view(ranked(items)[i].1),
            ),
    decreases items.len(),
{
    if items.len() > 0 {
        let a = ranked(items.drop_last());
        let b = ranked(others.drop_last());
        assert forall|i: int| 0 <= i < items.drop_last().len() implies (
        #[trigger] others.drop_last()[i]) == (
            items.drop_last()[i].0,
            view(items.drop_last()[i].1),
        ) by {
            assert(others.drop_last()[i] == others[i]);
        }
        lemma_ranked_keys(items.drop_last(), others.drop_last(), view);
        assert(others.last() == others[others.len() - 1]);
        let rank = items.last().0.rank();
        lemma_same_spot(a, b, rank);
        law_ranking_orders(items.drop_last());
        lemma_spot(a, rank);
        let at = spot(a, rank);
        assert forall|i: int| 0 <= i < ranked(items).len() implies (
        #[trigger] ranked(others)[i]) == (
            ranked(items)[i].0,
            view(ranked(items)[i].1),
        ) by {
            if i < at {
                assert(b[i] == (a[i].0, view(a[i].1)));
            } else if i > at {
                assert(b[i - 1] == (a[i - 1].0, view(a[i - 1].1)));
            }
        }
    }
}

/// Things with the same keys have the same spots.
proof fn lemma_same_spot<K: Ranked, V, W>(a: Seq<(K, V)>, b: Seq<(K, W)>, rank: int)
    requires
        a.len() == b.len(),
        forall|i: int| 0 <= i < a.len() ==> (#[trigger] b[i]).0 == a[i].0,
    ensures
        spot(a, rank) == spot(b, rank),
    decreases a.len(),
{
    if a.len() > 0 {
        assert(b.last().0 == a.last().0) by {
            assert(b[b.len() - 1].0 == a[a.len() - 1].0);
        }
        assert forall|i: int| 0 <= i < a.drop_last().len() implies (
        #[trigger] b.drop_last()[i]).0 == a.drop_last()[i].0 by {
            assert(b.drop_last()[i] == b[i]);
        }
        lemma_same_spot(a.drop_last(), b.drop_last(), rank);
    }
}

/// Whether a text comes no later than another in the order of their characters.
pub open spec fn text_at_most(a: Seq<char>, b: Seq<char>) -> bool
    decreases a.len(),
{
    if a.len() == 0 {
        true
    } else if b.len() == 0 {
        false
    } else if a[0] != b[0] {
        a[0] < b[0]
    } else {
        text_at_most(a.skip(1), b.skip(1))
    }
}

/// Whether a text comes no later than another in the order of their characters.
pub fn text_not_after(a: &str, b: &str) -> (r: bool)
    ensures
        r == text_at_most(a@, b@),
{
    let left = text::chars_of(a);
    let right = text::chars_of(b);
    let mut i: usize = 0;
    assert(left@.skip(0) =~= left@ && right@.skip(0) =~= right@);
    while i < left.len()
        invariant
            i <= left@.len(),
            i <= right@.len(),
            left@ == a@ && right@ == b@,
            text_at_most(left@, right@) == text_at_most(
                left@.skip(i as int),
                right@.skip(i as int),
            ),
        decreases left@.len() - i,
    {
        if i >= right.len() {
            return false;
        }
        assert(left@.skip(i as int)[0] == left@[i as int]);
        assert(right@.skip(i as int)[0] == right@[i as int]);
        if left[i] != right[i] {
            return left[i] < right[i];
        }
        assert(left@.skip(i as int).skip(1) =~= left@.skip(i + 1));
        assert(right@.skip(i as int).skip(1) =~= right@.skip(i + 1));
        i = i + 1;
    }
    true
}

/// Where a text belongs among ordered ones.
pub open spec fn text_spot(sorted: Seq<Seq<char>>, item: Seq<char>) -> int
    decreases sorted.len(),
{
    if sorted.len() == 0 {
        0
    } else if text_at_most(sorted.last(), item) {
        sorted.len() as int
    } else {
        text_spot(sorted.drop_last(), item)
    }
}

/// The texts in order.
pub open spec fn sorted_texts(items: Seq<Seq<char>>) -> Seq<Seq<char>>
    decreases items.len(),
{
    if items.len() == 0 {
        Seq::empty()
    } else {
        let before = sorted_texts(items.drop_last());
        before.insert(text_spot(before, items.last()), items.last())
    }
}

/// Texts come one way round or the other.
proof fn lemma_text_total(a: Seq<char>, b: Seq<char>)
    ensures
        text_at_most(a, b) || text_at_most(b, a),
    decreases a.len(),
{
    if a.len() > 0 && b.len() > 0 && a[0] == b[0] {
        lemma_text_total(a.skip(1), b.skip(1));
    }
}

/// What comes before something that comes before a third comes before the third.
proof fn lemma_text_transitive(a: Seq<char>, b: Seq<char>, c: Seq<char>)
    requires
        text_at_most(a, b),
        text_at_most(b, c),
    ensures
        text_at_most(a, c),
    decreases a.len(),
{
    if a.len() > 0 && b.len() > 0 && c.len() > 0 && a[0] == b[0] && b[0] == c[0] {
        lemma_text_transitive(a.skip(1), b.skip(1), c.skip(1));
    }
}

/// Whether texts are in order.
pub open spec fn texts_ordered(items: Seq<Seq<char>>) -> bool {
    forall|i: int, j: int|
        0 <= i <= j < items.len() ==> text_at_most(#[trigger] items[i], #[trigger] items[j])
}

/// A spot parts the texts that come before from those that come after.
proof fn lemma_text_spot(sorted: Seq<Seq<char>>, item: Seq<char>)
    requires
        texts_ordered(sorted),
    ensures
        0 <= text_spot(sorted, item) <= sorted.len(),
        forall|i: int|
            0 <= i < text_spot(sorted, item) ==> text_at_most(#[trigger] sorted[i], item),
        forall|i: int|
            text_spot(sorted, item) <= i < sorted.len() ==> text_at_most(
                item,
                #[trigger] sorted[i],
            ),
    decreases sorted.len(),
{
    if sorted.len() > 0 {
        let last = sorted[sorted.len() - 1];
        if text_at_most(last, item) {
            assert forall|i: int| 0 <= i < sorted.len() implies text_at_most(
                #[trigger] sorted[i],
                item,
            ) by {
                lemma_text_transitive(sorted[i], sorted[sorted.len() - 1], item);
            }
        } else {
            lemma_text_total(last, item);
            let before = sorted.drop_last();
            assert forall|i: int, j: int| 0 <= i <= j < before.len() implies text_at_most(
                #[trigger] before[i],
                #[trigger] before[j],
            ) by {
                assert(before[i] == sorted[i] && before[j] == sorted[j]);
            }
            lemma_text_spot(before, item);
            assert forall|i: int|
                text_spot(sorted, item) <= i < sorted.len() implies text_at_most(
                item,
                #[trigger] sorted[i],
            ) by {
                if i < before.len() {
                    assert(before[i] == sorted[i]);
                }
            }
            assert forall|i: int| 0 <= i < text_spot(sorted, item) implies text_at_most(
                #[trigger] sorted[i],
                item,
            ) by {
                assert(before[i] == sorted[i]);
            }
        }
    }
}

/// Where a text belongs lies within.
pub proof fn lemma_text_spot_within(sorted: Seq<Seq<char>>)
    ensures
        forall|item: Seq<char>| 0 <= #[trigger] text_spot(sorted, item) <= sorted.len(),
    decreases sorted.len(),
{
    if sorted.len() > 0 {
        lemma_text_spot_within(sorted.drop_last());
        assert forall|item: Seq<char>| 0 <= #[trigger] text_spot(sorted, item)
            <= sorted.len() by {
            assert(0 <= text_spot(sorted.drop_last(), item) <= sorted.len() - 1);
        }
    }
}

/// Putting texts in order orders them, and neither loses nor adds any.
pub proof fn law_sorting_texts_orders(items: Seq<Seq<char>>)
    ensures
        texts_ordered(sorted_texts(items)),
        sorted_texts(items).to_multiset() == items.to_multiset(),
        sorted_texts(items).len() == items.len(),
    decreases items.len(),
{
    broadcast use group_to_multiset_ensures;

    if items.len() > 0 {
        let before = items.drop_last();
        law_sorting_texts_orders(before);
        let sorted = sorted_texts(before);
        let item = items.last();
        lemma_text_spot(sorted, item);
        let at = text_spot(sorted, item);
        let all = sorted.insert(at, item);
        lemma_text_total(item, item);
        assert forall|i: int, j: int| 0 <= i <= j < all.len() implies text_at_most(
            #[trigger] all[i],
            #[trigger] all[j],
        ) by {
            let a = if i < at {
                i
            } else {
                i - 1
            };
            let b = if j < at {
                j
            } else {
                j - 1
            };
            if i != at {
                assert(all[i] == sorted[a]);
            }
            if j != at {
                assert(all[j] == sorted[b]);
            }
        }
        assert(items =~= before.push(item));
        assert(all.to_multiset() =~= sorted.to_multiset().insert(item));
    }
}

/// The texts in order.
pub fn sort_texts(items: Vec<String>) -> (r: Vec<String>)
    ensures
        text::views(r@) == sorted_texts(text::views(items@)),
{
    let ghost given = items@;
    let ghost all = text::views(given);
    let mut sorted: Vec<String> = Vec::new();
    assert(text::views(sorted@) =~= sorted_texts(all.take(0)));
    for item in iter: items
        invariant
            iter.seq() == given,
            all == text::views(given),
            text::views(sorted@) == sorted_texts(all.take(iter.index() as int)),
    {
        let ghost known = text::views(sorted@);
        proof {
            let k = iter.index() as int;
            assert(all.take(k + 1).drop_last() =~= all.take(k));
            assert(all.take(k + 1).last() == item@);
            law_sorting_texts_orders(all.take(k));
            lemma_text_spot(known, item@);
        }
        let mut at: usize = sorted.len();
        assert(known.take(at as int) =~= known);
        while at > 0 && !text_not_after(sorted[at - 1].as_str(), item.as_str())
            invariant
                at <= sorted@.len(),
                known == text::views(sorted@),
                text_spot(known.take(at as int), item@) == text_spot(known, item@),
            decreases at,
        {
            assert(known.take(at as int).drop_last() =~= known.take(at - 1));
            at = at - 1;
        }
        let ghost added = item@;
        sorted.insert(at, item);
        assert(text::views(sorted@) =~= known.insert(at as int, added));
    }
    assert(all.take(all.len() as int) =~= all);
    sorted
}

/// The later of two points in time comes first.
pub proof fn law_later_points_come_first(a: Timestamp, b: Timestamp)
    ensures
        Newest(a).rank() < Newest(b).rank() <==> a.secs > b.secs || (a.secs == b.secs && a.nanos
            > b.nanos),
        Newest(a).rank() == Newest(b).rank() <==> a == b,
{
}

/// Texts are compared by their first difference, and a text comes before those that go on from it.
pub proof fn law_texts_are_compared_by_their_first_difference(
    start: Seq<char>,
    a: Seq<char>,
    b: Seq<char>,
)
    ensures
        text_at_most(start, start + b),
        a.len() > 0 && b.len() > 0 && a[0] != b[0] ==> (text_at_most(start + a, start + b)
            <==> a[0] < b[0]),
        a.len() > 0 ==> !text_at_most(start + a, start),
    decreases start.len(),
{
    if start.len() == 0 {
        assert(start + a =~= a);
        assert(start + b =~= b);
    } else {
        let rest = start.skip(1);
        law_texts_are_compared_by_their_first_difference(rest, a, b);
        assert((start + a).skip(1) =~= rest + a);
        assert((start + b).skip(1) =~= rest + b);
        assert((start + a)[0] == start[0] && (start + b)[0] == start[0]);
    }
}

/// Of items that rank alike the earlier one stays first.
pub proof fn law_equal_ranks_keep_their_order<K: Ranked, V>(items: Seq<(K, V)>, item: (K, V))
    requires
        forall|i: int| 0 <= i < items.len() ==> (#[trigger] items[i]).0.rank() <= item.0.rank(),
    ensures
        ranked(items.push(item)) == ranked(items).push(item),
{
    let all = items.push(item);
    assert(all.drop_last() =~= items);
    let before = ranked(items);
    law_ranking_orders(items);
    if before.len() > 0 {
        broadcast use vstd::seq_lib::group_to_multiset_ensures;

        let last = before.last();
        assert(before.contains(last)) by {
            assert(before[before.len() - 1] == last);
        }
        assert(before.to_multiset().count(last) > 0);
        assert(items.to_multiset().count(last) > 0);
        assert(items.contains(last));
        let k = choose|k: int| 0 <= k < items.len() && items[k] == last;
        assert(last.0.rank() <= item.0.rank());
    }
    assert(before.insert(before.len() as int, item) =~= before.push(item));
}

} // verus!
