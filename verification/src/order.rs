//! Putting items in order. Items of the same rank stay in the order they came in.
use crate::text::{at_most, at_most_total, at_most_transitive, chars_of, not_after, texts};
use vstd::prelude::*;

verus! {

/// `x` put behind all items of `sorted` that do not come after it.
pub open spec fn placed<T>(sorted: Seq<T>, x: T, leq: spec_fn(T, T) -> bool) -> Seq<T>
    decreases sorted.len(),
{
    if sorted.len() == 0 {
        seq![x]
    } else if leq(sorted.last(), x) {
        sorted.push(x)
    } else {
        placed(sorted.drop_last(), x, leq).push(sorted.last())
    }
}

/// The items in order.
pub open spec fn ordered<T>(items: Seq<T>, leq: spec_fn(T, T) -> bool) -> Seq<T>
    decreases items.len(),
{
    if items.len() == 0 {
        Seq::empty()
    } else {
        placed(ordered(items.drop_last(), leq), items.last(), leq)
    }
}

/// Whether any two items can be compared, and comparing can be chained.
pub open spec fn ranks<T>(leq: spec_fn(T, T) -> bool) -> bool {
    &&& forall|a: T, b: T| #[trigger] leq(a, b) || leq(b, a)
    &&& forall|a: T, b: T, c: T| #[trigger] leq(a, b) && #[trigger] leq(b, c) ==> leq(a, c)
}

/// Whether no item comes after a later one.
pub open spec fn in_order<T>(items: Seq<T>, leq: spec_fn(T, T) -> bool) -> bool {
    forall|i: int, j: int| 0 <= i < j < items.len() ==> leq(#[trigger] items[i], #[trigger] items[j])
}

/// Whether no item comes after `y`.
pub open spec fn all_before<T>(items: Seq<T>, y: T, leq: spec_fn(T, T) -> bool) -> bool {
    forall|i: int| 0 <= i < items.len() ==> leq(#[trigger] items[i], y)
}

/// Placing an item is inserting it at the one place that suits.
pub proof fn placed_is_insert<T>(sorted: Seq<T>, x: T, leq: spec_fn(T, T) -> bool, at: int)
    requires
        0 <= at <= sorted.len(),
        at > 0 ==> leq(sorted[at - 1], x),
        forall|i: int| at <= i < sorted.len() ==> !leq(#[trigger] sorted[i], x),
    ensures
        placed(sorted, x, leq) == sorted.insert(at, x),
    decreases sorted.len(),
{
    if sorted.len() == 0 {
        assert(sorted.insert(at, x) =~= seq![x]);
    } else if at == sorted.len() {
        assert(sorted.insert(at, x) =~= sorted.push(x));
    } else {
        placed_is_insert(sorted.drop_last(), x, leq, at);
        assert(sorted.drop_last().insert(at, x).push(sorted.last()) =~= sorted.insert(at, x));
    }
}

proof fn placed_in_order<T>(sorted: Seq<T>, x: T, leq: spec_fn(T, T) -> bool)
    requires
        ranks(leq),
        in_order(sorted, leq),
    ensures
        in_order(placed(sorted, x, leq), leq),
        placed(sorted, x, leq).to_multiset() == sorted.to_multiset().insert(x),
        placed(sorted, x, leq).len() == sorted.len() + 1,
        forall|y: T|
            leq(x, y) && #[trigger] all_before(sorted, y, leq) ==> all_before(
                placed(sorted, x, leq),
                y,
                leq,
            ),
    decreases sorted.len(),
{
    broadcast use vstd::seq_lib::group_to_multiset_ensures;

    let r = placed(sorted, x, leq);
    if sorted.len() == 0 {
        assert(sorted =~= Seq::empty());
        assert(seq![x] =~= Seq::<T>::empty().push(x));
    } else if leq(sorted.last(), x) {
        assert forall|i: int, j: int| 0 <= i < j < r.len() implies leq(
            #[trigger] r[i],
            #[trigger] r[j],
        ) by {
            if j == sorted.len() {
                if i < sorted.len() - 1 {
                    assert(leq(sorted[i], sorted.last()));
                }
                assert(leq(r[i], x));
            } else {
                assert(leq(sorted[i], sorted[j]));
            }
        }
    } else {
        let init = sorted.drop_last();
        let last = sorted.last();
        assert forall|i: int, j: int| 0 <= i < j < init.len() implies leq(
            #[trigger] init[i],
            #[trigger] init[j],
        ) by {
            assert(leq(sorted[i], sorted[j]));
        }
        placed_in_order(init, x, leq);
        assert(leq(x, last));
        assert forall|i: int| 0 <= i < init.len() implies leq(#[trigger] init[i], last) by {
            assert(leq(sorted[i], sorted[sorted.len() - 1]));
        }
        assert(all_before(init, last, leq));
        let inner = placed(init, x, leq);
        assert(all_before(inner, last, leq));
        assert(r == inner.push(last));
        assert forall|i: int, j: int| 0 <= i < j < r.len() implies leq(
            #[trigger] r[i],
            #[trigger] r[j],
        ) by {
            assert(r[i] == inner[i]);
            if j < inner.len() {
                assert(r[j] == inner[j]);
            }
        }
        assert(sorted =~= init.push(last));
        assert(inner.push(last).to_multiset() =~= init.to_multiset().insert(x).insert(last));
        assert(sorted.to_multiset() =~= init.to_multiset().insert(last));
        assert(r.to_multiset() =~= sorted.to_multiset().insert(x));
        assert forall|y: T| leq(x, y) && #[trigger] all_before(sorted, y, leq) implies all_before(
            r,
            y,
            leq,
        ) by {
            assert forall|i: int| 0 <= i < init.len() implies leq(#[trigger] init[i], y) by {
                assert(leq(sorted[i], y));
            }
            assert(all_before(init, y, leq));
            assert(leq(sorted[sorted.len() - 1], y));
            assert forall|i: int| 0 <= i < r.len() implies leq(#[trigger] r[i], y) by {
                if i < inner.len() {
                    assert(leq(inner[i], y));
                }
            }
        }
    }
}

/// The items in order are the items that came, and none comes after a later one.
pub proof fn ordered_sorts<T>(items: Seq<T>, leq: spec_fn(T, T) -> bool)
    requires
        ranks(leq),
    ensures
        in_order(ordered(items, leq), leq),
        ordered(items, leq).to_multiset() == items.to_multiset(),
        ordered(items, leq).len() == items.len(),
    decreases items.len(),
{
    broadcast use vstd::seq_lib::group_to_multiset_ensures;

    if items.len() == 0 {
        assert(items =~= Seq::empty());
    } else {
        ordered_sorts(items.drop_last(), leq);
        placed_in_order(ordered(items.drop_last(), leq), items.last(), leq);
        assert(items =~= items.drop_last().push(items.last()));
    }
}

/// Whether two items are of the same rank.
pub open spec fn same_rank<T>(x: T, leq: spec_fn(T, T) -> bool) -> spec_fn(T) -> bool {
    |y: T| leq(x, y) && leq(y, x)
}

proof fn placed_stable<T>(sorted: Seq<T>, x: T, leq: spec_fn(T, T) -> bool, like: T)
    requires
        ranks(leq),
    ensures
        placed(sorted, x, leq).filter(same_rank(like, leq)) == sorted.push(x).filter(
            same_rank(like, leq),
        ),
    decreases sorted.len(),
{
    broadcast use Seq::lemma_filter_push;

    let p = same_rank(like, leq);
    if sorted.len() == 0 {
        assert(sorted.push(x) =~= seq![x]);
    } else if !leq(sorted.last(), x) {
        let init = sorted.drop_last();
        let last = sorted.last();
        placed_stable(init, x, leq, like);
        assert(sorted =~= init.push(last));
        assert(p(x) && p(last) ==> leq(last, like) && leq(like, x));
    }
}

/// Items can be put in order by what stands for them.
pub proof fn ordered_through<A, B>(
    items: Seq<A>,
    f: spec_fn(A) -> B,
    leq_a: spec_fn(A, A) -> bool,
    leq_b: spec_fn(B, B) -> bool,
)
    requires
        forall|x: A, y: A| #[trigger] leq_a(x, y) == leq_b(f(x), f(y)),
    ensures
        ordered(items, leq_a).map_values(f) == ordered(items.map_values(f), leq_b),
    decreases items.len(),
{
    if items.len() > 0 {
        ordered_through(items.drop_last(), f, leq_a, leq_b);
        assert(items.map_values(f).drop_last() =~= items.drop_last().map_values(f));
        placed_through(ordered(items.drop_last(), leq_a), items.last(), f, leq_a, leq_b);
    } else {
        assert(ordered(items, leq_a).map_values(f) =~= ordered(items.map_values(f), leq_b));
    }
}

proof fn placed_through<A, B>(
    sorted: Seq<A>,
    x: A,
    f: spec_fn(A) -> B,
    leq_a: spec_fn(A, A) -> bool,
    leq_b: spec_fn(B, B) -> bool,
)
    requires
        forall|i: int|
            0 <= i < sorted.len() ==> leq_a(#[trigger] sorted[i], x) == leq_b(f(sorted[i]), f(x)),
    ensures
        placed(sorted, x, leq_a).map_values(f) == placed(sorted.map_values(f), f(x), leq_b),
    decreases sorted.len(),
{
    if sorted.len() == 0 {
        assert(placed(sorted, x, leq_a).map_values(f) =~= seq![f(x)]);
    } else {
        assert(sorted.map_values(f).last() == f(sorted.last()));
        assert(sorted.last() == sorted[sorted.len() - 1]);
        if leq_a(sorted.last(), x) {
            assert(sorted.push(x).map_values(f) =~= sorted.map_values(f).push(f(x)));
        } else {
            assert forall|i: int| 0 <= i < sorted.drop_last().len() implies leq_a(
                #[trigger] sorted.drop_last()[i],
                x,
            ) == leq_b(f(sorted.drop_last()[i]), f(x)) by {
                assert(sorted.drop_last()[i] == sorted[i]);
            }
            placed_through(sorted.drop_last(), x, f, leq_a, leq_b);
            assert(sorted.map_values(f).drop_last() =~= sorted.drop_last().map_values(f));
            let front = placed(sorted.drop_last(), x, leq_a);
            assert(front.push(sorted.last()).map_values(f) =~= front.map_values(f).push(
                f(sorted.last()),
            ));
        }
    }
}

/// Items of the same rank stay in the order they came in.
pub proof fn ordered_is_stable<T>(items: Seq<T>, leq: spec_fn(T, T) -> bool, like: T)
    requires
        ranks(leq),
    ensures
        ordered(items, leq).filter(same_rank(like, leq)) == items.filter(same_rank(like, leq)),
    decreases items.len(),
{
    broadcast use Seq::lemma_filter_push;

    if items.len() == 0 {
        assert(items =~= Seq::empty());
    } else {
        ordered_is_stable(items.drop_last(), leq, like);
        placed_stable(ordered(items.drop_last(), leq), items.last(), leq, like);
        assert(items =~= items.drop_last().push(items.last()));
    }
}

/// The order of texts, character by character.
pub open spec fn text_order() -> spec_fn(Seq<char>, Seq<char>) -> bool {
    |a: Seq<char>, b: Seq<char>| at_most(a, b)
}

/// Any two texts can be compared, and comparing can be chained.
pub proof fn text_order_ranks()
    ensures
        ranks(text_order()),
{
    assert forall|a: Seq<char>, b: Seq<char>| #[trigger] text_order()(a, b) || text_order()(b, a) by {
        at_most_total(a, b);
    }
    assert forall|a: Seq<char>, b: Seq<char>, c: Seq<char>|
        #[trigger] text_order()(a, b) && #[trigger] text_order()(b, c) implies text_order()(a, c) by {
        at_most_transitive(a, b, c);
    }
}

/// The places in a list of some length.
pub open spec fn places(n: nat) -> Seq<int> {
    Seq::new(n, |i: int| i)
}

/// The order of places by their keys: those that come first, then by text.
pub open spec fn key_order(firsts: Seq<bool>, keys: Seq<Seq<char>>) -> spec_fn(int, int) -> bool {
    |i: int, j: int|
        if firsts[i] != firsts[j] {
            firsts[i]
        } else {
            at_most(keys[i], keys[j])
        }
}

proof fn ordered_places_lie_within(n: nat, leq: spec_fn(int, int) -> bool)
    ensures
        ordered(places(n), leq).len() == n,
        forall|i: int| 0 <= i < n ==> 0 <= #[trigger] ordered(places(n), leq)[i] < n,
    decreases n,
{
    if n > 0 {
        let m = (n - 1) as nat;
        ordered_places_lie_within(m, leq);
        assert(places(n).drop_last() =~= places(m));
        assert(places(n).last() == m);
        placed_lies_within(ordered(places(m), leq), m as int, leq, n as int);
    }
}

proof fn placed_lies_within(sorted: Seq<int>, x: int, leq: spec_fn(int, int) -> bool, n: int)
    requires
        0 <= x < n,
        forall|i: int| 0 <= i < sorted.len() ==> 0 <= #[trigger] sorted[i] < n,
    ensures
        placed(sorted, x, leq).len() == sorted.len() + 1,
        forall|i: int|
            0 <= i < placed(sorted, x, leq).len() ==> 0 <= #[trigger] placed(sorted, x, leq)[i] < n,
    decreases sorted.len(),
{
    if sorted.len() > 0 {
        assert(sorted.last() == sorted[sorted.len() - 1]);
        if !leq(sorted.last(), x) {
            assert forall|i: int| 0 <= i < sorted.drop_last().len() implies 0
                <= #[trigger] sorted.drop_last()[i] < n by {
                assert(sorted.drop_last()[i] == sorted[i]);
            }
            placed_lies_within(sorted.drop_last(), x, leq, n);
        }
    }
}

/// Items can be put in order by their places.
pub proof fn ordered_by_place<T>(
    items: Seq<T>,
    leq: spec_fn(T, T) -> bool,
    rank: spec_fn(int, int) -> bool,
    n: nat,
)
    requires
        n <= items.len(),
        forall|i: int, j: int|
            0 <= i < n && 0 <= j < n ==> #[trigger] rank(i, j) == leq(items[i], items[j]),
    ensures
        ordered(places(n), rank).map_values(|i: int| items[i]) == ordered(items.take(n as int), leq),
    decreases n,
{
    let f = |i: int| items[i];
    if n > 0 {
        let m = (n - 1) as nat;
        ordered_by_place(items, leq, rank, m);
        ordered_places_lie_within(m, rank);
        assert(places(n).drop_last() =~= places(m));
        assert(places(n).last() == m);
        assert(items.take(n as int).drop_last() =~= items.take(m as int));
        placed_through(ordered(places(m), rank), m as int, f, rank, leq);
    } else {
        assert(ordered(places(n), rank).map_values(f) =~= Seq::empty());
    }
}

/// The places in a list in the order of their keys: those that come first, then by
/// text.
pub fn order_by_keys(firsts: &Vec<bool>, keys: &Vec<String>) -> (r: Vec<usize>)
    requires
        firsts.len() == keys.len(),
    ensures
        forall|i: int| 0 <= i < r.len() ==> #[trigger] r@[i] < keys.len(),
        r@.map_values(|i: usize| i as int) == ordered(
            places(keys@.len()),
            key_order(firsts@, texts(keys@)),
        ),
{
    let ghost rank = key_order(firsts@, texts(keys@));
    let ghost pick = |i: usize| i as int;
    let mut marks: Vec<Vec<char>> = Vec::new();
    for i in 0..keys.len()
        invariant
            marks.len() == i,
            forall|j: int| 0 <= j < i ==> (#[trigger] marks@[j])@ == keys@[j]@,
    {
        marks.push(chars_of(keys[i].as_str()));
    }
    let mut r: Vec<usize> = Vec::new();
    for i in 0..keys.len()
        invariant
            rank == key_order(firsts@, texts(keys@)),
            pick == (|i: usize| i as int),
            firsts.len() == keys.len(),
            marks.len() == keys.len(),
            forall|j: int| 0 <= j < marks.len() ==> (#[trigger] marks@[j])@ == keys@[j]@,
            r.len() == i,
            forall|j: int| 0 <= j < i ==> #[trigger] r@[j] < keys.len(),
            r@.map_values(pick) == ordered(places(i as nat), rank),
    {
        let mut at: usize = i;
        let ghost before = r@.map_values(pick);
        while at > 0 && !key_not_after(firsts[r[at - 1]], &marks[r[at - 1]], firsts[i], &marks[i])
            invariant
                at <= i < keys.len(),
                rank == key_order(firsts@, texts(keys@)),
                pick == (|i: usize| i as int),
                firsts.len() == keys.len(),
                marks.len() == keys.len(),
                forall|j: int| 0 <= j < marks.len() ==> (#[trigger] marks@[j])@ == keys@[j]@,
                r.len() == i,
                forall|j: int| 0 <= j < i ==> #[trigger] r@[j] < keys.len(),
                before == r@.map_values(pick),
                forall|j: int| at <= j < i ==> !rank(#[trigger] before[j], i as int),
            decreases at,
        {
            assert(before[at - 1] == r@[at - 1] as int);
            at = at - 1;
        }
        proof {
            if at > 0 {
                assert(before[at - 1] == r@[at - 1] as int);
            }
            placed_is_insert(before, i as int, rank, at as int);
            assert(places((i + 1) as nat).drop_last() =~= places(i as nat));
        }
        r.insert(at, i);
        assert(r@.map_values(pick) =~= before.insert(at as int, i as int));
    }
    r
}

fn key_not_after(first_a: bool, key_a: &Vec<char>, first_b: bool, key_b: &Vec<char>) -> (r: bool)
    ensures
        r == if first_a != first_b {
            first_a
        } else {
            at_most(key_a@, key_b@)
        },
{
    if first_a != first_b {
        first_a
    } else {
        not_after(key_a, key_b)
    }
}

/// The places in a list in the order of their texts.
pub fn order_by_text(keys: &Vec<String>) -> (r: Vec<usize>)
    ensures
        forall|i: int| 0 <= i < r.len() ==> #[trigger] r@[i] < keys.len(),
        r@.map_values(|i: usize| keys@[i as int]@) == ordered(texts(keys@), text_order()),
        r@.map_values(|i: usize| i as int) == ordered(
            places(keys@.len()),
            |i: int, j: int| at_most(texts(keys@)[i], texts(keys@)[j]),
        ),
{
    let mut firsts: Vec<bool> = Vec::new();
    for i in 0..keys.len()
        invariant
            firsts.len() == i,
            forall|j: int| 0 <= j < i ==> !(#[trigger] firsts@[j]),
    {
        firsts.push(false);
    }
    let r = order_by_keys(&firsts, keys);
    proof {
        let all = texts(keys@);
        let n = all.len();
        let rank = key_order(firsts@, all);
        let plain = |i: int, j: int| at_most(all[i], all[j]);
        ordered_by_place(all, text_order(), rank, n);
        ordered_by_place(places(n), plain, rank, n);
        ordered_places_lie_within(n, rank);
        assert(all.take(n as int) =~= all);
        assert(places(n).take(n as int) =~= places(n));
        let sorted = ordered(places(n), rank);
        assert(r@.map_values(|i: usize| keys@[i as int]@) =~= sorted.map_values(|i: int| all[i]))
            by {
            assert(sorted == r@.map_values(|i: usize| i as int));
        }
        assert(sorted.map_values(|i: int| places(n)[i]) =~= sorted);
    }
    r
}

/// The texts in order.
pub fn order_texts(items: Vec<String>) -> (r: Vec<String>)
    ensures
        texts(r@) == ordered(texts(items@), text_order()),
{
    let order = order_by_text(&items);
    let ghost sorted = ordered(texts(items@), text_order());
    let mut r: Vec<String> = Vec::new();
    for i in 0..order.len()
        invariant
            forall|j: int| 0 <= j < order.len() ==> #[trigger] order@[j] < items.len(),
            sorted == order@.map_values(|i: usize| items@[i as int]@),
            texts(r@) == sorted.take(i as int),
    {
        let ghost before = r@;
        let item = items[order[i]].clone();
        r.push(item);
        assert(texts(r@) =~= texts(before).push(item@));
        assert(sorted.take(i + 1) =~= sorted.take(i as int).push(sorted[i as int]));
    }
    assert(sorted.take(sorted.len() as int) =~= sorted);
    r
}

} // verus!
