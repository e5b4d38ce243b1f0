//! The main colours of a cover, and the background made of them.
use crate::text::{decimal, digits, glued};
use vstd::multiset::Multiset;
use vstd::prelude::*;

verus! {

/// A channel of a colour: red, green or blue.
pub open spec fn channel(p: (u8, u8, u8), ch: int) -> u8 {
    if ch == 0 {
        p.0
    } else if ch == 1 {
        p.1
    } else {
        p.2
    }
}

/// A channel of a colour.
pub fn channel_of(p: (u8, u8, u8), ch: usize) -> (r: u8)
    ensures
        r == channel(p, ch as int),
{
    if ch == 0 {
        p.0
    } else if ch == 1 {
        p.1
    } else {
        p.2
    }
}

/// The colour that begins at a place of the picture data, where it lies within.
pub open spec fn colour_at(data: Seq<u8>, off: int) -> Seq<(u8, u8, u8)> {
    if 0 <= off && off + 2 < data.len() {
        seq![(data[off], data[off + 1], data[off + 2])]
    } else {
        Seq::empty()
    }
}

/// How far apart the places are that are looked at, so that there are about 64 of
/// them along a side.
pub open spec fn stride_of(side: int) -> int {
    if side / 64 < 1 {
        1
    } else {
        side / 64
    }
}

/// The colours of a row from column `x` on. A colour takes four bytes.
pub open spec fn row_colours(data: Seq<u8>, row: int, x: int, w: int) -> Seq<(u8, u8, u8)>
    decreases w + stride_of(w) - x,
{
    if x >= w {
        Seq::empty()
    } else {
        colour_at(data, row + x * 4) + row_colours(data, row, x + stride_of(w), w)
    }
}

/// The colours of a picture from line `y` on. `stride` is the number of bytes of a
/// line.
pub open spec fn grid_colours(data: Seq<u8>, stride: int, y: int, w: int, h: int) -> Seq<
    (u8, u8, u8),
>
    decreases h + stride_of(h) - y,
{
    if y >= h {
        Seq::empty()
    } else {
        row_colours(data, y * stride, 0, w) + grid_colours(data, stride, y + stride_of(h), w, h)
    }
}

/// The colours looked at in a picture.
pub fn sample_colours(data: &Vec<u8>, stride: usize, w: u32, h: u32) -> (r: Vec<(u8, u8, u8)>)
    ensures
        r@ == grid_colours(data@, stride as int, 0, w as int, h as int),
{
    let step_x: u32 = if w / 64 < 1 {
        1
    } else {
        w / 64
    };
    let step_y: u32 = if h / 64 < 1 {
        1
    } else {
        h / 64
    };
    let mut r: Vec<(u8, u8, u8)> = Vec::new();
    let mut y: u64 = 0;
    let ghost all = grid_colours(data@, stride as int, 0, w as int, h as int);
    assert(r@ + all == all);
    while y < h as u64
        invariant
            step_x == stride_of(w as int),
            step_y == stride_of(h as int),
            y <= h + step_y,
            r@ + grid_colours(data@, stride as int, y as int, w as int, h as int) == all,
        decreases h + step_y - y,
    {
        assert(0 <= y * stride <= 0x1_ffff_ffff * 0xffff_ffff_ffff_ffff) by (nonlinear_arith)
            requires
                0 <= y <= 0x1_ffff_ffff,
                0 <= stride <= 0xffff_ffff_ffff_ffff,
        ;
        let row: u128 = y as u128 * stride as u128;
        let ghost below = grid_colours(data@, stride as int, y + step_y, w as int, h as int);
        let ghost before = r@;
        let mut x: u64 = 0;
        assert(before + (row_colours(data@, row as int, 0, w as int) + below) == all);
        assert(r@ + (row_colours(data@, row as int, 0, w as int) + below) == all);
        while x < w as u64
            invariant
                step_x == stride_of(w as int),
                x <= w + step_x,
                row <= 0x1_ffff_ffff * 0xffff_ffff_ffff_ffff,
                r@ + (row_colours(data@, row as int, x as int, w as int) + below) == all,
            decreases w + step_x - x,
        {
            let off: u128 = row + x as u128 * 4;
            let ghost now = r@;
            if off + 2 < data.len() as u128 {
                let at = off as usize;
                r.push((data[at], data[at + 1], data[at + 2]));
            }
            proof {
                assert(r@ =~= now + colour_at(data@, off as int));
                let rest = row_colours(data@, row as int, x + step_x, w as int);
                assert(r@ + (rest + below) =~= now + ((colour_at(data@, off as int) + rest)
                    + below));
            }
            x = x + step_x as u64;
        }
        assert(r@ + (Seq::<(u8, u8, u8)>::empty() + below) =~= r@ + below);
        y = y + step_y as u64;
    }
    assert(r@ + Seq::<(u8, u8, u8)>::empty() =~= r@);
    r
}

/// The lowest value of a channel.
pub open spec fn lowest(colours: Seq<(u8, u8, u8)>, ch: int) -> int
    decreases colours.len(),
{
    if colours.len() == 0 {
        0
    } else {
        let last = channel(colours.last(), ch) as int;
        if colours.len() == 1 || last < lowest(colours.drop_last(), ch) {
            last
        } else {
            lowest(colours.drop_last(), ch)
        }
    }
}

/// The highest value of a channel.
pub open spec fn highest(colours: Seq<(u8, u8, u8)>, ch: int) -> int
    decreases colours.len(),
{
    if colours.len() == 0 {
        0
    } else {
        let last = channel(colours.last(), ch) as int;
        if colours.len() == 1 || last > highest(colours.drop_last(), ch) {
            last
        } else {
            highest(colours.drop_last(), ch)
        }
    }
}

/// How far the values of a channel are spread.
pub open spec fn span(colours: Seq<(u8, u8, u8)>, ch: int) -> int {
    highest(colours, ch) - lowest(colours, ch)
}

/// The values of a channel lie between its lowest and its highest one.
pub proof fn values_lie_between(colours: Seq<(u8, u8, u8)>, ch: int)
    ensures
        forall|i: int|
            0 <= i < colours.len() ==> lowest(colours, ch) <= channel(#[trigger] colours[i], ch)
                <= highest(colours, ch),
        0 <= lowest(colours, ch) <= highest(colours, ch) <= 255,
    decreases colours.len(),
{
    if colours.len() > 0 {
        let init = colours.drop_last();
        values_lie_between(init, ch);
        assert forall|i: int| 0 <= i < colours.len() implies lowest(colours, ch) <= channel(
            #[trigger] colours[i],
            ch,
        ) <= highest(colours, ch) by {
            if i < init.len() {
                assert(init[i] == colours[i]);
            }
        }
    }
}

fn span_of(colours: &Vec<(u8, u8, u8)>, ch: usize) -> (r: u8)
    ensures
        r == span(colours@, ch as int),
{
    let mut lo: u8 = 0;
    let mut hi: u8 = 0;
    assert(colours@.take(0).len() == 0);
    for i in 0..colours.len()
        invariant
            lo == lowest(colours@.take(i as int), ch as int),
            hi == highest(colours@.take(i as int), ch as int),
            lo <= hi,
    {
        assert(colours@.take(i + 1).drop_last() == colours@.take(i as int));
        let c = channel_of(colours[i], ch);
        if i == 0 || c < lo {
            lo = c;
        }
        if i == 0 || c > hi {
            hi = c;
        }
    }
    assert(colours@.take(colours@.len() as int) == colours@);
    hi - lo
}

/// The groups of colours.
pub open spec fn groups_of(v: Seq<Vec<(u8, u8, u8)>>) -> Seq<Seq<(u8, u8, u8)>> {
    v.map_values(|g: Vec<(u8, u8, u8)>| g@)
}

/// Whether the place `i`, `ch` comes before the place `j`, `dh`: by group, then by
/// channel.
pub open spec fn earlier(i: int, ch: int, j: int, dh: int) -> bool {
    i < j || (i == j && ch < dh)
}

/// Whether a channel of a group is spread the widest: no channel of any group is
/// spread wider, and none before it as wide.
pub open spec fn is_widest(groups: Seq<Seq<(u8, u8, u8)>>, i: int, ch: int) -> bool {
    &&& 0 <= i < groups.len()
    &&& 0 <= ch < 3
    &&& forall|j: int, dh: int|
        0 <= j < groups.len() && 0 <= dh < 3 ==> {
            &&& #[trigger] span(groups[j], dh) <= span(groups[i], ch)
            &&& earlier(j, dh, i, ch) ==> span(groups[j], dh) < span(groups[i], ch)
        }
}

/// The group and its channel that are spread the widest.
pub open spec fn widest(groups: Seq<Seq<(u8, u8, u8)>>) -> (int, int) {
    choose|p: (int, int)| #[trigger] is_widest(groups, p.0, p.1)
}

/// There is only one group and channel that are spread the widest.
pub proof fn widest_is_unique(groups: Seq<Seq<(u8, u8, u8)>>, i: int, ch: int)
    requires
        is_widest(groups, i, ch),
    ensures
        widest(groups) == (i, ch),
{
    let p = (i, ch);
    assert(is_widest(groups, p.0, p.1));
    let q = widest(groups);
    assert(is_widest(groups, q.0, q.1));
    assert(span(groups[q.0], q.1) <= span(groups[i], ch));
    assert(span(groups[i], ch) <= span(groups[q.0], q.1));
}

/// The colours whose channel is below `n`, by the value of the channel; those of
/// one value stay in the order they came in.
pub open spec fn below_value(colours: Seq<(u8, u8, u8)>, ch: int, n: nat) -> Seq<(u8, u8, u8)>
    decreases n,
{
    if n == 0 {
        Seq::empty()
    } else {
        below_value(colours, ch, (n - 1) as nat) + colours.filter(
            |p: (u8, u8, u8)| channel(p, ch) == n - 1,
        )
    }
}

/// The colours by the value of a channel; those of one value stay in the order
/// they came in.
pub open spec fn by_channel(colours: Seq<(u8, u8, u8)>, ch: int) -> Seq<(u8, u8, u8)> {
    below_value(colours, ch, 256)
}

fn order_by_channel(colours: &Vec<(u8, u8, u8)>, ch: usize) -> (r: Vec<(u8, u8, u8)>)
    ensures
        r@ == by_channel(colours@, ch as int),
{
    let mut r: Vec<(u8, u8, u8)> = Vec::new();
    for v in 0..256u16
        invariant
            r@ == below_value(colours@, ch as int, v as nat),
    {
        let ghost p = |p: (u8, u8, u8)| channel(p, ch as int) == v;
        let ghost before = r@;
        assert(colours@.take(0).filter(p) =~= Seq::empty()) by {
            reveal(Seq::filter);
        }
        assert(before + colours@.take(0).filter(p) =~= before);
        for i in 0..colours.len()
            invariant
                p == (|p: (u8, u8, u8)| channel(p, ch as int) == v),
                r@ == before + colours@.take(i as int).filter(p),
        {
            broadcast use Seq::lemma_filter_push;

            assert(colours@.take(i + 1) == colours@.take(i as int).push(colours@[i as int]));
            let ghost had = colours@.take(i as int).filter(p);
            if channel_of(colours[i], ch) as u16 == v {
                r.push(colours[i]);
                assert(r@ =~= before + had.push(colours@[i as int]));
            }
        }
        assert(colours@.take(colours@.len() as int) == colours@);
        assert(p =~= (|p: (u8, u8, u8)| channel(p, ch as int) == (v + 1) - 1));
    }
    r
}

/// The widest group is cut in two, in the middle of its colours by the widest
/// channel. The two halves go to the end.
pub open spec fn split_widest(groups: Seq<Seq<(u8, u8, u8)>>) -> Seq<Seq<(u8, u8, u8)>> {
    let (i, ch) = widest(groups);
    let sorted = by_channel(groups[i], ch);
    let mid = sorted.len() as int / 2;
    groups.remove(i).push(sorted.take(mid)).push(sorted.skip(mid))
}

/// The widest group is cut in two, several times.
pub open spec fn cut(groups: Seq<Seq<(u8, u8, u8)>>, times: nat) -> Seq<Seq<(u8, u8, u8)>>
    decreases times,
{
    if times == 0 {
        groups
    } else {
        cut(split_widest(groups), (times - 1) as nat)
    }
}

/// The sum of the values of a channel.
pub open spec fn total(colours: Seq<(u8, u8, u8)>, ch: int) -> nat
    decreases colours.len(),
{
    if colours.len() == 0 {
        0
    } else {
        total(colours.drop_last(), ch) + channel(colours.last(), ch) as nat
    }
}

/// The mean value of a channel, rounded down.
pub open spec fn mean(colours: Seq<(u8, u8, u8)>, ch: int) -> int {
    total(colours, ch) as int / colours.len() as int
}

/// The mean colour of a group; an empty group has none.
pub open spec fn mean_colour(colours: Seq<(u8, u8, u8)>) -> Option<(u8, u8, u8)> {
    if colours.len() == 0 {
        None
    } else {
        Some((mean(colours, 0) as u8, mean(colours, 1) as u8, mean(colours, 2) as u8))
    }
}

/// The mean colours of groups.
pub open spec fn mean_colours(groups: Seq<Seq<(u8, u8, u8)>>) -> Seq<(u8, u8, u8)> {
    groups.filter_map(|g: Seq<(u8, u8, u8)>| mean_colour(g))
}

/// The main colours: the mean colours after the colours were cut into `n` groups.
pub open spec fn main_colours(colours: Seq<(u8, u8, u8)>, n: nat) -> Option<
    Seq<(u8, u8, u8)>,
> {
    if colours.len() == 0 {
        None
    } else {
        Some(
            mean_colours(
                cut(
                    seq![colours],
                    if n == 0 {
                        0
                    } else {
                        (n - 1) as nat
                    },
                ),
            ),
        )
    }
}

/// A mean value lies between the lowest and the highest value.
pub proof fn mean_lies_between(colours: Seq<(u8, u8, u8)>, ch: int)
    requires
        colours.len() > 0,
    ensures
        lowest(colours, ch) <= mean(colours, ch) <= highest(colours, ch),
        0 <= mean(colours, ch) <= 255,
{
    values_lie_between(colours, ch);
    total_is_bounded(colours, ch, lowest(colours, ch), highest(colours, ch));
    let t = total(colours, ch) as int;
    let n = colours.len() as int;
    let lo = lowest(colours, ch);
    let hi = highest(colours, ch);
    assert(lo <= t / n <= hi) by (nonlinear_arith)
        requires
            n > 0,
            lo * n <= t <= hi * n,
    ;
}

proof fn total_is_bounded(colours: Seq<(u8, u8, u8)>, ch: int, lo: int, hi: int)
    requires
        forall|i: int|
            0 <= i < colours.len() ==> lo <= channel(#[trigger] colours[i], ch) <= hi,
    ensures
        lo * colours.len() <= total(colours, ch) <= hi * colours.len(),
    decreases colours.len(),
{
    if colours.len() > 0 {
        let init = colours.drop_last();
        assert forall|i: int| 0 <= i < init.len() implies lo <= channel(#[trigger] init[i], ch)
            <= hi by {
            assert(init[i] == colours[i]);
        }
        total_is_bounded(init, ch, lo, hi);
        let n = init.len() as int;
        assert(lo <= channel(colours[colours.len() - 1], ch) <= hi);
        assert(lo * (n + 1) == lo * n + lo) by (nonlinear_arith);
        assert(hi * (n + 1) == hi * n + hi) by (nonlinear_arith);
    }
}

fn mean_of(colours: &Vec<(u8, u8, u8)>, ch: usize) -> (r: u8)
    requires
        colours@.len() > 0,
    ensures
        r == mean(colours@, ch as int),
{
    let mut sum: u128 = 0;
    for i in 0..colours.len()
        invariant
            sum == total(colours@.take(i as int), ch as int),
            sum <= 255 * i,
    {
        assert(colours@.take(i + 1).drop_last() == colours@.take(i as int));
        sum = sum + channel_of(colours[i], ch) as u128;
    }
    assert(colours@.take(colours@.len() as int) == colours@);
    proof {
        mean_lies_between(colours@, ch as int);
    }
    (sum / colours.len() as u128) as u8
}

fn find_widest(groups: &Vec<Vec<(u8, u8, u8)>>) -> (r: (usize, usize))
    requires
        groups@.len() > 0,
    ensures
        is_widest(groups_of(groups@), r.0 as int, r.1 as int),
{
    let ghost all = groups_of(groups@);
    let mut best: (usize, usize) = (0, 0);
    let mut best_span: u8 = 0;
    proof {
        values_lie_between(all[0], 0);
    }
    let mut first = true;
    for i in 0..groups.len()
        invariant
            groups@.len() > 0,
            all == groups_of(groups@),
            first == (i == 0),
            first ==> best == (0usize, 0usize) && best_span == 0,
            best.0 < groups@.len(),
            best.1 < 3,
            !first ==> best_span == span(all[best.0 as int], best.1 as int),
            !first ==> best.0 < i,
            forall|j: int, dh: int|
                0 <= j < i && 0 <= dh < 3 ==> {
                    &&& #[trigger] span(all[j], dh) <= best_span
                    &&& earlier(j, dh, best.0 as int, best.1 as int) ==> span(all[j], dh)
                        < best_span
                },
    {
        assert(all[i as int] == groups@[i as int]@);
        for ch in 0..3usize
            invariant
                i < groups@.len(),
                all == groups_of(groups@),
                all[i as int] == groups@[i as int]@,
                first == (i == 0 && ch == 0),
                first ==> best == (0usize, 0usize) && best_span == 0,
                best.0 < groups@.len(),
                best.1 < 3,
                !first ==> best_span == span(all[best.0 as int], best.1 as int),
                !first ==> best.0 < i || (best.0 == i && best.1 < ch),
                forall|j: int, dh: int|
                    (0 <= j < i && 0 <= dh < 3) || (j == i && 0 <= dh < ch) ==> {
                        &&& #[trigger] span(all[j], dh) <= best_span
                        &&& earlier(j, dh, best.0 as int, best.1 as int) ==> span(all[j], dh)
                            < best_span
                    },
        {
            let s = span_of(&groups[i], ch);
            if first || s > best_span {
                best_span = s;
                best = (i, ch);
                first = false;
            }
        }
    }
    best
}

/// The main colours of a list of colours.
pub fn median_cut(colours: Vec<(u8, u8, u8)>, n_colors: usize) -> (r: Option<Vec<(u8, u8, u8)>>)
    ensures
        match r {
            Some(v) => main_colours(colours@, n_colors as nat) == Some(v@),
            None => main_colours(colours@, n_colors as nat) is None,
        },
{
    if colours.len() == 0 {
        return None;
    }
    let ghost times: nat = if n_colors == 0 {
        0
    } else {
        (n_colors - 1) as nat
    };
    let ghost goal = cut(seq![colours@], times);
    let mut groups: Vec<Vec<(u8, u8, u8)>> = Vec::new();
    groups.push(colours);
    assert(groups_of(groups@) =~= seq![colours@]);
    while groups.len() < n_colors
        invariant
            groups@.len() > 0,
            groups@.len() <= n_colors || n_colors == 0 && groups@.len() == 1,
            cut(
                groups_of(groups@),
                if n_colors == 0 {
                    0
                } else {
                    (n_colors - groups@.len()) as nat
                },
            ) == goal,
        decreases n_colors - groups.len(),
    {
        let ghost old_groups = groups_of(groups@);
        let (i, ch) = find_widest(&groups);
        proof {
            widest_is_unique(old_groups, i as int, ch as int);
        }
        let group = groups.remove(i);
        let mut left = order_by_channel(&group, ch);
        let ghost sorted = left@;
        let mid: usize = left.len() / 2;
        let right = left.split_off(mid);
        groups.push(left);
        groups.push(right);
        assert(groups_of(groups@) =~= split_widest(old_groups));
    }
    let ghost f = |g: Seq<(u8, u8, u8)>| mean_colour(g);
    let ghost all = groups_of(groups@);
    let mut r: Vec<(u8, u8, u8)> = Vec::new();
    for i in 0..groups.len()
        invariant
            all == groups_of(groups@),
            f == (|g: Seq<(u8, u8, u8)>| mean_colour(g)),
            r@ == all.take(i as int).filter_map(f),
    {
        proof {
            all.lemma_filter_map_take_succ(f, i as int);
            assert(all[i as int] == groups@[i as int]@);
        }
        if groups[i].len() > 0 {
            r.push((mean_of(&groups[i], 0), mean_of(&groups[i], 1), mean_of(&groups[i], 2)));
        }
    }
    assert(all.take(all.len() as int) == all);
    Some(r)
}

/// The main colours of a picture, by its data with four bytes for each colour and
/// `stride` bytes for each line. A picture without extent has none.
pub fn extract_palette(data: &Vec<u8>, stride: usize, w: u32, h: u32, n_colors: usize) -> (r:
    Option<Vec<(u8, u8, u8)>>)
    ensures
        match r {
            Some(v) => w > 0 && h > 0 && main_colours(
                grid_colours(data@, stride as int, 0, w as int, h as int),
                n_colors as nat,
            ) == Some(v@),
            None => w == 0 || h == 0 || main_colours(
                grid_colours(data@, stride as int, 0, w as int, h as int),
                n_colors as nat,
            ) is None,
        },
{
    if w == 0 || h == 0 {
        return None;
    }
    median_cut(sample_colours(data, stride, w, h), n_colors)
}

proof fn filter_counts(
    colours: Seq<(u8, u8, u8)>,
    pred: spec_fn((u8, u8, u8)) -> bool,
    x: (u8, u8, u8),
)
    ensures
        colours.filter(pred).to_multiset().count(x) == if pred(x) {
            colours.to_multiset().count(x)
        } else {
            0
        },
    decreases colours.len(),
{
    broadcast use vstd::seq_lib::group_to_multiset_ensures;
    broadcast use Seq::lemma_filter_push;

    if colours.len() == 0 {
        assert(colours.filter(pred) =~= colours) by {
            reveal(Seq::filter);
        }
    } else {
        let init = colours.drop_last();
        filter_counts(init, pred, x);
        assert(colours =~= init.push(colours.last()));
    }
}

proof fn below_value_counts(colours: Seq<(u8, u8, u8)>, ch: int, n: nat, x: (u8, u8, u8))
    ensures
        below_value(colours, ch, n).to_multiset().count(x) == if channel(x, ch) < n {
            colours.to_multiset().count(x)
        } else {
            0
        },
    decreases n,
{
    broadcast use vstd::seq_lib::group_to_multiset_ensures;

    if n > 0 {
        let pred = |p: (u8, u8, u8)| channel(p, ch) == n - 1;
        below_value_counts(colours, ch, (n - 1) as nat, x);
        filter_counts(colours, pred, x);
        vstd::seq_lib::lemma_multiset_commutative(
            below_value(colours, ch, (n - 1) as nat),
            colours.filter(pred),
        );
    }
}

proof fn below_value_is_ordered(colours: Seq<(u8, u8, u8)>, ch: int, n: nat)
    ensures
        forall|i: int|
            0 <= i < below_value(colours, ch, n).len() ==> channel(
                #[trigger] below_value(colours, ch, n)[i],
                ch,
            ) < n,
        forall|i: int, j: int|
            0 <= i < j < below_value(colours, ch, n).len() ==> channel(
                #[trigger] below_value(colours, ch, n)[i],
                ch,
            ) <= channel(#[trigger] below_value(colours, ch, n)[j], ch),
    decreases n,
{
    if n > 0 {
        let pred = |p: (u8, u8, u8)| channel(p, ch) == n - 1;
        let a = below_value(colours, ch, (n - 1) as nat);
        let b = colours.filter(pred);
        below_value_is_ordered(colours, ch, (n - 1) as nat);
        assert forall|i: int| 0 <= i < b.len() implies channel(#[trigger] b[i], ch) == n - 1 by {
            colours.lemma_filter_pred(pred, i);
        }
        assert forall|i: int| 0 <= i < (a + b).len() implies channel(#[trigger] (a + b)[i], ch)
            < n by {
            if i < a.len() {
                assert((a + b)[i] == a[i]);
            } else {
                assert((a + b)[i] == b[i - a.len()]);
            }
        }
        assert forall|i: int, j: int| 0 <= i < j < (a + b).len() implies channel(
            #[trigger] (a + b)[i],
            ch,
        ) <= channel(#[trigger] (a + b)[j], ch) by {
            if j < a.len() {
                assert((a + b)[i] == a[i] && (a + b)[j] == a[j]);
            } else {
                assert((a + b)[j] == b[j - a.len()]);
                if i < a.len() {
                    assert((a + b)[i] == a[i]);
                } else {
                    assert((a + b)[i] == b[i - a.len()]);
                }
            }
        }
    }
}

/// Putting colours in the order of a channel keeps each of them, and none comes
/// after one with a higher value.
pub proof fn by_channel_sorts(colours: Seq<(u8, u8, u8)>, ch: int)
    ensures
        by_channel(colours, ch).to_multiset() == colours.to_multiset(),
        by_channel(colours, ch).len() == colours.len(),
        forall|i: int, j: int|
            0 <= i < j < by_channel(colours, ch).len() ==> channel(
                #[trigger] by_channel(colours, ch)[i],
                ch,
            ) <= channel(#[trigger] by_channel(colours, ch)[j], ch),
{
    broadcast use vstd::seq_lib::group_to_multiset_ensures;

    below_value_is_ordered(colours, ch, 256);
    assert forall|x: (u8, u8, u8)|
        by_channel(colours, ch).to_multiset().count(x) == colours.to_multiset().count(x) by {
        below_value_counts(colours, ch, 256, x);
    }
    assert(by_channel(colours, ch).to_multiset() =~= colours.to_multiset());
    assert(by_channel(colours, ch).to_multiset().len() == by_channel(colours, ch).len());
    assert(colours.to_multiset().len() == colours.len());
}

/// All colours of groups, each as often as it occurs.
pub open spec fn pooled(groups: Seq<Seq<(u8, u8, u8)>>) -> Multiset<(u8, u8, u8)>
    decreases groups.len(),
{
    if groups.len() == 0 {
        Multiset::empty()
    } else {
        pooled(groups.drop_last()).add(groups.last().to_multiset())
    }
}

proof fn pooled_without(groups: Seq<Seq<(u8, u8, u8)>>, i: int)
    requires
        0 <= i < groups.len(),
    ensures
        pooled(groups) == pooled(groups.remove(i)).add(groups[i].to_multiset()),
    decreases groups.len(),
{
    if i == groups.len() - 1 {
        assert(groups.remove(i) =~= groups.drop_last());
    } else {
        pooled_without(groups.drop_last(), i);
        assert(groups.remove(i).drop_last() =~= groups.drop_last().remove(i));
        assert(pooled(groups) =~= pooled(groups.remove(i)).add(groups[i].to_multiset()));
    }
}

proof fn widest_below(groups: Seq<Seq<(u8, u8, u8)>>, n: nat) -> (r: (int, int))
    requires
        0 < n <= groups.len(),
    ensures
        is_widest(groups.take(n as int), r.0, r.1),
    decreases n,
{
    let part = groups.take(n as int);
    let last = part.last();
    let best = if span(last, 0) >= span(last, 1) && span(last, 0) >= span(last, 2) {
        0int
    } else if span(last, 1) >= span(last, 2) {
        1int
    } else {
        2int
    };
    if n == 1 {
        assert forall|j: int, dh: int| 0 <= j < part.len() && 0 <= dh < 3 implies {
            &&& #[trigger] span(part[j], dh) <= span(part[0], best)
            &&& earlier(j, dh, 0, best) ==> span(part[j], dh) < span(part[0], best)
        } by {
            assert(part[j] == last);
            assert(dh == 0 || dh == 1 || dh == 2);
        }
        (0, best)
    } else {
        let (i, ch) = widest_below(groups, (n - 1) as nat);
        let init = groups.take(n - 1);
        assert(forall|j: int| 0 <= j < n - 1 ==> init[j] == part[j]);
        if span(last, best) > span(init[i], ch) {
            assert forall|j: int, dh: int| 0 <= j < part.len() && 0 <= dh < 3 implies {
                &&& #[trigger] span(part[j], dh) <= span(part[n - 1], best)
                &&& earlier(j, dh, n - 1, best) ==> span(part[j], dh) < span(part[n - 1], best)
            } by {
                if j < n - 1 {
                    assert(span(init[j], dh) <= span(init[i], ch));
                } else {
                    assert(dh == 0 || dh == 1 || dh == 2);
                }
            }
            (n - 1, best)
        } else {
            assert forall|j: int, dh: int| 0 <= j < part.len() && 0 <= dh < 3 implies {
                &&& #[trigger] span(part[j], dh) <= span(part[i], ch)
                &&& earlier(j, dh, i, ch) ==> span(part[j], dh) < span(part[i], ch)
            } by {
                if j < n - 1 {
                    assert(span(init[j], dh) <= span(init[i], ch));
                } else {
                    assert(dh == 0 || dh == 1 || dh == 2);
                }
            }
            (i, ch)
        }
    }
}

/// Among groups there always is a widest one.
pub proof fn widest_exists(groups: Seq<Seq<(u8, u8, u8)>>)
    requires
        groups.len() > 0,
    ensures
        is_widest(groups, widest(groups).0, widest(groups).1),
{
    let p = widest_below(groups, groups.len());
    assert(groups.take(groups.len() as int) =~= groups);
    assert(is_widest(groups, p.0, p.1));
}

/// Cutting groups adds one group for each cut, and loses and adds no colour.
pub proof fn cut_keeps_colours(groups: Seq<Seq<(u8, u8, u8)>>, times: nat)
    requires
        groups.len() > 0,
    ensures
        pooled(cut(groups, times)) == pooled(groups),
        cut(groups, times).len() == groups.len() + times,
    decreases times,
{
    if times > 0 {
        widest_exists(groups);
        let (i, ch) = widest(groups);
        let sorted = by_channel(groups[i], ch);
        let mid = sorted.len() as int / 2;
        by_channel_sorts(groups[i], ch);
        pooled_without(groups, i);
        vstd::seq_lib::lemma_multiset_commutative(sorted.take(mid), sorted.skip(mid));
        assert(sorted.take(mid) + sorted.skip(mid) =~= sorted);
        let after = split_widest(groups);
        assert(after.drop_last().drop_last() =~= groups.remove(i));
        assert(after.drop_last().last() == sorted.take(mid));
        assert(after.last() == sorted.skip(mid));
        assert(pooled(after.drop_last()) == pooled(groups.remove(i)).add(
            sorted.take(mid).to_multiset(),
        ));
        assert(pooled(after) =~= pooled(groups));
        cut_keeps_colours(after, (times - 1) as nat);
    }
}

proof fn means_are_few(groups: Seq<Seq<(u8, u8, u8)>>)
    ensures
        mean_colours(groups).len() <= groups.len(),
    decreases groups.len(),
{
    let f = |g: Seq<(u8, u8, u8)>| mean_colour(g);
    reveal(Seq::filter_map);
    if groups.len() > 0 {
        means_are_few(groups.drop_last());
    }
}

/// There are at most as many main colours as were asked for, and one where none
/// was asked for.
pub proof fn main_colours_are_few(colours: Seq<(u8, u8, u8)>, n: nat)
    requires
        colours.len() > 0,
    ensures
        main_colours(colours, n)->0.len() <= if n == 0 {
            1
        } else {
            n
        },
{
    let times = if n == 0 {
        0
    } else {
        (n - 1) as nat
    };
    cut_keeps_colours(seq![colours], times);
    means_are_few(cut(seq![colours], times));
}

/// A layer of the background: a colour that fades from an edge of the window.
pub open spec fn layer_text(degrees: Seq<char>, c: (u8, u8, u8)) -> Seq<char> {
    "linear-gradient("@ + degrees + "deg,rgba("@ + rgb_text(c) + ",0.55),rgba("@ + rgb_text(c)
        + ",0.0) 70.71%)"@
}

/// The channels of a colour.
pub open spec fn rgb_text(c: (u8, u8, u8)) -> Seq<char> {
    digits(c.0 as nat) + ","@ + digits(c.1 as nat) + ","@ + digits(c.2 as nat)
}

/// The style of the background: three layers of the first three colours. With
/// fewer colours there is none.
pub open spec fn background_text(palette: Option<Seq<(u8, u8, u8)>>) -> Seq<char> {
    match palette {
        Some(c) => if c.len() >= 3 {
            ".album-bg {background:"@ + layer_text("127"@, c[0]) + ","@ + layer_text("217"@, c[1])
                + ","@ + layer_text("336"@, c[2]) + ";}"@
        } else {
            Seq::empty()
        },
        None => Seq::empty(),
    }
}

fn rgb(c: (u8, u8, u8)) -> (r: String)
    ensures
        r@ == rgb_text(c),
{
    let mut r = decimal(c.0 as u64);
    r.append(",");
    r.append(decimal(c.1 as u64).as_str());
    r.append(",");
    r.append(decimal(c.2 as u64).as_str());
    r
}

fn layer(degrees: &str, c: (u8, u8, u8)) -> (r: String)
    ensures
        r@ == layer_text(degrees@, c),
{
    let mut r = glued("linear-gradient(", degrees);
    r.append("deg,rgba(");
    r.append(rgb(c).as_str());
    r.append(",0.55),rgba(");
    r.append(rgb(c).as_str());
    r.append(",0.0) 70.71%)");
    r
}

/// The style of the background.
pub fn background_css(palette: &Option<Vec<(u8, u8, u8)>>) -> (r: String)
    ensures
        r@ == background_text(
            match *palette {
                Some(c) => Some(c@),
                None => None,
            },
        ),
{
    if let Some(c) = palette {
        if c.len() >= 3 {
            let mut r = glued(".album-bg {background:", layer("127", c[0]).as_str());
            r.append(",");
            r.append(layer("217", c[1]).as_str());
            r.append(",");
            r.append(layer("336", c[2]).as_str());
            r.append(";}");
            return r;
        }
    }
    String::new()
}

} // verus!
