//! What is promised of the main colours of a picture.
use crate::palette::{
    by_channel, by_channel_sorts, channel, colour_at, cut, grid_colours, highest, is_widest, lowest,
    main_colours, mean, mean_colour, mean_colours, mean_lies_between, row_colours, span,
    split_widest, stride_of, total, values_lie_between, widest, widest_exists,
};
use vstd::prelude::*;

verus! {

/// The channels of a colour are red, green and blue.
pub proof fn channels_are_red_green_and_blue(red: u8, green: u8, blue: u8)
    ensures
        channel((red, green, blue), 0) == red,
        channel((red, green, blue), 1) == green,
        channel((red, green, blue), 2) == blue,
{
}

/// Along a side about 64 places are looked at, and every place of a short side.
pub proof fn about_64_places_are_looked_at(side: int)
    requires
        side >= 0,
    ensures
        side < 128 ==> stride_of(side) == 1,
        side >= 64 ==> 64 * stride_of(side) <= side < 64 * stride_of(side) + 64,
        stride_of(side) >= 1,
{
}

/// The colour at a place of the picture data: three bytes, red, green and blue.
pub open spec fn is_colour_at(data: Seq<u8>, off: int, c: (u8, u8, u8)) -> bool {
    0 <= off && off + 2 < data.len() && c.0 == data[off] && c.1 == data[off + 1] && c.2 == data[off
        + 2]
}

proof fn row_is_looked_at(data: Seq<u8>, row: int, x: int, w: int, k: int, c: (u8, u8, u8))
    requires
        k >= 0,
        x + k * stride_of(w) < w,
        is_colour_at(data, row + (x + k * stride_of(w)) * 4, c),
    ensures
        row_colours(data, row, x, w).contains(c),
    decreases k,
{
    let step = stride_of(w);
    let rest = row_colours(data, row, x + step, w);
    let here = colour_at(data, row + x * 4);
    let all = here + rest;
    if k == 0 {
        assert(0 * step == 0);
        assert(here =~= seq![c]);
        assert(all[0] == c);
    } else {
        assert((k - 1) * step == k * step - step) by (nonlinear_arith);
        assert(k * step >= step) by (nonlinear_arith)
            requires
                k >= 1,
                step >= 1,
        ;
        row_is_looked_at(data, row, x + step, w, k - 1, c);
        let i = choose|i: int| 0 <= i < rest.len() && rest[i] == c;
        assert(all[here.len() + i] == c);
    }
}

/// Every colour at the places that are looked at is among the colours: in every so manieth
/// line every so manieth colour, of four bytes each.
pub proof fn all_places_are_looked_at(
    data: Seq<u8>,
    stride: int,
    y: int,
    w: int,
    h: int,
    line: int,
    column: int,
    c: (u8, u8, u8),
)
    requires
        line >= 0,
        column >= 0,
        y + line * stride_of(h) < h,
        column * stride_of(w) < w,
        is_colour_at(data, (y + line * stride_of(h)) * stride + (column * stride_of(w)) * 4, c),
    ensures
        grid_colours(data, stride, y, w, h).contains(c),
    decreases line,
{
    let step = stride_of(h);
    let here = row_colours(data, y * stride, 0, w);
    let rest = grid_colours(data, stride, y + step, w, h);
    let all = here + rest;
    if line == 0 {
        assert(0 * step == 0);
        row_is_looked_at(data, y * stride, 0, w, column, c);
        let i = choose|i: int| 0 <= i < here.len() && here[i] == c;
        assert(all[i] == c);
    } else {
        assert((line - 1) * step == line * step - step) by (nonlinear_arith);
        assert(line * step >= step) by (nonlinear_arith)
            requires
                line >= 1,
                step >= 1,
        ;
        all_places_are_looked_at(data, stride, y + step, w, h, line - 1, column, c);
        let i = choose|i: int| 0 <= i < rest.len() && rest[i] == c;
        assert(all[here.len() + i] == c);
    }
}

proof fn row_colours_lie_in_the_row(data: Seq<u8>, row: int, x: int, w: int, i: int) -> (at: int)
    requires
        0 <= i < row_colours(data, row, x, w).len(),
    ensures
        x <= at < w,
        is_colour_at(data, row + at * 4, row_colours(data, row, x, w)[i]),
    decreases w + stride_of(w) - x,
{
    if x >= w {
        x
    } else {
        let here = colour_at(data, row + x * 4);
        if i < here.len() {
            x
        } else {
            let rest = row_colours(data, row, x + stride_of(w), w);
            assert(row_colours(data, row, x, w)[i] == rest[i - here.len()]);
            row_colours_lie_in_the_row(data, row, x + stride_of(w), w, i - here.len())
        }
    }
}

/// Every colour that is looked at is one of the picture: three bytes at a place of a line
/// within its height and its width.
pub proof fn looked_at_colours_lie_in_the_picture(
    data: Seq<u8>,
    stride: int,
    y: int,
    w: int,
    h: int,
    i: int,
) -> (r: (int, int))
    requires
        0 <= i < grid_colours(data, stride, y, w, h).len(),
    ensures
        y <= r.0 < h,
        0 <= r.1 < w,
        is_colour_at(data, r.0 * stride + r.1 * 4, grid_colours(data, stride, y, w, h)[i]),
    decreases h + stride_of(h) - y,
{
    if y >= h {
        (y, 0)
    } else {
        let here = row_colours(data, y * stride, 0, w);
        if i < here.len() {
            assert(grid_colours(data, stride, y, w, h)[i] == here[i]);
            (y, row_colours_lie_in_the_row(data, y * stride, 0, w, i))
        } else {
            let rest = grid_colours(data, stride, y + stride_of(h), w, h);
            assert(grid_colours(data, stride, y, w, h)[i] == rest[i - here.len()]);
            looked_at_colours_lie_in_the_picture(
                data,
                stride,
                y + stride_of(h),
                w,
                h,
                i - here.len(),
            )
        }
    }
}

/// The mean colour of a group has in each channel the mean of the group in that channel,
/// rounded down: as often as there are colours it does not exceed their sum, and one more
/// would. An empty group has none.
pub proof fn mean_colours_are_means(colours: Seq<(u8, u8, u8)>)
    ensures
        colours.len() == 0 ==> mean_colour(colours) is None,
        colours.len() > 0 ==> {
            let n = colours.len();
            let c = mean_colour(colours)->0;
            &&& mean_colour(colours) is Some
            &&& n * c.0 <= total(colours, 0) < n * (c.0 + 1)
            &&& n * c.1 <= total(colours, 1) < n * (c.1 + 1)
            &&& n * c.2 <= total(colours, 2) < n * (c.2 + 1)
        },
{
    if colours.len() > 0 {
        mean_is_rounded_down(colours, 0);
        mean_is_rounded_down(colours, 1);
        mean_is_rounded_down(colours, 2);
    }
}

proof fn mean_is_rounded_down(colours: Seq<(u8, u8, u8)>, ch: int)
    requires
        colours.len() > 0,
    ensures
        0 <= mean(colours, ch) <= 255,
        colours.len() * mean(colours, ch) <= total(colours, ch) < colours.len() * (mean(colours, ch)
            + 1),
{
    mean_lies_between(colours, ch);
    let t = total(colours, ch) as int;
    let n = colours.len() as int;
    let m = mean(colours, ch);
    vstd::arithmetic::div_mod::lemma_fundamental_div_mod(t, n);
    vstd::arithmetic::div_mod::lemma_mod_bound(t, n);
    assert(n * (m + 1) == n * m + n) by (nonlinear_arith);
}

/// The sum of the values of a channel grows by the value of each colour.
pub proof fn totals_add_up(colours: Seq<(u8, u8, u8)>, c: (u8, u8, u8), ch: int)
    ensures
        total(Seq::empty(), ch) == 0,
        total(colours.push(c), ch) == total(colours, ch) + channel(c, ch),
{
    assert(colours.push(c).drop_last() =~= colours);
}

/// A cut takes the group and the channel that are spread the widest, and puts two halves of
/// the group in its place: of the same size, or the second one larger by one, and no value of
/// the channel in the first half is above one in the second. The other groups stay.
pub proof fn cuts_halve_the_widest_group(groups: Seq<Seq<(u8, u8, u8)>>)
    requires
        groups.len() > 0,
    ensures
        ({
            let (i, ch) = widest(groups);
            let after = split_widest(groups);
            let n = groups.len() as int;
            let low = after[n - 1];
            let high = after[n];
            &&& is_widest(groups, i, ch)
            &&& after.len() == n + 1
            &&& after.take(n - 1) == groups.remove(i)
            &&& low.len() <= high.len() <= low.len() + 1
            &&& (low + high).to_multiset() == groups[i].to_multiset()
            &&& forall|a: int, b: int|
                0 <= a < low.len() && 0 <= b < high.len() ==> channel(#[trigger] low[a], ch)
                    <= channel(#[trigger] high[b], ch)
        }),
{
    widest_exists(groups);
    let (i, ch) = widest(groups);
    by_channel_sorts(groups[i], ch);
    let sorted = by_channel(groups[i], ch);
    let mid = sorted.len() as int / 2;
    let after = split_widest(groups);
    let n = groups.len() as int;
    assert(after.take(n - 1) =~= groups.remove(i));
    assert(sorted.take(mid) + sorted.skip(mid) =~= sorted);
    assert forall|a: int, b: int|
        0 <= a < after[n - 1].len() && 0 <= b < after[n].len() implies channel(
        #[trigger] after[n - 1][a],
        ch,
    ) <= channel(#[trigger] after[n][b], ch) by {
        assert(after[n - 1][a] == sorted[a]);
        assert(after[n][b] == sorted[mid + b]);
    }
}

/// The main colours are the mean colours of the groups that the colours were cut into, as many
/// as are wanted; without colours there are none.
pub proof fn main_colours_are_means_of_groups(colours: Seq<(u8, u8, u8)>, n: nat)
    ensures
        colours.len() == 0 ==> main_colours(colours, n) is None,
        colours.len() > 0 && n > 0 ==> main_colours(colours, n) == Some(
            mean_colours(cut(seq![colours], (n - 1) as nat)),
        ),
        forall|groups: Seq<Seq<(u8, u8, u8)>>, times: nat|
            cut(groups, 0) == groups && #[trigger] cut(groups, times + 1) == cut(
                split_widest(groups),
                times,
            ),
{
}

proof fn extremes_occur(colours: Seq<(u8, u8, u8)>, ch: int) -> (r: (int, int))
    requires
        colours.len() > 0,
    ensures
        0 <= r.0 < colours.len(),
        0 <= r.1 < colours.len(),
        channel(colours[r.0], ch) == lowest(colours, ch),
        channel(colours[r.1], ch) == highest(colours, ch),
    decreases colours.len(),
{
    let init = colours.drop_last();
    let last = colours.len() - 1;
    if init.len() == 0 {
        (0, 0)
    } else {
        let (a, b) = extremes_occur(init, ch);
        let low = if channel(colours.last(), ch) < lowest(init, ch) {
            last
        } else {
            a
        };
        let high = if channel(colours.last(), ch) > highest(init, ch) {
            last
        } else {
            b
        };
        (low, high)
    }
}

/// How far a channel is spread is the largest distance between two of its values: no two are
/// further apart, and two are that far apart.
pub proof fn spread_is_the_largest_distance(colours: Seq<(u8, u8, u8)>, ch: int) -> (r: (int, int))
    requires
        colours.len() > 0,
    ensures
        forall|i: int, j: int|
            0 <= i < colours.len() && 0 <= j < colours.len() ==> channel(#[trigger] colours[i], ch)
                - channel(#[trigger] colours[j], ch) <= span(colours, ch),
        0 <= r.0 < colours.len(),
        0 <= r.1 < colours.len(),
        channel(colours[r.1], ch) - channel(colours[r.0], ch) == span(colours, ch),
{
    values_lie_between(colours, ch);
    extremes_occur(colours, ch)
}

/// Of all channels of all groups none is spread wider than the one that is cut, and none
/// before it as wide.
pub proof fn widest_is_spread_the_widest(groups: Seq<Seq<(u8, u8, u8)>>, j: int, dh: int)
    requires
        0 <= j < groups.len(),
        0 <= dh < 3,
    ensures
        ({
            let (i, ch) = widest(groups);
            &&& 0 <= i < groups.len() && 0 <= ch < 3
            &&& span(groups[j], dh) <= span(groups[i], ch)
            &&& (j < i || j == i && dh < ch) ==> span(groups[j], dh) < span(groups[i], ch)
        }),
{
    widest_exists(groups);
}

} // verus!
