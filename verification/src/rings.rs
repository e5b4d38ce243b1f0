//! Folders that lie in one another without end, and why a walk through all of them that
//! came to its end has met none.
use crate::folder_tree::{delete_run, deletes_done, flags_done, flags_run};
use crate::library_db::first_texts;
use crate::sql::CHILD_FOLDERS;
use crate::store::{rows_in, Exchange};
use crate::tables::{
    faithful, is_child, one_exchange, query_lengths, rows_are_right, runs_split, tables,
    went_through, Tables,
};
use crate::tree_promises::{
    below_some, clean_cut, ends_within, flagged_right, flags_say_where_sound_is, gone_from_below,
    is_gone, lies_below, one_flag_is_set, removing_several, removing_takes_all_below, same_ends,
    same_flag, same_tree, same_tree_chains, same_tree_swaps,
};
use vstd::prelude::*;

verus! {

/// Folders below a folder that ends end too.
pub proof fn below_ends_sooner(t: Tables, n: nat, path: Seq<char>, m: nat, f: Seq<char>) -> (r: nat)
    requires
        ends_within(t, n, path),
        lies_below(t, m, path, f),
    ensures
        r <= n,
        ends_within(t, r, f),
    decreases m,
{
    if f == path {
        n
    } else {
        let c = choose|c: Seq<char>| #[trigger]
            is_child(t, path, c) && lies_below(t, (m - 1) as nat, c, f);
        below_ends_sooner(t, (n - 1) as nat, c, (m - 1) as nat, f)
    }
}

/// Folders that end form no ring: a folder does not lie below a folder in it.
pub proof fn folders_form_no_ring(
    t: Tables,
    n: nat,
    path: Seq<char>,
    child: Seq<char>,
    m: nat,
)
    requires
        ends_within(t, n, path),
        is_child(t, path, child),
    ensures
        !lies_below(t, m, child, path),
    decreases n,
{
    if lies_below(t, m, child, path) {
        let r = below_ends_sooner(t, (n - 1) as nat, child, m, path);
        folders_form_no_ring(t, r, path, child, m);
    }
}

/// A folder that ends within some levels ends within more.
pub proof fn ends_longer(t: Tables, levels: nat, path: Seq<char>)
    requires
        ends_within(t, levels, path),
    ensures
        ends_within(t, levels + 1, path),
    decreases levels,
{
    assert forall|c: Seq<char>| #[trigger] is_child(t, path, c) implies ends_within(
        t,
        levels,
        c,
    ) by {
        ends_longer(t, (levels - 1) as nat, c);
    }
}

/// What lies below a folder within some levels lies below it within more.
pub proof fn lies_below_longer(t: Tables, levels: nat, more: nat, top: Seq<char>, f: Seq<char>)
    requires
        lies_below(t, levels, top, f),
        levels <= more,
    ensures
        lies_below(t, more, top, f),
    decreases levels,
{
    if f != top {
        let c = choose|c: Seq<char>| #[trigger]
            is_child(t, top, c) && lies_below(t, (levels - 1) as nat, c, f);
        lies_below_longer(t, (levels - 1) as nat, (more - 1) as nat, c, f);
    }
}

/// With a folder below another one, the folder that it lies in is below it too, one level
/// nearer.
pub proof fn parent_lies_below(
    t: Tables,
    levels: nat,
    top: Seq<char>,
    f: Seq<char>,
    parent: Seq<char>,
)
    requires
        lies_below(t, levels, top, f),
        f != top,
        is_child(t, parent, f),
    ensures
        levels > 0,
        lies_below(t, (levels - 1) as nat, top, parent),
        lies_below(t, levels, top, parent),
    decreases levels,
{
    let c = choose|c: Seq<char>| #[trigger]
        is_child(t, top, c) && lies_below(t, (levels - 1) as nat, c, f);
    if c == f {
        assert(parent == top);
    } else {
        parent_lies_below(t, (levels - 1) as nat, c, f, parent);
    }
    lies_below_longer(t, (levels - 1) as nat, levels, top, parent);
}

proof fn below_has_parent(t: Tables, levels: nat, top: Seq<char>, f: Seq<char>) -> (p: Seq<char>)
    requires
        lies_below(t, levels, top, f),
        f != top,
    ensures
        is_child(t, p, f),
    decreases levels,
{
    let c = choose|c: Seq<char>| #[trigger]
        is_child(t, top, c) && lies_below(t, (levels - 1) as nat, c, f);
    if c == f {
        top
    } else {
        below_has_parent(t, (levels - 1) as nat, c, f)
    }
}

/// Of two folders above a folder, one lies below the other.
pub proof fn above_are_in_line(
    t: Tables,
    n: nat,
    a: Seq<char>,
    m: nat,
    b: Seq<char>,
    f: Seq<char>,
)
    requires
        lies_below(t, n, a, f),
        lies_below(t, m, b, f),
    ensures
        lies_below(t, n, a, b) || lies_below(t, m, b, a),
    decreases n,
{
    if f != a && f != b {
        let p = below_has_parent(t, n, a, f);
        parent_lies_below(t, n, a, f, p);
        parent_lies_below(t, m, b, f, p);
        above_are_in_line(t, (n - 1) as nat, a, m, b, p);
        if lies_below(t, (n - 1) as nat, a, b) {
            lies_below_longer(t, (n - 1) as nat, n, a, b);
        }
    }
}

/// What lies below a folder that lies below another one lies below that one.
pub proof fn below_below(t: Tables, n: nat, a: Seq<char>, m: nat, b: Seq<char>, f: Seq<char>)
    requires
        lies_below(t, n, a, b),
        lies_below(t, m, b, f),
    ensures
        lies_below(t, n + m, a, f),
    decreases n,
{
    if a == b {
        lies_below_longer(t, m, n + m, a, f);
    } else {
        let c = choose|c: Seq<char>| #[trigger]
            is_child(t, a, c) && lies_below(t, (n - 1) as nat, c, b);
        below_below(t, (n - 1) as nat, c, m, b, f);
        assert(lies_below(t, (n + m - 1) as nat, c, f));
    }
}

/// A folder in a folder that ends does not lie above that folder.
pub proof fn ends_above_no_parent(t: Tables, levels: nat, c: Seq<char>, path: Seq<char>, m: nat)
    requires
        ends_within(t, levels, c),
        is_child(t, path, c),
    ensures
        !lies_below(t, m, c, path),
{
    if lies_below(t, m, c, path) {
        let r = below_ends_sooner(t, levels, c, m, path);
        folders_form_no_ring(t, r, path, c, m);
    }
}

/// Whether the first of several folders were taken out of a folder that holds them, with
/// all below them.
spec fn first_taken(
    a: Tables,
    b: Tables,
    levels: nat,
    path: Seq<char>,
    init: Seq<Seq<char>>,
) -> bool {
    &&& clean_cut(a, b)
    &&& gone_from_below(a, b, levels, init)
    &&& forall|c: Seq<char>| #[trigger]
        init.contains(c) ==> is_child(a, path, c) && ends_within(a, levels, c)
}

proof fn way_to_parent_is_left(
    a: Tables,
    b: Tables,
    levels: nat,
    path: Seq<char>,
    init: Seq<Seq<char>>,
    n: nat,
    f: Seq<char>,
)
    requires
        first_taken(a, b, levels, path, init),
        lies_below(a, n, f, path),
    ensures
        lies_below(b, n, f, path),
        a.folders.contains_key(f) ==> b.folders.contains_key(f),
    decreases n,
{
    if a.folders.contains_key(f) && !b.folders.contains_key(f) {
        let c = choose|c: Seq<char>| #[trigger] init.contains(c) && lies_below(a, levels, c, f);
        below_below(a, levels, c, n, f, path);
        ends_above_no_parent(a, levels, c, path, levels + n);
    }
    if f != path {
        let c = choose|c: Seq<char>| #[trigger]
            is_child(a, f, c) && lies_below(a, (n - 1) as nat, c, path);
        way_to_parent_is_left(a, b, levels, path, init, (n - 1) as nat, c);
        assert(b.folders.contains_key(c));
        assert(is_child(b, f, c));
    }
}

proof fn below_next_is_left(
    a: Tables,
    b: Tables,
    levels: nat,
    path: Seq<char>,
    init: Seq<Seq<char>>,
    next: Seq<char>,
    n: nat,
    f: Seq<char>,
)
    requires
        first_taken(a, b, levels, path, init),
        is_child(a, path, next),
        !init.contains(next),
        ends_within(b, levels, next),
        lies_below(a, n, next, f),
    ensures
        !below_some(a, levels, init, f),
{
    if below_some(a, levels, init, f) {
        let c = choose|c: Seq<char>| #[trigger] init.contains(c) && lies_below(a, levels, c, f);
        above_are_in_line(a, n, next, levels, c, f);
        if lies_below(a, levels, c, next) {
            parent_lies_below(a, levels, c, next, path);
            ends_above_no_parent(a, levels, c, path, levels);
        } else {
            parent_lies_below(a, n, next, c, path);
            way_to_parent_is_left(a, b, levels, path, init, n, next);
            assert(is_child(b, path, next));
            ends_above_no_parent(b, levels, next, path, n);
        }
    }
}

proof fn next_ends(
    a: Tables,
    b: Tables,
    levels: nat,
    path: Seq<char>,
    init: Seq<Seq<char>>,
    next: Seq<char>,
    left: nat,
    n: nat,
    f: Seq<char>,
)
    requires
        first_taken(a, b, levels, path, init),
        is_child(a, path, next),
        !init.contains(next),
        ends_within(b, levels, next),
        lies_below(a, n, next, f),
        ends_within(b, left, f),
    ensures
        ends_within(a, left, f),
    decreases left,
{
    assert forall|c: Seq<char>| #[trigger] is_child(a, f, c) implies ends_within(
        a,
        (left - 1) as nat,
        c,
    ) by {
        assert(lies_below(a, 1, f, c)) by {
            assert(lies_below(a, 0, c, c));
        }
        below_below(a, n, next, 1, f, c);
        below_next_is_left(a, b, levels, path, init, next, n + 1, c);
        assert(a.folders.contains_key(c));
        assert(b.folders.contains_key(c));
        assert(is_child(b, f, c));
        next_ends(a, b, levels, path, init, next, (left - 1) as nat, n + 1, c);
    }
}

/// A removal that came to its end within fewer exchanges than it may go deep has met no
/// ring: the folders below the folder end.
pub proof fn removal_that_ends_met_no_ring(
    t: Tables,
    levels: nat,
    path: Seq<char>,
    seg: Seq<Exchange>,
)
    requires
        delete_run(levels, path, true, seg),
        faithful(t, seg),
        went_through(seg),
        seg.len() < levels,
    ensures
        ends_within(t, levels, path),
    decreases levels, 0nat,
{
    let n = seg.len() as int;
    let children = first_texts(rows_in(seg[0])->0);
    let deep = (levels - 1) as nat;
    runs_split(t, seg, 1);
    one_exchange(t, seg.take(1));
    assert(seg.take(1)[0] == seg[0]);
    assert(tables(t, seg.take(1)) == t);
    query_lengths();
    rows_are_right(t, seg[0], CHILD_FOLDERS@, path);
    let rest = seg.skip(1);
    let mid = seg.subrange(1, n - 4);
    runs_split(t, rest, n - 5);
    assert(rest.take(n - 5) =~= mid);
    assert forall|c: Seq<char>| #[trigger] children.contains(c) implies is_child(t, path, c) by {}
    removals_that_end_met_no_ring(t, deep, path, children, mid);
    assert forall|c: Seq<char>| #[trigger] is_child(t, path, c) implies ends_within(t, deep, c) by {
        assert(children.contains(c));
    }
}

/// Removals of folders in a folder that came to their end within fewer exchanges than they
/// may go deep have met no ring.
pub proof fn removals_that_end_met_no_ring(
    t: Tables,
    levels: nat,
    path: Seq<char>,
    children: Seq<Seq<char>>,
    seg: Seq<Exchange>,
)
    requires
        deletes_done(levels, children, seg),
        faithful(t, seg),
        went_through(seg),
        seg.len() < levels,
        forall|c: Seq<char>| #[trigger] children.contains(c) ==> is_child(t, path, c),
    ensures
        forall|c: Seq<char>| #[trigger] children.contains(c) ==> ends_within(t, levels, c),
    decreases levels, children.len() + 1,
{
    if children.len() > 0 {
        let init = children.drop_last();
        let last = children.last();
        let k = choose|k: int|
            0 <= k <= seg.len() && deletes_done(levels, init, #[trigger] seg.take(k))
                && delete_run(levels, last, true, seg.skip(k));
        runs_split(t, seg, k);
        assert forall|c: Seq<char>| #[trigger] init.contains(c) implies children.contains(c) by {
            let i = choose|i: int| 0 <= i < init.len() && init[i] == c;
            assert(children[i] == c);
        }
        removals_that_end_met_no_ring(t, levels, path, init, seg.take(k));
        removing_several(t, levels, init, seg.take(k));
        let t1 = tables(t, seg.take(k));
        removal_that_ends_met_no_ring(t1, levels, last, seg.skip(k));
        assert(children[children.len() - 1] == last);
        assert(children.contains(last));
        if !init.contains(last) {
            assert(lies_below(t, 0, last, last));
            next_ends(t, t1, levels, path, init, last, levels, 0, last);
        }
        assert forall|c: Seq<char>| #[trigger] children.contains(c) implies ends_within(
            t,
            levels,
            c,
        ) by {
            if c != last {
                let i = choose|i: int| 0 <= i < children.len() && children[i] == c;
                assert(init[i] == c);
                assert(init.contains(c));
            }
        }
    }
}

/// Setting audio flags changes nothing else.
pub proof fn flags_keep_the_tree(t: Tables, levels: nat, path: Seq<char>, seg: Seq<Exchange>)
    requires
        flags_run(levels, path, true, seg),
        faithful(t, seg),
        went_through(seg),
    ensures
        same_tree(t, tables(t, seg)),
    decreases levels, 0nat,
{
    if levels > 0 {
        let n = seg.len() as int;
        let children = first_texts(rows_in(seg[0])->0);
        runs_split(t, seg, 1);
        one_exchange(t, seg.take(1));
        assert(seg.take(1)[0] == seg[0]);
        assert(tables(t, seg.take(1)) == t);
        let rest = seg.skip(1);
        let mid = seg.subrange(1, n - 3);
        let end = seg.skip(n - 3);
        runs_split(t, rest, n - 4);
        assert(rest.take(n - 4) =~= mid);
        assert(rest.skip(n - 4) =~= end);
        flags_of_several_keep_the_tree(t, (levels - 1) as nat, children, mid);
        let t1 = tables(t, mid);
        one_flag_is_set(t1, path, end);
        assert(tables(t1, end).folders.dom() =~= t1.folders.dom());
        assert(same_tree(t1, tables(t1, end)));
        same_tree_chains(t, t1, tables(t, seg));
    }
}

proof fn flags_of_several_keep_the_tree(
    t: Tables,
    levels: nat,
    children: Seq<Seq<char>>,
    seg: Seq<Exchange>,
)
    requires
        flags_done(levels, children, seg),
        faithful(t, seg),
        went_through(seg),
    ensures
        same_tree(t, tables(t, seg)),
    decreases levels, children.len() + 1,
{
    if children.len() > 0 {
        let init = children.drop_last();
        let last = children.last();
        let k = choose|k: int|
            0 <= k <= seg.len() && flags_done(levels, init, #[trigger] seg.take(k)) && flags_run(
                levels,
                last,
                true,
                seg.skip(k),
            );
        runs_split(t, seg, k);
        flags_of_several_keep_the_tree(t, levels, init, seg.take(k));
        let t1 = tables(t, seg.take(k));
        flags_keep_the_tree(t1, levels, last, seg.skip(k));
        same_tree_chains(t, t1, tables(t, seg));
    }
}

/// Setting audio flags that came to its end within fewer exchanges than it may go deep has
/// met no ring: the folders below the folder end.
pub proof fn flags_that_end_met_no_ring(
    t: Tables,
    levels: nat,
    path: Seq<char>,
    seg: Seq<Exchange>,
)
    requires
        flags_run(levels, path, true, seg),
        faithful(t, seg),
        went_through(seg),
        seg.len() < levels,
    ensures
        ends_within(t, levels, path),
    decreases levels, 0nat,
{
    let n = seg.len() as int;
    let children = first_texts(rows_in(seg[0])->0);
    let deep = (levels - 1) as nat;
    runs_split(t, seg, 1);
    one_exchange(t, seg.take(1));
    assert(seg.take(1)[0] == seg[0]);
    assert(tables(t, seg.take(1)) == t);
    query_lengths();
    rows_are_right(t, seg[0], CHILD_FOLDERS@, path);
    let rest = seg.skip(1);
    let mid = seg.subrange(1, n - 3);
    runs_split(t, rest, n - 4);
    assert(rest.take(n - 4) =~= mid);
    flags_of_several_met_no_ring(t, deep, children, mid);
    assert forall|c: Seq<char>| #[trigger] is_child(t, path, c) implies ends_within(t, deep, c) by {
        assert(children.contains(c));
    }
}

proof fn flags_of_several_met_no_ring(
    t: Tables,
    levels: nat,
    children: Seq<Seq<char>>,
    seg: Seq<Exchange>,
)
    requires
        flags_done(levels, children, seg),
        faithful(t, seg),
        went_through(seg),
        seg.len() < levels,
    ensures
        forall|c: Seq<char>| #[trigger] children.contains(c) ==> ends_within(t, levels, c),
    decreases levels, children.len() + 1,
{
    if children.len() > 0 {
        let init = children.drop_last();
        let last = children.last();
        let k = choose|k: int|
            0 <= k <= seg.len() && flags_done(levels, init, #[trigger] seg.take(k)) && flags_run(
                levels,
                last,
                true,
                seg.skip(k),
            );
        runs_split(t, seg, k);
        flags_of_several_met_no_ring(t, levels, init, seg.take(k));
        flags_of_several_keep_the_tree(t, levels, init, seg.take(k));
        let t1 = tables(t, seg.take(k));
        flags_that_end_met_no_ring(t1, levels, last, seg.skip(k));
        same_tree_swaps(t, t1);
        same_ends(t1, t, levels, last);
        assert forall|c: Seq<char>| #[trigger] children.contains(c) implies ends_within(
            t,
            levels,
            c,
        ) by {
            if c != last {
                let i = choose|i: int| 0 <= i < children.len() && children[i] == c;
                assert(init[i] == c);
                assert(init.contains(c));
            }
        }
    }
}

/// A removal that came to its end within fewer exchanges than it may go deep has removed
/// the folder with everything below it, and nothing else.
pub proof fn removal_that_ends_takes_all_below(
    t: Tables,
    levels: nat,
    path: Seq<char>,
    seg: Seq<Exchange>,
)
    requires
        delete_run(levels, path, true, seg),
        faithful(t, seg),
        went_through(seg),
        seg.len() < levels,
    ensures
        clean_cut(t, tables(t, seg)),
        gone_from_below(t, tables(t, seg), levels, seq![path]),
        forall|f: Seq<char>| #[trigger]
            lies_below(t, levels, path, f) ==> is_gone(tables(t, seg), f),
{
    removal_that_ends_met_no_ring(t, levels, path, seg);
    removing_takes_all_below(t, levels, path, seg);
}

/// Setting audio flags that came to its end within fewer exchanges than it may go deep has
/// set them right from the folder down, and changed nothing else.
pub proof fn flags_that_end_say_where_sound_is(
    t: Tables,
    levels: nat,
    path: Seq<char>,
    seg: Seq<Exchange>,
)
    requires
        flags_run(levels, path, true, seg),
        faithful(t, seg),
        went_through(seg),
        seg.len() < levels,
    ensures
        same_tree(t, tables(t, seg)),
        forall|f: Seq<char>| #[trigger]
            lies_below(t, levels, path, f) ==> flagged_right(tables(t, seg), f),
        forall|f: Seq<char>|
            !lies_below(t, levels, path, f) ==> #[trigger] same_flag(t, tables(t, seg), f),
{
    flags_that_end_met_no_ring(t, levels, path, seg);
    flags_say_where_sound_is(t, levels, path, seg);
}

} // verus!
