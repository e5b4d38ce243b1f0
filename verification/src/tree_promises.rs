//! What the library promises of a folder with all folders below it, where its
//! database answers faithfully.
use crate::folder_tree::{
    delete_requests, delete_run, deletes_done, flag_datum, flag_run, flags_done, flags_run, makes,
};
use crate::library_db::{count_in, first_texts};
use crate::sql::{
    CHILD_FOLDERS, COUNT_AUDIO_CHILDREN, COUNT_FOLDER_SONGS, DELETE_COVER, DELETE_FOLDER,
    DELETE_FOLDER_SONGS, DELETE_FOLDER_SONG_COVERS, SET_HAS_AUDIO,
};
use crate::store::{integer_at, row_in, rows_in, text_at, Datum, Exchange, Request};
use crate::tables::{
    covers_left, effect, executed, faithful, has_flagged_child, has_song, is_child, is_song_in,
    one_exchange, query_lengths, row_is_right, rows_are_right, runs_split, songs_outside,
    statement_lengths, tables, went_through, without_songs, FolderRow, Tables,
};
use vstd::prelude::*;

verus! {

/// Whether the folders below a folder end within so many levels, itself counted.
pub open spec fn ends_within(t: Tables, levels: nat, path: Seq<char>) -> bool
    decreases levels,
{
    levels > 0 && forall|c: Seq<char>| #[trigger]
        is_child(t, path, c) ==> ends_within(t, (levels - 1) as nat, c)
}

/// Whether a song lies in a folder or within so many levels below it.
pub open spec fn sound_within(t: Tables, levels: nat, path: Seq<char>) -> bool
    decreases levels,
{
    has_song(t, path) || (levels > 0 && exists|c: Seq<char>| #[trigger]
        is_child(t, path, c) && sound_within(t, (levels - 1) as nat, c))
}

/// Whether a song lies in a folder or anywhere below it.
pub open spec fn holds_sound(t: Tables, path: Seq<char>) -> bool {
    exists|levels: nat| #[trigger] sound_within(t, levels, path)
}

/// Whether a folder lies within so many levels below another one, or is that
/// folder.
pub open spec fn lies_below(t: Tables, levels: nat, path: Seq<char>, f: Seq<char>) -> bool
    decreases levels,
{
    f == path || (levels > 0 && exists|c: Seq<char>| #[trigger]
        is_child(t, path, c) && lies_below(t, (levels - 1) as nat, c, f))
}

/// Whether the audio flag of a folder says whether it holds sound.
pub open spec fn flagged_right(t: Tables, f: Seq<char>) -> bool {
    t.folders.contains_key(f) ==> ((t.folders[f].has_audio == 1) <==> holds_sound(t, f))
}

/// Whether tables differ at most in audio flags.
pub open spec fn same_tree(a: Tables, b: Tables) -> bool {
    &&& b == Tables { folders: b.folders, ..a }
    &&& a.folders.dom() == b.folders.dom()
    &&& forall|f: Seq<char>|
        a.folders.contains_key(f) ==> (#[trigger] b.folders[f]) == (FolderRow {
            has_audio: b.folders[f].has_audio,
            ..a.folders[f]
        })
}

/// Whether tables hold the same songs and the same folders, each in the same folder.
pub open spec fn same_shape(a: Tables, b: Tables) -> bool {
    &&& b.songs == a.songs
    &&& a.folders.dom() == b.folders.dom()
    &&& forall|f: Seq<char>|
        a.folders.contains_key(f) ==> (#[trigger] b.folders[f]).parent == a.folders[f].parent
}

/// Whether the audio flag of a folder is one of the two that are set.
pub open spec fn flag_is_set(t: Tables, f: Seq<char>) -> bool {
    t.folders.contains_key(f) ==> t.folders[f].has_audio == 0 || t.folders[f].has_audio == 1
}

/// Whether the audio flag of a folder is the same in two tables.
pub open spec fn same_flag(a: Tables, b: Tables, f: Seq<char>) -> bool {
    a.folders.contains_key(f) ==> b.folders[f].has_audio == a.folders[f].has_audio
}

/// The tables with the audio flag of a folder set.
pub open spec fn with_flag(t: Tables, path: Seq<char>, on: bool) -> Tables {
    if t.folders.contains_key(path) {
        let has_audio: int = if on {
            1
        } else {
            0
        };
        Tables { folders: t.folders.insert(path, FolderRow { has_audio, ..t.folders[path] }), ..t }
    } else {
        t
    }
}

/// Where the shape is the same, the same folders and songs lie in a folder.
pub proof fn same_children(a: Tables, b: Tables)
    requires
        same_shape(a, b),
    ensures
        forall|p: Seq<char>, c: Seq<char>| #[trigger] is_child(a, p, c) == is_child(b, p, c),
        forall|p: Seq<char>| #[trigger] has_song(a, p) == has_song(b, p),
{
    assert forall|p: Seq<char>, c: Seq<char>| #[trigger] is_child(a, p, c) == is_child(b, p, c) by {
        assert(a.folders.contains_key(c) == b.folders.contains_key(c));
        if a.folders.contains_key(c) {
            assert(b.folders[c].parent == a.folders[c].parent);
        }
    }
    assert forall|p: Seq<char>| #[trigger] has_song(a, p) == has_song(b, p) by {
        if has_song(a, p) {
            let s = choose|s: Seq<char>| #[trigger] is_song_in(a, p, s);
            assert(is_song_in(b, p, s));
        }
        if has_song(b, p) {
            let s = choose|s: Seq<char>| #[trigger] is_song_in(b, p, s);
            assert(is_song_in(a, p, s));
        }
    }
}

proof fn same_sound_within(a: Tables, b: Tables, levels: nat, path: Seq<char>)
    requires
        same_shape(a, b),
        sound_within(a, levels, path),
    ensures
        sound_within(b, levels, path),
    decreases levels,
{
    same_children(a, b);
    if !has_song(a, path) {
        let c = choose|c: Seq<char>| #[trigger]
            is_child(a, path, c) && sound_within(a, (levels - 1) as nat, c);
        same_sound_within(a, b, (levels - 1) as nat, c);
        assert(is_child(b, path, c));
    }
}

/// Tables have the same shape either way round.
pub proof fn same_shape_swaps(a: Tables, b: Tables)
    requires
        same_shape(a, b),
    ensures
        same_shape(b, a),
{
    assert forall|f: Seq<char>| b.folders.contains_key(f) implies (#[trigger] a.folders[f]).parent
        == b.folders[f].parent by {
        assert(a.folders.contains_key(f));
        assert(b.folders[f].parent == a.folders[f].parent);
    }
}

/// Tables differ in audio flags alone either way round.
pub proof fn same_tree_swaps(a: Tables, b: Tables)
    requires
        same_tree(a, b),
    ensures
        same_tree(b, a),
{
    assert forall|f: Seq<char>| b.folders.contains_key(f) implies (#[trigger] a.folders[f]) == (
    FolderRow { has_audio: a.folders[f].has_audio, ..b.folders[f] }) by {
        assert(a.folders.contains_key(f));
        assert(b.folders[f].parent == a.folders[f].parent);
    }
}

/// Tables that differ in audio flags from tables that do so differ in audio flags.
pub proof fn same_tree_chains(a: Tables, b: Tables, c: Tables)
    requires
        same_tree(a, b),
        same_tree(b, c),
    ensures
        same_tree(a, c),
{
    assert forall|f: Seq<char>| a.folders.contains_key(f) implies (#[trigger] c.folders[f]) == (
    FolderRow { has_audio: c.folders[f].has_audio, ..a.folders[f] }) by {
        assert(b.folders.contains_key(f));
        assert(b.folders[f].parent == a.folders[f].parent);
    }
}

/// Where the shape is the same, the same folders hold sound.
pub proof fn same_sound(a: Tables, b: Tables, path: Seq<char>)
    requires
        same_shape(a, b),
    ensures
        holds_sound(a, path) == holds_sound(b, path),
{
    same_shape_swaps(a, b);
    if holds_sound(a, path) {
        let n = choose|n: nat| #[trigger] sound_within(a, n, path);
        same_sound_within(a, b, n, path);
    }
    if holds_sound(b, path) {
        let n = choose|n: nat| #[trigger] sound_within(b, n, path);
        same_sound_within(b, a, n, path);
    }
}

/// Where the shape is the same, the same folders end.
pub proof fn same_ends(a: Tables, b: Tables, levels: nat, path: Seq<char>)
    requires
        same_shape(a, b),
        ends_within(a, levels, path),
    ensures
        ends_within(b, levels, path),
    decreases levels,
{
    same_children(a, b);
    assert forall|c: Seq<char>| #[trigger] is_child(b, path, c) implies ends_within(
        b,
        (levels - 1) as nat,
        c,
    ) by {
        assert(is_child(a, path, c));
        same_ends(a, b, (levels - 1) as nat, c);
    }
}

/// A folder holds sound where it has songs or a folder directly in it holds sound.
pub proof fn sound_comes_from_below(t: Tables, path: Seq<char>)
    ensures
        holds_sound(t, path) <==> (has_song(t, path) || exists|c: Seq<char>| #[trigger]
            is_child(t, path, c) && holds_sound(t, c)),
{
    if has_song(t, path) {
        assert(sound_within(t, 0, path));
    }
    if exists|c: Seq<char>| #[trigger] is_child(t, path, c) && holds_sound(t, c) {
        let c = choose|c: Seq<char>| #[trigger] is_child(t, path, c) && holds_sound(t, c);
        let n = choose|n: nat| #[trigger] sound_within(t, n, c);
        assert(sound_within(t, n + 1, path));
    }
    if holds_sound(t, path) && !has_song(t, path) {
        let n = choose|n: nat| #[trigger] sound_within(t, n, path);
        let c = choose|c: Seq<char>| #[trigger]
            is_child(t, path, c) && sound_within(t, (n - 1) as nat, c);
        assert(holds_sound(t, c));
    }
}

/// Setting the audio flag of one folder says whether songs or flagged folders lie
/// directly in it. Nothing else changes.
pub proof fn one_flag_is_set(t: Tables, path: Seq<char>, seg: Seq<Exchange>)
    requires
        flag_run(path, seg),
        faithful(t, seg),
        went_through(seg),
    ensures
        tables(t, seg) == with_flag(t, path, has_song(t, path) || has_flagged_child(t, path)),
{
    let after = tables(t, seg);
    runs_split(t, seg, 1);
    one_exchange(t, seg.take(1));
    assert(seg.take(1)[0] == seg[0]);
    assert(tables(t, seg.take(1)) == t);
    let rest = seg.skip(1);
    runs_split(t, rest, 1);
    one_exchange(t, rest.take(1));
    assert(rest.take(1)[0] == seg[1]);
    assert(tables(t, rest.take(1)) == t);
    let last = rest.skip(1);
    one_exchange(t, last);
    assert(last[0] == seg[2]);
    query_lengths();
    statement_lengths();
    row_is_right(t, seg[0], COUNT_FOLDER_SONGS@, path);
    row_is_right(t, seg[1], COUNT_AUDIO_CHILDREN@, path);
    assert((count_in(row_in(seg[0])) > 0) == has_song(t, path));
    assert((count_in(row_in(seg[1])) > 0) == has_flagged_child(t, path));
    let params = seq![flag_datum(row_in(seg[0]), row_in(seg[1])), Datum::Text(path)];
    assert(text_at(params, 1) == Some(path));
    assert(integer_at(params, 0) is Some);
    assert(after == executed(t, SET_HAS_AUDIO@, params));
}

/// Setting the audio flag of one folder sets it right where the flags of the folders
/// directly in it are right: it says whether a song lies in it or anywhere below it.
/// Nothing else changes, and a flag that was right stays right.
pub proof fn flag_is_set_right(t: Tables, path: Seq<char>, seg: Seq<Exchange>)
    requires
        flag_run(path, seg),
        faithful(t, seg),
        went_through(seg),
        forall|c: Seq<char>| #[trigger] is_child(t, path, c) ==> flagged_right(t, c),
    ensures
        same_tree(t, tables(t, seg)),
        flagged_right(tables(t, seg), path),
        tables(t, seg) == with_flag(t, path, holds_sound(t, path)),
        forall|f: Seq<char>| #[trigger] flagged_right(t, f) ==> flagged_right(tables(t, seg), f),
        forall|f: Seq<char>|
            f == path || flag_is_set(t, f) ==> #[trigger] flag_is_set(tables(t, seg), f),
{
    let after = tables(t, seg);
    one_flag_is_set(t, path, seg);
    assert(after.folders.dom() =~= t.folders.dom());
    assert(same_tree(t, after));
    sound_comes_from_below(t, path);
    assert(has_flagged_child(t, path) == exists|c: Seq<char>| #[trigger]
        is_child(t, path, c) && holds_sound(t, c)) by {
        if has_flagged_child(t, path) {
            let c = choose|c: Seq<char>| #[trigger]
                is_child(t, path, c) && t.folders[c].has_audio == 1;
            assert(flagged_right(t, c));
        }
        if exists|c: Seq<char>| #[trigger] is_child(t, path, c) && holds_sound(t, c) {
            let c = choose|c: Seq<char>| #[trigger] is_child(t, path, c) && holds_sound(t, c);
            assert(flagged_right(t, c));
        }
    }
    same_sound(t, after, path);
    assert(flagged_right(after, path));
    assert forall|f: Seq<char>| #[trigger] flagged_right(t, f) implies flagged_right(after, f) by {
        same_sound(t, after, f);
    }
}

/// Setting the audio flags from a folder down sets them right: afterwards the flag
/// of the folder, and of every folder below it, says whether a song lies in it or
/// anywhere below it. Nothing but these flags changes: the flags of other folders
/// stay, and a flag that was right stays right.
pub proof fn flags_say_where_sound_is(t: Tables, levels: nat, path: Seq<char>, seg: Seq<Exchange>)
    requires
        flags_run(levels, path, true, seg),
        faithful(t, seg),
        went_through(seg),
        ends_within(t, levels, path),
    ensures
        same_tree(t, tables(t, seg)),
        flagged_right(tables(t, seg), path),
        forall|f: Seq<char>| #[trigger] flagged_right(t, f) ==> flagged_right(tables(t, seg), f),
        forall|f: Seq<char>| #[trigger]
            lies_below(t, levels, path, f) ==> flagged_right(tables(t, seg), f),
        forall|f: Seq<char>|
            !lies_below(t, levels, path, f) ==> #[trigger] same_flag(t, tables(t, seg), f),
        forall|f: Seq<char>|
            lies_below(t, levels, path, f) || flag_is_set(t, f) ==> #[trigger] flag_is_set(
                tables(t, seg),
                f,
            ),
    decreases levels, 0nat,
{
    let n = seg.len() as int;
    let rows = rows_in(seg[0])->0;
    let children = first_texts(rows);
    let deep = (levels - 1) as nat;
    runs_split(t, seg, 1);
    one_exchange(t, seg.take(1));
    assert(seg.take(1)[0] == seg[0]);
    assert(tables(t, seg.take(1)) == t);
    query_lengths();
    rows_are_right(t, seg[0], CHILD_FOLDERS@, path);
    assert(forall|c: Seq<char>| #[trigger] children.contains(c) <==> is_child(t, path, c));
    let rest = seg.skip(1);
    let mid = seg.subrange(1, n - 3);
    let end = seg.skip(n - 3);
    runs_split(t, rest, n - 4);
    assert(rest.take(n - 4) =~= mid);
    assert(rest.skip(n - 4) =~= end);
    flags_of_several(t, deep, path, children, mid);
    let t1 = tables(t, mid);
    assert forall|c: Seq<char>| #[trigger] is_child(t1, path, c) implies flagged_right(t1, c) by {
        same_children(t, t1);
        assert(is_child(t, path, c));
        assert(children.contains(c));
    }
    flag_is_set_right(t1, path, end);
    let t2 = tables(t, seg);
    assert(t2 == tables(t1, end));
    same_tree_chains(t, t1, t2);
    assert forall|f: Seq<char>| #[trigger] flagged_right(t, f) implies flagged_right(t2, f) by {
        assert(flagged_right(t1, f));
    }
    assert forall|f: Seq<char>| #[trigger] lies_below(t, levels, path, f) implies flagged_right(
        t2,
        f,
    ) by {
        if f != path {
            let c = choose|c: Seq<char>| #[trigger]
                is_child(t, path, c) && lies_below(t, deep, c, f);
            assert(children.contains(c));
            assert(flagged_right(t1, f));
        }
    }
    assert forall|f: Seq<char>| !lies_below(t, levels, path, f) implies #[trigger] same_flag(
        t,
        t2,
        f,
    ) by {
        if below_some(t, deep, children, f) {
            let c = choose|c: Seq<char>| #[trigger]
                children.contains(c) && lies_below(t, deep, c, f);
            assert(is_child(t, path, c));
        }
        assert(same_flag(t, t1, f));
    }
    assert forall|f: Seq<char>| lies_below(t, levels, path, f) || flag_is_set(
        t,
        f,
    ) implies #[trigger] flag_is_set(t2, f) by {
        if lies_below(t, levels, path, f) && f != path {
            let c = choose|c: Seq<char>| #[trigger]
                is_child(t, path, c) && lies_below(t, deep, c, f);
            assert(children.contains(c));
            assert(below_some(t, deep, children, f));
        }
        if f != path {
            assert(flag_is_set(t1, f));
        }
    }
}

#[verifier::rlimit(60)]
#[verifier::spinoff_prover]
proof fn flags_of_several(
    t: Tables,
    levels: nat,
    path: Seq<char>,
    children: Seq<Seq<char>>,
    seg: Seq<Exchange>,
)
    requires
        flags_done(levels, children, seg),
        faithful(t, seg),
        went_through(seg),
        forall|c: Seq<char>| #[trigger] children.contains(c) ==> is_child(t, path, c)
            && ends_within(t, levels, c),
    ensures
        same_tree(t, tables(t, seg)),
        forall|f: Seq<char>| #[trigger] flagged_right(t, f) ==> flagged_right(tables(t, seg), f),
        forall|c: Seq<char>, f: Seq<char>|
            children.contains(c) && #[trigger] lies_below(t, levels, c, f) ==> flagged_right(
                tables(t, seg),
                f,
            ),
        forall|c: Seq<char>| #[trigger] children.contains(c) ==> flagged_right(tables(t, seg), c),
        forall|f: Seq<char>|
            !below_some(t, levels, children, f) ==> #[trigger] same_flag(t, tables(t, seg), f),
        forall|f: Seq<char>|
            below_some(t, levels, children, f) || flag_is_set(t, f) ==> #[trigger] flag_is_set(
                tables(t, seg),
                f,
            ),
    decreases levels, children.len() + 1,
{
    if children.len() > 0 {
        let init = children.drop_last();
        let last = children.last();
        let k = choose|k: int|
            0 <= k <= seg.len() && flags_done(levels, init, #[trigger] seg.take(k)) && flags_run(
                levels,
                last,
                true,
                seg.skip(k),
            );
        runs_split(t, seg, k);
        assert forall|c: Seq<char>| #[trigger] init.contains(c) implies is_child(t, path, c)
            && ends_within(t, levels, c) by {
            let i = choose|i: int| 0 <= i < init.len() && init[i] == c;
            assert(children[i] == c);
            assert(children.contains(c));
        }
        flags_of_several(t, levels, path, init, seg.take(k));
        let t1 = tables(t, seg.take(k));
        assert(children[children.len() - 1] == last);
        assert(children.contains(last));
        same_ends(t, t1, levels, last);
        flags_say_where_sound_is(t1, levels, last, seg.skip(k));
        let t2 = tables(t, seg);
        same_tree_chains(t, t1, t2);
        assert forall|f: Seq<char>| #[trigger] flagged_right(t, f) implies flagged_right(t2, f) by {
            assert(flagged_right(t1, f));
        }
        assert forall|c: Seq<char>, f: Seq<char>|
            children.contains(c) && #[trigger] lies_below(t, levels, c, f) implies flagged_right(
            t2,
            f,
        ) by {
            if c == last {
                same_below(t, t1, levels, c, f);
            } else {
                let i = choose|i: int| 0 <= i < children.len() && children[i] == c;
                assert(init[i] == c);
                assert(init.contains(c));
                assert(flagged_right(t1, f));
            }
        }
        assert forall|c: Seq<char>| #[trigger] children.contains(c) implies flagged_right(t2, c) by {
            assert(lies_below(t, levels, c, c));
        }
        assert forall|f: Seq<char>| !below_some(t, levels, children, f) implies #[trigger] same_flag(
            t,
            t2,
            f,
        ) by {
            if below_some(t, levels, init, f) {
                let c = choose|c: Seq<char>| #[trigger]
                    init.contains(c) && lies_below(t, levels, c, f);
                assert(children.contains(c));
            }
            if lies_below(t1, levels, last, f) {
                same_tree_swaps(t, t1);
                same_below(t1, t, levels, last, f);
            }
            assert(same_flag(t, t1, f));
            assert(same_flag(t1, t2, f));
        }
        assert forall|f: Seq<char>| below_some(t, levels, children, f) || flag_is_set(
            t,
            f,
        ) implies #[trigger] flag_is_set(t2, f) by {
            if below_some(t, levels, children, f) && !below_some(t, levels, init, f) {
                let c = choose|c: Seq<char>| #[trigger]
                    children.contains(c) && lies_below(t, levels, c, f);
                if c != last {
                    let i = choose|i: int| 0 <= i < children.len() && children[i] == c;
                    assert(init[i] == c);
                    assert(init.contains(c));
                }
                same_below(t, t1, levels, last, f);
            } else {
                assert(flag_is_set(t1, f));
            }
        }
    }
}

/// Where the shape is the same, the same folders lie below a folder.
pub proof fn same_below(a: Tables, b: Tables, levels: nat, path: Seq<char>, f: Seq<char>)
    requires
        same_shape(a, b),
        lies_below(a, levels, path, f),
    ensures
        lies_below(b, levels, path, f),
    decreases levels,
{
    same_children(a, b);
    if f != path {
        let c = choose|c: Seq<char>| #[trigger]
            is_child(a, path, c) && lies_below(a, (levels - 1) as nat, c, f);
        same_below(a, b, (levels - 1) as nat, c, f);
        assert(is_child(b, path, c));
    }
}

/// Whether tables hold nothing but what others hold. Rows that are left are the
/// same. With a song its cover goes; the covers of other songs stay.
pub open spec fn only_less(a: Tables, b: Tables) -> bool {
    &&& forall|f: Seq<char>| #[trigger]
        b.folders.contains_key(f) ==> a.folders.contains_key(f) && b.folders[f] == a.folders[f]
    &&& forall|s: Seq<char>| #[trigger]
        b.songs.contains_key(s) ==> a.songs.contains_key(s) && b.songs[s] == a.songs[s]
    &&& forall|p: Seq<char>| #[trigger]
        b.covers.contains_key(p) ==> a.covers.contains_key(p) && b.covers[p] == a.covers[p]
    &&& b.song_covers == covers_left(a, b.songs)
    &&& b == Tables {
        folders: b.folders,
        songs: b.songs,
        covers: b.covers,
        song_covers: b.song_covers,
        ..a
    }
}

/// Whether a folder is gone with its songs and its cover.
pub open spec fn is_gone(t: Tables, path: Seq<char>) -> bool {
    !t.folders.contains_key(path) && !has_song(t, path) && !t.covers.contains_key(path)
}

/// Whether with each folder that is gone the folders directly in it are gone.
pub open spec fn clean_cut(a: Tables, b: Tables) -> bool {
    &&& only_less(a, b)
    &&& forall|f: Seq<char>, c: Seq<char>|
        a.folders.contains_key(f) && !b.folders.contains_key(f) && #[trigger] is_child(a, f, c)
            ==> is_gone(b, c)
}

/// Whether a song or a cover that is gone belongs to a folder that lies within so
/// many levels below one of several folders.
pub open spec fn gone_from_below(a: Tables, b: Tables, levels: nat, tops: Seq<Seq<char>>) -> bool {
    &&& forall|s: Seq<char>| #[trigger]
        a.songs.contains_key(s) && !b.songs.contains_key(s) ==> below_some(
            a,
            levels,
            tops,
            a.songs[s].folder,
        )
    &&& forall|p: Seq<char>| #[trigger]
        a.covers.contains_key(p) && !b.covers.contains_key(p) ==> below_some(a, levels, tops, p)
    &&& forall|f: Seq<char>| #[trigger]
        a.folders.contains_key(f) && !b.folders.contains_key(f) ==> below_some(a, levels, tops, f)
}

/// Whether a folder lies within so many levels below one of several folders.
pub open spec fn below_some(t: Tables, levels: nat, tops: Seq<Seq<char>>, f: Seq<char>) -> bool {
    exists|c: Seq<char>| #[trigger] tops.contains(c) && lies_below(t, levels, c, f)
}

proof fn less_chains(a: Tables, b: Tables, c: Tables)
    requires
        only_less(a, b),
        only_less(b, c),
    ensures
        only_less(a, c),
{
    assert(c.song_covers =~= covers_left(a, c.songs));
}

proof fn gone_stays_gone(a: Tables, b: Tables, f: Seq<char>)
    requires
        only_less(a, b),
        is_gone(a, f),
    ensures
        is_gone(b, f),
{
    if has_song(b, f) {
        let s = choose|s: Seq<char>| #[trigger] is_song_in(b, f, s);
        assert(is_song_in(a, f, s));
    }
}

proof fn clean_cuts_chain(a: Tables, b: Tables, c: Tables)
    requires
        clean_cut(a, b),
        clean_cut(b, c),
        forall|f: Seq<char>| a.folders.contains_key(f) && !(#[trigger] b.folders.contains_key(f))
            ==> is_gone(b, f),
    ensures
        clean_cut(a, c),
{
    less_chains(a, b, c);
    assert forall|f: Seq<char>, g: Seq<char>|
        a.folders.contains_key(f) && !c.folders.contains_key(f) && #[trigger] is_child(
            a,
            f,
            g,
        ) implies is_gone(c, g) by {
        if b.folders.contains_key(f) {
            if b.folders.contains_key(g) {
                assert(is_child(b, f, g));
            } else {
                assert(is_gone(b, g));
                gone_stays_gone(b, c, g);
            }
        } else {
            assert(is_gone(b, g));
            gone_stays_gone(b, c, g);
        }
    }
}

proof fn less_ends(a: Tables, b: Tables, levels: nat, path: Seq<char>)
    requires
        only_less(a, b),
        ends_within(a, levels, path),
    ensures
        ends_within(b, levels, path),
    decreases levels,
{
    assert forall|c: Seq<char>| #[trigger] is_child(b, path, c) implies ends_within(
        b,
        (levels - 1) as nat,
        c,
    ) by {
        assert(b.folders.contains_key(c));
        assert(is_child(a, path, c));
        less_ends(a, b, (levels - 1) as nat, c);
    }
}

proof fn folder_goes(t: Tables, path: Seq<char>, seg: Seq<Exchange>)
    requires
        makes(seg, delete_requests(path)),
        went_through(seg),
    ensures
        only_less(t, tables(t, seg)),
        is_gone(tables(t, seg), path),
        forall|f: Seq<char>| f != path && #[trigger] t.folders.contains_key(f) ==> tables(
            t,
            seg,
        ).folders.contains_key(f),
        forall|s: Seq<char>| #[trigger]
            t.songs.contains_key(s) && t.songs[s].folder != path ==> tables(
                t,
                seg,
            ).songs.contains_key(s),
        forall|p: Seq<char>| p != path && #[trigger] t.covers.contains_key(p) ==> tables(
            t,
            seg,
        ).covers.contains_key(p),
{
    statement_lengths();
    let params = seq![Datum::Text(path)];
    assert(text_at(params, 0) == Some(path));
    let s0 = seg.drop_last();
    let s1 = s0.drop_last();
    let s2 = s1.drop_last();
    assert(seg.last() == seg[3]);
    assert(s0.last() == seg[2]);
    assert(s1.last() == seg[1]);
    assert(s2.last() == seg[0]);
    assert(s2.drop_last().len() == 0);
    assert(delete_requests(path)[0] == Request::Execute(DELETE_FOLDER_SONGS@, params));
    assert(delete_requests(path)[1] == Request::Execute(DELETE_FOLDER_SONG_COVERS@, params));
    assert(delete_requests(path)[2] == Request::Execute(DELETE_COVER@, params));
    assert(delete_requests(path)[3] == Request::Execute(DELETE_FOLDER@, params));
    assert(seg[0].request == delete_requests(path)[0]);
    assert(seg[1].request == delete_requests(path)[1]);
    assert(seg[2].request == delete_requests(path)[2]);
    assert(seg[3].request == delete_requests(path)[3]);
    let t1 = tables(t, s2);
    assert(tables(t, s2.drop_last()) == t);
    assert(effect(t, seg[0]) == executed(t, DELETE_FOLDER_SONGS@, params));
    assert(t1 == without_songs(t, path));
    let t2 = tables(t, s1);
    assert(t2.songs == t1.songs && t2.folders == t.folders && t2.covers == t.covers);
    let t3 = tables(t, s0);
    assert(t3.covers == t.covers.remove(path) && t3.songs == t1.songs && t3.folders == t.folders);
    let t4 = tables(t, seg);
    assert(t4.folders == t.folders.remove(path));
    assert(t4.songs == songs_outside(t3, path));
    assert(t4.covers == t3.covers.remove(path));
    assert(t4.songs =~= t1.songs);
    assert(t2.song_covers =~= t1.song_covers);
    assert(t4.song_covers =~= covers_left(t, t4.songs));
    if has_song(t4, path) {
        let s = choose|s: Seq<char>| #[trigger] is_song_in(t4, path, s);
        assert(t4.songs.contains_key(s));
    }
}

/// Removing a folder removes everything below it: afterwards the folder is gone with
/// its songs, their covers and its cover, and with every folder that is gone the folders in it
/// are gone too. Nothing is added, and what lies elsewhere stays.
pub proof fn removing_takes_all_below(t: Tables, levels: nat, path: Seq<char>, seg: Seq<Exchange>)
    requires
        delete_run(levels, path, true, seg),
        faithful(t, seg),
        went_through(seg),
        ends_within(t, levels, path),
    ensures
        is_gone(tables(t, seg), path),
        clean_cut(t, tables(t, seg)),
        forall|f: Seq<char>| t.folders.contains_key(f) && !(#[trigger] tables(
            t,
            seg,
        ).folders.contains_key(f)) ==> is_gone(tables(t, seg), f),
        gone_from_below(t, tables(t, seg), levels, seq![path]),
        forall|f: Seq<char>| #[trigger]
            lies_below(t, levels, path, f) ==> is_gone(tables(t, seg), f),
    decreases levels, 0nat,
{
    let n = seg.len() as int;
    let rows = rows_in(seg[0])->0;
    let children = first_texts(rows);
    let deep = (levels - 1) as nat;
    runs_split(t, seg, 1);
    one_exchange(t, seg.take(1));
    assert(seg.take(1)[0] == seg[0]);
    assert(tables(t, seg.take(1)) == t);
    query_lengths();
    rows_are_right(t, seg[0], CHILD_FOLDERS@, path);
    assert(forall|c: Seq<char>| #[trigger] children.contains(c) <==> is_child(t, path, c));
    let rest = seg.skip(1);
    let mid = seg.subrange(1, n - 4);
    let end = seg.skip(n - 4);
    runs_split(t, rest, n - 5);
    assert(rest.take(n - 5) =~= mid);
    assert(rest.skip(n - 5) =~= end);
    removing_several(t, deep, children, mid);
    let t1 = tables(t, mid);
    folder_goes(t1, path, end);
    let t2 = tables(t, seg);
    assert(t2 == tables(t1, end));
    less_chains(t, t1, t2);
    assert forall|f: Seq<char>| t.folders.contains_key(f) && !(
    #[trigger] t2.folders.contains_key(f)) implies is_gone(t2, f) by {
        if f != path {
            if t1.folders.contains_key(f) {
                assert(t2.folders.contains_key(f));
            }
            assert(!t1.folders.contains_key(f));
            assert(is_gone(t1, f));
            gone_stays_gone(t1, t2, f);
        }
    }
    assert forall|f: Seq<char>| below_some(t, deep, children, f) || f == path implies #[trigger]
        below_some(t, levels, seq![path], f) by {
        assert(seq![path][0] == path);
        assert(seq![path].contains(path));
        if f != path {
            let c = choose|c: Seq<char>| #[trigger]
                children.contains(c) && lies_below(t, deep, c, f);
            assert(is_child(t, path, c));
            assert(lies_below(t, levels, path, f));
        }
    }
    assert(gone_from_below(t, t2, levels, seq![path])) by {
        assert forall|s: Seq<char>| #[trigger]
            t.songs.contains_key(s) && !t2.songs.contains_key(s) implies below_some(
            t,
            levels,
            seq![path],
            t.songs[s].folder,
        ) by {
            if t1.songs.contains_key(s) {
                assert(t.songs[s].folder == path);
            }
        }
        assert forall|p: Seq<char>| #[trigger]
            t.covers.contains_key(p) && !t2.covers.contains_key(p) implies below_some(
            t,
            levels,
            seq![path],
            p,
        ) by {
            if t1.covers.contains_key(p) {
                assert(p == path);
            }
        }
        assert forall|f: Seq<char>| #[trigger]
            t.folders.contains_key(f) && !t2.folders.contains_key(f) implies below_some(
            t,
            levels,
            seq![path],
            f,
        ) by {
            if t1.folders.contains_key(f) {
                assert(f == path);
            }
        }
    }
    assert forall|f: Seq<char>, c: Seq<char>|
        t.folders.contains_key(f) && !t2.folders.contains_key(f) && #[trigger] is_child(
            t,
            f,
            c,
        ) implies is_gone(t2, c) by {
        if f == path {
            assert(children.contains(c));
            gone_stays_gone(t1, t2, c);
        } else {
            if t1.folders.contains_key(f) {
                assert(t2.folders.contains_key(f));
            }
            assert(is_gone(t1, c));
            gone_stays_gone(t1, t2, c);
        }
    }
    assert forall|f: Seq<char>| #[trigger] lies_below(t, levels, path, f) implies is_gone(t2, f) by {
        if f != path {
            let c = choose|c: Seq<char>| #[trigger]
                is_child(t, path, c) && lies_below(t, deep, c, f);
            assert(children.contains(c));
            assert(is_gone(t1, f));
            gone_stays_gone(t1, t2, f);
        }
    }
}

/// Removing several folders removes everything below them, and nothing else.
#[verifier::rlimit(60)]
#[verifier::spinoff_prover]
pub proof fn removing_several(
    t: Tables,
    levels: nat,
    children: Seq<Seq<char>>,
    seg: Seq<Exchange>,
)
    requires
        deletes_done(levels, children, seg),
        faithful(t, seg),
        went_through(seg),
        forall|c: Seq<char>| #[trigger] children.contains(c) ==> ends_within(t, levels, c),
    ensures
        clean_cut(t, tables(t, seg)),
        forall|f: Seq<char>| t.folders.contains_key(f) && !(#[trigger] tables(
            t,
            seg,
        ).folders.contains_key(f)) ==> is_gone(tables(t, seg), f),
        gone_from_below(t, tables(t, seg), levels, children),
        forall|c: Seq<char>, f: Seq<char>|
            children.contains(c) && #[trigger] lies_below(t, levels, c, f) ==> is_gone(
                tables(t, seg),
                f,
            ),
        forall|c: Seq<char>| #[trigger] children.contains(c) ==> is_gone(tables(t, seg), c),
    decreases levels, children.len() + 1,
{
    if children.len() > 0 {
        let init = children.drop_last();
        let last = children.last();
        let k = choose|k: int|
            0 <= k <= seg.len() && deletes_done(levels, init, #[trigger] seg.take(k))
                && delete_run(levels, last, true, seg.skip(k));
        runs_split(t, seg, k);
        assert forall|c: Seq<char>| #[trigger] init.contains(c) implies children.contains(c) by {
            let i = choose|i: int| 0 <= i < init.len() && init[i] == c;
            assert(children[i] == c);
        }
        removing_several(t, levels, init, seg.take(k));
        let t1 = tables(t, seg.take(k));
        assert(children[children.len() - 1] == last);
        assert(children.contains(last));
        less_ends(t, t1, levels, last);
        removing_takes_all_below(t1, levels, last, seg.skip(k));
        let t2 = tables(t, seg);
        assert(t2 == tables(t1, seg.skip(k)));
        clean_cuts_chain(t, t1, t2);
        assert forall|f: Seq<char>| t.folders.contains_key(f) && !(
        #[trigger] t2.folders.contains_key(f)) implies is_gone(t2, f) by {
            if !t1.folders.contains_key(f) {
                assert(is_gone(t1, f));
                gone_stays_gone(t1, t2, f);
            }
        }
        gone_adds_up(t, t1, t2, levels, children);
        assert forall|c: Seq<char>, f: Seq<char>|
            children.contains(c) && #[trigger] lies_below(t, levels, c, f) implies is_gone(
            t2,
            f,
        ) by {
            if c == last {
                below_is_left_or_gone(t, t1, levels, last, f);
                if !lies_below(t1, levels, last, f) {
                    gone_stays_gone(t1, t2, f);
                }
            } else {
                let i = choose|i: int| 0 <= i < children.len() && children[i] == c;
                assert(init[i] == c);
                assert(init.contains(c));
                assert(is_gone(t1, f));
                gone_stays_gone(t1, t2, f);
            }
        }
        assert forall|c: Seq<char>| #[trigger] children.contains(c) implies is_gone(t2, c) by {
            assert(lies_below(t, levels, c, c));
        }
    } else {
        assert(t.song_covers =~= covers_left(t, t.songs));
    }
}

proof fn gone_adds_up(
    a: Tables,
    b: Tables,
    c: Tables,
    levels: nat,
    children: Seq<Seq<char>>,
)
    requires
        children.len() > 0,
        only_less(a, b),
        gone_from_below(a, b, levels, children.drop_last()),
        gone_from_below(b, c, levels, seq![children.last()]),
    ensures
        gone_from_below(a, c, levels, children),
{
    let init = children.drop_last();
    let last = children.last();
    assert forall|f: Seq<char>| below_some(a, levels, init, f) || below_some(
        b,
        levels,
        seq![last],
        f,
    ) implies #[trigger] below_some(a, levels, children, f) by {
        if below_some(a, levels, init, f) {
            let x = choose|x: Seq<char>| #[trigger] init.contains(x) && lies_below(a, levels, x, f);
            let i = choose|i: int| 0 <= i < init.len() && init[i] == x;
            assert(children[i] == x);
            assert(children.contains(x));
        } else {
            let x = choose|x: Seq<char>| #[trigger]
                seq![last].contains(x) && lies_below(b, levels, x, f);
            assert(x == last);
            less_below(a, b, levels, last, f);
            assert(children[children.len() - 1] == last);
            assert(children.contains(last));
        }
    }
    assert forall|s: Seq<char>| #[trigger]
        a.songs.contains_key(s) && !c.songs.contains_key(s) implies below_some(
        a,
        levels,
        children,
        a.songs[s].folder,
    ) by {
        if b.songs.contains_key(s) {
            assert(b.songs[s] == a.songs[s]);
        }
    }
    assert forall|p: Seq<char>| #[trigger]
        a.covers.contains_key(p) && !c.covers.contains_key(p) implies below_some(
        a,
        levels,
        children,
        p,
    ) by {
        if b.covers.contains_key(p) {
        }
    }
    assert forall|f: Seq<char>| #[trigger]
        a.folders.contains_key(f) && !c.folders.contains_key(f) implies below_some(
        a,
        levels,
        children,
        f,
    ) by {
        if b.folders.contains_key(f) {
        }
    }
}

proof fn less_below(a: Tables, b: Tables, levels: nat, path: Seq<char>, f: Seq<char>)
    requires
        only_less(a, b),
        lies_below(b, levels, path, f),
    ensures
        lies_below(a, levels, path, f),
    decreases levels,
{
    if f != path {
        let c = choose|c: Seq<char>| #[trigger]
            is_child(b, path, c) && lies_below(b, (levels - 1) as nat, c, f);
        assert(b.folders.contains_key(c));
        assert(is_child(a, path, c));
        less_below(a, b, (levels - 1) as nat, c, f);
    }
}

proof fn below_is_left_or_gone(a: Tables, b: Tables, levels: nat, path: Seq<char>, f: Seq<char>)
    requires
        clean_cut(a, b),
        forall|g: Seq<char>| a.folders.contains_key(g) && !(#[trigger] b.folders.contains_key(g))
            ==> is_gone(b, g),
        lies_below(a, levels, path, f),
    ensures
        lies_below(b, levels, path, f) || is_gone(b, f),
    decreases levels,
{
    if f != path {
        let c = choose|c: Seq<char>| #[trigger]
            is_child(a, path, c) && lies_below(a, (levels - 1) as nat, c, f);
        below_is_left_or_gone(a, b, (levels - 1) as nat, c, f);
        if b.folders.contains_key(c) {
            assert(is_child(b, path, c));
        } else {
            all_below_gone(a, b, (levels - 1) as nat, c, f);
        }
    }
}

proof fn all_below_gone(a: Tables, b: Tables, levels: nat, path: Seq<char>, f: Seq<char>)
    requires
        clean_cut(a, b),
        a.folders.contains_key(path),
        is_gone(b, path),
        lies_below(a, levels, path, f),
    ensures
        is_gone(b, f),
    decreases levels,
{
    if f != path {
        let c = choose|c: Seq<char>| #[trigger]
            is_child(a, path, c) && lies_below(a, (levels - 1) as nat, c, f);
        assert(is_gone(b, c));
        all_below_gone(a, b, (levels - 1) as nat, c, f);
    }
}

} // verus!
