//! What a deep scan leaves does not depend on when it is made, nor on whether it is
//! reported: scans that begin alike and find the same on disk end alike.
use crate::deep_promises::{scan_part, went_deep, went_on, Deep};
use crate::deep_scan::{advanced, finish_run, FolderState, Walk};
use crate::folder_tree::{flags_run, MAX_LEVELS};
use crate::records::{Folder, Found};
use crate::rings::flags_that_end_met_no_ring;
use crate::scan::{audio_files_in, entries_of, folder_paths, found_paths, subfolders_in};
use crate::scan_promises::{
    entered, entries_make_a_listing, has_row, is_listing, is_lost, lie_in, matches_disk, own_row,
    row_left, scan_matches_disk, stays_known, subs_entered,
};
use crate::scanning::scan_run;
use crate::store::Exchange;
use crate::tables::{faithful, is_child, runs_split, tables, went_through, FolderRow, Tables};
use crate::tree_promises::{
    flag_is_set, flagged_right, flags_say_where_sound_is, lies_below, same_below, same_children,
    same_flag, same_shape, same_shape_swaps, same_sound,
};
use vstd::prelude::*;

verus! {

/// Whether tables differ at most in the times at which folders were scanned.
pub open spec fn alike(a: Tables, b: Tables) -> bool {
    &&& b == Tables { folders: b.folders, ..a }
    &&& a.folders.dom() == b.folders.dom()
    &&& forall|f: Seq<char>|
        a.folders.contains_key(f) ==> (#[trigger] b.folders[f]) == (FolderRow {
            scanned_at: b.folders[f].scanned_at,
            ..a.folders[f]
        })
}

proof fn subs_enter_alike(a: Tables, b: Tables, path: Seq<char>, subs: Seq<Folder>)
    requires
        alike(a, b),
    ensures
        alike(subs_entered(a, path, subs), subs_entered(b, path, subs)),
    decreases subs.len(),
{
    if subs.len() > 0 {
        let init = subs.drop_last();
        let last = subs.last();
        subs_enter_alike(a, b, path, init);
        let a1 = subs_entered(a, path, init);
        let b1 = subs_entered(b, path, init);
        let a2 = subs_entered(a, path, subs);
        let b2 = subs_entered(b, path, subs);
        assert(a1.folders.contains_key(last.path) == b1.folders.contains_key(last.path));
        if a1.folders.contains_key(last.path) {
            assert(b1.folders[last.path].mtime == a1.folders[last.path].mtime);
        }
        assert(a2.folders.dom() =~= b2.folders.dom());
        assert forall|f: Seq<char>| a2.folders.contains_key(f) implies (#[trigger] b2.folders[f])
            == (FolderRow { scanned_at: b2.folders[f].scanned_at, ..a2.folders[f] }) by {
            if f != last.path {
                assert(a1.folders.contains_key(f));
                assert(b1.folders[f].mtime == a1.folders[f].mtime);
            }
        }
    }
}

proof fn folders_enter_alike(
    a: Tables,
    b: Tables,
    path: Seq<char>,
    row: FolderRow,
    other: FolderRow,
    subs: Seq<Folder>,
)
    requires
        alike(a, b),
        other == (FolderRow { scanned_at: other.scanned_at, ..row }),
    ensures
        alike(entered(a, path, row, subs), entered(b, path, other, subs)),
{
    let a0 = Tables { folders: a.folders.insert(path, row), ..a };
    let b0 = Tables { folders: b.folders.insert(path, other), ..b };
    assert(a0.folders.dom() =~= b0.folders.dom());
    assert forall|f: Seq<char>| a0.folders.contains_key(f) implies (#[trigger] b0.folders[f]) == (
    FolderRow { scanned_at: b0.folders[f].scanned_at, ..a0.folders[f] }) by {
        if f != path {
            assert(a.folders.contains_key(f));
            assert(b.folders[f].mtime == a.folders[f].mtime);
        }
    }
    subs_enter_alike(a0, b0, path, subs);
}

proof fn lost_from_same_shape(
    a: Tables,
    b: Tables,
    path: Seq<char>,
    subs: Seq<Folder>,
    f: Seq<char>,
)
    requires
        same_shape(a, b),
        is_lost(a, path, subs, f),
    ensures
        is_lost(b, path, subs, f),
{
    let all = MAX_LEVELS as nat;
    let c = choose|c: Seq<char>| #[trigger]
        is_child(a, path, c) && !folder_paths(subs).contains(c) && lies_below(a, all, c, f);
    same_children(a, b);
    same_below(a, b, all, c, f);
    assert(is_child(b, path, c));
}

proof fn lost_alike(a: Tables, b: Tables, path: Seq<char>, subs: Seq<Folder>, f: Seq<char>)
    requires
        alike(a, b),
    ensures
        is_lost(a, path, subs, f) == is_lost(b, path, subs, f),
{
    assert(same_shape(a, b));
    same_shape_swaps(a, b);
    if is_lost(a, path, subs, f) {
        lost_from_same_shape(a, b, path, subs, f);
    }
    if is_lost(b, path, subs, f) {
        lost_from_same_shape(b, a, path, subs, f);
    }
}

proof fn matches_end_alike(
    kept: Tables,
    after: Tables,
    other_kept: Tables,
    other_after: Tables,
    path: Seq<char>,
    subs: Seq<Folder>,
    songs: Seq<Found>,
)
    requires
        alike(kept, other_kept),
        matches_disk(kept, after, path, subs, songs),
        matches_disk(other_kept, other_after, path, subs, songs),
    ensures
        alike(after, other_after),
{
    assert forall|f: Seq<char>| #[trigger] is_lost(kept, path, subs, f) == is_lost(
        other_kept,
        path,
        subs,
        f,
    ) by {
        lost_alike(kept, other_kept, path, subs, f);
    }
    assert forall|s: Seq<char>| #[trigger] stays_known(kept, path, subs, songs, s) == stays_known(
        other_kept,
        path,
        subs,
        songs,
        s,
    ) by {}
    assert forall|f: Seq<char>| #[trigger] after.folders.contains_key(f)
        == other_after.folders.contains_key(f) by {
        assert(kept.folders.contains_key(f) == other_kept.folders.contains_key(f));
        assert(is_lost(kept, path, subs, f) == is_lost(other_kept, path, subs, f));
    }
    assert(after.folders.dom() =~= other_after.folders.dom());
    assert forall|f: Seq<char>| after.folders.contains_key(f) implies (
    #[trigger] other_after.folders[f]) == (FolderRow {
        scanned_at: other_after.folders[f].scanned_at,
        ..after.folders[f]
    }) by {
        assert(other_after.folders.contains_key(f));
        assert(kept.folders.contains_key(f));
        assert(other_kept.folders[f].mtime == kept.folders[f].mtime);
    }
    assert forall|f: Seq<char>| #[trigger] after.covers.contains_key(f)
        == other_after.covers.contains_key(f) by {
        assert(is_lost(kept, path, subs, f) == is_lost(other_kept, path, subs, f));
    }
    assert(after.covers =~= other_after.covers);
    assert forall|s: Seq<char>| #[trigger]
        after.songs.contains_key(s) == other_after.songs.contains_key(s) && after.songs[s]
        == other_after.songs[s] || !after.songs.contains_key(s) by {
        if found_paths(songs).contains(s) {
            let i = choose|i: int| 0 <= i < songs.len() && found_paths(songs)[i] == s;
            let song = songs[i];
            assert(has_row(after, row_left(kept, path, subs, songs, song.path), path, song));
            assert(has_row(
                other_after,
                row_left(other_kept, path, subs, songs, song.path),
                path,
                song,
            ));
            assert(stays_known(kept, path, subs, songs, s) == stays_known(
                other_kept,
                path,
                subs,
                songs,
                s,
            ));
        } else {
            assert(stays_known(kept, path, subs, songs, s) == stays_known(
                other_kept,
                path,
                subs,
                songs,
                s,
            ));
        }
    }
    assert forall|s: Seq<char>| #[trigger] other_after.songs.contains_key(
        s,
    ) implies after.songs.contains_key(s) by {
        if found_paths(songs).contains(s) {
            let i = choose|i: int| 0 <= i < songs.len() && found_paths(songs)[i] == s;
            let song = songs[i];
            assert(has_row(after, row_left(kept, path, subs, songs, song.path), path, song));
        } else {
            assert(stays_known(kept, path, subs, songs, s) == stays_known(
                other_kept,
                path,
                subs,
                songs,
                s,
            ));
        }
    }
    assert(after.songs =~= other_after.songs);
    assert(after.song_covers =~= other_after.song_covers);
}

/// Scans of a folder that begin alike and find the same on disk end alike: only the times
/// at which folders were scanned may differ. The scans came to their end.
pub proof fn scans_end_alike(
    a: Tables,
    b: Tables,
    path: Seq<char>,
    parent: Option<Seq<char>>,
    mtime: int,
    subs: Seq<Folder>,
    songs: Seq<Found>,
    now: int,
    later: int,
    seg: Seq<Exchange>,
    other: Seq<Exchange>,
)
    requires
        alike(a, b),
        scan_run(path, parent, mtime, subs, songs, now, true, seg),
        scan_run(path, parent, mtime, subs, songs, later, true, other),
        faithful(a, seg),
        went_through(seg),
        faithful(b, other),
        went_through(other),
        is_listing(path, subs, songs),
        seg.len() < MAX_LEVELS,
        other.len() < MAX_LEVELS,
    ensures
        alike(tables(a, seg), tables(b, other)),
{
    let row = own_row(path, parent, mtime, songs.len() > 0, now);
    let later_row = own_row(path, parent, mtime, songs.len() > 0, later);
    folders_enter_alike(a, b, path, row, later_row, subs);
    scan_matches_disk(a, path, parent, mtime, subs, songs, now, seg);
    scan_matches_disk(b, path, parent, mtime, subs, songs, later, other);
    matches_end_alike(
        entered(a, path, row, subs),
        tables(a, seg),
        entered(b, path, later_row, subs),
        tables(b, other),
        path,
        subs,
        songs,
    );
}

proof fn flags_end_alike(
    a: Tables,
    b: Tables,
    root: Seq<char>,
    seg: Seq<Exchange>,
    other: Seq<Exchange>,
)
    requires
        alike(a, b),
        flags_run(MAX_LEVELS as nat, root, true, seg),
        flags_run(MAX_LEVELS as nat, root, true, other),
        faithful(a, seg),
        went_through(seg),
        faithful(b, other),
        went_through(other),
        seg.len() < MAX_LEVELS,
        other.len() < MAX_LEVELS,
    ensures
        alike(tables(a, seg), tables(b, other)),
{
    let all = MAX_LEVELS as nat;
    let a2 = tables(a, seg);
    let b2 = tables(b, other);
    flags_that_end_met_no_ring(a, all, root, seg);
    flags_that_end_met_no_ring(b, all, root, other);
    flags_say_where_sound_is(a, all, root, seg);
    flags_say_where_sound_is(b, all, root, other);
    assert(same_shape(a, b));
    assert(same_shape(a, a2));
    assert(same_shape(b, b2));
    same_shape_swaps(a, b);
    assert(a2.folders.dom() =~= b2.folders.dom());
    assert forall|f: Seq<char>| a2.folders.contains_key(f) implies (#[trigger] b2.folders[f]) == (
    FolderRow { scanned_at: b2.folders[f].scanned_at, ..a2.folders[f] }) by {
        assert(a.folders.contains_key(f));
        assert(b.folders.contains_key(f));
        assert(b.folders[f].mtime == a.folders[f].mtime);
        assert(a2.folders[f].mtime == a.folders[f].mtime);
        assert(b2.folders[f].mtime == b.folders[f].mtime);
        if lies_below(a, all, root, f) {
            same_below(a, b, all, root, f);
            assert(flagged_right(a2, f) && flagged_right(b2, f));
            assert(flag_is_set(a2, f) && flag_is_set(b2, f));
            same_sound(a, a2, f);
            same_sound(a, b, f);
            same_sound(b, b2, f);
        } else {
            if lies_below(b, all, root, f) {
                same_below(b, a, all, root, f);
            }
            assert(same_flag(a, a2, f));
            assert(same_flag(b, b2, f));
        }
    }
}

proof fn finishes_end_alike(
    a: Tables,
    b: Tables,
    walk: Walk,
    seg: Seq<Exchange>,
    other: Seq<Exchange>,
)
    requires
        alike(a, b),
        finish_run(walk, true, seg),
        finish_run(walk, true, other),
        faithful(a, seg),
        went_through(seg),
        faithful(b, other),
        went_through(other),
        seg.len() < MAX_LEVELS,
        other.len() < MAX_LEVELS,
    ensures
        alike(tables(a, seg), tables(b, other)),
{
    if walk.stack.len() == 0 {
        flags_end_alike(a, b, walk.root, seg, other);
    }
}

/// Whether a folder was found as a folder on disk can be.
pub open spec fn is_listed(path: Seq<char>, state: FolderState) -> bool {
    state matches FolderState::Listed(dir) ==> lie_in(path, entries_of(dir.entries@))
}

/// Whether a deep scan went through, found folders as they can be on disk, and came to
/// the end of each step.
pub open spec fn went_well(deep: Deep, path: Seq<char>, parent: Option<Seq<char>>) -> bool {
    &&& went_deep(deep, path, parent)
    &&& forall|i: int|
        0 <= i < deep.states.len() ==> is_listed(
            deep.walks[i].stack.last().path,
            #[trigger] deep.states[i],
        ) && deep.segs[i].len() < MAX_LEVELS
}

proof fn steps_end_alike(
    a: Deep,
    b: Deep,
    path: Seq<char>,
    parent: Option<Seq<char>>,
    n: int,
)
    requires
        went_well(a, path, parent),
        went_well(b, path, parent),
        a.states == b.states,
        alike(a.held[0], b.held[0]),
        0 <= n <= a.states.len(),
    ensures
        a.walks[n] == b.walks[n],
        alike(a.held[n], b.held[n]),
    decreases n,
{
    if n > 0 {
        let i = n - 1;
        steps_end_alike(a, b, path, parent, i);
        assert(went_on(a, i));
        assert(went_on(b, i));
        let walk = a.walks[i];
        let state = a.states[i];
        assert(b.states[i] == state);
        assert(is_listed(walk.stack.last().path, state) && a.segs[i].len() < MAX_LEVELS);
        assert(is_listed(walk.stack.last().path, b.states[i]) && b.segs[i].len() < MAX_LEVELS);
        let seg = a.segs[i];
        let other = b.segs[i];
        let next = advanced(walk, state);
        let k = scan_part(walk, state, a.nows[i], seg);
        let m = scan_part(walk, state, b.nows[i], other);
        runs_split(a.held[i], seg, k);
        runs_split(b.held[i], other, m);
        let a1 = tables(a.held[i], seg.take(k));
        let b1 = tables(b.held[i], other.take(m));
        match state {
            FolderState::Listed(dir) => {
                entries_make_a_listing(walk.stack.last().path, entries_of(dir.entries@));
                scans_end_alike(
                    a.held[i],
                    b.held[i],
                    walk.stack.last().path,
                    walk.stack.last().parent,
                    dir.mtime as int,
                    subfolders_in(entries_of(dir.entries@)),
                    audio_files_in(entries_of(dir.entries@)),
                    a.nows[i],
                    b.nows[i],
                    seg.take(k),
                    other.take(m),
                );
            },
            _ => {
                assert(seg.take(0).len() == 0);
                assert(other.take(0).len() == 0);
                assert(seg.skip(0) =~= seg);
                assert(other.skip(0) =~= other);
            },
        }
        finishes_end_alike(a1, b1, next, seg.skip(k), other.skip(m));
    }
}

/// A deep scan with reports leaves the tables as one without: deep scans that begin alike
/// and find the same on disk end alike. They go through the same folders, and only the
/// times at which folders were scanned may differ.
pub proof fn deep_scans_end_alike(a: Deep, b: Deep, path: Seq<char>, parent: Option<Seq<char>>)
    requires
        went_well(a, path, parent),
        went_well(b, path, parent),
        a.states == b.states,
        alike(a.held[0], b.held[0]),
    ensures
        a.walks == b.walks,
        alike(a.held.last(), b.held.last()),
{
    assert forall|n: int| 0 <= n < a.walks.len() implies a.walks[n] == b.walks[n] by {
        steps_end_alike(a, b, path, parent, n);
    }
    assert(a.walks =~= b.walks);
    steps_end_alike(a, b, path, parent, a.states.len() as int);
}

} // verus!
