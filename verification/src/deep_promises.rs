//! What the library promises of a deep scan, where its database answers faithfully:
//! afterwards it knows of every folder that was listed what lies in it on disk.
use crate::deep_scan::{
    advanced, begun_walk, finish_run, folder_run, step_run, stepped, FolderState, Walk,
};
use crate::folder_tree::MAX_LEVELS;
use crate::records::{Folder, Found};
use crate::rings::parent_lies_below;
use crate::scan::{audio_files_in, entries_of, folder_paths, found_paths, subfolders_in, DirListing};
use crate::scan_promises::{
    entered, entering_changes_their_rows, found_songs_are_those_of_the_folder, is_listing, is_lost,
    known_here, matches_disk, own_row, scan_matches_disk, stays_known,
};
use crate::scanning::scan_run;
use crate::store::Exchange;
use crate::tables::{faithful, is_child, is_song_in, runs_split, tables, went_through, Tables};
use crate::tree_promises::{
    ends_within, flagged_right, flags_say_where_sound_is, lies_below, same_below, same_children,
    same_tree_swaps,
};
use vstd::prelude::*;

verus! {

/// What lies where on disk: the folder that a folder lies in, the folder that a song
/// lies in, how deep a folder lies, and the folders and the songs in a folder.
pub struct Disk {
    pub home: spec_fn(Seq<char>) -> Option<Seq<char>>,
    pub lies: spec_fn(Seq<char>) -> Seq<char>,
    pub depth: spec_fn(Seq<char>) -> nat,
    pub tree: spec_fn(Seq<char>) -> Seq<Folder>,
    pub files: spec_fn(Seq<char>) -> Seq<Found>,
}

/// Whether the folders of a disk lie in one another without a ring, each in the
/// folder that holds it, and each song is in its folder once.
pub open spec fn is_orderly(disk: Disk) -> bool {
    &&& forall|f: Seq<char>| #[trigger] (disk.depth)(f) < MAX_LEVELS
    &&& forall|f: Seq<char>|
        (#[trigger] (disk.home)(f)) matches Some(p) ==> (disk.depth)(p) < (disk.depth)(f)
    &&& forall|p: Seq<char>, c: Seq<char>| #[trigger]
        folder_paths((disk.tree)(p)).contains(c) ==> (disk.home)(c) == Some(p)
    &&& forall|p: Seq<char>, s: Seq<char>| #[trigger]
        found_paths((disk.files)(p)).contains(s) ==> (disk.lies)(s) == p
    &&& forall|p: Seq<char>| (#[trigger] found_paths((disk.files)(p))).no_duplicates()
    &&& forall|p: Seq<char>| (#[trigger] folder_paths((disk.tree)(p))).no_duplicates()
}

/// Whether the library knows every folder and every song where they lie on disk.
pub open spec fn is_placed(t: Tables, disk: Disk) -> bool {
    &&& forall|f: Seq<char>| #[trigger]
        t.folders.contains_key(f) ==> t.folders[f].parent == (disk.home)(f)
    &&& forall|s: Seq<char>| #[trigger]
        t.songs.contains_key(s) ==> t.songs[s].folder == (disk.lies)(s)
}

/// Whether a folder was found as it is on disk. In one that cannot be listed there is
/// nothing to be found.
pub open spec fn found_as(disk: Disk, path: Seq<char>, state: FolderState) -> bool {
    match state {
        FolderState::Listed(dir) => {
            &&& subfolders_in(entries_of(dir.entries@)) == (disk.tree)(path)
            &&& audio_files_in(entries_of(dir.entries@)) == (disk.files)(path)
        },
        _ => (disk.tree)(path).len() == 0,
    }
}

/// Whether the library knows of a folder what lies in it on disk.
pub open spec fn is_shown(t: Tables, disk: Disk, path: Seq<char>) -> bool {
    &&& t.folders.contains_key(path)
    &&& forall|c: Seq<char>| #[trigger]
        is_child(t, path, c) <==> folder_paths((disk.tree)(path)).contains(c)
    &&& forall|s: Seq<char>| #[trigger]
        is_song_in(t, path, s) <==> found_paths((disk.files)(path)).contains(s)
}

/// The stages of a deep scan: how far it had come, how its next folder was found and
/// when, which exchanges were made for it, and what the tables held.
pub struct Deep {
    pub walks: Seq<Walk>,
    pub states: Seq<FolderState>,
    pub nows: Seq<int>,
    pub segs: Seq<Seq<Exchange>>,
    pub held: Seq<Tables>,
}

/// Whether a step of a deep scan went through, and was answered faithfully.
pub open spec fn went_on(deep: Deep, i: int) -> bool {
    let walk = deep.walks[i];
    &&& walk.stack.len() > 0
    &&& deep.walks[i + 1] == advanced(walk, deep.states[i])
    &&& step_run(walk, deep.states[i], deep.nows[i], true, deep.segs[i])
    &&& faithful(deep.held[i], deep.segs[i])
    &&& went_through(deep.segs[i])
    &&& deep.held[i + 1] == tables(deep.held[i], deep.segs[i])
}

/// Whether a deep scan went through, from its beginning at a folder to its end.
pub open spec fn went_deep(deep: Deep, path: Seq<char>, parent: Option<Seq<char>>) -> bool {
    let n = deep.states.len() as int;
    &&& deep.walks.len() == n + 1
    &&& deep.nows.len() == n
    &&& deep.segs.len() == n
    &&& deep.held.len() == n + 1
    &&& deep.walks[0] == begun_walk(path, parent)
    &&& forall|i: int| 0 <= i < n ==> #[trigger] went_on(deep, i)
    &&& deep.walks[n].stack.len() == 0
}

/// Whether a deep scan went through where every folder was found as it is on disk.
pub open spec fn deeply_scanned(
    deep: Deep,
    disk: Disk,
    path: Seq<char>,
    parent: Option<Seq<char>>,
) -> bool {
    &&& went_deep(deep, path, parent)
    &&& forall|i: int|
        0 <= i < deep.states.len() ==> found_as(
            disk,
            deep.walks[i].stack.last().path,
            #[trigger] deep.states[i],
        )
}

/// The folder that a step of a deep scan deals with.
pub open spec fn dealt_with(deep: Deep, i: int) -> Seq<char> {
    deep.walks[i].stack.last().path
}

/// Whether a folder was dealt with in one of the first steps.
pub open spec fn was_visited(deep: Deep, n: int, f: Seq<char>) -> bool {
    exists|i: int| 0 <= i < n && #[trigger] dealt_with(deep, i) == f
}

/// Whether a folder is the one where a scan began, or was found in one that was dealt
/// with.
pub open spec fn was_met(deep: Deep, disk: Disk, root: Seq<char>, n: int, f: Seq<char>) -> bool {
    f == root || ((disk.home)(f) matches Some(p) && was_visited(deep, n, p) && folder_paths(
        (disk.tree)(p),
    ).contains(f))
}

proof fn placed_ends(t: Tables, disk: Disk, levels: nat, path: Seq<char>)
    requires
        is_orderly(disk),
        is_placed(t, disk),
        levels + (disk.depth)(path) >= MAX_LEVELS,
    ensures
        ends_within(t, levels, path),
    decreases levels,
{
    assert((disk.depth)(path) < MAX_LEVELS);
    assert forall|c: Seq<char>| #[trigger] is_child(t, path, c) implies ends_within(
        t,
        (levels - 1) as nat,
        c,
    ) by {
        assert(t.folders.contains_key(c));
        assert((disk.home)(c) == Some(path));
        placed_ends(t, disk, (levels - 1) as nat, c);
    }
}

proof fn below_lies_deeper(t: Tables, disk: Disk, levels: nat, top: Seq<char>, f: Seq<char>)
    requires
        is_orderly(disk),
        is_placed(t, disk),
        lies_below(t, levels, top, f),
    ensures
        (disk.depth)(top) <= (disk.depth)(f),
        f != top ==> exists|g: Seq<char>| #[trigger] is_child(t, g, f),
    decreases levels,
{
    if f != top {
        let c = choose|c: Seq<char>| #[trigger]
            is_child(t, top, c) && lies_below(t, (levels - 1) as nat, c, f);
        assert(t.folders.contains_key(c));
        assert((disk.home)(c) == Some(top));
        below_lies_deeper(t, disk, (levels - 1) as nat, c, f);
    }
}

proof fn met_is_not_below_lost(
    t: Tables,
    deep: Deep,
    disk: Disk,
    root: Seq<char>,
    n: int,
    path: Seq<char>,
    c: Seq<char>,
    f: Seq<char>,
)
    requires
        is_orderly(disk),
        is_placed(t, disk),
        forall|p: Seq<char>| #[trigger] was_visited(deep, n, p) ==> was_met(deep, disk, root, n, p),
        (disk.depth)(path) >= (disk.depth)(root),
        is_child(t, path, c),
        !folder_paths((disk.tree)(path)).contains(c),
        was_met(deep, disk, root, n, f),
    ensures
        !lies_below(t, MAX_LEVELS as nat, c, f),
    decreases (disk.depth)(f),
{
    let all = MAX_LEVELS as nat;
    assert(t.folders.contains_key(c));
    assert((disk.home)(c) == Some(path));
    if lies_below(t, all, c, f) && f != c {
        below_lies_deeper(t, disk, all, c, f);
        let g = choose|g: Seq<char>| #[trigger] is_child(t, g, f);
        assert(t.folders.contains_key(f));
        assert((disk.home)(f) == Some(g));
        parent_lies_below(t, all, c, f, g);
        below_lies_deeper(t, disk, all, c, g);
        if f != root {
            assert(was_visited(deep, n, g));
            met_is_not_below_lost(t, deep, disk, root, n, path, c, g);
        }
    }
}

proof fn met_is_not_lost(
    t: Tables,
    deep: Deep,
    disk: Disk,
    root: Seq<char>,
    n: int,
    path: Seq<char>,
    f: Seq<char>,
)
    requires
        is_orderly(disk),
        is_placed(t, disk),
        forall|p: Seq<char>| #[trigger] was_visited(deep, n, p) ==> was_met(deep, disk, root, n, p),
        (disk.depth)(path) >= (disk.depth)(root),
        was_met(deep, disk, root, n, f),
    ensures
        !is_lost(t, path, (disk.tree)(path), f),
{
    let all = MAX_LEVELS as nat;
    if is_lost(t, path, (disk.tree)(path), f) {
        let c = choose|c: Seq<char>| #[trigger]
            is_child(t, path, c) && !folder_paths((disk.tree)(path)).contains(c) && lies_below(
                t,
                all,
                c,
                f,
            );
        met_is_not_below_lost(t, deep, disk, root, n, path, c, f);
    }
}

/// The tables with a scanned folder and the folders found in it entered.
spec fn kept_of(t: Tables, disk: Disk, path: Seq<char>, mtime: int, now: int) -> Tables {
    entered(
        t,
        path,
        own_row(path, (disk.home)(path), mtime, (disk.files)(path).len() > 0, now),
        (disk.tree)(path),
    )
}

proof fn entered_is_placed(t: Tables, disk: Disk, path: Seq<char>, mtime: int, now: int)
    requires
        is_orderly(disk),
        is_placed(t, disk),
    ensures
        is_placed(kept_of(t, disk, path, mtime, now), disk),
        forall|f: Seq<char>| #[trigger]
            kept_of(t, disk, path, mtime, now).folders.contains_key(f) <==> {
                ||| t.folders.contains_key(f)
                ||| f == path
                ||| folder_paths((disk.tree)(path)).contains(f)
            },
        kept_of(t, disk, path, mtime, now) == (Tables {
            folders: kept_of(t, disk, path, mtime, now).folders,
            ..t
        }),
{
    let row = own_row(path, (disk.home)(path), mtime, (disk.files)(path).len() > 0, now);
    let subs = (disk.tree)(path);
    let t0 = Tables { folders: t.folders.insert(path, row), ..t };
    let kept = kept_of(t, disk, path, mtime, now);
    entering_changes_their_rows(t0, path, subs);
    assert forall|f: Seq<char>| #[trigger] kept.folders.contains_key(f) <==> {
        ||| t.folders.contains_key(f)
        ||| f == path
        ||| folder_paths(subs).contains(f)
    } by {
        if folder_paths(subs).contains(f) {
            assert(is_child(kept, path, f));
        } else {
            assert(kept.folders.contains_key(f) == t0.folders.contains_key(f));
        }
    }
    assert forall|f: Seq<char>| #[trigger] kept.folders.contains_key(f) implies kept.folders[f].parent
        == (disk.home)(f) by {
        if folder_paths(subs).contains(f) {
            assert(is_child(kept, path, f));
        } else {
            assert(kept.folders.contains_key(f) == t0.folders.contains_key(f));
            if f != path {
                assert(t.folders.contains_key(f));
            }
        }
    }
}

proof fn scan_is_placed(
    t: Tables,
    disk: Disk,
    path: Seq<char>,
    mtime: int,
    now: int,
    seg: Seq<Exchange>,
)
    requires
        is_orderly(disk),
        is_placed(t, disk),
        scan_run(
            path,
            (disk.home)(path),
            mtime,
            (disk.tree)(path),
            (disk.files)(path),
            now,
            true,
            seg,
        ),
        faithful(t, seg),
        went_through(seg),
    ensures
        is_placed(tables(t, seg), disk),
        is_shown(tables(t, seg), disk, path),
        matches_disk(
            kept_of(t, disk, path, mtime, now),
            tables(t, seg),
            path,
            (disk.tree)(path),
            (disk.files)(path),
        ),
{
    let songs = (disk.files)(path);
    let subs = (disk.tree)(path);
    let kept = kept_of(t, disk, path, mtime, now);
    let after = tables(t, seg);
    entered_is_placed(t, disk, path, mtime, now);
    assert forall|c: Seq<char>| #[trigger] is_child(kept, path, c) && !folder_paths(subs).contains(
        c,
    ) implies ends_within(kept, MAX_LEVELS as nat, c) by {
        placed_ends(kept, disk, MAX_LEVELS as nat, c);
    }
    assert(known_here(kept, path, songs)) by {
        assert forall|i: int|
            0 <= i < songs.len() && kept.songs.contains_key(
                (#[trigger] songs[i]).path,
            ) implies kept.songs[songs[i].path].folder == path by {
            assert(found_paths(songs)[i] == songs[i].path);
            assert(found_paths(songs).contains(songs[i].path));
        }
    }
    assert(is_listing(path, subs, songs)) by {
        assert(found_paths(songs).no_duplicates());
        assert(folder_paths(subs).no_duplicates());
        if folder_paths(subs).contains(path) {
            assert((disk.home)(path) == Some(path));
        }
    }
    scan_matches_disk(t, path, (disk.home)(path), mtime, subs, songs, now, seg);
    found_songs_are_those_of_the_folder(kept, after, path, subs, songs);
    assert forall|f: Seq<char>| #[trigger] after.folders.contains_key(
        f,
    ) implies after.folders[f].parent == (disk.home)(f) by {
        assert(kept.folders.contains_key(f));
    }
    assert forall|s: Seq<char>| #[trigger] after.songs.contains_key(s) implies after.songs[s].folder
        == (disk.lies)(s) by {
        if found_paths(songs).contains(s) {
            assert(is_song_in(after, path, s));
        } else {
            assert(stays_known(kept, path, subs, songs, s));
            assert(kept.songs.contains_key(s));
        }
    }
}

proof fn scan_leaves_shown(
    t: Tables,
    deep: Deep,
    disk: Disk,
    root: Seq<char>,
    n: int,
    path: Seq<char>,
    mtime: int,
    now: int,
    seg: Seq<Exchange>,
    p: Seq<char>,
)
    requires
        is_orderly(disk),
        is_placed(t, disk),
        scan_run(
            path,
            (disk.home)(path),
            mtime,
            (disk.tree)(path),
            (disk.files)(path),
            now,
            true,
            seg,
        ),
        faithful(t, seg),
        went_through(seg),
        forall|q: Seq<char>| #[trigger] was_visited(deep, n, q) ==> was_met(deep, disk, root, n, q),
        (disk.depth)(path) >= (disk.depth)(root),
        was_met(deep, disk, root, n, path),
        was_visited(deep, n, p),
        p != path,
        is_shown(t, disk, p),
    ensures
        is_shown(tables(t, seg), disk, p),
{
    let subs = (disk.tree)(path);
    let songs = (disk.files)(path);
    let kept = kept_of(t, disk, path, mtime, now);
    let after = tables(t, seg);
    scan_is_placed(t, disk, path, mtime, now, seg);
    entered_is_placed(t, disk, path, mtime, now);
    assert(was_met(deep, disk, root, n, p));
    met_is_not_lost(kept, deep, disk, root, n, path, p);
    assert(kept.folders.contains_key(p));
    assert(after.folders.contains_key(p));
    assert forall|c: Seq<char>| #[trigger] is_child(after, p, c) <==> folder_paths(
        (disk.tree)(p),
    ).contains(c) by {
        if folder_paths((disk.tree)(p)).contains(c) {
            assert((disk.home)(c) == Some(p));
            assert(was_met(deep, disk, root, n, c));
            met_is_not_lost(kept, deep, disk, root, n, path, c);
            assert(is_child(t, p, c));
            assert(kept.folders.contains_key(c));
            assert(after.folders.contains_key(c));
        }
        if is_child(after, p, c) {
            assert(after.folders.contains_key(c));
            assert(kept.folders.contains_key(c));
            assert((disk.home)(c) == Some(p));
            if t.folders.contains_key(c) {
                assert(is_child(t, p, c));
            } else if c == path {
                if path == root {
                    below_root_is_deeper(deep, disk, root, n, p);
                }
            } else {
                assert(folder_paths(subs).contains(c));
            }
        }
    }
    assert forall|s: Seq<char>| #[trigger] is_song_in(after, p, s) <==> found_paths(
        (disk.files)(p),
    ).contains(s) by {
        if found_paths(songs).contains(s) {
            assert((disk.lies)(s) == path);
            if found_paths((disk.files)(p)).contains(s) {
                assert((disk.lies)(s) == p);
            }
            if is_song_in(after, p, s) {
                assert(after.songs.contains_key(s));
            }
        } else {
            assert(is_song_in(t, p, s) <==> found_paths((disk.files)(p)).contains(s));
            assert(after.songs.contains_key(s) <==> stays_known(kept, path, subs, songs, s));
        }
    }
}

proof fn below_root_is_deeper(deep: Deep, disk: Disk, root: Seq<char>, n: int, p: Seq<char>)
    requires
        is_orderly(disk),
        forall|q: Seq<char>| #[trigger] was_visited(deep, n, q) ==> was_met(deep, disk, root, n, q),
        was_visited(deep, n, p),
    ensures
        (disk.depth)(root) <= (disk.depth)(p),
    decreases (disk.depth)(p),
{
    assert(was_met(deep, disk, root, n, p));
    if p != root {
        let q = (disk.home)(p)->0;
        below_root_is_deeper(deep, disk, root, n, q);
    }
}

/// What holds after the first steps of a deep scan.
spec fn so_far(deep: Deep, disk: Disk, root: Seq<char>, n: int) -> bool {
    &&& is_placed(deep.held[n], disk)
    &&& forall|p: Seq<char>| #[trigger] was_visited(deep, n, p) ==> was_met(deep, disk, root, n, p)
    &&& forall|k: int|
        0 <= k < deep.walks[n].stack.len() ==> {
            let todo = #[trigger] deep.walks[n].stack[k];
            &&& was_met(deep, disk, root, n, todo.path)
            &&& todo.parent == (disk.home)(todo.path)
            &&& (disk.depth)(todo.path) >= (disk.depth)(root)
        }
    &&& forall|i: int|
        0 <= i < n && deep.states[i] is Listed ==> is_shown(
            deep.held[n],
            disk,
            #[trigger] dealt_with(deep, i),
        )
    &&& deep.walks[n].root == root
}

proof fn visited_stay(deep: Deep, disk: Disk, root: Seq<char>, n: int)
    ensures
        forall|f: Seq<char>| #[trigger]
            was_visited(deep, n, f) ==> was_visited(deep, n + 1, f),
        forall|f: Seq<char>| #[trigger]
            was_met(deep, disk, root, n, f) ==> was_met(deep, disk, root, n + 1, f),
        forall|f: Seq<char>| #[trigger]
            was_visited(deep, n + 1, f) && f != dealt_with(deep, n) ==> was_visited(deep, n, f),
{
    assert forall|f: Seq<char>| #[trigger] was_visited(deep, n, f) implies was_visited(
        deep,
        n + 1,
        f,
    ) by {
        let i = choose|i: int| 0 <= i < n && #[trigger] dealt_with(deep, i) == f;
        assert(dealt_with(deep, i) == f);
    }
}

proof fn step_goes_on(deep: Deep, disk: Disk, root: Seq<char>, parent: Option<Seq<char>>, n: int)
    requires
        is_orderly(disk),
        deeply_scanned(deep, disk, root, parent),
        0 <= n < deep.states.len(),
        so_far(deep, disk, root, n),
    ensures
        so_far(deep, disk, root, n + 1),
        n + 1 == deep.states.len() ==> forall|f: Seq<char>| #[trigger]
            lies_below(deep.held[n + 1], MAX_LEVELS as nat, root, f) ==> flagged_right(
                deep.held[n + 1],
                f,
            ),
{
    let walk = deep.walks[n];
    let state = deep.states[n];
    let t = deep.held[n];
    let seg = deep.segs[n];
    let next = advanced(walk, state);
    assert(found_as(disk, walk.stack.last().path, state) && went_on(deep, n));
    let top = walk.stack[walk.stack.len() - 1];
    let path = top.path;
    assert(dealt_with(deep, n) == path);
    assert(was_visited(deep, n + 1, path));
    visited_stay(deep, disk, root, n);
    let k = scan_part(walk, state, deep.nows[n], seg);
    let mid = tables(t, seg.take(k));
    runs_split(t, seg, k);
    let after = deep.held[n + 1];
    assert(after == tables(mid, seg.skip(k)));
    match state {
        FolderState::Listed(dir) => {
            scan_is_placed(t, disk, path, dir.mtime as int, deep.nows[n], seg.take(k));
        },
        _ => {
            assert(seg.take(k).len() == 0);
            assert(seg.skip(0) =~= seg);
            assert(mid == t);
        },
    }
    assert forall|i: int| 0 <= i < n + 1 && deep.states[i] is Listed implies is_shown(
        mid,
        disk,
        #[trigger] dealt_with(deep, i),
    ) by {
        let p = dealt_with(deep, i);
        if i < n {
            assert(is_shown(t, disk, p));
            assert(was_visited(deep, n, p));
            match state {
                FolderState::Listed(dir) => {
                    if p != path {
                        scan_leaves_shown(
                            t,
                            deep,
                            disk,
                            root,
                            n,
                            path,
                            dir.mtime as int,
                            deep.nows[n],
                            seg.take(k),
                            p,
                        );
                    }
                },
                _ => {},
            }
        }
    }
    finish_leaves_shown(mid, disk, next, seg.skip(k));
    assert forall|i: int| 0 <= i < n + 1 && deep.states[i] is Listed implies is_shown(
        after,
        disk,
        #[trigger] dealt_with(deep, i),
    ) by {
        assert(is_shown(mid, disk, dealt_with(deep, i)));
    }
    assert forall|j: int| 0 <= j < next.stack.len() implies {
        let todo = #[trigger] next.stack[j];
        &&& was_met(deep, disk, root, n + 1, todo.path)
        &&& todo.parent == (disk.home)(todo.path)
        &&& (disk.depth)(todo.path) >= (disk.depth)(root)
    } by {
        let m = walk.stack.len() - 1;
        if j < m {
            assert(next.stack[j] == walk.stack[j]);
        } else {
            let subs = (disk.tree)(path);
            let at = subs.len() - 1 - (j - m);
            assert(next.stack[j].path == subs[at].path);
            assert(folder_paths(subs)[at] == subs[at].path);
            assert(folder_paths(subs).contains(subs[at].path));
            assert((disk.home)(subs[at].path) == Some(path));
        }
    }
}

/// How many of the exchanges of a step belong to the scan of its folder.
pub open spec fn scan_part(walk: Walk, state: FolderState, now: int, seg: Seq<Exchange>) -> int {
    match state {
        FolderState::Listed(dir) => choose|k: int|
            0 <= k <= seg.len() && folder_run(walk, dir, now, true, #[trigger] seg.take(k))
                && finish_run(advanced(walk, state), true, seg.skip(k)),
        _ => 0,
    }
}

proof fn finish_leaves_shown(t: Tables, disk: Disk, walk: Walk, seg: Seq<Exchange>)
    requires
        is_orderly(disk),
        is_placed(t, disk),
        finish_run(walk, true, seg),
        faithful(t, seg),
        went_through(seg),
    ensures
        is_placed(tables(t, seg), disk),
        forall|p: Seq<char>| #[trigger] is_shown(t, disk, p) ==> is_shown(tables(t, seg), disk, p),
        walk.stack.len() == 0 ==> forall|f: Seq<char>| #[trigger]
            lies_below(tables(t, seg), MAX_LEVELS as nat, walk.root, f) ==> flagged_right(
                tables(t, seg),
                f,
            ),
{
    let all = MAX_LEVELS as nat;
    let after = tables(t, seg);
    if walk.stack.len() == 0 {
        placed_ends(t, disk, all, walk.root);
        flags_say_where_sound_is(t, all, walk.root, seg);
        same_children(t, after);
        assert forall|f: Seq<char>| #[trigger] after.folders.contains_key(
            f,
        ) implies after.folders[f].parent == (disk.home)(f) by {
            assert(t.folders.contains_key(f));
            assert(after.folders[f].parent == t.folders[f].parent);
        }
        assert forall|p: Seq<char>| #[trigger] is_shown(t, disk, p) implies is_shown(
            after,
            disk,
            p,
        ) by {
            assert forall|s: Seq<char>| #[trigger] is_song_in(after, p, s) == is_song_in(
                t,
                p,
                s,
            ) by {}
            assert forall|c: Seq<char>| #[trigger] is_child(after, p, c) == is_child(t, p, c) by {}
        }
        assert forall|f: Seq<char>| #[trigger] lies_below(
            after,
            all,
            walk.root,
            f,
        ) implies flagged_right(after, f) by {
            same_tree_swaps(t, after);
            same_below(after, t, all, walk.root, f);
        }
    }
}

proof fn steps_go_on(deep: Deep, disk: Disk, root: Seq<char>, parent: Option<Seq<char>>, n: int)
    requires
        is_orderly(disk),
        deeply_scanned(deep, disk, root, parent),
        parent == (disk.home)(root),
        is_placed(deep.held[0], disk),
        0 <= n <= deep.states.len(),
    ensures
        so_far(deep, disk, root, n),
    decreases n,
{
    if n > 0 {
        steps_go_on(deep, disk, root, parent, n - 1);
        step_goes_on(deep, disk, root, parent, n - 1);
    } else {
        assert forall|p: Seq<char>| !(#[trigger] was_visited(deep, 0, p)) by {}
    }
}

/// A deep scan brings the library in line with the disk: afterwards it knows of every
/// folder that was listed exactly the folders and the songs that lie in it, however
/// the scan went on after that folder, and the audio flags from the folder down at
/// which it began say where there is sound. The library knew nothing where it does
/// not lie, and neither does it afterwards.
pub proof fn deep_scan_matches_disk(
    deep: Deep,
    disk: Disk,
    path: Seq<char>,
    parent: Option<Seq<char>>,
)
    requires
        is_orderly(disk),
        deeply_scanned(deep, disk, path, parent),
        parent == (disk.home)(path),
        is_placed(deep.held[0], disk),
    ensures
        is_placed(deep.held.last(), disk),
        forall|i: int|
            0 <= i < deep.states.len() && deep.states[i] is Listed ==> is_shown(
                deep.held.last(),
                disk,
                #[trigger] dealt_with(deep, i),
            ),
        forall|f: Seq<char>| #[trigger]
            lies_below(deep.held.last(), MAX_LEVELS as nat, path, f) ==> flagged_right(
                deep.held.last(),
                f,
            ),
{
    let n = deep.states.len() as int;
    assert(n > 0) by {
        assert(deep.walks[0].stack.len() > 0);
    }
    steps_go_on(deep, disk, path, parent, n - 1);
    step_goes_on(deep, disk, path, parent, n - 1);
}

/// A step of a deep scan that went through deals with the next folder and goes on to the
/// folders in it; one that failed leaves the folder as the next one, or failed only when the
/// audio flags were set at the end.
pub proof fn deep_steps_go_on(
    walk: Walk,
    next: Walk,
    state: FolderState,
    now: int,
    ok: bool,
    seg: Seq<Exchange>,
)
    requires
        stepped(walk, next, state, now, ok, seg),
    ensures
        walk.stack.len() == 0 ==> ok && next == walk && seg.len() == 0,
        walk.stack.len() > 0 && ok ==> next == advanced(walk, state) && step_run(
            walk,
            state,
            now,
            true,
            seg,
        ),
        walk.stack.len() > 0 && !ok && next.stack.len() > 0 && state is Listed ==> next == walk,
        !ok ==> next == walk || next == advanced(walk, state),
{
    if walk.stack.len() > 0 && !ok && next.stack.len() > 0 && state is Listed && next
        == advanced(walk, state) && step_run(walk, state, now, ok, seg) {
        let dir = state->Listed_0;
        let k = choose|k: int|
            0 <= k <= seg.len() && folder_run(walk, dir, now, true, #[trigger] seg.take(k))
                && finish_run(advanced(walk, state), ok, seg.skip(k));
    }
}

/// Where a deep scan stands after a folder: the folders found in it come next, in their order,
/// and then the others; the songs found in it are counted.
pub proof fn deep_scans_go_into_folders(walk: Walk, dir: DirListing)
    requires
        walk.stack.len() > 0,
    ensures
        ({
            let entries = entries_of(dir.entries@);
            let subs = subfolders_in(entries);
            let next = advanced(walk, FolderState::Listed(dir));
            let rest = walk.stack.len() - 1;
            &&& next.root == walk.root
            &&& next.stack.len() == rest + subs.len()
            &&& next.stack.take(rest) == walk.stack.drop_last()
            &&& forall|i: int|
                0 <= i < subs.len() ==> {
                    let todo = next.stack[next.stack.len() - 1 - i];
                    &&& todo.path == (#[trigger] subs[i]).path
                    &&& todo.parent == Some(walk.stack.last().path)
                }
            &&& walk.count + audio_files_in(entries).len() <= u32::MAX ==> next.count == walk.count
                + audio_files_in(entries).len()
        }),
        advanced(walk, FolderState::Missing) == (Walk { stack: walk.stack.drop_last(), ..walk }),
        advanced(walk, FolderState::Unreadable) == (Walk { stack: walk.stack.drop_last(), ..walk }),
{
    let next = advanced(walk, FolderState::Listed(dir));
    let rest = walk.stack.len() - 1;
    assert(next.stack.take(rest) =~= walk.stack.drop_last());
}

} // verus!
