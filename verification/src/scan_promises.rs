//! What the library promises of a scan, where its database answers faithfully:
//! afterwards it knows of a folder what lies in it on disk.
use crate::catalog::{apart, SAME_TIME};
use crate::folder_tree::{deletes_done, MAX_LEVELS};
use crate::library_db::first_texts;
use crate::order::{ordered, ordered_sorts};
use crate::paths::{file_name, or_empty};
use crate::records::{folders_in, songs_in, Folder, Found, Song};
use crate::rings::{ends_above_no_parent, parent_lies_below, removals_that_end_met_no_ring};
use crate::scan::{
    audio_files_in, entry_folder, entry_order, entry_order_ranks, entry_song, folder_paths,
    found_paths, gone, subfolders_in, Entry,
};
use crate::scanning::{
    drop_song_request, folder_request, prune_run, refresh_run, scan_run, song_request, song_run,
    song_runs, subfolder_request, unchanged,
};
use crate::sql::{
    CHILD_FOLDERS, DELETE_SONG, FOLDER_CHILDREN, FOLDER_SONGS, SONGS_OF_FOLDER, SONG_MTIME,
    UPSERT_FOLDER, UPSERT_SONG, UPSERT_SUBFOLDER,
};
use crate::store::{all_done, integer_at, row_in, rows_in, small_at, text_at, Exchange, Request};
use crate::tables::{
    answers, covers_left, effect, executed, faithful, is_child, is_song_in, no_metadata,
    one_exchange, query_lengths, row_is_right, rows_are_right, runs_split, shows_folders,
    shows_songs, statement_lengths, tables, went_through, FolderRow, Metadata, SongRow, Tables,
    READ_ERROR,
};
use crate::tree_promises::{
    below_some, ends_within, is_gone, lies_below, only_less, removing_several,
};
use vstd::prelude::*;

verus! {

/// The row of a scanned folder.
pub open spec fn own_row(
    path: Seq<char>,
    parent: Option<Seq<char>>,
    mtime: int,
    has_songs: bool,
    now: int,
) -> FolderRow {
    FolderRow {
        parent,
        name: or_empty(file_name(path)),
        mtime,
        has_audio: if has_songs {
            1
        } else {
            0
        },
        scanned_at: now,
    }
}

/// The row of a folder found in a scanned folder. What its own scans have left is
/// kept.
pub open spec fn sub_row(t: Tables, path: Seq<char>, sub: Folder) -> FolderRow {
    if t.folders.contains_key(sub.path) {
        FolderRow { parent: Some(path), name: sub.name, ..t.folders[sub.path] }
    } else {
        FolderRow { parent: Some(path), name: sub.name, mtime: 0, has_audio: 0, scanned_at: 0 }
    }
}

/// The tables with the folders found in a scanned folder entered.
pub open spec fn subs_entered(t: Tables, path: Seq<char>, subs: Seq<Folder>) -> Tables
    decreases subs.len(),
{
    if subs.len() == 0 {
        t
    } else {
        let rest = subs_entered(t, path, subs.drop_last());
        Tables {
            folders: rest.folders.insert(subs.last().path, sub_row(rest, path, subs.last())),
            ..rest
        }
    }
}

/// The tables with a scanned folder and the folders found in it entered.
pub open spec fn entered(t: Tables, path: Seq<char>, row: FolderRow, subs: Seq<Folder>) -> Tables {
    subs_entered(Tables { folders: t.folders.insert(path, row), ..t }, path, subs)
}

/// Entering folders changes nothing but their rows.
pub proof fn entering_changes_their_rows(t: Tables, path: Seq<char>, subs: Seq<Folder>)
    ensures
        subs_entered(t, path, subs) == (Tables {
            folders: subs_entered(t, path, subs).folders,
            ..t
        }),
        forall|c: Seq<char>| #[trigger]
            folder_paths(subs).contains(c) ==> is_child(subs_entered(t, path, subs), path, c),
        forall|f: Seq<char>|
            !folder_paths(subs).contains(f) ==> (#[trigger] subs_entered(
                t,
                path,
                subs,
            ).folders.contains_key(f) == t.folders.contains_key(f)) && subs_entered(
                t,
                path,
                subs,
            ).folders[f] == t.folders[f],
        folder_paths(subs).no_duplicates() ==> forall|i: int|
            0 <= i < subs.len() ==> subs_entered(t, path, subs).folders[(#[trigger] subs[i]).path]
                == sub_row(t, path, subs[i]),
    decreases subs.len(),
{
    if subs.len() > 0 {
        let init = subs.drop_last();
        let last = subs.last();
        entering_changes_their_rows(t, path, init);
        let t1 = subs_entered(t, path, init);
        let t2 = subs_entered(t, path, subs);
        let paths = folder_paths(subs);
        assert(folder_paths(init) =~= paths.drop_last());
        assert(paths[subs.len() - 1] == last.path);
        assert forall|c: Seq<char>| #[trigger] paths.contains(c) implies is_child(t2, path, c) by {
            if c != last.path {
                let i = choose|i: int| 0 <= i < paths.len() && paths[i] == c;
                assert(folder_paths(init)[i] == c);
                assert(folder_paths(init).contains(c));
                assert(is_child(t1, path, c));
            }
        }
        assert forall|f: Seq<char>| !paths.contains(f) implies (
        #[trigger] t2.folders.contains_key(f) == t.folders.contains_key(f)) && t2.folders[f]
            == t.folders[f] by {
            if folder_paths(init).contains(f) {
                let i = choose|i: int| 0 <= i < init.len() && folder_paths(init)[i] == f;
                assert(paths[i] == f);
            }
            assert(t1.folders.contains_key(f) == t.folders.contains_key(f));
        }
        if paths.no_duplicates() {
            assert(folder_paths(init).no_duplicates()) by {
                assert forall|i: int, j: int|
                    0 <= i < init.len() && 0 <= j < init.len() && i != j implies folder_paths(
                    init,
                )[i] != folder_paths(init)[j] by {
                    assert(paths[i] != paths[j]);
                }
            }
            assert forall|i: int| 0 <= i < subs.len() implies t2.folders[(
            #[trigger] subs[i]).path] == sub_row(t, path, subs[i]) by {
                if i < init.len() {
                    assert(init[i] == subs[i]);
                    assert(paths[i] != paths[subs.len() - 1]);
                    assert(t1.folders[init[i].path] == sub_row(t, path, init[i]));
                } else {
                    assert(!folder_paths(init).contains(last.path)) by {
                        if folder_paths(init).contains(last.path) {
                            let j = choose|j: int|
                                0 <= j < init.len() && folder_paths(init)[j] == last.path;
                            assert(paths[j] != paths[subs.len() - 1]);
                        }
                    }
                    assert(t1.folders.contains_key(last.path) == t.folders.contains_key(last.path));
                }
            }
        }
    }
}

/// The row of a song as it was found on disk. What was read of it before is kept
/// until it is read again.
pub open spec fn as_found(path: Seq<char>, song: Found, meta: Metadata) -> SongRow {
    SongRow {
        folder: path,
        name: song.name,
        title: song.title,
        format_type: song.format_type,
        meta,
        mtime: song.mtime,
        meta_scanned: false,
    }
}

/// What is known of a song.
pub open spec fn known_row(t: Tables, s: Seq<char>) -> Option<SongRow> {
    if t.songs.contains_key(s) {
        Some(t.songs[s])
    } else {
        None
    }
}

/// The row of a song after a scan has found it, by the row that is known of it and by
/// what times read as: the row that is known, where the song was not changed since, else
/// the song as it was found.
pub open spec fn song_row(
    known: Option<SongRow>,
    read_time: spec_fn(int) -> int,
    path: Seq<char>,
    song: Found,
) -> SongRow {
    match known {
        Some(row) => if apart(read_time(row.mtime), song.mtime) < SAME_TIME {
            row
        } else {
            as_found(path, song, row.meta)
        },
        None => as_found(path, song, no_metadata()),
    }
}

/// Whether a song has the row that is due to it.
pub open spec fn has_row(
    t: Tables,
    known: Option<SongRow>,
    path: Seq<char>,
    song: Found,
) -> bool {
    &&& t.songs.contains_key(song.path)
    &&& t.songs[song.path] == song_row(known, t.read_time, path, song)
}

/// Whether the row of a song is up to date.
pub open spec fn up_to_date(before: Tables, after: Tables, path: Seq<char>, song: Found) -> bool {
    has_row(after, known_row(before, song.path), path, song)
}

/// Whether songs that are found and already known are known in the folder.
pub open spec fn known_here(t: Tables, path: Seq<char>, songs: Seq<Found>) -> bool {
    forall|i: int|
        0 <= i < songs.len() && t.songs.contains_key((#[trigger] songs[i]).path)
            ==> t.songs[songs[i].path].folder == path
}

proof fn song_is_kept(t: Tables, path: Seq<char>, song: Found, seg: Seq<Exchange>)
    requires
        song_run(path, song, seg),
        faithful(t, seg),
        went_through(seg),
    ensures
        tables(t, seg) == (Tables { songs: tables(t, seg).songs, ..t }),
        tables(t, seg).songs == t.songs.insert(
            song.path,
            song_row(known_row(t, song.path), t.read_time, path, song),
        ),
        t.songs.contains_key(song.path) ==> apart(
            t.songs[song.path].mtime,
            (t.read_time)(t.songs[song.path].mtime),
        ) < READ_ERROR,
{
    query_lengths();
    statement_lengths();
    runs_split(t, seg, 1);
    one_exchange(t, seg.take(1));
    assert(seg.take(1)[0] == seg[0]);
    assert(tables(t, seg.take(1)) == t);
    row_is_right(t, seg[0], SONG_MTIME@, song.path);
    if row_in(seg[0]) is Some {
        let r = row_in(seg[0])->0;
        assert(integer_at(r, 0) is Some);
        assert(small_at(r, 1) is Some);
    }
    if unchanged(row_in(seg[0]), song.mtime) {
        assert(seg.skip(1).len() == 0);
        assert(tables(t, seg.skip(1)) == t);
        assert(t.songs.insert(song.path, t.songs[song.path]) =~= t.songs);
    } else {
        one_exchange(t, seg.skip(1));
        assert(seg.skip(1)[0] == seg[1]);
        let params = song_request(path, song)->Execute_1;
        assert(effect(t, seg[1]) == executed(t, UPSERT_SONG@, params));
        assert(text_at(params, 0) == Some(song.path));
        assert(text_at(params, 1) == Some(path));
        assert(text_at(params, 2) == Some(song.name));
        assert(text_at(params, 3) == Some(song.title));
        assert(text_at(params, 4) == Some(song.format_type));
        assert(integer_at(params, 5) == Some(song.mtime));
    }
}

/// A song that is known stays as it is known where its file was not changed since, within a
/// millisecond; where it was, the song is entered as it was found, what was read of it stays,
/// and it is read again. A time that comes back from the tables is off by less than ten
/// microseconds. No other song is touched.
pub proof fn changed_songs_are_entered_anew(
    t: Tables,
    path: Seq<char>,
    song: Found,
    seg: Seq<Exchange>,
)
    requires
        song_run(path, song, seg),
        faithful(t, seg),
        went_through(seg),
        t.songs.contains_key(song.path),
    ensures
        ({
            let known = t.songs[song.path];
            let after = tables(t, seg);
            let row = after.songs[song.path];
            let late = song.mtime - known.mtime;
            &&& -990_000 <= late <= 990_000 ==> row == known
            &&& late >= 1_010_000 || late <= -1_010_000 ==> {
                &&& row.folder == path
                &&& row.name == song.name
                &&& row.title == song.title
                &&& row.format_type == song.format_type
                &&& row.mtime == song.mtime
                &&& row.meta == known.meta
                &&& !row.meta_scanned
            }
            &&& after.songs.dom() == t.songs.dom()
            &&& forall|s: Seq<char>| s != song.path ==> #[trigger] after.songs[s] == t.songs[s]
            &&& after == Tables { songs: after.songs, ..t }
        }),
{
    song_is_kept(t, path, song, seg);
    assert(tables(t, seg).songs.dom() =~= t.songs.dom());
}

proof fn songs_are_kept(t: Tables, path: Seq<char>, songs: Seq<Found>, seg: Seq<Exchange>)
    requires
        all_done(songs, song_runs(path), seg),
        faithful(t, seg),
        went_through(seg),
        found_paths(songs).no_duplicates(),
    ensures
        tables(t, seg) == (Tables { songs: tables(t, seg).songs, ..t }),
        forall|i: int|
            0 <= i < songs.len() ==> up_to_date(t, tables(t, seg), path, #[trigger] songs[i]),
        forall|i: int|
            0 <= i < songs.len() && t.songs.contains_key((#[trigger] songs[i]).path) ==> apart(
                t.songs[songs[i].path].mtime,
                (t.read_time)(t.songs[songs[i].path].mtime),
            ) < READ_ERROR,
        forall|s: Seq<char>|
            !found_paths(songs).contains(s) ==> (#[trigger] tables(t, seg).songs.contains_key(s)
                == t.songs.contains_key(s)) && tables(t, seg).songs[s] == t.songs[s],
    decreases songs.len(),
{
    if songs.len() > 0 {
        let init = songs.drop_last();
        let last = songs.last();
        let k = choose|k: int|
            0 <= k <= seg.len() && all_done(init, song_runs(path), #[trigger] seg.take(k))
                && song_runs(path)(last, seg.skip(k));
        runs_split(t, seg, k);
        let paths = found_paths(songs);
        assert(found_paths(init) =~= paths.drop_last());
        songs_are_kept(t, path, init, seg.take(k));
        let t1 = tables(t, seg.take(k));
        let t2 = tables(t, seg);
        assert(songs[songs.len() - 1] == last);
        assert(!found_paths(init).contains(last.path)) by {
            if found_paths(init).contains(last.path) {
                let i = choose|i: int| 0 <= i < init.len() && found_paths(init)[i] == last.path;
                assert(paths[i] == paths[songs.len() - 1]);
            }
        }
        assert(t1.songs.contains_key(last.path) == t.songs.contains_key(last.path));
        song_is_kept(t1, path, last, seg.skip(k));
        assert(known_row(t1, last.path) == known_row(t, last.path));
        assert forall|i: int| 0 <= i < songs.len() implies up_to_date(
            t,
            t2,
            path,
            #[trigger] songs[i],
        ) by {
            if i < init.len() {
                assert(init[i] == songs[i]);
                assert(up_to_date(t, t1, path, init[i]));
                assert(found_paths(init)[i] == songs[i].path);
                assert(songs[i].path != last.path);
                assert(t2.songs.contains_key(songs[i].path));
            }
        }
        assert forall|i: int|
            0 <= i < songs.len() && t.songs.contains_key((#[trigger] songs[i]).path) implies apart(
            t.songs[songs[i].path].mtime,
            (t.read_time)(t.songs[songs[i].path].mtime),
        ) < READ_ERROR by {
            if i < init.len() {
                assert(init[i] == songs[i]);
            }
        }
        assert forall|s: Seq<char>| !paths.contains(s) implies (
        #[trigger] t2.songs.contains_key(s) == t.songs.contains_key(s)) && t2.songs[s]
            == t.songs[s] by {
            assert(paths[songs.len() - 1] == last.path);
            if found_paths(init).contains(s) {
                let i = choose|i: int| 0 <= i < init.len() && found_paths(init)[i] == s;
                assert(paths[i] == s);
            }
            assert(t1.songs.contains_key(s) == t.songs.contains_key(s));
        }
    }
}

proof fn subfolders_are_kept(t: Tables, path: Seq<char>, subs: Seq<Folder>, seg: Seq<Exchange>)
    requires
        seg.len() == subs.len(),
        forall|i: int|
            0 <= i < subs.len() ==> (#[trigger] seg[i]).request == subfolder_request(path, subs[i]),
        went_through(seg),
    ensures
        tables(t, seg) == subs_entered(t, path, subs),
    decreases subs.len(),
{
    if subs.len() > 0 {
        let init = subs.drop_last();
        let last = subs.last();
        let s1 = seg.drop_last();
        assert(s1 =~= seg.take(seg.len() - 1));
        runs_split(t, seg, seg.len() - 1);
        assert forall|i: int| 0 <= i < init.len() implies (#[trigger] s1[i]).request
            == subfolder_request(path, init[i]) by {
            assert(s1[i] == seg[i]);
        }
        subfolders_are_kept(t, path, init, s1);
        let t1 = tables(t, s1);
        statement_lengths();
        assert(seg.last() == seg[seg.len() - 1]);
        let params = subfolder_request(path, last)->Execute_1;
        assert(tables(t, seg) == executed(t1, UPSERT_SUBFOLDER@, params));
        assert(text_at(params, 0) == Some(last.path));
        assert(text_at(params, 1) == Some(path));
        assert(text_at(params, 2) == Some(last.name));
    }
}

proof fn songs_are_dropped(t: Tables, lost: Seq<Seq<char>>, seg: Seq<Exchange>)
    requires
        seg.len() == lost.len(),
        forall|i: int|
            0 <= i < lost.len() ==> (#[trigger] seg[i]).request == drop_song_request(lost[i]),
        forall|i: int| 0 <= i < lost.len() ==> t.songs.contains_key(#[trigger] lost[i]),
        went_through(seg),
    ensures
        tables(t, seg) == (Tables {
            songs: tables(t, seg).songs,
            song_covers: covers_left(t, tables(t, seg).songs),
            ..t
        }),
        forall|s: Seq<char>| #[trigger]
            tables(t, seg).songs.contains_key(s) == (t.songs.contains_key(s) && !lost.contains(s)),
        forall|s: Seq<char>| #[trigger]
            tables(t, seg).songs.contains_key(s) ==> tables(t, seg).songs[s] == t.songs[s],
    decreases lost.len(),
{
    if lost.len() > 0 {
        let init = lost.drop_last();
        let last = lost.last();
        let s1 = seg.drop_last();
        assert(s1 =~= seg.take(seg.len() - 1));
        runs_split(t, seg, seg.len() - 1);
        assert forall|i: int| 0 <= i < init.len() implies (#[trigger] s1[i]).request
            == drop_song_request(init[i]) by {
            assert(s1[i] == seg[i]);
        }
        assert forall|i: int| 0 <= i < init.len() implies t.songs.contains_key(
            #[trigger] init[i],
        ) by {
            assert(init[i] == lost[i]);
        }
        songs_are_dropped(t, init, s1);
        let t1 = tables(t, s1);
        let t2 = tables(t, seg);
        statement_lengths();
        assert(seg.last() == seg[seg.len() - 1]);
        let params = drop_song_request(last)->Execute_1;
        assert(t2 == executed(t1, DELETE_SONG@, params));
        assert(text_at(params, 0) == Some(last));
        assert(lost[lost.len() - 1] == last);
        assert forall|s: Seq<char>| #[trigger] t2.songs.contains_key(s) == (t.songs.contains_key(s)
            && !lost.contains(s)) by {
            assert(t1.songs.contains_key(s) == (t.songs.contains_key(s) && !init.contains(s)));
            assert(lost.contains(s) == (init.contains(s) || s == last)) by {
                if init.contains(s) {
                    let i = choose|i: int| 0 <= i < init.len() && init[i] == s;
                    assert(lost[i] == s);
                }
                if lost.contains(s) && s != last {
                    let i = choose|i: int| 0 <= i < lost.len() && lost[i] == s;
                    assert(init[i] == s);
                }
            }
        }
        assert(t2.song_covers =~= covers_left(t, t2.songs));
    } else {
        assert(t.song_covers =~= covers_left(t, t.songs));
    }
}

proof fn lost_are_gone(paths: Seq<Seq<char>>, kept: Seq<Seq<char>>)
    ensures
        forall|p: Seq<char>| #[trigger]
            gone(paths, kept).contains(p) <==> paths.contains(p) && !kept.contains(p),
{
    let pred = |p: Seq<char>| !kept.contains(p);
    assert forall|p: Seq<char>| #[trigger] gone(paths, kept).contains(p) <==> paths.contains(p)
        && !kept.contains(p) by {
        if gone(paths, kept).contains(p) {
            let i = choose|i: int| 0 <= i < gone(paths, kept).len() && gone(paths, kept)[i] == p;
            paths.lemma_filter_pred(pred, i);
            filter_comes_from(paths, pred, p);
        }
        if paths.contains(p) && !kept.contains(p) {
            let i = choose|i: int| 0 <= i < paths.len() && paths[i] == p;
            paths.lemma_filter_contains(pred, i);
        }
    }
}

proof fn filter_comes_from(s: Seq<Seq<char>>, pred: spec_fn(Seq<char>) -> bool, p: Seq<char>)
    requires
        s.filter(pred).contains(p),
    ensures
        s.contains(p),
    decreases s.len(),
{
    reveal(Seq::filter);
    if s.len() > 0 {
        let init = s.drop_last();
        let i = choose|i: int| 0 <= i < s.filter(pred).len() && s.filter(pred)[i] == p;
        if pred(s.last()) && i == init.filter(pred).len() {
            assert(s[s.len() - 1] == p);
        } else {
            assert(init.filter(pred)[i] == p);
            filter_comes_from(init, pred, p);
            let j = choose|j: int| 0 <= j < init.len() && init[j] == p;
            assert(s[j] == p);
        }
    }
}

/// Whether a folder is lost with a scan: it lies below a folder that the library
/// knows in the scanned folder and that was not found there.
pub open spec fn is_lost(t: Tables, path: Seq<char>, subs: Seq<Folder>, f: Seq<char>) -> bool {
    exists|c: Seq<char>| #[trigger]
        is_child(t, path, c) && !folder_paths(subs).contains(c) && lies_below(
            t,
            MAX_LEVELS as nat,
            c,
            f,
        )
}

/// Whether the folders and their covers are those of `kept` that are not lost.
pub open spec fn folders_match(
    kept: Tables,
    after: Tables,
    path: Seq<char>,
    subs: Seq<Folder>,
) -> bool {
    &&& forall|f: Seq<char>| #[trigger]
        after.folders.contains_key(f) <==> kept.folders.contains_key(f) && !is_lost(
            kept,
            path,
            subs,
            f,
        )
    &&& forall|f: Seq<char>| #[trigger]
        after.folders.contains_key(f) ==> after.folders[f] == kept.folders[f]
    &&& forall|f: Seq<char>| #[trigger]
        after.covers.contains_key(f) <==> kept.covers.contains_key(f) && !is_lost(
            kept,
            path,
            subs,
            f,
        )
    &&& forall|f: Seq<char>| #[trigger]
        after.covers.contains_key(f) ==> after.covers[f] == kept.covers[f]
    &&& after.folders.contains_key(path)
    &&& forall|c: Seq<char>| #[trigger]
        is_child(after, path, c) <==> folder_paths(subs).contains(c)
}

/// Whether a song that is known stays known with a scan: its folder is not lost, and it
/// is no song of the scanned folder that was not found.
pub open spec fn stays_known(
    t: Tables,
    path: Seq<char>,
    subs: Seq<Folder>,
    songs: Seq<Found>,
    s: Seq<char>,
) -> bool {
    &&& t.songs.contains_key(s)
    &&& !is_lost(t, path, subs, t.songs[s].folder)
    &&& t.songs[s].folder == path ==> found_paths(songs).contains(s)
}

/// The row of a song that stays known with a scan.
pub open spec fn row_left(
    t: Tables,
    path: Seq<char>,
    subs: Seq<Folder>,
    songs: Seq<Found>,
    s: Seq<char>,
) -> Option<SongRow> {
    if stays_known(t, path, subs, songs, s) {
        Some(t.songs[s])
    } else {
        None
    }
}

/// The covers of the songs that stay known with a scan.
pub open spec fn song_covers_left(
    t: Tables,
    path: Seq<char>,
    subs: Seq<Folder>,
    songs: Seq<Found>,
) -> Map<Seq<char>, Seq<u8>> {
    t.song_covers.restrict(
        Set::new(
            |s: Seq<char>| t.songs.contains_key(s) ==> stays_known(t, path, subs, songs, s),
        ),
    )
}

/// Whether the songs that were found are up to date, and the other songs are those of
/// `kept` that stay known. A song of the folder is one that was found. With a song that
/// is gone its cover goes; the covers of other songs stay.
pub open spec fn songs_match(
    kept: Tables,
    after: Tables,
    path: Seq<char>,
    subs: Seq<Folder>,
    songs: Seq<Found>,
) -> bool {
    &&& forall|s: Seq<char>| #[trigger]
        is_song_in(after, path, s) ==> found_paths(songs).contains(s)
    &&& forall|i: int|
        0 <= i < songs.len() ==> has_row(
            after,
            row_left(kept, path, subs, songs, songs[i].path),
            path,
            #[trigger] songs[i],
        )
    &&& forall|s: Seq<char>|
        !found_paths(songs).contains(s) ==> (#[trigger] after.songs.contains_key(s) <==> stays_known(
            kept,
            path,
            subs,
            songs,
            s,
        ))
    &&& forall|s: Seq<char>|
        !found_paths(songs).contains(s) && #[trigger] after.songs.contains_key(s)
            ==> after.songs[s] == kept.songs[s]
    &&& after.song_covers == song_covers_left(kept, path, subs, songs)
}

/// What the library knows after a scan, by what it knew once the folder and the
/// folders in it were entered.
pub open spec fn matches_disk(
    kept: Tables,
    after: Tables,
    path: Seq<char>,
    subs: Seq<Folder>,
    songs: Seq<Found>,
) -> bool {
    &&& folders_match(kept, after, path, subs)
    &&& songs_match(kept, after, path, subs, songs)
    &&& after == Tables {
        folders: after.folders,
        songs: after.songs,
        covers: after.covers,
        song_covers: after.song_covers,
        ..kept
    }
}

/// Whether the folders that are lost with a scan end.
pub open spec fn lost_end(t: Tables, path: Seq<char>, subs: Seq<Folder>) -> bool {
    forall|c: Seq<char>| #[trigger]
        is_child(t, path, c) && !folder_paths(subs).contains(c) ==> ends_within(
            t,
            MAX_LEVELS as nat,
            c,
        )
}

/// Whether this can be what a folder on disk holds: each song and each folder once, and
/// not the folder itself.
pub open spec fn is_listing(path: Seq<char>, subs: Seq<Folder>, songs: Seq<Found>) -> bool {
    &&& found_paths(songs).no_duplicates()
    &&& folder_paths(subs).no_duplicates()
    &&& !folder_paths(subs).contains(path)
}

/// Whether no two entries have the same path.
pub open spec fn are_distinct(entries: Seq<Entry>) -> bool {
    forall|i: int, j: int|
        0 <= i < j < entries.len() ==> (#[trigger] entries[i]).path != (#[trigger] entries[j]).path
}

proof fn distinct_in_order(entries: Seq<Entry>)
    requires
        are_distinct(entries),
    ensures
        are_distinct(ordered(entries, entry_order())),
        forall|i: int|
            0 <= i < ordered(entries, entry_order()).len() ==> entries.contains(
                #[trigger] ordered(entries, entry_order())[i],
            ),
{
    broadcast use vstd::seq_lib::to_multiset_contains;

    let sorted = ordered(entries, entry_order());
    entry_order_ranks();
    ordered_sorts(entries, entry_order());
    assert(entries.no_duplicates()) by {
        assert forall|i: int, j: int|
            0 <= i < entries.len() && 0 <= j < entries.len() && i != j implies entries[i]
            != entries[j] by {
            if i < j {
                assert(entries[i].path != entries[j].path);
            } else {
                assert(entries[j].path != entries[i].path);
            }
        }
    }
    entries.lemma_multiset_has_no_duplicates();
    sorted.lemma_multiset_has_no_duplicates_conv();
    assert forall|i: int| 0 <= i < sorted.len() implies entries.contains(#[trigger] sorted[i]) by {
        assert(sorted.contains(sorted[i]));
        assert(sorted.to_multiset().count(sorted[i]) > 0);
        assert(entries.to_multiset().count(sorted[i]) > 0);
    }
    assert forall|i: int, j: int| 0 <= i < j < sorted.len() implies (#[trigger] sorted[i]).path
        != (#[trigger] sorted[j]).path by {
        let a = choose|a: int| 0 <= a < entries.len() && entries[a] == sorted[i];
        let b = choose|b: int| 0 <= b < entries.len() && entries[b] == sorted[j];
        assert(sorted[i] != sorted[j]);
        if a < b {
            assert(entries[a].path != entries[b].path);
        } else {
            assert(entries[b].path != entries[a].path);
        }
    }
}

proof fn chosen_are_distinct<T>(
    entries: Seq<Entry>,
    pick: spec_fn(Entry) -> Option<T>,
    path_of: spec_fn(T) -> Seq<char>,
    n: int,
)
    requires
        are_distinct(entries),
        forall|e: Entry| (#[trigger] pick(e)) matches Some(x) ==> path_of(x) == e.path,
        0 <= n <= entries.len(),
    ensures
        entries.take(n).filter_map(pick).map_values(path_of).no_duplicates(),
        forall|p: Seq<char>| #[trigger]
            entries.take(n).filter_map(pick).map_values(path_of).contains(p) ==> exists|i: int|
                0 <= i < n && (#[trigger] entries[i]).path == p,
    decreases n,
{
    let all = entries.take(n).filter_map(pick);
    let paths = all.map_values(path_of);
    if n == 0 {
        assert(entries.take(0) =~= Seq::empty());
        reveal(Seq::filter_map);
        assert(paths.len() == 0);
    } else {
        chosen_are_distinct(entries, pick, path_of, n - 1);
        entries.lemma_filter_map_take_succ(pick, n - 1);
        let before = entries.take(n - 1).filter_map(pick);
        let old_paths = before.map_values(path_of);
        let e = entries[n - 1];
        assert(old_paths.contains(e.path) ==> false) by {
            if old_paths.contains(e.path) {
                let i = choose|i: int| 0 <= i < n - 1 && (#[trigger] entries[i]).path == e.path;
                assert(entries[i].path != entries[n - 1].path);
            }
        }
        match pick(e) {
            Some(x) => {
                assert(all =~= before.push(x));
                assert(paths =~= old_paths.push(e.path));
                assert forall|i: int, j: int|
                    0 <= i < paths.len() && 0 <= j < paths.len() && i != j implies paths[i]
                    != paths[j] by {
                    if i < old_paths.len() {
                        assert(old_paths.contains(old_paths[i]));
                    }
                    if j < old_paths.len() {
                        assert(old_paths.contains(old_paths[j]));
                    }
                }
                assert forall|p: Seq<char>| #[trigger] paths.contains(p) implies exists|i: int|
                    0 <= i < n && (#[trigger] entries[i]).path == p by {
                    if p == e.path {
                        assert(entries[n - 1].path == p);
                    } else {
                        let k = choose|k: int| 0 <= k < paths.len() && paths[k] == p;
                        assert(old_paths[k] == p);
                        assert(old_paths.contains(p));
                    }
                }
            },
            None => {
                assert(all =~= before);
            },
        }
    }
}

/// Whether entries can lie in a folder: they have different paths, and none is the folder
/// itself.
pub open spec fn lie_in(path: Seq<char>, entries: Seq<Entry>) -> bool {
    are_distinct(entries) && forall|i: int|
        0 <= i < entries.len() ==> (#[trigger] entries[i]).path != path
}

/// What is found among the entries of a folder is a listing.
pub proof fn entries_make_a_listing(path: Seq<char>, entries: Seq<Entry>)
    requires
        lie_in(path, entries),
    ensures
        is_listing(path, subfolders_in(entries), audio_files_in(entries)),
{
    let sorted = ordered(entries, entry_order());
    let n = sorted.len() as int;
    distinct_in_order(entries);
    assert(sorted.take(n) =~= sorted);
    let folder = |e: Entry| entry_folder(e);
    let song = |e: Entry| entry_song(e);
    chosen_are_distinct(sorted, folder, |f: Folder| f.path, n);
    chosen_are_distinct(sorted, song, |s: Found| s.path, n);
    if folder_paths(subfolders_in(entries)).contains(path) {
        let i = choose|i: int| 0 <= i < n && (#[trigger] sorted[i]).path == path;
        assert(entries.contains(sorted[i]));
        let k = choose|k: int| 0 <= k < entries.len() && entries[k] == sorted[i];
        assert(entries[k].path != path);
    }
}

/// Where the songs that were found are known nowhere else, the songs of a folder after a
/// scan are exactly those that were found.
pub proof fn found_songs_are_those_of_the_folder(
    kept: Tables,
    after: Tables,
    path: Seq<char>,
    subs: Seq<Folder>,
    songs: Seq<Found>,
)
    requires
        songs_match(kept, after, path, subs, songs),
        known_here(kept, path, songs),
    ensures
        forall|s: Seq<char>| #[trigger]
            is_song_in(after, path, s) <==> found_paths(songs).contains(s),
{
    assert forall|s: Seq<char>| found_paths(songs).contains(s) implies #[trigger] is_song_in(
        after,
        path,
        s,
    ) by {
        let i = choose|i: int| 0 <= i < songs.len() && found_paths(songs)[i] == s;
        assert(has_row(after, row_left(kept, path, subs, songs, songs[i].path), path, songs[i]));
    }
}

proof fn folders_are_kept(
    t: Tables,
    path: Seq<char>,
    parent: Option<Seq<char>>,
    mtime: int,
    has_songs: bool,
    now: int,
    subs: Seq<Folder>,
    seg: Seq<Exchange>,
)
    requires
        seg.len() == subs.len() + 1,
        seg[0].request == folder_request(path, parent, mtime, has_songs, now),
        forall|i: int|
            1 <= i <= subs.len() ==> (#[trigger] seg[i]).request == subfolder_request(
                path,
                subs[i - 1],
            ),
        went_through(seg),
    ensures
        tables(t, seg) == entered(t, path, own_row(path, parent, mtime, has_songs, now), subs),
{
    statement_lengths();
    runs_split(t, seg, 1);
    one_exchange(t, seg.take(1));
    assert(seg.take(1)[0] == seg[0]);
    let t0 = tables(t, seg.take(1));
    let params = folder_request(path, parent, mtime, has_songs, now)->Execute_1;
    assert(t0 == executed(t, UPSERT_FOLDER@, params));
    assert(text_at(params, 0) == Some(path));
    assert(text_at(params, 1) == parent);
    assert(text_at(params, 2) == Some(or_empty(file_name(path))));
    assert(integer_at(params, 3) == Some(mtime));
    assert(integer_at(params, 4) is Some);
    assert(integer_at(params, 5) == Some(now));
    let rest = seg.skip(1);
    assert forall|i: int| 0 <= i < subs.len() implies (#[trigger] rest[i]).request
        == subfolder_request(path, subs[i]) by {
        assert(rest[i] == seg[i + 1]);
    }
    subfolders_are_kept(t0, path, subs, rest);
}

proof fn lost_lie_elsewhere(
    t: Tables,
    path: Seq<char>,
    kept: Seq<Seq<char>>,
    lost: Seq<Seq<char>>,
    f: Seq<char>,
)
    requires
        forall|c: Seq<char>| #[trigger] kept.contains(c) ==> is_child(t, path, c),
        forall|c: Seq<char>| #[trigger]
            lost.contains(c) ==> is_child(t, path, c) && !kept.contains(c) && ends_within(
                t,
                MAX_LEVELS as nat,
                c,
            ),
        f == path || kept.contains(f),
    ensures
        !below_some(t, MAX_LEVELS as nat, lost, f),
{
    let all = MAX_LEVELS as nat;
    if below_some(t, all, lost, f) {
        let c = choose|c: Seq<char>| #[trigger] lost.contains(c) && lies_below(t, all, c, f);
        if f != path {
            parent_lies_below(t, all, c, f, path);
        }
        ends_above_no_parent(t, all, c, path, all);
    }
}

proof fn lost_lie_below_lost(
    t: Tables,
    path: Seq<char>,
    subs: Seq<Folder>,
    lost: Seq<Seq<char>>,
    f: Seq<char>,
)
    requires
        forall|c: Seq<char>| #[trigger]
            lost.contains(c) <==> is_child(t, path, c) && !folder_paths(subs).contains(c),
    ensures
        below_some(t, MAX_LEVELS as nat, lost, f) == is_lost(t, path, subs, f),
{
    let all = MAX_LEVELS as nat;
    if below_some(t, all, lost, f) {
        let c = choose|c: Seq<char>| #[trigger] lost.contains(c) && lies_below(t, all, c, f);
        assert(is_child(t, path, c));
    }
    if is_lost(t, path, subs, f) {
        let c = choose|c: Seq<char>| #[trigger]
            is_child(t, path, c) && !folder_paths(subs).contains(c) && lies_below(t, all, c, f);
        assert(lost.contains(c));
    }
}

/// The state of a scan when what is gone from the folder is to be taken out.
spec fn to_be_cut(
    t: Tables,
    path: Seq<char>,
    subs: Seq<Folder>,
    songs: Seq<Found>,
    lost: Seq<Seq<char>>,
) -> bool {
    &&& t.folders.contains_key(path)
    &&& forall|c: Seq<char>| #[trigger] folder_paths(subs).contains(c) ==> is_child(t, path, c)
    &&& forall|c: Seq<char>| #[trigger]
        lost.contains(c) <==> is_child(t, path, c) && !folder_paths(subs).contains(c)
    &&& forall|s: Seq<char>| #[trigger]
        is_song_in(t, path, s) ==> found_paths(songs).contains(s)
}

proof fn lost_are_cut(
    t: Tables,
    path: Seq<char>,
    subs: Seq<Folder>,
    songs: Seq<Found>,
    lost: Seq<Seq<char>>,
    seg: Seq<Exchange>,
)
    requires
        deletes_done(MAX_LEVELS as nat, lost, seg),
        faithful(t, seg),
        went_through(seg),
        to_be_cut(t, path, subs, songs, lost),
        lost_end(t, path, subs) || seg.len() < MAX_LEVELS,
    ensures
        folders_match(t, tables(t, seg), path, subs),
        only_less(t, tables(t, seg)),
        forall|s: Seq<char>| #[trigger]
            tables(t, seg).songs.contains_key(s) <==> t.songs.contains_key(s) && !is_lost(
                t,
                path,
                subs,
                t.songs[s].folder,
            ),
        !is_lost(t, path, subs, path),
{
    let all = MAX_LEVELS as nat;
    let kept = folder_paths(subs);
    if seg.len() < MAX_LEVELS {
        removals_that_end_met_no_ring(t, all, path, lost, seg);
    }
    assert forall|c: Seq<char>| #[trigger] lost.contains(c) implies is_child(t, path, c)
        && !kept.contains(c) && ends_within(t, all, c) by {
        assert(is_child(t, path, c));
    }
    removing_several(t, all, lost, seg);
    let cut = tables(t, seg);
    assert forall|f: Seq<char>| #[trigger] is_lost(t, path, subs, f) implies is_gone(cut, f) by {
        lost_lie_below_lost(t, path, subs, lost, f);
        let c = choose|c: Seq<char>| #[trigger] lost.contains(c) && lies_below(t, all, c, f);
        assert(is_gone(cut, f));
    }
    assert forall|f: Seq<char>| below_some(t, all, lost, f) implies #[trigger] is_lost(
        t,
        path,
        subs,
        f,
    ) by {
        lost_lie_below_lost(t, path, subs, lost, f);
    }
    lost_lie_elsewhere(t, path, kept, lost, path);
    lost_lie_below_lost(t, path, subs, lost, path);
    assert forall|c: Seq<char>| #[trigger] is_child(cut, path, c) <==> kept.contains(c) by {
        if kept.contains(c) {
            lost_lie_elsewhere(t, path, kept, lost, c);
            assert(is_child(t, path, c));
            assert(t.folders.contains_key(c));
            assert(cut.folders.contains_key(c));
        } else if is_child(cut, path, c) {
            assert(cut.folders.contains_key(c));
            assert(is_child(t, path, c));
            assert(lost.contains(c));
            assert(is_gone(cut, c));
        }
    }
    assert forall|s: Seq<char>| #[trigger]
        cut.songs.contains_key(s) <==> t.songs.contains_key(s) && !is_lost(
        t,
        path,
        subs,
        t.songs[s].folder,
    ) by {
        if cut.songs.contains_key(s) && is_lost(t, path, subs, t.songs[s].folder) {
            assert(is_gone(cut, t.songs[s].folder));
            assert(is_song_in(cut, t.songs[s].folder, s));
        }
    }
}

proof fn refresh_matches_disk(
    t: Tables,
    path: Seq<char>,
    subs: Seq<Folder>,
    songs: Seq<Found>,
    lost: Seq<Seq<char>>,
    seg: Seq<Exchange>,
)
    requires
        refresh_run(path, lost, songs, true, seg),
        faithful(t, seg),
        went_through(seg),
        to_be_cut(t, path, subs, songs, lost),
        found_paths(songs).no_duplicates(),
        lost_end(t, path, subs) || seg.len() < MAX_LEVELS,
    ensures
        matches_disk(t, tables(t, seg), path, subs, songs),
{
    let all = MAX_LEVELS as nat;
    let k = choose|k: int|
        0 <= k <= seg.len() && deletes_done(all, lost, #[trigger] seg.take(k)) && all_done(
            songs,
            song_runs(path),
            seg.skip(k),
        );
    runs_split(t, seg, k);
    lost_are_cut(t, path, subs, songs, lost, seg.take(k));
    let cut = tables(t, seg.take(k));
    songs_are_kept(cut, path, songs, seg.skip(k));
    let after = tables(t, seg);
    assert(after == tables(cut, seg.skip(k)));
    assert(cut.read_time == t.read_time);
    assert forall|c: Seq<char>| #[trigger] is_child(after, path, c) == is_child(cut, path, c) by {}
    assert(folders_match(t, after, path, subs));
    assert forall|s: Seq<char>| #[trigger] cut.songs.contains_key(s) <==> stays_known(
        t,
        path,
        subs,
        songs,
        s,
    ) by {
        if t.songs.contains_key(s) && t.songs[s].folder == path {
            assert(is_song_in(t, path, s));
        }
    }
    assert forall|i: int| 0 <= i < songs.len() implies has_row(
        after,
        row_left(t, path, subs, songs, songs[i].path),
        path,
        #[trigger] songs[i],
    ) by {
        assert(up_to_date(cut, after, path, songs[i]));
        assert(cut.songs.contains_key(songs[i].path) == stays_known(
            t,
            path,
            subs,
            songs,
            songs[i].path,
        ));
    }
    assert forall|s: Seq<char>| #[trigger] is_song_in(after, path, s) implies found_paths(
        songs,
    ).contains(s) by {
        if !found_paths(songs).contains(s) {
            assert(after.songs.contains_key(s));
            assert(cut.songs.contains_key(s));
            assert(is_song_in(t, path, s));
        }
    }
    assert forall|s: Seq<char>| !found_paths(songs).contains(s) implies (
    #[trigger] after.songs.contains_key(s) <==> stays_known(t, path, subs, songs, s)) by {
        assert(after.songs.contains_key(s) == cut.songs.contains_key(s));
    }
    assert(after.song_covers =~= song_covers_left(t, path, subs, songs)) by {
        assert(after.song_covers == covers_left(t, cut.songs));
    }
}

#[verifier::rlimit(80)]
#[verifier::spinoff_prover]
proof fn prune_matches_disk(
    t: Tables,
    path: Seq<char>,
    subs: Seq<Folder>,
    songs: Seq<Found>,
    lost: Seq<Seq<char>>,
    seg: Seq<Exchange>,
)
    requires
        prune_run(path, lost, subs, songs, true, seg),
        faithful(t, seg),
        went_through(seg),
        t.folders.contains_key(path),
        forall|c: Seq<char>| #[trigger] folder_paths(subs).contains(c) ==> is_child(t, path, c),
        found_paths(songs).no_duplicates(),
        lost_end(t, path, subs) || seg.len() < MAX_LEVELS,
        forall|s: Seq<char>| #[trigger]
            lost.contains(s) <==> is_song_in(t, path, s) && !found_paths(songs).contains(s),
    ensures
        matches_disk(t, tables(t, seg), path, subs, songs),
{
    let m = lost.len() as int;
    runs_split(t, seg, m);
    let drop_seg = seg.take(m);
    assert forall|i: int| 0 <= i < lost.len() implies (#[trigger] drop_seg[i]).request
        == drop_song_request(lost[i]) by {
        assert(drop_seg[i] == seg[i]);
    }
    assert forall|i: int| 0 <= i < lost.len() implies t.songs.contains_key(#[trigger] lost[i]) by {
        assert(lost.contains(lost[i]));
        assert(is_song_in(t, path, lost[i]));
    }
    songs_are_dropped(t, lost, drop_seg);
    let less = tables(t, drop_seg);
    let rest = seg.skip(m);
    runs_split(less, rest, 1);
    one_exchange(less, rest.take(1));
    assert(rest.take(1)[0] == seg[m]);
    assert(tables(less, rest.take(1)) == less);
    rows_are_right(less, seg[m], CHILD_FOLDERS@, path);
    let rows = rows_in(seg[m])->0;
    let lost_subs = gone(first_texts(rows), folder_paths(subs));
    lost_are_gone(first_texts(rows), folder_paths(subs));
    let end = seg.skip(m + 1);
    assert(rest.skip(1) =~= end);
    if lost_end(t, path, subs) {
        assert forall|c: Seq<char>| #[trigger] is_child(less, path, c) && !folder_paths(
            subs,
        ).contains(c) implies ends_within(less, MAX_LEVELS as nat, c) by {
            assert(is_child(t, path, c));
            folders_same_ends(t, less, MAX_LEVELS as nat, c);
        }
    }
    query_lengths();
    assert(to_be_cut(less, path, subs, songs, lost_subs)) by {
        assert forall|c: Seq<char>| #[trigger] lost_subs.contains(c) <==> is_child(less, path, c)
            && !folder_paths(subs).contains(c) by {
            assert(first_texts(rows).contains(c) <==> is_child(less, path, c));
        }
        assert forall|c: Seq<char>| #[trigger] folder_paths(subs).contains(c) implies is_child(
            less,
            path,
            c,
        ) by {
            assert(is_child(t, path, c));
        }
        assert forall|s: Seq<char>| #[trigger] is_song_in(less, path, s) implies found_paths(
            songs,
        ).contains(s) by {
            assert(less.songs.contains_key(s));
            assert(is_song_in(t, path, s));
        }
    }
    refresh_matches_disk(less, path, subs, songs, lost_subs, end);
    let after = tables(t, seg);
    assert(after == tables(less, end));
    matches_from_before(t, less, after, path, subs, songs, lost);
}

proof fn matches_from_before(
    t: Tables,
    less: Tables,
    after: Tables,
    path: Seq<char>,
    subs: Seq<Folder>,
    songs: Seq<Found>,
    lost: Seq<Seq<char>>,
)
    requires
        matches_disk(less, after, path, subs, songs),
        less == (Tables { songs: less.songs, song_covers: covers_left(t, less.songs), ..t }),
        forall|s: Seq<char>| #[trigger]
            less.songs.contains_key(s) == (t.songs.contains_key(s) && !lost.contains(s)),
        forall|s: Seq<char>| #[trigger]
            less.songs.contains_key(s) ==> less.songs[s] == t.songs[s],
        forall|s: Seq<char>| #[trigger]
            lost.contains(s) <==> is_song_in(t, path, s) && !found_paths(songs).contains(s),
    ensures
        matches_disk(t, after, path, subs, songs),
{
    assert forall|f: Seq<char>| #[trigger] is_lost(t, path, subs, f) == is_lost(
        less,
        path,
        subs,
        f,
    ) by {
        if is_lost(t, path, subs, f) {
            folders_same_lost(t, less, path, subs, f);
        }
        if is_lost(less, path, subs, f) {
            folders_same_lost(less, t, path, subs, f);
        }
    }
    assert(folders_match(t, after, path, subs));
    assert forall|s: Seq<char>| #[trigger] stays_known(t, path, subs, songs, s) == stays_known(
        less,
        path,
        subs,
        songs,
        s,
    ) by {
        assert(less.songs.contains_key(s) == (t.songs.contains_key(s) && !lost.contains(s)));
        assert(lost.contains(s) == (is_song_in(t, path, s) && !found_paths(songs).contains(s)));
    }
    assert forall|i: int| 0 <= i < songs.len() implies has_row(
        after,
        row_left(t, path, subs, songs, songs[i].path),
        path,
        #[trigger] songs[i],
    ) by {
        let s = songs[i].path;
        assert(has_row(after, row_left(less, path, subs, songs, s), path, songs[i]));
        assert(stays_known(t, path, subs, songs, s) == stays_known(less, path, subs, songs, s));
        if stays_known(t, path, subs, songs, s) {
            assert(less.songs.contains_key(s));
        }
    }
    assert forall|s: Seq<char>|
        !found_paths(songs).contains(s) && #[trigger] after.songs.contains_key(
            s,
        ) implies after.songs[s] == t.songs[s] by {
        assert(stays_known(less, path, subs, songs, s));
        assert(less.songs.contains_key(s));
    }
    assert(after.song_covers =~= song_covers_left(t, path, subs, songs)) by {
        assert forall|s: Seq<char>| #[trigger]
            after.song_covers.contains_key(s) == song_covers_left(
            t,
            path,
            subs,
            songs,
        ).contains_key(s) by {
            assert(less.songs.contains_key(s) == (t.songs.contains_key(s) && !lost.contains(s)));
            assert(lost.contains(s) == (is_song_in(t, path, s) && !found_paths(songs).contains(
                s,
            )));
            assert(stays_known(t, path, subs, songs, s) == stays_known(less, path, subs, songs, s));
        }
    }
}

/// A scan brings the library up to date with a folder: the folder is entered with
/// its parent, its name, the time of its last change and whether it has songs, and
/// the folders found in it, which keep what their own scans have left. The folders
/// that are known in it but were not found go, with all that lies below them. The
/// songs that were found are up to date, and the folder has no others; the covers of
/// songs that are gone go. Nothing else changes. The folders that go form no ring, or the
/// scan ended sooner than it would in a ring.
#[verifier::rlimit(80)]
#[verifier::spinoff_prover]
pub proof fn scan_matches_disk(
    t: Tables,
    path: Seq<char>,
    parent: Option<Seq<char>>,
    mtime: int,
    subs: Seq<Folder>,
    songs: Seq<Found>,
    now: int,
    seg: Seq<Exchange>,
)
    requires
        scan_run(path, parent, mtime, subs, songs, now, true, seg),
        faithful(t, seg),
        went_through(seg),
        is_listing(path, subs, songs),
        lost_end(
            entered(t, path, own_row(path, parent, mtime, songs.len() > 0, now), subs),
            path,
            subs,
        ) || seg.len() < MAX_LEVELS,
    ensures
        matches_disk(
            entered(t, path, own_row(path, parent, mtime, songs.len() > 0, now), subs),
            tables(t, seg),
            path,
            subs,
            songs,
        ),
        tables(t, seg).folders[path] == own_row(path, parent, mtime, songs.len() > 0, now),
        forall|i: int|
            0 <= i < subs.len() ==> tables(t, seg).folders[(#[trigger] subs[i]).path] == sub_row(
                t,
                path,
                subs[i],
            ),
{
    let n = subs.len() as int;
    let first = seg.take(n + 1);
    runs_split(t, seg, n + 1);
    assert forall|i: int| 1 <= i <= subs.len() implies (#[trigger] first[i]).request
        == subfolder_request(path, subs[i - 1]) by {
        assert(first[i] == seg[i]);
    }
    let row = own_row(path, parent, mtime, songs.len() > 0, now);
    folders_are_kept(t, path, parent, mtime, songs.len() > 0, now, subs, first);
    let kept = tables(t, first);
    let t0 = Tables { folders: t.folders.insert(path, row), ..t };
    entering_changes_their_rows(t0, path, subs);
    assert(kept.folders.contains_key(path) == t0.folders.contains_key(path));
    let rest = seg.skip(n + 1);
    runs_split(kept, rest, 1);
    one_exchange(kept, rest.take(1));
    assert(rest.take(1)[0] == seg[n + 1]);
    assert(tables(kept, rest.take(1)) == kept);
    rows_are_right(kept, seg[n + 1], SONGS_OF_FOLDER@, path);
    let rows = rows_in(seg[n + 1])->0;
    let lost = gone(first_texts(rows), found_paths(songs));
    lost_are_gone(first_texts(rows), found_paths(songs));
    let end = seg.skip(n + 2);
    assert(rest.skip(1) =~= end);
    query_lengths();
    assert forall|s: Seq<char>| #[trigger] lost.contains(s) <==> is_song_in(kept, path, s)
        && !found_paths(songs).contains(s) by {
        assert(first_texts(rows).contains(s) <==> is_song_in(kept, path, s));
    }
    prune_matches_disk(kept, path, subs, songs, lost, end);
    let after = tables(t, seg);
    assert(after == tables(kept, end));
    assert forall|i: int| 0 <= i < subs.len() implies after.folders[(#[trigger] subs[i]).path]
        == sub_row(t, path, subs[i]) by {
        assert(folder_paths(subs)[i] == subs[i].path);
        assert(folder_paths(subs).contains(subs[i].path));
        assert(is_child(after, path, subs[i].path));
        assert(after.folders.contains_key(subs[i].path));
        assert(kept.folders[subs[i].path] == sub_row(t0, path, subs[i]));
    }
}

/// Whether the library knows of a folder what lies in it on disk. A song may be known in
/// another folder, where it was not changed since.
pub open spec fn known_already(
    t: Tables,
    path: Seq<char>,
    parent: Option<Seq<char>>,
    mtime: int,
    subs: Seq<Folder>,
    songs: Seq<Found>,
) -> bool {
    &&& t.folders.contains_key(path)
    &&& t.folders[path] == own_row(
        path,
        parent,
        mtime,
        songs.len() > 0,
        t.folders[path].scanned_at,
    )
    &&& forall|c: Seq<char>| #[trigger] is_child(t, path, c) <==> folder_paths(subs).contains(c)
    &&& forall|i: int|
        0 <= i < subs.len() ==> t.folders[(#[trigger] subs[i]).path].name == subs[i].name
    &&& forall|s: Seq<char>| #[trigger]
        is_song_in(t, path, s) ==> found_paths(songs).contains(s)
    &&& forall|i: int|
        0 <= i < songs.len() ==> {
            let kept = t.songs[(#[trigger] songs[i]).path].mtime;
            &&& t.songs.contains_key(songs[i].path)
            &&& kept == songs[i].mtime || apart((t.read_time)(kept), songs[i].mtime) < SAME_TIME
        }
}

/// The tables with the time of a folder's last scan noted.
pub open spec fn scanned_again(t: Tables, path: Seq<char>, now: int) -> Tables {
    Tables {
        folders: t.folders.insert(path, FolderRow { scanned_at: now, ..t.folders[path] }),
        ..t
    }
}

proof fn entering_known_changes_nothing(t: Tables, path: Seq<char>, subs: Seq<Folder>)
    requires
        forall|i: int|
            0 <= i < subs.len() ==> is_child(t, path, (#[trigger] subs[i]).path)
                && t.folders[subs[i].path].name == subs[i].name,
    ensures
        subs_entered(t, path, subs) == t,
    decreases subs.len(),
{
    if subs.len() > 0 {
        let init = subs.drop_last();
        let last = subs.last();
        assert forall|i: int| 0 <= i < init.len() implies is_child(
            t,
            path,
            (#[trigger] init[i]).path,
        ) && t.folders[init[i].path].name == init[i].name by {
            assert(init[i] == subs[i]);
        }
        entering_known_changes_nothing(t, path, init);
        assert(last == subs[subs.len() - 1]);
        assert(sub_row(t, path, last) == t.folders[last.path]);
        assert(t.folders.insert(last.path, t.folders[last.path]) =~= t.folders);
    }
}

proof fn refresh_of_known(t: Tables, path: Seq<char>, songs: Seq<Found>, seg: Seq<Exchange>)
    requires
        refresh_run(path, Seq::empty(), songs, true, seg),
        faithful(t, seg),
        went_through(seg),
        found_paths(songs).no_duplicates(),
        forall|i: int|
            0 <= i < songs.len() ==> {
                let kept = t.songs[(#[trigger] songs[i]).path].mtime;
                &&& t.songs.contains_key(songs[i].path)
                &&& kept == songs[i].mtime || apart((t.read_time)(kept), songs[i].mtime) < SAME_TIME
            },
    ensures
        tables(t, seg) == t,
{
    let none = Seq::<Seq<char>>::empty();
    let k = choose|k: int|
        0 <= k <= seg.len() && deletes_done(MAX_LEVELS as nat, none, #[trigger] seg.take(k))
            && all_done(songs, song_runs(path), seg.skip(k));
    assert(k == 0);
    assert(seg.skip(0) =~= seg);
    songs_are_kept(t, path, songs, seg);
    let after = tables(t, seg);
    assert forall|s: Seq<char>| #[trigger]
        after.songs.contains_key(s) == t.songs.contains_key(s) && after.songs[s] == t.songs[s] by {
        if found_paths(songs).contains(s) {
            let i = choose|i: int| 0 <= i < songs.len() && found_paths(songs)[i] == s;
            assert(up_to_date(t, after, path, songs[i]));
        }
    }
    assert(after.songs =~= t.songs);
}

/// Scanning a folder that the library knows as it is on disk changes nothing but the
/// time of its last scan.
#[verifier::spinoff_prover]
pub proof fn rescan_changes_nothing(
    t: Tables,
    path: Seq<char>,
    parent: Option<Seq<char>>,
    mtime: int,
    subs: Seq<Folder>,
    songs: Seq<Found>,
    now: int,
    seg: Seq<Exchange>,
)
    requires
        scan_run(path, parent, mtime, subs, songs, now, true, seg),
        faithful(t, seg),
        went_through(seg),
        known_already(t, path, parent, mtime, subs, songs),
        is_listing(path, subs, songs),
    ensures
        tables(t, seg) == scanned_again(t, path, now),
{
    let n = subs.len() as int;
    let first = seg.take(n + 1);
    runs_split(t, seg, n + 1);
    assert forall|i: int| 1 <= i <= subs.len() implies (#[trigger] first[i]).request
        == subfolder_request(path, subs[i - 1]) by {
        assert(first[i] == seg[i]);
    }
    folders_are_kept(t, path, parent, mtime, songs.len() > 0, now, subs, first);
    let kept = scanned_again(t, path, now);
    assert forall|i: int| 0 <= i < subs.len() implies is_child(
        kept,
        path,
        (#[trigger] subs[i]).path,
    ) && kept.folders[subs[i].path].name == subs[i].name by {
        assert(folder_paths(subs)[i] == subs[i].path);
        assert(folder_paths(subs).contains(subs[i].path));
        assert(is_child(t, path, subs[i].path));
    }
    entering_known_changes_nothing(kept, path, subs);
    assert(tables(t, first) == kept);
    let rest = seg.skip(n + 1);
    runs_split(kept, rest, 1);
    one_exchange(kept, rest.take(1));
    assert(rest.take(1)[0] == seg[n + 1]);
    assert(tables(kept, rest.take(1)) == kept);
    query_lengths();
    rows_are_right(kept, seg[n + 1], SONGS_OF_FOLDER@, path);
    let rows = rows_in(seg[n + 1])->0;
    let lost = gone(first_texts(rows), found_paths(songs));
    lost_are_gone(first_texts(rows), found_paths(songs));
    assert(lost.len() == 0) by {
        if lost.len() > 0 {
            assert(lost.contains(lost[0]));
            assert(is_song_in(kept, path, lost[0]));
            assert(is_song_in(t, path, lost[0]));
        }
    }
    let end = seg.skip(n + 2);
    assert(rest.skip(1) =~= end);
    runs_split(kept, end, 1);
    one_exchange(kept, end.take(1));
    assert(end.take(1)[0] == end[0]);
    assert(tables(kept, end.take(1)) == kept);
    rows_are_right(kept, end[0], CHILD_FOLDERS@, path);
    let child_rows = rows_in(end[0])->0;
    let lost_subs = gone(first_texts(child_rows), folder_paths(subs));
    lost_are_gone(first_texts(child_rows), folder_paths(subs));
    assert(lost_subs =~= Seq::empty()) by {
        if lost_subs.len() > 0 {
            let c = lost_subs[0];
            assert(lost_subs.contains(c));
            assert(is_child(kept, path, c));
            assert(t.folders.contains_key(c));
            assert(is_child(t, path, c));
        }
    }
    refresh_of_known(kept, path, songs, end.skip(1));
}

/// A second scan of a folder that was not changed changes nothing but the time of
/// its last scan: the songs, the covers and all other folders stay exactly as the
/// first scan has left them. The first scan came to its end.
pub proof fn second_scan_changes_nothing(
    t: Tables,
    path: Seq<char>,
    parent: Option<Seq<char>>,
    mtime: int,
    entries: Seq<Entry>,
    now: int,
    later: int,
    seg: Seq<Exchange>,
    again: Seq<Exchange>,
)
    requires
        scan_run(
            path,
            parent,
            mtime,
            subfolders_in(entries),
            audio_files_in(entries),
            now,
            true,
            seg,
        ),
        scan_run(
            path,
            parent,
            mtime,
            subfolders_in(entries),
            audio_files_in(entries),
            later,
            true,
            again,
        ),
        faithful(t, seg),
        went_through(seg),
        faithful(tables(t, seg), again),
        went_through(again),
        lie_in(path, entries),
        seg.len() < MAX_LEVELS,
    ensures
        tables(tables(t, seg), again) == scanned_again(tables(t, seg), path, later),
{
    let subs = subfolders_in(entries);
    let songs = audio_files_in(entries);
    entries_make_a_listing(path, entries);
    let row = own_row(path, parent, mtime, songs.len() > 0, now);
    let kept = entered(t, path, row, subs);
    let after = tables(t, seg);
    scan_matches_disk(t, path, parent, mtime, subs, songs, now, seg);
    let t0 = Tables { folders: t.folders.insert(path, row), ..t };
    entering_changes_their_rows(t0, path, subs);
    assert(known_already(after, path, parent, mtime, subs, songs)) by {
        assert forall|i: int| 0 <= i < songs.len() implies {
            let kept = after.songs[(#[trigger] songs[i]).path].mtime;
            &&& after.songs.contains_key(songs[i].path)
            &&& kept == songs[i].mtime || apart((after.read_time)(kept), songs[i].mtime) < SAME_TIME
        } by {
            assert(has_row(
                after,
                row_left(kept, path, subs, songs, songs[i].path),
                path,
                songs[i],
            ));
        }
    }
    rescan_changes_nothing(after, path, parent, mtime, subs, songs, later, again);
}

/// After a scan the lists of a folder show what lies in it on disk: the folders and
/// the songs that were found, where these are known nowhere else.
pub proof fn scanned_folder_is_shown(
    before: Tables,
    after: Tables,
    path: Seq<char>,
    subs: Seq<Folder>,
    songs: Seq<Found>,
    folder_list: Exchange,
    song_list: Exchange,
)
    requires
        matches_disk(before, after, path, subs, songs),
        known_here(before, path, songs),
        answers(after, folder_list),
        folder_list.request == Request::QueryMap(FOLDER_CHILDREN@, seq![path]),
        answers(after, song_list),
        song_list.request == Request::QueryMap(FOLDER_SONGS@, seq![path]),
    ensures
        rows_in(folder_list) matches Some(rows) && forall|c: Seq<char>|
            folder_paths(subs).contains(c) <==> #[trigger] folder_paths(folders_in(rows)).contains(
                c,
            ),
        rows_in(song_list) matches Some(rows) && forall|s: Seq<char>|
            found_paths(songs).contains(s) <==> #[trigger] song_paths(songs_in(rows)).contains(s),
{
    query_lengths();
    rows_are_right(after, folder_list, FOLDER_CHILDREN@, path);
    rows_are_right(after, song_list, FOLDER_SONGS@, path);
    reveal(shows_folders);
    reveal(shows_songs);
    found_songs_are_those_of_the_folder(before, after, path, subs, songs);
    let folder_rows = folders_in(rows_in(folder_list)->0);
    assert forall|c: Seq<char>|
        folder_paths(subs).contains(c) <==> #[trigger] folder_paths(folder_rows).contains(c) by {
        if folder_paths(subs).contains(c) {
            assert(is_child(after, path, c));
            let i = choose|i: int| 0 <= i < folder_rows.len() && (#[trigger] folder_rows[i]).path
                == c;
            assert(folder_paths(folder_rows)[i] == c);
        }
        if folder_paths(folder_rows).contains(c) {
            let i = choose|i: int| 0 <= i < folder_rows.len() && folder_paths(folder_rows)[i] == c;
            assert(is_child(after, path, folder_rows[i].path));
        }
    }
    let song_rows = songs_in(rows_in(song_list)->0);
    assert forall|s: Seq<char>|
        found_paths(songs).contains(s) <==> #[trigger] song_paths(song_rows).contains(s) by {
        if found_paths(songs).contains(s) {
            assert(is_song_in(after, path, s));
            let i = choose|i: int| 0 <= i < song_rows.len() && (#[trigger] song_rows[i]).path == s;
            assert(song_paths(song_rows)[i] == s);
        }
        if song_paths(song_rows).contains(s) {
            let i = choose|i: int| 0 <= i < song_rows.len() && song_paths(song_rows)[i] == s;
            assert(is_song_in(after, path, song_rows[i].path));
        }
    }
}

/// The paths of songs.
pub open spec fn song_paths(songs: Seq<Song>) -> Seq<Seq<char>> {
    songs.map_values(|s: Song| s.path)
}

proof fn folders_same_ends(a: Tables, b: Tables, levels: nat, path: Seq<char>)
    requires
        a.folders == b.folders,
        ends_within(a, levels, path),
    ensures
        ends_within(b, levels, path),
    decreases levels,
{
    assert forall|c: Seq<char>| #[trigger] is_child(b, path, c) implies ends_within(
        b,
        (levels - 1) as nat,
        c,
    ) by {
        assert(is_child(a, path, c));
        folders_same_ends(a, b, (levels - 1) as nat, c);
    }
}

proof fn folders_same_lost(
    a: Tables,
    b: Tables,
    path: Seq<char>,
    subs: Seq<Folder>,
    f: Seq<char>,
)
    requires
        a.folders == b.folders,
        is_lost(a, path, subs, f),
    ensures
        is_lost(b, path, subs, f),
{
    let all = MAX_LEVELS as nat;
    let c = choose|c: Seq<char>| #[trigger]
        is_child(a, path, c) && !folder_paths(subs).contains(c) && lies_below(a, all, c, f);
    folders_same_below(a, b, all, c, f);
    assert(is_child(b, path, c));
}

proof fn folders_same_below(a: Tables, b: Tables, levels: nat, path: Seq<char>, f: Seq<char>)
    requires
        a.folders == b.folders,
        lies_below(a, levels, path, f),
    ensures
        lies_below(b, levels, path, f),
    decreases levels,
{
    if f != path {
        let c = choose|c: Seq<char>| #[trigger]
            is_child(a, path, c) && lies_below(a, (levels - 1) as nat, c, f);
        folders_same_below(a, b, (levels - 1) as nat, c, f);
        assert(is_child(b, path, c));
    }
}

} // verus!
