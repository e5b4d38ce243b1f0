//! What the library promises of the entries it shows and of the songs it reads, where its
//! database answers faithfully: each entry agrees field by field with what the tables hold.
use crate::enrich::{cover_run, enrich_run, SongInfo};
use crate::file_item::Item;
use crate::items::{
    cover_request, folder_shown, folders_shown, hit_run, hit_runs, paired, run_of_each,
    shown_folders, shown_roots, shown_songs, Art, Entry,
};
use crate::labels::hidden_artist;
use crate::matching::nocase_at_most;
use crate::paths::{file_name, or_empty, path_stem};
use crate::records::{folders_in, songs_in, Folder, Song};
use crate::sql::{
    FOLDER_CHILDREN, FOLDER_SONGS, GET_COVER, GET_SONG_COVER, HAS_COVER, SET_COVER, SET_SONG_COVER,
    SONG_COVERS_OF_FOLDER, UPDATE_METADATA,
};
use crate::store::{
    all_done, bytes_at, integer_at, row_in, rows_in, text_at, Datum, Exchange, Request,
};
use crate::tables::{
    answers, executed, faithful, is_child, is_song_in, listed_before, one_exchange, only_queries,
    queries_change_nothing, query_lengths, read_back, row_is_right, rows_are_right, runs_split,
    shows_folders, shows_songs, statement_lengths, tables, went_through, SongRow, Tables,
};
use vstd::prelude::*;

verus! {

/// What is known of the cover of a folder.
pub open spec fn cover_known(t: Tables, path: Seq<char>) -> Option<Seq<u8>> {
    if t.covers.contains_key(path) {
        t.covers[path]
    } else {
        None
    }
}

/// What is known of the cover of a song.
pub open spec fn song_cover_known(t: Tables, path: Seq<char>) -> Option<Seq<u8>> {
    if t.song_covers.contains_key(path) {
        Some(t.song_covers[path])
    } else {
        None
    }
}

/// Whether the item of a song agrees with its row, but for the year. A song without a
/// title has its name without the extension as its title.
pub open spec fn agrees(t: Tables, item: Item<Art>, row: SongRow) -> bool {
    &&& !item.is_folder
    &&& item.name == row.name
    &&& row.title.len() > 0 ==> item.title == row.title
    &&& row.title.len() == 0 ==> item.title == path_stem(row.name)
    &&& item.artist == row.meta.artist
    &&& item.album == row.meta.album
    &&& item.format_type == row.format_type
    &&& item.bitrate == row.meta.bitrate
    &&& item.sample_rate == row.meta.sample_rate
    &&& item.bits_per_sample == row.meta.bits_per_sample
    &&& read_back(t, row.meta.duration, item.duration)
}

/// Items that are left stand in the order they had, and none is made up.
pub proof fn filtered_keeps_order<T>(s: Seq<T>, keep: spec_fn(T) -> bool, i: int, j: int) -> (r: (
    int,
    int,
))
    requires
        0 <= i < j < s.filter(keep).len(),
    ensures
        0 <= r.0 < r.1 < s.len(),
        s[r.0] == s.filter(keep)[i],
        s[r.1] == s.filter(keep)[j],
    decreases s.len(),
{
    reveal(Seq::filter);
    if s.len() == 0 {
        (0, 0)
    } else {
        let init = s.drop_last();
        let left = init.filter(keep);
        if keep(s.last()) && j == left.len() {
            let a = filtered_comes_from(init, keep, i);
            (a, s.len() - 1)
        } else {
            filtered_keeps_order(init, keep, i, j)
        }
    }
}

/// An item that is left was there.
pub proof fn filtered_comes_from<T>(s: Seq<T>, keep: spec_fn(T) -> bool, i: int) -> (r: int)
    requires
        0 <= i < s.filter(keep).len(),
    ensures
        0 <= r < s.len(),
        s[r] == s.filter(keep)[i],
        keep(s[r]),
    decreases s.len(),
{
    reveal(Seq::filter);
    if s.len() == 0 {
        0
    } else {
        let init = s.drop_last();
        if keep(s.last()) && i == init.filter(keep).len() {
            s.len() - 1
        } else {
            filtered_comes_from(init, keep, i)
        }
    }
}

proof fn answered_in_place(t: Tables, seg: Seq<Exchange>, i: int)
    requires
        faithful(t, seg),
        only_queries(seg),
        0 <= i < seg.len(),
    ensures
        answers(t, seg[i]),
{
    reveal(faithful);
    let before = seg.take(i);
    assert forall|j: int| 0 <= j < before.len() implies ((#[trigger] before[j]).request is QueryRow
        || before[j].request is QueryMap) by {
        assert(before[j] == seg[j]);
    }
    queries_change_nothing(t, before);
    assert(answers(tables(t, seg.take(i)), seg[i]));
}

proof fn folder_is_shown_by_queries(
    path: Seq<char>,
    hide: bool,
    seg: Seq<Exchange>,
    entries: Seq<Entry>,
    cover: Option<Seq<u8>>,
    unscanned: bool,
)
    requires
        folder_shown(path, hide, seg, entries, cover, unscanned),
    ensures
        only_queries(seg),
        forall|i: int|
            0 <= i < shown_folders(folders_in(rows_in(seg[0])->0), hide).len() ==> (
            #[trigger] seg[i + 2]).request == Request::QueryRow(
                GET_COVER@,
                seq![shown_folders(folders_in(rows_in(seg[0])->0), hide)[i].path],
            ),
        seg.len() == shown_folders(folders_in(rows_in(seg[0])->0), hide).len() + 4,
{
    let folders = shown_folders(folders_in(rows_in(seg[0])->0), hide);
    let mid = seg.subrange(2, seg.len() - 2);
    assert forall|i: int| 0 <= i < folders.len() implies (#[trigger] seg[i + 2]).request
        == Request::QueryRow(GET_COVER@, seq![folders[i].path]) by {
        assert(mid[i] == seg[i + 2]);
        assert(mid[i].request == cover_request(folders[i].path));
    }
    assert forall|i: int| 0 <= i < seg.len() implies ((#[trigger] seg[i]).request is QueryRow
        || seg[i].request is QueryMap) by {
        if 2 <= i < seg.len() - 2 {
            assert(seg[(i - 2) + 2].request is QueryRow);
        }
    }
}

/// A folder is shown as the tables hold it. First come folders that lie directly in it and
/// hold audio, each with its name and its cover; then its songs, which agree field by field
/// with their rows, each with its own cover. Folders and songs are each ordered by name.
/// None is missing, but for what is hidden. Nothing changes.
#[verifier::rlimit(60)]
#[verifier::spinoff_prover]
pub proof fn shown_folder_agrees_with_the_tables(
    t: Tables,
    path: Seq<char>,
    hide: bool,
    seg: Seq<Exchange>,
    entries: Seq<Entry>,
    cover: Option<Seq<u8>>,
    unscanned: bool,
)
    requires
        folder_shown(path, hide, seg, entries, cover, unscanned),
        faithful(t, seg),
    ensures
        tables(t, seg) == t,
        cover == cover_known(t, path),
        unscanned <==> exists|s: Seq<char>| #[trigger]
            is_song_in(t, path, s) && !t.songs[s].meta_scanned,
        forall|i: int|
            0 <= i < entries.len() && (#[trigger] entries[i]).item.is_folder ==> {
                let p = entries[i].item.path;
                &&& is_child(t, path, p)
                &&& t.folders[p].has_audio != 0
                &&& entries[i].item.name == t.folders[p].name
                &&& !(hide && hidden_artist(t.folders[p].name))
                &&& entries[i].own == cover_known(t, p)
                &&& !entries[i].or_folder
            },
        forall|i: int|
            0 <= i < entries.len() && !(#[trigger] entries[i]).item.is_folder ==> {
                let p = entries[i].item.path;
                &&& is_song_in(t, path, p)
                &&& agrees(t, entries[i].item, t.songs[p])
                &&& entries[i].item.year == t.songs[p].meta.year
                &&& !(hide && hidden_artist(t.songs[p].meta.artist))
                &&& entries[i].own == song_cover_known(t, p)
                &&& entries[i].or_folder
            },
        forall|c: Seq<char>| #[trigger]
            is_child(t, path, c) && t.folders[c].has_audio != 0 && !(hide && hidden_artist(
                t.folders[c].name,
            )) ==> exists|i: int|
                0 <= i < entries.len() && (#[trigger] entries[i]).item.is_folder
                    && entries[i].item.path == c,
        forall|s: Seq<char>| #[trigger]
            is_song_in(t, path, s) && !(hide && hidden_artist(t.songs[s].meta.artist))
                ==> exists|i: int|
                0 <= i < entries.len() && !(#[trigger] entries[i]).item.is_folder
                    && entries[i].item.path == s,
        forall|i: int, j: int|
            0 <= i < j < entries.len() ==> {
                let a = (#[trigger] entries[i]).item;
                let b = (#[trigger] entries[j]).item;
                &&& b.is_folder ==> a.is_folder
                &&& a.is_folder == b.is_folder ==> a.path != b.path
                &&& b.is_folder ==> nocase_at_most(a.name, b.name)
                &&& !a.is_folder ==> listed_before(t, a.path, b.path)
            },
{
    let all_folders = folders_in(rows_in(seg[0])->0);
    let folders = shown_folders(all_folders, hide);
    let all_songs = songs_in(rows_in(seg[1])->0);
    let songs = shown_songs(all_songs, hide);
    let n = folders.len() as int;
    let last = seg.len() - 1;
    let pf = |f: Folder| f.has_audio && !(hide && hidden_artist(f.name));
    let ps = |s: Song| !(hide && hidden_artist(s.artist));
    folder_is_shown_by_queries(path, hide, seg, entries, cover, unscanned);
    queries_change_nothing(t, seg);
    query_lengths();
    answered_in_place(t, seg, 0);
    answered_in_place(t, seg, 1);
    answered_in_place(t, seg, last - 1);
    answered_in_place(t, seg, last);
    rows_are_right(t, seg[0], FOLDER_CHILDREN@, path);
    rows_are_right(t, seg[1], FOLDER_SONGS@, path);
    row_is_right(t, seg[last - 1], GET_COVER@, path);
    rows_are_right(t, seg[last], SONG_COVERS_OF_FOLDER@, path);
    reveal(shows_folders);
    reveal(shows_songs);
    assert(cover == cover_known(t, path));
    assert(entries.len() == n + songs.len());
    assert forall|i: int| 0 <= i < n implies {
        let e = #[trigger] entries[i];
        &&& e.item.is_folder
        &&& e.item.path == folders[i].path
        &&& e.item.name == folders[i].name
        &&& e.own == cover_known(t, folders[i].path)
        &&& is_child(t, path, folders[i].path)
        &&& t.folders[folders[i].path].has_audio != 0
        &&& folders[i].name == t.folders[folders[i].path].name
        &&& !(hide && hidden_artist(folders[i].name))
        &&& !e.or_folder
    } by {
        assert(entries.take(n)[i] == entries[i]);
        let mid = seg.subrange(2, seg.len() - 2);
        assert(mid[i] == seg[i + 2]);
        answered_in_place(t, seg, i + 2);
        row_is_right(t, seg[i + 2], GET_COVER@, folders[i].path);
        let k = filtered_comes_from(all_folders, pf, i);
        assert(all_folders[k] == folders[i]);
    }
    assert forall|i: int| n <= i < entries.len() implies {
        let e = #[trigger] entries[i];
        let p = songs[i - n].path;
        &&& !e.item.is_folder
        &&& e.item.path == p
        &&& is_song_in(t, path, p)
        &&& agrees(t, e.item, t.songs[p])
        &&& e.item.year == t.songs[p].meta.year
        &&& e.own == song_cover_known(t, p)
        &&& !(hide && hidden_artist(t.songs[p].meta.artist))
        &&& e.or_folder
    } by {
        assert(entries.skip(n)[i - n] == entries[i]);
        let k = filtered_comes_from(all_songs, ps, i - n);
        assert(all_songs[k] == songs[i - n]);
    }
    assert forall|c: Seq<char>| #[trigger]
        is_child(t, path, c) && t.folders[c].has_audio != 0 && !(hide && hidden_artist(
            t.folders[c].name,
        )) implies exists|i: int|
        0 <= i < entries.len() && (#[trigger] entries[i]).item.is_folder && entries[i].item.path
            == c by {
        let k = choose|k: int| 0 <= k < all_folders.len() && (#[trigger] all_folders[k]).path == c;
        all_folders.lemma_filter_contains(pf, k);
        let i = choose|i: int| 0 <= i < folders.len() && folders[i] == all_folders[k];
        assert(entries[i].item.path == c);
    }
    assert forall|s: Seq<char>| #[trigger]
        is_song_in(t, path, s) && !(hide && hidden_artist(t.songs[s].meta.artist)) implies exists|
        i: int,
    |
        0 <= i < entries.len() && !(#[trigger] entries[i]).item.is_folder && entries[i].item.path
            == s by {
        let k = choose|k: int| 0 <= k < all_songs.len() && (#[trigger] all_songs[k]).path == s;
        all_songs.lemma_filter_contains(ps, k);
        let i = choose|i: int| 0 <= i < songs.len() && songs[i] == all_songs[k];
        assert(entries[n + i].item.path == s);
    }
    assert forall|i: int, j: int| 0 <= i < j < entries.len() implies {
        let a = (#[trigger] entries[i]).item;
        let b = (#[trigger] entries[j]).item;
        &&& b.is_folder ==> a.is_folder
        &&& a.is_folder == b.is_folder ==> a.path != b.path
        &&& b.is_folder ==> nocase_at_most(a.name, b.name)
        &&& !a.is_folder ==> listed_before(t, a.path, b.path)
    } by {
        if j < n {
            let (x, y) = filtered_keeps_order(all_folders, pf, i, j);
            assert(all_folders[x].path != all_folders[y].path);
        } else if i >= n {
            let (x, y) = filtered_keeps_order(all_songs, ps, i - n, j - n);
            assert(all_songs[x].path != all_songs[y].path);
        }
    }
    if unscanned {
        let k = choose|k: int| 0 <= k < all_songs.len() && !(#[trigger] all_songs[k]).meta_scanned;
        assert(is_song_in(t, path, all_songs[k].path));
    }
    if exists|s: Seq<char>| #[trigger] is_song_in(t, path, s) && !t.songs[s].meta_scanned {
        let s = choose|s: Seq<char>| #[trigger]
            is_song_in(t, path, s) && !t.songs[s].meta_scanned;
        let k = choose|k: int| 0 <= k < all_songs.len() && (#[trigger] all_songs[k]).path == s;
        assert(!all_songs[k].meta_scanned);
    }
}

/// The folders of the library are shown by their paths and names, in their order, each with
/// its cover; hidden ones are left out.
pub proof fn shown_roots_agree_with_the_tables(
    t: Tables,
    roots: Seq<Seq<char>>,
    hide: bool,
    seg: Seq<Exchange>,
    entries: Seq<Entry>,
)
    requires
        folders_shown(
            shown_roots(roots, hide).map_values(
                |f: Seq<char>| Folder { path: f, name: or_empty(file_name(f)), has_audio: true },
            ),
            seg,
            entries,
        ),
        faithful(t, seg),
    ensures
        tables(t, seg) == t,
        forall|i: int|
            0 <= i < entries.len() ==> {
                let e = #[trigger] entries[i];
                &&& e.item.is_folder
                &&& roots.contains(e.item.path)
                &&& e.item.name == or_empty(file_name(e.item.path))
                &&& e.own == cover_known(t, e.item.path)
            },
        forall|k: int|
            0 <= k < roots.len() && !(hide && hidden_artist(or_empty(file_name(roots[k]))))
                ==> exists|i: int|
                0 <= i < entries.len() && (#[trigger] entries[i]).item.path == #[trigger] roots[k],
        !hide ==> entries.len() == roots.len() && forall|i: int|
            0 <= i < roots.len() ==> (#[trigger] entries[i]).item.path == roots[i],
{
    let keep = |f: Seq<char>| !(hide && hidden_artist(or_empty(file_name(f))));
    let shown = shown_roots(roots, hide);
    let folders = shown.map_values(
        |f: Seq<char>| Folder { path: f, name: or_empty(file_name(f)), has_audio: true },
    );
    assert forall|i: int| 0 <= i < seg.len() implies ((#[trigger] seg[i]).request is QueryRow
        || seg[i].request is QueryMap) by {
        assert(seg[i].request == cover_request(folders[i].path));
    }
    queries_change_nothing(t, seg);
    query_lengths();
    assert forall|i: int| 0 <= i < entries.len() implies {
        let e = #[trigger] entries[i];
        &&& e.item.is_folder
        &&& roots.contains(e.item.path)
        &&& e.item.path == shown[i]
        &&& e.item.name == or_empty(file_name(e.item.path))
        &&& e.own == cover_known(t, e.item.path)
    } by {
        assert(seg[i].request == cover_request(folders[i].path));
        answered_in_place(t, seg, i);
        row_is_right(t, seg[i], GET_COVER@, folders[i].path);
        let k = filtered_comes_from(roots, keep, i);
        assert(roots[k] == shown[i]);
    }
    assert forall|k: int|
        0 <= k < roots.len() && !(hide && hidden_artist(or_empty(file_name(roots[k])))) implies exists|
        i: int,
    |
        0 <= i < entries.len() && (#[trigger] entries[i]).item.path == #[trigger] roots[k] by {
        roots.lemma_filter_contains(keep, k);
        let i = choose|i: int| 0 <= i < shown.len() && shown[i] == roots[k];
        assert(entries[i].item.path == roots[k]);
    }
    if !hide {
        nothing_is_filtered(roots, keep);
    }
}

proof fn nothing_is_filtered<T>(s: Seq<T>, keep: spec_fn(T) -> bool)
    requires
        forall|i: int| 0 <= i < s.len() ==> keep(#[trigger] s[i]),
    ensures
        s.filter(keep) == s,
    decreases s.len(),
{
    reveal(Seq::filter);
    if s.len() > 0 {
        let init = s.drop_last();
        assert forall|i: int| 0 <= i < init.len() implies keep(#[trigger] init[i]) by {
            assert(init[i] == s[i]);
        }
        nothing_is_filtered(init, keep);
        assert(s.last() == s[s.len() - 1]);
        assert(s =~= init.push(s.last()));
    }
}

/// A song that a search found is shown with what was found of it, and with its own cover or,
/// where none is known, the cover of its folder. Nothing changes.
pub proof fn shown_hit_agrees_with_the_tables(
    t: Tables,
    song: Song,
    entry: Entry,
    seg: Seq<Exchange>,
)
    requires
        hit_run(song, entry, seg),
        faithful(t, seg),
    ensures
        tables(t, seg) == t,
        !entry.item.is_folder,
        entry.item.path == song.path,
        entry.item.name == song.name,
        song.title.len() > 0 ==> entry.item.title == song.title,
        song.title.len() == 0 ==> entry.item.title == path_stem(song.name),
        entry.item.artist == song.artist,
        entry.item.album == song.album,
        entry.item.format_type == song.format_type,
        entry.item.bitrate == song.bitrate,
        entry.item.sample_rate == song.sample_rate,
        entry.item.bits_per_sample == song.bits_per_sample,
        entry.item.duration == song.duration,
        entry.own == match song_cover_known(t, song.path) {
            Some(b) => Some(b),
            None => cover_known(t, song.folder),
        },
        !entry.or_folder,
{
    query_lengths();
    assert(only_queries(seg));
    queries_change_nothing(t, seg);
    answered_in_place(t, seg, 0);
    row_is_right(t, seg[0], GET_SONG_COVER@, song.path);
    if t.song_covers.contains_key(song.path) {
        assert(bytes_at(row_in(seg[0])->0, 0) == Some(t.song_covers[song.path]));
    } else {
        answered_in_place(t, seg, 1);
        row_is_right(t, seg[1], GET_COVER@, song.folder);
    }
}

/// The entries of a search show songs that were found: the entry at a place is that of a song
/// that was found, and where nothing is hidden of the one at the same place.
pub proof fn shown_hits_were_found(
    results: Seq<Song>,
    hide: bool,
    entries: Seq<Entry>,
    seg: Seq<Exchange>,
    i: int,
) -> (k: int)
    requires
        entries.len() == shown_songs(results, hide).len(),
        all_done(paired(shown_songs(results, hide), entries), hit_runs(), seg),
        0 <= i < entries.len(),
    ensures
        0 <= k < results.len(),
        !hide ==> k == i && entries.len() == results.len(),
        !(hide && hidden_artist(results[k].artist)),
        !entries[i].item.is_folder,
        entries[i].item.path == results[k].path,
        entries[i].item.name == results[k].name,
        results[k].title.len() > 0 ==> entries[i].item.title == results[k].title,
        entries[i].item.artist == results[k].artist,
        entries[i].item.album == results[k].album,
        entries[i].item.format_type == results[k].format_type,
        entries[i].item.bitrate == results[k].bitrate,
        entries[i].item.sample_rate == results[k].sample_rate,
        entries[i].item.bits_per_sample == results[k].bits_per_sample,
        entries[i].item.duration == results[k].duration,
{
    let keep = |s: Song| !(hide && hidden_artist(s.artist));
    let songs = shown_songs(results, hide);
    let part = run_of_each(paired(songs, entries), hit_runs(), seg, i);
    assert(paired(songs, entries)[i] == (songs[i], entries[i]));
    assert(hit_run(songs[i], entries[i], part));
    if hide {
        filtered_comes_from(results, keep, i)
    } else {
        nothing_is_filtered(results, keep);
        i
    }
}

/// Every song that a search found is shown, but for those that are hidden.
pub proof fn all_hits_are_shown(
    results: Seq<Song>,
    hide: bool,
    entries: Seq<Entry>,
    seg: Seq<Exchange>,
    k: int,
) -> (i: int)
    requires
        entries.len() == shown_songs(results, hide).len(),
        all_done(paired(shown_songs(results, hide), entries), hit_runs(), seg),
        0 <= k < results.len(),
        !(hide && hidden_artist(results[k].artist)),
    ensures
        0 <= i < entries.len(),
        entries[i].item.path == results[k].path,
{
    let keep = |s: Song| !(hide && hidden_artist(s.artist));
    let songs = shown_songs(results, hide);
    results.lemma_filter_contains(keep, k);
    let i = choose|i: int| 0 <= i < songs.len() && songs[i] == results[k];
    let part = run_of_each(paired(songs, entries), hit_runs(), seg, i);
    assert(paired(songs, entries)[i] == (songs[i], entries[i]));
    assert(hit_run(songs[i], entries[i], part));
    i
}

/// Keeping what a song file says of itself keeps each field of it. A song without a title
/// gets its name without the extension as its title. The bitrate is kept in whole kilobits
/// per second. The cover becomes the cover of the song, and of its folder where nothing is
/// known of that. No other song and no other cover changes, nor do the folders.
#[verifier::spinoff_prover]
pub proof fn read_song_is_kept(
    t: Tables,
    path: Seq<char>,
    dir: Seq<char>,
    stem: Seq<char>,
    info: SongInfo,
    seg: Seq<Exchange>,
)
    requires
        enrich_run(path, dir, stem, info, seg),
        faithful(t, seg),
        went_through(seg),
        t.songs.contains_key(path),
    ensures
        ({
            let after = tables(t, seg);
            let row = after.songs[path];
            &&& after.songs.contains_key(path)
            &&& info.title@.len() > 0 ==> row.title == info.title@
            &&& info.title@.len() == 0 ==> row.title == stem
            &&& row.meta.artist == info.artist@
            &&& row.meta.album == info.album@
            &&& row.meta.year == info.year@
            &&& row.meta.duration == info.duration
            &&& row.meta_scanned
            &&& info.stream matches Some(s) ==> {
                &&& 1000 * row.meta.bitrate <= s.bitrate < 1000 * (row.meta.bitrate + 1)
                &&& s.sample_rate <= i32::MAX ==> row.meta.sample_rate == s.sample_rate
                &&& s.depth <= i32::MAX ==> row.meta.bits_per_sample == s.depth
            }
            &&& info.stream is None ==> {
                &&& row.meta.bitrate == 0
                &&& row.meta.sample_rate == 0
                &&& row.meta.bits_per_sample == 0
            }
            &&& row.folder == t.songs[path].folder
            &&& row.name == t.songs[path].name
            &&& row.format_type == t.songs[path].format_type
            &&& row.mtime == t.songs[path].mtime
            &&& after.songs.remove(path) == t.songs.remove(path)
            &&& after.folders == t.folders
            &&& after.song_covers == match info.cover {
                Some(b) => t.song_covers.insert(path, b@),
                None => t.song_covers,
            }
            &&& after.covers == match info.cover {
                Some(b) => if t.covers.contains_key(dir) {
                    t.covers
                } else {
                    t.covers.insert(dir, Some(b@))
                },
                None => t.covers,
            }
        }),
{
    let n = seg.len() - 1;
    statement_lengths();
    query_lengths();
    runs_split(t, seg, n);
    assert(seg.take(n) =~= seg.drop_last());
    let t1 = tables(t, seg.drop_last());
    assert(t1.songs == t.songs && t1.folders == t.folders && t1.song_covers == match info.cover {
        Some(b) => t.song_covers.insert(path, b@),
        None => t.song_covers,
    } && t1.covers == match info.cover {
        Some(b) => if t.covers.contains_key(dir) {
            t.covers
        } else {
            t.covers.insert(dir, Some(b@))
        },
        None => t.covers,
    }) by {
        match info.cover {
            Some(b) => {
                cover_is_kept(t, path, dir, b@, seg.drop_last());
            },
            None => {
                assert(seg.drop_last().len() == 0);
            },
        }
    }
    one_exchange(t1, seg.skip(n));
    assert(seg.skip(n)[0] == seg.last());
    let after = tables(t, seg);
    let params = seg.last().request->Execute_1;
    assert(seg[n] == seg.last());
    assert(after == executed(t1, UPDATE_METADATA@, params));
    assert(text_at(params, 8) == Some(path));
    assert(text_at(params, 0) is Some);
    assert(text_at(params, 1) is Some && text_at(params, 2) is Some && text_at(params, 3) is Some);
    assert(integer_at(params, 4) is Some && integer_at(params, 5) is Some);
    assert(integer_at(params, 6) is Some && integer_at(params, 7) is Some);
    assert(after.songs.remove(path) =~= t.songs.remove(path));
}

proof fn cover_is_kept(
    t: Tables,
    path: Seq<char>,
    dir: Seq<char>,
    cover: Seq<u8>,
    seg: Seq<Exchange>,
)
    requires
        cover_run(path, dir, cover, seg),
        faithful(t, seg),
        went_through(seg),
    ensures
        tables(t, seg) == (Tables {
            song_covers: t.song_covers.insert(path, cover),
            covers: if t.covers.contains_key(dir) {
                t.covers
            } else {
                t.covers.insert(dir, Some(cover))
            },
            ..t
        }),
{
    statement_lengths();
    query_lengths();
    runs_split(t, seg, 1);
    one_exchange(t, seg.take(1));
    assert(seg.take(1)[0] == seg[0]);
    let params = seq![Datum::Text(path), Datum::Blob(cover)];
    assert(text_at(params, 0) == Some(path) && bytes_at(params, 1) == Some(cover));
    let t1 = tables(t, seg.take(1));
    assert(t1 == executed(t, SET_SONG_COVER@, params));
    let rest = seg.skip(1);
    runs_split(t1, rest, 1);
    one_exchange(t1, rest.take(1));
    assert(rest.take(1)[0] == seg[1]);
    row_is_right(t1, seg[1], HAS_COVER@, dir);
    assert(tables(t1, rest.take(1)) == t1);
    let end = rest.skip(1);
    if t.covers.contains_key(dir) {
        assert(end.len() == 0);
    } else {
        one_exchange(t1, end);
        assert(end[0] == seg[2]);
        let more = seq![Datum::Text(dir), Datum::Text("embedded"@), Datum::Blob(cover)];
        assert(text_at(more, 0) == Some(dir) && bytes_at(more, 2) == Some(cover));
        assert(tables(t1, end) == executed(t1, SET_COVER@, more));
    }
}

} // verus!
