//! Bringing the library up to date with a folder on disk.
use crate::catalog::{apart, time_apart, SAME_TIME};
use crate::folder_tree::{
    deletes_done, deletes_done_one_more, deletes_stopped, deletes_stopped_here, MAX_LEVELS,
};
use crate::library_db::{first_texts, listing, one_param, one_text, DbError, LibraryDB};
use crate::paths::{base_name, file_name, or_empty};
use crate::records::{folders_of, found_of, Folder, FolderRecord, Found, SongScanEntry};
use crate::scan::{
    audio_files_in, entries_of, folder_paths, found_paths, gone, not_kept, sort_out, subfolders_in,
    DirListing,
};
use crate::sql::{
    CHILD_FOLDERS, DELETE_SONG, SONGS_OF_FOLDER, SONG_MTIME, UPSERT_FOLDER, UPSERT_SONG,
    UPSERT_SUBFOLDER,
};
use crate::store::{
    all_done, cell_integer, cell_small, data, integer_at, one_more_done, opt_row_data, row_in,
    rows_in, since, small_at, Cell, Datum, Exchange, Param, Request,
};
use crate::text::texts;
use vstd::prelude::*;

verus! {

/// A text that may be missing, as a value of the database.
pub open spec fn text_or_null(t: Option<Seq<char>>) -> Datum {
    match t {
        Some(s) => Datum::Text(s),
        None => Datum::Null,
    }
}

/// The request that keeps a scanned folder.
pub open spec fn folder_request(
    path: Seq<char>,
    parent: Option<Seq<char>>,
    mtime: int,
    has_songs: bool,
    now: int,
) -> Request {
    Request::Execute(
        UPSERT_FOLDER@,
        seq![
            Datum::Text(path),
            text_or_null(parent),
            Datum::Text(or_empty(file_name(path))),
            Datum::Integer(mtime),
            Datum::Integer(
                if has_songs {
                    1
                } else {
                    0
                },
            ),
            Datum::Integer(now),
        ],
    )
}

/// The request that keeps a folder found in a scanned folder.
pub open spec fn subfolder_request(path: Seq<char>, sub: Folder) -> Request {
    Request::Execute(
        UPSERT_SUBFOLDER@,
        seq![Datum::Text(sub.path), Datum::Text(path), Datum::Text(sub.name)],
    )
}

/// The request that takes a song out of the library.
pub open spec fn drop_song_request(song: Seq<char>) -> Request {
    Request::Execute(DELETE_SONG@, seq![Datum::Text(song)])
}

/// The request that keeps a song found in a scanned folder.
pub open spec fn song_request(path: Seq<char>, song: Found) -> Request {
    Request::Execute(
        UPSERT_SONG@,
        seq![
            Datum::Text(song.path),
            Datum::Text(path),
            Datum::Text(song.name),
            Datum::Text(song.title),
            Datum::Text(song.format_type),
            Datum::Integer(song.mtime),
        ],
    )
}

/// Whether a song is as the library knows it: the time of its last change is the
/// one that was kept.
pub open spec fn unchanged(kept: Option<Seq<Datum>>, mtime: int) -> bool {
    match kept {
        Some(r) => match (integer_at(r, 0), small_at(r, 1)) {
            (Some(t), Some(_)) => apart(t, mtime) < SAME_TIME,
            _ => false,
        },
        None => false,
    }
}

/// The exchanges that bring one song up to date: it is kept anew unless it is as
/// the library knows it.
pub open spec fn song_run(path: Seq<char>, song: Found, seg: Seq<Exchange>) -> bool {
    &&& seg.len() > 0
    &&& seg[0].request == Request::QueryRow(SONG_MTIME@, seq![song.path])
    &&& if unchanged(row_in(seg[0]), song.mtime) {
        seg.len() == 1
    } else {
        seg.len() == 2 && seg[1].request == song_request(path, song)
    }
}

/// The exchanges that bring the songs of a folder up to date.
pub open spec fn song_runs(path: Seq<char>) -> spec_fn(Found, Seq<Exchange>) -> bool {
    |song: Found, seg: Seq<Exchange>| song_run(path, song, seg)
}

/// The exchanges that take out the folders that are gone and bring the songs up
/// to date.
pub open spec fn refresh_run(
    path: Seq<char>,
    lost: Seq<Seq<char>>,
    songs: Seq<Found>,
    ok: bool,
    seg: Seq<Exchange>,
) -> bool {
    if ok {
        exists|k: int|
            0 <= k <= seg.len() && deletes_done(MAX_LEVELS as nat, lost, #[trigger] seg.take(k))
                && all_done(songs, song_runs(path), seg.skip(k))
    } else {
        deletes_stopped(MAX_LEVELS as nat, lost, seg)
    }
}

/// The exchanges that take out what is gone from a folder and bring its songs up
/// to date, once it is known which songs are gone.
pub open spec fn prune_run(
    path: Seq<char>,
    lost: Seq<Seq<char>>,
    subs: Seq<Folder>,
    songs: Seq<Found>,
    ok: bool,
    seg: Seq<Exchange>,
) -> bool {
    let n = lost.len() as int;
    &&& seg.len() > n
    &&& forall|i: int| 0 <= i < n ==> (#[trigger] seg[i]).request == drop_song_request(lost[i])
    &&& seg[n].request == Request::QueryMap(CHILD_FOLDERS@, seq![path])
    &&& match rows_in(seg[n]) {
        Some(rows) => refresh_run(
            path,
            gone(first_texts(rows), folder_paths(subs)),
            songs,
            ok,
            seg.skip(n + 1),
        ),
        None => !ok && seg.len() == n + 1,
    }
}

/// The exchanges of a scan, by what the folder holds: the folder and the folders
/// in it are kept, songs and folders that are gone are taken out, and songs that
/// are new or changed are kept.
pub open spec fn scan_run(
    path: Seq<char>,
    parent: Option<Seq<char>>,
    mtime: int,
    subs: Seq<Folder>,
    songs: Seq<Found>,
    now: int,
    ok: bool,
    seg: Seq<Exchange>,
) -> bool {
    let n = subs.len() as int;
    &&& seg.len() > n + 1
    &&& seg[0].request == folder_request(path, parent, mtime, songs.len() > 0, now)
    &&& forall|i: int|
        1 <= i <= n ==> (#[trigger] seg[i]).request == subfolder_request(path, subs[i - 1])
    &&& seg[n + 1].request == Request::QueryMap(SONGS_OF_FOLDER@, seq![path])
    &&& match rows_in(seg[n + 1]) {
        Some(rows) => prune_run(
            path,
            gone(first_texts(rows), found_paths(songs)),
            subs,
            songs,
            ok,
            seg.skip(n + 2),
        ),
        None => !ok && seg.len() == n + 2,
    }
}

/// Whether a song is as the library knows it.
pub fn is_unchanged(kept: &Option<Vec<Cell>>, mtime: i64) -> (r: bool)
    ensures
        r == unchanged(opt_row_data(*kept), mtime as int),
{
    match kept {
        Some(row) => match (cell_integer(row, 0), cell_small(row, 1)) {
            (Some(t), Some(_)) => time_apart(t, mtime) < SAME_TIME as u64,
            _ => false,
        },
        None => false,
    }
}

fn paths_of_folders(folders: &Vec<FolderRecord>) -> (r: Vec<String>)
    ensures
        texts(r@) == folder_paths(folders_of(folders@)),
{
    let mut r: Vec<String> = Vec::new();
    for i in 0..folders.len()
        invariant
            texts(r@) == folder_paths(folders_of(folders@)).take(i as int),
    {
        let ghost before = r@;
        r.push(folders[i].path.clone());
        assert(texts(r@) =~= texts(before).push(folders@[i as int].path@));
        assert(folder_paths(folders_of(folders@)).take(i + 1) =~= folder_paths(
            folders_of(folders@),
        ).take(i as int).push(folders@[i as int].path@));
    }
    assert(folder_paths(folders_of(folders@)).take(folders@.len() as int) =~= folder_paths(
        folders_of(folders@),
    ));
    r
}

fn paths_of_songs(songs: &Vec<SongScanEntry>) -> (r: Vec<String>)
    ensures
        texts(r@) == found_paths(found_of(songs@)),
{
    let mut r: Vec<String> = Vec::new();
    for i in 0..songs.len()
        invariant
            texts(r@) == found_paths(found_of(songs@)).take(i as int),
    {
        let ghost before = r@;
        r.push(songs[i].path.clone());
        assert(texts(r@) =~= texts(before).push(songs@[i as int].path@));
        assert(found_paths(found_of(songs@)).take(i + 1) =~= found_paths(found_of(songs@)).take(
            i as int,
        ).push(songs@[i as int].path@));
    }
    assert(found_paths(found_of(songs@)).take(songs@.len() as int) =~= found_paths(
        found_of(songs@),
    ));
    r
}

impl LibraryDB {
    /// Brings the library up to date with a folder, but not with what lies in the
    /// folders in it. `listing` is what the folder holds on disk; where it cannot
    /// be read, there is none and nothing is done. The result is the folders and
    /// the songs directly in the folder.
    pub fn scan_folder(
        &mut self,
        path: &str,
        parent: Option<&str>,
        listing: Option<&DirListing>,
        now: i64,
    ) -> (res: Result<(Vec<FolderRecord>, Vec<SongScanEntry>), DbError>)
        ensures
            match listing {
                Some(dir) => {
                    let entries = entries_of(dir.entries@);
                    &&& old(self)@.is_prefix_of(final(self)@)
                    &&& scan_run(
                        path@,
                        match parent {
                            Some(p) => Some(p@),
                            None => None,
                        },
                        dir.mtime as int,
                        subfolders_in(entries),
                        audio_files_in(entries),
                        now as int,
                        res is Ok,
                        since(old(self)@, final(self)@),
                    )
                    &&& match res {
                        Ok((subs, songs)) => folders_of(subs@) == subfolders_in(entries)
                            && found_of(songs@) == audio_files_in(entries),
                        Err(e) => e == DbError::Query,
                    }
                },
                None => {
                    &&& final(self)@ == old(self)@
                    &&& res matches Ok((subs, songs))
                    &&& subs@.len() == 0
                    &&& songs@.len() == 0
                },
            },
    {
        let dir = match listing {
            Some(dir) => dir,
            None => {
                return Ok((Vec::new(), Vec::new()));
            },
        };
        let ghost before = self@;
        let (subs, songs) = sort_out(&dir.entries);
        self.keep_folder(path, parent, dir.mtime, songs.len() > 0, now);
        let ghost first = self@;
        self.keep_subfolders(path, &subs);
        let ghost kept = self@;
        let ghost n = subs@.len() as int;
        proof {
            assert(folders_of(subs@).len() == n);
            assert(found_of(songs@).len() == songs@.len());
            assert(kept[before.len() as int] == first.last());
            assert forall|i: int| 1 <= i <= n implies (#[trigger] kept[before.len()
                + i]).request == subfolder_request(path@, folders_of(subs@)[i - 1]) by {
                assert(kept[first.len() + (i - 1)] == kept[before.len() + i]);
            }
        }
        let known = match self.list(SONGS_OF_FOLDER, &one_text(path)) {
            Ok(known) => known,
            Err(e) => {
                proof {
                    let seg = since(before, self@);
                    assert(seg[n + 1] == self@.last());
                    assert forall|i: int| 0 <= i <= n implies #[trigger] seg[i] == kept[before.len()
                        + i] by {
                        assert(self@[before.len() + i] == kept[before.len() + i]);
                    }
                }
                return Err(e);
            },
        };
        let ghost listed = self@;
        let lost = not_kept(&known, &paths_of_songs(&songs));
        let pruned = self.prune(path, &lost, &subs, &songs);
        proof {
            let seg = since(before, self@);
            assert(seg[n + 1] == listed.last());
            assert(seg.skip(n + 2) == since(listed, self@));
            assert forall|i: int| 0 <= i <= n implies #[trigger] seg[i] == kept[before.len() + i] by {
                assert(listed[before.len() + i] == kept[before.len() + i]);
            }
        }
        match pruned {
            Ok(()) => Ok((subs, songs)),
            Err(e) => Err(e),
        }
    }

    fn keep_folder(
        &mut self,
        path: &str,
        parent: Option<&str>,
        mtime: i64,
        has_songs: bool,
        now: i64,
    )
        ensures
            old(self)@.is_prefix_of(final(self)@),
            final(self)@.len() == old(self)@.len() + 1,
            final(self)@.last().request == folder_request(
                path@,
                match parent {
                    Some(p) => Some(p@),
                    None => None,
                },
                mtime as int,
                has_songs,
                now as int,
            ),
    {
        let mut params: Vec<Param> = Vec::new();
        params.push(Param::Text(path.to_owned()));
        params.push(
            match parent {
                Some(p) => Param::Text(p.to_owned()),
                None => Param::Null,
            },
        );
        params.push(Param::Text(base_name(path)));
        params.push(Param::Integer(mtime));
        params.push(
            Param::Integer(
                if has_songs {
                    1
                } else {
                    0
                },
            ),
        );
        params.push(Param::Integer(now));
        assert(data(params@) =~= seq![
            params@[0]@,
            params@[1]@,
            params@[2]@,
            params@[3]@,
            params@[4]@,
            params@[5]@,
        ]);
        let _ = self.run(UPSERT_FOLDER, &params);
    }

    fn keep_subfolders(&mut self, path: &str, subs: &Vec<FolderRecord>)
        ensures
            old(self)@.is_prefix_of(final(self)@),
            final(self)@.len() == old(self)@.len() + subs.len(),
            forall|i: int|
                0 <= i < subs.len() ==> (#[trigger] final(self)@[old(self)@.len() + i]).request
                    == subfolder_request(path@, folders_of(subs@)[i]),
    {
        let ghost before = self@;
        for i in 0..subs.len()
            invariant
                before == old(self)@,
                before.is_prefix_of(self@),
                self@.len() == before.len() + i,
                forall|j: int|
                    0 <= j < i ==> (#[trigger] self@[before.len() + j]).request
                        == subfolder_request(path@, folders_of(subs@)[j]),
        {
            let ghost now = self@;
            let mut params: Vec<Param> = Vec::new();
            params.push(Param::Text(subs[i].path.clone()));
            params.push(Param::Text(path.to_owned()));
            params.push(Param::Text(subs[i].name.clone()));
            assert(data(params@) =~= seq![params@[0]@, params@[1]@, params@[2]@]);
            let _ = self.run(UPSERT_SUBFOLDER, &params);
            assert(forall|j: int| 0 <= j < now.len() ==> self@[j] == now[j]);
        }
    }

    fn prune(
        &mut self,
        path: &str,
        lost: &Vec<String>,
        subs: &Vec<FolderRecord>,
        songs: &Vec<SongScanEntry>,
    ) -> (res: Result<(), DbError>)
        ensures
            old(self)@.is_prefix_of(final(self)@),
            prune_run(
                path@,
                texts(lost@),
                folders_of(subs@),
                found_of(songs@),
                res is Ok,
                since(old(self)@, final(self)@),
            ),
            res matches Err(e) ==> e == DbError::Query,
    {
        let ghost before = self@;
        for i in 0..lost.len()
            invariant
                before == old(self)@,
                before.is_prefix_of(self@),
                self@.len() == before.len() + i,
                forall|j: int|
                    0 <= j < i ==> (#[trigger] self@[before.len() + j]).request
                        == drop_song_request(texts(lost@)[j]),
        {
            let ghost now = self@;
            let _ = self.run(DELETE_SONG, &one_param(lost[i].as_str()));
            assert(forall|j: int| 0 <= j < now.len() ==> self@[j] == now[j]);
        }
        let ghost dropped = self@;
        let ghost n = lost@.len() as int;
        let known = match self.child_folders(path) {
            Ok(known) => known,
            Err(e) => {
                proof {
                    let seg = since(before, self@);
                    assert(seg[n] == self@.last());
                    assert(forall|i: int| 0 <= i < n ==> seg[i] == dropped[before.len() + i]);
                }
                return Err(e);
            },
        };
        let ghost listed = self@;
        let gone_subs = not_kept(&known, &paths_of_folders(subs));
        let res = self.refresh(path, &gone_subs, songs);
        proof {
            let seg = since(before, self@);
            assert(seg[n] == listed.last());
            assert(seg.skip(n + 1) == since(listed, self@));
            assert forall|i: int| 0 <= i < n implies #[trigger] seg[i] == dropped[before.len() + i] by {
                assert(listed[before.len() + i] == dropped[before.len() + i]);
            }
        }
        res
    }

    fn refresh(&mut self, path: &str, lost: &Vec<String>, songs: &Vec<SongScanEntry>) -> (res:
        Result<(), DbError>)
        ensures
            old(self)@.is_prefix_of(final(self)@),
            refresh_run(
                path@,
                texts(lost@),
                found_of(songs@),
                res is Ok,
                since(old(self)@, final(self)@),
            ),
            res matches Err(e) ==> e == DbError::Query,
    {
        let ghost before = self@;
        let ghost all = MAX_LEVELS as nat;
        assert(texts(lost@).take(0) =~= Seq::empty());
        for i in 0..lost.len()
            invariant
                all == MAX_LEVELS as nat,
                before == old(self)@,
                before.is_prefix_of(self@),
                deletes_done(all, texts(lost@).take(i as int), since(before, self@)),
        {
            let ghost now = self@;
            let r = self.delete_folder_recursive_inner(lost[i].as_str(), MAX_LEVELS);
            proof {
                assert(texts(lost@)[i as int] == lost@[i as int]@);
                assert(since(before, self@) == since(before, now) + since(now, self@));
            }
            match r {
                Ok(()) => {
                    proof {
                        deletes_done_one_more(
                            all,
                            texts(lost@),
                            i as int,
                            since(before, now),
                            since(now, self@),
                        );
                    }
                },
                Err(e) => {
                    proof {
                        deletes_stopped_here(
                            all,
                            texts(lost@),
                            i as int,
                            since(before, now),
                            since(now, self@),
                        );
                    }
                    return Err(e);
                },
            }
        }
        assert(texts(lost@).take(lost@.len() as int) == texts(lost@));
        let ghost emptied = self@;
        self.keep_songs(path, songs);
        proof {
            let seg = since(before, self@);
            let k = emptied.len() - before.len();
            assert(seg.take(k) == since(before, emptied));
            assert(seg.skip(k) == since(emptied, self@));
        }
        Ok(())
    }

    fn keep_songs(&mut self, path: &str, songs: &Vec<SongScanEntry>)
        ensures
            old(self)@.is_prefix_of(final(self)@),
            all_done(found_of(songs@), song_runs(path@), since(old(self)@, final(self)@)),
    {
        let ghost before = self@;
        let ghost all = found_of(songs@);
        let ghost run = song_runs(path@);
        assert(all.take(0) =~= Seq::empty());
        for i in 0..songs.len()
            invariant
                all == found_of(songs@),
                run == song_runs(path@),
                before == old(self)@,
                before.is_prefix_of(self@),
                all_done(all.take(i as int), run, since(before, self@)),
        {
            let ghost now = self@;
            self.keep_song(path, &songs[i]);
            proof {
                assert(since(before, self@) == since(before, now) + since(now, self@));
                one_more_done(all, run, i as int, since(before, now), since(now, self@));
            }
        }
        assert(all.take(all.len() as int) == all);
    }

    fn keep_song(&mut self, path: &str, song: &SongScanEntry)
        ensures
            old(self)@.is_prefix_of(final(self)@),
            song_run(path@, song@, since(old(self)@, final(self)@)),
    {
        let kept = self.row(SONG_MTIME, &one_text(song.path.as_str()));
        if is_unchanged(&kept, song.mtime) {
            return;
        }
        let mut params: Vec<Param> = Vec::new();
        params.push(Param::Text(song.path.clone()));
        params.push(Param::Text(path.to_owned()));
        params.push(Param::Text(song.name.clone()));
        params.push(Param::Text(song.title.clone()));
        params.push(Param::Text(song.format_type.clone()));
        params.push(Param::Integer(song.mtime));
        assert(data(params@) =~= seq![
            params@[0]@,
            params@[1]@,
            params@[2]@,
            params@[3]@,
            params@[4]@,
            params@[5]@,
        ]);
        let _ = self.run(UPSERT_SONG, &params);
    }
}

} // verus!
