//! Operations on a folder with all folders below it.
use crate::library_db::{
    count_in, count_of, first_texts, listing, one_param, one_text, DbError, LibraryDB,
};
use crate::sql::{
    CHILD_FOLDERS, CLEAR_ALL, COUNT_AUDIO_CHILDREN, COUNT_FOLDER_SONGS, DELETE_COVER, DELETE_FOLDER,
    DELETE_FOLDER_SONGS, DELETE_FOLDER_SONG_COVERS, SET_HAS_AUDIO,
};
use crate::store::{asked, data, row_in, rows_in, since, Datum, Exchange, Param, Request};
use crate::text::texts;
use vstd::prelude::*;

verus! {

/// How deep a walk through the folders goes at most.
pub const MAX_LEVELS: u64 = 0xffff_ffff_ffff_ffff;

/// The requests that take a folder with its songs and covers out of the tables.
pub open spec fn delete_requests(path: Seq<char>) -> Seq<Request> {
    seq![
        Request::Execute(DELETE_FOLDER_SONGS@, seq![Datum::Text(path)]),
        Request::Execute(DELETE_FOLDER_SONG_COVERS@, seq![Datum::Text(path)]),
        Request::Execute(DELETE_COVER@, seq![Datum::Text(path)]),
        Request::Execute(DELETE_FOLDER@, seq![Datum::Text(path)]),
    ]
}

/// Whether the exchanges make these requests.
pub open spec fn makes(seg: Seq<Exchange>, requests: Seq<Request>) -> bool {
    seg.len() == requests.len() && forall|i: int|
        0 <= i < seg.len() ==> (#[trigger] seg[i]).request == requests[i]
}

/// The exchanges that delete a folder with all folders below it: the folders
/// below come first. Where the folders below cannot be listed, it stops.
pub open spec fn delete_run(levels: nat, path: Seq<char>, ok: bool, seg: Seq<Exchange>) -> bool
    decreases levels, 0nat,
{
    if levels == 0 {
        ok && seg.len() == 0
    } else {
        &&& seg.len() > 0
        &&& seg[0].request == Request::QueryMap(CHILD_FOLDERS@, seq![path])
        &&& match rows_in(seg[0]) {
            None => !ok && seg.len() == 1,
            Some(rows) => if ok {
                &&& seg.len() >= 5
                &&& deletes_done(
                    (levels - 1) as nat,
                    first_texts(rows),
                    seg.subrange(1, seg.len() - 4),
                )
                &&& makes(seg.skip(seg.len() - 4), delete_requests(path))
            } else {
                deletes_stopped((levels - 1) as nat, first_texts(rows), seg.skip(1))
            },
        }
    }
}

/// The exchanges that delete several folders in turn.
pub open spec fn deletes_done(levels: nat, paths: Seq<Seq<char>>, seg: Seq<Exchange>) -> bool
    decreases levels, paths.len(),
{
    if paths.len() == 0 {
        seg.len() == 0
    } else {
        exists|k: int|
            0 <= k <= seg.len() && deletes_done(levels, paths.drop_last(), #[trigger] seg.take(k))
                && delete_run(levels, paths.last(), true, seg.skip(k))
    }
}

/// The exchanges that delete several folders in turn and stop at one of them.
pub open spec fn deletes_stopped(levels: nat, paths: Seq<Seq<char>>, seg: Seq<Exchange>) -> bool
    decreases levels, paths.len() + 1,
{
    exists|n: int, k: int|
        0 <= n < paths.len() && 0 <= k <= seg.len() && deletes_done(
            levels,
            #[trigger] paths.take(n),
            #[trigger] seg.take(k),
        ) && delete_run(levels, paths[n], false, seg.skip(k))
}

/// One more folder that was deleted.
pub proof fn deletes_done_one_more(
    levels: nat,
    paths: Seq<Seq<char>>,
    n: int,
    seg: Seq<Exchange>,
    more: Seq<Exchange>,
)
    requires
        0 <= n < paths.len(),
        deletes_done(levels, paths.take(n), seg),
        delete_run(levels, paths[n], true, more),
    ensures
        deletes_done(levels, paths.take(n + 1), seg + more),
{
    assert(paths.take(n + 1).drop_last() == paths.take(n));
    assert((seg + more).take(seg.len() as int) == seg);
    assert((seg + more).skip(seg.len() as int) == more);
}

/// The folder at which deleting stopped.
pub proof fn deletes_stopped_here(
    levels: nat,
    paths: Seq<Seq<char>>,
    n: int,
    seg: Seq<Exchange>,
    more: Seq<Exchange>,
)
    requires
        0 <= n < paths.len(),
        deletes_done(levels, paths.take(n), seg),
        delete_run(levels, paths[n], false, more),
    ensures
        deletes_stopped(levels, paths, seg + more),
{
    assert((seg + more).take(seg.len() as int) == seg);
    assert((seg + more).skip(seg.len() as int) == more);
}

/// Whether a folder holds audio, by the counts of its songs and of the folders
/// directly in it that hold audio.
pub open spec fn flag_datum(songs: Option<Seq<Datum>>, children: Option<Seq<Datum>>) -> Datum {
    Datum::Integer(
        if count_in(songs) > 0 || count_in(children) > 0 {
            1
        } else {
            0
        },
    )
}

/// The exchanges that set the audio flag of a folder from its songs and from the
/// flags of the folders directly in it.
pub open spec fn flag_run(path: Seq<char>, seg: Seq<Exchange>) -> bool {
    &&& seg.len() == 3
    &&& seg[0].request == Request::QueryRow(COUNT_FOLDER_SONGS@, seq![path])
    &&& seg[1].request == Request::QueryRow(COUNT_AUDIO_CHILDREN@, seq![path])
    &&& seg[2].request == Request::Execute(
        SET_HAS_AUDIO@,
        seq![flag_datum(row_in(seg[0]), row_in(seg[1])), Datum::Text(path)],
    )
}

/// The exchanges that set the audio flags of a folder and of all folders below
/// it, those below first.
pub open spec fn flags_run(levels: nat, path: Seq<char>, ok: bool, seg: Seq<Exchange>) -> bool
    decreases levels, 0nat,
{
    if levels == 0 {
        ok && seg.len() == 0
    } else {
        &&& seg.len() > 0
        &&& seg[0].request == Request::QueryMap(CHILD_FOLDERS@, seq![path])
        &&& match rows_in(seg[0]) {
            None => !ok && seg.len() == 1,
            Some(rows) => if ok {
                &&& seg.len() >= 4
                &&& flags_done(
                    (levels - 1) as nat,
                    first_texts(rows),
                    seg.subrange(1, seg.len() - 3),
                )
                &&& flag_run(path, seg.skip(seg.len() - 3))
            } else {
                flags_stopped((levels - 1) as nat, first_texts(rows), seg.skip(1))
            },
        }
    }
}

/// The exchanges that set the audio flags below several folders in turn.
pub open spec fn flags_done(levels: nat, paths: Seq<Seq<char>>, seg: Seq<Exchange>) -> bool
    decreases levels, paths.len(),
{
    if paths.len() == 0 {
        seg.len() == 0
    } else {
        exists|k: int|
            0 <= k <= seg.len() && flags_done(levels, paths.drop_last(), #[trigger] seg.take(k))
                && flags_run(levels, paths.last(), true, seg.skip(k))
    }
}

/// The exchanges that set the audio flags below several folders in turn and stop at
/// one of them.
pub open spec fn flags_stopped(levels: nat, paths: Seq<Seq<char>>, seg: Seq<Exchange>) -> bool
    decreases levels, paths.len() + 1,
{
    exists|n: int, k: int|
        0 <= n < paths.len() && 0 <= k <= seg.len() && flags_done(
            levels,
            #[trigger] paths.take(n),
            #[trigger] seg.take(k),
        ) && flags_run(levels, paths[n], false, seg.skip(k))
}

proof fn flags_done_one_more(
    levels: nat,
    paths: Seq<Seq<char>>,
    n: int,
    seg: Seq<Exchange>,
    more: Seq<Exchange>,
)
    requires
        0 <= n < paths.len(),
        flags_done(levels, paths.take(n), seg),
        flags_run(levels, paths[n], true, more),
    ensures
        flags_done(levels, paths.take(n + 1), seg + more),
{
    assert(paths.take(n + 1).drop_last() == paths.take(n));
    assert((seg + more).take(seg.len() as int) == seg);
    assert((seg + more).skip(seg.len() as int) == more);
}

proof fn flags_stopped_here(
    levels: nat,
    paths: Seq<Seq<char>>,
    n: int,
    seg: Seq<Exchange>,
    more: Seq<Exchange>,
)
    requires
        0 <= n < paths.len(),
        flags_done(levels, paths.take(n), seg),
        flags_run(levels, paths[n], false, more),
    ensures
        flags_stopped(levels, paths, seg + more),
{
    assert((seg + more).take(seg.len() as int) == seg);
    assert((seg + more).skip(seg.len() as int) == more);
}

impl LibraryDB {
    pub(crate) fn child_folders(&mut self, path: &str) -> (res: Result<Vec<String>, DbError>)
        ensures
            listing(
                old(self)@,
                final(self)@,
                Request::QueryMap(CHILD_FOLDERS@, seq![path@]),
                match res {
                    Ok(v) => Ok(texts(v@)),
                    Err(e) => Err(e),
                },
            ),
    {
        self.list(CHILD_FOLDERS, &one_text(path))
    }

    pub(crate) fn delete_folder_recursive_inner(&mut self, path: &str, levels: u64) -> (res: Result<
        (),
        DbError,
    >)
        ensures
            old(self)@.is_prefix_of(final(self)@),
            delete_run(levels as nat, path@, res is Ok, since(old(self)@, final(self)@)),
            res matches Err(e) ==> e == DbError::Query,
        decreases levels,
    {
        if levels == 0 {
            return Ok(());
        }
        let ghost before = self@;
        let children = match self.child_folders(path) {
            Ok(list) => list,
            Err(e) => {
                return Err(e);
            },
        };
        let ghost listed = self@;
        let ghost rows = rows_in(listed.last())->0;
        let ghost deep = (levels - 1) as nat;
        for i in 0..children.len()
            invariant
                levels > 0,
                deep == levels - 1,
                before == old(self)@,
                texts(children@) == first_texts(rows),
                before.is_prefix_of(listed),
                listed.len() == before.len() + 1,
                listed.last().request == Request::QueryMap(CHILD_FOLDERS@, seq![path@]),
                rows_in(listed.last()) == Some(rows),
                listed.is_prefix_of(self@),
                deletes_done(deep, texts(children@).take(i as int), since(listed, self@)),
        {
            let ghost now = self@;
            let r = self.delete_folder_recursive_inner(children[i].as_str(), levels - 1);
            proof {
                assert(texts(children@)[i as int] == children@[i as int]@);
                assert(since(listed, self@) == since(listed, now) + since(now, self@));
            }
            match r {
                Ok(()) => {
                    proof {
                        deletes_done_one_more(
                            deep,
                            texts(children@),
                            i as int,
                            since(listed, now),
                            since(now, self@),
                        );
                    }
                },
                Err(e) => {
                    proof {
                        deletes_stopped_here(
                            deep,
                            texts(children@),
                            i as int,
                            since(listed, now),
                            since(now, self@),
                        );
                        assert(since(before, self@).skip(1) == since(listed, self@));
                    }
                    return Err(e);
                },
            }
        }
        let ghost emptied = self@;
        assert(texts(children@).take(children@.len() as int) == texts(children@));
        let param = one_param(path);
        let _ = self.run(DELETE_FOLDER_SONGS, &param);
        let _ = self.run(DELETE_FOLDER_SONG_COVERS, &param);
        let _ = self.run(DELETE_COVER, &param);
        let _ = self.run(DELETE_FOLDER, &param);
        proof {
            let seg = since(before, self@);
            assert(seg.subrange(1, seg.len() - 4) == since(listed, emptied));
            assert(seg.skip(seg.len() - 4) == since(emptied, self@));
        }
        Ok(())
    }

    /// Sets the audio flag of a single folder from what the tables hold of its
    /// direct songs and of the folders directly in it.
    pub fn update_has_audio_for_folder(&mut self, path: &str)
        ensures
            old(self)@.is_prefix_of(final(self)@),
            flag_run(path@, since(old(self)@, final(self)@)),
    {
        let ghost before = self@;
        let key = one_text(path);
        let songs = count_of(&self.row(COUNT_FOLDER_SONGS, &key));
        let children = count_of(&self.row(COUNT_AUDIO_CHILDREN, &key));
        let mut params: Vec<Param> = Vec::new();
        params.push(
            Param::Integer(
                if songs > 0 || children > 0 {
                    1
                } else {
                    0
                },
            ),
        );
        params.push(Param::Text(path.to_owned()));
        assert(data(params@) =~= seq![params@[0]@, params@[1]@]);
        let _ = self.run(SET_HAS_AUDIO, &params);
    }

    pub(crate) fn update_has_audio_recursive(&mut self, path: &str, levels: u64) -> (res: Result<
        (),
        DbError,
    >)
        ensures
            old(self)@.is_prefix_of(final(self)@),
            flags_run(levels as nat, path@, res is Ok, since(old(self)@, final(self)@)),
            res matches Err(e) ==> e == DbError::Query,
        decreases levels,
    {
        if levels == 0 {
            return Ok(());
        }
        let ghost before = self@;
        let children = match self.child_folders(path) {
            Ok(list) => list,
            Err(e) => {
                return Err(e);
            },
        };
        let ghost listed = self@;
        let ghost rows = rows_in(listed.last())->0;
        let ghost deep = (levels - 1) as nat;
        for i in 0..children.len()
            invariant
                levels > 0,
                deep == levels - 1,
                before == old(self)@,
                texts(children@) == first_texts(rows),
                before.is_prefix_of(listed),
                listed.len() == before.len() + 1,
                listed.last().request == Request::QueryMap(CHILD_FOLDERS@, seq![path@]),
                rows_in(listed.last()) == Some(rows),
                listed.is_prefix_of(self@),
                flags_done(deep, texts(children@).take(i as int), since(listed, self@)),
        {
            let ghost now = self@;
            let r = self.update_has_audio_recursive(children[i].as_str(), levels - 1);
            proof {
                assert(texts(children@)[i as int] == children@[i as int]@);
                assert(since(listed, self@) == since(listed, now) + since(now, self@));
            }
            match r {
                Ok(()) => {
                    proof {
                        flags_done_one_more(
                            deep,
                            texts(children@),
                            i as int,
                            since(listed, now),
                            since(now, self@),
                        );
                    }
                },
                Err(e) => {
                    proof {
                        flags_stopped_here(
                            deep,
                            texts(children@),
                            i as int,
                            since(listed, now),
                            since(now, self@),
                        );
                        assert(since(before, self@).skip(1) == since(listed, self@));
                    }
                    return Err(e);
                },
            }
        }
        let ghost done = self@;
        assert(texts(children@).take(children@.len() as int) == texts(children@));
        self.update_has_audio_for_folder(path);
        proof {
            let seg = since(before, self@);
            assert(seg.subrange(1, seg.len() - 3) == since(listed, done));
            assert(seg.skip(seg.len() - 3) == since(done, self@));
        }
        Ok(())
    }

    /// Takes a folder with all folders below it out of the library.
    pub fn remove_root(&mut self, root_path: &str) -> (res: Result<(), DbError>)
        ensures
            old(self)@.is_prefix_of(final(self)@),
            delete_run(
                MAX_LEVELS as nat,
                root_path@,
                res is Ok,
                since(old(self)@, final(self)@),
            ),
            res matches Err(e) ==> e == DbError::Query,
    {
        self.delete_folder_recursive_inner(root_path, MAX_LEVELS)
    }

    /// Takes everything out of the library.
    pub fn clear_all(&mut self)
        ensures
            old(self)@.is_prefix_of(final(self)@),
            asked(since(old(self)@, final(self)@), Request::Batch(CLEAR_ALL@)),
    {
        let _ = self.run_all(CLEAR_ALL);
    }
}

} // verus!
