//! Keeping what song files say of themselves.
use crate::library_db::{listing, DbError, LibraryDB};
use crate::paths::{file_stem, folder_of, or_empty, parent_path, path_stem};
use crate::sql::{
    unscanned_params, unscanned_sql, HAS_COVER, SET_COVER, SET_SONG_COVER, UPDATE_METADATA,
};
use crate::store::{row_in, since, Datum, Exchange, Request};
use crate::text::texts;
use vstd::prelude::*;

verus! {

/// How many songs are read at a time.
pub const BATCH: i32 = 50;

/// How many songs of a folder that is shown are read.
pub const FOLDER_BATCH: i32 = 100;

/// The sound of a song file: bits per second, samples per second and bits per
/// sample.
#[derive(Debug, Clone, Copy)]
pub struct Stream {
    pub bitrate: u32,
    pub sample_rate: u32,
    pub depth: u32,
}

/// What a song file says of itself. The duration is in nanoseconds.
pub struct SongInfo {
    pub stream: Option<Stream>,
    pub duration: i64,
    pub title: String,
    pub artist: String,
    pub album: String,
    pub year: String,
    pub cover: Option<Vec<u8>>,
}

/// The bitrate in kilobits per second.
pub open spec fn kilobits(stream: Option<Stream>) -> int {
    match stream {
        Some(s) => s.bitrate as int / 1000,
        None => 0,
    }
}

/// A number of 32 bits with a sign.
pub open spec fn signed(n: u32) -> i32 {
    n as i32
}

/// The bitrate in kilobits per second.
pub fn bitrate_of(stream: &Option<Stream>) -> (r: i32)
    ensures
        r == kilobits(*stream),
{
    match stream {
        Some(s) => (s.bitrate / 1000) as i32,
        None => 0,
    }
}

/// The sample rate; without sound there is none.
pub fn sample_rate_of(stream: &Option<Stream>) -> (r: i32)
    ensures
        r == match *stream {
            Some(s) => signed(s.sample_rate),
            None => 0,
        },
{
    match stream {
        Some(s) => s.sample_rate as i32,
        None => 0,
    }
}

/// The bits per sample; without sound there are none.
pub fn depth_of(stream: &Option<Stream>) -> (r: i32)
    ensures
        r == match *stream {
            Some(s) => signed(s.depth),
            None => 0,
        },
{
    match stream {
        Some(s) => s.depth as i32,
        None => 0,
    }
}

/// The request that keeps what a song file says of itself. A song without a title
/// has `stem`, its name without the extension, as its title.
pub open spec fn metadata_request(path: Seq<char>, stem: Seq<char>, info: SongInfo) -> Request {
    Request::Execute(
        UPDATE_METADATA@,
        seq![
            Datum::Text(
                if info.title@.len() == 0 {
                    stem
                } else {
                    info.title@
                },
            ),
            Datum::Text(info.artist@),
            Datum::Text(info.album@),
            Datum::Text(info.year@),
            Datum::Integer(kilobits(info.stream)),
            Datum::Integer(
                match info.stream {
                    Some(s) => signed(s.sample_rate) as int,
                    None => 0,
                },
            ),
            Datum::Integer(
                match info.stream {
                    Some(s) => signed(s.depth) as int,
                    None => 0,
                },
            ),
            Datum::Integer(info.duration as int),
            Datum::Text(path),
        ],
    )
}

/// The exchanges that keep the cover of a song. It becomes the cover of its folder
/// `dir`, unless the library knows one, or that there is none.
pub open spec fn cover_run(
    path: Seq<char>,
    dir: Seq<char>,
    cover: Seq<u8>,
    seg: Seq<Exchange>,
) -> bool {
    &&& seg.len() >= 2
    &&& seg[0].request == Request::Execute(
        SET_SONG_COVER@,
        seq![Datum::Text(path), Datum::Blob(cover)],
    )
    &&& seg[1].request == Request::QueryRow(HAS_COVER@, seq![dir])
    &&& if row_in(seg[1]) is Some {
        seg.len() == 2
    } else {
        &&& seg.len() == 3
        &&& seg[2].request == Request::Execute(
            SET_COVER@,
            seq![Datum::Text(dir), Datum::Text("embedded"@), Datum::Blob(cover)],
        )
    }
}

/// The exchanges that keep what a song file says of itself: its cover, where it has
/// one, and then its metadata. The song lies in the folder `dir`, and `stem` is its
/// name without the extension.
pub open spec fn enrich_run(
    path: Seq<char>,
    dir: Seq<char>,
    stem: Seq<char>,
    info: SongInfo,
    seg: Seq<Exchange>,
) -> bool {
    &&& seg.len() > 0
    &&& seg.last().request == metadata_request(path, stem, info)
    &&& match info.cover {
        Some(b) => cover_run(path, dir, b@, seg.drop_last()),
        None => seg.len() == 1,
    }
}

impl LibraryDB {
    /// Keeps what a song file says of itself.
    pub fn enrich_one_song(&mut self, song_path: &str, info: &SongInfo)
        ensures
            old(self)@.is_prefix_of(final(self)@),
            enrich_run(
                song_path@,
                or_empty(parent_path(song_path@)),
                path_stem(song_path@),
                *info,
                since(old(self)@, final(self)@),
            ),
    {
        let dir = folder_of(song_path);
        let stem = file_stem(song_path);
        self.keep_song_info(song_path, dir.as_str(), stem.as_str(), info);
    }

    /// Keeps what a song file in the folder `dir` says of itself. `stem` is its name
    /// without the extension.
    pub fn keep_song_info(&mut self, song_path: &str, dir: &str, stem: &str, info: &SongInfo)
        ensures
            old(self)@.is_prefix_of(final(self)@),
            enrich_run(song_path@, dir@, stem@, *info, since(old(self)@, final(self)@)),
    {
        let ghost before = self@;
        if let Some(cover) = &info.cover {
            self.set_song_cover(song_path, cover);
            let ghost first = self@;
            let known = self.has_cover(dir);
            let ghost second = self@;
            if !known {
                self.set_cover(dir, cover, "embedded");
            }
            proof {
                let seg = since(before, self@);
                assert(seg[0] == since(before, first)[0]);
                assert(seg[1] == since(first, second)[0]);
                if !known {
                    assert(seg[2] == since(second, self@)[0]);
                }
            }
        }
        let ghost kept = self@;
        let title = if info.title.as_str().is_empty() {
            stem.to_owned()
        } else {
            info.title.clone()
        };
        self.update_song_metadata(
            song_path,
            title.as_str(),
            info.artist.as_str(),
            info.album.as_str(),
            info.year.as_str(),
            bitrate_of(&info.stream),
            sample_rate_of(&info.stream),
            depth_of(&info.stream),
            info.duration,
        );
        proof {
            let seg = since(before, self@);
            assert(seg.drop_last() =~= since(before, kept));
            assert(seg.last() == since(kept, self@)[0]);
            assert(seg.last().request->Execute_1 =~= metadata_request(
                song_path@,
                stem@,
                *info,
            )->Execute_1);
        }
    }

    /// The next songs below some folders that are to be read, until all were read
    /// or the player is being closed.
    pub fn next_batch(&mut self, folders: &Vec<String>, shutdown: bool) -> (res: Result<
        Option<Vec<String>>,
        DbError,
    >)
        ensures
            if shutdown {
                final(self)@ == old(self)@ && (res matches Ok(batch) && batch is None)
            } else if folders@.len() == 0 {
                final(self)@ == old(self)@ && (res matches Ok(batch) && batch is None)
            } else {
                exists|list: Result<Seq<Seq<char>>, DbError>|
                    {
                        &&& #[trigger] listing(
                            old(self)@,
                            final(self)@,
                            Request::QueryMap(
                                unscanned_sql(folders@.len()),
                                unscanned_params(texts(folders@), 50),
                            ),
                            list,
                        )
                        &&& match (list, res) {
                            (Ok(l), Ok(Some(batch))) => l.len() > 0 && texts(batch@) == l,
                            (Ok(l), Ok(None)) => l.len() == 0,
                            (Err(a), Err(b)) => a == b,
                            _ => false,
                        }
                    }
            },
    {
        if shutdown {
            return Ok(None);
        }
        match self.get_unscanned_songs(folders.as_slice(), BATCH) {
            Ok(batch) => {
                if batch.len() == 0 {
                    assert(texts(batch@).len() == 0);
                    Ok(None)
                } else {
                    Ok(Some(batch))
                }
            },
            Err(e) => Err(e),
        }
    }
}

} // verus!
