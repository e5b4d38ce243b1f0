//! What the library promises of its lists of songs and of their covers, where its
//! database answers faithfully.
use crate::cover_cache::song_covers_in;
use crate::cover_search::{
    cover_of, discovered_request, searched, whole_search_finds_the_cover, Hunt, Told, World,
};
use crate::library_db::{count_in, first_texts, listing};
use crate::matching::{
    below_root, below_roots, is_plain, like, nocase_at_most, roots_begin_what_lies_below, stands_in,
    words_occur_somewhere,
};
use crate::queries::{are_rows, are_rows_of, asked_for};
use crate::query_texts::{
    count_query_of, playlist_query_of, queries_ask_for_what_is_meant, queries_read_as_meant,
    search_query_of, unread_query_of,
};
use crate::records::{bytes_in, songs_in, Song};
use crate::sql::{
    count_sql, playlist_params, playlist_sql, root_params, search_sql, unscanned_params,
    unscanned_sql, word_params, FIRST_SONG_COVER, FOLDER_SONGS, GET_SONG_COVER, HAS_COVER,
    MARK_NO_COVER, SEARCH_LIMIT, SET_COVER, SONG_COVERS_OF_FOLDER,
};
use crate::store::{asked, bytes_at, row_in, rows_in, text_at, Datum, Exchange, Request};
use crate::tables::{
    answers, covers_in, executed, faithful, is_covered_in, is_match, is_played, is_playlist,
    is_search_result, is_song_in, is_unread_list, listed_before, matches_under, one_exchange,
    paths_are_read, query_lengths, right_count, right_list, row_is_right, rows_are_right,
    shows_first_cover, shows_song, shows_songs, song_holds_word, songs_are_read, songs_under,
    statement_lengths, tables, unread_under, went_through, Tables,
};
use crate::text::{at_most_antisymmetric, signed_digits};
use vstd::prelude::*;

verus! {

proof fn asked_faithfully(t: Tables, seg: Seq<Exchange>, request: Request)
    requires
        asked(seg, request),
        faithful(t, seg),
        request is QueryRow || request is QueryMap,
    ensures
        answers(t, seg[0]),
        seg[0].request == request,
        tables(t, seg) == t,
{
    one_exchange(t, seg);
}

/// The playlist of roots holds each song in them or below them once, by path; those
/// of an artist who is to be left out are not in it. Nothing changes.
pub proof fn playlist_holds_each_song_once(
    t: Tables,
    roots: Seq<Seq<char>>,
    exclude: Option<Seq<char>>,
    seg: Seq<Exchange>,
)
    requires
        asked(
            seg,
            Request::QueryMap(
                playlist_sql(roots.len(), exclude is Some),
                playlist_params(roots, exclude),
            ),
        ),
        faithful(t, seg),
    ensures
        rows_in(seg[0]) matches Some(rows) && is_playlist(t, roots, exclude, first_texts(rows)),
        tables(t, seg) == t,
{
    let request = Request::QueryMap(
        playlist_sql(roots.len(), exclude is Some),
        playlist_params(roots, exclude),
    );
    asked_faithfully(t, seg, request);
    let query = playlist_query_of(roots.len(), exclude is Some);
    let params = playlist_params(roots, exclude);
    queries_read_as_meant(roots.len(), 0, exclude is Some);
    assert(rows_in(seg[0]) matches Some(rows) && are_rows(t, query, params, rows)) by {
        reveal(answers);
        reveal(right_list);
    }
    let rows = rows_in(seg[0])->0;
    let songs = choose|songs: Seq<Seq<char>>| #[trigger]
        are_rows_of(t, query, params, songs, rows);
    paths_are_read(songs, rows);
    reveal(is_playlist);
    assert forall|s: Seq<char>| #[trigger] songs.contains(s) <==> is_played(
        t,
        roots,
        exclude,
        s,
    ) by {
        queries_ask_for_what_is_meant(roots, exclude, 0, Seq::empty(), s, t.songs[s]);
        assert(songs.contains(s) <==> asked_for(t, query, params).contains(s));
    }
}

/// The number of songs below roots is the length of their playlist; where it does not
/// fit, none are counted.
pub proof fn count_is_the_length_of_the_playlist(
    t: Tables,
    roots: Seq<Seq<char>>,
    count: Seq<Exchange>,
    list: Seq<Exchange>,
)
    requires
        asked(count, Request::QueryRow(count_sql(roots.len()), root_params(roots))),
        asked(
            list,
            Request::QueryMap(playlist_sql(roots.len(), false), playlist_params(roots, None)),
        ),
        faithful(t, count),
        faithful(t, list),
    ensures
        rows_in(list[0]) matches Some(rows) && count_in(row_in(count[0])) == if first_texts(
            rows,
        ).len() <= i32::MAX {
            first_texts(rows).len() as int
        } else {
            0
        },
        tables(t, count) == t,
{
    asked_faithfully(t, count, Request::QueryRow(count_sql(roots.len()), root_params(roots)));
    playlist_holds_each_song_once(t, roots, None, list);
    let songs = first_texts(rows_in(list[0])->0);
    let query = count_query_of(roots.len());
    queries_read_as_meant(roots.len(), 0, false);
    assert(row_in(count[0]) == Some(
        seq![Datum::Integer(asked_for(t, query, root_params(roots)).len() as int)],
    )) by {
        reveal(answers);
        reveal(right_count);
    }
    assert forall|s: Seq<char>| #[trigger] songs_under(t, roots).contains(s) == asked_for(
        t,
        query,
        root_params(roots),
    ).contains(s) by {
        queries_ask_for_what_is_meant(roots, None, 0, Seq::empty(), s, t.songs[s]);
    }
    assert(asked_for(t, query, root_params(roots)) =~= songs_under(t, roots));
    reveal(is_playlist);
    assert(songs.to_set() =~= songs_under(t, roots));
    songs.unique_seq_to_set();
    let r = row_in(count[0])->0;
    assert(r[0] == Datum::Integer(songs.len() as int));
}

/// A root that is given twice, or that lies below another one, adds nothing: each
/// song counts once.
pub proof fn repeated_roots_add_nothing(t: Tables, roots: Seq<Seq<char>>, root: Seq<char>)
    requires
        forall|s: Seq<char>| #[trigger]
            t.songs.contains_key(s) && below_roots(seq![root], t.songs[s].folder) ==> below_roots(
                roots,
                t.songs[s].folder,
            ),
    ensures
        songs_under(t, roots.push(root)) == songs_under(t, roots),
{
    let more = roots.push(root);
    assert forall|s: Seq<char>| t.songs.contains_key(s) implies #[trigger] below_roots(
        more,
        t.songs[s].folder,
    ) == below_roots(roots, t.songs[s].folder) by {
        let dir = t.songs[s].folder;
        if below_roots(more, dir) {
            let i = choose|i: int|
                0 <= i < more.len() && below_root(#[trigger] more[i], dir);
            if i < roots.len() {
                assert(roots[i] == more[i]);
            } else {
                assert(seq![root][0] == more[i]);
                assert(below_roots(seq![root], dir));
            }
        }
        if below_roots(roots, dir) {
            let i = choose|i: int|
                0 <= i < roots.len() && below_root(#[trigger] roots[i], dir);
            assert(more[i] == roots[i]);
        }
    }
    assert(songs_under(t, more) =~= songs_under(t, roots));
}

/// Rows that answer the query for songs that were not read yet.
pub proof fn unread_rows_are_listed(t: Tables, roots: Seq<Seq<char>>, limit: int, e: Exchange)
    requires
        answers(t, e),
        e.request == Request::QueryMap(
            unscanned_sql(roots.len()),
            unscanned_params(roots, limit),
        ),
    ensures
        rows_in(e) matches Some(rows) && is_unread_list(t, roots, limit, first_texts(rows)),
{
    let query = unread_query_of(roots.len());
    let params = unscanned_params(roots, limit);
    queries_read_as_meant(roots.len(), 0, false);
    assert(rows_in(e) matches Some(rows) && are_rows(t, query, params, rows)) by {
        reveal(answers);
        reveal(right_list);
    }
    let rows = rows_in(e)->0;
    let songs = choose|songs: Seq<Seq<char>>| #[trigger]
        are_rows_of(t, query, params, songs, rows);
    paths_are_read(songs, rows);
    reveal(is_unread_list);
    assert forall|s: Seq<char>| #[trigger] unread_under(t, roots).contains(s) == asked_for(
        t,
        query,
        params,
    ).contains(s) by {
        queries_ask_for_what_is_meant(roots, None, limit, Seq::empty(), s, t.songs[s]);
    }
    assert(asked_for(t, query, params) =~= unread_under(t, roots));
    assert(params.last() == signed_digits(limit));
}

/// The songs that are still to be read are songs below the roots that were not read
/// yet: distinct ones, as many as there are up to the limit. None is left exactly
/// when all songs below the roots were read.
pub proof fn unread_songs_are_listed(
    t: Tables,
    roots: Seq<Seq<char>>,
    limit: int,
    seg: Seq<Exchange>,
)
    requires
        asked(seg, Request::QueryMap(unscanned_sql(roots.len()), unscanned_params(roots, limit))),
        faithful(t, seg),
        t.songs.dom().finite(),
    ensures
        rows_in(seg[0]) matches Some(rows) && {
            let list = first_texts(rows);
            &&& is_unread_list(t, roots, limit, list)
            &&& limit > 0 ==> (list.len() == 0 <==> forall|s: Seq<char>|
                songs_under(t, roots).contains(s) ==> (#[trigger] t.songs[s]).meta_scanned)
        },
        tables(t, seg) == t,
{
    let request = Request::QueryMap(unscanned_sql(roots.len()), unscanned_params(roots, limit));
    asked_faithfully(t, seg, request);
    unread_rows_are_listed(t, roots, limit, seg[0]);
    reveal(is_unread_list);
    let unread = unread_under(t, roots);
    assert(unread.subset_of(t.songs.dom()));
    vstd::set_lib::lemma_set_subset_finite(t.songs.dom(), unread);
    if unread.len() == 0 {
        assert forall|s: Seq<char>| songs_under(t, roots).contains(s) implies (
        #[trigger] t.songs[s]).meta_scanned by {
            if !t.songs[s].meta_scanned {
                assert(unread.contains(s));
                unread.lemma_len0_is_empty();
            }
        }
    } else if forall|s: Seq<char>|
        songs_under(t, roots).contains(s) ==> (#[trigger] t.songs[s]).meta_scanned {
        assert(unread =~= Set::empty());
    }
}

proof fn search_rows_are_listed(
    t: Tables,
    roots: Seq<Seq<char>>,
    words: Seq<Seq<char>>,
    e: Exchange,
)
    requires
        answers(t, e),
        e.request == Request::QueryMap(
            search_sql(roots.len(), words.len()),
            root_params(roots) + word_params(words),
        ),
    ensures
        rows_in(e) matches Some(rows) && is_search_result(t, roots, words, songs_in(rows)),
{
    let query = search_query_of(roots.len(), words.len());
    let params = root_params(roots) + word_params(words);
    queries_read_as_meant(roots.len(), words.len(), false);
    assert(rows_in(e) matches Some(rows) && are_rows(t, query, params, rows)) by {
        reveal(answers);
        reveal(right_list);
    }
    let rows = rows_in(e)->0;
    let songs = choose|songs: Seq<Seq<char>>| #[trigger]
        are_rows_of(t, query, params, songs, rows);
    songs_are_read(t, songs, rows);
    let list = songs_in(rows);
    let all = asked_for(t, query, params);
    assert forall|s: Seq<char>| #[trigger] all.contains(s) == is_match(t, roots, words, s) by {
        queries_ask_for_what_is_meant(roots, None, 0, words, s, t.songs[s]);
    }
    assert(all =~= matches_under(t, roots, words)) by {
        assert forall|s: Seq<char>| #[trigger] all.contains(s) == matches_under(
            t,
            roots,
            words,
        ).contains(s) by {
            assert(all.contains(s) == is_match(t, roots, words, s));
        }
    }
    reveal(is_search_result);
    assert forall|i: int| 0 <= i < list.len() implies is_match(
        t,
        roots,
        words,
        (#[trigger] list[i]).path,
    ) && shows_song(t, t.songs[list[i].path], list[i]) by {
        assert(songs.contains(songs[i]));
        assert(all.contains(songs[i]));
    }
    assert forall|i: int, j: int| 0 <= i < j < list.len() implies (#[trigger] list[i]).path != (
    #[trigger] list[j]).path && nocase_at_most(list[i].title, list[j].title) by {
        assert(songs[i] != songs[j]);
    }
    assert forall|s: Seq<char>, i: int|
        #[trigger] is_match(t, roots, words, s) && 0 <= i < list.len() && (forall|j: int|
            0 <= j < list.len() ==> (#[trigger] list[j]).path != s) implies nocase_at_most(
        (#[trigger] list[i]).title,
        t.songs[s].title,
    ) by {
        assert(all.contains(s));
        if songs.contains(s) {
            let j = choose|j: int| 0 <= j < songs.len() && songs[j] == s;
            assert(list[j].path == s);
        }
        assert(songs[i] == list[i].path);
    }
}

/// A search gives songs below the roots that hold all words, each once: all of them,
/// or the first ones by title where there are too many. Nothing changes.
pub proof fn search_gives_the_first_matches(
    t: Tables,
    roots: Seq<Seq<char>>,
    words: Seq<Seq<char>>,
    seg: Seq<Exchange>,
)
    requires
        asked(
            seg,
            Request::QueryMap(
                search_sql(roots.len(), words.len()),
                root_params(roots) + word_params(words),
            ),
        ),
        faithful(t, seg),
        t.songs.dom().finite(),
    ensures
        rows_in(seg[0]) matches Some(rows) && {
            let list = songs_in(rows);
            &&& is_search_result(t, roots, words, list)
            &&& matches_under(t, roots, words).len() <= SEARCH_LIMIT ==> forall|s: Seq<char>|
                #[trigger]
                is_match(t, roots, words, s) ==> exists|i: int|
                    0 <= i < list.len() && (#[trigger] list[i]).path == s
        },
        tables(t, seg) == t,
{
    let request = Request::QueryMap(
        search_sql(roots.len(), words.len()),
        root_params(roots) + word_params(words),
    );
    asked_faithfully(t, seg, request);
    search_rows_are_listed(t, roots, words, seg[0]);
    let list = songs_in(rows_in(seg[0])->0);
    let found = matches_under(t, roots, words);
    if found.len() <= SEARCH_LIMIT {
        reveal(is_search_result);
        let paths = list.map_values(|s: Song| s.path);
        assert(paths.no_duplicates()) by {
            assert forall|i: int, j: int|
                0 <= i < paths.len() && 0 <= j < paths.len() && i != j implies paths[i]
                != paths[j] by {
                if i < j {
                    assert(list[i].path != list[j].path);
                } else {
                    assert(list[j].path != list[i].path);
                }
            }
        }
        paths.unique_seq_to_set();
        assert(found.subset_of(t.songs.dom()));
        vstd::set_lib::lemma_set_subset_finite(t.songs.dom(), found);
        assert forall|s: Seq<char>| #[trigger] paths.to_set().contains(s) implies found.contains(
            s,
        ) by {
            let i = choose|i: int| 0 <= i < paths.len() && paths[i] == s;
            assert(is_match(t, roots, words, list[i].path));
        }
        vstd::set_lib::lemma_subset_equality(paths.to_set(), found);
        assert forall|s: Seq<char>| #[trigger] is_match(t, roots, words, s) implies exists|i: int|
            0 <= i < list.len() && (#[trigger] list[i]).path == s by {
            assert(found.contains(s));
            assert(paths.contains(s));
            let i = choose|i: int| 0 <= i < paths.len() && paths[i] == s;
            assert(list[i].path == s);
        }
    }
}

/// The covers of the songs of a folder are those that the songs have one by one: a
/// path has a cover in them where it is that of a song in the folder that has a
/// cover, and it is the same cover. Nothing changes.
pub proof fn song_covers_agree(
    t: Tables,
    path: Seq<char>,
    song: Seq<char>,
    all: Seq<Exchange>,
    one: Seq<Exchange>,
)
    requires
        asked(all, Request::QueryMap(SONG_COVERS_OF_FOLDER@, seq![path])),
        asked(one, Request::QueryRow(GET_SONG_COVER@, seq![song])),
        faithful(t, all),
        faithful(t, one),
    ensures
        rows_in(all[0]) matches Some(rows) && {
            let covers = song_covers_in(rows);
            let cover = bytes_in(row_in(one[0]));
            &&& covers.contains_key(song) <==> is_song_in(t, path, song) && cover is Some
            &&& covers.contains_key(song) ==> cover == Some(covers[song])
        },
        tables(t, all) == t,
{
    query_lengths();
    asked_faithfully(t, all, Request::QueryMap(SONG_COVERS_OF_FOLDER@, seq![path]));
    asked_faithfully(t, one, Request::QueryRow(GET_SONG_COVER@, seq![song]));
    rows_are_right(t, all[0], SONG_COVERS_OF_FOLDER@, path);
    row_is_right(t, one[0], GET_SONG_COVER@, song);
    assert(song_covers_in(rows_in(all[0])->0) == covers_in(t, path));
    if t.song_covers.contains_key(song) {
        assert(bytes_at(row_in(one[0])->0, 0) == Some(t.song_covers[song]));
    }
}

/// The first song in a list that has a cover.
pub open spec fn first_covered(t: Tables, list: Seq<Song>, i: int) -> bool {
    &&& 0 <= i < list.len()
    &&& t.song_covers.contains_key(list[i].path)
    &&& forall|j: int| 0 <= j < i ==> !t.song_covers.contains_key((#[trigger] list[j]).path)
}

/// The cover that is found among the songs of a folder is that of the first song, in
/// the list of the folder's songs, that has a cover. None is found exactly when no
/// song in the list has one.
pub proof fn first_cover_is_of_the_first_song(
    t: Tables,
    path: Seq<char>,
    songs: Seq<Exchange>,
    first: Seq<Exchange>,
)
    requires
        asked(songs, Request::QueryMap(FOLDER_SONGS@, seq![path])),
        asked(first, Request::QueryRow(FIRST_SONG_COVER@, seq![path])),
        faithful(t, songs),
        faithful(t, first),
    ensures
        rows_in(songs[0]) matches Some(rows) && {
            let list = songs_in(rows);
            let cover = bytes_in(row_in(first[0]));
            &&& cover is None <==> forall|i: int|
                0 <= i < list.len() ==> !t.song_covers.contains_key((#[trigger] list[i]).path)
            &&& forall|i: int| #[trigger]
                first_covered(t, list, i) ==> cover == Some(t.song_covers[list[i].path])
        },
        tables(t, first) == t,
{
    query_lengths();
    asked_faithfully(t, songs, Request::QueryMap(FOLDER_SONGS@, seq![path]));
    asked_faithfully(t, first, Request::QueryRow(FIRST_SONG_COVER@, seq![path]));
    rows_are_right(t, songs[0], FOLDER_SONGS@, path);
    row_is_right(t, first[0], FIRST_SONG_COVER@, path);
    reveal(shows_songs);
    reveal(shows_first_cover);
    let list = songs_in(rows_in(songs[0])->0);
    let row = row_in(first[0]);
    assert forall|i: int|
        0 <= i < list.len() && t.song_covers.contains_key(
            (#[trigger] list[i]).path,
        ) implies is_covered_in(t, path, list[i].path) by {
        assert(is_song_in(t, path, list[i].path));
    }
    if row is Some {
        let s = choose|s: Seq<char>| #[trigger]
            is_covered_in(t, path, s) && row->0 == seq![Datum::Blob(t.song_covers[s])] && (forall|
                o: Seq<char>,
            | #[trigger]
                is_covered_in(t, path, o) ==> listed_before(t, s, o));
        assert(bytes_at(row->0, 0) == Some(t.song_covers[s]));
        assert(is_song_in(t, path, s));
        let m = choose|m: int| 0 <= m < list.len() && (#[trigger] list[m]).path == s;
        assert forall|i: int| #[trigger] first_covered(t, list, i) implies list[i].path == s by {
            assert(is_covered_in(t, path, list[i].path));
            if i < m {
                assert(listed_before(t, list[i].path, list[m].path));
                at_most_antisymmetric(s, list[i].path);
            }
        }
    }
}

/// Looking for the cover of a folder settles it: afterwards the library knows the
/// cover that there is, or that there is none. Where it knew before, nothing is
/// looked for. No other cover changes, and nothing else does. A second time nothing
/// is looked for.
pub proof fn discovery_settles_the_cover(
    t: Tables,
    world: World,
    path: Seq<char>,
    ask: Seq<Exchange>,
    stages: Seq<Hunt>,
    news: Seq<Told>,
    keep: Seq<Exchange>,
    again: Seq<Exchange>,
)
    requires
        asked(ask, Request::QueryRow(HAS_COVER@, seq![path])),
        faithful(t, ask),
        row_in(ask[0]) is None ==> searched(world, path, stages, news) && asked(
            keep,
            discovered_request(path, stages.last().found),
        ) && went_through(keep),
        row_in(ask[0]) is Some ==> keep.len() == 0,
        asked(again, Request::QueryRow(HAS_COVER@, seq![path])),
        faithful(tables(t, keep), again),
    ensures
        row_in(ask[0]) is Some <==> t.covers.contains_key(path),
        tables(t, ask) == t,
        tables(t, keep) == if t.covers.contains_key(path) {
            t
        } else {
            Tables { covers: t.covers.insert(path, cover_of(world, path, 0)), ..t }
        },
        row_in(again[0]) is Some,
        tables(tables(t, keep), again) == tables(t, keep),
{
    query_lengths();
    statement_lengths();
    asked_faithfully(t, ask, Request::QueryRow(HAS_COVER@, seq![path]));
    row_is_right(t, ask[0], HAS_COVER@, path);
    let after = tables(t, keep);
    if row_in(ask[0]) is None {
        whole_search_finds_the_cover(world, path, stages, news);
        one_exchange(t, keep);
        match stages.last().found {
            Some(b) => {
                let params = seq![
                    Datum::Text(path),
                    Datum::Text("discovered"@),
                    Datum::Blob(b),
                ];
                assert(text_at(params, 0) == Some(path));
                assert(bytes_at(params, 2) == Some(b));
                assert(after == executed(t, SET_COVER@, params));
            },
            None => {
                let params = seq![Datum::Text(path)];
                assert(text_at(params, 0) == Some(path));
                assert(after == executed(t, MARK_NO_COVER@, params));
            },
        }
    }
    asked_faithfully(after, again, Request::QueryRow(HAS_COVER@, seq![path]));
    row_is_right(after, again[0], HAS_COVER@, path);
}

/// A search finds a song below the roots exactly where each word occurs somewhere in its
/// title, its artist, its album or its name, whatever the case. There are not too many such
/// songs, and the words hold no wildcards.
pub proof fn search_compares_title_artist_album_and_name(
    t: Tables,
    roots: Seq<Seq<char>>,
    words: Seq<Seq<char>>,
    seg: Seq<Exchange>,
    s: Seq<char>,
)
    requires
        asked(
            seg,
            Request::QueryMap(
                search_sql(roots.len(), words.len()),
                root_params(roots) + word_params(words),
            ),
        ),
        faithful(t, seg),
        t.songs.dom().finite(),
        forall|k: int| 0 <= k < words.len() ==> is_plain(#[trigger] words[k]),
        matches_under(t, roots, words).len() <= 200,
    ensures
        rows_in(seg[0]) matches Some(rows) && {
            (exists|i: int| 0 <= i < songs_in(rows).len() && (#[trigger] songs_in(rows)[i]).path == s)
                <==> {
                &&& t.songs.contains_key(s)
                &&& below_roots(roots, t.songs[s].folder)
                &&& forall|k: int|
                    0 <= k < words.len() ==> {
                        let row = t.songs[s];
                        let word = #[trigger] words[k];
                        ||| occurs(word, row.title)
                        ||| occurs(word, row.meta.artist)
                        ||| occurs(word, row.meta.album)
                        ||| occurs(word, row.name)
                    }
            }
        },
{
    search_gives_the_first_matches(t, roots, words, seg);
    let list = songs_in(rows_in(seg[0])->0);
    let row = t.songs[s];
    assert forall|k: int| 0 <= k < words.len() implies song_holds_word(row, #[trigger] words[k])
        == {
        ||| occurs(words[k], row.title)
        ||| occurs(words[k], row.meta.artist)
        ||| occurs(words[k], row.meta.album)
        ||| occurs(words[k], row.name)
    } by {
        words_occur_somewhere(row.title, words[k]);
        words_occur_somewhere(row.meta.artist, words[k]);
        words_occur_somewhere(row.meta.album, words[k]);
        words_occur_somewhere(row.name, words[k]);
    }
    if exists|i: int| 0 <= i < list.len() && (#[trigger] list[i]).path == s {
        let i = choose|i: int| 0 <= i < list.len() && (#[trigger] list[i]).path == s;
        reveal(is_search_result);
        assert(is_match(t, roots, words, list[i].path));
    }
    if t.songs.contains_key(s) && below_roots(roots, row.folder) && (forall|k: int|
        0 <= k < words.len() ==> {
            let word = #[trigger] words[k];
            ||| occurs(word, row.title)
            ||| occurs(word, row.meta.artist)
            ||| occurs(word, row.meta.album)
            ||| occurs(word, row.name)
        }) {
        assert forall|k: int| 0 <= k < words.len() implies song_holds_word(
            row,
            #[trigger] words[k],
        ) by {}
        assert(is_match(t, roots, words, s));
    }
}

/// Whether a word occurs somewhere in a text, whatever the case.
pub open spec fn occurs(word: Seq<char>, text: Seq<char>) -> bool {
    exists|at: int| #[trigger] stands_in(word, text, at)
}

/// The playlist leaves out exactly the songs in whose artist a text occurs anywhere, whatever
/// the case: the pattern that is sent matches just these. The text holds no wildcards.
pub proof fn playlist_leaves_out_the_artist(
    t: Tables,
    roots: Seq<Seq<char>>,
    artist: Seq<char>,
    seg: Seq<Exchange>,
    s: Seq<char>,
)
    requires
        asked(
            seg,
            Request::QueryMap(
                playlist_sql(roots.len(), true),
                playlist_params(roots, Some(artist)),
            ),
        ),
        faithful(t, seg),
        is_plain(artist),
    ensures
        rows_in(seg[0]) matches Some(rows) && (first_texts(rows).contains(s) <==> {
            &&& t.songs.contains_key(s)
            &&& below_roots(roots, t.songs[s].folder)
            &&& !occurs(artist, t.songs[s].meta.artist)
        }),
        forall|text: Seq<char>| #[trigger]
            like(playlist_params(roots, Some(artist)).last(), text) <==> occurs(artist, text),
{
    playlist_holds_each_song_once(t, roots, Some(artist), seg);
    reveal(is_playlist);
    words_occur_somewhere(t.songs[s].meta.artist, artist);
    assert forall|text: Seq<char>| #[trigger] like(
        playlist_params(roots, Some(artist)).last(),
        text,
    ) <==> occurs(artist, text) by {
        words_occur_somewhere(text, artist);
    }
    let list = first_texts(rows_in(seg[0])->0);
    assert(list.contains(s) <==> is_played(t, roots, Some(artist), s));
}

/// Which songs are below roots: those in a folder that is a root, or whose path begins with a
/// root and a slash, whatever the case. The roots hold no wildcards and do not end in slashes.
pub proof fn songs_below_roots_are_these(t: Tables, roots: Seq<Seq<char>>, s: Seq<char>)
    requires
        forall|k: int|
            0 <= k < roots.len() ==> is_plain(#[trigger] roots[k]) && roots[k].len() > 0
                && roots[k].last() != '/',
    ensures
        songs_under(t, roots).contains(s) <==> t.songs.contains_key(s) && exists|k: int|
            0 <= k < roots.len() && (t.songs[s].folder == #[trigger] roots[k] || stands_in(
                roots[k] + seq!['/'],
                t.songs[s].folder,
                0,
            )),
{
    let dir = t.songs[s].folder;
    assert forall|k: int| 0 <= k < roots.len() implies below_root(#[trigger] roots[k], dir) == (dir
        == roots[k] || stands_in(roots[k] + seq!['/'], dir, 0)) by {
        roots_begin_what_lies_below(roots[k], dir);
    }
    if exists|k: int|
        0 <= k < roots.len() && (dir == #[trigger] roots[k] || stands_in(
            roots[k] + seq!['/'],
            dir,
            0,
        )) {
        let k = choose|k: int|
            0 <= k < roots.len() && (dir == #[trigger] roots[k] || stands_in(
                roots[k] + seq!['/'],
                dir,
                0,
            ));
        assert(below_root(roots[k], dir));
    }
}

/// The list that comes of asking for a playlist is the playlist.
pub proof fn listed_playlist_is_the_playlist(
    t: Tables,
    before: Seq<Exchange>,
    after: Seq<Exchange>,
    roots: Seq<Seq<char>>,
    exclude: Option<Seq<char>>,
    list: Seq<Seq<char>>,
)
    requires
        listing(
            before,
            after,
            Request::QueryMap(
                playlist_sql(roots.len(), exclude is Some),
                playlist_params(roots, exclude),
            ),
            Ok(list),
        ),
        faithful(t, after.skip(before.len() as int)),
    ensures
        is_playlist(t, roots, exclude, list),
{
    let seg = after.skip(before.len() as int);
    assert(seg[0] == after.last());
    playlist_holds_each_song_once(t, roots, exclude, seg);
}

/// The list that comes of asking for songs that were not read yet holds such songs.
pub proof fn listed_unread_songs_are_unread(
    t: Tables,
    before: Seq<Exchange>,
    after: Seq<Exchange>,
    roots: Seq<Seq<char>>,
    limit: int,
    list: Seq<Seq<char>>,
)
    requires
        listing(
            before,
            after,
            Request::QueryMap(unscanned_sql(roots.len()), unscanned_params(roots, limit)),
            Ok(list),
        ),
        faithful(t, after.skip(before.len() as int)),
    ensures
        is_unread_list(t, roots, limit, list),
{
    let seg = after.skip(before.len() as int);
    assert(seg[0] == after.last());
    one_exchange(t, seg);
    unread_rows_are_listed(t, roots, limit, seg[0]);
}

} // verus!
