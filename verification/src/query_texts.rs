//! What the queries for songs below roots say: the text of each is read as a query, and
//! what it asks for is found in the roots and the words it was made from.
use crate::matching::{below_root, below_roots, holds_word};
use crate::queries::{
    all_hold, all_text, any_holds, any_text, is_asked_for, query_text, term_holds, term_text,
    Column, SongQuery, Term,
};
use crate::sql::{
    count_sql, playlist_params, playlist_sql, root_condition, root_params, search_sql,
    unscanned_params, unscanned_sql, word_condition, word_params,
};
use crate::tables::{song_holds_word, SongRow};
use crate::text::{joined, signed_digits, without_end_slashes};
use vstd::prelude::*;

verus! {

/// The terms for roots: for each one that the folder is the root, or matches a pattern.
pub open spec fn place_terms(roots: nat) -> Seq<Term> {
    Seq::new(
        2 * roots,
        |i: int|
            if i % 2 == 0 {
                Term::Is(Column::Folder)
            } else {
                Term::Like(Column::Folder)
            },
    )
}

/// The terms for a word.
pub open spec fn word_terms() -> Seq<Term> {
    seq![
        Term::Like(Column::Title),
        Term::Like(Column::Artist),
        Term::Like(Column::Album),
        Term::Like(Column::Name),
    ]
}

/// The terms for words.
pub open spec fn words_terms(words: nat) -> Seq<Seq<Term>> {
    Seq::new(words, |i: int| word_terms())
}

/// The query for the playlist of roots.
pub open spec fn playlist_query_of(roots: nat, exclude: bool) -> SongQuery {
    SongQuery::Paths { places: place_terms(roots), without: exclude }
}

/// The query for songs below roots that were not read yet.
pub open spec fn unread_query_of(roots: nat) -> SongQuery {
    SongQuery::Unread { places: place_terms(roots) }
}

/// The query for the number of songs below roots.
pub open spec fn count_query_of(roots: nat) -> SongQuery {
    SongQuery::Count { places: place_terms(roots) }
}

/// The query for songs below roots in which words occur.
pub open spec fn search_query_of(roots: nat, words: nat) -> SongQuery {
    SongQuery::Whole { places: place_terms(roots), words: words_terms(words) }
}

proof fn place_texts()
    ensures
        "folder = ? OR folder LIKE ?"@ == term_text(Term::Is(Column::Folder)) + " OR "@
            + term_text(Term::Like(Column::Folder)),
{
    reveal_strlit("folder = ? OR folder LIKE ?");
    reveal_strlit("folder");
    reveal_strlit(" = ?");
    reveal_strlit(" LIKE ?");
    reveal_strlit(" OR ");
    assert("folder = ? OR folder LIKE ?"@ =~= "folder"@ + " = ?"@ + " OR "@ + ("folder"@
        + " LIKE ?"@));
}

/// The condition for a word compares the title, the artist, the album and the name with it,
/// and nothing else.
pub proof fn word_condition_names_four_columns()
    ensures
        word_condition(1)
            == "(title LIKE ? OR artist LIKE ? OR album LIKE ? OR name LIKE ?)"@,
{
}

proof fn word_texts()
    ensures
        "(title LIKE ? OR artist LIKE ? OR album LIKE ? OR name LIKE ?)"@ == "("@ + any_text(
            word_terms(),
        ) + ")"@,
{
    reveal_strlit("(title LIKE ? OR artist LIKE ? OR album LIKE ? OR name LIKE ?)");
    reveal_strlit("title");
    reveal_strlit("artist");
    reveal_strlit("album");
    reveal_strlit("name");
    reveal_strlit(" LIKE ?");
    reveal_strlit(" OR ");
    reveal_strlit("(");
    reveal_strlit(")");
    let parts = word_terms().map_values(|term: Term| term_text(term));
    let p1 = parts.drop_last();
    let p2 = p1.drop_last();
    let p3 = p2.drop_last();
    assert(joined(p3, " OR "@) == "title"@ + " LIKE ?"@);
    assert(joined(p2, " OR "@) == joined(p3, " OR "@) + " OR "@ + ("artist"@ + " LIKE ?"@));
    assert(joined(p1, " OR "@) == joined(p2, " OR "@) + " OR "@ + ("album"@ + " LIKE ?"@));
    assert(any_text(word_terms()) == joined(p1, " OR "@) + " OR "@ + ("name"@ + " LIKE ?"@));
    assert("(title LIKE ? OR artist LIKE ? OR album LIKE ? OR name LIKE ?)"@ =~= "("@ + ("title"@
        + " LIKE ?"@ + " OR "@ + ("artist"@ + " LIKE ?"@) + " OR "@ + ("album"@ + " LIKE ?"@)
        + " OR "@ + ("name"@ + " LIKE ?"@)) + ")"@);
}

proof fn roots_read_as_terms(roots: nat)
    ensures
        root_condition(roots) == any_text(place_terms(roots)),
    decreases roots,
{
    let is = term_text(Term::Is(Column::Folder));
    let like = term_text(Term::Like(Column::Folder));
    let or = " OR "@;
    let pairs = Seq::new(roots, |i: int| "folder = ? OR folder LIKE ?"@);
    let parts = place_terms(roots).map_values(|term: Term| term_text(term));
    place_texts();
    if roots == 0 {
        assert(pairs.len() == 0 && parts.len() == 0);
    } else {
        let fewer = (roots - 1) as nat;
        roots_read_as_terms(fewer);
        let init = parts.drop_last();
        assert(parts.last() == like);
        assert(init.last() == is);
        assert(joined(parts, or) == joined(init, or) + or + like);
        if roots == 1 {
            assert(joined(init, or) == is);
            assert(joined(pairs, or) == pairs[0]);
        } else {
            assert(init.drop_last() =~= place_terms(fewer).map_values(
                |term: Term| term_text(term),
            ));
            assert(joined(init, or) == joined(init.drop_last(), or) + or + is);
            assert(pairs.drop_last() =~= Seq::new(fewer, |i: int| "folder = ? OR folder LIKE ?"@));
            assert(joined(pairs, or) == joined(pairs.drop_last(), or) + or + pairs.last());
            let start = root_condition(fewer);
            assert(start + or + (is + or + like) =~= start + or + is + or + like);
        }
    }
}

proof fn words_read_as_terms(words: nat)
    ensures
        word_condition(words) == all_text(words_terms(words)),
{
    word_texts();
    assert(Seq::new(
        words,
        |i: int| "(title LIKE ? OR artist LIKE ? OR album LIKE ? OR name LIKE ?)"@,
    ) =~= words_terms(words).map_values(|terms: Seq<Term>| "("@ + any_text(terms) + ")"@));
}

/// The texts of the queries for songs below roots are read as these queries.
pub proof fn queries_read_as_meant(roots: nat, words: nat, exclude: bool)
    ensures
        playlist_sql(roots, exclude) == query_text(playlist_query_of(roots, exclude)),
        unscanned_sql(roots) == query_text(unread_query_of(roots)),
        count_sql(roots) == query_text(count_query_of(roots)),
        search_sql(roots, words) == query_text(search_query_of(roots, words)),
{
    roots_read_as_terms(roots);
    words_read_as_terms(words);
}

/// The parameters for roots: each root, and the pattern of what lies below it.
pub proof fn root_params_in_pairs(roots: Seq<Seq<char>>)
    ensures
        root_params(roots).len() == 2 * roots.len(),
        forall|i: int|
            0 <= i < roots.len() ==> root_params(roots)[2 * i] == #[trigger] roots[i]
                && root_params(roots)[2 * i + 1] == without_end_slashes(roots[i]) + "/%"@,
    decreases roots.len(),
{
    if roots.len() > 0 {
        let init = roots.drop_last();
        root_params_in_pairs(init);
        assert forall|i: int| 0 <= i < roots.len() implies root_params(roots)[2 * i]
            == #[trigger] roots[i] && root_params(roots)[2 * i + 1] == without_end_slashes(roots[i])
            + "/%"@ by {
            if i < init.len() {
                assert(init[i] == roots[i]);
            }
        }
    }
}

/// Of the terms for roots one holds of a song that lies in a root or below it.
pub proof fn places_are_below_roots(
    roots: Seq<Seq<char>>,
    params: Seq<Seq<char>>,
    path: Seq<char>,
    row: SongRow,
)
    requires
        root_params(roots).is_prefix_of(params),
    ensures
        any_holds(place_terms(roots.len()), params, path, row) == below_roots(roots, row.folder),
{
    let terms = place_terms(roots.len());
    let own = root_params(roots);
    root_params_in_pairs(roots);
    assert forall|i: int| 0 <= i < own.len() implies params[i] == own[i] by {}
    if any_holds(terms, params, path, row) {
        let k = choose|k: int|
            0 <= k < terms.len() && #[trigger] term_holds(terms[k], params[k], path, row);
        let i = k / 2;
        assert(params[k] == own[k]);
        assert(own[2 * i] == roots[i] && own[2 * i + 1] == without_end_slashes(roots[i]) + "/%"@);
        assert(below_root(roots[i], row.folder));
    }
    if below_roots(roots, row.folder) {
        let i = choose|i: int| 0 <= i < roots.len() && below_root(#[trigger] roots[i], row.folder);
        assert(own[2 * i] == roots[i] && own[2 * i + 1] == without_end_slashes(roots[i]) + "/%"@);
        assert(params[2 * i] == own[2 * i] && params[2 * i + 1] == own[2 * i + 1]);
        if row.folder == roots[i] {
            assert(terms[2 * i] == Term::Is(Column::Folder));
            assert(term_holds(terms[2 * i], params[2 * i], path, row));
        } else {
            assert(terms[2 * i + 1] == Term::Like(Column::Folder));
            assert(term_holds(terms[2 * i + 1], params[2 * i + 1], path, row));
        }
    }
}

proof fn word_is_held(word: Seq<char>, params: Seq<Seq<char>>, path: Seq<char>, row: SongRow)
    requires
        params.len() == 4,
        forall|i: int| 0 <= i < 4 ==> #[trigger] params[i] == "%"@ + word + "%"@,
    ensures
        any_holds(word_terms(), params, path, row) == {
            ||| holds_word(row.title, word)
            ||| holds_word(row.meta.artist, word)
            ||| holds_word(row.meta.album, word)
            ||| holds_word(row.name, word)
        },
{
    let terms = word_terms();
    assert(term_holds(terms[0], params[0], path, row) == holds_word(row.title, word));
    assert(term_holds(terms[1], params[1], path, row) == holds_word(row.meta.artist, word));
    assert(term_holds(terms[2], params[2], path, row) == holds_word(row.meta.album, word));
    assert(term_holds(terms[3], params[3], path, row) == holds_word(row.name, word));
}

/// The condition for words holds of a song where each word occurs in its title, its artist,
/// its album or its name.
pub proof fn words_are_held(words: Seq<Seq<char>>, path: Seq<char>, row: SongRow)
    ensures
        word_params(words).len() == 4 * words.len(),
        all_hold(words_terms(words.len()), word_params(words), path, row) <==> forall|i: int|
            0 <= i < words.len() ==> {
                ||| holds_word(row.title, #[trigger] words[i])
                ||| holds_word(row.meta.artist, words[i])
                ||| holds_word(row.meta.album, words[i])
                ||| holds_word(row.name, words[i])
            },
    decreases words.len(),
{
    if words.len() > 0 {
        let init = words.drop_last();
        let last = words.last();
        words_are_held(init, path, row);
        let groups = words_terms(words.len());
        let params = word_params(words);
        let n = params.len() - 4;
        assert(groups.drop_last() =~= words_terms(init.len()));
        assert(params.take(n) =~= word_params(init));
        assert(groups.last() == word_terms());
        let own = params.skip(n);
        assert forall|i: int| 0 <= i < 4 implies #[trigger] own[i] == "%"@ + last + "%"@ by {}
        word_is_held(last, own, path, row);
        assert forall|i: int| 0 <= i < words.len() implies {
            i == words.len() - 1 || init[i] == #[trigger] words[i]
        } by {}
        if all_hold(groups, params, path, row) {
            assert forall|i: int| 0 <= i < words.len() implies {
                ||| holds_word(row.title, #[trigger] words[i])
                ||| holds_word(row.meta.artist, words[i])
                ||| holds_word(row.meta.album, words[i])
                ||| holds_word(row.name, words[i])
            } by {
                if i < init.len() {
                    assert(init[i] == words[i]);
                }
            }
        }
        if forall|i: int|
            0 <= i < words.len() ==> {
                ||| holds_word(row.title, #[trigger] words[i])
                ||| holds_word(row.meta.artist, words[i])
                ||| holds_word(row.meta.album, words[i])
                ||| holds_word(row.name, words[i])
            } {
            assert forall|i: int| 0 <= i < init.len() implies {
                ||| holds_word(row.title, #[trigger] init[i])
                ||| holds_word(row.meta.artist, init[i])
                ||| holds_word(row.meta.album, init[i])
                ||| holds_word(row.name, init[i])
            } by {
                assert(init[i] == words[i]);
            }
            assert(words[words.len() - 1] == last);
        }
    }
}

/// What the queries for songs below roots ask for: songs that lie in a root or below it;
/// without an artist, those in whose artist the text does not occur; that were not read yet;
/// in which each word occurs.
pub proof fn queries_ask_for_what_is_meant(
    roots: Seq<Seq<char>>,
    exclude: Option<Seq<char>>,
    limit: int,
    words: Seq<Seq<char>>,
    path: Seq<char>,
    row: SongRow,
)
    ensures
        is_asked_for(
            playlist_query_of(roots.len(), exclude is Some),
            playlist_params(roots, exclude),
            path,
            row,
        ) <==> below_roots(roots, row.folder) && (exclude matches Some(artist) ==> !holds_word(
            row.meta.artist,
            artist,
        )),
        is_asked_for(
            unread_query_of(roots.len()),
            unscanned_params(roots, limit),
            path,
            row,
        ) <==> below_roots(roots, row.folder) && !row.meta_scanned,
        unscanned_params(roots, limit).last() == signed_digits(limit),
        is_asked_for(count_query_of(roots.len()), root_params(roots), path, row) <==> below_roots(
            roots,
            row.folder,
        ),
        is_asked_for(
            search_query_of(roots.len(), words.len()),
            root_params(roots) + word_params(words),
            path,
            row,
        ) <==> below_roots(roots, row.folder) && forall|i: int|
            0 <= i < words.len() ==> song_holds_word(row, #[trigger] words[i]),
{
    root_params_in_pairs(roots);
    places_are_below_roots(roots, playlist_params(roots, exclude), path, row);
    places_are_below_roots(roots, unscanned_params(roots, limit), path, row);
    places_are_below_roots(roots, root_params(roots), path, row);
    let both = root_params(roots) + word_params(words);
    places_are_below_roots(roots, both, path, row);
    words_are_held(words, path, row);
    assert(both.skip(place_terms(roots.len()).len() as int) =~= word_params(words));
    if all_hold(words_terms(words.len()), word_params(words), path, row) {
        assert forall|i: int| 0 <= i < words.len() implies song_holds_word(
            row,
            #[trigger] words[i],
        ) by {}
    }
    if forall|i: int| 0 <= i < words.len() ==> song_holds_word(row, #[trigger] words[i]) {
        assert forall|i: int| 0 <= i < words.len() implies {
            ||| holds_word(row.title, #[trigger] words[i])
            ||| holds_word(row.meta.artist, words[i])
            ||| holds_word(row.meta.album, words[i])
            ||| holds_word(row.name, words[i])
        } by {
            assert(song_holds_word(row, words[i]));
        }
    }
}

} // verus!
