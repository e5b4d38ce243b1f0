//! What is promised of what is found on disk: the folders and the songs in a folder, and the
//! cover of a folder.
use crate::cover_search::{
    cover_of, cover_paths, dir_path, dirs_in, dirs_of, first_cover, in_files, song_path,
    songs_listed, World, COVER_NAMES, MAX_COVER_DEPTH,
};
use crate::folder_tree::MAX_LEVELS;
use crate::formats::audio_extension;
use crate::order::{in_order, ordered, ordered_sorts, placed, ranks};
use crate::paths::{extension, file_name, inside, or_empty};
use crate::records::{Folder, Found};
use crate::scan::{
    audio_files_in, entry_folder, entry_order, entry_order_ranks, entry_song, folder_paths,
    name_order, name_order_ranks, subfolders_in, Entry, EntryKind,
};
use crate::scan_promises::{
    entered, entering_changes_their_rows, entries_make_a_listing, has_row, lie_in, own_row,
    row_left, scan_matches_disk, sub_row,
};
use crate::scanning::scan_run;
use crate::store::Exchange;
use crate::tables::{faithful, is_child, no_metadata, tables, went_through, Tables};
use crate::text::{at_most, at_most_total, lowercase, uppercase};
use crate::text_promises::names_split_at_their_last_dot;
use vstd::prelude::*;

verus! {

/// Whether an entry is a folder that is not hidden: its name does not begin with a dot.
pub open spec fn visible_folder(e: Entry) -> bool {
    e.kind == EntryKind::Folder && !(e.name.len() > 0 && e.name[0] == '.')
}

/// Whether an entry is a song that is not hidden: a file whose name does not begin with a dot
/// and has the extension of audio files, whatever its case.
pub open spec fn visible_song(e: Entry) -> bool {
    &&& e.kind == EntryKind::File
    &&& !(e.name.len() > 0 && e.name[0] == '.')
    &&& extension(e.name) matches Some(ext) && audio_extension(lowercase(ext))
}

proof fn chosen_of_one_more<A, B>(s: Seq<A>, x: A, f: spec_fn(A) -> Option<B>)
    ensures
        f(x) is Some ==> s.push(x).filter_map(f) == s.filter_map(f).push(f(x)->0),
        f(x) is None ==> s.push(x).filter_map(f) == s.filter_map(f),
        Seq::<A>::empty().filter_map(f).len() == 0,
{
    let all = s.push(x);
    all.lemma_filter_map_take_succ(f, s.len() as int);
    assert(all.take(s.len() as int) =~= s);
    assert(all.take(s.len() as int + 1) =~= all);
    if f(x) is Some {
        assert(all.filter_map(f) =~= s.filter_map(f).push(f(x)->0));
    } else {
        assert(all.filter_map(f) =~= s.filter_map(f));
    }
    reveal(Seq::filter_map);
}

/// What is chosen comes from an item.
pub proof fn chosen_comes_from<A, B>(s: Seq<A>, f: spec_fn(A) -> Option<B>, i: int) -> (r: int)
    requires
        0 <= i < s.filter_map(f).len(),
    ensures
        0 <= r < s.len(),
        f(s[r]) == Some(s.filter_map(f)[i]),
    decreases s.len(),
{
    if s.len() == 0 {
        assert(s =~= Seq::empty());
        if s.filter_map(f).len() > 0 {
            reveal(Seq::filter_map);
        }
        0
    } else {
        let init = s.drop_last();
        chosen_of_one_more(init, s.last(), f);
        assert(init.push(s.last()) =~= s);
        if i < init.filter_map(f).len() {
            chosen_comes_from(init, f, i)
        } else {
            s.len() - 1
        }
    }
}

/// What is chosen stands in the order of the items.
pub proof fn chosen_keeps_order<A, B>(
    s: Seq<A>,
    f: spec_fn(A) -> Option<B>,
    i: int,
    j: int,
) -> (r: (int, int))
    requires
        0 <= i < j < s.filter_map(f).len(),
    ensures
        0 <= r.0 < r.1 < s.len(),
        f(s[r.0]) == Some(s.filter_map(f)[i]),
        f(s[r.1]) == Some(s.filter_map(f)[j]),
    decreases s.len(),
{
    if s.len() == 0 {
        assert(s =~= Seq::empty());
        reveal(Seq::filter_map);
        (0, 0)
    } else {
        let init = s.drop_last();
        chosen_of_one_more(init, s.last(), f);
        assert(init.push(s.last()) =~= s);
        if j < init.filter_map(f).len() {
            chosen_keeps_order(init, f, i, j)
        } else {
            (chosen_comes_from(init, f, i), s.len() - 1)
        }
    }
}

/// Each item of which something is chosen has its place.
pub proof fn chosen_is_there<A, B>(s: Seq<A>, f: spec_fn(A) -> Option<B>, k: int) -> (r: int)
    requires
        0 <= k < s.len(),
        f(s[k]) is Some,
    ensures
        0 <= r < s.filter_map(f).len(),
        s.filter_map(f)[r] == f(s[k])->0,
    decreases s.len(),
{
    let init = s.drop_last();
    chosen_of_one_more(init, s.last(), f);
    assert(init.push(s.last()) =~= s);
    if k == s.len() - 1 {
        init.filter_map(f).len() as int
    } else {
        chosen_is_there(init, f, k)
    }
}

proof fn chosen_of_placed<A, B>(
    s: Seq<A>,
    x: A,
    leq: spec_fn(A, A) -> bool,
    f: spec_fn(A) -> Option<B>,
)
    ensures
        placed(s, x, leq).filter_map(f).len() == s.filter_map(f).len() + if f(x) is Some {
            1nat
        } else {
            0nat
        },
    decreases s.len(),
{
    if s.len() == 0 {
        assert(s =~= Seq::empty());
        chosen_of_one_more(s, x, f);
        assert(seq![x] =~= s.push(x));
    } else if leq(s.last(), x) {
        chosen_of_one_more(s, x, f);
    } else {
        let init = s.drop_last();
        chosen_of_placed(init, x, leq, f);
        chosen_of_one_more(init, s.last(), f);
        chosen_of_one_more(placed(init, x, leq), s.last(), f);
        assert(init.push(s.last()) =~= s);
    }
}

/// From items in order as much is chosen as there are items to choose.
pub proof fn as_many_are_chosen<A, B>(
    s: Seq<A>,
    leq: spec_fn(A, A) -> bool,
    f: spec_fn(A) -> Option<B>,
    is_chosen: spec_fn(A) -> bool,
)
    requires
        forall|x: A| #[trigger] is_chosen(x) <==> f(x) is Some,
    ensures
        ordered(s, leq).filter_map(f).len() == s.filter(is_chosen).len(),
    decreases s.len(),
{
    broadcast use Seq::lemma_filter_push;

    if s.len() == 0 {
        assert(s =~= Seq::empty());
        chosen_of_one_more(s, arbitrary(), f);
        reveal(Seq::filter);
    } else {
        let init = s.drop_last();
        as_many_are_chosen(init, leq, f, is_chosen);
        chosen_of_placed(ordered(init, leq), s.last(), leq, f);
        assert(init.push(s.last()) =~= s);
        assert(is_chosen(s.last()) <==> f(s.last()) is Some);
    }
}

proof fn ordered_holds_the_same<T>(items: Seq<T>, leq: spec_fn(T, T) -> bool)
    requires
        ranks(leq),
    ensures
        forall|x: T| #[trigger] ordered(items, leq).contains(x) <==> items.contains(x),
        in_order(ordered(items, leq), leq),
{
    broadcast use vstd::seq_lib::to_multiset_contains;

    ordered_sorts(items, leq);
    assert forall|x: T| #[trigger] ordered(items, leq).contains(x) <==> items.contains(x) by {
        assert(ordered(items, leq).to_multiset().count(x) == items.to_multiset().count(x));
    }
}

/// Whether a folder is one of the entries that are folders and not hidden.
pub open spec fn is_folder_of(entries: Seq<Entry>, sub: Folder) -> bool {
    exists|k: int|
        0 <= k < entries.len() && visible_folder(#[trigger] entries[k]) && entries[k].path
            == sub.path && entries[k].name == sub.name
}

/// The folders found in a folder are its entries that are folders and not hidden, with their
/// paths and names: each of them, nothing else, as many as there are, and by name, whatever
/// its case.
pub proof fn found_folders_are_the_visible_ones(entries: Seq<Entry>)
    ensures
        forall|i: int|
            0 <= i < subfolders_in(entries).len() ==> is_folder_of(
                entries,
                #[trigger] subfolders_in(entries)[i],
            ),
        forall|k: int|
            0 <= k < entries.len() && visible_folder(#[trigger] entries[k]) ==> subfolders_in(
                entries,
            ).contains(Folder { path: entries[k].path, name: entries[k].name, has_audio: false }),
        subfolders_in(entries).len() == entries.filter(|e: Entry| visible_folder(e)).len(),
        forall|i: int, j: int|
            0 <= i < j < subfolders_in(entries).len() ==> at_most(
                lowercase((#[trigger] subfolders_in(entries)[i]).name),
                lowercase((#[trigger] subfolders_in(entries)[j]).name),
            ),
{
    let sorted = ordered(entries, entry_order());
    let f = |e: Entry| entry_folder(e);
    let subs = subfolders_in(entries);
    entry_order_ranks();
    ordered_holds_the_same(entries, entry_order());
    as_many_are_chosen(entries, entry_order(), f, |e: Entry| visible_folder(e));
    assert forall|i: int| 0 <= i < subs.len() implies is_folder_of(entries, #[trigger] subs[i]) by {
        let a = chosen_comes_from(sorted, f, i);
        assert(sorted.contains(sorted[a]));
        let k = choose|k: int| 0 <= k < entries.len() && entries[k] == sorted[a];
        assert(visible_folder(entries[k]));
    }
    assert forall|k: int|
        0 <= k < entries.len() && visible_folder(#[trigger] entries[k]) implies subs.contains(
        Folder { path: entries[k].path, name: entries[k].name, has_audio: false },
    ) by {
        assert(entries.contains(entries[k]));
        assert(sorted.contains(entries[k]));
        let a = choose|a: int| 0 <= a < sorted.len() && sorted[a] == entries[k];
        let i = chosen_is_there(sorted, f, a);
        assert(subs[i].path == entries[k].path);
    }
    assert forall|i: int, j: int| 0 <= i < j < subs.len() implies at_most(
        lowercase((#[trigger] subs[i]).name),
        lowercase((#[trigger] subs[j]).name),
    ) by {
        let (a, b) = chosen_keeps_order(sorted, f, i, j);
        assert(entry_order()(sorted[a], sorted[b]));
    }
}

/// Whether a song that was found is the one of an entry: its title is what stands before the
/// last dot of its name, its format what stands behind it, in uppercase.
pub open spec fn found_from(song: Found, e: Entry) -> bool {
    &&& song.path == e.path
    &&& song.name == e.name
    &&& song.mtime == e.mtime
    &&& exists|ext: Seq<char>|
        {
            &&& e.name == #[trigger] (song.title + seq!['.'] + ext)
            &&& forall|i: int| 0 <= i < ext.len() ==> #[trigger] ext[i] != '.'
            &&& audio_extension(lowercase(ext))
            &&& song.format_type == uppercase(ext)
        }
}

/// Whether a song is one of the entries that are audio files and not hidden.
pub open spec fn is_song_of(entries: Seq<Entry>, song: Found) -> bool {
    exists|k: int|
        0 <= k < entries.len() && visible_song(#[trigger] entries[k]) && found_from(song, entries[k])
}

proof fn songs_come_from_entries(e: Entry)
    ensures
        visible_song(e) <==> entry_song(e) is Some,
        entry_song(e) matches Some(song) ==> found_from(song, e),
{
    names_split_at_their_last_dot(e.name);
    if entry_song(e) is Some {
        let song = entry_song(e)->0;
        let ext = extension(e.name)->0;
        assert(e.name == song.title + seq!['.'] + ext);
    }
}

/// The songs found in a folder are its entries that are audio files and not hidden: each of
/// them, nothing else, as many as there are, and by name, whatever its case.
pub proof fn found_songs_are_the_visible_ones(entries: Seq<Entry>)
    ensures
        forall|i: int|
            0 <= i < audio_files_in(entries).len() ==> is_song_of(
                entries,
                #[trigger] audio_files_in(entries)[i],
            ),
        forall|k: int|
            0 <= k < entries.len() && visible_song(#[trigger] entries[k]) ==> {
                let e = entries[k];
                exists|i: int|
                    0 <= i < audio_files_in(entries).len() && found_from(
                        #[trigger] audio_files_in(entries)[i],
                        e,
                    )
            },
        audio_files_in(entries).len() == entries.filter(|e: Entry| visible_song(e)).len(),
        forall|i: int, j: int|
            0 <= i < j < audio_files_in(entries).len() ==> at_most(
                lowercase((#[trigger] audio_files_in(entries)[i]).name),
                lowercase((#[trigger] audio_files_in(entries)[j]).name),
            ),
{
    let sorted = ordered(entries, entry_order());
    let f = |e: Entry| entry_song(e);
    let songs = audio_files_in(entries);
    entry_order_ranks();
    ordered_holds_the_same(entries, entry_order());
    assert forall|e: Entry| #[trigger] visible_song(e) <==> f(e) is Some by {
        songs_come_from_entries(e);
    }
    as_many_are_chosen(entries, entry_order(), f, |e: Entry| visible_song(e));
    assert forall|i: int| 0 <= i < songs.len() implies is_song_of(entries, #[trigger] songs[i]) by {
        let a = chosen_comes_from(sorted, f, i);
        assert(sorted.contains(sorted[a]));
        let k = choose|k: int| 0 <= k < entries.len() && entries[k] == sorted[a];
        songs_come_from_entries(entries[k]);
    }
    assert forall|k: int| 0 <= k < entries.len() && visible_song(#[trigger] entries[k]) implies {
        let e = entries[k];
        exists|i: int| 0 <= i < songs.len() && found_from(#[trigger] songs[i], e)
    } by {
        songs_come_from_entries(entries[k]);
        assert(entries.contains(entries[k]));
        assert(sorted.contains(entries[k]));
        let a = choose|a: int| 0 <= a < sorted.len() && sorted[a] == entries[k];
        let i = chosen_is_there(sorted, f, a);
        assert(found_from(songs[i], entries[k]));
    }
    assert forall|i: int, j: int| 0 <= i < j < songs.len() implies at_most(
        lowercase((#[trigger] songs[i]).name),
        lowercase((#[trigger] songs[j]).name),
    ) by {
        let (a, b) = chosen_keeps_order(sorted, f, i, j);
        songs_come_from_entries(sorted[a]);
        songs_come_from_entries(sorted[b]);
        assert(entry_order()(sorted[a], sorted[b]));
    }
}

/// The folders that a search for a cover looks into are the entries that are folders and not
/// hidden: each of them, nothing else, and as many as there are.
pub proof fn searched_folders_are_the_visible_ones(entries: Seq<Entry>)
    ensures
        forall|p: Seq<char>| #[trigger]
            dirs_in(entries).contains(p) <==> exists|k: int|
                0 <= k < entries.len() && visible_folder(#[trigger] entries[k]) && entries[k].path
                    == p,
        dirs_in(entries).len() == entries.filter(|e: Entry| visible_folder(e)).len(),
{
    let sorted = ordered(entries, name_order());
    let f = |e: Entry| dir_path(e);
    let dirs = dirs_in(entries);
    name_order_ranks();
    ordered_holds_the_same(entries, name_order());
    as_many_are_chosen(entries, name_order(), f, |e: Entry| visible_folder(e));
    assert forall|p: Seq<char>| #[trigger] dirs.contains(p) <==> exists|k: int|
        0 <= k < entries.len() && visible_folder(#[trigger] entries[k]) && entries[k].path == p by {
        if dirs.contains(p) {
            let i = choose|i: int| 0 <= i < dirs.len() && dirs[i] == p;
            let a = chosen_comes_from(sorted, f, i);
            assert(sorted.contains(sorted[a]));
            let k = choose|k: int| 0 <= k < entries.len() && entries[k] == sorted[a];
            assert(visible_folder(entries[k]));
        }
        if exists|k: int|
            0 <= k < entries.len() && visible_folder(#[trigger] entries[k]) && entries[k].path
                == p {
            let k = choose|k: int|
                0 <= k < entries.len() && visible_folder(#[trigger] entries[k]) && entries[k].path
                    == p;
            assert(entries.contains(entries[k]));
        assert(sorted.contains(entries[k]));
            let a = choose|a: int| 0 <= a < sorted.len() && sorted[a] == entries[k];
            let i = chosen_is_there(sorted, f, a);
            assert(dirs[i] == p);
        }
    }
}

/// The folders that a search for a cover looks into stand by name.
pub proof fn searched_folders_stand_by_name(entries: Seq<Entry>, i: int, j: int) -> (r: (int, int))
    requires
        0 <= i < j < dirs_in(entries).len(),
    ensures
        0 <= r.0 < entries.len(),
        0 <= r.1 < entries.len(),
        entries[r.0].path == dirs_in(entries)[i],
        entries[r.1].path == dirs_in(entries)[j],
        visible_folder(entries[r.0]),
        visible_folder(entries[r.1]),
        at_most(entries[r.0].name, entries[r.1].name),
{
    let sorted = ordered(entries, name_order());
    let f = |e: Entry| dir_path(e);
    name_order_ranks();
    ordered_holds_the_same(entries, name_order());
    let (x, y) = chosen_keeps_order(sorted, f, i, j);
    assert(name_order()(sorted[x], sorted[y]));
    assert(sorted.contains(sorted[x]) && sorted.contains(sorted[y]));
    let a = choose|a: int| 0 <= a < entries.len() && entries[a] == sorted[x];
    let b = choose|b: int| 0 <= b < entries.len() && entries[b] == sorted[y];
    (a, b)
}

/// The song file whose picture is looked at is the first one by name among the audio files
/// that are not hidden; there is none where there is no such file.
pub proof fn first_song_is_the_first_by_name(entries: Seq<Entry>)
    ensures
        songs_listed(entries).len() == 0 <==> forall|k: int|
            0 <= k < entries.len() ==> !visible_song(#[trigger] entries[k]),
        songs_listed(entries).len() > 0 ==> exists|k: int|
            {
                &&& 0 <= k < entries.len()
                &&& visible_song(#[trigger] entries[k])
                &&& entries[k].path == songs_listed(entries)[0]
                &&& forall|o: int|
                    0 <= o < entries.len() && visible_song(#[trigger] entries[o]) ==> at_most(
                        entries[k].name,
                        entries[o].name,
                    )
            },
{
    let sorted = ordered(entries, name_order());
    let f = |e: Entry| song_path(e);
    let songs = songs_listed(entries);
    name_order_ranks();
    ordered_holds_the_same(entries, name_order());
    assert forall|e: Entry| #[trigger] visible_song(e) <==> f(e) is Some by {
        songs_come_from_entries(e);
    }
    assert forall|k: int| 0 <= k < entries.len() && visible_song(#[trigger] entries[k]) implies {
        songs.len() > 0
    } by {
        assert(entries.contains(entries[k]));
        assert(sorted.contains(entries[k]));
        let a = choose|a: int| 0 <= a < sorted.len() && sorted[a] == entries[k];
        let i = chosen_is_there(sorted, f, a);
    }
    if songs.len() > 0 {
        let a = chosen_comes_from(sorted, f, 0);
        first_chosen(sorted, f, a);
        let first = choose|a: int|
            0 <= a < sorted.len() && f(#[trigger] sorted[a]) == Some(songs[0]) && forall|b: int|
                0 <= b < a ==> f(#[trigger] sorted[b]) is None;
        assert(sorted.contains(sorted[first]));
        let k = choose|k: int| 0 <= k < entries.len() && entries[k] == sorted[first];
        songs_come_from_entries(entries[k]);
        assert forall|o: int|
            0 <= o < entries.len() && visible_song(#[trigger] entries[o]) implies at_most(
            entries[k].name,
            entries[o].name,
        ) by {
            assert(entries.contains(entries[o]));
            assert(sorted.contains(entries[o]));
            let b = choose|b: int| 0 <= b < sorted.len() && sorted[b] == entries[o];
            assert(f(sorted[b]) is Some);
            if b == first {
                at_most_total(entries[k].name, entries[k].name);
            } else {
                assert(name_order()(sorted[first], sorted[b]));
            }
        }
        assert(visible_song(entries[k]));
    }
}

proof fn first_chosen<A, B>(s: Seq<A>, f: spec_fn(A) -> Option<B>, some: int)
    requires
        0 <= some < s.len(),
        f(s[some]) is Some,
    ensures
        s.filter_map(f).len() > 0,
        exists|a: int|
            0 <= a < s.len() && f(#[trigger] s[a]) == Some(s.filter_map(f)[0]) && forall|b: int|
                0 <= b < a ==> f(#[trigger] s[b]) is None,
    decreases s.len(),
{
    let init = s.drop_last();
    chosen_of_one_more(init, s.last(), f);
    assert(init.push(s.last()) =~= s);
    if exists|i: int| 0 <= i < init.len() && f(#[trigger] init[i]) is Some {
        let i = choose|i: int| 0 <= i < init.len() && f(#[trigger] init[i]) is Some;
        first_chosen(init, f, i);
        let a = choose|a: int|
            0 <= a < init.len() && f(#[trigger] init[a]) == Some(init.filter_map(f)[0]) && forall|
                b: int,
            |
                0 <= b < a ==> f(#[trigger] init[b]) is None;
        assert(s[a] == init[a]);
        assert forall|b: int| 0 <= b < a implies f(#[trigger] s[b]) is None by {
            assert(init[b] == s[b]);
        }
    } else {
        if init.filter_map(f).len() > 0 {
            let i = chosen_comes_from(init, f, 0);
            assert(f(init[i]) is Some);
        }
        let last = s.len() - 1;
        assert forall|b: int| 0 <= b < last implies f(#[trigger] s[b]) is None by {
            assert(init[b] == s[b]);
        }
        if some < last {
            assert(init[some] == s[some]);
        }
        assert(f(s[last]) == Some(s.filter_map(f)[0]));
    }
}

/// The files in which a cover may lie have these names, the best one first.
pub proof fn cover_files_have_these_names(folder: Seq<char>)
    ensures
        cover_paths(folder).len() == 18,
        cover_paths(folder)[0] == inside(folder, "cover.jpg"@),
        cover_paths(folder)[1] == inside(folder, "cover.png"@),
        cover_paths(folder)[2] == inside(folder, "Cover.jpg"@),
        cover_paths(folder)[3] == inside(folder, "Cover.png"@),
        cover_paths(folder)[4] == inside(folder, "folder.jpg"@),
        cover_paths(folder)[5] == inside(folder, "folder.png"@),
        cover_paths(folder)[6] == inside(folder, "Folder.jpg"@),
        cover_paths(folder)[7] == inside(folder, "Folder.png"@),
        cover_paths(folder)[8] == inside(folder, "front.jpg"@),
        cover_paths(folder)[9] == inside(folder, "front.png"@),
        cover_paths(folder)[10] == inside(folder, "Front.jpg"@),
        cover_paths(folder)[11] == inside(folder, "Front.png"@),
        cover_paths(folder)[12] == inside(folder, "album.jpg"@),
        cover_paths(folder)[13] == inside(folder, "album.png"@),
        cover_paths(folder)[14] == inside(folder, "Album.jpg"@),
        cover_paths(folder)[15] == inside(folder, "Album.png"@),
        cover_paths(folder)[16] == inside(folder, "art.jpg"@),
        cover_paths(folder)[17] == inside(folder, "art.png"@),
{
    assert(COVER_NAMES@[0]@ == "cover.jpg"@);
}

/// Whether a folder that is not hidden lies directly in a folder.
pub open spec fn lies_in(world: World, path: Seq<char>, sub: Seq<char>) -> bool {
    (world.listings)(path) matches Some(entries) && exists|k: int|
        0 <= k < entries.len() && visible_folder(#[trigger] entries[k]) && entries[k].path == sub
}

/// Whether a folder is another one, or lies within so many levels below it, where no folder
/// on the way is hidden.
pub open spec fn lies_within(world: World, levels: nat, path: Seq<char>, f: Seq<char>) -> bool
    decreases levels,
{
    f == path || (levels > 0 && exists|sub: Seq<char>| #[trigger]
        lies_in(world, path, sub) && lies_within(world, (levels - 1) as nat, sub, f))
}

/// Whether a folder has a picture of its own: in a file with the name of a cover, known of one
/// of its songs, or in its first song file.
pub open spec fn has_picture(world: World, path: Seq<char>) -> bool {
    ||| exists|i: int| 0 <= i < 18 && (world.files)(#[trigger] cover_paths(path)[i]) is Some
    ||| (world.kept)(path) is Some
    ||| {
        &&& (world.listings)(path) matches Some(entries)
        &&& songs_listed(entries).len() > 0
        &&& (world.art)(songs_listed(entries)[0]) is Some
    }
}

proof fn files_hold_a_picture(world: World, path: Seq<char>, from: int)
    requires
        0 <= from <= 18,
    ensures
        in_files(world, path, from) is Some <==> exists|i: int|
            from <= i < 18 && (world.files)(#[trigger] cover_paths(path)[i]) is Some,
    decreases 18 - from,
{
    if from < 18 {
        files_hold_a_picture(world, path, from + 1);
        if (world.files)(cover_paths(path)[from]) is None && exists|i: int|
            from <= i < 18 && (world.files)(#[trigger] cover_paths(path)[i]) is Some {
            let i = choose|i: int|
                from <= i < 18 && (world.files)(#[trigger] cover_paths(path)[i]) is Some;
            assert(from + 1 <= i);
        }
    }
}

proof fn first_file_counts(world: World, path: Seq<char>, from: int, i: int)
    requires
        0 <= from <= i < 18,
        (world.files)(cover_paths(path)[i]) is Some,
        forall|j: int| from <= j < i ==> (world.files)(#[trigger] cover_paths(path)[j]) is None,
    ensures
        in_files(world, path, from) == (world.files)(cover_paths(path)[i]),
    decreases 18 - from,
{
    if from < i {
        assert((world.files)(cover_paths(path)[from]) is None);
        first_file_counts(world, path, from + 1, i);
    }
}

proof fn folders_to_search(world: World, path: Seq<char>)
    ensures
        forall|sub: Seq<char>| #[trigger]
            dirs_of(world, path).contains(sub) <==> lies_in(world, path, sub),
{
    match (world.listings)(path) {
        Some(entries) => {
            searched_folders_are_the_visible_ones(entries);
        },
        None => {},
    }
}

proof fn cover_is_somewhere(world: World, path: Seq<char>, depth: int)
    requires
        0 <= depth <= MAX_COVER_DEPTH,
    ensures
        cover_of(world, path, depth) is Some <==> exists|f: Seq<char>|
            #[trigger] lies_within(world, (5 - depth) as nat, path, f) && has_picture(world, f),
    decreases MAX_COVER_DEPTH - depth + 1, 0nat,
{
    let levels = (5 - depth) as nat;
    files_hold_a_picture(world, path, 0);
    folders_to_search(world, path);
    let dirs = dirs_of(world, path);
    cover_is_in_one_of(world, dirs, depth + 1);
    if cover_of(world, path, depth) is Some {
        if has_picture(world, path) {
            assert(lies_within(world, levels, path, path));
        } else {
            assert(first_cover(world, dirs, depth + 1) is Some);
            let (sub, f) = choose|sub: Seq<char>, f: Seq<char>|
                dirs.contains(sub) && #[trigger] lies_within(world, (5 - (depth + 1)) as nat, sub, f)
                    && has_picture(world, f);
            assert(lies_in(world, path, sub));
            assert(lies_within(world, levels, path, f));
        }
    }
    if exists|f: Seq<char>| #[trigger] lies_within(world, levels, path, f) && has_picture(world, f) {
        let f = choose|f: Seq<char>| #[trigger]
            lies_within(world, levels, path, f) && has_picture(world, f);
        if f != path {
            let sub = choose|sub: Seq<char>| #[trigger]
                lies_in(world, path, sub) && lies_within(world, (levels - 1) as nat, sub, f);
            assert(dirs.contains(sub));
            assert(lies_within(world, (5 - (depth + 1)) as nat, sub, f));
        }
    }
}

proof fn cover_is_in_one_of(world: World, dirs: Seq<Seq<char>>, depth: int)
    requires
        0 < depth,
    ensures
        depth <= MAX_COVER_DEPTH ==> (first_cover(world, dirs, depth) is Some <==> exists|
            sub: Seq<char>,
            f: Seq<char>,
        |
            dirs.contains(sub) && #[trigger] lies_within(world, (5 - depth) as nat, sub, f)
                && has_picture(world, f)),
        depth > MAX_COVER_DEPTH ==> first_cover(world, dirs, depth) is None,
    decreases MAX_COVER_DEPTH - depth + 1, dirs.len() + 1,
{
    if dirs.len() > 0 && depth <= MAX_COVER_DEPTH {
        let rest = dirs.drop_first();
        let levels = (5 - depth) as nat;
        cover_is_somewhere(world, dirs[0], depth);
        cover_is_in_one_of(world, rest, depth);
        if cover_of(world, dirs[0], depth) is Some {
            let f = choose|f: Seq<char>| #[trigger]
                lies_within(world, levels, dirs[0], f) && has_picture(world, f);
            assert(dirs.contains(dirs[0]));
            assert(dirs.contains(dirs[0]) && lies_within(world, levels, dirs[0], f) && has_picture(
                world,
                f,
            ));
        } else if first_cover(world, rest, depth) is Some {
            let (sub, f) = choose|sub: Seq<char>, f: Seq<char>|
                rest.contains(sub) && #[trigger] lies_within(world, levels, sub, f) && has_picture(
                    world,
                    f,
                );
            let i = choose|i: int| 0 <= i < rest.len() && rest[i] == sub;
            assert(dirs[i + 1] == sub);
            assert(dirs.contains(sub) && lies_within(world, levels, sub, f) && has_picture(
                world,
                f,
            ));
        }
        if exists|sub: Seq<char>, f: Seq<char>|
            dirs.contains(sub) && #[trigger] lies_within(world, levels, sub, f) && has_picture(
                world,
                f,
            ) {
            let (sub, f) = choose|sub: Seq<char>, f: Seq<char>|
                dirs.contains(sub) && #[trigger] lies_within(world, levels, sub, f) && has_picture(
                    world,
                    f,
                );
            let i = choose|i: int| 0 <= i < dirs.len() && dirs[i] == sub;
            if i > 0 {
                assert(rest[i - 1] == sub);
                assert(rest.contains(sub));
            }
        }
    }
}

/// A cover is found where there is one: in the folder itself, or in one of the folders within
/// five levels below it that are not hidden, whichever they are.
pub proof fn cover_is_found_where_there_is_one(world: World, path: Seq<char>)
    ensures
        cover_of(world, path, 0) is Some <==> exists|f: Seq<char>|
            #[trigger] lies_within(world, 5, path, f) && has_picture(world, f),
{
    cover_is_somewhere(world, path, 0);
    assert((5 - 0) as nat == 5);
}

/// Which cover is found: the first file with the name of a cover; else the cover that is known
/// of a song of the folder; else the one in its first song file; else that of the first folder
/// in it that has one.
pub proof fn nearest_cover_is_found(world: World, path: Seq<char>, i: int)
    ensures
        0 <= i < 18 && (world.files)(cover_paths(path)[i]) is Some && (forall|j: int|
            0 <= j < i ==> (world.files)(#[trigger] cover_paths(path)[j]) is None) ==> cover_of(
            world,
            path,
            0,
        ) == (world.files)(cover_paths(path)[i]),
        (forall|j: int| 0 <= j < 18 ==> (world.files)(#[trigger] cover_paths(path)[j]) is None) ==> {
            &&& (world.kept)(path) is Some ==> cover_of(world, path, 0) == (world.kept)(path)
            &&& (world.kept)(path) is None ==> {
                &&& ((world.listings)(path) matches Some(entries) && songs_listed(entries).len() > 0
                    && (world.art)(songs_listed(entries)[0]) is Some) ==> cover_of(world, path, 0)
                    == (world.art)(songs_listed((world.listings)(path)->0)[0])
                &&& !has_picture(world, path) ==> forall|k: int|
                    0 <= k < dirs_of(world, path).len() && cover_of(
                        world,
                        #[trigger] dirs_of(world, path)[k],
                        1,
                    ) is Some && (forall|j: int|
                        0 <= j < k ==> cover_of(world, #[trigger] dirs_of(world, path)[j], 1)
                            is None) ==> cover_of(world, path, 0) == cover_of(
                        world,
                        dirs_of(world, path)[k],
                        1,
                    )
            }
        },
{
    if 0 <= i < 18 && (world.files)(cover_paths(path)[i]) is Some && (forall|j: int|
        0 <= j < i ==> (world.files)(#[trigger] cover_paths(path)[j]) is None) {
        first_file_counts(world, path, 0, i);
    }
    files_hold_a_picture(world, path, 0);
    let dirs = dirs_of(world, path);
    assert forall|k: int|
        0 <= k < dirs.len() && cover_of(world, #[trigger] dirs[k], 1) is Some && (forall|j: int|
            0 <= j < k ==> cover_of(world, #[trigger] dirs[j], 1) is None) implies first_cover(
        world,
        dirs,
        1,
    ) == cover_of(world, dirs[k], 1) by {
        first_folder_counts(world, dirs, k);
    }
}

proof fn first_folder_counts(world: World, dirs: Seq<Seq<char>>, k: int)
    requires
        0 <= k < dirs.len(),
        cover_of(world, dirs[k], 1) is Some,
        forall|j: int| 0 <= j < k ==> cover_of(world, #[trigger] dirs[j], 1) is None,
    ensures
        first_cover(world, dirs, 1) == cover_of(world, dirs[k], 1),
    decreases dirs.len(),
{
    if k > 0 {
        let rest = dirs.drop_first();
        assert(cover_of(world, dirs[0], 1) is None);
        assert(rest[k - 1] == dirs[k]);
        assert forall|j: int| 0 <= j < k - 1 implies cover_of(world, #[trigger] rest[j], 1) is None by {
            assert(rest[j] == dirs[j + 1]);
        }
        first_folder_counts(world, rest, k - 1);
    }
}

/// A scan keeps what it found: of the folder where it lies, its name, when it was changed and
/// whether it has songs; of each song that is new where it lies and what its file says; of
/// each folder in it where it lies and its name. The scan came to its end.
pub proof fn scan_keeps_what_was_found(
    t: Tables,
    path: Seq<char>,
    parent: Option<Seq<char>>,
    mtime: int,
    entries: Seq<Entry>,
    now: int,
    seg: Seq<Exchange>,
)
    requires
        scan_run(
            path,
            parent,
            mtime,
            subfolders_in(entries),
            audio_files_in(entries),
            now,
            true,
            seg,
        ),
        faithful(t, seg),
        went_through(seg),
        lie_in(path, entries),
        seg.len() < MAX_LEVELS,
    ensures
        ({
            let after = tables(t, seg);
            &&& after.folders.contains_key(path)
            &&& after.folders[path].parent == parent
            &&& after.folders[path].name == or_empty(file_name(path))
            &&& after.folders[path].mtime == mtime
            &&& after.folders[path].scanned_at == now
            &&& after.folders[path].has_audio == 1 <==> exists|k: int|
                0 <= k < entries.len() && visible_song(#[trigger] entries[k])
            &&& forall|k: int|
                0 <= k < entries.len() && visible_song(#[trigger] entries[k]) ==> {
                    let row = after.songs[entries[k].path];
                    &&& after.songs.contains_key(entries[k].path)
                    &&& !t.songs.contains_key(entries[k].path) ==> {
                        &&& row.folder == path
                        &&& row.meta == no_metadata()
                        &&& !row.meta_scanned
                        &&& found_from(
                            Found {
                                path: entries[k].path,
                                name: row.name,
                                format_type: row.format_type,
                                title: row.title,
                                mtime: row.mtime,
                            },
                            entries[k],
                        )
                    }
                }
            &&& forall|k: int|
                0 <= k < entries.len() && visible_folder(#[trigger] entries[k]) ==> {
                    let row = after.folders[entries[k].path];
                    &&& after.folders.contains_key(entries[k].path)
                    &&& row.parent == Some(path)
                    &&& row.name == entries[k].name
                }
        }),
{
    let subs = subfolders_in(entries);
    let songs = audio_files_in(entries);
    let after = tables(t, seg);
    let kept = entered(t, path, own_row(path, parent, mtime, songs.len() > 0, now), subs);
    entries_make_a_listing(path, entries);
    scan_matches_disk(t, path, parent, mtime, subs, songs, now, seg);
    found_songs_are_the_visible_ones(entries);
    found_folders_are_the_visible_ones(entries);
    let t0 = Tables {
        folders: t.folders.insert(path, own_row(path, parent, mtime, songs.len() > 0, now)),
        ..t
    };
    entering_changes_their_rows(t0, path, subs);
    if exists|k: int| 0 <= k < entries.len() && visible_song(#[trigger] entries[k]) {
        let k = choose|k: int| 0 <= k < entries.len() && visible_song(#[trigger] entries[k]);
        let i = choose|i: int| 0 <= i < songs.len() && found_from(#[trigger] songs[i], entries[k]);
        assert(songs.len() > 0);
    }
    if songs.len() > 0 {
        assert(is_song_of(entries, songs[0]));
    }
    assert forall|k: int| 0 <= k < entries.len() && visible_song(#[trigger] entries[k]) implies {
        let row = after.songs[entries[k].path];
        &&& after.songs.contains_key(entries[k].path)
        &&& !t.songs.contains_key(entries[k].path) ==> {
            &&& row.folder == path
            &&& row.meta == no_metadata()
            &&& !row.meta_scanned
            &&& found_from(
                Found {
                    path: entries[k].path,
                    name: row.name,
                    format_type: row.format_type,
                    title: row.title,
                    mtime: row.mtime,
                },
                entries[k],
            )
        }
    } by {
        let i = choose|i: int| 0 <= i < songs.len() && found_from(#[trigger] songs[i], entries[k]);
        let song = songs[i];
        assert(has_row(after, row_left(kept, path, subs, songs, song.path), path, song));
        if !t.songs.contains_key(song.path) {
            assert(!kept.songs.contains_key(song.path));
            let row = after.songs[song.path];
            assert(Found {
                path: song.path,
                name: row.name,
                format_type: row.format_type,
                title: row.title,
                mtime: row.mtime,
            } == song);
        }
    }
    assert forall|k: int| 0 <= k < entries.len() && visible_folder(#[trigger] entries[k]) implies {
        let row = after.folders[entries[k].path];
        &&& after.folders.contains_key(entries[k].path)
        &&& row.parent == Some(path)
        &&& row.name == entries[k].name
    } by {
        let sub = Folder { path: entries[k].path, name: entries[k].name, has_audio: false };
        assert(subs.contains(sub));
        let i = choose|i: int| 0 <= i < subs.len() && subs[i] == sub;
        assert(folder_paths(subs)[i] == sub.path);
        assert(folder_paths(subs).contains(sub.path));
        assert(is_child(after, path, sub.path));
        assert(after.folders[subs[i].path] == sub_row(t, path, subs[i]));
    }
}

} // verus!
