//! What is promised of what is played next, of the way through the folders, of what is typed,
//! and of the settings.
use crate::catalog::changed_since;
use crate::cover_search::discovered_request;
use crate::disk_promises::{chosen_comes_from, chosen_is_there};
use crate::enrich::cover_run;
use crate::file_item::new_item;
use crate::folder_load::{load_step, LoadStage, LoadTask, Loading};
use crate::formats::audio_extension;
use crate::index_job::{step, with_children, At, Job, Task};
use crate::labels::numbered;
use crate::library_db::outdated;
use crate::navigation::{
    at_root, at_song, gone_back, gone_home, kept_parent, opened, plain_title, shown_again, Shown,
    Title, Trail,
};
use crate::panel::{fitted, Panel};
use crate::paths::{extension, file_name, or_empty, parent_path, path_extension, path_stem};
use crate::queue::{
    after_song, current_path, folder, folders_of, next_in_folder, place, place_after, place_before,
    seek, Deck, RepeatMode,
};
use crate::search::{
    effect_of, initials, is_letter_key, jump_place, key_effect, plan, Key, KeyAction, Plan,
};
use crate::settings::{
    dialog_end, folder_entries, named_folders, offered, output_place, scheme_place, value_of,
    with_legacy, with_music, DialogEnd, MountEntry, Scheme, OUTPUT_DESCRIPTIONS, OUTPUT_VALUES,
};
use crate::store::{bytes_at, row_in, text_at, Exchange, Request};
use crate::tags::{if_any, if_none};
use crate::text::{
    alphanumeric, digits, has_part, lower_chars, lowercase, signed_digits, stands_at, trimmed,
    uppercase, words,
};
use crate::text_promises::{
    nothing_else_is_replaced, parts_are_replaced, signed_numbers_read_as_written,
};
use crate::view_promises::{filtered_comes_from, filtered_keeps_order};
use crate::window::{
    emptied, playable, started, Scene, FOUND_MANY, FOUND_ONE, READING_COVERS, SCANNING,
};
use vstd::prelude::*;

verus! {

/// The place of a path is the first one where it stands.
pub proof fn first_place_is_found(songs: Seq<Seq<char>>, path: Seq<char>, i: int)
    requires
        0 <= i < songs.len(),
        songs[i] == path,
        forall|j: int| 0 <= j < i ==> #[trigger] songs[j] != path,
    ensures
        place(songs, path) == Some(i),
    decreases songs.len(),
{
    let init = songs.drop_last();
    if i < init.len() {
        assert forall|j: int| 0 <= j < i implies #[trigger] init[j] != path by {
            assert(init[j] == songs[j]);
        }
        first_place_is_found(init, path, i);
    } else {
        assert forall|j: int| 0 <= j < init.len() implies #[trigger] init[j] != path by {
            assert(init[j] == songs[j]);
        }
        missing_place_is_not_found(init, path);
    }
}

/// A path that stands nowhere has no place.
pub proof fn missing_place_is_not_found(songs: Seq<Seq<char>>, path: Seq<char>)
    requires
        forall|j: int| 0 <= j < songs.len() ==> #[trigger] songs[j] != path,
    ensures
        place(songs, path) is None,
    decreases songs.len(),
{
    if songs.len() > 0 {
        let init = songs.drop_last();
        assert forall|j: int| 0 <= j < init.len() implies #[trigger] init[j] != path by {
            assert(init[j] == songs[j]);
        }
        assert(songs.last() == songs[songs.len() - 1]);
        missing_place_is_not_found(init, path);
    }
}

/// Going on leads to the next place, behind the last one to the first one; going back leads
/// to the place before, from the first one to the last one. Where nothing was played, going on
/// begins at the first place, going back at the last one.
pub proof fn places_follow_each_other(i: int, n: int)
    requires
        0 <= i < n,
    ensures
        i + 1 < n ==> place_after(Some(i), n) == i + 1,
        i + 1 == n ==> place_after(Some(i), n) == 0,
        i > 0 ==> place_before(Some(i), n) == i - 1,
        i == 0 ==> place_before(Some(i), n) == n - 1,
        place_after(None, n) == 0,
        place_before(None, n) == n - 1,
{
    if i + 1 == n {
        assert((i + 1) % n == 0) by (nonlinear_arith)
            requires
                i + 1 == n,
                n > 0,
        ;
    } else {
        assert((i + 1) % n == i + 1) by (nonlinear_arith)
            requires
                0 <= i + 1 < n,
        ;
    }
}

proof fn seek_finds(dirs: Seq<Seq<char>>, dir: Seq<char>, from: int, j: int)
    requires
        0 <= from <= j < dirs.len(),
        dirs[j] == dir,
        forall|k: int| from <= k < j ==> #[trigger] dirs[k] != dir,
    ensures
        seek(dirs, dir, from) == Some(j),
    decreases dirs.len() - from,
{
    if from < j {
        assert(dirs[from] != dir);
        seek_finds(dirs, dir, from + 1, j);
    }
}

proof fn seek_finds_none(dirs: Seq<Seq<char>>, dir: Seq<char>, from: int)
    requires
        0 <= from,
        forall|k: int| from <= k < dirs.len() ==> #[trigger] dirs[k] != dir,
    ensures
        seek(dirs, dir, from) is None,
    decreases dirs.len() - from,
{
    if from < dirs.len() {
        assert(dirs[from] != dir);
        seek_finds_none(dirs, dir, from + 1);
    }
}

/// A song is followed by the next song that lies in the same folder, or by the first one of
/// the folder where none comes behind it.
pub proof fn next_song_is_the_next_of_the_folder(songs: Seq<Seq<char>>, i: int, j: int)
    requires
        0 <= i < songs.len(),
        0 <= j < songs.len(),
        or_empty(parent_path(songs[j])) == or_empty(parent_path(songs[i])),
    ensures
        i < j && (forall|k: int|
            i < k < j ==> or_empty(parent_path(#[trigger] songs[k])) != or_empty(
                parent_path(songs[i]),
            )) ==> next_in_folder(songs, i) == j,
        (forall|k: int|
            i < k < songs.len() ==> or_empty(parent_path(#[trigger] songs[k])) != or_empty(
                parent_path(songs[i]),
            )) && (forall|k: int|
            0 <= k < j ==> or_empty(parent_path(#[trigger] songs[k])) != or_empty(
                parent_path(songs[i]),
            )) ==> next_in_folder(songs, i) == j,
{
    let dirs = folders_of(songs);
    let dir = dirs[i];
    assert forall|k: int| 0 <= k < songs.len() implies #[trigger] dirs[k] == or_empty(
        parent_path(songs[k]),
    ) by {}
    if i < j && (forall|k: int|
        i < k < j ==> or_empty(parent_path(#[trigger] songs[k])) != or_empty(
            parent_path(songs[i]),
        )) {
        assert forall|k: int| i + 1 <= k < j implies #[trigger] dirs[k] != dir by {
            assert(or_empty(parent_path(songs[k])) != or_empty(parent_path(songs[i])));
        }
        seek_finds(dirs, dir, i + 1, j);
    }
    if (forall|k: int|
        i < k < songs.len() ==> or_empty(parent_path(#[trigger] songs[k])) != or_empty(
            parent_path(songs[i]),
        )) && (forall|k: int|
        0 <= k < j ==> or_empty(parent_path(#[trigger] songs[k])) != or_empty(
            parent_path(songs[i]),
        )) {
        assert forall|k: int| i + 1 <= k < dirs.len() implies #[trigger] dirs[k] != dir by {
            assert(or_empty(parent_path(songs[k])) != or_empty(parent_path(songs[i])));
        }
        assert forall|k: int| 0 <= k < j implies #[trigger] dirs[k] != dir by {
            assert(or_empty(parent_path(songs[k])) != or_empty(parent_path(songs[i])));
        }
        seek_finds_none(dirs, dir, i + 1);
        seek_finds(dirs, dir, 0, j);
    }
}

/// What is played after a song: with songs that follow each other the next one of the folder,
/// with a song that is repeated the song itself. The songs stay, and a song is repeated once
/// only where that was wanted once.
pub proof fn modes_play_what_they_name(deck: Deck, i: int)
    requires
        0 <= i < deck.songs.len(),
        deck.current == Some(i),
    ensures
        ({
            let (after, path) = after_song(deck);
            let next = next_in_folder(deck.songs, i);
            &&& after.songs == deck.songs
            &&& after.playing == deck.playing
            &&& deck.repeat == RepeatMode::Consecutive ==> {
                &&& after.current == Some(next)
                &&& path == Some(deck.songs[next])
                &&& after.repeat == RepeatMode::Consecutive
            }
            &&& deck.repeat == RepeatMode::Once ==> {
                &&& after.current == Some(i)
                &&& path == Some(deck.songs[i])
                &&& after.repeat == RepeatMode::Consecutive
            }
            &&& deck.repeat == RepeatMode::Loop ==> {
                &&& after.current == Some(i)
                &&& path == Some(deck.songs[i])
                &&& after.repeat == RepeatMode::Loop
            }
            &&& current_path(deck) == Some(deck.songs[i])
        }),
{
}

/// Without a current song nothing is played when a song has ended.
pub proof fn nothing_follows_nothing(deck: Deck)
    requires
        deck.current is None,
    ensures
        after_song(deck).1 is None,
        current_path(deck) is None,
{
}

/// A song that begins is the one that is played, and the current one where it is among the
/// songs. Of the song before nothing is known any more.
pub proof fn begun_song_is_played(scene: Scene, path: Seq<char>)
    ensures
        ({
            let after = started(scene, path);
            &&& after.deck.playing == Some(path)
            &&& after.deck.songs == scene.deck.songs
            &&& after.deck.repeat == scene.deck.repeat
            &&& !scene.deck.songs.contains(path) ==> after.deck.current == scene.deck.current
            &&& after.known.path == Some(path)
            &&& after.known.title.len() == 0 && after.known.artist.len() == 0
            &&& after.known.album.len() == 0 && after.known.year.len() == 0
            &&& after.known.audio is None
            &&& after.trail == scene.trail
            &&& after.panel == scene.panel
            &&& after.external == scene.external
        }),
{
    if !scene.deck.songs.contains(path) {
        assert forall|j: int| 0 <= j < scene.deck.songs.len() implies #[trigger] scene.deck.songs[j]
            != path by {}
        missing_place_is_not_found(scene.deck.songs, path);
    }
}

/// A file can be played where its name has the extension of audio files, whatever its case.
pub proof fn audio_files_can_be_played(path: Seq<char>, name: Seq<char>)
    requires
        file_name(path) == Some(name),
    ensures
        playable(path) <==> (extension(name) matches Some(ext) && audio_extension(lowercase(ext))),
{
}

/// What is said while folders are scanned.
pub proof fn scans_say_so()
    ensures
        SCANNING@ == "Scanning\u{2026}"@,
        FOUND_ONE@ == "Found {n} song\u{2026}"@,
        FOUND_MANY@ == "Found {n} songs\u{2026}"@,
        READING_COVERS@ == "Reading covers\u{2026}"@,
{
}

/// A folder that is opened is shown under its name, with a way back to where one was.
pub proof fn opening_shows_the_folder(trail: Trail, path: Seq<char>, name: Seq<char>)
    ensures
        ({
            let after = opened(trail, path, name);
            &&& after.current == Some(path)
            &&& after.title == Title::Named(name)
            &&& after.back_visible
            &&& after.stack.len() == trail.stack.len() + 1
            &&& after.stack.last().folder == trail.current
            &&& after.stack.last().title == trail.title
            &&& after.stack.drop_last() == trail.stack
            &&& after.root == trail.root
            &&& after.pending == trail.pending
        }),
{
    assert(opened(trail, path, name).stack.drop_last() =~= trail.stack);
}

/// The root of the library is its only folder, or all of its folders; without folders there
/// is nothing. From there no way leads back.
pub proof fn root_shows_the_library(trail: Trail, folders: Seq<Seq<char>>)
    ensures
        ({
            let (after, shown) = at_root(trail, folders);
            &&& after.stack.len() == 0
            &&& !after.back_visible
            &&& after.pending == trail.pending
            &&& folders.len() == 0 ==> shown == Shown::Reset
            &&& folders.len() == 1 ==> {
                &&& shown == Shown::Folder(folders[0])
                &&& after.current == Some(folders[0])
                &&& after.root == Some(folders[0])
                &&& after.title == Title::Folder
            }
            &&& folders.len() > 1 ==> shown == Shown::Folders(folders)
            &&& folders.len() != 1 ==> {
                &&& after.current is None
                &&& after.root is None
                &&& after.title == Title::Folders
            }
        }),
        folders.len() > 0 ==> gone_home(trail, folders) == at_root(trail, folders),
        folders.len() == 0 ==> gone_home(trail, folders) == (trail, Shown::Choose),
{
}

/// Without a place to go back to, going back shows all folders of a library with several, and
/// does nothing otherwise.
pub proof fn going_back_ends_at_the_library(trail: Trail, folders: Seq<Seq<char>>)
    requires
        trail.stack.len() == 0,
    ensures
        folders.len() > 1 ==> gone_back(trail, folders).1 == Shown::Folders(folders) && gone_back(
            trail,
            folders,
        ).0.current is None && gone_back(trail, folders).0.title == Title::Folders,
        folders.len() <= 1 ==> gone_back(trail, folders) == (trail, Shown::Nothing),
{
}

/// Going to a song shows the folder that it lies in and scrolls to the song. From there the
/// way back leads to the root of the library, unless one is there.
pub proof fn going_to_a_song_shows_its_folder(
    trail: Trail,
    song: Seq<char>,
    folders: Seq<Seq<char>>,
)
    requires
        folders.len() > 0,
    ensures
        ({
            let dir = or_empty(parent_path(song));
            let (after, shown) = at_song(trail, song, folders);
            &&& shown == Shown::Folder(dir)
            &&& after.current == Some(dir)
            &&& after.pending == Some(song)
            &&& file_name(dir) is Some ==> after.title == Title::Named(file_name(dir)->0)
            &&& folders.len() > 1 ==> gone_back(after, folders).1 == Shown::Folders(folders)
            &&& folders.len() == 1 && dir != folders[0] ==> gone_back(after, folders).1
                == Shown::Folder(folders[0])
            &&& folders.len() == 1 && dir == folders[0] ==> after.stack.len() == 0
            &&& after.back_visible == (after.stack.len() > 0)
        }),
{
}

/// Loading again shows the folder that is shown, or the library where none is.
pub proof fn loading_again_shows_the_same(trail: Trail, folders: Seq<Seq<char>>)
    ensures
        trail.current matches Some(f) ==> shown_again(trail, folders) == Shown::Folder(f),
        trail.current is None && folders.len() > 1 ==> shown_again(trail, folders)
            == Shown::Folders(folders),
        trail.current is None && folders.len() == 1 ==> shown_again(trail, folders)
            == Shown::Folder(folders[0]),
        trail.current is None && folders.len() == 0 ==> shown_again(trail, folders)
            == Shown::Nothing,
{
}

/// The heading is the name of the folder that is shown; without one it says whether the
/// library has one folder or several.
pub proof fn headings_name_the_folder(trail: Trail)
    ensures
        trail.current matches Some(f) ==> plain_title(trail) == Title::Named(
            or_empty(file_name(f)),
        ),
        trail.current is None && trail.root is Some ==> plain_title(trail) == Title::Folder,
        trail.current is None && trail.root is None ==> plain_title(trail) == Title::Folders,
{
}

/// The only folder of the library is kept as the parent of every other folder, and of itself
/// none is kept.
pub proof fn parents_are_kept(trail: Trail, path: Seq<char>)
    ensures
        trail.root == Some(path) ==> kept_parent(trail, path) is None,
        trail.root != Some(path) ==> kept_parent(trail, path) == trail.root,
{
}

/// Nothing typed clears the search, one character jumps to it, and more are searched for by
/// their words. White space around the text and its case make no difference.
pub proof fn typing_searches(query: Seq<char>)
    ensures
        ({
            let q = lowercase(trimmed(query));
            &&& q.len() == 0 ==> plan(query) == Plan::Clear
            &&& q.len() == 1 ==> plan(query) == Plan::Jump(q[0])
            &&& q.len() > 1 ==> plan(query) == Plan::Find(q, words(q))
        }),
{
}

/// Jumping leads to the first name that begins with the character, in lowercase, or nowhere.
pub proof fn jumps_lead_to_the_first_name(names: Seq<Seq<char>>, target: char, i: int)
    ensures
        0 <= i < names.len() && begins_in_lowercase(names[i], target) && (forall|j: int|
            0 <= j < i ==> !begins_in_lowercase(#[trigger] names[j], target)) ==> jump_place(
            initials(names),
            target,
        ) == Some(i),
        (forall|j: int|
            0 <= j < names.len() ==> !begins_in_lowercase(#[trigger] names[j], target))
            ==> jump_place(initials(names), target) is None,
{
    let firsts = initials(names);
    assert forall|j: int| 0 <= j < names.len() implies (#[trigger] firsts[j] == Some(target))
        == begins_in_lowercase(names[j], target) by {}
    if 0 <= i < names.len() && begins_in_lowercase(names[i], target) && (forall|j: int|
        0 <= j < i ==> !begins_in_lowercase(#[trigger] names[j], target)) {
        assert forall|j: int| 0 <= j < i implies #[trigger] firsts[j] != Some(target) by {
            assert(!begins_in_lowercase(names[j], target));
        }
        assert(firsts[i] == Some(target));
        first_jump_is_found(firsts, target, i);
    }
    if forall|j: int| 0 <= j < names.len() ==> !begins_in_lowercase(#[trigger] names[j], target) {
        assert forall|j: int| 0 <= j < firsts.len() implies #[trigger] firsts[j] != Some(target) by {
            assert(!begins_in_lowercase(names[j], target));
        }
        missing_jump_is_not_found(firsts, target);
    }
}

/// Whether a name begins with a character once its first character is in lowercase.
pub open spec fn begins_in_lowercase(name: Seq<char>, target: char) -> bool {
    name.len() > 0 && target == if lower_chars(name[0]).len() > 0 {
        lower_chars(name[0])[0]
    } else {
        name[0]
    }
}

proof fn first_jump_is_found(firsts: Seq<Option<char>>, target: char, i: int)
    requires
        0 <= i < firsts.len(),
        firsts[i] == Some(target),
        forall|j: int| 0 <= j < i ==> #[trigger] firsts[j] != Some(target),
    ensures
        jump_place(firsts, target) == Some(i),
    decreases firsts.len(),
{
    let init = firsts.drop_last();
    assert forall|j: int| 0 <= j < i && j < init.len() implies #[trigger] init[j] != Some(target) by {
        assert(init[j] == firsts[j]);
    }
    if i < init.len() {
        first_jump_is_found(init, target, i);
    } else {
        missing_jump_is_not_found(init, target);
    }
}

proof fn missing_jump_is_not_found(firsts: Seq<Option<char>>, target: char)
    requires
        forall|j: int| 0 <= j < firsts.len() ==> #[trigger] firsts[j] != Some(target),
    ensures
        jump_place(firsts, target) is None,
    decreases firsts.len(),
{
    if firsts.len() > 0 {
        let init = firsts.drop_last();
        assert forall|j: int| 0 <= j < init.len() implies #[trigger] init[j] != Some(target) by {
            assert(init[j] == firsts[j]);
        }
        assert(firsts.last() == firsts[firsts.len() - 1]);
        missing_jump_is_not_found(init, target);
    }
}

/// A letter or digit opens the search with what was typed so far and that character behind
/// it. Backspace goes back where nothing is typed and there is a way back. Nothing else does
/// anything, nor does a key while the folders are not shown or the search has the focus.
pub proof fn keys_type_or_go_back(
    browse_visible: bool,
    search_focused: bool,
    c: char,
    is_letter: bool,
    text: Seq<char>,
    has_trail: bool,
)
    ensures
        !browse_visible || search_focused ==> forall|key: Key| #[trigger]
            key_effect(browse_visible, search_focused, key, is_letter, text, has_trail) is None,
        browse_visible && !search_focused ==> {
            &&& key_effect(true, false, Key::Character(c), true, text, has_trail) == Some(
                Some(text.push(c)),
            )
            &&& key_effect(true, false, Key::Character(c), false, text, has_trail) is None
            &&& text.len() == 0 ==> key_effect(true, false, Key::Backspace, is_letter, text, true)
                == Some(None::<Seq<char>>)
            &&& text.len() > 0 ==> key_effect(
                true,
                false,
                Key::Backspace,
                is_letter,
                text,
                has_trail,
            ) is None
            &&& key_effect(true, false, Key::Backspace, is_letter, text, false) is None
            &&& key_effect(true, false, Key::Other, is_letter, text, has_trail) is None
        },
{
}

/// The folders of the library are those of the settings that have a name.
pub proof fn named_folders_count(stored: Seq<Seq<char>>, dir: Seq<char>)
    ensures
        named_folders(stored).contains(dir) <==> stored.contains(dir) && dir.len() > 0,
{
    let keep = |f: Seq<char>| f.len() > 0;
    let named = named_folders(stored);
    if named.contains(dir) {
        let i = choose|i: int| 0 <= i < named.len() && named[i] == dir;
        let k = filtered_comes_from(stored, keep, i);
        assert(stored[k] == dir);
    }
    if stored.contains(dir) && dir.len() > 0 {
        let k = choose|k: int| 0 <= k < stored.len() && stored[k] == dir;
        stored.lemma_filter_contains(keep, k);
    }
}

/// The folders of the library stand in the order of the settings.
pub proof fn named_folders_keep_their_order(stored: Seq<Seq<char>>, i: int, j: int) -> (r: (int, int))
    requires
        0 <= i < j < named_folders(stored).len(),
    ensures
        0 <= r.0 < r.1 < stored.len(),
        stored[r.0] == named_folders(stored)[i],
        stored[r.1] == named_folders(stored)[j],
{
    filtered_keeps_order(stored, |f: Seq<char>| f.len() > 0, i, j)
}

/// When the player starts, a folder of the older setting comes first and the personal music
/// folder last, each where it is not there yet; the others stay in between.
pub proof fn starting_adds_folders(folders: Seq<Seq<char>>, legacy: Seq<char>, music: Seq<char>)
    ensures
        legacy.len() > 0 && !folders.contains(legacy) ==> with_legacy(folders, Some(legacy))
            == seq![legacy] + folders,
        legacy.len() == 0 || folders.contains(legacy) ==> with_legacy(folders, Some(legacy))
            == folders,
        with_legacy(folders, None) == folders,
        !folders.contains(music) ==> with_music(folders, Some(music)) == folders.push(music),
        folders.contains(music) ==> with_music(folders, Some(music)) == folders,
        with_music(folders, None) == folders,
{
}

/// Closing the dialog of the folders scans where a folder was added or taken out, and else
/// loads again; without folders the library is emptied.
pub proof fn changed_folders_are_scanned(
    initial: Seq<Seq<char>>,
    current: Seq<Seq<char>>,
    dir: Seq<char>,
)
    ensures
        current.len() == 0 ==> dialog_end(initial, current) == DialogEnd::Reset,
        current.len() > 0 && initial.contains(dir) != current.contains(dir) ==> dialog_end(
            initial,
            current,
        ) == DialogEnd::Scan,
        current.len() > 0 ==> dialog_end(current, current) == DialogEnd::Reload,
{
}

/// The disks to choose from are the folders that can be read; the folders in them are those
/// that are not hidden.
pub proof fn offered_folders_are_these(entries: Seq<MountEntry>, path: Seq<char>)
    ensures
        folder_entries(entries, true).contains(path) <==> exists|k: int|
            0 <= k < entries.len() && (#[trigger] entries[k]).path@ == path && entries[k].is_dir
                && entries[k].readable,
        folder_entries(entries, false).contains(path) <==> exists|k: int|
            0 <= k < entries.len() && (#[trigger] entries[k]).path@ == path && entries[k].is_dir
                && !(entries[k].name@.len() > 0 && entries[k].name@[0] == '.'),
{
    offered_are_listed(entries, path, true);
    offered_are_listed(entries, path, false);
}

proof fn offered_are_listed(entries: Seq<MountEntry>, path: Seq<char>, disks: bool)
    ensures
        folder_entries(entries, disks).contains(path) <==> exists|k: int|
            0 <= k < entries.len() && (#[trigger] entries[k]).path@ == path
                && offered(entries[k], disks),
{
    let f = |e: MountEntry|
        if offered(e, disks) {
            Some(e.path@)
        } else {
            None
        };
    let list = folder_entries(entries, disks);
    if list.contains(path) {
        let i = choose|i: int| 0 <= i < list.len() && list[i] == path;
        let k = chosen_comes_from(entries, f, i);
        assert(entries[k].path@ == path);
    }
    if exists|k: int|
        0 <= k < entries.len() && (#[trigger] entries[k]).path@ == path
            && offered(entries[k], disks) {
        let k = choose|k: int|
            0 <= k < entries.len() && (#[trigger] entries[k]).path@ == path
                && offered(entries[k], disks);
        let i = chosen_is_there(entries, f, k);
        assert(list[i] == path);
    }
}

/// The outputs to choose from, their places, and what is said of them.
pub proof fn outputs_are_these()
    ensures
        OUTPUT_VALUES@[0]@ == "auto"@,
        OUTPUT_VALUES@[1]@ == "hifi"@,
        OUTPUT_VALUES@[2]@ == "standard"@,
        output_place("auto"@) == 0,
        output_place("hifi"@) == 1,
        output_place("standard"@) == 2,
        forall|value: Seq<char>|
            value != "hifi"@ && value != "standard"@ ==> #[trigger] output_place(value) == 0,
        OUTPUT_DESCRIPTIONS@[0]@ == "Selects the best available output. Prefers HiFi when \
             PipeWire is present, otherwise falls back to Standard."@,
        OUTPUT_DESCRIPTIONS@[1]@ == "Passthrough output for bit-perfect playback via PipeWire \
             or ALSA. Ideal for Hi-Res lossless audio (96 \u{2013} 192 kHz)."@,
        OUTPUT_DESCRIPTIONS@[2]@ == "Legacy output via PulseAudio. Audio is resampled to a \
             common rate (44.1 \u{2013} 48 kHz). Compatible with all systems."@,
{
    reveal_strlit("auto");
    reveal_strlit("hifi");
    reveal_strlit("standard");
    assert("auto"@[0] == 'a' && "hifi"@[0] == 'h' && "standard"@[0] == 's');
}

/// The styles by the values of the setting, and their places in the list.
pub proof fn styles_are_these()
    ensures
        value_of(Scheme::System) == 0,
        value_of(Scheme::Light) == 1,
        value_of(Scheme::Dark) == 4,
        scheme_place(Scheme::System) == 0,
        scheme_place(Scheme::Light) == 1,
        scheme_place(Scheme::Dark) == 2,
{
}

/// Below a width of 900 the panel of the folders is hidden; from there on it is shown, unless
/// it was closed by hand. Whether it was is not forgotten, and without a width nothing
/// happens.
pub proof fn panels_fit_the_width(panel: Panel, width: int)
    ensures
        0 < width < 900 ==> !fitted(panel, width).browse_visible,
        width >= 900 && !panel.manual_closed ==> fitted(panel, width).browse_visible,
        width >= 900 && panel.manual_closed ==> fitted(panel, width).browse_visible
            == panel.browse_visible,
        width <= 0 ==> fitted(panel, width) == panel,
        fitted(panel, width).manual_closed == panel.manual_closed,
{
}

/// A folder must be scanned again where it is not known, or where it was changed more than a
/// millisecond before or after the time that is known.
pub proof fn changed_folders_need_a_scan(current: int, kept: int)
    ensures
        changed_since(current, None),
        changed_since(current, Some(kept)) <==> current - kept > 1_000_000 || kept - current
            > 1_000_000,
{
}

/// The covers of all folders are looked for, one after the other: of each folder its own, and
/// then those of the folders that were listed in it, in their order.
pub proof fn covers_are_looked_for_everywhere(job: Job, i: int, list: Seq<Seq<char>>, j: int)
    requires
        0 <= i < job.folders.len(),
        0 <= j <= list.len(),
    ensures
        step(Job { at: At::Covers(i), ..job }, false) == (
            Job { at: At::List(i), ..job },
            Task::Discover(job.folders[i]),
        ),
        step(Job { at: At::List(i), ..job }, false).1 == Task::List(job.folders[i]),
        j < list.len() ==> step(Job { at: At::Children(i, list, j), ..job }, false) == (
            Job { at: At::Children(i, list, j + 1), ..job },
            Task::Discover(list[j]),
        ),
        i + 1 < job.folders.len() ==> step(Job { at: At::Children(i, list, list.len() as int), ..job },
            false,
        ) == (Job { at: At::List(i + 1), ..job }, Task::Discover(job.folders[i + 1])),
        i + 1 == job.folders.len() && !job.report ==> step(
            Job { at: At::Children(i, list, list.len() as int), ..job },
            false,
        ).1 == Task::Queue,
        i + 1 == job.folders.len() && job.report ==> step(
            Job { at: At::Children(i, list, list.len() as int), ..job },
            false,
        ).1 == Task::Reload,
        step(Job { at: At::Queue, ..job }, false) == (
            Job { at: At::Enrich, ..job },
            Task::Queue,
        ),
        step(Job { at: At::Enrich, ..job }, false) == (Job { at: At::Ended, ..job }, Task::Enrich),
{
}

/// Tables are of another version unless the version that was noted reads as three.
pub proof fn only_version_three_is_kept(n: int)
    requires
        i32::MIN <= n <= i32::MAX,
    ensures
        outdated(None),
        outdated(Some(signed_digits(n))) <==> n != 3,
{
    signed_numbers_read_as_written(n);
}

/// The folders that were listed are gone through from the first one on, and only where they
/// were asked for.
pub proof fn listed_folders_are_gone_through(job: Job, i: int, list: Seq<Seq<char>>)
    ensures
        with_children(Job { at: At::List(i), ..job }, list) == (Job {
            at: At::Children(i, list, 0),
            ..job
        }),
        !(job.at is List) ==> with_children(job, list) == job,
{
}

/// While the player is being closed no folder is scanned, and after a scan no song is read.
pub proof fn closing_stops_a_load(load: Loading, unscanned: bool)
    ensures
        !(load_step(load, true).1 is Scan),
        load.stage == LoadStage::Shown(unscanned) && load.outdated ==> load_step(load, true).1
            == LoadTask::Stop,
        load.stage == LoadStage::Shown(true) && !load.outdated ==> load_step(load, true).1
            == LoadTask::Enrich,
{
}

/// An entry of which only path and name are known: a song has its title and its format from
/// its name, a folder has neither.
pub proof fn new_entries_are_named<T>(path: Seq<char>, name: Seq<char>, ext: Seq<char>)
    requires
        path_extension(name) == Some(ext),
    ensures
        ({
            let song = new_item::<T>(path, name, false);
            let dir = new_item::<T>(path, name, true);
            &&& song.path == path && dir.path == path
            &&& song.name == name && dir.name == name
            &&& !song.is_folder && dir.is_folder
            &&& song.title == path_stem(name) && dir.title.len() == 0
            &&& song.format_type == uppercase(ext) && dir.format_type.len() == 0
            &&& song.artist.len() == 0 && song.album.len() == 0 && song.year.len() == 0
            &&& song.bitrate == 0 && song.sample_rate == 0 && song.bits_per_sample == 0
            &&& song.duration == 0 && song.cover_thumb is None
        }),
{
}

/// A number takes the place of its mark in a text.
pub proof fn numbers_take_their_place(front: Seq<char>, back: Seq<char>, n: nat)
    requires
        !has_part(back, "{n}"@),
        forall|i: int| 0 <= i < front.len() ==> !stands_at(front + "{n}"@ + back, "{n}"@, i),
    ensures
        numbered(front + "{n}"@ + back, n) == front + digits(n) + back,
{
    reveal_strlit("{n}");
    parts_are_replaced(front, "{n}"@, digits(n), back);
    nothing_else_is_replaced(back, "{n}"@, digits(n));
}

/// Letters and digits are those that are typed; a key action says what is done.
pub proof fn letters_and_digits_are_typed(c: char, text: String)
    ensures
        is_letter_key(Key::Character(c)) == alphanumeric(c),
        !is_letter_key(Key::Backspace),
        !is_letter_key(Key::Other),
        effect_of(KeyAction::Proceed) is None,
        effect_of(KeyAction::Back) == Some(None::<Seq<char>>),
        effect_of(KeyAction::Type(text)) == Some(Some(text@)),
{
}

/// What tags leave open stays as it is known, and is not shown anew.
pub proof fn open_tags_stay_known(tag: Seq<char>, known: Seq<char>)
    ensures
        tag.len() > 0 ==> if_none(tag, known) == tag && if_any(tag) == Some(tag),
        tag.len() == 0 ==> if_none(tag, known) == known && if_any(tag) is None,
{
}

/// An emptied queue holds no song and stands nowhere; the song that plays goes on, and so does
/// the way songs are repeated.
pub proof fn emptied_queues_play_on(deck: Deck)
    ensures
        emptied(deck).songs.len() == 0,
        emptied(deck).current is None,
        current_path(emptied(deck)) is None,
        emptied(deck).playing == deck.playing,
        emptied(deck).repeat == deck.repeat,
{
}

/// A cover is kept with where it comes from: one that a search found was discovered, one out of
/// a song was embedded in it. A search that found none is noted too.
pub proof fn covers_say_where_they_come_from(
    path: Seq<char>,
    dir: Seq<char>,
    cover: Seq<u8>,
    seg: Seq<Exchange>,
)
    requires
        cover_run(path, dir, cover, seg),
    ensures
        discovered_request(path, Some(cover)) matches Request::Execute(_, params) && {
            &&& text_at(params, 0) == Some(path)
            &&& text_at(params, 1) == Some("discovered"@)
            &&& bytes_at(params, 2) == Some(cover)
        },
        discovered_request(path, None) matches Request::Execute(_, params) && {
            &&& params.len() == 1
            &&& text_at(params, 0) == Some(path)
        },
        row_in(seg[1]) is None ==> {
            &&& seg.len() == 3
            &&& seg[2].request matches Request::Execute(_, params) && {
                &&& text_at(params, 0) == Some(dir)
                &&& text_at(params, 1) == Some("embedded"@)
                &&& bytes_at(params, 2) == Some(cover)
            }
        },
{
}

} // verus!
