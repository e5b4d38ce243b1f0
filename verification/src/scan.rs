//! From the entries of a folder on disk to the folders and songs in it.
use crate::formats::{audio_extension, is_audio_lower};
use crate::order::{
    key_order, order_by_keys, order_by_text, ordered, ordered_by_place, ordered_through, places,
    ranks,
};
use crate::paths::{extension, split_name, stem};
use crate::records::{folders_of, found_of, Folder, FolderRecord, Found, SongScanEntry};
use crate::text::{at_most, at_most_total, at_most_transitive, lowercase, texts, uppercase};
use vstd::prelude::*;

verus! {

/// What an entry of a folder is.
#[derive(Debug, Clone, Copy, PartialEq, Eq, Structural)]
pub enum EntryKind {
    Folder,
    File,
    /// Neither a folder nor a file, such as a link.
    Other,
    /// It could not be found out.
    Unknown,
}

/// An entry of a folder on disk. The time of its last change is in nanoseconds.
#[derive(Debug)]
pub struct DirEntryInfo {
    pub name: String,
    pub path: String,
    pub kind: EntryKind,
    pub mtime: i64,
}

/// The content of a `DirEntryInfo`.
pub struct Entry {
    pub name: Seq<char>,
    pub path: Seq<char>,
    pub kind: EntryKind,
    pub mtime: int,
}

impl View for DirEntryInfo {
    type V = Entry;

    open spec fn view(&self) -> Entry {
        Entry { name: self.name@, path: self.path@, kind: self.kind, mtime: self.mtime as int }
    }
}

/// The contents of entries.
pub open spec fn entries_of(v: Seq<DirEntryInfo>) -> Seq<Entry> {
    v.map_values(|e: DirEntryInfo| e@)
}

/// What a folder on disk holds and when it was changed last, in nanoseconds.
#[derive(Debug)]
pub struct DirListing {
    pub mtime: i64,
    pub entries: Vec<DirEntryInfo>,
}

/// The order of entries: folders first, then by name without regard to case.
pub open spec fn entry_order() -> spec_fn(Entry, Entry) -> bool {
    |a: Entry, b: Entry|
        if (a.kind == EntryKind::Folder) != (b.kind == EntryKind::Folder) {
            a.kind == EntryKind::Folder
        } else {
            at_most(lowercase(a.name), lowercase(b.name))
        }
}

/// Any two entries can be compared, and comparing can be chained.
pub proof fn entry_order_ranks()
    ensures
        ranks(entry_order()),
{
    assert forall|a: Entry, b: Entry| #[trigger] entry_order()(a, b) || entry_order()(b, a) by {
        at_most_total(lowercase(a.name), lowercase(b.name));
    }
    assert forall|a: Entry, b: Entry, c: Entry|
        #[trigger] entry_order()(a, b) && #[trigger] entry_order()(b, c) implies entry_order()(
        a,
        c,
    ) by {
        if at_most(lowercase(a.name), lowercase(b.name)) && at_most(
            lowercase(b.name),
            lowercase(c.name),
        ) {
            at_most_transitive(lowercase(a.name), lowercase(b.name), lowercase(c.name));
        }
    }
}

/// Entries with the texts they are ordered by.
pub open spec fn keyed(entries: Seq<Entry>, keys: Seq<Seq<char>>) -> Seq<(Entry, Seq<char>)> {
    Seq::new(entries.len(), |i: int| (entries[i], keys[i]))
}

/// The order of entries with the texts they are ordered by: folders first.
pub open spec fn keyed_order() -> spec_fn((Entry, Seq<char>), (Entry, Seq<char>)) -> bool {
    |a: (Entry, Seq<char>), b: (Entry, Seq<char>)|
        if (a.0.kind == EntryKind::Folder) != (b.0.kind == EntryKind::Folder) {
            a.0.kind == EntryKind::Folder
        } else {
            at_most(a.1, b.1)
        }
}

/// The entries in order, each by its place in the list. Folders come first; `keys`
/// are the texts that the entries are ordered by.
pub fn order_keyed(entries: &Vec<DirEntryInfo>, keys: &Vec<String>) -> (r: Vec<usize>)
    requires
        keys.len() == entries.len(),
    ensures
        forall|i: int| 0 <= i < r.len() ==> #[trigger] r@[i] < entries.len(),
        r@.map_values(|i: usize| (entries@[i as int]@, keys@[i as int]@)) == ordered(
            keyed(entries_of(entries@), texts(keys@)),
            keyed_order(),
        ),
{
    let mut firsts: Vec<bool> = Vec::new();
    for i in 0..entries.len()
        invariant
            firsts.len() == i,
            forall|j: int|
                0 <= j < i ==> #[trigger] firsts@[j] == (entries@[j].kind == EntryKind::Folder),
    {
        firsts.push(entries[i].kind == EntryKind::Folder);
    }
    let r = order_by_keys(&firsts, keys);
    proof {
        let all = keyed(entries_of(entries@), texts(keys@));
        let rank = key_order(firsts@, texts(keys@));
        let n = all.len();
        assert forall|i: int, j: int| 0 <= i < n && 0 <= j < n implies #[trigger] rank(i, j)
            == keyed_order()(all[i], all[j]) by {
            assert(firsts@[i] == (entries@[i].kind == EntryKind::Folder));
            assert(firsts@[j] == (entries@[j].kind == EntryKind::Folder));
        }
        ordered_by_place(all, keyed_order(), rank, n);
        assert(all.take(n as int) =~= all);
        let sorted = ordered(places(n), rank);
        assert(r@.map_values(|i: usize| (entries@[i as int]@, keys@[i as int]@))
            =~= sorted.map_values(|i: int| all[i])) by {
            assert(sorted == r@.map_values(|i: usize| i as int));
        }
    }
    r
}

/// The entries in order, each by its place in the list.
pub fn order_entries(entries: &Vec<DirEntryInfo>) -> (r: Vec<usize>)
    ensures
        forall|i: int| 0 <= i < r.len() ==> #[trigger] r@[i] < entries.len(),
        r@.map_values(|i: usize| entries@[i as int]@) == ordered(
            entries_of(entries@),
            entry_order(),
        ),
{
    let ghost all = entries_of(entries@);
    let mut keys: Vec<String> = Vec::new();
    for i in 0..entries.len()
        invariant
            keys.len() == i,
            forall|j: int|
                0 <= j < i ==> (#[trigger] keys@[j])@ == lowercase(entries@[j].name@),
    {
        keys.push(entries[i].name.as_str().to_lowercase());
    }
    let r = order_keyed(entries, &keys);
    proof {
        let f = |e: Entry| (e, lowercase(e.name));
        let sorted = ordered(all, entry_order());
        assert(keyed(all, texts(keys@)) =~= all.map_values(f));
        ordered_through(all, f, entry_order(), keyed_order());
        let pairs = r@.map_values(|i: usize| (entries@[i as int]@, keys@[i as int]@));
        assert(pairs == sorted.map_values(f));
        assert(pairs.len() == r@.len() && sorted.map_values(f).len() == sorted.len());
        assert forall|i: int| 0 <= i < r@.len() implies entries@[r@[i] as int]@
            == #[trigger] sorted[i] by {
            assert(pairs[i].0 == sorted.map_values(f)[i].0);
        }
        assert(r@.map_values(|i: usize| entries@[i as int]@) =~= sorted);
    }
    r
}

/// The order of entries by name, character by character.
pub open spec fn name_order() -> spec_fn(Entry, Entry) -> bool {
    |a: Entry, b: Entry| at_most(a.name, b.name)
}

/// Any two names can be compared, and comparing can be chained.
pub proof fn name_order_ranks()
    ensures
        ranks(name_order()),
{
    assert forall|a: Entry, b: Entry| #[trigger] name_order()(a, b) || name_order()(b, a) by {
        at_most_total(a.name, b.name);
    }
    assert forall|a: Entry, b: Entry, c: Entry|
        #[trigger] name_order()(a, b) && #[trigger] name_order()(b, c) implies name_order()(a, c) by {
        at_most_transitive(a.name, b.name, c.name);
    }
}

/// The entries by name, each by its place in the list.
pub fn order_by_name(entries: &Vec<DirEntryInfo>) -> (r: Vec<usize>)
    ensures
        forall|i: int| 0 <= i < r.len() ==> #[trigger] r@[i] < entries.len(),
        r@.map_values(|i: usize| entries@[i as int]@) == ordered(
            entries_of(entries@),
            name_order(),
        ),
{
    let mut keys: Vec<String> = Vec::new();
    for i in 0..entries.len()
        invariant
            keys.len() == i,
            forall|j: int| 0 <= j < i ==> (#[trigger] keys@[j])@ == entries@[j].name@,
    {
        keys.push(entries[i].name.clone());
    }
    let r = order_by_text(&keys);
    proof {
        let all = entries_of(entries@);
        let names = texts(keys@);
        let n = all.len();
        let rank = |i: int, j: int| at_most(names[i], names[j]);
        ordered_by_place(all, name_order(), rank, n);
        assert(all.take(n as int) =~= all);
        let sorted = ordered(places(n), rank);
        assert(r@.map_values(|i: usize| entries@[i as int]@) =~= sorted.map_values(|i: int| all[i]))
            by {
            assert(sorted == r@.map_values(|i: usize| i as int));
        }
    }
    r
}

/// Whether an entry is hidden: its name begins with a dot.
pub open spec fn hidden(name: Seq<char>) -> bool {
    name.len() > 0 && name[0] == '.'
}

/// The folder that an entry is.
pub open spec fn entry_folder(e: Entry) -> Option<Folder> {
    if !hidden(e.name) && e.kind == EntryKind::Folder {
        Some(Folder { path: e.path, name: e.name, has_audio: false })
    } else {
        None
    }
}

/// The song that an entry is, where `lower` and `upper` are its extension in
/// lowercase and in uppercase.
pub open spec fn song_by(e: Entry, lower: Seq<char>, upper: Seq<char>) -> Option<Found> {
    if extension(e.name) is Some && !hidden(e.name) && e.kind == EntryKind::File
        && audio_extension(lower) {
        Some(
            Found {
                path: e.path,
                name: e.name,
                format_type: upper,
                title: stem(e.name),
                mtime: e.mtime,
            },
        )
    } else {
        None
    }
}

/// The song that an entry is.
pub open spec fn entry_song(e: Entry) -> Option<Found> {
    match extension(e.name) {
        Some(ext) => song_by(e, lowercase(ext), uppercase(ext)),
        None => None,
    }
}

/// The folders in a folder, in order.
pub open spec fn subfolders_in(entries: Seq<Entry>) -> Seq<Folder> {
    ordered(entries, entry_order()).filter_map(|e: Entry| entry_folder(e))
}

/// The songs in a folder, in order.
pub open spec fn audio_files_in(entries: Seq<Entry>) -> Seq<Found> {
    ordered(entries, entry_order()).filter_map(|e: Entry| entry_song(e))
}

/// Whether a name begins with a dot.
pub fn is_hidden(name: &str) -> (r: bool)
    ensures
        r == hidden(name@),
{
    name.unicode_len() > 0 && name.get_char(0) == '.'
}

/// The song that an entry is, where `lower` and `upper` are its extension in
/// lowercase and in uppercase.
pub fn song_with(e: &DirEntryInfo, lower: &str, upper: &str) -> (r: Option<SongScanEntry>)
    ensures
        match r {
            Some(s) => song_by(e@, lower@, upper@) == Some(s@),
            None => song_by(e@, lower@, upper@) is None,
        },
{
    let (title, ext) = split_name(e.name.as_str());
    if ext.is_some() && !is_hidden(e.name.as_str()) && e.kind == EntryKind::File && is_audio_lower(
        lower,
    ) {
        Some(
            SongScanEntry {
                path: e.path.clone(),
                name: e.name.clone(),
                format_type: upper.to_owned(),
                title,
                mtime: e.mtime,
            },
        )
    } else {
        None
    }
}

/// The song that an entry is.
pub fn song_of_entry(e: &DirEntryInfo) -> (r: Option<SongScanEntry>)
    ensures
        match r {
            Some(s) => entry_song(e@) == Some(s@),
            None => entry_song(e@) is None,
        },
{
    match split_name(e.name.as_str()).1 {
        Some(ext) => song_with(
            e,
            ext.as_str().to_lowercase().as_str(),
            ext.as_str().to_uppercase().as_str(),
        ),
        None => None,
    }
}

/// The folders and the songs in a folder, in order. Hidden entries are left out.
pub fn sort_out(entries: &Vec<DirEntryInfo>) -> (r: (Vec<FolderRecord>, Vec<SongScanEntry>))
    ensures
        folders_of(r.0@) == subfolders_in(entries_of(entries@)),
        found_of(r.1@) == audio_files_in(entries_of(entries@)),
{
    let order = order_entries(entries);
    let ghost sorted = ordered(entries_of(entries@), entry_order());
    let ghost f = |e: Entry| entry_folder(e);
    let ghost g = |e: Entry| entry_song(e);
    let mut folders: Vec<FolderRecord> = Vec::new();
    let mut songs: Vec<SongScanEntry> = Vec::new();
    for i in 0..order.len()
        invariant
            f == (|e: Entry| entry_folder(e)),
            g == (|e: Entry| entry_song(e)),
            forall|j: int| 0 <= j < order.len() ==> #[trigger] order@[j] < entries.len(),
            sorted == order@.map_values(|i: usize| entries@[i as int]@),
            folders_of(folders@) == sorted.take(i as int).filter_map(f),
            found_of(songs@) == sorted.take(i as int).filter_map(g),
    {
        let e = &entries[order[i]];
        proof {
            assert(sorted[i as int] == e@);
            sorted.lemma_filter_map_take_succ(f, i as int);
            sorted.lemma_filter_map_take_succ(g, i as int);
        }
        if !is_hidden(e.name.as_str()) && e.kind == EntryKind::Folder {
            let ghost before = folders@;
            let folder = FolderRecord {
                path: e.path.clone(),
                name: e.name.clone(),
                has_audio: false,
            };
            folders.push(folder);
            assert(folders_of(folders@) == folders_of(before).push(folder@));
        }
        if let Some(song) = song_of_entry(e) {
            let ghost before = songs@;
            songs.push(song);
            assert(found_of(songs@) == found_of(before).push(song@));
        }
    }
    assert(sorted.take(sorted.len() as int) == sorted);
    (folders, songs)
}

/// The paths that are not kept.
pub open spec fn gone(paths: Seq<Seq<char>>, kept: Seq<Seq<char>>) -> Seq<Seq<char>> {
    paths.filter(|p: Seq<char>| !kept.contains(p))
}

/// The paths of folders.
pub open spec fn folder_paths(folders: Seq<Folder>) -> Seq<Seq<char>> {
    folders.map_values(|f: Folder| f.path)
}

/// The paths of songs found on disk.
pub open spec fn found_paths(songs: Seq<Found>) -> Seq<Seq<char>> {
    songs.map_values(|s: Found| s.path)
}

/// The paths that are not kept.
pub fn not_kept(paths: &Vec<String>, kept: &Vec<String>) -> (r: Vec<String>)
    ensures
        texts(r@) == gone(texts(paths@), texts(kept@)),
{
    let ghost all = texts(paths@);
    let ghost p = |p: Seq<char>| !texts(kept@).contains(p);
    let mut r: Vec<String> = Vec::new();
    for i in 0..paths.len()
        invariant
            all == texts(paths@),
            p == (|p: Seq<char>| !texts(kept@).contains(p)),
            texts(r@) == all.take(i as int).filter(p),
    {
        broadcast use Seq::lemma_filter_push;

        assert(all.take(i + 1) == all.take(i as int).push(all[i as int]));
        if !crate::text::lists(kept, paths[i].as_str()) {
            let ghost before = r@;
            r.push(paths[i].clone());
            assert(texts(r@) == texts(before).push(paths@[i as int]@));
        }
    }
    assert(all.take(all.len() as int) == all);
    r
}

} // verus!
