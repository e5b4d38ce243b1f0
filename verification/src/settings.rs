//! The settings: the folders of the library, the output and the style.
use crate::order::{order_texts, ordered, text_order};
use crate::scan::{hidden, is_hidden};
use crate::text::{copied, lists, opt_text, same, texts};
use vstd::prelude::*;

verus! {

/// The folders of the library, by what is kept in the settings: empty names do not
/// count.
pub open spec fn named_folders(stored: Seq<Seq<char>>) -> Seq<Seq<char>> {
    stored.filter(|f: Seq<char>| f.len() > 0)
}

/// The folders of the library, by what is kept in the settings.
pub fn music_folders(stored: &Vec<String>) -> (r: Vec<String>)
    ensures
        texts(r@) == named_folders(texts(stored@)),
{
    crate::text::filled_parts(stored)
}

/// The folders with one more at the end, unless it is there already.
pub open spec fn with_folder(folders: Seq<Seq<char>>, dir: Seq<char>) -> Seq<Seq<char>> {
    if folders.contains(dir) {
        folders
    } else {
        folders.push(dir)
    }
}

/// The folders without one.
pub open spec fn without_folder(folders: Seq<Seq<char>>, dir: Seq<char>) -> Seq<Seq<char>> {
    folders.filter(|f: Seq<char>| f != dir)
}

/// The folders with one more at the end; nothing where it is there already.
pub fn add_folder(folders: &Vec<String>, dir: &str) -> (r: Option<Vec<String>>)
    ensures
        match r {
            Some(v) => !texts(folders@).contains(dir@) && texts(v@) == with_folder(
                texts(folders@),
                dir@,
            ),
            None => texts(folders@).contains(dir@),
        },
{
    if lists(folders, dir) {
        return None;
    }
    let mut v = copied(folders);
    let ghost before = v@;
    v.push(dir.to_owned());
    assert(texts(v@) =~= texts(before).push(dir@));
    Some(v)
}

/// The folders without one.
pub fn remove_folder(folders: &Vec<String>, dir: &str) -> (r: Vec<String>)
    ensures
        texts(r@) == without_folder(texts(folders@), dir@),
{
    let ghost all = texts(folders@);
    let ghost p = |f: Seq<char>| f != dir@;
    let mut r: Vec<String> = Vec::new();
    for i in 0..folders.len()
        invariant
            all == texts(folders@),
            p == (|f: Seq<char>| f != dir@),
            texts(r@) == all.take(i as int).filter(p),
    {
        broadcast use Seq::lemma_filter_push;

        assert(all.take(i + 1) == all.take(i as int).push(all[i as int]));
        if !same(folders[i].as_str(), dir) {
            let ghost before = r@;
            r.push(folders[i].clone());
            assert(texts(r@) == texts(before).push(folders@[i as int]@));
        }
    }
    assert(all.take(all.len() as int) == all);
    r
}

/// Taking out a folder that was added leads back, and adding it twice is adding it
/// once.
pub proof fn adding_and_removing_undo(folders: Seq<Seq<char>>, dir: Seq<char>)
    ensures
        !folders.contains(dir) ==> without_folder(with_folder(folders, dir), dir) == folders,
        with_folder(with_folder(folders, dir), dir) == with_folder(folders, dir),
        with_folder(folders, dir).contains(dir),
        !without_folder(folders, dir).contains(dir),
{
    broadcast use Seq::lemma_filter_push;

    let p = |f: Seq<char>| f != dir;
    let with = with_folder(folders, dir);
    if !folders.contains(dir) {
        assert(with[folders.len() as int] == dir);
        without_missing(folders, dir);
    }
    if without_folder(folders, dir).contains(dir) {
        let i = choose|i: int|
            0 <= i < without_folder(folders, dir).len() && without_folder(folders, dir)[i] == dir;
        folders.lemma_filter_pred(p, i);
    }
}

/// Taking out a folder takes out that folder and no other.
pub proof fn removing_takes_one_folder(folders: Seq<Seq<char>>, dir: Seq<char>, other: Seq<char>)
    ensures
        without_folder(folders, dir).contains(other) <==> folders.contains(other) && other != dir,
    decreases folders.len(),
{
    reveal(Seq::filter);
    let left = without_folder(folders, dir);
    if folders.len() > 0 {
        let init = folders.drop_last();
        let last = folders.last();
        let rest = without_folder(init, dir);
        removing_takes_one_folder(init, dir, other);
        assert(folders[folders.len() - 1] == last);
        assert(folders.contains(other) <==> init.contains(other) || other == last) by {
            if init.contains(other) {
                let i = choose|i: int| 0 <= i < init.len() && init[i] == other;
                assert(folders[i] == other);
            }
            if folders.contains(other) && other != last {
                let i = choose|i: int| 0 <= i < folders.len() && folders[i] == other;
                assert(init[i] == other);
            }
        }
        if last != dir {
            assert(left == rest.push(last));
            assert(left[rest.len() as int] == last);
            if rest.contains(other) {
                let i = choose|i: int| 0 <= i < rest.len() && rest[i] == other;
                assert(left[i] == other);
            }
            if left.contains(other) && other != last {
                let i = choose|i: int| 0 <= i < left.len() && left[i] == other;
                assert(rest[i] == other);
            }
        }
    }
}

proof fn without_missing(folders: Seq<Seq<char>>, dir: Seq<char>)
    requires
        !folders.contains(dir),
    ensures
        without_folder(folders, dir) == folders,
    decreases folders.len(),
{
    reveal(Seq::filter);
    if folders.len() > 0 {
        let init = folders.drop_last();
        assert forall|i: int| 0 <= i < init.len() implies init[i] != dir by {
            assert(init[i] == folders[i]);
        }
        without_missing(init, dir);
        assert(folders.last() == folders[folders.len() - 1]);
        assert(folders =~= init.push(folders.last()));
    }
}

/// The folders of the library when the player starts, and whether they are to be
/// kept anew.
pub struct Startup {
    pub folders: Vec<String>,
    pub store: bool,
    /// Whether the setting of a single folder is to be emptied.
    pub clear_legacy: bool,
}

/// The folders with a folder of an older setting in front, unless it is there.
pub open spec fn with_legacy(folders: Seq<Seq<char>>, legacy: Option<Seq<char>>) -> Seq<
    Seq<char>,
> {
    match legacy {
        Some(l) => if l.len() > 0 && !folders.contains(l) {
            seq![l] + folders
        } else {
            folders
        },
        None => folders,
    }
}

/// The folders with the personal music folder at the end, unless it is there.
pub open spec fn with_music(folders: Seq<Seq<char>>, music: Option<Seq<char>>) -> Seq<Seq<char>> {
    match music {
        Some(m) => with_folder(folders, m),
        None => folders,
    }
}

/// The folders of the library when the player starts. `legacy` is the folder of the
/// older setting of a single folder, where it exists on disk; `music` is the
/// personal music folder, where it is wanted and exists on disk.
pub fn startup_folders(stored: &Vec<String>, legacy: Option<&str>, music: Option<&str>) -> (r:
    Startup)
    ensures
        ({
            let named = named_folders(texts(stored@));
            let old_one = match legacy {
                Some(l) => Some(l@),
                None => None,
            };
            let own = match music {
                Some(m) => Some(m@),
                None => None,
            };
            let first = with_legacy(named, old_one);
            &&& texts(r.folders@) == with_music(first, own)
            &&& r.store == (first != named || with_music(first, own) != first)
            &&& r.clear_legacy == (old_one matches Some(l) && l.len() > 0)
        }),
{
    let mut folders = music_folders(stored);
    let ghost named = texts(folders@);
    let mut store = false;
    let mut clear_legacy = false;
    if let Some(l) = legacy {
        if !l.is_empty() {
            if !lists(&folders, l) {
                let ghost before = texts(folders@);
                folders.insert(0, l.to_owned());
                assert(texts(folders@) =~= seq![l@] + before);
                store = true;
                assert(texts(folders@).len() != named.len());
            }
            clear_legacy = true;
        }
    }
    let ghost first = texts(folders@);
    if let Some(m) = music {
        if let Some(more) = add_folder(&folders, m) {
            assert(texts(more@).len() != first.len());
            folders = more;
            store = true;
        }
    }
    Startup { folders, store, clear_legacy }
}

/// What follows when the personal music folder is switched on or off.
pub struct MusicToggle {
    /// The folders to keep.
    pub folders: Option<Vec<String>>,
    /// The folder to take out of the library.
    pub remove: Option<String>,
}

/// What follows when the personal music folder is switched on or off: it is added
/// where it exists on disk, or taken out with its songs. Without such a folder
/// nothing follows.
pub fn toggle_music(folders: &Vec<String>, music: Option<&str>, on_disk: bool, active: bool) -> (r:
    MusicToggle)
    ensures
        match music {
            Some(m) => if active {
                &&& r.remove is None
                &&& match r.folders {
                    Some(v) => on_disk && !texts(folders@).contains(m@) && texts(v@) == texts(
                        folders@,
                    ).push(m@),
                    None => !on_disk || texts(folders@).contains(m@),
                }
            } else {
                &&& opt_text(r.remove) == Some(m@)
                &&& r.folders matches Some(v)
                &&& texts(v@) == without_folder(texts(folders@), m@)
            },
            None => r.folders is None && r.remove is None,
        },
{
    match music {
        Some(m) => if active {
            let added: Option<Vec<String>> = if on_disk {
                add_folder(folders, m)
            } else {
                None
            };
            MusicToggle { folders: added, remove: None }
        } else {
            MusicToggle {
                folders: Some(remove_folder(folders, m)),
                remove: Some(m.to_owned()),
            }
        },
        None => MusicToggle { folders: None, remove: None },
    }
}

/// The folders that are listed to be taken out: all but the personal music folder.
pub fn listed_folders(folders: &Vec<String>, music: Option<&str>) -> (r: Vec<String>)
    ensures
        texts(r@) == match music {
            Some(m) => without_folder(texts(folders@), m@),
            None => texts(folders@),
        },
{
    match music {
        Some(m) => remove_folder(folders, m),
        None => copied(folders),
    }
}

/// What follows when the dialog of the folders is closed.
#[derive(Debug, Clone, Copy, PartialEq, Eq, Structural)]
pub enum DialogEnd {
    /// All folders are scanned.
    Scan,
    /// The library is emptied.
    Reset,
    /// The folders are loaded again.
    Reload,
}

/// What follows when the dialog of the folders is closed: folders that differ from
/// before, in whatever order, are scanned.
pub open spec fn dialog_end(initial: Seq<Seq<char>>, current: Seq<Seq<char>>) -> DialogEnd {
    if current.len() == 0 {
        DialogEnd::Reset
    } else if (forall|f: Seq<char>| initial.contains(f) <==> #[trigger] current.contains(f)) {
        DialogEnd::Reload
    } else {
        DialogEnd::Scan
    }
}

fn all_listed(a: &Vec<String>, b: &Vec<String>) -> (r: bool)
    ensures
        r == (forall|i: int| 0 <= i < a@.len() ==> texts(b@).contains(#[trigger] texts(a@)[i])),
{
    for i in 0..a.len()
        invariant
            forall|j: int| 0 <= j < i ==> texts(b@).contains(#[trigger] texts(a@)[j]),
    {
        assert(texts(a@)[i as int] == a@[i as int]@);
        if !lists(b, a[i].as_str()) {
            return false;
        }
    }
    true
}

/// What follows when the dialog of the folders is closed.
pub fn on_dialog_closed(initial: &Vec<String>, current: &Vec<String>) -> (r: DialogEnd)
    ensures
        r == dialog_end(texts(initial@), texts(current@)),
{
    let ghost a = texts(initial@);
    let ghost b = texts(current@);
    if current.len() == 0 {
        return DialogEnd::Reset;
    }
    let kept = all_listed(current, initial);
    let whole = all_listed(initial, current);
    proof {
        if kept && whole {
            assert forall|f: Seq<char>| a.contains(f) <==> #[trigger] b.contains(f) by {
                if a.contains(f) {
                    let i = choose|i: int| 0 <= i < a.len() && a[i] == f;
                    assert(b.contains(a[i]));
                }
                if b.contains(f) {
                    let i = choose|i: int| 0 <= i < b.len() && b[i] == f;
                    assert(a.contains(b[i]));
                }
            }
        } else {
            if !kept {
                let i = choose|i: int| 0 <= i < b.len() && !a.contains(#[trigger] b[i]);
                assert(b.contains(b[i]));
            } else {
                let i = choose|i: int| 0 <= i < a.len() && !b.contains(#[trigger] a[i]);
                assert(a.contains(a[i]));
            }
        }
    }
    if kept && whole {
        DialogEnd::Reload
    } else {
        DialogEnd::Scan
    }
}

/// An entry of a folder, as it is looked at to choose folders from.
pub struct MountEntry {
    pub name: String,
    pub path: String,
    pub is_dir: bool,
    pub readable: bool,
}

/// How deep folders can be opened to choose from.
pub const MAX_DEPTH: u32 = 4;

/// Whether an entry can be chosen: a disk is a folder that can be read, another
/// folder one that is not hidden.
pub open spec fn offered(e: MountEntry, disk: bool) -> bool {
    e.is_dir && if disk {
        e.readable
    } else {
        !hidden(e.name@)
    }
}

/// The paths of the entries that can be chosen.
pub open spec fn folder_entries(entries: Seq<MountEntry>, disks: bool) -> Seq<Seq<char>> {
    entries.filter_map(
        |e: MountEntry|
            if offered(e, disks) {
                Some(e.path@)
            } else {
                None
            },
    )
}

fn pick_folders(entries: &Vec<MountEntry>, disks: bool) -> (r: Vec<String>)
    ensures
        texts(r@) == folder_entries(entries@, disks),
{
    let ghost f = |e: MountEntry|
        if offered(e, disks) {
            Some(e.path@)
        } else {
            None
        };
    let mut r: Vec<String> = Vec::new();
    for i in 0..entries.len()
        invariant
            f == (|e: MountEntry|
                if offered(e, disks) {
                    Some(e.path@)
                } else {
                    None
                }),
            texts(r@) == entries@.take(i as int).filter_map(f),
    {
        proof {
            entries@.lemma_filter_map_take_succ(f, i as int);
        }
        let e = &entries[i];
        let chosen: bool = if disks {
            e.is_dir && e.readable
        } else {
            e.is_dir && !is_hidden(e.name.as_str())
        };
        if chosen {
            let ghost before = r@;
            r.push(entries[i].path.clone());
            assert(texts(r@) == texts(before).push(entries@[i as int].path@));
        }
    }
    assert(entries@.take(entries@.len() as int) == entries@);
    r
}

/// The disks to choose folders from: all folders where disks are mounted that can be
/// read, in the order of their paths.
pub fn list_mnt_entries(entries: &Vec<MountEntry>) -> (r: Vec<String>)
    ensures
        texts(r@) == ordered(folder_entries(entries@, true), text_order()),
{
    order_texts(pick_folders(entries, true))
}

/// The folders in a folder to choose from, in the order of their paths. Hidden ones
/// are left out.
pub fn mnt_children(entries: &Vec<MountEntry>) -> (r: Vec<String>)
    ensures
        texts(r@) == ordered(folder_entries(entries@, false), text_order()),
{
    order_texts(pick_folders(entries, false))
}

/// Whether a folder at a depth can be opened to choose from.
pub fn can_expand(depth: u32) -> (r: bool)
    ensures
        r == (depth < 4),
{
    depth < MAX_DEPTH
}

/// The outputs to choose from.
pub const OUTPUT_VALUES: [&'static str; 3] = ["auto", "hifi", "standard"];

/// The place of an output in the list; an unknown one counts as the first.
pub open spec fn output_place(value: Seq<char>) -> int {
    if value == OUTPUT_VALUES@[0]@ {
        0
    } else if value == OUTPUT_VALUES@[1]@ {
        1
    } else if value == OUTPUT_VALUES@[2]@ {
        2
    } else {
        0
    }
}

/// The place of an output in the list.
pub fn output_index(value: &str) -> (r: u32)
    ensures
        r == output_place(value@),
{
    if same(value, OUTPUT_VALUES[0]) {
        0
    } else if same(value, OUTPUT_VALUES[1]) {
        1
    } else if same(value, OUTPUT_VALUES[2]) {
        2
    } else {
        0
    }
}

/// The output at a place of the list.
pub fn output_value(index: u32) -> (r: &'static str)
    requires
        index < 3,
    ensures
        r@ == OUTPUT_VALUES@[index as int]@,
{
    OUTPUT_VALUES[index as usize]
}

/// What is said of the outputs, to be translated.
pub const OUTPUT_DESCRIPTIONS: [&'static str; 3] = [
    "Selects the best available output. Prefers HiFi when \
     PipeWire is present, otherwise falls back to Standard.",
    "Passthrough output for bit-perfect playback via PipeWire \
     or ALSA. Ideal for Hi-Res lossless audio (96 \u{2013} 192 kHz).",
    "Legacy output via PulseAudio. Audio is resampled to a \
     common rate (44.1 \u{2013} 48 kHz). Compatible with all systems.",
];

/// What is said of an output, to be translated; nothing of an unknown one.
pub fn output_description(index: u32) -> (r: Option<&'static str>)
    ensures
        match r {
            Some(t) => index < 3 && t@ == OUTPUT_DESCRIPTIONS@[index as int]@,
            None => index >= 3,
        },
{
    if index < 3 {
        Some(OUTPUT_DESCRIPTIONS[index as usize])
    } else {
        None
    }
}

/// The style of the window.
#[derive(Debug, Clone, Copy, PartialEq, Eq, Structural)]
pub enum Scheme {
    System,
    Light,
    Dark,
}

/// The style by the value of the setting; an unknown value counts as the style of
/// the system.
pub open spec fn scheme_of(value: int) -> Scheme {
    if value == 1 {
        Scheme::Light
    } else if value == 4 {
        Scheme::Dark
    } else {
        Scheme::System
    }
}

/// The value of the setting for a style.
pub open spec fn value_of(scheme: Scheme) -> int {
    match scheme {
        Scheme::System => 0,
        Scheme::Light => 1,
        Scheme::Dark => 4,
    }
}

/// The place of a style in the list.
pub open spec fn scheme_place(scheme: Scheme) -> int {
    match scheme {
        Scheme::System => 0,
        Scheme::Light => 1,
        Scheme::Dark => 2,
    }
}

/// A style that was kept is the style that is found again.
pub proof fn schemes_are_kept(scheme: Scheme)
    ensures
        scheme_of(value_of(scheme)) == scheme,
{
}

/// The style by the value of the setting.
pub fn scheme_from_setting(value: i32) -> (r: Scheme)
    ensures
        r == scheme_of(value as int),
{
    if value == 1 {
        Scheme::Light
    } else if value == 4 {
        Scheme::Dark
    } else {
        Scheme::System
    }
}

/// The value of the setting for a style.
pub fn scheme_setting(scheme: Scheme) -> (r: i32)
    ensures
        r == value_of(scheme),
{
    match scheme {
        Scheme::System => 0,
        Scheme::Light => 1,
        Scheme::Dark => 4,
    }
}

/// The place of a style in the list.
pub fn scheme_index(scheme: Scheme) -> (r: u32)
    ensures
        r == scheme_place(scheme),
{
    match scheme {
        Scheme::System => 0,
        Scheme::Light => 1,
        Scheme::Dark => 2,
    }
}

/// The style at a place of the list.
pub fn scheme_at(index: u32) -> (r: Scheme)
    ensures
        index <= 2 ==> scheme_place(r) == index,
        index > 2 ==> r == Scheme::System,
{
    match index {
        1 => Scheme::Light,
        2 => Scheme::Dark,
        _ => Scheme::System,
    }
}

} // verus!
