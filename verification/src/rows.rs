//! How entries look in the list.
use crate::file_item::{
    has_folders_only, items_of, only_folders, shown_title, title_or_stem, FileItem, Item,
};
use crate::labels::{duration_label, duration_text, is_hires, quality_label, quality_text};
use crate::queue::{mode_index, place, place_in_front, RepeatMode, REPEAT_ICONS};
use crate::text::{opt_text, same};
use vstd::prelude::*;

verus! {

/// The row of a song.
pub struct SongRow {
    pub now_playing: bool,
    /// The icon of how the song is repeated.
    pub badge: Option<&'static str>,
    pub title: String,
    pub artist: Option<String>,
    pub format: String,
    pub hires: bool,
    pub quality: String,
    pub duration: String,
}

/// The content of a `SongRow`.
pub struct Row {
    pub now_playing: bool,
    pub badge: Option<Seq<char>>,
    pub title: Seq<char>,
    pub artist: Option<Seq<char>>,
    pub format: Seq<char>,
    pub hires: bool,
    pub quality: Seq<char>,
    pub duration: Seq<char>,
}

impl View for SongRow {
    type V = Row;

    open spec fn view(&self) -> Row {
        Row {
            now_playing: self.now_playing,
            badge: match self.badge {
                Some(b) => Some(b@),
                None => None,
            },
            title: self.title@,
            artist: opt_text(self.artist),
            format: self.format@,
            hires: self.hires,
            quality: self.quality@,
            duration: self.duration@,
        }
    }
}

/// The row of a song. The artist is shown where it is known; the song that is
/// played is marked, with how it is repeated where it is.
pub open spec fn row_of<T>(item: Item<T>, now_playing: bool, mode: RepeatMode) -> Row {
    Row {
        now_playing,
        badge: if now_playing && mode != RepeatMode::Consecutive {
            Some(REPEAT_ICONS@[mode_index(mode)]@)
        } else {
            None
        },
        title: shown_title(item.title, item.name),
        artist: if item.artist.len() > 0 {
            Some(item.artist)
        } else {
            None
        },
        format: item.format_type,
        hires: item.sample_rate >= 48000,
        quality: quality_text(
            item.format_type,
            item.bitrate,
            item.sample_rate,
            item.bits_per_sample,
        ),
        duration: duration_text(item.duration),
    }
}

/// The row of a song.
pub fn song_row<T>(item: &FileItem<T>, now_playing: bool, mode: RepeatMode) -> (r: SongRow)
    ensures
        r@ == row_of(item@, now_playing, mode),
{
    let artist = item.artist();
    let format = item.format_type();
    let quality = quality_label(
        format.as_str(),
        item.bitrate(),
        item.sample_rate(),
        item.bits_per_sample(),
    );
    SongRow {
        now_playing,
        badge: if now_playing {
            mode.badge()
        } else {
            None
        },
        title: title_or_stem(item.title().as_str(), item.name().as_str()),
        artist: if artist.as_str().is_empty() {
            None
        } else {
            Some(artist)
        },
        format,
        hires: is_hires(item.sample_rate()),
        quality,
        duration: duration_label(item.duration()),
    }
}

/// How entries are shown.
#[derive(Debug, Clone, Copy, PartialEq, Eq, Structural)]
pub enum Layout {
    /// There is nothing to show.
    Empty,
    /// As tiles.
    Grid,
    /// As rows, beginning at a place.
    List(usize),
}

/// The paths of entries.
pub open spec fn paths_of<T>(items: Seq<Item<T>>) -> Seq<Seq<char>> {
    items.map_values(|i: Item<T>| i.path)
}

/// The first place of an entry with a path, or the first place of all.
pub open spec fn scroll_place<T>(items: Seq<Item<T>>, path: Option<Seq<char>>) -> int {
    match path {
        Some(p) => match place(paths_of(items), p) {
            Some(i) => i,
            None => 0,
        },
        None => 0,
    }
}

/// How entries are shown: as tiles where that is wanted and all are folders.
pub open spec fn layout_of<T>(
    items: Seq<Item<T>>,
    grid_wanted: bool,
    pending: Option<Seq<char>>,
) -> Option<int> {
    if grid_wanted && only_folders(items) {
        None
    } else {
        Some(scroll_place(items, pending))
    }
}

/// How entries are shown. `pending` is the path of the entry to begin with.
pub fn populate_list<T>(items: &Vec<FileItem<T>>, grid_wanted: bool, pending: &Option<String>) -> (r:
    Layout)
    ensures
        if items@.len() == 0 {
            r == Layout::Empty
        } else {
            match layout_of(items_of(items@), grid_wanted, opt_text(*pending)) {
                Some(i) => r matches Layout::List(n) && n == i,
                None => r == Layout::Grid,
            }
        },
{
    let ghost all = items_of(items@);
    if items.len() == 0 {
        return Layout::Empty;
    }
    if grid_wanted && has_folders_only(items) {
        return Layout::Grid;
    }
    if let Some(p) = pending {
        let ghost paths = paths_of(all);
        for i in 0..items.len()
            invariant
                all == items_of(items@),
                paths == paths_of(all),
                items@.len() > 0,
                !(grid_wanted && only_folders(all)),
                opt_text(*pending) == Some(p@),
                place(paths.take(i as int), p@) is None,
        {
            assert(paths.take(i + 1).drop_last() == paths.take(i as int));
            assert(paths[i as int] == items@[i as int]@.path);
            if same(items[i].path().as_str(), p.as_str()) {
                proof {
                    place_in_front(paths, p@, i + 1);
                }
                return Layout::List(i);
            }
        }
        assert(paths.take(paths.len() as int) == paths);
    }
    Layout::List(0)
}

} // verus!
