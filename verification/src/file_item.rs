//! An entry of the list that the player shows: a folder or a song.
use crate::paths::{file_extension, file_stem, path_extension, path_stem};
use crate::text::uppercase;
use vstd::prelude::*;

verus! {

/// A folder or a song, with a picture of its cover.
pub struct FileItem<T> {
    path: String,
    name: String,
    is_folder: bool,
    title: String,
    artist: String,
    album: String,
    year: String,
    format_type: String,
    bitrate: i32,
    sample_rate: i32,
    bits_per_sample: i32,
    duration: i64,
    cover_thumb: Option<T>,
}

/// The content of a `FileItem`.
pub struct Item<T> {
    pub path: Seq<char>,
    pub name: Seq<char>,
    pub is_folder: bool,
    pub title: Seq<char>,
    pub artist: Seq<char>,
    pub album: Seq<char>,
    pub year: Seq<char>,
    pub format_type: Seq<char>,
    pub bitrate: int,
    pub sample_rate: int,
    pub bits_per_sample: int,
    pub duration: int,
    pub cover_thumb: Option<T>,
}

impl<T> View for FileItem<T> {
    type V = Item<T>;

    closed spec fn view(&self) -> Item<T> {
        Item {
            path: self.path@,
            name: self.name@,
            is_folder: self.is_folder,
            title: self.title@,
            artist: self.artist@,
            album: self.album@,
            year: self.year@,
            format_type: self.format_type@,
            bitrate: self.bitrate as int,
            sample_rate: self.sample_rate as int,
            bits_per_sample: self.bits_per_sample as int,
            duration: self.duration as int,
            cover_thumb: self.cover_thumb,
        }
    }
}

/// The contents of items.
pub open spec fn items_of<T>(v: Seq<FileItem<T>>) -> Seq<Item<T>> {
    v.map_values(|i: FileItem<T>| i@)
}

/// An item of which only path and name are known. A song has its title and its
/// format from its name.
pub open spec fn new_item<T>(path: Seq<char>, name: Seq<char>, is_folder: bool) -> Item<T> {
    Item {
        path,
        name,
        is_folder,
        title: if is_folder {
            Seq::empty()
        } else {
            path_stem(name)
        },
        artist: Seq::empty(),
        album: Seq::empty(),
        year: Seq::empty(),
        format_type: match path_extension(name) {
            Some(ext) => if is_folder {
                Seq::empty()
            } else {
                uppercase(ext)
            },
            None => Seq::empty(),
        },
        bitrate: 0,
        sample_rate: 0,
        bits_per_sample: 0,
        duration: 0,
        cover_thumb: None,
    }
}

/// The title of a song as it is shown: where it has none, its name without the
/// extension.
pub open spec fn shown_title(title: Seq<char>, name: Seq<char>) -> Seq<char> {
    if title.len() == 0 {
        path_stem(name)
    } else {
        title
    }
}

/// The title of a song as it is shown.
pub fn title_or_stem(title: &str, name: &str) -> (r: String)
    ensures
        r@ == shown_title(title@, name@),
{
    if title.is_empty() {
        file_stem(name)
    } else {
        title.to_owned()
    }
}

impl<T> FileItem<T> {
    /// An item of which only path and name are known.
    pub fn new(path: &str, name: &str, is_folder: bool) -> (r: FileItem<T>)
        ensures
            r@ == new_item::<T>(path@, name@, is_folder),
    {
        let mut title = String::new();
        let mut format_type = String::new();
        if !is_folder {
            title = file_stem(name);
            if let Some(ext) = file_extension(name) {
                format_type = ext.as_str().to_uppercase();
            }
        }
        FileItem {
            path: path.to_owned(),
            name: name.to_owned(),
            is_folder,
            title,
            artist: String::new(),
            album: String::new(),
            year: String::new(),
            format_type,
            bitrate: 0,
            sample_rate: 0,
            bits_per_sample: 0,
            duration: 0,
            cover_thumb: None,
        }
    }

    /// Whether the item is a folder.
    pub fn is_folder(&self) -> (r: bool)
        ensures
            r == self@.is_folder,
    {
        self.is_folder
    }

    /// The path of the item.
    pub fn path(&self) -> (r: String)
        ensures
            r@ == self@.path,
    {
        self.path.clone()
    }

    /// The name of the item.
    pub fn name(&self) -> (r: String)
        ensures
            r@ == self@.name,
    {
        self.name.clone()
    }

    /// The title of a song.
    pub fn title(&self) -> (r: String)
        ensures
            r@ == self@.title,
    {
        self.title.clone()
    }

    /// Sets the title of a song.
    pub fn set_title(&mut self, v: &str)
        ensures
            final(self)@ == (Item { title: v@, ..old(self)@ }),
    {
        self.title = v.to_owned();
    }

    /// The artist of a song.
    pub fn artist(&self) -> (r: String)
        ensures
            r@ == self@.artist,
    {
        self.artist.clone()
    }

    /// Sets the artist of a song.
    pub fn set_artist(&mut self, v: &str)
        ensures
            final(self)@ == (Item { artist: v@, ..old(self)@ }),
    {
        self.artist = v.to_owned();
    }

    /// The album of a song.
    pub fn album(&self) -> (r: String)
        ensures
            r@ == self@.album,
    {
        self.album.clone()
    }

    /// Sets the album of a song.
    pub fn set_album(&mut self, v: &str)
        ensures
            final(self)@ == (Item { album: v@, ..old(self)@ }),
    {
        self.album = v.to_owned();
    }

    /// The year of a song.
    pub fn year(&self) -> (r: String)
        ensures
            r@ == self@.year,
    {
        self.year.clone()
    }

    /// Sets the year of a song.
    pub fn set_year(&mut self, v: &str)
        ensures
            final(self)@ == (Item { year: v@, ..old(self)@ }),
    {
        self.year = v.to_owned();
    }

    /// The format of a song.
    pub fn format_type(&self) -> (r: String)
        ensures
            r@ == self@.format_type,
    {
        self.format_type.clone()
    }

    /// Sets the format of a song.
    pub fn set_format_type(&mut self, v: &str)
        ensures
            final(self)@ == (Item { format_type: v@, ..old(self)@ }),
    {
        self.format_type = v.to_owned();
    }

    /// The bitrate of a song, in kilobits per second.
    pub fn bitrate(&self) -> (r: i32)
        ensures
            r == self@.bitrate,
    {
        self.bitrate
    }

    /// Sets the bitrate of a song, in kilobits per second.
    pub fn set_bitrate(&mut self, v: i32)
        ensures
            final(self)@ == (Item { bitrate: v as int, ..old(self)@ }),
    {
        self.bitrate = v;
    }

    /// The sample rate of a song, in hertz.
    pub fn sample_rate(&self) -> (r: i32)
        ensures
            r == self@.sample_rate,
    {
        self.sample_rate
    }

    /// Sets the sample rate of a song, in hertz.
    pub fn set_sample_rate(&mut self, v: i32)
        ensures
            final(self)@ == (Item { sample_rate: v as int, ..old(self)@ }),
    {
        self.sample_rate = v;
    }

    /// The bits of each sample of a song.
    pub fn bits_per_sample(&self) -> (r: i32)
        ensures
            r == self@.bits_per_sample,
    {
        self.bits_per_sample
    }

    /// Sets the bits of each sample of a song.
    pub fn set_bits_per_sample(&mut self, v: i32)
        ensures
            final(self)@ == (Item { bits_per_sample: v as int, ..old(self)@ }),
    {
        self.bits_per_sample = v;
    }

    /// The duration of a song, in nanoseconds.
    pub fn duration(&self) -> (r: i64)
        ensures
            r == self@.duration,
    {
        self.duration
    }

    /// Sets the duration of a song, in nanoseconds.
    pub fn set_duration(&mut self, v: i64)
        ensures
            final(self)@ == (Item { duration: v as int, ..old(self)@ }),
    {
        self.duration = v;
    }

    /// The picture of the cover.
    pub fn cover_thumb(&self) -> (r: Option<&T>)
        ensures
            match r {
                Some(t) => self@.cover_thumb == Some(*t),
                None => self@.cover_thumb is None,
            },
    {
        self.cover_thumb.as_ref()
    }

    /// Sets the picture of the cover.
    pub fn set_cover_thumb(&mut self, v: Option<T>)
        ensures
            final(self)@ == (Item { cover_thumb: v, ..old(self)@ }),
    {
        self.cover_thumb = v;
    }
}

/// Whether all items are folders, and there is one.
pub open spec fn only_folders<T>(items: Seq<Item<T>>) -> bool {
    items.len() > 0 && forall|i: int|
        0 <= i < items.len() ==> (#[trigger] items[i]).is_folder
}

/// Whether all items are folders, and there is one.
pub fn has_folders_only<T>(items: &Vec<FileItem<T>>) -> (r: bool)
    ensures
        r == only_folders(items_of(items@)),
{
    let ghost all = items_of(items@);
    for i in 0..items.len()
        invariant
            all == items_of(items@),
            forall|j: int| 0 <= j < i ==> (#[trigger] all[j]).is_folder,
    {
        assert(all[i as int] == items@[i as int]@);
        if !items[i].is_folder {
            return false;
        }
    }
    items.len() > 0
}

} // verus!
