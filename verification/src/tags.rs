//! What is known of the song that is played.
use crate::enrich::{bitrate_of, depth_of, kilobits, sample_rate_of, signed, Stream};
use crate::labels::{
    duration_label, duration_text, format_label, format_text, is_hires, size_label, size_text,
    subtitle, subtitle_text, DASH,
};
use crate::paths::{base_name, file_name, folder_of, or_empty, parent_path};
use crate::text::{decimal, digits, glued, opt_text, signed_decimal, signed_digits};
use vstd::prelude::*;

verus! {

/// What was found out of a song by reading it. The duration is in nanoseconds.
pub struct AudioTags {
    pub format: String,
    pub sample_rate: i32,
    pub bits_per_sample: i32,
    pub bitrate: i32,
    pub duration: i64,
    pub channels: i32,
    pub genre: String,
    pub track_number: u32,
}

/// The content of an `AudioTags`.
pub struct Audio {
    pub format: Seq<char>,
    pub sample_rate: int,
    pub bits_per_sample: int,
    pub bitrate: int,
    pub duration: int,
    pub channels: int,
    pub genre: Seq<char>,
    pub track_number: nat,
}

impl View for AudioTags {
    type V = Audio;

    open spec fn view(&self) -> Audio {
        Audio {
            format: self.format@,
            sample_rate: self.sample_rate as int,
            bits_per_sample: self.bits_per_sample as int,
            bitrate: self.bitrate as int,
            duration: self.duration as int,
            channels: self.channels as int,
            genre: self.genre@,
            track_number: self.track_number as nat,
        }
    }
}

/// What is known of the song that is played. A text that is not known is empty.
pub struct SongTags {
    pub path: Option<String>,
    pub title: String,
    pub artist: String,
    pub album: String,
    pub year: String,
    pub audio: Option<AudioTags>,
}

/// The content of a `SongTags`.
pub struct Known {
    pub path: Option<Seq<char>>,
    pub title: Seq<char>,
    pub artist: Seq<char>,
    pub album: Seq<char>,
    pub year: Seq<char>,
    pub audio: Option<Audio>,
}

impl View for SongTags {
    type V = Known;

    open spec fn view(&self) -> Known {
        Known {
            path: opt_text(self.path),
            title: self.title@,
            artist: self.artist@,
            album: self.album@,
            year: self.year@,
            audio: match self.audio {
                Some(a) => Some(a@),
                None => None,
            },
        }
    }
}

/// A line of what is shown of a song: what it is, to be translated, and its value.
pub struct TagRow {
    pub label: &'static str,
    pub value: String,
}

/// The contents of lines.
pub open spec fn lines_of(v: Seq<TagRow>) -> Seq<(Seq<char>, Seq<char>)> {
    v.map_values(|r: TagRow| (r.label@, r.value@))
}

/// A text, or a dash where it is empty.
pub open spec fn or_dash(t: Seq<char>) -> Seq<char> {
    if t.len() == 0 {
        DASH@
    } else {
        t
    }
}

/// A number above zero with its unit, or a dash.
pub open spec fn amount(n: int, unit: Seq<char>) -> Seq<char> {
    if n > 0 {
        signed_digits(n) + unit
    } else {
        DASH@
    }
}

/// What is shown of the song.
pub open spec fn tag_lines(known: Known) -> Seq<(Seq<char>, Seq<char>)> {
    seq![
        ("Title"@, or_dash(known.title)),
        ("Artist"@, or_dash(known.artist)),
        ("Album"@, or_dash(known.album)),
        ("Year"@, or_dash(known.year)),
        (
            "Genre"@,
            match known.audio {
                Some(a) => or_dash(a.genre),
                None => DASH@,
            },
        ),
        (
            "Track"@,
            match known.audio {
                Some(a) => digits(a.track_number),
                None => DASH@,
            },
        ),
    ]
}

/// What is shown of the sound of the song.
pub open spec fn audio_lines(known: Known) -> Seq<(Seq<char>, Seq<char>)> {
    match known.audio {
        Some(a) => seq![
            ("Format"@, a.format),
            ("Duration"@, duration_text(a.duration)),
            ("Sample Rate"@, amount(a.sample_rate, " Hz"@)),
            ("Bit Depth"@, amount(a.bits_per_sample, "-bit"@)),
            ("Channels"@, amount(a.channels, Seq::empty())),
        ],
        None => seq![
            ("Format"@, Seq::empty()),
            ("Duration"@, DASH@),
            ("Sample Rate"@, DASH@),
            ("Bit Depth"@, DASH@),
            ("Channels"@, DASH@),
        ],
    }
}

/// What is shown of the file of the song. The size is shown where it is known.
pub open spec fn file_lines(path: Seq<char>, size: Option<nat>) -> Seq<(Seq<char>, Seq<char>)> {
    let lines = seq![
        ("Filename"@, or_empty(file_name(path))),
        ("Location"@, or_empty(parent_path(path))),
    ];
    match size {
        Some(n) => lines.push(("Size"@, size_text(n))),
        None => lines,
    }
}

fn dash_or(t: &str) -> (r: String)
    ensures
        r@ == or_dash(t@),
{
    if t.is_empty() {
        DASH.to_owned()
    } else {
        t.to_owned()
    }
}

fn amount_text(n: i32, unit: &str) -> (r: String)
    ensures
        r@ == amount(n as int, unit@),
{
    if n > 0 {
        glued(signed_decimal(n).as_str(), unit)
    } else {
        DASH.to_owned()
    }
}

/// What is to be shown when the tags of a song have come: the title and what
/// stands below it, where they are known.
pub struct TagUpdate {
    pub title: Option<String>,
    pub subtitle: Option<String>,
}

/// A text, where it is not empty.
pub open spec fn if_any(t: Seq<char>) -> Option<Seq<char>> {
    if t.len() == 0 {
        None
    } else {
        Some(t)
    }
}

/// A text, or another one where it is empty.
pub open spec fn if_none(t: Seq<char>, other: Seq<char>) -> Seq<char> {
    if t.len() == 0 {
        other
    } else {
        t
    }
}

/// Whether tags say enough to be shown.
pub fn tags_matter(title: &str, artist: &str, album: &str) -> (r: bool)
    ensures
        r == (title@.len() > 0 || artist@.len() > 0 || album@.len() > 0),
{
    !title.is_empty() || !artist.is_empty() || !album.is_empty()
}

/// What is to be shown when a song was read.
pub struct AudioUpdate {
    pub label: String,
    pub hires: bool,
}

impl SongTags {
    /// Nothing is known.
    pub fn new() -> (r: SongTags)
        ensures
            r@ == (Known {
                path: None,
                title: Seq::empty(),
                artist: Seq::empty(),
                album: Seq::empty(),
                year: Seq::empty(),
                audio: None,
            }),
    {
        SongTags {
            path: None,
            title: String::new(),
            artist: String::new(),
            album: String::new(),
            year: String::new(),
            audio: None,
        }
    }

    /// Only the path of the song is known.
    pub fn of_path(path: &str) -> (r: SongTags)
        ensures
            r@ == (Known {
                path: Some(path@),
                title: Seq::empty(),
                artist: Seq::empty(),
                album: Seq::empty(),
                year: Seq::empty(),
                audio: None,
            }),
    {
        let mut r = SongTags::new();
        r.path = Some(path.to_owned());
        r
    }

    /// Takes over what the tags say; what they leave open stays as it is known.
    pub fn on_tags(&mut self, title: &str, artist: &str, album: &str, year: &str) -> (r: TagUpdate)
        ensures
            final(self)@ == (Known {
                title: if_none(title@, old(self)@.title),
                artist: if_none(artist@, old(self)@.artist),
                album: if_none(album@, old(self)@.album),
                year: if_none(year@, old(self)@.year),
                ..old(self)@
            }),
            opt_text(r.title) == if_any(title@),
            opt_text(r.subtitle) == if_any(subtitle_text(artist@, album@, year@)),
    {
        let mut shown: Option<String> = None;
        if !title.is_empty() {
            self.title = title.to_owned();
            shown = Some(title.to_owned());
        }
        if !artist.is_empty() {
            self.artist = artist.to_owned();
        }
        if !album.is_empty() {
            self.album = album.to_owned();
        }
        if !year.is_empty() {
            self.year = year.to_owned();
        }
        let below = subtitle(artist, album, year);
        TagUpdate {
            title: shown,
            subtitle: if below.as_str().is_empty() {
                None
            } else {
                Some(below)
            },
        }
    }

    /// Takes over what was found out by reading the song, and tells what is to be
    /// shown of it.
    pub fn on_audio_info(
        &mut self,
        format: &str,
        stream: &Option<Stream>,
        channels: u32,
        duration: i64,
        genre: &str,
        track_number: u32,
    ) -> (r: AudioUpdate)
        ensures
            ({
                let rate = match *stream {
                    Some(s) => signed(s.sample_rate) as int,
                    None => 0,
                };
                let bits = match *stream {
                    Some(s) => signed(s.depth) as int,
                    None => 0,
                };
                &&& final(self)@ == (Known {
                    audio: Some(
                        Audio {
                            format: format@,
                            sample_rate: rate,
                            bits_per_sample: bits,
                            bitrate: kilobits(*stream),
                            duration: duration as int,
                            channels: match *stream {
                                Some(_) => signed(channels) as int,
                                None => 0,
                            },
                            genre: genre@,
                            track_number: track_number as nat,
                        },
                    ),
                    ..old(self)@
                })
                &&& r.label@ == format_text(format@, kilobits(*stream), rate, bits)
                &&& r.hires == (rate >= 48000)
            }),
    {
        let sample_rate = sample_rate_of(stream);
        let bits = depth_of(stream);
        let bitrate = bitrate_of(stream);
        let heard: i32 = match stream {
            Some(_) => channels as i32,
            None => 0,
        };
        self.audio = Some(
            AudioTags {
                format: format.to_owned(),
                sample_rate,
                bits_per_sample: bits,
                bitrate,
                duration,
                channels: heard,
                genre: genre.to_owned(),
                track_number,
            },
        );
        AudioUpdate {
            label: format_label(format, bitrate, sample_rate, bits),
            hires: is_hires(sample_rate),
        }
    }

    /// Whether nothing is known.
    pub fn is_empty(&self) -> (r: bool)
        ensures
            r == (self@.path is None && self@.title.len() == 0 && self@.artist.len() == 0
                && self@.album.len() == 0 && self@.year.len() == 0 && self@.audio is None),
    {
        self.path.is_none() && self.title.as_str().is_empty() && self.artist.as_str().is_empty()
            && self.album.as_str().is_empty() && self.year.as_str().is_empty()
            && self.audio.is_none()
    }

    /// What is shown of the song.
    pub fn tag_rows(&self) -> (r: Vec<TagRow>)
        ensures
            lines_of(r@) == tag_lines(self@),
    {
        let mut r: Vec<TagRow> = Vec::new();
        r.push(TagRow { label: "Title", value: dash_or(self.title.as_str()) });
        r.push(TagRow { label: "Artist", value: dash_or(self.artist.as_str()) });
        r.push(TagRow { label: "Album", value: dash_or(self.album.as_str()) });
        r.push(TagRow { label: "Year", value: dash_or(self.year.as_str()) });
        let (genre, track) = match &self.audio {
            Some(a) => (dash_or(a.genre.as_str()), decimal(a.track_number as u64)),
            None => (DASH.to_owned(), DASH.to_owned()),
        };
        r.push(TagRow { label: "Genre", value: genre });
        r.push(TagRow { label: "Track", value: track });
        assert(lines_of(r@) =~= tag_lines(self@));
        r
    }

    /// What is shown of the sound of the song.
    pub fn audio_rows(&self) -> (r: Vec<TagRow>)
        ensures
            lines_of(r@) == audio_lines(self@),
    {
        let mut r: Vec<TagRow> = Vec::new();
        match &self.audio {
            Some(a) => {
                r.push(TagRow { label: "Format", value: a.format.clone() });
                r.push(TagRow { label: "Duration", value: duration_label(a.duration) });
                r.push(TagRow { label: "Sample Rate", value: amount_text(a.sample_rate, " Hz") });
                r.push(
                    TagRow { label: "Bit Depth", value: amount_text(a.bits_per_sample, "-bit") },
                );
                proof {
                    reveal_strlit("");
                }
                assert(""@ =~= Seq::<char>::empty());
                r.push(TagRow { label: "Channels", value: amount_text(a.channels, "") });
            },
            None => {
                r.push(TagRow { label: "Format", value: String::new() });
                r.push(TagRow { label: "Duration", value: DASH.to_owned() });
                r.push(TagRow { label: "Sample Rate", value: DASH.to_owned() });
                r.push(TagRow { label: "Bit Depth", value: DASH.to_owned() });
                r.push(TagRow { label: "Channels", value: DASH.to_owned() });
            },
        }
        assert(lines_of(r@) =~= audio_lines(self@));
        r
    }

    /// What is shown of the file of the song, where its path is known. The size is
    /// shown where it is known.
    pub fn file_rows(&self, size: Option<u64>) -> (r: Option<Vec<TagRow>>)
        ensures
            match r {
                Some(v) => self@.path matches Some(p) && lines_of(v@) == file_lines(
                    p,
                    match size {
                        Some(n) => Some(n as nat),
                        None => None,
                    },
                ),
                None => self@.path is None,
            },
    {
        match &self.path {
            Some(p) => {
                let mut r: Vec<TagRow> = Vec::new();
                r.push(TagRow { label: "Filename", value: base_name(p.as_str()) });
                r.push(TagRow { label: "Location", value: folder_of(p.as_str()) });
                if let Some(n) = size {
                    r.push(TagRow { label: "Size", value: size_label(n) });
                }
                assert(lines_of(r@) =~= file_lines(
                    p@,
                    match size {
                        Some(n) => Some(n as nat),
                        None => None,
                    },
                ));
                Some(r)
            },
            None => None,
        }
    }
}

} // verus!
