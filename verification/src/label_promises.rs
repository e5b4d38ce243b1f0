//! What is promised of the texts that songs are shown with.
use crate::file_item::Item;
use crate::labels::{
    dsd_level, duration_text, format_text, hidden_artist, kilohertz, lossless_format, quality_text,
    rounded, short_name, size_text, subtitle_text, thousandths, time_text, two_digits,
    LOSSLESS_FORMATS,
};
use crate::palette::{background_text, layer_text};
use crate::paths::{file_name, or_empty, parent_path, path_stem};
use crate::play_promises::{first_place_is_found, missing_place_is_not_found};
use crate::player::{
    begin_orders, config_text, notice_orders, noticed, output_orders, rates_text, stop_orders,
    Command, Device, Machine, Motion, HIFI_RATES, STD_RATES,
};
use crate::queue::{mode_index, RepeatMode, REPEAT_ICONS, REPEAT_NAMES};
use crate::rows::{layout_of, paths_of, row_of, scroll_place};
use crate::tags::{audio_lines, file_lines, tag_lines, Audio, Known};
use crate::text::{digit, digits, filled, joined, lowercase};
use crate::text_promises::{filled_parts_are_left, joining_puts_between, parts_stand_between};
use vstd::prelude::*;

verus! {

/// An artist can be hidden where the name, in lowercase, holds "bad bunny" anywhere.
pub proof fn hidden_artist_holds_the_name(artist: Seq<char>)
    ensures
        hidden_artist(artist) <==> artist.len() > 0 && exists|a: Seq<char>, b: Seq<char>|
            lowercase(artist) == #[trigger] (a + "bad bunny"@ + b),
{
    parts_stand_between(lowercase(artist), "bad bunny"@);
}

/// A number below a hundred has two digits.
pub proof fn two_digits_are_two(tens: nat, ones: nat)
    requires
        tens < 10,
        ones < 10,
    ensures
        two_digits(10 * tens + ones) == seq![digit(tens), digit(ones)],
{
    reveal_strlit("0");
    assert("0"@ =~= seq!['0']);
    let n = 10 * tens + ones;
    if tens == 0 {
        assert(two_digits(n) =~= seq![digit(0), digit(ones)]);
    } else {
        assert(n / 10 == tens && n % 10 == ones);
        assert(digits(tens) == seq![digit(tens)]);
        assert(digits(n) =~= seq![digit(tens), digit(ones)]);
    }
}

/// A time shows its minutes, a colon, and its seconds with two digits.
pub proof fn times_show_minutes_and_seconds(minutes: nat, tens: nat, ones: nat)
    requires
        tens < 6,
        ones < 10,
    ensures
        time_text(60 * minutes + 10 * tens + ones) == digits(minutes) + seq![
            ':',
            digit(tens),
            digit(ones),
        ],
{
    reveal_strlit(":");
    assert(":"@ =~= seq![':']);
    let secs = 60 * minutes + 10 * tens + ones;
    assert(secs / 60 == minutes && secs % 60 == 10 * tens + ones);
    two_digits_are_two(tens, ones);
    assert(time_text(secs) =~= digits(minutes) + seq![':', digit(tens), digit(ones)]);
}

/// A duration is shown in whole seconds; one that is not known is shown as a dash.
pub proof fn durations_show_whole_seconds(secs: nat, rest: nat)
    requires
        rest < 1_000_000_000,
        secs > 0 || rest > 0,
    ensures
        duration_text((1_000_000_000 * secs + rest) as int) == time_text(secs),
        forall|ns: int| ns <= 0 ==> #[trigger] duration_text(ns) == "\u{2014}"@,
{
    let ns = 1_000_000_000 * secs + rest;
    assert(ns / 1_000_000_000 == secs);
}

/// A sample rate is shown in kilohertz, with the decimals that it has and no zeros behind
/// them.
pub proof fn rates_show_kilohertz(whole: nat, a: nat, b: nat, c: nat)
    requires
        a < 10,
        b < 10,
        c < 10,
    ensures
        kilohertz(1000 * whole + 100 * a + 10 * b + c) == digits(whole) + if c > 0 {
            seq!['.', digit(a), digit(b), digit(c)]
        } else if b > 0 {
            seq!['.', digit(a), digit(b)]
        } else if a > 0 {
            seq!['.', digit(a)]
        } else {
            Seq::empty()
        },
{
    let n = 100 * a + 10 * b + c;
    let rate = 1000 * whole + n;
    assert(rate / 1000 == whole && rate % 1000 == n);
    reveal_strlit(".");
    reveal_strlit(".0");
    assert("."@ =~= seq!['.']);
    assert(".0"@ =~= seq!['.', '0']);
    if c > 0 {
        assert(n % 10 == c);
        assert(n % 100 == 10 * b + c);
        if a == 0 {
            two_digits_are_two(b, c);
            assert(thousandths(n) =~= seq!['.', digit(a), digit(b), digit(c)]);
        } else {
            assert(n / 10 == 10 * a + b);
            assert((10 * a + b) / 10 == a && (10 * a + b) % 10 == b);
            assert(digits(a) == seq![digit(a)]);
            assert(digits(10 * a + b) =~= seq![digit(a), digit(b)]);
            assert(digits(n) =~= seq![digit(a), digit(b), digit(c)]);
            assert(thousandths(n) =~= seq!['.', digit(a), digit(b), digit(c)]);
        }
    } else if b > 0 {
        assert(n % 10 == 0 && n % 100 == 10 * b && n / 10 == 10 * a + b);
        two_digits_are_two(a, b);
        assert(thousandths(n) =~= seq!['.', digit(a), digit(b)]);
    } else if a > 0 {
        assert(n % 100 == 0 && n / 100 == a);
        assert(digits(a) == seq![digit(a)]);
        assert(thousandths(n) =~= seq!['.', digit(a)]);
    }
}

/// The formats that keep all of the sound.
pub proof fn lossless_formats_are_these(format: Seq<char>)
    ensures
        lossless_format(format) <==> {
            ||| format == "FLAC"@
            ||| format == "WAV"@
            ||| format == "AIFF"@
            ||| format == "AIF"@
            ||| format == "APE"@
            ||| format == "WV"@
        },
{
    assert(LOSSLESS_FORMATS@[0]@ == "FLAC"@);
    assert(LOSSLESS_FORMATS@[1]@ == "WAV"@);
    assert(LOSSLESS_FORMATS@[2]@ == "AIFF"@);
    assert(LOSSLESS_FORMATS@[3]@ == "AIF"@);
    assert(LOSSLESS_FORMATS@[4]@ == "APE"@);
    assert(LOSSLESS_FORMATS@[5]@ == "WV"@);
}

/// The level of a format of single bits is the nearest one.
pub proof fn levels_are_the_nearest(rate: nat)
    ensures
        88200 * dsd_level(rate) <= 16 * rate + 44100 < 88200 * (dsd_level(rate) + 1),
{
}

/// How good a song sounds: formats of single bits show their level, formats that keep all of
/// the sound show bits and kilohertz, others their bitrate. What is not known is not shown.
pub proof fn quality_shows_what_matters(
    format: Seq<char>,
    bitrate: int,
    sample_rate: int,
    bits: int,
)
    ensures
        (format == "DSF"@ || format == "DFF"@) && sample_rate > 0 ==> quality_text(
            format,
            bitrate,
            sample_rate,
            bits,
        ) == "DSD"@ + digits(dsd_level(sample_rate as nat)),
        lossless_format(format) && sample_rate > 0 && bits > 0 ==> quality_text(
            format,
            bitrate,
            sample_rate,
            bits,
        ) == digits(bits as nat) + "-bit/"@ + kilohertz(sample_rate as nat) + "kHz"@,
        lossless_format(format) && sample_rate > 0 && bits <= 0 ==> quality_text(
            format,
            bitrate,
            sample_rate,
            bits,
        ) == digits(16) + "-bit/"@ + kilohertz(sample_rate as nat) + "kHz"@,
        !(format == "DSF"@ || format == "DFF"@) && !lossless_format(format) && bitrate > 0
            ==> quality_text(format, bitrate, sample_rate, bits) == digits(bitrate as nat)
            + " kbps"@,
        sample_rate <= 0 && bitrate > 0 ==> quality_text(format, bitrate, sample_rate, bits)
            == digits(bitrate as nat) + " kbps"@,
        sample_rate <= 0 && bitrate <= 0 ==> quality_text(format, bitrate, sample_rate, bits)
            == Seq::<char>::empty(),
{
    reveal_strlit("DSF");
    reveal_strlit("DFF");
    reveal_strlit("FLAC");
    reveal_strlit("WAV");
    reveal_strlit("AIFF");
    reveal_strlit("AIF");
    reveal_strlit("APE");
    reveal_strlit("WV");
    lossless_formats_are_these(format);
    assert("DSF"@[0] == 'D' && "DFF"@[0] == 'D');
    assert("WAV"@[0] == 'W' && "AIF"@[0] == 'A' && "APE"@[0] == 'A');
}

/// The format comes first, then a bullet and how good the song sounds, where that is known.
pub proof fn formats_come_before_quality(
    format: Seq<char>,
    bitrate: int,
    sample_rate: int,
    bits: int,
)
    ensures
        ({
            let quality = quality_text(format, bitrate, sample_rate, bits);
            let text = format_text(format, bitrate, sample_rate, bits);
            &&& quality.len() > 0 ==> text == format + " \u{2022} "@ + quality
            &&& quality.len() == 0 ==> text == format
        }),
{
}

/// A name of up to twenty characters is shown whole; of a longer one the first twenty, and
/// that it goes on.
pub proof fn long_names_are_cut(name: Seq<char>)
    ensures
        name.len() <= 20 ==> short_name(name) == name,
        name.len() > 20 ==> short_name(name).len() == 21 && short_name(name).take(20) == name.take(
            20,
        ) && short_name(name)[20] == '\u{2026}',
{
    reveal_strlit("\u{2026}");
    if name.len() > 20 {
        assert(short_name(name).take(20) =~= name.take(20));
    }
}

/// What stands below a title: artist, album and year, as far as they are known, with dashes
/// between them.
pub proof fn subtitles_show_what_is_known(artist: Seq<char>, album: Seq<char>, year: Seq<char>)
    ensures
        ({
            let none = Seq::<char>::empty();
            let dash = " \u{2014} "@;
            &&& subtitle_text(none, none, none) == none
            &&& subtitle_text(artist, none, none) == artist
            &&& subtitle_text(none, album, none) == album
            &&& subtitle_text(none, none, year) == year
            &&& artist.len() > 0 && album.len() > 0 ==> subtitle_text(artist, album, none) == artist
                + dash + album
            &&& artist.len() > 0 && year.len() > 0 ==> subtitle_text(artist, none, year) == artist
                + dash + year
            &&& album.len() > 0 && year.len() > 0 ==> subtitle_text(none, album, year) == album
                + dash + year
            &&& artist.len() > 0 && album.len() > 0 && year.len() > 0 ==> subtitle_text(
                artist,
                album,
                year,
            ) == artist + dash + album + dash + year
        }),
{
    let none = Seq::<char>::empty();
    three_parts(none, none, none);
    three_parts(artist, none, none);
    three_parts(none, album, none);
    three_parts(none, none, year);
    three_parts(artist, album, none);
    three_parts(artist, none, year);
    three_parts(none, album, year);
    three_parts(artist, album, year);
}

proof fn three_parts(a: Seq<char>, b: Seq<char>, c: Seq<char>)
    ensures
        subtitle_text(a, b, c) == {
            let dash = " \u{2014} "@;
            let ab = if a.len() > 0 && b.len() > 0 {
                a + dash + b
            } else if a.len() > 0 {
                a
            } else {
                b
            };
            if ab.len() > 0 && c.len() > 0 {
                ab + dash + c
            } else if ab.len() > 0 {
                ab
            } else {
                c
            }
        },
{
    let dash = " \u{2014} "@;
    reveal_strlit(" \u{2014} ");
    let none = Seq::<Seq<char>>::empty();
    let one = none.push(a);
    let two = one.push(b);
    let three = two.push(c);
    assert(three =~= seq![a, b, c]);
    filled_parts_are_left(none, a);
    filled_parts_are_left(one, b);
    filled_parts_are_left(two, c);
    let f1 = filled(one);
    let f2 = filled(two);
    let f3 = filled(three);
    assert(f1 =~= if a.len() > 0 {
        seq![a]
    } else {
        none
    });
    joining_puts_between(f1, b, dash);
    joining_puts_between(f2, c, dash);
    if a.len() == 0 && b.len() > 0 {
        assert(f2 =~= seq![b]);
    }
    if a.len() == 0 && b.len() == 0 && c.len() > 0 {
        assert(f3 =~= seq![c]);
    }
    if a.len() == 0 && b.len() == 0 && c.len() == 0 {
        assert(f3 =~= none);
        assert(c =~= Seq::<char>::empty());
    }
}

/// A quotient is rounded to the nearest integer; halfway between two, to the even one.
pub proof fn quotients_are_rounded(a: nat, b: nat)
    requires
        b > 0,
    ensures
        2 * (b * rounded(a, b)) <= 2 * a + b,
        2 * a <= 2 * (b * rounded(a, b)) + b,
        2 * (b * rounded(a, b)) == 2 * a + b || 2 * a == 2 * (b * rounded(a, b)) + b ==> rounded(
            a,
            b,
        ) % 2 == 0,
{
    let low = a / b;
    assert(a == b * low + a % b) by {
        vstd::arithmetic::div_mod::lemma_fundamental_div_mod(a as int, b as int);
    }
    assert(0 <= a % b < b) by {
        vstd::arithmetic::div_mod::lemma_mod_bound(a as int, b as int);
    }
    assert(b * (low + 1) == b * low + b) by (nonlinear_arith);
}

/// The size of a file: below a megabyte in whole kilobytes, else in megabytes with one
/// decimal, rounded.
pub proof fn sizes_are_shown(size: nat) -> (tenths: nat)
    ensures
        size < 1_048_576 ==> size_text(size) == digits(size / 1024) + " KB"@,
        size >= 1_048_576 ==> {
            &&& size_text(size) == digits(tenths / 10) + "."@ + digits(tenths % 10) + " MB"@
            &&& 2_097_152 * tenths <= 20 * size + 1_048_576
            &&& 20 * size <= 2_097_152 * tenths + 1_048_576
        },
{
    let tenths = rounded(size * 10, 0x10_0000);
    quotients_are_rounded(size * 10, 0x10_0000);
    let whole: nat = 0x10_0000;
    assert(2 * (whole * tenths) <= 2 * (size * 10) + whole);
    assert(2 * (size * 10) <= 2 * (whole * tenths) + whole);
    assert(whole * tenths == 1_048_576 * tenths);
    tenths
}

/// The row of a song shows what its entry says: title or name without the extension, artist
/// where it is known, format, quality and duration. It is marked from 48 kHz on. Only the
/// song that is played is marked as such, with the icon of its mode where it is repeated.
pub proof fn rows_show_their_entries<T>(item: Item<T>, now_playing: bool, mode: RepeatMode)
    ensures
        ({
            let row = row_of(item, now_playing, mode);
            &&& item.title.len() > 0 ==> row.title == item.title
            &&& item.title.len() == 0 ==> row.title == path_stem(item.name)
            &&& item.artist.len() > 0 ==> row.artist == Some(item.artist)
            &&& item.artist.len() == 0 ==> row.artist is None
            &&& row.format == item.format_type
            &&& row.hires == (item.sample_rate >= 48000)
            &&& row.quality == quality_text(
                item.format_type,
                item.bitrate,
                item.sample_rate,
                item.bits_per_sample,
            )
            &&& row.duration == duration_text(item.duration)
            &&& row.now_playing == now_playing
            &&& row.badge == if now_playing && mode == RepeatMode::Once {
                Some("fp-playlist-repeat-song-symbolic"@)
            } else if now_playing && mode == RepeatMode::Loop {
                Some("fp-playlist-repeat-symbolic"@)
            } else {
                None
            }
        }),
{
}

/// The icons and the names of the modes.
pub proof fn modes_have_icons_and_names()
    ensures
        REPEAT_ICONS@[mode_index(RepeatMode::Consecutive)]@ == "fp-playlist-consecutive-symbolic"@,
        REPEAT_ICONS@[mode_index(RepeatMode::Once)]@ == "fp-playlist-repeat-song-symbolic"@,
        REPEAT_ICONS@[mode_index(RepeatMode::Loop)]@ == "fp-playlist-repeat-symbolic"@,
        REPEAT_NAMES@[mode_index(RepeatMode::Consecutive)]@ == "Consecutive"@,
        REPEAT_NAMES@[mode_index(RepeatMode::Once)]@ == "Repeat Once"@,
        REPEAT_NAMES@[mode_index(RepeatMode::Loop)]@ == "Repeat Indefinitely"@,
{
}

/// A list begins at the first entry with the wanted path, or at its beginning where there is
/// none. Tiles are shown where they are wanted and all entries are folders.
pub proof fn lists_begin_at_the_wanted_entry<T>(items: Seq<Item<T>>, path: Seq<char>, i: int)
    requires
        items.len() > 0,
    ensures
        0 <= i < items.len() && items[i].path == path && (forall|j: int|
            0 <= j < i ==> (#[trigger] items[j]).path != path) ==> scroll_place(items, Some(path))
            == i,
        (forall|j: int| 0 <= j < items.len() ==> (#[trigger] items[j]).path != path)
            ==> scroll_place(items, Some(path)) == 0,
        scroll_place(items, None) == 0,
        layout_of(items, true, Some(path)) is None <==> forall|j: int|
            0 <= j < items.len() ==> (#[trigger] items[j]).is_folder,
        layout_of(items, false, Some(path)) == Some(scroll_place(items, Some(path))),
{
    let paths = paths_of(items);
    assert forall|j: int| 0 <= j < items.len() implies #[trigger] paths[j] == items[j].path by {}
    if 0 <= i < items.len() && items[i].path == path && (forall|j: int|
        0 <= j < i ==> (#[trigger] items[j]).path != path) {
        assert forall|j: int| 0 <= j < i implies #[trigger] paths[j] != path by {
            assert(items[j].path != path);
        }
        first_place_is_found(paths, path, i);
    }
    if forall|j: int| 0 <= j < items.len() ==> (#[trigger] items[j]).path != path {
        assert forall|j: int| 0 <= j < paths.len() implies #[trigger] paths[j] != path by {
            assert(items[j].path != path);
        }
        missing_place_is_not_found(paths, path);
    }
}

/// The lines of a song show each what they name; what is not known is shown as a dash.
pub proof fn tag_lines_show_what_they_name(known: Known)
    ensures
        ({
            let dash = "\u{2014}"@;
            let lines = tag_lines(known);
            &&& lines.len() == 6
            &&& lines[0].0 == "Title"@ && (known.title.len() > 0 ==> lines[0].1 == known.title)
            &&& lines[1].0 == "Artist"@ && (known.artist.len() > 0 ==> lines[1].1 == known.artist)
            &&& lines[2].0 == "Album"@ && (known.album.len() > 0 ==> lines[2].1 == known.album)
            &&& lines[3].0 == "Year"@ && (known.year.len() > 0 ==> lines[3].1 == known.year)
            &&& lines[4].0 == "Genre"@
            &&& lines[5].0 == "Track"@
            &&& known.audio matches Some(a) ==> (a.genre.len() > 0 ==> lines[4].1 == a.genre)
                && lines[5].1 == digits(a.track_number)
            &&& known.audio matches Some(a) ==> (a.genre.len() == 0 ==> lines[4].1 == dash)
            &&& known.title.len() == 0 ==> lines[0].1 == dash
            &&& known.artist.len() == 0 ==> lines[1].1 == dash
            &&& known.album.len() == 0 ==> lines[2].1 == dash
            &&& known.year.len() == 0 ==> lines[3].1 == dash
            &&& known.audio is None ==> lines[4].1 == dash && lines[5].1 == dash
        }),
{
}

/// The lines of the sound of a song show each what they name.
pub proof fn audio_lines_show_what_they_name(known: Known, a: Audio)
    requires
        known.audio == Some(a),
    ensures
        ({
            let dash = "\u{2014}"@;
            let lines = audio_lines(known);
            &&& lines.len() == 5
            &&& lines[0] == ("Format"@, a.format)
            &&& lines[1] == ("Duration"@, duration_text(a.duration))
            &&& lines[2].0 == "Sample Rate"@
            &&& lines[3].0 == "Bit Depth"@
            &&& lines[4].0 == "Channels"@
            &&& a.sample_rate > 0 ==> lines[2].1 == digits(a.sample_rate as nat) + " Hz"@
            &&& a.bits_per_sample > 0 ==> lines[3].1 == digits(a.bits_per_sample as nat)
                + "-bit"@
            &&& a.channels > 0 ==> lines[4].1 == digits(a.channels as nat)
            &&& a.sample_rate <= 0 ==> lines[2].1 == dash
            &&& a.bits_per_sample <= 0 ==> lines[3].1 == dash
            &&& a.channels <= 0 ==> lines[4].1 == dash
        }),
{
    assert(digits(a.channels as nat) + Seq::<char>::empty() =~= digits(a.channels as nat));
}

/// The lines of the file of a song show its name, its folder and, where it is known, its size.
pub proof fn file_lines_show_what_they_name(path: Seq<char>, size: nat)
    ensures
        file_lines(path, None) == seq![
            ("Filename"@, or_empty(file_name(path))),
            ("Location"@, or_empty(parent_path(path))),
        ],
        file_lines(path, Some(size)) == seq![
            ("Filename"@, or_empty(file_name(path))),
            ("Location"@, or_empty(parent_path(path))),
            ("Size"@, size_text(size)),
        ],
{
    assert(file_lines(path, Some(size)) =~= seq![
        ("Filename"@, or_empty(file_name(path))),
        ("Location"@, or_empty(parent_path(path))),
        ("Size"@, size_text(size)),
    ]);
}

/// The rates that the sound system is to allow.
pub proof fn rates_are_these()
    ensures
        STD_RATES@ == seq![44100u32, 48000],
        HIFI_RATES@ == seq![44100u32, 48000, 88200, 96000, 176400, 192000, 352800, 384000],
{
    assert(STD_RATES@ =~= seq![44100u32, 48000]);
    assert(HIFI_RATES@ =~= seq![44100u32, 48000, 88200, 96000, 176400, 192000, 352800, 384000]);
}

/// Rates are listed in brackets, with commas between them.
pub proof fn rates_are_listed_in_brackets(rates: Seq<u32>, more: u32)
    requires
        rates.len() > 0,
    ensures
        rates_text(seq![more]) == "[ "@ + digits(more as nat) + " ]"@,
        exists|list: Seq<char>|
            {
                &&& rates_text(rates) == #[trigger] ("[ "@ + list + " ]"@)
                &&& rates_text(rates.push(more)) == "[ "@ + (list + ", "@ + digits(more as nat))
                    + " ]"@
            },
        config_text()
            == "# Added by FolderPlay for Hi-Res playback\ncontext.properties = {\ndefault.clock.allowed-rates = "@
            + rates_text(HIFI_RATES@) + "\n}\n"@,
{
    let f = |r: u32| digits(r as nat);
    let parts = rates.map_values(f);
    assert(rates.push(more).map_values(f) =~= parts.push(digits(more as nat)));
    joining_puts_between(parts, digits(more as nat), ", "@);
    assert(seq![more].map_values(f) =~= seq![digits(more as nat)]);
    let list = joined(parts, ", "@);
    assert(rates_text(rates) == "[ "@ + list + " ]"@);
}

/// A song begins by being put in and then set to sound; a player that stops falls silent
/// first, and the position is not asked for any more.
pub proof fn songs_begin_and_stop_in_order(m: Machine, uri: Seq<char>)
    ensures
        begin_orders(uri) == seq![Command::Load(uri), Command::Go(Motion::Playing)],
        stop_orders(m)[0] == Command::Go(Motion::Null),
        m.watching <==> stop_orders(m).contains(Command::Unwatch),
        stop_orders(m).len() <= 2,
{
    if m.watching {
        assert(stop_orders(m)[1] == Command::Unwatch);
    }
}

/// When a song begins to sound the position is asked for from then on, and all listeners hear
/// of it; when it ends to sound, no more.
pub proof fn listeners_hear_of_changes(m: Machine)
    ensures
        !m.is_playing && !m.watching ==> notice_orders(m, true) == seq![
            Command::Watch,
            Command::TellState(true),
        ],
        m.is_playing && m.watching ==> notice_orders(m, false) == seq![
            Command::Unwatch,
            Command::TellState(false),
        ],
{
}

/// The standard output allows the common rates and goes through the common sink.
pub proof fn standard_output_is_common(pipewire: bool, alsa: bool)
    ensures
        output_orders("standard"@, pipewire, alsa) == seq![
            Command::Allow(rates_text(STD_RATES@)),
            Command::CommonSink,
        ],
{
    reveal_strlit("hifi");
    reveal_strlit("standard");
    assert("hifi"@.len() != "standard"@.len());
}

/// The background has a layer for each of the first three colours, each with its channels as
/// red, green and blue; with fewer colours there is none.
pub proof fn backgrounds_show_three_colours(colours: Seq<(u8, u8, u8)>)
    ensures
        colours.len() >= 3 ==> background_text(Some(colours)) == ".album-bg {background:"@
            + layer_text("127"@, colours[0]) + ","@ + layer_text("217"@, colours[1]) + ","@
            + layer_text("336"@, colours[2]) + ";}"@,
        colours.len() < 3 ==> background_text(Some(colours)) == Seq::<char>::empty(),
        background_text(None) == Seq::<char>::empty(),
        forall|degrees: Seq<char>, c: (u8, u8, u8)| #[trigger]
            layer_text(degrees, c) == "linear-gradient("@ + degrees + "deg,rgba("@ + (digits(
                c.0 as nat,
            ) + ","@ + digits(c.1 as nat) + ","@ + digits(c.2 as nat)) + ",0.55),rgba("@ + (digits(
                c.0 as nat,
            ) + ","@ + digits(c.1 as nat) + ","@ + digits(c.2 as nat)) + ",0.0) 70.71%)"@,
{
}

/// The output of high quality allows all rates and goes straight to PipeWire, or to ALSA where
/// there is no PipeWire; without either the sink stays as it is.
pub proof fn hifi_output_goes_straight(alsa: bool)
    ensures
        output_orders("hifi"@, true, alsa) == seq![
            Command::Allow(rates_text(HIFI_RATES@)),
            Command::WriteConfig,
            Command::DirectSink(Device::PipeWire),
        ],
        output_orders("hifi"@, false, true) == seq![
            Command::Allow(rates_text(HIFI_RATES@)),
            Command::WriteConfig,
            Command::DirectSink(Device::Alsa),
        ],
        output_orders("hifi"@, false, false) == seq![
            Command::Allow(rates_text(HIFI_RATES@)),
            Command::WriteConfig,
        ],
{
    assert(output_orders("hifi"@, true, alsa) =~= seq![
        Command::Allow(rates_text(HIFI_RATES@)),
        Command::WriteConfig,
        Command::DirectSink(Device::PipeWire),
    ]);
    assert(output_orders("hifi"@, false, true) =~= seq![
        Command::Allow(rates_text(HIFI_RATES@)),
        Command::WriteConfig,
        Command::DirectSink(Device::Alsa),
    ]);
}

/// What sounds is known from when it is noticed, and the position is asked for just as long; the
/// song stays the same, and what is noticed twice changes nothing.
pub proof fn notices_are_kept(m: Machine, playing: bool)
    requires
        m.watching == m.is_playing,
    ensures
        noticed(m, playing).is_playing == playing,
        noticed(m, playing).watching == playing,
        noticed(m, playing).uri == m.uri,
        noticed(noticed(m, playing), playing) == noticed(m, playing),
        notice_orders(noticed(m, playing), playing).len() == 0,
{
}

/// A list without entries is no grid of tiles, and begins at its beginning.
pub proof fn empty_lists_have_no_tiles<T>(items: Seq<Item<T>>, grid: bool, path: Option<Seq<char>>)
    requires
        items.len() == 0,
    ensures
        layout_of(items, grid, path) == Some(0int),
{
    if path is Some {
        missing_place_is_not_found(paths_of(items), path->0);
    }
}

/// As long as it is not known how a song sounds its lines are there, without a format and with
/// dashes; so are the lines of its genre and its track.
pub proof fn unknown_audio_shows_dashes(known: Known)
    requires
        known.audio is None,
    ensures
        audio_lines(known) == seq![
            ("Format"@, ""@),
            ("Duration"@, "\u{2014}"@),
            ("Sample Rate"@, "\u{2014}"@),
            ("Bit Depth"@, "\u{2014}"@),
            ("Channels"@, "\u{2014}"@),
        ],
        tag_lines(known)[4] == ("Genre"@, "\u{2014}"@),
        tag_lines(known)[5] == ("Track"@, "\u{2014}"@),
{
    reveal_strlit("");
    assert(""@ =~= Seq::<char>::empty());
}

} // verus!
