use folderplay::labels::{
    duration_label, format_label, format_time, grid_label, is_bad_bunny, is_hires, khz_label,
    quality_label, size_label, subtitle, whole_seconds, with_number, with_text,
};

#[test]
fn times_in_minutes_and_seconds() {
    assert_eq!(format_time(0), "0:00");
    assert_eq!(format_time(9), "0:09");
    assert_eq!(format_time(60), "1:00");
    assert_eq!(format_time(245), "4:05");
    assert_eq!(format_time(3599), "59:59");
    assert_eq!(format_time(36000), "600:00");
}

#[test]
fn durations_of_whole_seconds() {
    assert_eq!(whole_seconds(-5), 0);
    assert_eq!(whole_seconds(999_999_999), 0);
    assert_eq!(whole_seconds(245_700_000_000), 245);
    assert_eq!(duration_label(245_700_000_000), "4:05");
    assert_eq!(duration_label(1), "0:00");
    assert_eq!(duration_label(0), "\u{2014}");
    assert_eq!(duration_label(-1), "\u{2014}");
}

#[test]
fn kilohertz_as_fractions_are_printed() {
    let mut rate: u64 = 1;
    while rate < 400_000 {
        assert_eq!(khz_label(rate), format!("{}", rate as f64 / 1000.0));
        rate += 37;
    }
    assert_eq!(khz_label(44100), "44.1");
    assert_eq!(khz_label(48000), "48");
    assert_eq!(khz_label(11025), "11.025");
    assert_eq!(khz_label(8005), "8.005");
    assert_eq!(khz_label(22050), "22.05");
}

#[test]
fn quality_of_songs() {
    assert_eq!(quality_label("DSF", 0, 352800, 1), "DSD64");
    assert_eq!(quality_label("DFF", 0, 705600, 1), "DSD128");
    assert_eq!(quality_label("FLAC", 900, 44100, 0), "16-bit/44.1kHz");
    assert_eq!(quality_label("FLAC", 900, 96000, 24), "24-bit/96kHz");
    assert_eq!(quality_label("MP3", 320, 44100, 16), "320 kbps");
    assert_eq!(quality_label("FLAC", 900, 0, 24), "900 kbps");
    assert_eq!(quality_label("DSF", 0, 0, 1), "");
    assert_eq!(quality_label("MP3", 0, 44100, 16), "");
    assert_eq!(quality_label("flac", 0, 44100, 16), "");
}

#[test]
fn dsd_levels_as_fractions_round() {
    let mut rate: i32 = 1;
    while rate < 2_000_000 {
        let level = (rate as f64 * 8.0 / 44100.0).round() as i32;
        assert_eq!(quality_label("DSF", 0, rate, 1), format!("DSD{level}"));
        rate += 997;
    }
}

#[test]
fn formats_with_their_quality() {
    assert_eq!(format_label("FLAC", 0, 44100, 16), "FLAC \u{2022} 16-bit/44.1kHz");
    assert_eq!(format_label("MP3", 320, 44100, 0), "MP3 \u{2022} 320 kbps");
    assert_eq!(format_label("OGG", 0, 44100, 0), "OGG");
}

#[test]
fn high_resolution_begins_at_48_kilohertz() {
    assert!(is_hires(48000));
    assert!(is_hires(96000));
    assert!(!is_hires(47999));
    assert!(!is_hires(0));
}

#[test]
fn long_names_are_cut_in_the_grid() {
    assert_eq!(grid_label("short"), "short");
    assert_eq!(grid_label("12345678901234567890"), "12345678901234567890");
    assert_eq!(grid_label("123456789012345678901"), "12345678901234567890\u{2026}");
    assert_eq!(grid_label("ñññññññññññññññññññññ"), "ññññññññññññññññññññ\u{2026}");
}

#[test]
fn subtitles_of_what_is_known() {
    assert_eq!(subtitle("A", "B", "1999"), "A \u{2014} B \u{2014} 1999");
    assert_eq!(subtitle("A", "", "1999"), "A \u{2014} 1999");
    assert_eq!(subtitle("", "B", ""), "B");
    assert_eq!(subtitle("", "", "1999"), "1999");
    assert_eq!(subtitle("", "", ""), "");
}

#[test]
fn sizes_in_kilobytes_and_megabytes() {
    assert_eq!(size_label(0), "0 KB");
    assert_eq!(size_label(1023), "0 KB");
    assert_eq!(size_label(1024), "1 KB");
    assert_eq!(size_label(1048575), "1023 KB");
    assert_eq!(size_label(1048576), "1.0 MB");
    let mut size: u64 = 1048576;
    while size < 400_000_000 {
        assert_eq!(size_label(size), format!("{:.1} MB", size as f64 / (1024.0 * 1024.0)));
        size += 131072 * 7 + 1;
    }
    let mut quarter: u64 = 4;
    while quarter < 400 {
        let size = quarter * 262144;
        assert_eq!(size_label(size), format!("{:.1} MB", size as f64 / (1024.0 * 1024.0)));
        quarter += 1;
    }
}

#[test]
fn the_artist_that_can_be_hidden() {
    assert!(is_bad_bunny("Bad Bunny"));
    assert!(is_bad_bunny("J Balvin & BAD BUNNY"));
    assert!(!is_bad_bunny("Bad Bunnies"));
    assert!(!is_bad_bunny(""));
}

#[test]
fn templates_are_filled() {
    assert_eq!(with_number("{n} songs", 12), "12 songs");
    assert_eq!(with_number("{n}{n} {m}", 7), "77 {m}");
    assert_eq!(with_number("none", 7), "none");
    assert_eq!(with_text("folder ({}) and {}", "~/Music"), "folder (~/Music) and ~/Music");
}
