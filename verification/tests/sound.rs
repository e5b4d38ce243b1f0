use folderplay::enrich::Stream;
use folderplay::player::{
    follows_position, hifi_config, rates_str, AudioPlayer, Device, Motion, Order, STD_RATES,
};
use folderplay::tags::{tags_matter, SongTags, TagRow};

fn show(orders: Vec<Order>) -> Vec<String> {
    orders
        .into_iter()
        .map(|o| match o {
            Order::Go(Motion::Null) => "null".to_string(),
            Order::Go(Motion::Paused) => "paused".to_string(),
            Order::Go(Motion::Playing) => "playing".to_string(),
            Order::Load(u) => format!("load {u}"),
            Order::Watch => "watch".to_string(),
            Order::Unwatch => "unwatch".to_string(),
            Order::TellState(b) => format!("state {b}"),
            Order::TellFinished => "finished".to_string(),
            Order::Allow(r) => format!("allow {r}"),
            Order::WriteConfig => "config".to_string(),
            Order::DirectSink(Device::PipeWire) => "pipewire".to_string(),
            Order::DirectSink(Device::Alsa) => "alsa".to_string(),
            Order::CommonSink => "common".to_string(),
        })
        .collect()
}

const ALL: &str = "allow [ 44100, 48000, 88200, 96000, 176400, 192000, 352800, 384000 ]";

#[test]
fn a_song_is_played_paused_and_stopped() {
    let mut p = AudioPlayer::new();
    assert!(show(p.toggle_play()).is_empty());
    assert!(show(p.play()).is_empty());
    assert_eq!(show(p.play_uri("file:///a")), ["null", "load file:///a", "playing"]);
    assert!(!p.is_playing());
    assert_eq!(show(p.on_state_changed(true)), ["watch", "state true"]);
    assert!(p.is_playing());
    assert!(show(p.on_state_changed(true)).is_empty());
    assert!(p.on_poll());
    assert_eq!(show(p.toggle_play()), ["paused"]);
    assert_eq!(show(p.on_state_changed(false)), ["unwatch", "state false"]);
    assert!(!p.on_poll());
    assert_eq!(show(p.toggle_play()), ["playing"]);
    assert_eq!(show(p.pause()), ["paused"]);
    p.on_state_changed(true);
    assert_eq!(show(p.stop()), ["null", "unwatch"]);
    assert!(!p.is_playing());
    assert_eq!(show(p.cleanup()), ["null"]);
}

#[test]
fn songs_end_and_fail() {
    let mut p = AudioPlayer::new();
    p.play_uri("u");
    p.on_state_changed(true);
    assert_eq!(show(p.on_end()), ["null", "unwatch", "finished"]);
    p.play_uri("u");
    p.on_state_changed(true);
    assert_eq!(show(p.on_error()), ["null", "unwatch"]);
    assert_eq!(show(p.play()), ["playing"]);
}

#[test]
fn outputs_are_set_up() {
    let mut p = AudioPlayer::new();
    for alsa in [false, true] {
        assert_eq!(show(p.set_audio_output("hifi", true, alsa)), [ALL, "config", "pipewire"]);
        assert_eq!(show(p.set_audio_output("auto", true, alsa)), [ALL, "config", "pipewire"]);
        assert_eq!(show(p.set_audio_output("auto", false, alsa)), ["common"]);
        assert_eq!(show(p.set_audio_output("", false, alsa)), ["common"]);
    }
    assert_eq!(show(p.set_audio_output("hifi", false, true)), [ALL, "config", "alsa"]);
    assert_eq!(show(p.set_audio_output("hifi", false, false)), [ALL, "config"]);
    for (pipewire, alsa) in [(false, false), (false, true), (true, false), (true, true)] {
        assert_eq!(
            show(p.set_audio_output("standard", pipewire, alsa)),
            ["allow [ 44100, 48000 ]", "common"]
        );
    }
    p.play_uri("u");
    p.on_state_changed(true);
    assert_eq!(
        show(p.set_audio_output("", false, true)),
        ["null", "unwatch", "common", "load u", "playing"]
    );
    assert!(!p.is_playing());
}

#[test]
fn rates_and_the_file_that_allows_them() {
    assert_eq!(rates_str(&STD_RATES), "[ 44100, 48000 ]");
    assert_eq!(rates_str(&[]), "[  ]");
    assert_eq!(
        hifi_config(),
        "# Added by FolderPlay for Hi-Res playback\n\
         context.properties = {\n\
         default.clock.allowed-rates = [ 44100, 48000, 88200, 96000, 176400, 192000, 352800, 384000 ]\n\
         }\n"
    );
}

#[test]
fn the_slider_follows_some_time_after_a_jump() {
    assert!(follows_position(800_001, 0, true));
    assert!(!follows_position(800_000, 0, true));
    assert!(!follows_position(900_000, 0, false));
    assert!(follows_position(i64::MAX, i64::MIN, true));
}

fn lines(rows: Vec<TagRow>) -> Vec<(String, String)> {
    rows.into_iter().map(|r| (r.label.to_string(), r.value)).collect()
}

fn line(label: &str, value: &str) -> (String, String) {
    (label.to_string(), value.to_string())
}

#[test]
fn tags_are_taken_over() {
    assert!(tags_matter("", "A", ""));
    assert!(!tags_matter("", "", ""));
    let mut tags = SongTags::new();
    assert!(tags.is_empty());
    tags = SongTags::of_path("/m/a.mp3");
    assert!(!tags.is_empty());
    let first = tags.on_tags("T", "A", "", "");
    assert_eq!(first.title, Some("T".to_string()));
    assert_eq!(first.subtitle, Some("A".to_string()));
    let second = tags.on_tags("", "", "", "1999");
    assert_eq!(second.title, None);
    assert_eq!(second.subtitle, Some("1999".to_string()));
    assert_eq!(tags.on_tags("", "", "", "").subtitle, None);
    assert_eq!(
        lines(tags.tag_rows()),
        vec![
            line("Title", "T"),
            line("Artist", "A"),
            line("Album", "\u{2014}"),
            line("Year", "1999"),
            line("Genre", "\u{2014}"),
            line("Track", "\u{2014}"),
        ]
    );
}

#[test]
fn sound_is_described() {
    let mut tags = SongTags::of_path("/m/a.flac");
    let before = lines(tags.audio_rows());
    assert_eq!(before[0], line("Format", ""));
    assert_eq!(before[4], line("Channels", "\u{2014}"));
    let stream = Some(Stream { bitrate: 900_500, sample_rate: 96000, depth: 24 });
    let shown = tags.on_audio_info("FLAC", &stream, 2, 245_700_000_000, "Jazz", 7);
    assert_eq!(shown.label, "FLAC \u{2022} 24-bit/96kHz");
    assert!(shown.hires);
    assert_eq!(
        lines(tags.audio_rows()),
        vec![
            line("Format", "FLAC"),
            line("Duration", "4:05"),
            line("Sample Rate", "96000 Hz"),
            line("Bit Depth", "24-bit"),
            line("Channels", "2"),
        ]
    );
    assert_eq!(lines(tags.tag_rows())[4], line("Genre", "Jazz"));
    assert_eq!(lines(tags.tag_rows())[5], line("Track", "7"));
    let none = tags.on_audio_info("MP3", &None, 2, 0, "", 0);
    assert_eq!(none.label, "MP3");
    assert!(!none.hires);
    assert_eq!(lines(tags.audio_rows())[1], line("Duration", "\u{2014}"));
    assert_eq!(lines(tags.audio_rows())[4], line("Channels", "\u{2014}"));
}

#[test]
fn files_are_described() {
    let tags = SongTags::of_path("/m/a.flac");
    assert_eq!(
        lines(tags.file_rows(Some(2048)).unwrap()),
        vec![line("Filename", "a.flac"), line("Location", "/m"), line("Size", "2 KB")]
    );
    assert_eq!(tags.file_rows(None).unwrap().len(), 2);
    assert!(SongTags::new().file_rows(Some(1)).is_none());
}
