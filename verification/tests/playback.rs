use folderplay::queue::{next_with_folder, Queue, RepeatMode};

fn queue(songs: &[&str]) -> Queue {
    let mut q = Queue::new();
    q.set_playlist(songs.iter().map(|s| s.to_string()).collect());
    q
}

fn text(s: &str) -> Option<String> {
    Some(s.to_string())
}

#[test]
fn going_on_passes_through_all_songs() {
    let mut q = queue(&["/a/1", "/a/2", "/b/3"]);
    assert_eq!(q.len(), 3);
    assert_eq!(q.current_song(), None);
    assert_eq!(q.play_next(), text("/a/1"));
    assert_eq!(q.play_next(), text("/a/2"));
    assert_eq!(q.play_next(), text("/b/3"));
    assert_eq!(q.play_next(), text("/a/1"));
    assert_eq!(queue(&[]).play_next(), None);
}

#[test]
fn going_back_undoes_going_on() {
    let mut q = queue(&["/a/1", "/a/2", "/b/3"]);
    assert!(q.can_go_back());
    assert_eq!(q.play_prev(), text("/b/3"));
    assert_eq!(q.play_prev(), text("/a/2"));
    assert_eq!(q.play_next(), text("/b/3"));
    assert_eq!(q.play_next(), text("/a/1"));
    assert_eq!(q.play_prev(), text("/b/3"));
    assert_eq!(queue(&[]).play_prev(), None);
    assert!(!queue(&[]).can_go_back());
}

#[test]
fn a_place_behind_the_songs() {
    let mut q = queue(&["/a/1", "/a/2", "/b/3"]);
    q.start("/b/3");
    q.set_playlist(vec!["/a/1".to_string()]);
    assert_eq!(q.current_song(), None);
    assert!(!q.can_go_back());
    assert!(!q.is_now_playing("/b/3"));
    assert_eq!(q.on_song_finished(), None);
    assert_eq!(q.play_next(), text("/a/1"));
    q.set_playlist(vec!["/a/1".to_string(), "/a/2".to_string()]);
    q.start("/a/2");
    q.set_playlist(vec!["/a/1".to_string()]);
    assert!(q.can_go_back());
    assert_eq!(q.play_prev(), text("/a/1"));
}

#[test]
fn songs_follow_each_other_in_their_folder() {
    let mut q = queue(&["/a/1", "/b/1", "/a/2", "/b/2", "/a/3"]);
    assert_eq!(q.on_song_finished(), None);
    q.start("/a/1");
    assert_eq!(q.on_song_finished(), text("/a/2"));
    assert_eq!(q.on_song_finished(), text("/a/3"));
    assert_eq!(q.on_song_finished(), text("/a/1"));
    q.start("/b/2");
    assert_eq!(q.on_song_finished(), text("/b/1"));
    let mut single = queue(&["/c/1", "/d/1"]);
    single.start("/c/1");
    assert_eq!(single.on_song_finished(), text("/c/1"));
}

#[test]
fn songs_are_repeated_once_or_for_ever() {
    let mut q = queue(&["/a/1", "/a/2"]);
    q.start("/a/1");
    assert_eq!(q.on_cycle_repeat(), RepeatMode::Once);
    assert_eq!(q.on_song_finished(), text("/a/1"));
    assert_eq!(q.repeat_mode(), RepeatMode::Consecutive);
    assert_eq!(q.on_song_finished(), text("/a/2"));
    q.on_cycle_repeat();
    assert_eq!(q.on_cycle_repeat(), RepeatMode::Loop);
    assert_eq!(q.on_song_finished(), text("/a/2"));
    assert_eq!(q.on_song_finished(), text("/a/2"));
    assert_eq!(q.on_cycle_repeat(), RepeatMode::Consecutive);
    let mut empty = queue(&[]);
    empty.on_cycle_repeat();
    assert_eq!(empty.on_song_finished(), None);
    assert_eq!(empty.repeat_mode(), RepeatMode::Consecutive);
}

#[test]
fn modes_have_icons_and_names() {
    assert_eq!(RepeatMode::Consecutive.icon(), "fp-playlist-consecutive-symbolic");
    assert_eq!(RepeatMode::Once.icon(), "fp-playlist-repeat-song-symbolic");
    assert_eq!(RepeatMode::Loop.icon(), "fp-playlist-repeat-symbolic");
    assert_eq!(RepeatMode::Consecutive.name(), "Consecutive");
    assert_eq!(RepeatMode::Once.name(), "Repeat Once");
    assert_eq!(RepeatMode::Loop.name(), "Repeat Indefinitely");
    assert_eq!(RepeatMode::Consecutive.badge(), None);
    assert_eq!(RepeatMode::Loop.badge(), Some("fp-playlist-repeat-symbolic"));
}

#[test]
fn a_song_that_starts_becomes_the_current_one() {
    let mut q = queue(&["/a/1", "/a/2", "/a/1"]);
    assert_eq!(q.start("/a/2"), None);
    assert!(q.is_now_playing("/a/2"));
    assert_eq!(q.start("/outside"), text("/a/2"));
    assert_eq!(q.playing_path(), text("/outside"));
    assert_eq!(q.current_song(), text("/a/2"));
    q.start("/a/1");
    assert_eq!(q.play_next(), text("/a/2"));
    q.clear();
    assert_eq!(q.len(), 0);
    assert_eq!(q.current_song(), None);
    assert_eq!(q.playing_path(), text("/a/1"));
}

#[test]
fn places_with_the_same_folder() {
    let dirs: Vec<String> = ["/a", "/b", "/a", "/c", "/b"].iter().map(|s| s.to_string()).collect();
    assert_eq!(next_with_folder(&dirs, 0), 2);
    assert_eq!(next_with_folder(&dirs, 2), 0);
    assert_eq!(next_with_folder(&dirs, 1), 4);
    assert_eq!(next_with_folder(&dirs, 4), 1);
    assert_eq!(next_with_folder(&dirs, 3), 3);
}
