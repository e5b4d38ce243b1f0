use folderplay::file_item::FileItem;
use folderplay::navigation::{Heading, Load, Navigation};
use folderplay::panel::{locate_on_start, Fit, Panel};
use folderplay::rows::Layout;
use folderplay::search::{
    action_for, jump_among, jump_to, on_key, on_search_changed, search_for, Key, KeyAction, SearchPlan,
};
use folderplay::window::{Choice, FolderplayWindow, ScanLabel};

fn strings(v: &[&str]) -> Vec<String> {
    v.iter().map(|s| s.to_string()).collect()
}

fn heading(h: Heading) -> String {
    match h {
        Heading::Folders => "Folders".to_string(),
        Heading::Folder => "Folder".to_string(),
        Heading::Named(s) => format!("<{s}>"),
        Heading::Search(s) => format!("?{s}"),
    }
}

fn load(l: Load) -> String {
    match l {
        Load::Nothing => "nothing".to_string(),
        Load::Folder(p) => format!("folder {p}"),
        Load::Folders(v) => format!("folders {}", v.join(",")),
        Load::Reset => "reset".to_string(),
        Load::Choose => "choose".to_string(),
    }
}

#[test]
fn folders_are_opened_and_left() {
    let two = strings(&["/m", "/n"]);
    let mut nav = Navigation::new();
    assert_eq!(load(nav.return_to_root(&two)), "folders /m,/n");
    assert_eq!(heading(nav.heading()), "Folders");
    assert!(!nav.back_visible());
    assert_eq!(load(nav.navigate_into("/m", "m")), "folder /m");
    assert_eq!(load(nav.navigate_into("/m/s", "s")), "folder /m/s");
    assert_eq!(heading(nav.heading()), "<s>");
    assert!(nav.back_visible());
    assert!(nav.has_trail());
    assert_eq!(load(nav.navigate_back(&two)), "folder /m");
    assert_eq!(heading(nav.heading()), "<m>");
    assert!(nav.back_visible());
    assert_eq!(load(nav.navigate_back(&two)), "folders /m,/n");
    assert_eq!(heading(nav.heading()), "Folders");
    assert_eq!(nav.current_folder(), None);
    assert!(!nav.back_visible());
    assert!(!nav.has_trail());
    assert_eq!(load(nav.navigate_back(&two)), "folders /m,/n");
    assert_eq!(load(nav.navigate_back(&strings(&["/m"]))), "nothing");
}

#[test]
fn one_folder_is_its_own_root() {
    let one = strings(&["/m"]);
    let mut nav = Navigation::new();
    assert_eq!(load(nav.navigate_home(&[].to_vec())), "choose");
    assert_eq!(load(nav.navigate_home(&one)), "folder /m");
    assert_eq!(heading(nav.heading()), "Folder");
    assert_eq!(nav.current_folder(), Some("/m".to_string()));
    assert_eq!(nav.scan_parent("/m"), None);
    assert_eq!(nav.scan_parent("/m/s"), Some("/m".to_string()));
    assert_eq!(load(nav.reload_current_view(&one)), "folder /m");
    assert_eq!(load(nav.return_to_root(&Vec::new())), "reset");
    assert_eq!(nav.scan_parent("/m/s"), None);
    assert_eq!(load(nav.reload_current_view(&one)), "folder /m");
    assert_eq!(load(nav.reload_current_view(&strings(&["/m", "/n"]))), "folders /m,/n");
    assert_eq!(load(nav.reload_current_view(&Vec::new())), "nothing");
}

#[test]
fn headings_follow_the_search() {
    let mut nav = Navigation::new();
    nav.set_search_heading("blue");
    assert_eq!(heading(nav.heading()), "?blue");
    nav.set_plain_heading();
    assert_eq!(heading(nav.heading()), "Folders");
    nav.return_to_root(&strings(&["/m"]));
    nav.set_plain_heading();
    assert_eq!(heading(nav.heading()), "<m>");
    nav.navigate_into("/m/s", "Some name");
    nav.set_plain_heading();
    assert_eq!(heading(nav.heading()), "<s>");
}

#[test]
fn the_folder_of_a_song_is_found() {
    let mut nav = Navigation::new();
    let two = strings(&["/m", "/n"]);
    assert_eq!(load(nav.on_locate_playing("/m/s/1.mp3", &two)), "folder /m/s");
    assert_eq!(heading(nav.heading()), "<s>");
    assert!(nav.back_visible());
    assert_eq!(nav.take_pending(), Some("/m/s/1.mp3".to_string()));
    assert_eq!(nav.take_pending(), None);
    assert_eq!(load(nav.navigate_back(&two)), "folders /m,/n");
    let one = strings(&["/m"]);
    assert_eq!(load(nav.on_locate_playing("/m/1.mp3", &one)), "folder /m");
    assert!(!nav.back_visible());
    assert_eq!(load(nav.on_locate_playing("/m/s/1.mp3", &one)), "folder /m/s");
    assert!(nav.back_visible());
    assert_eq!(load(nav.navigate_back(&one)), "folder /m");
    assert_eq!(heading(nav.heading()), "Folder");
    assert_eq!(load(nav.on_locate_playing("/m/1.mp3", &Vec::new())), "nothing");
}

#[test]
fn panels_fit_the_window() {
    let mut panel = Panel::new();
    assert_eq!(panel.check_auto_hide(0, true), None);
    assert_eq!(
        panel.check_auto_hide(899, true),
        Some(Fit { dock_visible: true, locate_visible: true, browse: Some(false) })
    );
    assert_eq!(
        panel.check_auto_hide(769, true),
        Some(Fit { dock_visible: false, locate_visible: false, browse: None })
    );
    assert_eq!(
        panel.check_auto_hide(900, false),
        Some(Fit { dock_visible: true, locate_visible: false, browse: Some(true) })
    );
    assert!(!panel.on_toggle_browse(false));
    assert_eq!(panel.check_auto_hide(1200, true).unwrap().browse, None);
    assert!(panel.on_toggle_browse(false));
    assert_eq!(panel, Panel::new());
    assert_eq!(locate_on_start(true, 1000), None);
    assert_eq!(locate_on_start(false, 770), Some(true));
    assert_eq!(locate_on_start(false, 769), Some(false));
}

#[test]
fn searches_by_length() {
    assert!(matches!(on_search_changed("  "), SearchPlan::Clear));
    assert!(matches!(on_search_changed(" B "), SearchPlan::Jump('b')));
    match on_search_changed("  Blue   MOON ") {
        SearchPlan::Find(q, words) => {
            assert_eq!(q, "blue   moon");
            assert_eq!(words, strings(&["blue", "moon"]));
        }
        _ => panic!("nothing to find"),
    }
}

#[test]
fn single_characters_jump() {
    let names = strings(&["", "alpha", "Beta", "bravo"]);
    assert_eq!(jump_to(&names, 'b'), Some(2));
    assert_eq!(jump_to(&names, 'a'), Some(1));
    assert_eq!(jump_to(&names, 'z'), None);
    assert_eq!(jump_to(&strings(&["Émile"]), 'é'), Some(0));
}

#[test]
fn keys_go_back_or_search() {
    assert!(matches!(on_key(true, false, Key::Backspace, "", true), KeyAction::Back));
    assert!(matches!(on_key(true, false, Key::Backspace, "x", true), KeyAction::Proceed));
    assert!(matches!(on_key(true, false, Key::Backspace, "", false), KeyAction::Proceed));
    assert!(matches!(on_key(true, true, Key::Backspace, "", true), KeyAction::Proceed));
    assert!(matches!(on_key(false, false, Key::Character('a'), "", true), KeyAction::Proceed));
    assert!(matches!(on_key(true, false, Key::Character('-'), "", true), KeyAction::Proceed));
    assert!(matches!(on_key(true, false, Key::Other, "", true), KeyAction::Proceed));
    match on_key(true, false, Key::Character('7'), "b", true) {
        KeyAction::Type(t) => assert_eq!(t, "b7"),
        _ => panic!("nothing was typed"),
    }
}

#[test]
fn files_from_outside_are_opened() {
    let mut win = FolderplayWindow::new();
    assert!(!win.open_file("/m/a.mp3", false));
    assert!(!win.open_file("/m/a.txt", true));
    assert!(!win.open_file("/m/mp3", true));
    assert!(!win.external);
    assert!(win.open_file("/m/a.Mp3", true));
    assert!(win.external);
}

#[test]
fn entries_are_chosen() {
    let mut win = FolderplayWindow::new();
    match win.on_list_activated("/m/s", "s", true) {
        Choice::Open(l) => assert_eq!(load(l), "folder /m/s"),
        Choice::Play(_) => panic!("a folder is opened"),
    }
    win.external = true;
    match win.on_list_activated("/m/a.mp3", "a.mp3", false) {
        Choice::Open(_) => panic!("a song is played"),
        Choice::Play(p) => assert_eq!(p, "/m/a.mp3"),
    }
    assert!(!win.external);
}

#[test]
fn a_song_begins_and_is_found_again() {
    let mut win = FolderplayWindow::new();
    let label = win.set_playlist(strings(&["/m/1.mp3", "/m/2.mp3"]), "{n} songs");
    assert_eq!(label, "2 songs");
    assert_eq!(win.set_playlist(Vec::new(), "{n} songs"), "");
    win.set_playlist(strings(&["/m/1.mp3", "/m/2.mp3"]), "{n} songs");
    assert!(win.on_locate_playing(&strings(&["/m"])).is_none());
    let started = win.play_file("/m/2.mp3");
    assert_eq!(started.title, "2");
    assert_eq!(started.before, None);
    assert_eq!(win.tags.path, Some("/m/2.mp3".to_string()));
    assert_eq!(win.queue.current_song(), Some("/m/2.mp3".to_string()));
    win.panel.on_toggle_browse(true);
    let (hidden, l) = win.on_locate_playing(&strings(&["/m"])).unwrap();
    assert!(hidden);
    assert_eq!(load(l), "folder /m");
    assert!(win.panel.browse_visible);
}

#[test]
fn the_library_is_loaded_and_emptied() {
    let mut win = FolderplayWindow::new();
    win.set_playlist(strings(&["/m/1.mp3"]), "{n}");
    win.play_file("/m/1.mp3");
    assert_eq!(load(win.load_all_folders(&strings(&["/m", "/n"]))), "folders /m,/n");
    assert_eq!(win.queue.len(), 0);
    assert_eq!(win.queue.current_song(), None);
    win.set_playlist(strings(&["/m/1.mp3"]), "{n}");
    win.start_scan_all_folders();
    assert_eq!(win.queue.len(), 0);
    assert_eq!(load(win.finish_scan_and_reload(&strings(&["/m"]))), "folder /m");
    win.reset_library();
    assert_eq!(win.nav.current_folder(), None);
    assert_eq!(load(win.load_all_folders(&Vec::new())), "reset");
}

#[test]
fn scans_are_reported() {
    assert!(matches!(FolderplayWindow::update_scan_progress(0), ScanLabel::Scanning));
    assert!(matches!(FolderplayWindow::update_scan_progress(3), ScanLabel::Found(3)));
    assert_eq!(FolderplayWindow::update_scan_covers_label(), "Reading covers\u{2026}");
}

#[test]
fn folders_of_songs_by_their_parts() {
    let mut nav = Navigation::new();
    let one = strings(&["/m"]);
    let song = "/m/s/1.mp3";
    let name = Some("s".to_string());
    assert_eq!(load(nav.go_to_folder(song, "/m/s".to_string(), name, &one)), "folder /m/s");
    assert_eq!(heading(nav.heading()), "<s>");
    assert_eq!(load(nav.go_to_folder("/1.mp3", "/".to_string(), None, &one)), "folder /");
    assert_eq!(heading(nav.heading()), "<s>");
    assert!(nav.back_visible());
    let two = strings(&["/m", "/n"]);
    assert_eq!(load(nav.go_to_folder("/1.mp3", "/".to_string(), None, &two)), "folder /");
    assert_eq!(heading(nav.heading()), "<>");
    assert_eq!(load(nav.navigate_back(&two)), "folders /m,/n");
}

#[test]
fn searches_by_their_parts() {
    assert!(matches!(search_for(String::new()), SearchPlan::Clear));
    assert!(matches!(search_for("b".to_string()), SearchPlan::Jump('b')));
    match search_for("blue moon".to_string()) {
        SearchPlan::Find(q, words) => {
            assert_eq!(q, "blue moon");
            assert_eq!(words, strings(&["blue", "moon"]));
        }
        _ => panic!("nothing to find"),
    }
    assert_eq!(jump_among(&vec![None, Some('a'), Some('b'), Some('b')], 'b'), Some(2));
    assert_eq!(jump_among(&vec![None, Some('a')], 'b'), None);
    assert!(matches!(
        action_for(true, false, Key::Character('-'), false, "", true),
        KeyAction::Proceed
    ));
    match action_for(true, false, Key::Character('-'), true, "b", true) {
        KeyAction::Type(t) => assert_eq!(t, "b-"),
        _ => panic!("nothing was typed"),
    }
}

#[test]
fn a_song_is_scrolled_to_once() {
    let mut win = FolderplayWindow::new();
    let two = strings(&["/m", "/n"]);
    win.nav.on_locate_playing("/m/2.mp3", &two);
    let none: Vec<FileItem<u8>> = Vec::new();
    let folders: Vec<FileItem<u8>> = vec![FileItem::new("/m/a", "a", true)];
    let songs: Vec<FileItem<u8>> =
        vec![FileItem::new("/m/1.mp3", "1.mp3", false), FileItem::new("/m/2.mp3", "2.mp3", false)];
    assert_eq!(win.populate_list(&none, true), Layout::Empty);
    assert_eq!(win.populate_list(&folders, true), Layout::Grid);
    assert_eq!(win.populate_list(&songs, true), Layout::List(1));
    assert_eq!(win.populate_list(&songs, true), Layout::List(0));
}
