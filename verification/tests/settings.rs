use folderplay::settings::{
    add_folder, can_expand, list_mnt_entries, listed_folders, mnt_children, music_folders,
    on_dialog_closed, output_description, output_index, output_value, remove_folder, scheme_at,
    scheme_from_setting, scheme_index, scheme_setting, startup_folders, toggle_music, DialogEnd,
    MountEntry, Scheme,
};

fn strings(v: &[&str]) -> Vec<String> {
    v.iter().map(|s| s.to_string()).collect()
}

fn mount(path: &str, name: &str, is_dir: bool) -> MountEntry {
    MountEntry { name: name.to_string(), path: path.to_string(), is_dir, readable: is_dir }
}

#[test]
fn empty_names_are_no_folders() {
    assert_eq!(music_folders(&strings(&["", "/m", "", "/n"])), strings(&["/m", "/n"]));
}

#[test]
fn folders_are_added_once_and_removed() {
    let folders = strings(&["/m"]);
    assert_eq!(add_folder(&folders, "/m"), None);
    let more = add_folder(&folders, "/n").unwrap();
    assert_eq!(more, strings(&["/m", "/n"]));
    assert_eq!(remove_folder(&more, "/n"), folders);
    assert_eq!(remove_folder(&strings(&["/m", "/n", "/m"]), "/m"), strings(&["/n"]));
    assert_eq!(listed_folders(&more, Some("/m")), strings(&["/n"]));
    assert_eq!(listed_folders(&more, None), more);
}

#[test]
fn folders_at_startup() {
    let s = startup_folders(&strings(&["", "/m"]), Some("/old"), Some("/home/Music"));
    assert_eq!(s.folders, strings(&["/old", "/m", "/home/Music"]));
    assert!(s.store);
    assert!(s.clear_legacy);
    let s = startup_folders(&strings(&["/m"]), Some("/m"), Some("/m"));
    assert_eq!(s.folders, strings(&["/m"]));
    assert!(!s.store);
    assert!(s.clear_legacy);
    let s = startup_folders(&strings(&["", "/m"]), None, None);
    assert_eq!(s.folders, strings(&["/m"]));
    assert!(!s.store);
    assert!(!s.clear_legacy);
    let s = startup_folders(&strings(&["/m"]), Some(""), Some("/x"));
    assert_eq!(s.folders, strings(&["/m", "/x"]));
    assert!(s.store);
    assert!(!s.clear_legacy);
}

#[test]
fn the_music_folder_is_switched() {
    let folders = strings(&["/m", "/home/Music"]);
    let off = toggle_music(&folders, Some("/home/Music"), true, false);
    assert_eq!(off.folders, Some(strings(&["/m"])));
    assert_eq!(off.remove, Some("/home/Music".to_string()));
    let on = toggle_music(&strings(&["/m"]), Some("/home/Music"), true, true);
    assert_eq!(on.folders, Some(folders.clone()));
    assert_eq!(on.remove, None);
    assert_eq!(toggle_music(&folders, Some("/home/Music"), true, true).folders, None);
    assert_eq!(toggle_music(&strings(&["/m"]), Some("/home/Music"), false, true).folders, None);
    let none = toggle_music(&folders, None, true, false);
    assert_eq!(none.folders, None);
    assert_eq!(none.remove, None);
}

#[test]
fn changed_folders_are_scanned() {
    let a = strings(&["/m", "/n"]);
    assert_eq!(on_dialog_closed(&a, &strings(&["/n", "/m"])), DialogEnd::Reload);
    assert_eq!(on_dialog_closed(&a, &strings(&["/m"])), DialogEnd::Scan);
    assert_eq!(on_dialog_closed(&a, &strings(&["/m", "/n", "/o"])), DialogEnd::Scan);
    assert_eq!(on_dialog_closed(&a, &Vec::new()), DialogEnd::Reset);
    assert_eq!(on_dialog_closed(&Vec::new(), &Vec::new()), DialogEnd::Reset);
}

#[test]
fn folders_to_choose_from() {
    let entries = vec![
        mount("/mnt/b", "b", true),
        mount("/mnt/file", "file", false),
        mount("/mnt/.h", ".h", true),
        mount("/mnt/a", "a", true),
    ];
    assert_eq!(list_mnt_entries(&entries), strings(&["/mnt/.h", "/mnt/a", "/mnt/b"]));
    assert_eq!(mnt_children(&entries), strings(&["/mnt/a", "/mnt/b"]));
    assert!(can_expand(1));
    assert!(can_expand(3));
    assert!(!can_expand(4));
}

#[test]
fn outputs_by_place() {
    assert_eq!(output_index("auto"), 0);
    assert_eq!(output_index("hifi"), 1);
    assert_eq!(output_index("standard"), 2);
    assert_eq!(output_index("other"), 0);
    assert_eq!(output_value(1), "hifi");
    assert!(output_description(2).unwrap().starts_with("Legacy output via PulseAudio. Audio is"));
    assert_eq!(output_description(3), None);
}

#[test]
fn styles_by_value_and_place() {
    for s in [Scheme::System, Scheme::Light, Scheme::Dark] {
        assert_eq!(scheme_from_setting(scheme_setting(s)), s);
        assert_eq!(scheme_at(scheme_index(s)), s);
    }
    assert_eq!(scheme_setting(Scheme::Dark), 4);
    assert_eq!(scheme_from_setting(2), Scheme::System);
    assert_eq!(scheme_at(9), Scheme::System);
}

#[test]
fn disks_that_cannot_be_read_are_not_offered() {
    let mut locked = mount("/mnt/locked", "locked", true);
    locked.readable = false;
    let entries = vec![mount("/mnt/a", "a", true), locked];
    assert_eq!(list_mnt_entries(&entries), strings(&["/mnt/a"]));
    assert_eq!(mnt_children(&entries), strings(&["/mnt/a", "/mnt/locked"]));
}
