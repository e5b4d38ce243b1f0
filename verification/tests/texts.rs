use folderplay::order::order_texts;
use folderplay::paths::{
    base_name, display_path, file_extension, file_stem, folder_of, path_inside, song_format,
    split_name,
};
use folderplay::text::{
    begins_with, contains_part, decimal, filled_parts, join, parse_small, replace_part,
    signed_decimal, split_words, to_lower_char, trim, trim_end_slashes,
};

fn strings(v: &[&str]) -> Vec<String> {
    v.iter().map(|s| s.to_string()).collect()
}

#[test]
fn numbers_as_texts() {
    assert_eq!(decimal(0), "0");
    assert_eq!(decimal(18446744073709551615), "18446744073709551615");
    assert_eq!(signed_decimal(-2147483648), "-2147483648");
    assert_eq!(signed_decimal(42), "42");
}

#[test]
fn numbers_from_texts_as_std_parses_them() {
    for s in ["0", "3", "+3", "-3", "2147483647", "2147483648", "-2147483648", "-2147483649", "",
        "+", "-", "3a", " 3", "00012", "--3", "+-3", "99999999999999999999"]
    {
        assert_eq!(parse_small(s), s.parse::<i32>().ok());
    }
}

#[test]
fn parts_of_texts() {
    assert!(begins_with("/mnt/disk", "/mnt"));
    assert!(!begins_with("/mn", "/mnt"));
    assert!(contains_part("abcabd", "abd"));
    assert!(contains_part("abc", ""));
    assert!(!contains_part("abc", "abcd"));
    assert_eq!(trim("  a b \t\n"), "a b");
    assert_eq!(trim("   "), "");
    assert_eq!(split_words(" one  two\tthree "), strings(&["one", "two", "three"]));
    assert_eq!(trim_end_slashes("/a/b//"), "/a/b");
    assert_eq!(trim_end_slashes("/"), "");
    assert_eq!(join(&strings(&["a", "b", "c"]), ", "), "a, b, c");
    assert_eq!(join(&Vec::new(), ", "), "");
    assert_eq!(filled_parts(&strings(&["", "a", "", "b"])), strings(&["a", "b"]));
    assert_eq!(replace_part("aaaa", "aa", "b"), "bb");
    assert_eq!(replace_part("xaax", "aa", ""), "xx");
}

#[test]
fn names_in_paths() {
    assert_eq!(base_name("/music/Album/01.flac"), "01.flac");
    assert_eq!(base_name("/music/Album/"), "Album");
    assert_eq!(base_name("/"), "");
    assert_eq!(base_name(".."), "");
    assert_eq!(folder_of("/music/Album/01.flac"), "/music/Album");
    assert_eq!(folder_of("/"), "");
    assert_eq!(folder_of("a"), "");
    assert_eq!(file_stem("/music/01.tar.gz"), "01.tar");
    assert_eq!(file_extension("/music/01.tar.gz"), Some("gz".to_string()));
    assert_eq!(file_extension("/music/.hidden"), None);
    assert_eq!(file_extension("/music/plain"), None);
}

#[test]
fn names_split_as_std_splits_them() {
    for name in ["a.mp3", "a", ".a", ".a.b", "a.", "..a", "a..b", "...", "é.FLAC"] {
        let (stem, ext) = split_name(name);
        let path = std::path::Path::new(name);
        assert_eq!(Some(stem), path.file_stem().map(|s| s.to_string_lossy().to_string()));
        assert_eq!(ext, path.extension().map(|s| s.to_string_lossy().to_string()));
    }
    assert_eq!(split_name(".."), ("..".to_string(), None));
}

#[test]
fn paths_are_joined_as_std_joins_them() {
    for folder in ["/music", "/music/", "", "/", "rel"] {
        let joined = std::path::Path::new(folder).join("cover.jpg");
        assert_eq!(path_inside(folder, "cover.jpg"), joined.to_string_lossy().to_string());
    }
}

#[test]
fn home_is_written_short() {
    assert_eq!(display_path("/home/me/Music", "/home/me"), "~/Music");
    assert_eq!(display_path("/mnt/disk", "/home/me"), "/mnt/disk");
    assert_eq!(display_path("/home/me", ""), "/home/me");
}

#[test]
fn texts_in_order() {
    let sorted = order_texts(strings(&["/mnt/b", "/mnt/A", "/mnt/a", "/mnt", "/mnt/é"]));
    let mut expected = strings(&["/mnt/b", "/mnt/A", "/mnt/a", "/mnt", "/mnt/é"]);
    expected.sort();
    assert_eq!(sorted, expected);
}

#[test]
fn the_format_is_the_extension_in_uppercase() {
    assert_eq!(song_format("/m/a.flac"), "FLAC");
    assert_eq!(song_format("/m.d/a.tar.Mp3"), "MP3");
    assert_eq!(song_format("/m/noext"), "");
    assert_eq!(song_format("/"), "");
}

#[test]
fn letters_become_lowercase() {
    assert_eq!(to_lower_char('A'), 'a');
    assert_eq!(to_lower_char('z'), 'z');
    assert_eq!(to_lower_char('7'), '7');
    assert_eq!(to_lower_char('\u{130}'), 'i');
}
