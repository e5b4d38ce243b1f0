use folderplay::formats::{is_audio_ext, is_audio_lower, AUDIO_EXTENSIONS};

#[test]
fn audio_extensions() {
    assert_eq!(AUDIO_EXTENSIONS.len(), 16);
    for ext in AUDIO_EXTENSIONS {
        assert!(is_audio_ext(ext));
        assert!(is_audio_ext(&ext[1..]));
        assert!(is_audio_ext(&ext.to_uppercase()));
        assert!(is_audio_lower(ext));
    }
    assert!(is_audio_ext("Flac"));
    assert!(!is_audio_lower("Flac"));
}

#[test]
fn other_extensions() {
    for ext in ["txt", "jpg", ".", "", "mp", "mp33", "..mp3", " mp3"] {
        assert!(!is_audio_ext(ext));
    }
}
