//! Which files are audio files.
use crate::text::{glued, lowercase, same};
use vstd::prelude::*;

verus! {

/// The endings of audio files.
pub const AUDIO_EXTENSIONS: [&'static str; 16] = [
    ".mp3",
    ".flac",
    ".ogg",
    ".opus",
    ".wav",
    ".aac",
    ".m4a",
    ".wma",
    ".aiff",
    ".aif",
    ".ape",
    ".wv",
    ".mka",
    ".oga",
    ".dsf",
    ".dff",
];

/// An extension with a dot in front.
pub open spec fn dotted(ext: Seq<char>) -> Seq<char> {
    if ext.len() > 0 && ext[0] == '.' {
        ext
    } else {
        "."@ + ext
    }
}

/// Whether an extension in lowercase, with its dot or without, is one of audio files.
pub open spec fn audio_extension(lower: Seq<char>) -> bool {
    exists|i: int|
        0 <= i < AUDIO_EXTENSIONS@.len() && (#[trigger] AUDIO_EXTENSIONS@[i])@ == dotted(lower)
}

/// Whether an extension in lowercase is one of audio files.
pub fn is_audio_lower(lower: &str) -> (r: bool)
    ensures
        r == audio_extension(lower@),
{
    let with_dot = if lower.unicode_len() > 0 && lower.get_char(0) == '.' {
        lower.to_owned()
    } else {
        glued(".", lower)
    };
    for i in 0..AUDIO_EXTENSIONS.len()
        invariant
            with_dot@ == dotted(lower@),
            forall|j: int| 0 <= j < i ==> (#[trigger] AUDIO_EXTENSIONS@[j])@ != dotted(lower@),
    {
        if same(AUDIO_EXTENSIONS[i], with_dot.as_str()) {
            return true;
        }
    }
    false
}

/// Whether an extension, with its dot or without, is one of audio files. Upper
/// and lower case make no difference.
pub fn is_audio_ext(ext: &str) -> (r: bool)
    ensures
        r == audio_extension(lowercase(ext@)),
{
    let lower = ext.to_lowercase();
    is_audio_lower(lower.as_str())
}

} // verus!
