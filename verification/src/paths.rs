//! Names of files and folders.
use crate::text::{begins_with, chars_of, glued, opt_text, same, uppercase};
use vstd::prelude::*;

verus! {

/// The last component of a path, as `Path::file_name` gives it.
pub uninterp spec fn file_name(path: Seq<char>) -> Option<Seq<char>>;

/// `Path::file_name` gives the final component of a path, if there is one: none
/// for a path that ends in a root or in `..`. It depends on the path alone.
#[verifier::external_body]
pub(crate) fn name_of(path: &str) -> (r: Option<String>)
    ensures
        opt_text(r) == file_name(path@),
{
    std::path::Path::new(path).file_name().map(|n| n.to_string_lossy().into_owned())
}

/// The path without its last component, as `Path::parent` gives it.
pub uninterp spec fn parent_path(path: Seq<char>) -> Option<Seq<char>>;

/// `Path::parent` gives a path without its final component, if there is one. It
/// depends on the path alone.
#[verifier::external_body]
pub(crate) fn parent_of(path: &str) -> (r: Option<String>)
    ensures
        opt_text(r) == parent_path(path@),
{
    std::path::Path::new(path).parent().map(|p| p.to_string_lossy().into_owned())
}

/// A text, or the empty text where there is none.
pub open spec fn or_empty(t: Option<Seq<char>>) -> Seq<char> {
    match t {
        Some(s) => s,
        None => Seq::empty(),
    }
}

/// The name at the end of a path; empty where there is none.
pub fn base_name(path: &str) -> (r: String)
    ensures
        r@ == or_empty(file_name(path@)),
{
    match name_of(path) {
        Some(n) => n,
        None => String::new(),
    }
}

/// The folder that a path lies in; empty where there is none.
pub fn folder_of(path: &str) -> (r: String)
    ensures
        r@ == or_empty(parent_path(path@)),
{
    match parent_of(path) {
        Some(p) => p,
        None => String::new(),
    }
}

/// The place of the last dot in a name, or -1 where there is none.
pub open spec fn last_dot(name: Seq<char>) -> int
    decreases name.len(),
{
    if name.len() == 0 {
        -1
    } else if name.last() == '.' {
        name.len() - 1
    } else {
        last_dot(name.drop_last())
    }
}

/// Whether a file name has an extension: there is a dot behind its first
/// character, and the name is not `..`.
pub open spec fn has_extension(name: Seq<char>) -> bool {
    last_dot(name) > 0 && name != ".."@
}

/// What stands before the last dot of a file name; the whole name where there is
/// no extension.
pub open spec fn stem(name: Seq<char>) -> Seq<char> {
    if has_extension(name) {
        name.take(last_dot(name))
    } else {
        name
    }
}

/// What stands behind the last dot of a file name.
pub open spec fn extension(name: Seq<char>) -> Option<Seq<char>> {
    if has_extension(name) {
        Some(name.skip(last_dot(name) + 1))
    } else {
        None
    }
}

/// Splits a file name at its last dot into stem and extension.
pub fn split_name(name: &str) -> (r: (String, Option<String>))
    ensures
        r.0@ == stem(name@),
        opt_text(r.1) == extension(name@),
{
    let all = chars_of(name);
    let mut at: usize = all.len();
    assert(all@.take(at as int) == name@);
    while at > 0 && all[at - 1] != '.'
        invariant
            at <= all.len(),
            all@ == name@,
            last_dot(all@.take(at as int)) == last_dot(name@),
        decreases at,
    {
        assert(all@.take(at as int).drop_last() == all@.take(at - 1));
        at = at - 1;
    }
    proof {
        assert(last_dot(name@) == at - 1);
    }
    if at <= 1 || same(name, "..") {
        return (name.to_owned(), None);
    }
    let n: usize = name.unicode_len();
    let head = name.substring_char(0, at - 1).to_owned();
    let tail = name.substring_char(at, n).to_owned();
    (head, Some(tail))
}

/// The stem of the name at the end of a path; empty where there is no name.
pub open spec fn path_stem(path: Seq<char>) -> Seq<char> {
    match file_name(path) {
        Some(n) => stem(n),
        None => Seq::empty(),
    }
}

/// The extension of the name at the end of a path.
pub open spec fn path_extension(path: Seq<char>) -> Option<Seq<char>> {
    match file_name(path) {
        Some(n) => extension(n),
        None => None,
    }
}

/// The stem of the name at the end of a path; empty where there is no name.
pub fn file_stem(path: &str) -> (r: String)
    ensures
        r@ == path_stem(path@),
{
    match name_of(path) {
        Some(n) => split_name(n.as_str()).0,
        None => String::new(),
    }
}

/// The extension of the name at the end of a path.
pub fn file_extension(path: &str) -> (r: Option<String>)
    ensures
        opt_text(r) == path_extension(path@),
{
    match name_of(path) {
        Some(n) => split_name(n.as_str()).1,
        None => None,
    }
}

/// The format of a song, by the path of its file: the extension in uppercase.
pub fn song_format(path: &str) -> (r: String)
    ensures
        r@ == uppercase(or_empty(path_extension(path@))),
{
    match file_extension(path) {
        Some(ext) => ext.as_str().to_uppercase(),
        None => {
            proof {
                reveal_strlit("");
            }
            assert(""@ =~= Seq::<char>::empty());
            "".to_uppercase()
        },
    }
}

/// A path with the home folder in front written as `~`.
pub open spec fn shown_path(path: Seq<char>, home: Seq<char>) -> Seq<char> {
    if home.len() > 0 && home.is_prefix_of(path) {
        "~"@ + path.skip(home.len() as int)
    } else {
        path
    }
}

/// A path with the home folder in front written as `~`.
pub fn display_path(path: &str, home: &str) -> (r: String)
    ensures
        r@ == shown_path(path@, home@),
{
    if !home.is_empty() && begins_with(path, home) {
        let rest = path.substring_char(home.unicode_len(), path.unicode_len());
        return glued("~", rest);
    }
    path.to_owned()
}

/// A name put behind a folder.
pub open spec fn inside(folder: Seq<char>, name: Seq<char>) -> Seq<char> {
    if folder.len() == 0 || folder.last() == '/' {
        folder + name
    } else {
        folder + "/"@ + name
    }
}

/// The path of a name in a folder. The name does not begin with a slash.
pub fn path_inside(folder: &str, name: &str) -> (r: String)
    ensures
        r@ == inside(folder@, name@),
{
    let n: usize = folder.unicode_len();
    if n == 0 || folder.get_char(n - 1) == '/' {
        glued(folder, name)
    } else {
        let mut r = glued(folder, "/");
        r.append(name);
        r
    }
}

} // verus!
