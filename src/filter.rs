//! Which changed files the watch mode skips: those whose path holds one of the
//! ignore patterns, and those with the extension of a binary format.
use vstd::prelude::*;
use crate::text::{contains_text, is_substring, lower_of, lowercase_text};

verus! {

/// `i` is the index of the last `c` in `s`.
pub open spec fn is_last_at(s: Seq<char>, c: char, i: int) -> bool {
    &&& 0 <= i < s.len()
    &&& s[i] == c
    &&& forall|j: int| i < j < s.len() ==> #[trigger] s[j] != c
}

/// The index of the last `c` in `s`, if any.
pub open spec fn last_index_of(s: Seq<char>, c: char) -> Option<int> {
    if exists|i: int| is_last_at(s, c, i) {
        Some(choose|i: int| is_last_at(s, c, i))
    } else {
        None
    }
}

/// The final component of a `/`-separated path.
pub open spec fn file_name_of(path: Seq<char>) -> Seq<char> {
    match last_index_of(path, '/') {
        Some(k) => path.subrange(k + 1, path.len() as int),
        None => path,
    }
}

/// The extension of a path: what follows the last `.` of its final component,
/// when that `.` is not the component's first character.
pub open spec fn extension_of(path: Seq<char>) -> Option<Seq<char>> {
    let name = file_name_of(path);
    match last_index_of(name, '.') {
        Some(k) => if k == 0 {
            None
        } else {
            Some(name.subrange(k + 1, name.len() as int))
        },
        None => None,
    }
}

/// The extensions (in lower case) of the binary formats that are never scanned.
pub open spec fn binary_extensions() -> Seq<Seq<char>> {
    seq![
        "jpg"@, "jpeg"@, "png"@, "gif"@, "bmp"@, "ico"@, "svg"@, "pdf"@, "doc"@, "docx"@,
        "xls"@, "xlsx"@, "ppt"@, "pptx"@, "zip"@, "tar"@, "gz"@, "rar"@, "7z"@, "mp3"@,
        "wav"@, "mp4"@, "avi"@, "mov"@, "exe"@, "dll"@, "so"@, "dylib"@, "lock"@, "log"@,
    ]
}

/// Some ignore pattern occurs in the path.
pub open spec fn ignored_by_patterns(path: Seq<char>, patterns: Seq<Seq<char>>) -> bool {
    exists|i: int| 0 <= i < patterns.len() && is_substring(#[trigger] patterns[i], path)
}

/// The path has the extension of a binary format, in any case.
pub open spec fn has_binary_extension(path: Seq<char>) -> bool {
    match extension_of(path) {
        Some(e) => binary_extensions().contains(lower_of(e)),
        None => false,
    }
}

/// The models of a slice of patterns.
pub open spec fn patterns_view(patterns: Seq<String>) -> Seq<Seq<char>> {
    patterns.map_values(|p: String| p@)
}

/// The index of the last `c` in `s`.
fn find_last(s: &str, c: char) -> (r: Option<usize>)
    ensures
        match r {
            Some(k) => last_index_of(s@, c) == Some(k as int),
            None => last_index_of(s@, c) is None,
        },
{
    let n = s.unicode_len();
    let mut i: usize = n;
    while i > 0
        invariant
            i <= n,
            n == s@.len(),
            forall|j: int| i <= j < n ==> #[trigger] s@[j] != c,
        decreases i,
    {
        if s.get_char(i - 1) == c {
            proof {
                assert(is_last_at(s@, c, i - 1));
                let k = choose|k: int| is_last_at(s@, c, k);
                assert(is_last_at(s@, c, k));
            }
            return Some(i - 1);
        }
        i -= 1;
    }
    proof {
        if exists|k: int| is_last_at(s@, c, k) {
            let k = choose|k: int| is_last_at(s@, c, k);
            assert(is_last_at(s@, c, k));
        }
    }
    None
}

/// The final component of a `/`-separated path.
pub fn final_component(path: &str) -> (r: &str)
    ensures
        r@ == file_name_of(path@),
{
    let n = path.unicode_len();
    match find_last(path, '/') {
        Some(k) => path.substring_char(k + 1, n),
        None => path,
    }
}

/// The extension of `path`: what follows the last `.` of its final component,
/// when that `.` is not the component's first character.
pub fn file_extension(path: &str) -> (r: Option<&str>)
    ensures
        match r {
            Some(e) => extension_of(path@) == Some(e@),
            None => extension_of(path@) is None,
        },
{
    let name = final_component(path);
    let m = name.unicode_len();
    match find_last(name, '.') {
        Some(k) => if k == 0 {
            None
        } else {
            Some(name.substring_char(k + 1, m))
        },
        None => None,
    }
}

/// Whether two texts are equal.
fn same_text(a: &str, b: &str) -> (r: bool)
    ensures
        r == (a@ == b@),
{
    String::from_str(a) == String::from_str(b)
}

/// Whether `ext`, already in lower case, is the extension of a binary format.
pub fn is_binary_extension(ext: &str) -> (r: bool)
    ensures
        r == binary_extensions().contains(ext@),
{
    let r = same_text(ext, "jpg") || same_text(ext, "jpeg") || same_text(ext, "png") || same_text(ext, "gif")
        || same_text(ext, "bmp") || same_text(ext, "ico") || same_text(ext, "svg") || same_text(ext, "pdf")
        || same_text(ext, "doc") || same_text(ext, "docx") || same_text(ext, "xls") || same_text(ext, "xlsx")
        || same_text(ext, "ppt") || same_text(ext, "pptx") || same_text(ext, "zip") || same_text(ext, "tar")
        || same_text(ext, "gz") || same_text(ext, "rar") || same_text(ext, "7z") || same_text(ext, "mp3")
        || same_text(ext, "wav") || same_text(ext, "mp4") || same_text(ext, "avi") || same_text(ext, "mov")
        || same_text(ext, "exe") || same_text(ext, "dll") || same_text(ext, "so") || same_text(ext, "dylib")
        || same_text(ext, "lock") || same_text(ext, "log");
    proof {
        let b = binary_extensions();
        if r {
            assert(b.contains(ext@)) by {
                assert(exists|i: int| 0 <= i < b.len() && b[i] == ext@);
            }
        } else {
            assert(!b.contains(ext@));
        }
    }
    r
}

/// Whether `path` has the extension of a binary format, in any case.
pub fn is_binary_path(path: &str) -> (r: bool)
    ensures
        r == has_binary_extension(path@),
{
    match file_extension(path) {
        Some(e) => {
            let lower = lowercase_text(e);
            is_binary_extension(lower.as_str())
        },
        None => false,
    }
}

/// Whether the watch mode skips the changed file `file_path`: some ignore
/// pattern occurs in its path, or it has the extension of a binary format.
pub fn should_ignore_file(file_path: &str, ignore_patterns: &[String]) -> (r: bool)
    ensures
        r == (ignored_by_patterns(file_path@, patterns_view(ignore_patterns@)) || has_binary_extension(
            file_path@,
        )),
{
    let ghost pv = patterns_view(ignore_patterns@);
    let mut i: usize = 0;
    while i < ignore_patterns.len()
        invariant
            i <= ignore_patterns.len(),
            pv == patterns_view(ignore_patterns@),
            forall|j: int| 0 <= j < i ==> !is_substring(#[trigger] pv[j], file_path@),
        decreases ignore_patterns.len() - i,
    {
        if contains_text(file_path, ignore_patterns[i].as_str()) {
            proof {
                assert(is_substring(pv[i as int], file_path@));
            }
            return true;
        }
        i += 1;
    }
    is_binary_path(file_path)
}

/// Whether a full scan of project `project` skips `path`: it has the extension
/// of a binary format, or it has no extension and is named like the project
/// (the project's own build artifact).
pub fn should_skip_in_scan(path: &str, project: &str) -> (r: bool)
    ensures
        r == (has_binary_extension(path@) || (extension_of(path@) is None && file_name_of(path@)
            == project@)),
{
    if is_binary_path(path) {
        return true;
    }
    match file_extension(path) {
        Some(_) => false,
        None => same_text(final_component(path), project),
    }
}

} // verus!
