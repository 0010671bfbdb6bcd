use vstd::prelude::*;

use crate::error::FsError;
use crate::path_guard::{components, views};

verus! {

/// The extension of drawing documents, without its dot.
pub open spec fn recognized_ext() -> Seq<char> {
    seq!['e', 'x', 'c', 'a', 'l', 'i', 'd', 'r', 'a', 'w']
}

/// Largest document accepted, in characters.
pub const MAX_CONTENT_CHARS: usize = 64_000_000;

/// Position of the last `.` in `s`, or -1.
pub open spec fn last_dot(s: Seq<char>) -> int
    decreases s.len(),
{
    if s.len() == 0 {
        -1
    } else if s.last() == '.' {
        s.len() - 1
    } else {
        last_dot(s.drop_last())
    }
}

/// A file name has an extension when a dot follows at least one other
/// character; `..` has none.
pub open spec fn has_extension(n: Seq<char>) -> bool {
    n != seq!['.', '.'] && last_dot(n) > 0
}

/// The file name without its extension.
pub open spec fn stem(n: Seq<char>) -> Seq<char> {
    if has_extension(n) {
        n.subrange(0, last_dot(n))
    } else {
        n
    }
}

/// The text after the last dot, for a name that has an extension.
pub open spec fn extension(n: Seq<char>) -> Option<Seq<char>> {
    if has_extension(n) {
        Some(n.subrange(last_dot(n) + 1, n.len() as int))
    } else {
        None
    }
}

/// A file name of the recognized format; the comparison is case-sensitive.
pub open spec fn is_recognized(n: Seq<char>) -> bool {
    extension(n) == Some(recognized_ext())
}

/// A path whose last component is a file name of the recognized format.
pub open spec fn path_is_recognized(p: Seq<char>) -> bool {
    components(p).len() > 0 && is_recognized(components(p).last())
}

/// The string value of the top-level field `type` of the JSON document
/// `text`, when `text` parses as JSON and that field holds a string.
pub uninterp spec fn document_type(text: Seq<char>) -> Option<Seq<char>>;

pub open spec fn opt_string_view(o: Option<String>) -> Option<Seq<char>> {
    match o {
        Some(s) => Some(s@),
        None => None,
    }
}

/// Whether a document is accepted: bounded in size, and a JSON object whose
/// `type` marker names the recognized format.
pub open spec fn content_ok(text: Seq<char>) -> bool {
    text.len() <= MAX_CONTENT_CHARS && document_type(text) == Some(recognized_ext())
}

/// Relies on serde_json::from_str (to a serde_json::Value), Value::get and
/// Value::as_str: the string held by the top-level field `type`, if the text
/// parses and the field is a string.
#[verifier::external_body]
fn parse_document_type(text: &str) -> (r: Option<String>)
    ensures
        opt_string_view(r) == document_type(text@),
{
    match serde_json::from_str::<serde_json::Value>(text) {
        Ok(v) => v.get("type").and_then(|t| t.as_str()).map(|t| t.to_string()),
        Err(_) => None,
    }
}

proof fn lemma_last_dot_bounds(s: Seq<char>)
    ensures
        -1 <= last_dot(s) < s.len(),
        last_dot(s) >= 0 ==> s[last_dot(s)] == '.',
    decreases s.len(),
{
    if s.len() > 0 {
        lemma_last_dot_bounds(s.drop_last());
    }
}

/// Position of the last dot in `s`.
fn find_last_dot(s: &str) -> (r: Option<usize>)
    ensures
        match r {
            Some(i) => last_dot(s@) == i as int,
            None => last_dot(s@) == -1,
        },
        -1 <= last_dot(s@) < s@.len(),
{
    proof {
        lemma_last_dot_bounds(s@);
    }
    let n = s.unicode_len();
    let mut found: Option<usize> = None;
    let mut i: usize = 0;
    assert(s@.take(0) =~= Seq::<char>::empty());
    while i < n
        invariant
            n == s@.len(),
            i <= n,
            match found {
                Some(k) => last_dot(s@.take(i as int)) == k as int,
                None => last_dot(s@.take(i as int)) == -1,
            },
        decreases n - i,
    {
        assert(s@.take(i + 1).drop_last() =~= s@.take(i as int));
        if s.get_char(i) == '.' {
            found = Some(i);
        }
        i = i + 1;
    }
    assert(s@.take(n as int) =~= s@);
    found
}

/// Whether `n` is `..`.
fn is_parent_marker(n: &str) -> (b: bool)
    ensures
        b == (n@ == seq!['.', '.']),
{
    if n.unicode_len() == 2 && n.get_char(0) == '.' && n.get_char(1) == '.' {
        assert(n@ =~= seq!['.', '.']);
        true
    } else {
        assert(n@ != seq!['.', '.']) by {
            if n@ == seq!['.', '.'] {
                assert(n@[0] == '.' && n@[1] == '.');
            }
        }
        false
    }
}

/// The file name without its extension.
pub fn file_stem(name: &str) -> (r: String)
    ensures
        r@ == stem(name@),
{
    if is_parent_marker(name) {
        return String::from_str(name);
    }
    match find_last_dot(name) {
        Some(i) => if i > 0 {
            String::from_str(name.substring_char(0, i))
        } else {
            String::from_str(name)
        },
        None => String::from_str(name),
    }
}

/// The extension of the file name `name`, if it has one.
pub fn extension_of(name: &str) -> (r: Option<String>)
    ensures
        opt_string_view(r) == extension(name@),
{
    if is_parent_marker(name) {
        return None;
    }
    let n = name.unicode_len();
    match find_last_dot(name) {
        Some(i) => if i > 0 {
            Some(String::from_str(name.substring_char(i + 1, n)))
        } else {
            None
        },
        None => None,
    }
}

/// The recognized extension as a string.
pub fn recognized_extension() -> (r: String)
    ensures
        r@ == recognized_ext(),
{
    proof {
        reveal_strlit("excalidraw");
    }
    let r = String::from_str("excalidraw");
    assert(r@ =~= recognized_ext());
    r
}

/// Whether the file name `name` carries the recognized extension.
pub fn is_recognized_name(name: &str) -> (b: bool)
    ensures
        b == is_recognized(name@),
{
    match extension_of(name) {
        Some(e) => e == recognized_extension(),
        None => false,
    }
}

/// Whether the path `path` names a file of the recognized format.
pub fn is_recognized_path(path: &str) -> (b: bool)
    ensures
        b == path_is_recognized(path@),
{
    let comps = crate::path_guard::path_components(path);
    if comps.len() == 0 {
        return false;
    }
    let last = comps.len() - 1;
    assert(views(comps@)[last as int] == comps@[last as int]@);
    is_recognized_name(comps[last].as_str())
}

/// Refuses a path whose file name lacks the recognized extension.
pub fn validate_is_recognized(path: &str) -> (r: Result<(), FsError>)
    ensures
        r is Ok <==> path_is_recognized(path@),
        r is Err ==> r == Err::<(), FsError>(FsError::WrongExtension),
{
    if is_recognized_path(path) {
        Ok(())
    } else {
        Err(FsError::WrongExtension)
    }
}

/// Whether a document's `type` marker names the recognized format.
pub fn is_recognized_marker(marker: &Option<String>) -> (b: bool)
    ensures
        b == (opt_string_view(*marker) == Some(recognized_ext())),
{
    match marker {
        Some(m) => *m == recognized_extension(),
        None => false,
    }
}

/// Refuses text that is too large or is not a drawing document.
pub fn validate_content(content: &str) -> (r: Result<(), FsError>)
    ensures
        r is Ok <==> content_ok(content@),
        r is Err ==> r == Err::<(), FsError>(FsError::InvalidContent),
{
    if content.unicode_len() > MAX_CONTENT_CHARS {
        return Err(FsError::InvalidContent);
    }
    let marker = parse_document_type(content);
    if is_recognized_marker(&marker) {
        Ok(())
    } else {
        Err(FsError::InvalidContent)
    }
}

} // verus!
