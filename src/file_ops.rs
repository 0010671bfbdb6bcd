use vstd::prelude::*;

use crate::content_guard::{
    content_ok, file_stem, is_recognized, is_recognized_name, is_recognized_path,
    path_is_recognized, stem, validate_content,
};
use crate::error::FsError;
use crate::naming::{dotted_ext, unique_name, unique_name_spec};
use crate::path_guard::{
    components, is_plain_name, opt_view, path_components, render, render_path, result_view,
    safe_join, validate, validate_spec, views,
};

verus! {

/// The document written into a newly created file.
pub const DEFAULT_DOCUMENT: &'static str = "{\n  \"appState\": {\n    \"gridSize\": null,\n    \"viewBackgroundColor\": \"#ffffff\"\n  },\n  \"elements\": [],\n  \"files\": {},\n  \"source\": \"SAG-Excalidraw\",\n  \"type\": \"excalidraw\",\n  \"version\": 2\n}";

/// The path a file operation works on: validated, and of the recognized format.
pub open spec fn target_spec(path: Seq<char>, root: Option<Seq<char>>) -> Result<Seq<char>, FsError> {
    match validate_spec(path, root) {
        Err(e) => Err(e),
        Ok(p) => if path_is_recognized(p) {
            Ok(p)
        } else {
            Err(FsError::WrongExtension)
        },
    }
}

/// Validates the path of a file to read, write or delete, and checks its
/// extension. Runs before any disk access.
pub fn check_target(path: &str, root: Option<&str>) -> (r: Result<String, FsError>)
    ensures
        result_view(r) == target_spec(path@, opt_view(root)),
{
    let p = validate(path, root)?;
    if is_recognized_path(p.as_str()) {
        Ok(p)
    } else {
        Err(FsError::WrongExtension)
    }
}

/// Accepts text read from disk only when it is a drawing document.
pub fn accept_read(content: String) -> (r: Result<String, FsError>)
    ensures
        content_ok(content@) ==> r == Ok::<String, FsError>(content),
        !content_ok(content@) ==> r == Err::<String, FsError>(FsError::InvalidContent),
{
    match validate_content(content.as_str()) {
        Ok(()) => Ok(content),
        Err(e) => Err(e),
    }
}

/// Validates a write: the path as for `check_target`, then the content.
/// Returns the path to overwrite.
pub fn check_write(path: &str, root: Option<&str>, content: &str) -> (r: Result<String, FsError>)
    ensures
        target_spec(path@, opt_view(root)) is Err ==> result_view(r) == target_spec(
            path@,
            opt_view(root),
        ),
        target_spec(path@, opt_view(root)) is Ok ==> (if content_ok(content@) {
            result_view(r) == target_spec(path@, opt_view(root))
        } else {
            r == Err::<String, FsError>(FsError::InvalidContent)
        }),
{
    let p = check_target(path, root)?;
    validate_content(content)?;
    Ok(p)
}

/// The file name `n` carrying the recognized extension: unchanged when it
/// already does, else its extension replaced (or added).
pub open spec fn with_recognized_ext(n: Seq<char>) -> Seq<char> {
    if is_recognized(n) {
        n
    } else {
        stem(n) + dotted_ext()
    }
}

pub fn force_extension(name: &str) -> (r: String)
    ensures
        r@ == with_recognized_ext(name@),
{
    if is_recognized_name(name) {
        return String::from_str(name);
    }
    proof {
        reveal_strlit(".excalidraw");
    }
    let mut s = file_stem(name);
    s.append(".excalidraw");
    assert(".excalidraw"@ =~= dotted_ext());
    s
}

/// Where a file created as `file_name` in `dir` goes, given the names that
/// `dir` already holds.
pub open spec fn create_target_spec(
    dir: Seq<char>,
    file_name: Seq<char>,
    root: Option<Seq<char>>,
    names: Seq<Seq<char>>,
) -> Result<Seq<char>, FsError> {
    match validate_spec(dir, root) {
        Err(e) => Err(e),
        Ok(d) => if !is_plain_name(file_name) {
            Err(FsError::InvalidPath)
        } else {
            match validate_spec(d + seq!['/'] + file_name, root) {
                Err(e) => Err(e),
                Ok(_) => match unique_name_spec(names, file_name) {
                    Err(e) => Err(e),
                    Ok(n) => Ok(render(components(d).push(n))),
                },
            }
        },
    }
}

/// The path of a new file named after `file_name` in the directory `dir`,
/// holding `names`: the name itself when free, else a suffixed one.
pub fn plan_create(dir: &str, file_name: &str, root: Option<&str>, names: &Vec<String>) -> (r: Result<
    String,
    FsError,
>)
    ensures
        result_view(r) == create_target_spec(dir@, file_name@, opt_view(root), views(names@)),
{
    let d = validate(dir, root)?;
    let _joined = safe_join(d.as_str(), file_name, root)?;
    let chosen = unique_name(names, file_name)?;
    let mut comps = path_components(d.as_str());
    let ghost before = comps@;
    comps.push(chosen);
    assert(views(comps@) =~= views(before).push(chosen@));
    Ok(render_path(&comps))
}

/// Completes a creation once the file was written: it must be there to be read.
pub fn confirm_created(path: String, readable: bool) -> (r: Result<String, FsError>)
    ensures
        readable ==> r == Ok::<String, FsError>(path),
        !readable ==> r == Err::<String, FsError>(FsError::CreationVerificationFailed),
{
    if readable {
        Ok(path)
    } else {
        Err(FsError::CreationVerificationFailed)
    }
}

} // verus!
