//! Paths inside a Course Folder, as UTF-8 strings with `/` separators.
//!
//! Joining follows `std::path::Path::join` on Unix: joining an absolute
//! path replaces the base, and a separator is inserted only when the base
//! is non-empty and does not already end in one. The component-level
//! queries (`file_name`, `file_stem`, `parent`, `strip_prefix`) are the
//! standard library's own, called through small wrappers.

use vstd::prelude::*;
use std::path::Path;
use crate::text::push_char;

verus! {

/// `Path::new(base).join(part)` on Unix.
pub open spec fn join_spec(base: Seq<char>, part: Seq<char>) -> Seq<char> {
    if part.len() > 0 && part[0] == '/' {
        part
    } else if base.len() > 0 && base.last() != '/' {
        base + seq!['/'] + part
    } else {
        base + part
    }
}

pub fn join_path(base: &str, part: &str) -> (r: String)
    ensures
        r@ == join_spec(base@, part@),
{
    let pn = part.unicode_len();
    if pn > 0 && part.get_char(0) == '/' {
        return part.to_owned();
    }
    let bn = base.unicode_len();
    let mut r = base.to_owned();
    if bn > 0 && base.get_char(bn - 1) != '/' {
        push_char(&mut r, '/');
    }
    r.append(part);
    r
}

/// What `Path::file_name` returns for a path: its final component, or
/// nothing when the path ends in `..` or has no final component.
pub uninterp spec fn path_file_name_spec(p: Seq<char>) -> Option<Seq<char>>;

/// What `Path::file_stem` returns for a path: the final component without
/// its last extension.
pub uninterp spec fn path_file_stem_spec(p: Seq<char>) -> Option<Seq<char>>;

/// What `Path::parent` returns for a path: the path without its final
/// component, or nothing for a root or empty path.
pub uninterp spec fn path_parent_spec(p: Seq<char>) -> Option<Seq<char>>;

/// What `Path::strip_prefix` returns: the rest of `p` after the leading
/// components that make up `base`, or nothing when `base` is not a prefix
/// of `p` component by component.
pub uninterp spec fn path_strip_prefix_spec(p: Seq<char>, base: Seq<char>) -> Option<Seq<char>>;

pub open spec fn opt_view(o: Option<String>) -> Option<Seq<char>> {
    match o {
        Some(s) => Some(s@),
        None => None,
    }
}

/// `Path::file_name`, as a string.
#[verifier::external_body]
pub fn path_file_name(p: &str) -> (r: Option<String>)
    ensures
        opt_view(r) == path_file_name_spec(p@),
{
    Path::new(p).file_name().map(|n| n.to_string_lossy().into_owned())
}

/// `Path::file_stem`, as a string.
#[verifier::external_body]
pub fn path_file_stem(p: &str) -> (r: Option<String>)
    ensures
        opt_view(r) == path_file_stem_spec(p@),
{
    Path::new(p).file_stem().map(|n| n.to_string_lossy().into_owned())
}

/// `Path::parent`, as a string.
#[verifier::external_body]
pub fn path_parent(p: &str) -> (r: Option<String>)
    ensures
        opt_view(r) == path_parent_spec(p@),
{
    Path::new(p).parent().map(|n| n.to_string_lossy().into_owned())
}

/// `Path::strip_prefix`, as a string.
#[verifier::external_body]
pub fn path_strip_prefix(p: &str, base: &str) -> (r: Option<String>)
    ensures
        opt_view(r) == path_strip_prefix_spec(p@, base@),
{
    Path::new(p).strip_prefix(base).ok().map(|n| n.to_string_lossy().into_owned())
}

/// `path` relative to `folder` when it lies inside it, else `path` itself.
pub open spec fn relative_spec(folder: Seq<char>, path: Seq<char>) -> Seq<char> {
    match path_strip_prefix_spec(path, folder) {
        Some(r) => r,
        None => path,
    }
}

pub fn to_relative(folder: &str, path: &str) -> (r: String)
    ensures
        r@ == relative_spec(folder@, path@),
{
    match path_strip_prefix(path, folder) {
        Some(r) => r,
        None => path.to_owned(),
    }
}

/// `<folder>/videos/<video_id>`: the per-Video subfolder.
pub open spec fn video_dir_spec(folder: Seq<char>, video_id: Seq<char>) -> Seq<char> {
    join_spec(join_spec(folder, "videos"@), video_id)
}

pub fn video_dir(folder: &str, video_id: &str) -> (r: String)
    ensures
        r@ == video_dir_spec(folder@, video_id@),
{
    let v = join_path(folder, "videos");
    join_path(v.as_str(), video_id)
}

} // verus!
