//! Decisions of the installer of runtime dependencies: release tags, the
//! outcome of a download, and where each entry of a release archive goes.
//! Fetching, writing and unpacking are done by the caller.
use std::path::Path;
use vstd::prelude::*;

verus! {

/// The HTTP status of a successful download.
pub const HTTP_OK: u16 = 200;

/// The part of `path` after the leading components `prefix`, if `prefix` is a
/// component-wise prefix of `path`.
pub uninterp spec fn path_after_prefix(path: Seq<char>, prefix: Seq<char>) -> Option<Seq<char>>;

/// The path `rest` joined onto the directory `base`.
pub uninterp spec fn joined_path(base: Seq<char>, rest: Seq<char>) -> Seq<char>;

/// Relies on `std::path::Path::strip_prefix`: the part of `path` after the
/// components of `prefix`, or `None` when `path` does not start with them.
#[verifier::external_body]
fn strip_path_prefix(path: &str, prefix: &str) -> (r: Option<String>)
    ensures
        match (r, path_after_prefix(path@, prefix@)) {
            (Some(s), Some(rest)) => s@ == rest,
            (None, None) => true,
            _ => false,
        },
{
    match Path::new(path).strip_prefix(prefix) {
        Ok(rest) => Some(rest.to_string_lossy().into_owned()),
        Err(_) => None,
    }
}

/// Relies on `std::path::Path::join`: `rest` appended to `base` as a path.
#[verifier::external_body]
fn join_path(base: &str, rest: &str) -> (r: String)
    ensures
        r@ == joined_path(base@, rest@),
{
    Path::new(base).join(rest).to_string_lossy().into_owned()
}

/// A release tag for `version`: the version itself if it starts with `v`,
/// else the version with `v` put in front.
pub open spec fn tag_version(version: Seq<char>) -> Seq<char> {
    if version.len() > 0 && version[0] == 'v' {
        version
    } else {
        seq!['v'] + version
    }
}

/// The release tag of `version`, see [`tag_version`].
pub fn to_tag_version(version: &str) -> (r: String)
    ensures
        r@ == tag_version(version@),
{
    if version.unicode_len() > 0 && version.get_char(0) == 'v' {
        String::from_str(version)
    } else {
        let mut tag = String::from_str("v");
        proof {
            reveal_strlit("v");
        }
        tag.append(version);
        tag
    }
}

/// The download address of `archive` of release `tag` under `base`:
/// `base/tag/archive`.
pub fn release_url(base: &str, tag: &str, archive: &str) -> (r: String)
    ensures
        r@ == base@ + seq!['/'] + tag@ + seq!['/'] + archive@,
{
    let mut url = String::from_str(base);
    proof {
        reveal_strlit("/");
    }
    url.append("/");
    url.append(tag);
    url.append("/");
    url.append(archive);
    url
}

/// Why installing a dependency failed.
#[derive(Debug)]
pub enum DepsError {
    /// The download of `url` was answered with a status other than OK.
    NotFound { url: String },
}

/// Whether a download answered with `status` succeeded.
pub fn download_ok(status: u16) -> (r: bool)
    ensures
        r == (status == HTTP_OK),
{
    status == HTTP_OK
}

/// Where the archive entry at `entry` is unpacked: the entry's path without
/// the leading components `strip_prefix`, joined onto `runtime_dir`; `None`
/// for an entry outside `strip_prefix`, which is skipped.
pub open spec fn target_of(runtime_dir: Seq<char>, strip_prefix: Seq<char>, entry: Seq<char>) -> Option<
    Seq<char>,
> {
    match path_after_prefix(entry, strip_prefix) {
        Some(rest) => Some(joined_path(runtime_dir, rest)),
        None => None,
    }
}

/// The view of an optional string.
pub open spec fn opt_view(s: Option<String>) -> Option<Seq<char>> {
    match s {
        Some(x) => Some(x@),
        None => None,
    }
}

/// The unpack target of one archive entry, see [`target_of`].
pub fn extraction_target(runtime_dir: &str, strip_prefix: &str, entry: &str) -> (r: Option<String>)
    ensures
        opt_view(r) == target_of(runtime_dir@, strip_prefix@, entry@),
{
    match strip_path_prefix(entry, strip_prefix) {
        Some(rest) => Some(join_path(runtime_dir, rest.as_str())),
        None => None,
    }
}

/// Decides the outcome of downloading the archive at `src_url` and unpacking
/// it into `runtime_dir`: given the status the download was answered with and
/// the paths of the archive's entries, either the error of a failed download
/// or, for each entry in order, its unpack target under `runtime_dir` with
/// `archive_prefix` stripped (`None` for an entry that is skipped).
pub fn download_and_extract(
    runtime_dir: &str,
    src_url: &str,
    archive_prefix: &str,
    status: u16,
    entries: &Vec<String>,
) -> (r: Result<Vec<Option<String>>, DepsError>)
    ensures
        r is Err <==> status != HTTP_OK,
        r matches Err(DepsError::NotFound { url }) ==> url@ == src_url@,
        r matches Ok(targets) ==> targets@.len() == entries@.len() && forall|i: int|
            0 <= i < entries@.len() ==> opt_view(#[trigger] targets@[i]) == target_of(
                runtime_dir@,
                archive_prefix@,
                entries@[i]@,
            ),
{
    if !download_ok(status) {
        return Err(DepsError::NotFound { url: String::from_str(src_url) });
    }
    let mut targets: Vec<Option<String>> = Vec::new();
    let mut i: usize = 0;
    while i < entries.len()
        invariant
            i <= entries@.len(),
            targets@.len() == i,
            forall|j: int|
                0 <= j < i ==> opt_view(#[trigger] targets@[j]) == target_of(
                    runtime_dir@,
                    archive_prefix@,
                    entries@[j]@,
                ),
        decreases entries@.len() - i,
    {
        let target = extraction_target(runtime_dir, archive_prefix, entries[i].as_str());
        targets.push(target);
        i = i + 1;
    }
    Ok(targets)
}

} // verus!
