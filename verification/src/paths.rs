//! Local paths of a transfer: the temp file and its side files, names derived from a remote
//! path, and numbered duplicates of a path that is taken.
//!
//! Paths are handled as text. They are taken apart and put together by `std::path`, in the
//! path syntax of the platform that the program runs on; what `std::path` gives is named
//! here, and the contracts say how the named results are put together.

use crate::decimal::{decimal, usize_to_decimal};
use crate::text::{
    chars_of, has_char, join3, last_index_of, last_position, string_of_range, trim_end_char,
    without_trailing,
};
use std::path::Path;
use vstd::prelude::*;

verus! {

/// What `std::path::Path::parent` gives for `path`.
pub uninterp spec fn path_parent(path: Seq<char>) -> Option<Seq<char>>;

/// What `std::path::Path::file_name` gives for `path`.
pub uninterp spec fn path_file_name(path: Seq<char>) -> Option<Seq<char>>;

/// What `std::path::Path::join` makes of `base` and `child`.
pub uninterp spec fn path_join(base: Seq<char>, child: Seq<char>) -> Seq<char>;

/// What `std::path::Path::with_extension` makes of `path` and `extension`.
pub uninterp spec fn path_with_extension(path: Seq<char>, extension: Seq<char>) -> Seq<char>;

/// `Path::parent`: the path without its final component, if there is one. The result is
/// named [`path_parent`].
#[verifier::external_body]
pub(crate) fn parent_of(path: &str) -> (parent: Option<String>)
    ensures
        match parent {
            Some(p) => path_parent(path@) == Some(p@),
            None => path_parent(path@) is None,
        },
{
    Path::new(path).parent().map(|p| p.to_string_lossy().into_owned())
}

/// `Path::file_name`: the final component of the path, if there is one. The result is named
/// [`path_file_name`].
#[verifier::external_body]
pub(crate) fn file_name_of(path: &str) -> (name: Option<String>)
    ensures
        match name {
            Some(n) => path_file_name(path@) == Some(n@),
            None => path_file_name(path@) is None,
        },
{
    Path::new(path).file_name().map(|n| n.to_string_lossy().into_owned())
}

/// `Path::join`: `child` below `base`. The result is named [`path_join`].
#[verifier::external_body]
pub(crate) fn join_paths(base: &str, child: &str) -> (joined: String)
    ensures
        joined@ == path_join(base@, child@),
{
    Path::new(base).join(child).to_string_lossy().into_owned()
}

/// `Path::with_extension`: the path with its extension replaced. The result is named
/// [`path_with_extension`]. An extension that holds a path separator is left out, because
/// the call panics on it.
#[verifier::external_body]
fn replace_extension(path: &str, extension: &str) -> (changed: String)
    requires
        !has_char(extension@, '/'),
        !has_char(extension@, '\\'),
    ensures
        changed@ == path_with_extension(path@, extension@),
{
    Path::new(path).with_extension(extension).to_string_lossy().into_owned()
}

/// What `std::path::Path::extension` gives for `path`.
pub uninterp spec fn path_extension(path: Seq<char>) -> Option<Seq<char>>;

/// Whether `std::path::Path::starts_with` finds `base` at the front of `path`, component
/// by component.
pub uninterp spec fn path_starts_with(path: Seq<char>, base: Seq<char>) -> bool;

/// The components that `std::path::Path::components` reads in `path`.
pub uninterp spec fn path_parts(path: Seq<char>) -> Seq<PartView>;

/// One component of a path.
#[derive(Clone, Debug, PartialEq, Eq)]
pub enum PathPart {
    /// A drive or share in front of a path, on platforms that have them.
    Prefix,
    /// The root.
    RootDir,
    /// `.`
    CurDir,
    /// `..`
    ParentDir,
    /// A name.
    Normal(String),
}

/// One component of a path, as plain values.
pub enum PartView {
    Prefix,
    RootDir,
    CurDir,
    ParentDir,
    Normal(Seq<char>),
}

impl View for PathPart {
    type V = PartView;

    open spec fn view(&self) -> PartView {
        match self {
            PathPart::Prefix => PartView::Prefix,
            PathPart::RootDir => PartView::RootDir,
            PathPart::CurDir => PartView::CurDir,
            PathPart::ParentDir => PartView::ParentDir,
            PathPart::Normal(name) => PartView::Normal(name@),
        }
    }
}

/// The components of a sequence of parts, as plain values.
pub open spec fn part_views(parts: Seq<PathPart>) -> Seq<PartView> {
    parts.map_values(|p: PathPart| p@)
}

/// `Path::extension`: the extension of the final component, if it has one. The result is
/// named [`path_extension`].
#[verifier::external_body]
pub(crate) fn extension_of(path: &str) -> (extension: Option<String>)
    ensures
        match extension {
            Some(e) => path_extension(path@) == Some(e@),
            None => path_extension(path@) is None,
        },
{
    Path::new(path).extension().map(|e| e.to_string_lossy().into_owned())
}

/// `Path::starts_with`: whether `base` is a prefix of `path`, whole components only. The
/// result is named [`path_starts_with`].
#[verifier::external_body]
pub(crate) fn path_begins_with(path: &str, base: &str) -> (begins: bool)
    ensures
        begins == path_starts_with(path@, base@),
{
    Path::new(path).starts_with(base)
}

/// `Path::components`: the components of the path, in order. The result is named
/// [`path_parts`].
#[verifier::external_body]
pub(crate) fn components_of(path: &str) -> (parts: Vec<PathPart>)
    ensures
        part_views(parts@) == path_parts(path@),
{
    Path::new(path)
        .components()
        .map(|component| match component {
            std::path::Component::Prefix(_) => PathPart::Prefix,
            std::path::Component::RootDir => PathPart::RootDir,
            std::path::Component::CurDir => PathPart::CurDir,
            std::path::Component::ParentDir => PathPart::ParentDir,
            std::path::Component::Normal(name) => PathPart::Normal(
                name.to_string_lossy().into_owned(),
            ),
        })
        .collect()
}

/// `Path::exists`: whether the path points at something on disk right now. Nothing is
/// promised of the answer.
#[verifier::external_body]
fn path_exists(path: &str) -> bool {
    Path::new(path).exists()
}

/// Why no local path could be derived.
#[derive(Clone, Copy, Debug, PartialEq, Eq, Structural)]
pub enum PathError {
    /// The output path has no final component to name the temp file after.
    NoFileName,
}

/// The name of the temp file that receives a download named `name`: hidden, and marked.
pub open spec fn temp_name(name: Seq<char>) -> Seq<char> {
    "."@ + name + ".tmp"@
}

/// The temp file of the output path `output`: beside it, named after its final component.
/// An output path without a parent has its temp file in the current directory.
pub open spec fn temp_path(output: Seq<char>) -> Option<Seq<char>> {
    match path_file_name(output) {
        None => None,
        Some(name) => Some(
            path_join(
                match path_parent(output) {
                    Some(parent) => parent,
                    None => "."@,
                },
                temp_name(name),
            ),
        ),
    }
}

/// The name of the temp file that receives a download named `name`.
pub fn temp_file_name(name: &str) -> (temp: String)
    ensures
        temp@ == temp_name(name@),
{
    join3(".", name, ".tmp")
}

/// The temp file of the output path `output`. Fails where the path has no final component.
pub fn download_temp_path(output: &str) -> (temp: Result<String, PathError>)
    ensures
        match temp {
            Ok(path) => temp_path(output@) == Some(path@),
            Err(e) => e == PathError::NoFileName && temp_path(output@) is None,
        },
{
    let name = match file_name_of(output) {
        Some(name) => name,
        None => {
            return Err(PathError::NoFileName);
        },
    };
    let temp = temp_file_name(name.as_str());
    match parent_of(output) {
        Some(parent) => Ok(join_paths(parent.as_str(), temp.as_str())),
        None => Ok(join_paths(".", temp.as_str())),
    }
}

/// The state file of the temp file `temp_path`: its extension `tmp` becomes `tmp.state`.
pub fn partial_state_path(temp_path: &str) -> (state: String)
    ensures
        state@ == path_with_extension(temp_path@, "tmp.state"@),
{
    proof {
        reveal_strlit("tmp.state");
        assert("tmp.state"@ =~= seq!['t', 'm', 'p', '.', 's', 't', 'a', 't', 'e']);
    }
    replace_extension(temp_path, "tmp.state")
}

/// The staging file through which the state file of `temp_path` is replaced.
pub fn partial_state_tmp_path(temp_path: &str) -> (staging: String)
    ensures
        staging@ == path_with_extension(temp_path@, "tmp.state.tmp"@),
{
    proof {
        reveal_strlit("tmp.state.tmp");
        assert("tmp.state.tmp"@ =~= seq![
            't',
            'm',
            'p',
            '.',
            's',
            't',
            'a',
            't',
            'e',
            '.',
            't',
            'm',
            'p',
        ]);
    }
    replace_extension(temp_path, "tmp.state.tmp")
}

/// The files of one transfer: the temp file that receives the bytes, the state file beside
/// it, and the staging file through which the state file is replaced.
#[derive(Clone, Debug, PartialEq, Eq)]
pub struct TempPaths {
    pub temp: String,
    pub state: String,
    pub staging: String,
}

/// The files of the transfer to the output path `output`. Fails where the path has no final
/// component.
pub fn temp_paths(output: &str) -> (paths: Result<TempPaths, PathError>)
    ensures
        match paths {
            Ok(p) => temp_path(output@) == Some(p.temp@) && p.state@ == path_with_extension(
                p.temp@,
                "tmp.state"@,
            ) && p.staging@ == path_with_extension(p.temp@, "tmp.state.tmp"@),
            Err(e) => e == PathError::NoFileName && temp_path(output@) is None,
        },
{
    match download_temp_path(output) {
        Ok(temp) => {
            let state = partial_state_path(temp.as_str());
            let staging = partial_state_tmp_path(temp.as_str());
            Ok(TempPaths { temp, state, staging })
        },
        Err(e) => Err(e),
    }
}

/// The local name for the remote path `remote`: its final component, trailing slashes
/// aside; `download` where it has none.
pub open spec fn derived_name(remote: Seq<char>) -> Seq<char> {
    match path_file_name(without_trailing(remote, '/')) {
        Some(name) => name,
        None => "download"@,
    }
}

/// The local file name for the remote path `remote`.
pub fn derive_file_name(remote: &str) -> (name: String)
    ensures
        name@ == derived_name(remote@),
{
    let clean = trim_end_char(remote, '/');
    match file_name_of(clean.as_str()) {
        Some(name) => name,
        None => String::from_str("download"),
    }
}

/// The local directory name for the remote directory `remote`.
pub fn derive_directory_name(remote: &str) -> (name: String)
    ensures
        name@ == derived_name(remote@),
{
    derive_file_name(remote)
}

/// The file name `name` with the number `index` behind its stem. The stem ends at the last
/// dot, which opens the extension; a dot at the very front opens none, and a dot at the very
/// end is dropped with its empty extension. An empty name counts as `download`.
pub open spec fn suffixed_name(name: Seq<char>, index: nat) -> Seq<char> {
    let name = if name.len() == 0 {
        "download"@
    } else {
        name
    };
    let dot = last_position(name, '.');
    if dot <= 0 {
        name + "-"@ + decimal(index)
    } else if dot + 1 < name.len() {
        name.take(dot) + "-"@ + decimal(index) + name.skip(dot)
    } else {
        name.take(dot) + "-"@ + decimal(index)
    }
}

/// The path `base` with the number `index` behind the stem of its final component, in the
/// same directory. A path without a final component is numbered as `download`.
pub open spec fn suffixed_path(base: Seq<char>, index: nat) -> Seq<char> {
    let name = suffixed_name(
        match path_file_name(base) {
            Some(name) => name,
            None => "download"@,
        },
        index,
    );
    match path_parent(base) {
        Some(parent) => if parent.len() == 0 {
            name
        } else {
            path_join(parent, name)
        },
        None => name,
    }
}

/// The file name `name` with the number `index` behind its stem.
pub fn name_with_suffix(name: &str, index: usize) -> (numbered: String)
    ensures
        numbered@ == suffixed_name(name@, index as nat),
{
    let number = usize_to_decimal(index);
    let chars = if name.unicode_len() == 0 {
        chars_of("download")
    } else {
        chars_of(name)
    };
    match last_index_of(&chars, '.') {
        Some(dot) => {
            if dot == 0 {
                let whole = string_of_range(&chars, 0, chars.len());
                assert(chars@.subrange(0, chars@.len() as int) =~= chars@);
                join3(whole.as_str(), "-", number.as_str())
            } else {
                let stem = string_of_range(&chars, 0, dot);
                let mut numbered = join3(stem.as_str(), "-", number.as_str());
                if dot < chars.len() - 1 {
                    let extension = string_of_range(&chars, dot, chars.len());
                    numbered.append(extension.as_str());
                }
                numbered
            }
        },
        None => {
            let whole = string_of_range(&chars, 0, chars.len());
            assert(chars@.subrange(0, chars@.len() as int) =~= chars@);
            join3(whole.as_str(), "-", number.as_str())
        },
    }
}

/// The path `base` with the number `index` behind the stem of its final component.
pub fn path_with_suffix(base: &str, index: usize) -> (numbered: String)
    ensures
        numbered@ == suffixed_path(base@, index as nat),
{
    let name = match file_name_of(base) {
        Some(name) => name,
        None => String::from_str("download"),
    };
    let numbered = name_with_suffix(name.as_str(), index);
    match parent_of(base) {
        Some(parent) => {
            if parent.as_str().unicode_len() == 0 {
                numbered
            } else {
                join_paths(parent.as_str(), numbered.as_str())
            }
        },
        None => numbered,
    }
}

/// The `index`-th path tried in the search for a free path: `base` itself first, then its
/// numbered duplicates.
pub open spec fn candidate(base: Seq<char>, index: nat) -> Seq<char> {
    if index == 0 {
        base
    } else {
        suffixed_path(base, index)
    }
}

/// What follows the probe of one candidate.
#[derive(Debug, PartialEq, Eq)]
pub enum SearchStep {
    /// The candidate is free: use it.
    Found(String),
    /// The candidate is taken: probe this path, which has this index, next.
    Probe { path: String, index: usize },
    /// Every number has been tried.
    Exhausted,
}

/// The `index`-th path tried in the search for a free path.
pub fn candidate_path(base: &str, index: usize) -> (path: String)
    ensures
        path@ == candidate(base@, index as nat),
{
    if index == 0 {
        String::from_str(base)
    } else {
        path_with_suffix(base, index)
    }
}

/// Decides what follows the probe of candidate number `index`, given whether it exists.
pub fn after_probe(base: &str, index: usize, exists: bool) -> (step: SearchStep)
    ensures
        match step {
            SearchStep::Found(path) => !exists && path@ == candidate(base@, index as nat),
            SearchStep::Probe { path, index: next } => exists && next == index + 1 && path@
                == candidate(base@, next as nat),
            SearchStep::Exhausted => exists && index == usize::MAX,
        },
{
    if !exists {
        SearchStep::Found(candidate_path(base, index))
    } else if index == usize::MAX {
        SearchStep::Exhausted
    } else {
        SearchStep::Probe { path: candidate_path(base, index + 1), index: index + 1 }
    }
}

/// The index of the path that the search settles on when it is about to probe candidate
/// `index` and `taken` tells which paths exist: the first candidate from there on that is
/// not taken, if the numbers reach that far.
pub open spec fn first_free_from(
    base: Seq<char>,
    taken: spec_fn(Seq<char>) -> bool,
    index: nat,
) -> Option<nat>
    decreases usize::MAX - index,
{
    if !taken(candidate(base, index)) {
        Some(index)
    } else if index >= usize::MAX {
        None
    } else {
        first_free_from(base, taken, index + 1)
    }
}

/// The path that the search for a free path settles on, where `taken` tells which paths
/// exist.
pub open spec fn next_available(base: Seq<char>, taken: spec_fn(Seq<char>) -> bool) -> Option<
    Seq<char>,
> {
    match first_free_from(base, taken, 0) {
        Some(index) => Some(candidate(base, index)),
        None => None,
    }
}

proof fn lemma_first_free_from(
    base: Seq<char>,
    taken: spec_fn(Seq<char>) -> bool,
    index: nat,
)
    requires
        index <= usize::MAX,
    ensures
        match first_free_from(base, taken, index) {
            Some(found) => index <= found <= usize::MAX && !taken(candidate(base, found))
                && forall|k: nat| index <= k < found ==> taken(#[trigger] candidate(base, k)),
            None => forall|k: nat| index <= k <= usize::MAX ==> taken(#[trigger] candidate(base, k)),
        },
    decreases usize::MAX - index,
{
    if taken(candidate(base, index)) && index < usize::MAX {
        lemma_first_free_from(base, taken, index + 1);
    }
}

/// The search for a free path returns the path itself where it is not taken. Otherwise it
/// returns the numbered duplicate with the smallest number from one on that is not taken:
/// the result is free, and the path and every duplicate with a smaller number are taken.
pub proof fn lemma_next_available_is_first_free(base: Seq<char>, taken: spec_fn(Seq<char>) -> bool)
    ensures
        !taken(base) ==> next_available(base, taken) == Some(base),
        taken(base) ==> match first_free_from(base, taken, 0) {
            Some(n) => n >= 1 && next_available(base, taken) == Some(suffixed_path(base, n))
                && !taken(suffixed_path(base, n)) && forall|k: nat|
                1 <= k < n ==> taken(#[trigger] suffixed_path(base, k)),
            None => next_available(base, taken) is None,
        },
{
    lemma_first_free_from(base, taken, 0);
    match first_free_from(base, taken, 0) {
        Some(n) => {
            assert forall|k: nat| 1 <= k < n implies taken(#[trigger] suffixed_path(base, k)) by {
                assert(taken(candidate(base, k)));
            }
        },
        None => {},
    }
}

/// Searches for a path that does not exist yet: `base` itself, else its numbered duplicates
/// from one on, each probed on disk in turn. Whatever the disk answers, the result is one of
/// the candidates, and it is the one whose probe came back free; `None` only after every
/// number has been tried.
pub fn next_available_path(base: &str) -> (free: Option<String>)
    ensures
        match free {
            Some(path) => exists|index: nat| #[trigger] candidate(base@, index) == path@,
            None => true,
        },
{
    let mut path = candidate_path(base, 0);
    let mut index: usize = 0;
    loop
        invariant
            path@ == candidate(base@, index as nat),
        decreases usize::MAX - index,
    {
        let exists = path_exists(path.as_str());
        match after_probe(base, index, exists) {
            SearchStep::Found(found) => {
                return Some(found);
            },
            SearchStep::Probe { path: next_path, index: next_index } => {
                path = next_path;
                index = next_index;
            },
            SearchStep::Exhausted => {
                return None;
            },
        }
    }
}

} // verus!
