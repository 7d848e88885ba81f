//! What the catalog keeps of the files it has seen.

use crate::text::chars_of;
use vstd::prelude::*;

verus! {

/// An entry of the catalog as it is looked up by id.
#[derive(Clone, Debug, PartialEq, Eq)]
pub struct CatalogEntry {
    pub relative_path: String,
    pub is_dir: bool,
}

/// What is recorded of a file or directory.
#[derive(Clone, Debug, PartialEq, Eq)]
pub struct EntryInfo {
    pub relative_path: String,
    pub name: String,
    pub parent_path: Option<String>,
    pub is_dir: bool,
    pub size_bytes: u64,
    pub mime_type: String,
    pub modified: i64,
}

impl EntryInfo {
    /// A record of these values.
    pub fn new(
        relative_path: String,
        name: String,
        parent_path: Option<String>,
        is_dir: bool,
        size_bytes: u64,
        mime_type: String,
        modified: i64,
    ) -> (info: Self)
        ensures
            info.relative_path == relative_path,
            info.name == name,
            info.parent_path == parent_path,
            info.is_dir == is_dir,
            info.size_bytes == size_bytes,
            info.mime_type == mime_type,
            info.modified == modified,
    {
        EntryInfo { relative_path, name, parent_path, is_dir, size_bytes, mime_type, modified }
    }
}

/// What the catalog's worker can be asked to do.
#[derive(Clone, Copy, Debug, PartialEq, Eq, Structural)]
pub enum CatalogCommand {
    /// Scan the whole tree again.
    RefreshAll,
}

/// The media type recorded for a directory.
pub const DIRECTORY_MIME_TYPE: &'static str = "inode/directory";

/// The media type recorded for a file whose type is not known.
pub const DEFAULT_MIME_TYPE: &'static str = "application/octet-stream";

/// The size as the catalog stores it: a signed number, so sizes beyond its range are stored
/// as the largest one.
pub fn stored_size(size_bytes: u64) -> (stored: i64)
    ensures
        stored == if size_bytes > i64::MAX {
            i64::MAX as int
        } else {
            size_bytes as int
        },
{
    if size_bytes > i64::MAX as u64 {
        i64::MAX
    } else {
        size_bytes as i64
    }
}

/// The size recorded for an entry: a directory counts as empty.
pub fn recorded_size(is_dir: bool, len: u64) -> (size: u64)
    ensures
        size == if is_dir {
            0
        } else {
            len
        },
{
    if is_dir {
        0
    } else {
        len
    }
}

/// The media type recorded for an entry: directories have their own, and a file has the
/// type that was guessed for it or the default one.
pub fn recorded_mime_type(is_dir: bool, guessed: Option<&str>) -> (mime: String)
    ensures
        mime@ == if is_dir {
            DIRECTORY_MIME_TYPE@
        } else {
            match guessed {
                Some(g) => g@,
                None => DEFAULT_MIME_TYPE@,
            }
        },
{
    if is_dir {
        String::from_str(DIRECTORY_MIME_TYPE)
    } else {
        match guessed {
            Some(g) => String::from_str(g),
            None => String::from_str(DEFAULT_MIME_TYPE),
        }
    }
}

/// The seconds between two scans of the tree: at least one.
pub fn refresh_interval(interval_secs: u64) -> (seconds: u64)
    ensures
        seconds == if interval_secs < 1 {
            1
        } else {
            interval_secs
        },
{
    if interval_secs < 1 {
        1
    } else {
        interval_secs
    }
}

/// How many names a relative path is made of: the stretches between its slashes that are
/// not empty.
pub open spec fn depth_of(path: Seq<char>) -> nat
    decreases path.len(),
{
    if path.len() == 0 {
        0
    } else {
        let opens = path.last() != '/' && (path.len() == 1 || path[path.len() - 2] == '/');
        depth_of(path.drop_last()) + if opens {
            1nat
        } else {
            0nat
        }
    }
}

/// How many names a relative path is made of. Parents are recorded before their children
/// by sorting the entries of a scan by this number.
pub fn entry_depth(relative_path: &str) -> (depth: usize)
    ensures
        depth == depth_of(relative_path@),
{
    let v = chars_of(relative_path);
    let mut depth: usize = 0;
    let mut i: usize = 0;
    assert(v@.take(0) =~= Seq::<char>::empty());
    while i < v.len()
        invariant
            i <= v@.len(),
            depth == depth_of(v@.take(i as int)),
            depth <= i,
        decreases v@.len() - i,
    {
        proof {
            let next = v@.take(i as int + 1);
            assert(next.drop_last() =~= v@.take(i as int));
            assert(next.last() == v@[i as int]);
            if i > 0 {
                assert(next[next.len() - 2] == v@[i - 1]);
            }
        }
        if v[i] != '/' && (i == 0 || v[i - 1] == '/') {
            depth += 1;
        }
        i += 1;
    }
    assert(v@.take(i as int) =~= v@);
    depth
}

} // verus!
