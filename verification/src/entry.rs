//! The model of a filesystem entry as the scan sees it, and the size
//! filter that decides which entries count as matches.

use vstd::prelude::*;

verus! {

/// Files strictly larger than this many bytes (100 MiB) are matches.
pub const MIN_FILE_SIZE: u64 = 100 * 1024 * 1024;

/// What kind of object a traversal entry is.
#[derive(Clone, Copy, Debug, PartialEq, Eq, Structural)]
pub enum EntryKind {
    /// A regular file.
    File,
    /// A directory.
    Directory,
    /// Anything else (symlink, device, socket, ...).
    Other,
}

/// One entry yielded by a directory traversal, reduced to the plain
/// values the filter reads: its path, its kind, and its byte length.
/// `size` is `None` when the metadata could not be read (the entry
/// vanished, or permission was revoked): such an entry is skipped,
/// never an error.
#[derive(Debug)]
pub struct FsEntry {
    pub path: String,
    pub kind: EntryKind,
    pub size: Option<u64>,
}

/// An entry is a match when it is a regular file whose length is known
/// and strictly exceeds the threshold; a file of exactly the threshold
/// size is excluded.
pub open spec fn entry_matches(e: FsEntry) -> bool {
    &&& e.kind == EntryKind::File
    &&& e.size is Some
    &&& e.size->0 > MIN_FILE_SIZE
}

/// The size filter: decides, from the entry alone, whether it is a match.
pub fn is_large_file(e: &FsEntry) -> (b: bool)
    ensures
        b == entry_matches(*e),
{
    match e.kind {
        EntryKind::File => match e.size {
            Some(n) => n > MIN_FILE_SIZE,
            None => false,
        },
        _ => false,
    }
}

/// The final component of a `/`-separated path: the characters after the
/// last `/`, or the whole path when it holds no `/`.
pub open spec fn base_name(p: Seq<char>) -> Seq<char>
    decreases p.len(),
{
    if p.len() == 0 {
        p
    } else if p.last() == '/' {
        Seq::<char>::empty()
    } else {
        base_name(p.drop_last()).push(p.last())
    }
}

/// When everything from `cut` on is free of `/` and `cut` sits right
/// after a `/` (or at the start), the base name is exactly the suffix
/// that starts at `cut`.
proof fn lemma_base_name_suffix(p: Seq<char>, cut: int)
    requires
        0 <= cut <= p.len(),
        cut == 0 || p[cut - 1] == '/',
        forall|j: int| cut <= j < p.len() ==> p[j] != '/',
    ensures
        base_name(p) == p.subrange(cut, p.len() as int),
    decreases p.len(),
{
    if p.len() == 0 {
        assert(base_name(p) =~= p.subrange(0, 0));
    } else if cut == p.len() {
        assert(p.last() == '/');
        assert(base_name(p) =~= p.subrange(cut, p.len() as int));
    } else {
        assert(p.last() != '/');
        lemma_base_name_suffix(p.drop_last(), cut);
        assert(p.subrange(cut, p.len() as int) =~= p.drop_last().subrange(
            cut,
            p.len() - 1,
        ).push(p.last()));
    }
}

/// The file name of a path: the component after the last `/`.
pub fn file_name_of(path: &str) -> (r: String)
    ensures
        r@ == base_name(path@),
{
    let n = path.unicode_len();
    let mut cut: usize = n;
    loop
        invariant
            cut <= n,
            n == path@.len(),
            forall|j: int| cut <= j < n ==> path@[j] != '/',
        ensures
            cut <= n,
            forall|j: int| cut <= j < n ==> path@[j] != '/',
            cut == 0 || path@[cut - 1] == '/',
        decreases cut,
    {
        if cut == 0 {
            break ;
        }
        if path.get_char(cut - 1) == '/' {
            break ;
        }
        cut = cut - 1;
    }
    proof {
        lemma_base_name_suffix(path@, cut as int);
    }
    path.substring_char(cut, n).to_owned()
}

} // verus!
