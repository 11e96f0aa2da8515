//! The project file tree shown next to a session.
use vstd::prelude::*;
use crate::model::FileNode;
use crate::order::{SortKey, stable_sort, stably_sorted};
use crate::text::{views, owned};
use crate::paths::{skipped_name, should_skip};

verus! {

/// What `str::to_lowercase` gives for the text.
pub uninterp spec fn lowercase(s: Seq<char>) -> Seq<char>;

/// Calls `str::to_lowercase`; the result is named `lowercase`.
#[verifier::external_body]
pub(crate) fn to_lowercase(s: &str) -> (r: String)
    ensures
        r@ == lowercase(s@),
{
    s.to_lowercase()
}

/// The kind of an entry, as the file tree names it.
pub open spec fn kind_of(is_dir: bool) -> Seq<char> {
    if is_dir {
        "directory"@
    } else {
        "file"@
    }
}

/// An entry of the file tree; a file has no children.
pub fn file_node(name: String, path: String, is_dir: bool, children: Vec<FileNode>) -> (n: FileNode)
    ensures
        n.name@ == name@,
        n.path@ == path@,
        n.kind@ == kind_of(is_dir),
        n.children@ == if is_dir {
            children@
        } else {
            Seq::<FileNode>::empty()
        },
{
    let kind = if is_dir {
        owned("directory")
    } else {
        owned("file")
    };
    let children = if is_dir {
        children
    } else {
        Vec::new()
    };
    FileNode { name, path, kind, children }
}

impl SortKey for FileNode {
    /// Directories before files (`"directory" < "file"`), then by name without
    /// regard to case.
    open spec fn key_of(&self) -> Seq<Seq<char>> {
        seq![self.kind@, lowercase(self.name@)]
    }

    fn sort_key(&self) -> (k: Vec<String>) {
        let mut k: Vec<String> = Vec::new();
        k.push(self.kind.clone());
        k.push(to_lowercase(self.name.as_str()));
        assert(views(k@) =~= seq![self.kind@, lowercase(self.name@)]);
        k
    }
}

/// At most this many entries of a directory are looked at.
pub const MAX_TREE_ENTRIES: usize = 160;

/// A directory at `depth` is listed when it lies above `max_depth`.
pub open spec fn lists_level(depth: nat, max_depth: nat) -> bool {
    depth < max_depth
}

/// Whether the directory at `depth` is listed at all.
pub fn lists_directory(depth: usize, max_depth: usize) -> (b: bool)
    ensures
        b == lists_level(depth as nat, max_depth as nat),
{
    depth < max_depth
}

/// Positions, among the first `n` entries, of those whose names are not
/// left out, in order.
pub open spec fn shown_upto(names: Seq<Seq<char>>, n: int) -> Seq<int>
    decreases n,
{
    if n <= 0 {
        Seq::empty()
    } else {
        let prev = shown_upto(names, n - 1);
        if skipped_name(names[n - 1]) {
            prev
        } else {
            prev.push(n - 1)
        }
    }
}

/// Positions of the entries of a directory that the tree shows: of its first
/// `MAX_TREE_ENTRIES` entries, those whose names are not left out.
pub open spec fn shown_entries(names: Seq<Seq<char>>) -> Seq<int> {
    shown_upto(
        names,
        if names.len() <= MAX_TREE_ENTRIES {
            names.len() as int
        } else {
            MAX_TREE_ENTRIES as int
        },
    )
}

/// The entries of a directory, given by name in the order they were read,
/// that the tree shows.
pub fn shown_entry_positions(names: &Vec<String>) -> (r: Vec<usize>)
    ensures
        r@.map_values(|i: usize| i as int) == shown_entries(views(names@)),
{
    let n = if names.len() <= MAX_TREE_ENTRIES {
        names.len()
    } else {
        MAX_TREE_ENTRIES
    };
    let mut r: Vec<usize> = Vec::new();
    let mut i: usize = 0;
    while i < n
        invariant
            i <= n <= names@.len(),
            r@.map_values(|k: usize| k as int) == shown_upto(views(names@), i as int),
        decreases n - i,
    {
        let ghost before = r@;
        assert(views(names@)[i as int] == names@[i as int]@);
        if !should_skip(names[i].as_str()) {
            r.push(i);
            assert(r@.map_values(|k: usize| k as int) =~= before.map_values(|k: usize| k as int).push(i as int));
        }
        i = i + 1;
    }
    r
}

/// Orders the entries of one directory: by kind, then by name without regard
/// to case; entries that compare equal keep their order.
pub fn sort_file_nodes(nodes: &mut Vec<FileNode>)
    ensures
        stably_sorted(old(nodes)@, final(nodes)@, false),
{
    stable_sort(nodes, false);
}

} // verus!
