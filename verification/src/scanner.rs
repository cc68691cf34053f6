//! The size tree that a scan of a directory produces.

use vstd::prelude::*;
use vstd::string::StringExecFns;
use std::path::PathBuf;

verus! {

/// `std::path::PathBuf`, a path of the file system. It is carried through
/// without being examined.
#[verifier::external_type_specification]
#[verifier::external_body]
pub struct ExPathBuf(PathBuf);

/// `PathBuf::clone` returns a path equal to the one it is given.
pub assume_specification[ <PathBuf as Clone>::clone ](path: &PathBuf) -> (copy: PathBuf)
    ensures
        copy == *path,
;

/// A file or directory with its size in bytes. The size of a directory is
/// the total of what lies below it; its children are listed largest first.
#[derive(Debug)]
pub struct FileNode {
    pub name: String,
    pub path: PathBuf,
    pub size: u64,
    pub is_dir: bool,
    pub file_count: u64,
    pub children: Vec<FileNode>,
}

impl FileNode {
    /// The sizes of the children, in order.
    pub open spec fn child_sizes(&self) -> Seq<u64> {
        Seq::new(self.children@.len(), |i: int| self.children@[i].size)
    }

    /// Whether this is a directory with at least one child.
    pub open spec fn has_children(&self) -> bool {
        self.is_dir && self.children@.len() > 0
    }
}


/// The name of the placeholder that stands for the free space of a drive.
pub open spec fn free_space_name() -> Seq<char> {
    seq!['<', 'F', 'r', 'e', 'e', ' ', 'S', 'p', 'a', 'c', 'e', '>']
}

/// Position of the first child at or after `from` that is a directory called
/// `name`, or the number of children if there is none.
pub open spec fn dir_position(node: FileNode, from: int, name: Seq<char>) -> int
    decreases node.children@.len() - from,
{
    if from < 0 || from >= node.children@.len() {
        node.children@.len() as int
    } else if node.children@[from].name@ == name && node.children@[from].is_dir {
        from
    } else {
        dir_position(node, from + 1, name)
    }
}

/// The directory reached from `node` by following the segments `path[from..]`,
/// each naming the first directory of that name among the children.
pub open spec fn dir_at(node: FileNode, path: Seq<String>, from: int) -> Option<FileNode>
    decreases path.len() - from,
{
    if from < 0 || from >= path.len() {
        Some(node)
    } else {
        let at = dir_position(node, 0, path[from]@);
        if at < node.children@.len() {
            dir_at(node.children@[at], path, from + 1)
        } else {
            None
        }
    }
}

/// Finds the directory that `path` leads to from `root`, segment by segment.
pub fn find_dir_by_path<'a>(root: &'a FileNode, path: &[String]) -> (found: Option<&'a FileNode>)
    ensures
        found is Some <==> dir_at(*root, path@, 0) is Some,
        found is Some ==> *found->0 == dir_at(*root, path@, 0)->0,
{
    let mut current: &'a FileNode = root;
    let mut k: usize = 0;
    while k < path.len()
        invariant
            k <= path@.len(),
            dir_at(*current, path@, k as int) == dir_at(*root, path@, 0),
        decreases path@.len() - k,
    {
        let mut i: usize = 0;
        while i < current.children.len() && !(current.children[i].name == path[k] && current.children[i].is_dir)
            invariant
                i <= current.children@.len(),
                k < path@.len(),
                dir_position(*current, i as int, path@[k as int]@) == dir_position(*current, 0, path@[k as int]@),
            decreases current.children@.len() - i,
        {
            i = i + 1;
        }
        if i >= current.children.len() {
            return None;
        }
        current = &current.children[i];
        k = k + 1;
    }
    Some(current)
}

/// The first node with the given name and size, searching a node before its
/// children and the children in order.
pub open spec fn node_named(node: FileNode, name: Seq<char>, size: u64) -> Option<FileNode>
    decreases node, 1int, 0int,
{
    if node.name@ == name && node.size == size {
        Some(node)
    } else {
        node_named_among(node, 0, name, size)
    }
}

/// The first node with the given name and size below the children of `node`
/// at or after `from`.
pub open spec fn node_named_among(node: FileNode, from: int, name: Seq<char>, size: u64) -> Option<FileNode>
    decreases node, 0int, node.children@.len() - from,
{
    if from < 0 || from >= node.children@.len() {
        None
    } else {
        match node_named(node.children@[from], name, size) {
            Some(found) => Some(found),
            None => node_named_among(node, from + 1, name, size),
        }
    }
}

/// Finds the first node with the given name and size, searching a node before
/// its children and the children in order.
pub fn find_node<'a>(root: &'a FileNode, name: &String, size: u64) -> (found: Option<&'a FileNode>)
    ensures
        found is Some <==> node_named(*root, name@, size) is Some,
        found is Some ==> *found->0 == node_named(*root, name@, size)->0,
    decreases root,
{
    if root.name == *name && root.size == size {
        return Some(root);
    }
    let mut i: usize = 0;
    while i < root.children.len()
        invariant
            i <= root.children@.len(),
            !(root.name@ == name@ && root.size == size),
            node_named_among(*root, i as int, name@, size) == node_named_among(*root, 0, name@, size),
        decreases root.children@.len() - i,
    {
        let below: Option<&'a FileNode> = find_node(&root.children[i], name, size);
        if below.is_some() {
            return below;
        }
        i = i + 1;
    }
    None
}

/// Finds the path of the first node with the given name and size.
pub fn find_path_for_node(root: &FileNode, name: &String, size: u64) -> (found: Option<PathBuf>)
    ensures
        found is Some <==> node_named(*root, name@, size) is Some,
        found is Some ==> found->0 == node_named(*root, name@, size)->0.path,
{
    match find_node(root, name, size) {
        Some(node) => Some(node.path.clone()),
        None => None,
    }
}

/// The files below `node`, in order, directories searched where they stand;
/// the free-space placeholder is left out.
pub open spec fn files_below(node: FileNode) -> Seq<FileNode>
    decreases node, 1int, 0int,
{
    files_among(node, 0)
}

/// The files below the children of `node` at or after `from`.
pub open spec fn files_among(node: FileNode, from: int) -> Seq<FileNode>
    decreases node, 0int, node.children@.len() - from,
{
    if from < 0 || from >= node.children@.len() {
        Seq::empty()
    } else {
        let child = node.children@[from];
        let here = if child.is_dir {
            files_below(child)
        } else if child.name@ != free_space_name() {
            seq![child]
        } else {
            Seq::empty()
        };
        here + files_among(node, from + 1)
    }
}

/// The nodes that a list of references points to.
pub open spec fn referents(refs: Seq<&FileNode>) -> Seq<FileNode> {
    Seq::new(refs.len(), |i: int| *refs[i])
}

/// Appends to `files` every file below `node`, except the free-space
/// placeholder.
pub fn collect_all_files<'a>(node: &'a FileNode, files: &mut Vec<&'a FileNode>)
    ensures
        referents(final(files)@) == referents(old(files)@) + files_below(*node),
    decreases node,
{
    proof {
        reveal_strlit("<Free Space>");
    }
    let placeholder: String = String::from_str("<Free Space>");
    assert(placeholder@ =~= free_space_name());
    let ghost before = referents(files@);
    let mut i: usize = 0;
    while i < node.children.len()
        invariant
            i <= node.children@.len(),
            placeholder@ == free_space_name(),
            referents(files@) + files_among(*node, i as int) == before + files_among(*node, 0),
        decreases node.children@.len() - i,
    {
        let child: &'a FileNode = &node.children[i];
        let ghost so_far = referents(files@);
        if child.is_dir {
            collect_all_files(child, files);
        } else if child.name != placeholder {
            proof {
                assert(referents(files@.push(child)) =~= so_far + seq![*child]);
            }
            files.push(child);
        } else {
            assert(so_far =~= so_far + Seq::<FileNode>::empty());
        }
        assert(referents(files@) + files_among(*node, i + 1) =~= so_far + (files_among(*node, i as int)));
        i = i + 1;
    }
    assert(files_among(*node, node.children@.len() as int) =~= Seq::<FileNode>::empty());
    assert(referents(files@) =~= referents(files@) + Seq::<FileNode>::empty());
}


/// Whether two trees hold the same names, paths, sizes and kinds in the same
/// shape.
pub open spec fn same_tree(a: FileNode, b: FileNode) -> bool
    decreases a,
{
    &&& a.name@ == b.name@
    &&& a.path == b.path
    &&& a.size == b.size
    &&& a.is_dir == b.is_dir
    &&& a.file_count == b.file_count
    &&& a.children@.len() == b.children@.len()
    &&& forall|i: int| 0 <= i < a.children@.len() ==> same_tree(#[trigger] a.children@[i], b.children@[i])
}

impl Clone for FileNode {
    /// A copy of the whole tree below this node.
    fn clone(&self) -> (copy: FileNode)
        ensures
            same_tree(copy, *self),
        decreases self,
    {
        let mut children: Vec<FileNode> = Vec::with_capacity(self.children.len());
        let mut i: usize = 0;
        while i < self.children.len()
            invariant
                i <= self.children@.len(),
                children@.len() == i,
                forall|j: int| 0 <= j < i ==> same_tree(#[trigger] children@[j], self.children@[j]),
            decreases self.children@.len() - i,
        {
            children.push(self.children[i].clone());
            i = i + 1;
        }
        FileNode {
            name: self.name.clone(),
            path: self.path.clone(),
            size: self.size,
            is_dir: self.is_dir,
            file_count: self.file_count,
            children,
        }
    }
}

} // verus!
