use vstd::prelude::*;

verus! {

/// One directory entry discovered during a scan: its display name, whether it
/// was classified as a git repository, and the subdirectories found inside it.
///
/// A repository's `children` play no role in rendering: a repository is a
/// traversal leaf, and the renderer never descends into it.
pub struct DirNode {
    pub name: String,
    pub is_repository: bool,
    pub children: Vec<DirNode>,
}

impl DirNode {
    /// A plain (non-repository) directory with the given subdirectories.
    pub fn plain(name: String, children: Vec<DirNode>) -> (r: DirNode)
        ensures
            r.name == name,
            !r.is_repository,
            r.children == children,
    {
        DirNode { name, is_repository: false, children }
    }

    /// A directory classified as a git repository: a leaf of the traversal.
    pub fn repository(name: String) -> (r: DirNode)
        ensures
            r.name == name,
            r.is_repository,
            r.children@.len() == 0,
    {
        DirNode { name, is_repository: true, children: Vec::new() }
    }
}

} // verus!
