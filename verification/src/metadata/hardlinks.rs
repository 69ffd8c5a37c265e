//! Hard link tracking: the paths that lead to an inode.
//!
//! The link count of an inode is the number of its paths.

use crate::error::{Error, Result};
use crate::table::{names_in, scopes_of, ScopedKey, ScopedTable};
use vstd::prelude::*;
use vstd::string::StringExecFns;

verus! {

/// The paths of the inodes.
pub struct HardLinkStore {
    links: ScopedTable<()>,
}

impl HardLinkStore {
    /// The links: one key per inode and path.
    pub closed spec fn table(&self) -> ScopedTable<()> {
        self.links
    }

    /// The paths of an inode, in the order in which they were linked.
    pub open spec fn paths(&self, inode: u64) -> Seq<Seq<char>> {
        names_in(self.table().keys(), inode)
    }

    /// The representation invariant.
    pub open spec fn wf(&self) -> bool {
        self.table().wf()
    }

    /// Create an empty store.
    pub fn new() -> (r: Self)
        ensures
            r.wf(),
            r.table().keys().len() == 0,
    {
        HardLinkStore { links: ScopedTable::new() }
    }

    /// Create a new hard link for an inode; a path that is linked already is
    /// not linked twice. The link count after the call comes back.
    pub fn create_link(&mut self, inode: u64, path: &str) -> (r: u64)
        requires
            old(self).wf(),
        ensures
            final(self).wf(),
            final(self).table().has((inode, path@)),
            forall|k: ScopedKey|
                k != (inode, path@) ==> #[trigger] final(self).table().has(k) == old(self).table().has(k),
            final(self).table().keys() == if old(self).table().has((inode, path@)) {
                old(self).table().keys()
            } else {
                old(self).table().keys().push((inode, path@))
            },
            r == final(self).paths(inode).len(),
    {
        self.links.insert(inode, String::from_str(path), ());
        self.get_link_count(inode)
    }

    /// Remove a hard link from an inode; the link count after the call comes
    /// back. A path that is not linked gives `PathNotFound`.
    pub fn remove_link(&mut self, inode: u64, path: &str) -> (r: Result<u64>)
        requires
            old(self).wf(),
        ensures
            final(self).wf(),
            r.is_ok() == old(self).table().has((inode, path@)),
            !final(self).table().has((inode, path@)),
            forall|k: ScopedKey|
                k != (inode, path@) ==> #[trigger] final(self).table().has(k) == old(self).table().has(k),
            r matches Ok(count) ==> count == final(self).paths(inode).len(),
            r matches Err(e) ==> e is PathNotFound && final(self).table().keys() == old(self).table().keys(),
    {
        match self.links.remove(inode, path) {
            Some(()) => Ok(self.get_link_count(inode)),
            None => Err(Error::PathNotFound(path.to_string())),
        }
    }

    /// Get the link count for an inode (0 if not tracked).
    pub fn get_link_count(&self, inode: u64) -> (r: u64)
        ensures
            r == self.paths(inode).len(),
    {
        self.links.names_in_scope(inode).len() as u64
    }

    /// Get all paths associated with an inode.
    pub fn get_paths(&self, inode: u64) -> (r: Vec<String>)
        ensures
            r@.len() == self.paths(inode).len(),
            forall|i: int| 0 <= i < r@.len() ==> (#[trigger] r@[i])@ == self.paths(inode)[i],
    {
        self.links.names_in_scope(inode)
    }

    /// Check if this is the last hard link to an inode: it has at most one.
    pub fn is_last_link(&self, inode: u64) -> (r: bool)
        ensures
            r == (self.paths(inode).len() <= 1),
    {
        self.get_link_count(inode) <= 1
    }

    /// Get the total number of tracked inodes.
    pub fn inode_count(&self) -> (r: usize)
        ensures
            r == scopes_of(self.table().keys()).len(),
    {
        self.links.scope_count()
    }

    /// Remove all tracking data for an inode.
    pub fn remove_inode(&mut self, inode: u64)
        requires
            old(self).wf(),
        ensures
            final(self).wf(),
            forall|k: ScopedKey|
                #[trigger] final(self).table().has(k) == (old(self).table().has(k) && k.0 != inode),
    {
        self.links.remove_scope(inode);
    }
}

} // verus!
