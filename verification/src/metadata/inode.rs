//! Inodes: files, directories and symbolic links.

use crate::chunk::ChunkManifest;
use crate::clock::now_unix_secs;
use vstd::prelude::*;

verus! {

/// Inode number of the root directory, which is its own parent.
pub const ROOT_INO: u64 = 1;

/// Kind of an inode.
#[derive(Debug, Clone, Copy, PartialEq, Eq, Structural)]
pub enum FileType {
    /// A regular file.
    RegularFile,
    /// A directory.
    Directory,
    /// A symbolic link.
    Symlink,
}

/// Attributes of an inode.
#[derive(Debug, Clone, Copy, PartialEq, Eq, Structural)]
pub struct InodeAttributes {
    /// Size in bytes.
    pub size: u64,
    /// Time of last access (Unix seconds).
    pub atime: i64,
    /// Time of last modification (Unix seconds).
    pub mtime: i64,
    /// Time of last change (Unix seconds).
    pub ctime: i64,
    /// Kind of the inode.
    pub kind: FileType,
    /// Permission bits.
    pub perm: u16,
    /// Number of hard links.
    pub nlink: u32,
    /// Owner.
    pub uid: u32,
    /// Group.
    pub gid: u32,
}

/// An inode.
#[derive(Debug, Clone)]
pub struct Inode {
    /// Inode number.
    pub ino: u64,
    /// Parent inode number.
    pub parent: u64,
    /// Name within the parent.
    pub name: String,
    /// Attributes.
    pub attrs: InodeAttributes,
    /// Children (directories only).
    pub children: Vec<u64>,
    /// Chunk manifest (files only).
    pub manifest: Option<ChunkManifest>,
    /// Revision marker, bumped on every content change.
    pub version: u64,
    /// Target (symbolic links only).
    pub symlink_target: Option<String>,
}

/// `children` without every occurrence of `ino`.
pub open spec fn without_child(children: Seq<u64>, ino: u64) -> Seq<u64>
    decreases children.len(),
{
    if children.len() == 0 {
        children
    } else if children.last() == ino {
        without_child(children.drop_last(), ino)
    } else {
        without_child(children.drop_last(), ino).push(children.last())
    }
}

impl Inode {
    /// The inode's own consistency: only files carry a manifest, and a
    /// file's size is the total size of its manifest.
    pub open spec fn well_formed(&self) -> bool {
        match self.manifest {
            Some(manifest) => self.attrs.kind == FileType::RegularFile && self.attrs.size
                == manifest.total_size,
            None => true,
        }
    }

    /// Make an inode of the given kind, stamped with the current time.
    fn fresh(ino: u64, parent: u64, name: String, kind: FileType, uid: u32, gid: u32, perm: u16, nlink: u32) -> (r:
        Self)
        ensures
            r.ino == ino,
            r.parent == parent,
            r.name == name,
            r.attrs.kind == kind,
            r.attrs.uid == uid,
            r.attrs.gid == gid,
            r.attrs.perm == perm,
            r.attrs.nlink == nlink,
            r.attrs.size == 0,
            r.attrs.atime == r.attrs.mtime == r.attrs.ctime,
            r.children@.len() == 0,
            r.manifest.is_none(),
            r.version == 0,
            r.symlink_target.is_none(),
            r.well_formed(),
    {
        let now = now_unix_secs();
        Inode {
            ino,
            parent,
            name,
            attrs: InodeAttributes {
                size: 0,
                atime: now,
                mtime: now,
                ctime: now,
                kind,
                perm,
                nlink,
                uid,
                gid,
            },
            children: Vec::new(),
            manifest: None,
            version: 0,
            symlink_target: None,
        }
    }

    /// The root directory: inode 1, its own parent, with an empty name and
    /// two links.
    pub fn root(uid: u32, gid: u32, perm: u16) -> (r: Self)
        ensures
            r.ino == ROOT_INO,
            r.parent == ROOT_INO,
            r.name@.len() == 0,
            r.attrs.kind == FileType::Directory,
            r.attrs.uid == uid,
            r.attrs.gid == gid,
            r.attrs.perm == perm,
            r.attrs.nlink == 2,
            r.attrs.size == 0,
            r.children@.len() == 0,
            r.manifest.is_none(),
            r.version == 0,
            r.symlink_target.is_none(),
            r.well_formed(),
    {
        Self::fresh(ROOT_INO, ROOT_INO, String::new(), FileType::Directory, uid, gid, perm, 2)
    }

    /// A new, empty regular file with one link.
    pub fn new_file(ino: u64, parent: u64, name: String, uid: u32, gid: u32, perm: u16) -> (r: Self)
        ensures
            r.ino == ino,
            r.parent == parent,
            r.name == name,
            r.attrs.kind == FileType::RegularFile,
            r.attrs.uid == uid,
            r.attrs.gid == gid,
            r.attrs.perm == perm,
            r.attrs.nlink == 1,
            r.attrs.size == 0,
            r.children@.len() == 0,
            r.manifest.is_none(),
            r.version == 0,
            r.symlink_target.is_none(),
            r.well_formed(),
    {
        Self::fresh(ino, parent, name, FileType::RegularFile, uid, gid, perm, 1)
    }

    /// A new, empty directory with two links.
    pub fn new_directory(ino: u64, parent: u64, name: String, uid: u32, gid: u32, perm: u16) -> (r:
        Self)
        ensures
            r.ino == ino,
            r.parent == parent,
            r.name == name,
            r.attrs.kind == FileType::Directory,
            r.attrs.uid == uid,
            r.attrs.gid == gid,
            r.attrs.perm == perm,
            r.attrs.nlink == 2,
            r.attrs.size == 0,
            r.children@.len() == 0,
            r.manifest.is_none(),
            r.version == 0,
            r.symlink_target.is_none(),
            r.well_formed(),
    {
        Self::fresh(ino, parent, name, FileType::Directory, uid, gid, perm, 2)
    }

    /// A new symbolic link to `target`, with one link.
    pub fn new_symlink(ino: u64, parent: u64, name: String, target: String, uid: u32, gid: u32) -> (r:
        Self)
        ensures
            r.ino == ino,
            r.parent == parent,
            r.name == name,
            r.attrs.kind == FileType::Symlink,
            r.attrs.uid == uid,
            r.attrs.gid == gid,
            r.attrs.perm == 0o777,
            r.attrs.nlink == 1,
            r.children@.len() == 0,
            r.manifest.is_none(),
            r.version == 0,
            r.symlink_target == Some(target),
            r.well_formed(),
    {
        let mut inode = Self::fresh(ino, parent, name, FileType::Symlink, uid, gid, 0o777, 1);
        inode.symlink_target = Some(target);
        inode
    }

    /// Whether the inode is a directory.
    pub fn is_dir(&self) -> (r: bool)
        ensures
            r == (self.attrs.kind == FileType::Directory),
    {
        self.attrs.kind == FileType::Directory
    }

    /// Whether the inode is a regular file.
    pub fn is_file(&self) -> (r: bool)
        ensures
            r == (self.attrs.kind == FileType::RegularFile),
    {
        self.attrs.kind == FileType::RegularFile
    }

    /// Whether the inode is a symbolic link.
    pub fn is_symlink(&self) -> (r: bool)
        ensures
            r == (self.attrs.kind == FileType::Symlink),
    {
        self.attrs.kind == FileType::Symlink
    }

    /// Add a child, unless it is listed already.
    pub fn add_child(&mut self, ino: u64)
        ensures
            *final(self) == (Inode { children: final(self).children, ..*old(self) }),
            final(self).children@ == if old(self).children@.contains(ino) {
                old(self).children@
            } else {
                old(self).children@.push(ino)
            },
    {
        let mut i: usize = 0;
        while i < self.children.len()
            invariant
                *self == *old(self),
                i <= self.children@.len(),
                forall|j: int| 0 <= j < i ==> self.children@[j] != ino,
            decreases self.children@.len() - i,
        {
            if self.children[i] == ino {
                assert(self.children@[i as int] == ino);
                return ;
            }
            i += 1;
        }
        self.children.push(ino);
    }

    /// Remove a child.
    pub fn remove_child(&mut self, ino: u64)
        ensures
            *final(self) == (Inode { children: final(self).children, ..*old(self) }),
            final(self).children@ == without_child(old(self).children@, ino),
    {
        let mut kept: Vec<u64> = Vec::new();
        let mut i: usize = 0;
        while i < self.children.len()
            invariant
                *self == *old(self),
                i <= self.children@.len(),
                kept@ == without_child(self.children@.take(i as int), ino),
            decreases self.children@.len() - i,
        {
            proof {
                let next = self.children@.take(i + 1);
                assert(next.drop_last() =~= self.children@.take(i as int));
                assert(next.last() == self.children@[i as int]);
            }
            if self.children[i] != ino {
                kept.push(self.children[i]);
            }
            i += 1;
        }
        assert(self.children@.take(i as int) =~= self.children@);
        self.children = kept;
    }

    /// Set the size.
    pub fn set_size(&mut self, size: u64)
        ensures
            *final(self) == (Inode {
                attrs: InodeAttributes { size, ..old(self).attrs },
                ..*old(self)
            }),
    {
        self.attrs.size = size;
    }

    /// Bump the revision marker.
    pub fn bump_version(&mut self)
        requires
            old(self).version < u64::MAX,
        ensures
            *final(self) == (Inode { version: (old(self).version + 1) as u64, ..*old(self) }),
    {
        self.version = self.version + 1;
    }

    /// Publish new content: the manifest replaces the old one, the size
    /// follows it and the revision marker is bumped.
    pub fn publish(&mut self, manifest: ChunkManifest)
        requires
            old(self).attrs.kind == FileType::RegularFile,
            old(self).version < u64::MAX,
        ensures
            final(self).well_formed(),
            *final(self) == (Inode {
                manifest: Some(manifest),
                attrs: InodeAttributes { size: manifest.total_size, ..old(self).attrs },
                version: (old(self).version + 1) as u64,
                ..*old(self)
            }),
    {
        self.attrs.size = manifest.total_size;
        self.manifest = Some(manifest);
        self.version = self.version + 1;
    }
}

} // verus!
