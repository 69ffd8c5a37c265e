//! Permissions on a namespace.

use vstd::prelude::*;

verus! {

/// Permissions define what operations are allowed.
#[derive(Debug, Clone, Copy, PartialEq, Eq, Structural)]
pub struct Permissions {
    /// Can read files and list directories.
    pub read: bool,
    /// Can create and modify files.
    pub write: bool,
    /// Can delete files and directories.
    pub delete: bool,
    /// Can modify access rules and namespace settings.
    pub admin: bool,
}

impl Permissions {
    /// Create permissions with all access denied.
    pub fn none() -> (r: Self)
        ensures
            r == (Permissions { read: false, write: false, delete: false, admin: false }),
    {
        Permissions { read: false, write: false, delete: false, admin: false }
    }

    /// Create read-only permissions.
    pub fn read_only() -> (r: Self)
        ensures
            r == (Permissions { read: true, write: false, delete: false, admin: false }),
    {
        Permissions { read: true, write: false, delete: false, admin: false }
    }

    /// Create read-write permissions (no delete or admin).
    pub fn read_write() -> (r: Self)
        ensures
            r == (Permissions { read: true, write: true, delete: false, admin: false }),
    {
        Permissions { read: true, write: true, delete: false, admin: false }
    }

    /// Create full permissions (all operations allowed).
    pub fn full() -> (r: Self)
        ensures
            r == (Permissions { read: true, write: true, delete: true, admin: true }),
    {
        Permissions { read: true, write: true, delete: true, admin: true }
    }

    /// Merge two permission sets (take the union of allowed operations).
    pub fn merge(&self, other: &Permissions) -> (r: Permissions)
        ensures
            r == (Permissions {
                read: self.read || other.read,
                write: self.write || other.write,
                delete: self.delete || other.delete,
                admin: self.admin || other.admin,
            }),
    {
        Permissions {
            read: self.read || other.read,
            write: self.write || other.write,
            delete: self.delete || other.delete,
            admin: self.admin || other.admin,
        }
    }

    /// Check if any permission is granted.
    pub fn has_any(&self) -> (r: bool)
        ensures
            r == (self.read || self.write || self.delete || self.admin),
    {
        self.read || self.write || self.delete || self.admin
    }
}

impl Default for Permissions {
    fn default() -> (r: Self)
        ensures
            r == (Permissions { read: false, write: false, delete: false, admin: false }),
    {
        Permissions::none()
    }
}

} // verus!
