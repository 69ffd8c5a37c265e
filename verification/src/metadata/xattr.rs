//! Extended attributes: named byte strings on inodes.
//!
//! A name has 1 to 255 bytes and no NUL byte; a value has at most 64 KiB.
//! Persisted, an attribute lies under the big-endian inode number followed
//! by the name.

use crate::bytes::copy_range;
use crate::error::{Error, Result};
use crate::table::{names_in, ScopedKey, ScopedTable};
use vstd::prelude::*;
use vstd::string::{StringExecFns, StringSliceAdditionalSpecFns};

verus! {

/// Longest attribute name, in bytes.
pub const XATTR_NAME_MAX: usize = 255;

/// Largest attribute value, in bytes.
pub const XATTR_SIZE_MAX: usize = 65536;

/// Whether a name is acceptable: not empty, at most 255 bytes, no NUL byte.
pub open spec fn name_ok(name: &str) -> bool {
    &&& 0 < name.spec_bytes().len() <= XATTR_NAME_MAX
    &&& forall|i: int| 0 <= i < name.spec_bytes().len() ==> name.spec_bytes()[i] != 0
}

/// Check an attribute name.
pub fn validate_name(name: &str) -> (r: Result<()>)
    ensures
        r.is_ok() == name_ok(name),
        r matches Err(e) ==> e is Internal,
{
    let bytes = name.as_bytes();
    if bytes.len() == 0 {
        return Err(Error::Internal("Extended attribute name cannot be empty".to_string()));
    }
    if bytes.len() > XATTR_NAME_MAX {
        return Err(Error::Internal("Extended attribute name too long".to_string()));
    }
    let mut i: usize = 0;
    while i < bytes.len()
        invariant
            bytes@ == name.spec_bytes(),
            i <= bytes@.len(),
            forall|j: int| 0 <= j < i ==> bytes@[j] != 0,
        decreases bytes@.len() - i,
    {
        if bytes[i] == 0 {
            assert(name.spec_bytes()[i as int] == 0);
            return Err(
                Error::Internal("Extended attribute name cannot contain null bytes".to_string()),
            );
        }
        i += 1;
    }
    Ok(())
}

/// Extended attributes by inode and name.
pub struct XattrStore {
    xattrs: ScopedTable<Vec<u8>>,
}

impl XattrStore {
    /// The attributes.
    pub closed spec fn table(&self) -> ScopedTable<Vec<u8>> {
        self.xattrs
    }

    /// The representation invariant.
    pub open spec fn wf(&self) -> bool {
        self.table().wf()
    }

    /// Create an empty store.
    pub fn in_memory() -> (r: Self)
        ensures
            r.wf(),
            r.table().keys().len() == 0,
    {
        XattrStore { xattrs: ScopedTable::new() }
    }

    /// Set an attribute. A bad name or a value above 64 KiB is refused.
    pub fn set(&mut self, inode: u64, name: &str, value: &[u8]) -> (r: Result<()>)
        requires
            old(self).wf(),
        ensures
            final(self).wf(),
            r.is_ok() == (name_ok(name) && value@.len() <= XATTR_SIZE_MAX),
            r.is_ok() ==> final(self).table().has((inode, name@)) && final(self).table().value_of(
                (inode, name@),
            )@ == value@,
            forall|k: ScopedKey|
                k != (inode, name@) || r.is_err() ==> #[trigger] final(self).table().has(k) == old(self).table().has(k),
            forall|k: ScopedKey|
                (k != (inode, name@) || r.is_err()) && old(self).table().has(k) ==> #[trigger] final(self).table().value_of(k) == old(self).table().value_of(k),
            r matches Err(e) ==> e is Internal,
    {
        match validate_name(name) {
            Ok(()) => {},
            Err(e) => {
                return Err(e);
            },
        }
        if value.len() > XATTR_SIZE_MAX {
            return Err(Error::Internal("Extended attribute value too large".to_string()));
        }
        let copy = copy_range(value, 0, value.len());
        assert(copy@ =~= value@);
        self.xattrs.insert(inode, String::from_str(name), copy);
        Ok(())
    }

    /// Get an attribute.
    pub fn get(&self, inode: u64, name: &str) -> (r: Result<Option<Vec<u8>>>)
        requires
            self.wf(),
        ensures
            r.is_ok() == name_ok(name),
            r matches Ok(found) ==> match found {
                Some(value) => self.table().has((inode, name@)) && value@ == self.table().value_of(
                    (inode, name@),
                )@,
                None => !self.table().has((inode, name@)),
            },
            r matches Err(e) ==> e is Internal,
    {
        match validate_name(name) {
            Ok(()) => {},
            Err(e) => {
                return Err(e);
            },
        }
        match self.xattrs.get(inode, name) {
            Some(value) => {
                let copy = copy_range(value.as_slice(), 0, value.len());
                assert(copy@ =~= value@);
                Ok(Some(copy))
            },
            None => Ok(None),
        }
    }

    /// List the names of the attributes of an inode, in the order in which
    /// they were first set.
    pub fn list(&self, inode: u64) -> (r: Vec<String>)
        ensures
            r@.len() == names_in(self.table().keys(), inode).len(),
            forall|i: int|
                0 <= i < r@.len() ==> (#[trigger] r@[i])@ == names_in(self.table().keys(), inode)[i],
    {
        self.xattrs.names_in_scope(inode)
    }

    /// Remove an attribute; one that is not set is no error.
    pub fn remove(&mut self, inode: u64, name: &str) -> (r: Result<()>)
        requires
            old(self).wf(),
        ensures
            final(self).wf(),
            r.is_ok() == name_ok(name),
            r.is_ok() ==> !final(self).table().has((inode, name@)),
            forall|k: ScopedKey|
                k != (inode, name@) || r.is_err() ==> #[trigger] final(self).table().has(k) == old(self).table().has(k),
            forall|k: ScopedKey|
                (k != (inode, name@) || r.is_err()) && old(self).table().has(k) ==> #[trigger] final(self).table().value_of(k) == old(self).table().value_of(k),
            r matches Err(e) ==> e is Internal,
    {
        match validate_name(name) {
            Ok(()) => {},
            Err(e) => {
                return Err(e);
            },
        }
        self.xattrs.remove(inode, name);
        Ok(())
    }

    /// Remove all attributes of an inode; their number comes back.
    pub fn remove_all(&mut self, inode: u64) -> (r: usize)
        requires
            old(self).wf(),
        ensures
            final(self).wf(),
            r == names_in(old(self).table().keys(), inode).len(),
            forall|k: ScopedKey|
                #[trigger] final(self).table().has(k) == (old(self).table().has(k) && k.0 != inode),
            forall|k: ScopedKey|
                final(self).table().has(k) ==> #[trigger] final(self).table().value_of(k) == old(self).table().value_of(k),
    {
        self.xattrs.remove_scope(inode)
    }

    /// Number of attributes in the store.
    pub fn count(&self) -> (r: usize)
        ensures
            r == self.table().keys().len(),
    {
        self.xattrs.len()
    }
}

} // verus!
