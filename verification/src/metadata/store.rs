//! The metadata store: inodes, the parent-name index, the chunk reference
//! counts and sealed metadata values, with the key schema under which they are
//! persisted in an ordered key-value store.
//!
//! Persisted layout: tree `inodes` from the big-endian inode number to the
//! sealed inode; tree `parent_index` from the big-endian parent number
//! followed by the name to the big-endian inode number; tree `chunks` from the
//! chunk id to the message id and the reference count, four big-endian bytes
//! each; tree `metadata` from a name to a sealed value. With a namespace the
//! tree names carry the prefix `<namespace>:`.

use crate::bytes::{append_bytes, be32, be64, from_be32, from_be64, lemma_be32_round_trip, u32_from_be, u32_to_be, u64_from_be, u64_to_be};
use crate::crypto::encryption::{decrypt, decrypted, encrypt, EncryptedData, MAX_PLAINTEXT_LEN};
use crate::crypto::{KEY_SIZE, NONCE_SIZE, TAG_SIZE};
use crate::error::{Error, Result};
use crate::metadata::inode::{Inode, ROOT_INO};
use crate::table::{ScopedKey, ScopedTable, StrTable};
use std::collections::HashMap;
use vstd::prelude::*;
use vstd::string::{StringExecFns, StringSliceAdditionalSpecFns};

verus! {

/// A row of the chunk table: where the chunk is stored and how many
/// manifests refer to it.
#[derive(Debug, Clone, Copy, PartialEq, Eq, Structural)]
pub struct ChunkRow {
    /// Handle of the remote object.
    pub message_id: i32,
    /// Number of references.
    pub ref_count: u32,
}

/// Key of an inode in the `inodes` tree.
pub open spec fn inode_key_bytes(ino: u64) -> Seq<u8> {
    be64(ino)
}

/// Key of a name in the `parent_index` tree.
pub open spec fn parent_name_key_bytes(parent: u64, name: &str) -> Seq<u8> {
    be64(parent) + name.spec_bytes()
}

/// Value of a chunk row in the `chunks` tree.
pub open spec fn chunk_row_bytes(row: ChunkRow) -> Seq<u8> {
    be32(row.message_id as u32) + be32(row.ref_count)
}

/// The chunk row that the first eight bytes spell, if there are eight.
pub open spec fn chunk_row_of(bytes: Seq<u8>) -> Option<ChunkRow> {
    if bytes.len() < 8 {
        None
    } else {
        Some(
            ChunkRow {
                message_id: from_be32(bytes) as i32,
                ref_count: from_be32(bytes.skip(4)),
            },
        )
    }
}

/// Name of a tree: the base name, behind `<namespace>:` where a namespace is
/// configured.
pub open spec fn tree_name_of(namespace_prefix: Option<Seq<char>>, base: Seq<char>) -> Seq<char> {
    match namespace_prefix {
        Some(prefix) => prefix + ":"@ + base,
        None => base,
    }
}

/// Create inode key from ino.
pub fn inode_key(ino: u64) -> (r: [u8; 8])
    ensures
        r@ == inode_key_bytes(ino),
{
    u64_to_be(ino)
}

/// Create parent-name index key.
pub fn parent_name_key(parent: u64, name: &str) -> (r: Vec<u8>)
    ensures
        r@ == parent_name_key_bytes(parent, name),
{
    let mut key: Vec<u8> = Vec::new();
    append_bytes(&mut key, u64_to_be(parent).as_slice());
    append_bytes(&mut key, name.as_bytes());
    key
}

/// Read an inode number from a key or a value: the first eight bytes,
/// big-endian. Fewer bytes hold none.
pub fn ino_from_bytes(bytes: &[u8]) -> (r: Option<u64>)
    ensures
        r == if bytes@.len() >= 8 {
            Some(from_be64(bytes@))
        } else {
            None
        },
{
    if bytes.len() >= 8 {
        Some(u64_from_be(bytes))
    } else {
        None
    }
}

/// The largest inode number among `keys`, 0 if there is none.
pub open spec fn max_ino_of(keys: Seq<Vec<u8>>) -> u64
    decreases keys.len(),
{
    if keys.len() == 0 {
        0
    } else {
        let rest = max_ino_of(keys.drop_last());
        if keys.last()@.len() >= 8 && from_be64(keys.last()@) > rest {
            from_be64(keys.last()@)
        } else {
            rest
        }
    }
}

/// Find the largest inode number among the keys of the `inodes` tree.
pub fn max_ino(keys: &Vec<Vec<u8>>) -> (r: u64)
    ensures
        r == max_ino_of(keys@),
{
    let mut max: u64 = 0;
    let mut i: usize = 0;
    while i < keys.len()
        invariant
            i <= keys@.len(),
            max == max_ino_of(keys@.take(i as int)),
        decreases keys@.len() - i,
    {
        proof {
            let next = keys@.take(i + 1);
            assert(next.drop_last() =~= keys@.take(i as int));
            assert(next.last() == keys@[i as int]);
        }
        match ino_from_bytes(keys[i].as_slice()) {
            Some(ino) => {
                if ino > max {
                    max = ino;
                }
            },
            None => {},
        }
        i += 1;
    }
    assert(keys@.take(i as int) =~= keys@);
    max
}

/// Write a chunk row.
pub fn encode_chunk_row(row: ChunkRow) -> (r: Vec<u8>)
    ensures
        r@ == chunk_row_bytes(row),
        r@.len() == 8,
{
    let mut value: Vec<u8> = Vec::new();
    append_bytes(&mut value, u32_to_be(row.message_id as u32).as_slice());
    append_bytes(&mut value, u32_to_be(row.ref_count).as_slice());
    value
}

/// Read a chunk row; fewer than eight bytes hold none.
pub fn decode_chunk_row(bytes: &[u8]) -> (r: Option<ChunkRow>)
    ensures
        r == chunk_row_of(bytes@),
{
    if bytes.len() < 8 {
        return None;
    }
    let message_id = u32_from_be(bytes) as i32;
    let rest = vstd::slice::slice_subrange(bytes, 4, bytes.len());
    assert(rest@ =~= bytes@.skip(4));
    let ref_count = u32_from_be(rest);
    Some(ChunkRow { message_id, ref_count })
}

/// A chunk row read back is the row that was written.
pub proof fn lemma_chunk_row_round_trip(row: ChunkRow)
    ensures
        chunk_row_of(chunk_row_bytes(row)) == Some(row),
{
    let bytes = chunk_row_bytes(row);
    let id = row.message_id as u32;
    lemma_be32_round_trip(id);
    lemma_be32_round_trip(row.ref_count);
    assert(from_be32(bytes) == from_be32(be32(id))) by {
        assert(bytes[0] == be32(id)[0] && bytes[1] == be32(id)[1] && bytes[2] == be32(id)[2]
            && bytes[3] == be32(id)[3]);
    }
    assert(bytes.skip(4) =~= be32(row.ref_count));
    let message_id = row.message_id;
    assert(id as i32 == message_id) by (bit_vector)
        requires
            id == message_id as u32,
    ;
}

/// Name of a tree under an optional namespace.
pub fn tree_name(namespace_prefix: Option<&str>, base: &str) -> (r: String)
    ensures
        r@ == tree_name_of(
            match namespace_prefix {
                Some(prefix) => Some(prefix@),
                None => None,
            },
            base@,
        ),
{
    match namespace_prefix {
        Some(prefix) => {
            let mut name = String::from_str(prefix);
            name.append(":");
            name.append(base);
            name
        },
        None => String::from_str(base),
    }
}

/// What a sealed value opens to under `key`: the value behind the nonce and
/// the tag, if the bytes hold both and the tag authenticates.
pub open spec fn opened(key: Seq<u8>, sealed: Seq<u8>) -> Option<Seq<u8>> {
    if sealed.len() < NONCE_SIZE + TAG_SIZE {
        None
    } else {
        decrypted(
            key,
            sealed.take(NONCE_SIZE as int),
            sealed.skip(NONCE_SIZE as int),
            Seq::<u8>::empty(),
        )
    }
}

/// Seal a value for the store: encrypt it without additional data and put it
/// in wire form.
pub fn seal_value(key: &[u8; KEY_SIZE], value: &[u8]) -> (r: Result<Vec<u8>>)
    ensures
        value@.len() <= MAX_PLAINTEXT_LEN ==> r.is_ok(),
        r matches Ok(sealed) ==> opened(key@, sealed@) == Some(value@),
        r matches Err(e) ==> e is Encryption,
{
    let no_aad: [u8; 0] = [];
    assert(no_aad@ =~= Seq::<u8>::empty());
    match encrypt(key, value, no_aad.as_slice()) {
        Ok(data) => {
            let sealed = data.to_bytes();
            proof {
                crate::crypto::encryption::lemma_wire_round_trip(data.nonce@, data.ciphertext@);
            }
            Ok(sealed)
        },
        Err(e) => Err(e),
    }
}

/// Open a sealed value of the store.
pub fn open_value(key: &[u8; KEY_SIZE], sealed: &[u8]) -> (r: Result<Vec<u8>>)
    ensures
        match opened(key@, sealed@) {
            Some(value) => r matches Ok(v) && v@ == value,
            None => r matches Err(e) && e is Decryption,
        },
{
    let no_aad: [u8; 0] = [];
    assert(no_aad@ =~= Seq::<u8>::empty());
    match EncryptedData::from_bytes(sealed) {
        Ok(data) => decrypt(key, &data, no_aad.as_slice()),
        Err(e) => Err(e),
    }
}

/// Filesystem statistics.
#[derive(Debug, Clone)]
pub struct FsStats {
    pub inode_count: u64,
    pub chunk_count: u64,
}

/// The children of `parent` among the indexed names: the inodes that the
/// index lists under `parent`, that exist, that name `parent` as their parent
/// and that are not `parent` itself.
pub open spec fn children_of(keys: Seq<ScopedKey>, targets: Seq<u64>, inodes: Map<u64, Inode>, parent: u64) -> Seq<
    Inode,
>
    decreases keys.len(),
{
    if keys.len() == 0 || targets.len() != keys.len() {
        Seq::empty()
    } else {
        let rest = children_of(keys.drop_last(), targets.drop_last(), inodes, parent);
        let ino = targets.last();
        if keys.last().0 == parent && inodes.contains_key(ino) && inodes[ino].parent == parent
            && inodes[ino].ino != parent {
            rest.push(inodes[ino])
        } else {
            rest
        }
    }
}

/// The inodes by number after `persisted` has been taken in: where a number
/// occurs twice the last one counts.
pub open spec fn loaded(persisted: Seq<Inode>) -> Map<u64, Inode>
    decreases persisted.len(),
{
    if persisted.len() == 0 {
        Map::empty()
    } else {
        let rest = loaded(persisted.skip(1));
        if rest.contains_key(persisted[0].ino) {
            rest
        } else {
            rest.insert(persisted[0].ino, persisted[0])
        }
    }
}

/// The metadata store.
pub struct MetadataStore {
    /// Inodes by number.
    inodes: HashMap<u64, Inode>,
    /// Parent-name index: inode number by parent and name.
    parent_index: ScopedTable<u64>,
    /// Chunk references by chunk id.
    chunks: StrTable<ChunkRow>,
    /// Sealed metadata values by name.
    metadata: StrTable<Vec<u8>>,
    /// Encryption key for metadata.
    key: [u8; KEY_SIZE],
    /// Next available inode number.
    next_ino: u64,
    /// Optional namespace prefix for tree names.
    namespace_prefix: Option<String>,
}

impl MetadataStore {
    /// The inodes by number.
    pub closed spec fn inodes(&self) -> Map<u64, Inode> {
        self.inodes@
    }

    /// The parent-name index.
    pub closed spec fn index(&self) -> ScopedTable<u64> {
        self.parent_index
    }

    /// The chunk rows by chunk id.
    pub closed spec fn chunk_rows(&self) -> Map<Seq<char>, ChunkRow> {
        self.chunks@
    }

    /// The sealed metadata values by name.
    pub closed spec fn sealed_values(&self) -> Map<Seq<char>, Vec<u8>> {
        self.metadata@
    }

    /// The metadata key.
    pub closed spec fn key_bytes(&self) -> Seq<u8> {
        self.key@
    }

    /// The next inode number to hand out.
    pub closed spec fn next(&self) -> u64 {
        self.next_ino
    }

    /// The namespace prefix.
    pub closed spec fn namespace(&self) -> Option<String> {
        self.namespace_prefix
    }

    /// Number of chunk rows.
    pub closed spec fn chunk_count(&self) -> nat {
        self.chunks.keys().len()
    }

    /// The representation invariant: the tables hold no key twice, and every
    /// chunk row counts at least one reference.
    pub closed spec fn wf(&self) -> bool {
        &&& self.parent_index.wf()
        &&& self.chunks.wf()
        &&& self.metadata.wf()
        &&& forall|id: Seq<char>|
            self.chunks@.contains_key(id) ==> (#[trigger] self.chunks@[id]).ref_count >= 1
        &&& forall|ino: u64|
            self.inodes@.contains_key(ino) ==> (#[trigger] self.inodes@[ino]).ino == ino
    }

    /// Every inode of a well-formed store is stored under its own number.
    pub proof fn lemma_inode_key(&self, ino: u64)
        requires
            self.wf(),
            self.inodes().contains_key(ino),
        ensures
            self.inodes()[ino].ino == ino,
    {
    }

    /// Every chunk row of a well-formed store counts at least one reference.
    pub proof fn lemma_rows_referenced(&self, id: Seq<char>)
        requires
            self.wf(),
            self.chunk_rows().contains_key(id),
        ensures
            self.chunk_rows()[id].ref_count >= 1,
    {
    }

    /// Create a store without inodes.
    fn empty(key: [u8; KEY_SIZE], namespace_prefix: Option<String>) -> (r: Self)
        ensures
            r.wf(),
            r.inodes() == Map::<u64, Inode>::empty(),
            r.index().keys().len() == 0,
            r.chunk_rows() == Map::<Seq<char>, ChunkRow>::empty(),
            r.sealed_values() == Map::<Seq<char>, Vec<u8>>::empty(),
            r.key_bytes() == key@,
            r.next() == 1,
            r.namespace() == namespace_prefix,
    {
        broadcast use vstd::std_specs::hash::group_hash_axioms;

        MetadataStore {
            inodes: HashMap::new(),
            parent_index: ScopedTable::new(),
            chunks: StrTable::new(),
            metadata: StrTable::new(),
            key,
            next_ino: 1,
            namespace_prefix,
        }
    }

    /// Create a fresh store: it holds the root directory, owned by `uid` and
    /// `gid` with mode 755, and hands out inode numbers from 2 on.
    pub fn in_memory_with_namespace(key: [u8; KEY_SIZE], namespace_prefix: Option<String>, uid: u32, gid: u32) -> (r:
        Self)
        ensures
            r.wf(),
            r.inodes().dom() == set![ROOT_INO],
            r.inodes()[ROOT_INO].ino == ROOT_INO,
            r.inodes()[ROOT_INO].parent == ROOT_INO,
            r.inodes()[ROOT_INO].attrs.kind == crate::metadata::inode::FileType::Directory,
            r.inodes()[ROOT_INO].attrs.uid == uid,
            r.inodes()[ROOT_INO].attrs.gid == gid,
            r.inodes()[ROOT_INO].attrs.perm == 0o755,
            r.chunk_rows() == Map::<Seq<char>, ChunkRow>::empty(),
            r.sealed_values() == Map::<Seq<char>, Vec<u8>>::empty(),
            r.key_bytes() == key@,
            r.next() == 2,
            r.namespace() == namespace_prefix,
    {
        let mut store = Self::empty(key, namespace_prefix);
        store.init_root(uid, gid);
        assert(store.inodes().dom() =~= set![ROOT_INO]);
        store
    }

    /// Create a fresh store without namespace.
    pub fn in_memory(key: [u8; KEY_SIZE], uid: u32, gid: u32) -> (r: Self)
        ensures
            r.wf(),
            r.inodes().dom() == set![ROOT_INO],
            r.inodes()[ROOT_INO].ino == ROOT_INO,
            r.chunk_rows() == Map::<Seq<char>, ChunkRow>::empty(),
            r.key_bytes() == key@,
            r.next() == 2,
            r.namespace().is_none(),
    {
        Self::in_memory_with_namespace(key, None, uid, gid)
    }

    /// Open a store over what is persisted: the inodes are taken in, where a
    /// number occurs twice the last one counts, and inode numbers are handed
    /// out from one above `max_ino`, the largest number found among the
    /// persisted keys. Where no inode is persisted (`max_ino` is 0) the root
    /// directory is created.
    pub fn open_with_namespace(
        key: [u8; KEY_SIZE],
        namespace_prefix: Option<String>,
        persisted: Vec<Inode>,
        max_ino: u64,
        uid: u32,
        gid: u32,
    ) -> (r: Self)
        requires
            max_ino < u64::MAX,
        ensures
            r.wf(),
            r.key_bytes() == key@,
            r.namespace() == namespace_prefix,
            r.chunk_rows() == Map::<Seq<char>, ChunkRow>::empty(),
            r.sealed_values() == Map::<Seq<char>, Vec<u8>>::empty(),
            max_ino > 0 ==> r.next() == max_ino + 1 && r.inodes() == loaded(persisted@),
            max_ino == 0 ==> r.next() == 2 && r.inodes().dom() == loaded(persisted@).dom().insert(
                ROOT_INO,
            ) && r.inodes()[ROOT_INO].ino == ROOT_INO && forall|ino: u64|
                ino != ROOT_INO && loaded(persisted@).contains_key(ino) ==> r.inodes()[ino]
                    == loaded(persisted@)[ino],
    {
        let mut store = Self::empty(key, namespace_prefix);
        let mut persisted = persisted;
        let ghost all = persisted@;
        let n = persisted.len();
        let mut taken: usize = 0;
        assert(all.skip(n as int) =~= Seq::<Inode>::empty());
        while taken < n
            invariant
                store.wf(),
                store.key_bytes() == key@,
                store.namespace() == namespace_prefix,
                store.chunk_rows() == Map::<Seq<char>, ChunkRow>::empty(),
                store.sealed_values() == Map::<Seq<char>, Vec<u8>>::empty(),
                store.next() == 1,
                taken <= n,
                n == all.len(),
                persisted@.len() == n - taken,
                forall|j: int| 0 <= j < n - taken ==> persisted@[j] == all[j],
                store.inodes() == loaded(all.skip(n - taken)),
            decreases n - taken,
        {
            let ghost position = n - taken - 1;
            proof {
                assert(all.skip(position).skip(1) =~= all.skip(position + 1));
                assert(all.skip(position)[0] == all[position]);
            }
            match persisted.pop() {
                Some(inode) => {
                    assert(inode == all[position]);
                    if !store.has_inode(inode.ino) {
                        store.save_inode(inode);
                    }
                },
                None => {},
            }
            taken += 1;
        }
        assert(all.skip(0) =~= all);
        if max_ino == 0 {
            store.init_root(uid, gid);
        } else {
            store.next_ino = max_ino + 1;
        }
        store
    }

    /// Whether an inode of this number is stored.
    pub fn has_inode(&self, ino: u64) -> (r: bool)
        ensures
            r == self.inodes().contains_key(ino),
    {
        broadcast use vstd::std_specs::hash::group_hash_axioms;

        self.inodes.contains_key(&ino)
    }

    /// The number of inodes that the store holds.
    pub fn inode_count(&self) -> (r: usize)
        ensures
            r == self.inodes().len(),
            self.inodes().dom().finite(),
    {
        broadcast use vstd::std_specs::hash::group_hash_axioms;

        self.inodes.len()
    }

    /// Initialize the root inode.
    fn init_root(&mut self, uid: u32, gid: u32)
        requires
            old(self).wf(),
        ensures
            final(self).wf(),
            final(self).inodes().dom() == old(self).inodes().dom().insert(ROOT_INO),
            forall|ino: u64|
                ino != ROOT_INO && old(self).inodes().contains_key(ino) ==> final(self).inodes()[ino]
                    == old(self).inodes()[ino],
            final(self).inodes()[ROOT_INO].ino == ROOT_INO,
            final(self).inodes()[ROOT_INO].parent == ROOT_INO,
            final(self).inodes()[ROOT_INO].attrs.kind
                == crate::metadata::inode::FileType::Directory,
            final(self).inodes()[ROOT_INO].attrs.uid == uid,
            final(self).inodes()[ROOT_INO].attrs.gid == gid,
            final(self).inodes()[ROOT_INO].attrs.perm == 0o755,
            final(self).chunk_rows() == old(self).chunk_rows(),
            final(self).sealed_values() == old(self).sealed_values(),
            final(self).key_bytes() == old(self).key_bytes(),
            final(self).namespace() == old(self).namespace(),
            final(self).next() == 2,
    {
        let root = Inode::root(uid, gid, 0o755);
        self.save_inode(root);
        self.next_ino = 2;
    }

    /// Allocate a new inode number: numbers grow and are never handed out
    /// twice.
    pub fn alloc_ino(&mut self) -> (r: u64)
        requires
            old(self).wf(),
            old(self).next() < u64::MAX,
        ensures
            final(self).wf(),
            r == old(self).next(),
            final(self).next() == r + 1,
            final(self).inodes() == old(self).inodes(),
            final(self).index() == old(self).index(),
            final(self).chunk_rows() == old(self).chunk_rows(),
            final(self).sealed_values() == old(self).sealed_values(),
            final(self).key_bytes() == old(self).key_bytes(),
            final(self).namespace() == old(self).namespace(),
    {
        let ino = self.next_ino;
        self.next_ino = self.next_ino + 1;
        ino
    }

    /// Save an inode: it is stored under its number, and the index leads
    /// from its parent and name to it.
    pub fn save_inode(&mut self, inode: Inode)
        requires
            old(self).wf(),
        ensures
            final(self).wf(),
            final(self).inodes() == old(self).inodes().insert(inode.ino, inode),
            final(self).index().wf(),
            final(self).index()@ == old(self).index()@.insert(
                (inode.parent, inode.name@),
                inode.ino,
            ),
            final(self).chunk_rows() == old(self).chunk_rows(),
            final(self).sealed_values() == old(self).sealed_values(),
            final(self).key_bytes() == old(self).key_bytes(),
            final(self).namespace() == old(self).namespace(),
            final(self).next() == old(self).next(),
    {
        broadcast use vstd::std_specs::hash::group_hash_axioms;

        let ino = inode.ino;
        let parent = inode.parent;
        let name = inode.name.clone();
        self.inodes.insert(ino, inode);
        self.parent_index.insert(parent, name, ino);
    }

    /// Take an inode out of the store for a change; its index entry stays.
    /// The caller saves the inode again.
    pub(crate) fn take_inode(&mut self, ino: u64) -> (r: Option<Inode>)
        requires
            old(self).wf(),
        ensures
            final(self).wf(),
            final(self).inodes() == old(self).inodes().remove(ino),
            final(self).index() == old(self).index(),
            final(self).chunk_rows() == old(self).chunk_rows(),
            final(self).sealed_values() == old(self).sealed_values(),
            final(self).key_bytes() == old(self).key_bytes(),
            final(self).namespace() == old(self).namespace(),
            final(self).next() == old(self).next(),
            match r {
                Some(inode) => old(self).inodes().contains_key(ino) && inode == old(self).inodes()[ino],
                None => !old(self).inodes().contains_key(ino),
            },
    {
        broadcast use vstd::std_specs::hash::group_hash_axioms;

        self.inodes.remove(&ino)
    }

    /// Get an inode by number.
    pub fn get_inode(&self, ino: u64) -> (r: Option<&Inode>)
        ensures
            match r {
                Some(inode) => self.inodes().contains_key(ino) && *inode == self.inodes()[ino],
                None => !self.inodes().contains_key(ino),
            },
    {
        broadcast use vstd::std_specs::hash::group_hash_axioms;

        self.inodes.get(&ino)
    }

    /// Get an inode, returning an error if not found.
    pub fn get_inode_required(&self, ino: u64) -> (r: Result<&Inode>)
        ensures
            match r {
                Ok(inode) => self.inodes().contains_key(ino) && *inode == self.inodes()[ino],
                Err(e) => !self.inodes().contains_key(ino) && (e matches Error::InodeNotFound(n)
                    && n == ino),
            },
    {
        match self.get_inode(ino) {
            Some(inode) => Ok(inode),
            None => Err(Error::InodeNotFound(ino)),
        }
    }

    /// Lookup a child by name in a directory: the inode that the index
    /// leads to, if it is stored.
    pub fn lookup(&self, parent: u64, name: &str) -> (r: Option<&Inode>)
        requires
            self.wf(),
        ensures
            match r {
                Some(inode) => {
                    &&& self.index().has((parent, name@))
                    &&& self.inodes().contains_key(self.index().value_of((parent, name@)))
                    &&& *inode == self.inodes()[self.index().value_of((parent, name@))]
                },
                None => !self.index().has((parent, name@)) || !self.inodes().contains_key(
                    self.index().value_of((parent, name@)),
                ),
            },
    {
        let target: Option<u64> = match self.parent_index.get(parent, name) {
            Some(ino) => Some(*ino),
            None => None,
        };
        match target {
            Some(ino) => self.get_inode(ino),
            None => None,
        }
    }

    /// Delete an inode: the inode and the index entry of its parent and name
    /// are removed.
    pub fn delete_inode(&mut self, ino: u64)
        requires
            old(self).wf(),
        ensures
            final(self).wf(),
            final(self).inodes() == old(self).inodes().remove(ino),
            final(self).index()@ == if old(self).inodes().contains_key(ino) {
                old(self).index()@.remove(
                    (old(self).inodes()[ino].parent, old(self).inodes()[ino].name@),
                )
            } else {
                old(self).index()@
            },
            final(self).chunk_rows() == old(self).chunk_rows(),
            final(self).sealed_values() == old(self).sealed_values(),
            final(self).key_bytes() == old(self).key_bytes(),
            final(self).namespace() == old(self).namespace(),
            final(self).next() == old(self).next(),
    {
        broadcast use vstd::std_specs::hash::group_hash_axioms;

        match self.inodes.remove(&ino) {
            Some(inode) => {
                self.parent_index.remove(inode.parent, inode.name.as_str());
            },
            None => {},
        }
    }

    /// Take a name out of the index.
    pub(crate) fn forget_name(&mut self, parent: u64, name: &str)
        requires
            old(self).wf(),
        ensures
            final(self).wf(),
            final(self).inodes() == old(self).inodes(),
            final(self).index().wf(),
            final(self).index()@ == old(self).index()@.remove((parent, name@)),
            final(self).chunk_rows() == old(self).chunk_rows(),
            final(self).sealed_values() == old(self).sealed_values(),
            final(self).key_bytes() == old(self).key_bytes(),
            final(self).namespace() == old(self).namespace(),
            final(self).next() == old(self).next(),
    {
        self.parent_index.remove(parent, name);
    }

    /// Get all children of a directory, in index order; the directory itself
    /// is not among them.
    pub fn get_children(&self, parent: u64) -> (r: Vec<&Inode>)
        requires
            self.wf(),
        ensures
            r@.len() == children_of(
                self.index().keys(),
                self.index().values(),
                self.inodes(),
                parent,
            ).len(),
            forall|i: int|
                0 <= i < r@.len() ==> *(#[trigger] r@[i]) == children_of(
                    self.index().keys(),
                    self.index().values(),
                    self.inodes(),
                    parent,
                )[i],
    {
        let mut children: Vec<&Inode> = Vec::new();
        let n = self.parent_index.len();
        let ghost keys = self.index().keys();
        let ghost targets = self.index().values();
        let mut i: usize = 0;
        while i < n
            invariant
                self.wf(),
                n == keys.len(),
                n == targets.len(),
                keys == self.index().keys(),
                targets == self.index().values(),
                i <= n,
                children@.len() == children_of(
                    keys.take(i as int),
                    targets.take(i as int),
                    self.inodes(),
                    parent,
                ).len(),
                forall|j: int|
                    0 <= j < children@.len() ==> *(#[trigger] children@[j]) == children_of(
                        keys.take(i as int),
                        targets.take(i as int),
                        self.inodes(),
                        parent,
                    )[j],
            decreases n - i,
        {
            proof {
                assert(keys.take(i + 1).drop_last() =~= keys.take(i as int));
                assert(targets.take(i + 1).drop_last() =~= targets.take(i as int));
                assert(keys.take(i + 1).last() == keys[i as int]);
                assert(targets.take(i + 1).last() == targets[i as int]);
            }
            if self.parent_index.scope_at(i) == parent {
                let ino = *self.parent_index.value_at(i);
                match self.get_inode(ino) {
                    Some(inode) => {
                        if inode.parent == parent && inode.ino != parent {
                            children.push(inode);
                        }
                    },
                    None => {},
                }
            }
            i += 1;
        }
        proof {
            assert(keys.take(n as int) =~= keys);
            assert(targets.take(n as int) =~= targets);
        }
        children
    }

    /// Save a chunk reference: the row of the chunk is created with one
    /// reference, or gains one; it names `message_id` as the handle. A count
    /// that cannot grow is reported and the row stays.
    pub fn save_chunk_ref(&mut self, chunk_id: &str, message_id: i32) -> (r: Result<()>)
        requires
            old(self).wf(),
        ensures
            final(self).wf(),
            final(self).inodes() == old(self).inodes(),
            final(self).index() == old(self).index(),
            final(self).sealed_values() == old(self).sealed_values(),
            final(self).key_bytes() == old(self).key_bytes(),
            final(self).namespace() == old(self).namespace(),
            final(self).next() == old(self).next(),
            r.is_ok() == !(old(self).chunk_rows().contains_key(chunk_id@) && old(self).chunk_rows()[chunk_id@].ref_count == u32::MAX),
            r.is_ok() ==> final(self).chunk_rows() == old(self).chunk_rows().insert(
                chunk_id@,
                ChunkRow {
                    message_id,
                    ref_count: if old(self).chunk_rows().contains_key(chunk_id@) {
                        (old(self).chunk_rows()[chunk_id@].ref_count + 1) as u32
                    } else {
                        1
                    },
                },
            ),
            r matches Err(e) ==> e is Internal && final(self).chunk_rows() == old(self).chunk_rows(),
    {
        let existing: Option<u32> = match self.chunks.get(chunk_id) {
            Some(row) => Some(row.ref_count),
            None => None,
        };
        let ref_count = match existing {
            Some(count) => {
                if count == u32::MAX {
                    return Err(Error::Internal("Chunk reference count overflow".to_string()));
                }
                count + 1
            },
            None => 1,
        };
        self.chunks.insert(String::from_str(chunk_id), ChunkRow { message_id, ref_count });
        Ok(())
    }

    /// Get a chunk reference: the handle of a chunk that is referenced.
    pub fn get_chunk_ref(&self, chunk_id: &str) -> (r: Option<i32>)
        requires
            self.wf(),
        ensures
            r == if self.chunk_rows().contains_key(chunk_id@) {
                Some(self.chunk_rows()[chunk_id@].message_id)
            } else {
                None
            },
    {
        match self.chunks.get(chunk_id) {
            Some(row) => Some(row.message_id),
            None => None,
        }
    }

    /// Number of references to a chunk; 0 for a chunk without a row.
    pub fn chunk_ref_count(&self, chunk_id: &str) -> (r: u32)
        requires
            self.wf(),
        ensures
            r == if self.chunk_rows().contains_key(chunk_id@) {
                self.chunk_rows()[chunk_id@].ref_count
            } else {
                0
            },
            (r >= 1) == self.chunk_rows().contains_key(chunk_id@),
    {
        match self.chunks.get(chunk_id) {
            Some(row) => row.ref_count,
            None => 0,
        }
    }

    /// Decrement chunk reference count. Where the last reference goes, the
    /// row is removed and the handle comes back, for the remote object to be
    /// deleted; else the count drops by one and nothing comes back.
    pub fn decrement_chunk_ref(&mut self, chunk_id: &str) -> (r: Option<i32>)
        requires
            old(self).wf(),
        ensures
            final(self).wf(),
            final(self).inodes() == old(self).inodes(),
            final(self).index() == old(self).index(),
            final(self).sealed_values() == old(self).sealed_values(),
            final(self).key_bytes() == old(self).key_bytes(),
            final(self).namespace() == old(self).namespace(),
            final(self).next() == old(self).next(),
            r.is_some() == (old(self).chunk_rows().contains_key(chunk_id@) && old(self).chunk_rows()[chunk_id@].ref_count == 1),
            r matches Some(message_id) ==> message_id == old(self).chunk_rows()[chunk_id@].message_id && final(self).chunk_rows() == old(self).chunk_rows().remove(chunk_id@),
            r.is_none() ==> final(self).chunk_rows() == if old(self).chunk_rows().contains_key(
                chunk_id@,
            ) {
                old(self).chunk_rows().insert(
                    chunk_id@,
                    ChunkRow {
                        message_id: old(self).chunk_rows()[chunk_id@].message_id,
                        ref_count: (old(self).chunk_rows()[chunk_id@].ref_count - 1) as u32,
                    },
                )
            } else {
                old(self).chunk_rows()
            },
    {
        let existing: Option<ChunkRow> = match self.chunks.get(chunk_id) {
            Some(row) => Some(*row),
            None => None,
        };
        match existing {
            Some(row) => {
                assert(self.chunks@[chunk_id@].ref_count >= 1);
                if row.ref_count <= 1 {
                    self.chunks.remove(chunk_id);
                    Some(row.message_id)
                } else {
                    self.chunks.insert(
                        String::from_str(chunk_id),
                        ChunkRow { message_id: row.message_id, ref_count: row.ref_count - 1 },
                    );
                    None
                }
            },
            None => {
                None
            },
        }
    }

    /// Save general metadata: the value is sealed under the metadata key and
    /// stored under its name.
    pub fn save_metadata(&mut self, key: &str, value: &[u8]) -> (r: Result<()>)
        requires
            old(self).wf(),
        ensures
            final(self).wf(),
            final(self).inodes() == old(self).inodes(),
            final(self).index() == old(self).index(),
            final(self).chunk_rows() == old(self).chunk_rows(),
            final(self).key_bytes() == old(self).key_bytes(),
            final(self).namespace() == old(self).namespace(),
            final(self).next() == old(self).next(),
            value@.len() <= MAX_PLAINTEXT_LEN ==> r.is_ok(),
            r.is_ok() ==> final(self).sealed_values().contains_key(key@) && opened(
                final(self).key_bytes(),
                final(self).sealed_values()[key@]@,
            ) == Some(value@) && final(self).sealed_values().remove(key@) == old(self).sealed_values().remove(key@),
            r matches Err(e) ==> e is Encryption && final(self).sealed_values() == old(self).sealed_values(),
    {
        match seal_value(&self.key, value) {
            Ok(sealed) => {
                self.metadata.insert(String::from_str(key), sealed);
                assert(self.sealed_values().remove(key@) =~= old(self).sealed_values().remove(
                    key@,
                ));
                Ok(())
            },
            Err(e) => Err(e),
        }
    }

    /// Get general metadata: the value stored under the name, opened with
    /// the metadata key; nothing where no value is stored. A stored value
    /// that does not authenticate gives `Decryption`.
    pub fn get_metadata(&self, key: &str) -> (r: Result<Option<Vec<u8>>>)
        requires
            self.wf(),
        ensures
            !self.sealed_values().contains_key(key@) ==> r matches Ok(None),
            self.sealed_values().contains_key(key@) ==> match opened(
                self.key_bytes(),
                self.sealed_values()[key@]@,
            ) {
                Some(value) => r matches Ok(Some(v)) && v@ == value,
                None => r matches Err(e) && e is Decryption,
            },
    {
        match self.metadata.get(key) {
            Some(sealed) => {
                match open_value(&self.key, sealed.as_slice()) {
                    Ok(value) => Ok(Some(value)),
                    Err(e) => Err(e),
                }
            },
            None => Ok(None),
        }
    }

    /// Remove general metadata: the value stored under the name goes. The
    /// result tells whether there was one.
    pub fn remove_metadata(&mut self, key: &str) -> (r: bool)
        requires
            old(self).wf(),
        ensures
            final(self).wf(),
            final(self).inodes() == old(self).inodes(),
            final(self).index() == old(self).index(),
            final(self).chunk_rows() == old(self).chunk_rows(),
            final(self).key_bytes() == old(self).key_bytes(),
            final(self).namespace() == old(self).namespace(),
            final(self).next() == old(self).next(),
            r == old(self).sealed_values().contains_key(key@),
            final(self).sealed_values() == old(self).sealed_values().remove(key@),
    {
        self.metadata.remove(key).is_some()
    }

    /// The next inode number that will be handed out.
    pub fn next_ino(&self) -> (r: u64)
        ensures
            r == self.next(),
    {
        self.next_ino
    }

    /// The row of a chunk, for persisting it.
    pub fn chunk_row(&self, chunk_id: &str) -> (r: Option<ChunkRow>)
        requires
            self.wf(),
        ensures
            r == if self.chunk_rows().contains_key(chunk_id@) {
                Some(self.chunk_rows()[chunk_id@])
            } else {
                None
            },
    {
        match self.chunks.get(chunk_id) {
            Some(row) => Some(*row),
            None => None,
        }
    }

    /// Take in a persisted chunk row. A row without references is not taken
    /// in; the result tells whether the row was.
    pub fn load_chunk_row(&mut self, chunk_id: &str, row: ChunkRow) -> (r: bool)
        requires
            old(self).wf(),
        ensures
            final(self).wf(),
            final(self).inodes() == old(self).inodes(),
            final(self).index() == old(self).index(),
            final(self).sealed_values() == old(self).sealed_values(),
            final(self).key_bytes() == old(self).key_bytes(),
            final(self).namespace() == old(self).namespace(),
            final(self).next() == old(self).next(),
            r == (row.ref_count >= 1),
            final(self).chunk_rows() == if r {
                old(self).chunk_rows().insert(chunk_id@, row)
            } else {
                old(self).chunk_rows()
            },
    {
        if row.ref_count == 0 {
            return false;
        }
        self.chunks.insert(String::from_str(chunk_id), row);
        true
    }

    /// The sealed form of a metadata value, for persisting it.
    pub fn sealed_metadata(&self, key: &str) -> (r: Option<&Vec<u8>>)
        requires
            self.wf(),
        ensures
            match r {
                Some(sealed) => self.sealed_values().contains_key(key@) && *sealed
                    == self.sealed_values()[key@],
                None => !self.sealed_values().contains_key(key@),
            },
    {
        self.metadata.get(key)
    }

    /// Take in a persisted metadata value in its sealed form.
    pub fn load_metadata(&mut self, key: &str, sealed: Vec<u8>)
        requires
            old(self).wf(),
        ensures
            final(self).wf(),
            final(self).inodes() == old(self).inodes(),
            final(self).index() == old(self).index(),
            final(self).chunk_rows() == old(self).chunk_rows(),
            final(self).key_bytes() == old(self).key_bytes(),
            final(self).namespace() == old(self).namespace(),
            final(self).next() == old(self).next(),
            final(self).sealed_values() == old(self).sealed_values().insert(key@, sealed),
    {
        self.metadata.insert(String::from_str(key), sealed);
    }

    /// Get filesystem statistics.
    pub fn get_stats(&self) -> (r: FsStats)
        ensures
            r.inode_count == self.inodes().len(),
            r.chunk_count == self.chunk_count(),
    {
        broadcast use vstd::std_specs::hash::group_hash_axioms;

        FsStats { inode_count: self.inodes.len() as u64, chunk_count: self.chunks.len() as u64 }
    }

    /// Get the namespace prefix.
    pub fn namespace_prefix(&self) -> (r: Option<&str>)
        ensures
            match r {
                Some(prefix) => self.namespace().is_some() && prefix@ == self.namespace().unwrap()@,
                None => self.namespace().is_none(),
            },
    {
        match &self.namespace_prefix {
            Some(prefix) => Some(prefix.as_str()),
            None => None,
        }
    }

    /// Check if this store is namespaced.
    pub fn is_namespaced(&self) -> (r: bool)
        ensures
            r == self.namespace().is_some(),
    {
        self.namespace_prefix.is_some()
    }
}

} // verus!
