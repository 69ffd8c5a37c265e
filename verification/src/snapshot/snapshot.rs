//! Snapshots.
//!
//! A snapshot captures the inodes at a point in time, each in its serialized
//! form under its number. Chunk data is immutable and content-addressed, so a
//! snapshot needs nothing else.

use crate::clock::now_unix_secs;
use crate::crypto::encryption::{
    decrypt, decrypted, encrypt, lemma_wire_round_trip, EncryptedData, MAX_PLAINTEXT_LEN,
};
use crate::crypto::{KEY_SIZE, NONCE_SIZE, TAG_SIZE};
use crate::error::{Error, Result};
use crate::metadata::codec::{decode_inode, decoded_inode, encode_inode, ser_inode, InodeView, INODE_FORMAT};
use crate::metadata::inode::{Inode, ROOT_INO};
use crate::metadata::store::MetadataStore;
use crate::snapshot::codec::{decode_snapshots, decoded_snapshots, encode_snapshots, snapshot_views};
use crate::table::str_eq;
use std::collections::HashMap;
use vstd::prelude::*;
use vstd::std_specs::iter::IteratorSpec;
use vstd::string::StringSliceAdditionalSpecFns;

verus! {

/// A fresh snapshot id from `Uuid::new_v4` of the uuid crate, in its
/// hyphenated form. Nothing is claimed of it: it is drawn at random.
#[verifier::external_body]
fn fresh_snapshot_id() -> String {
    uuid::Uuid::new_v4().to_string()
}

/// A filesystem snapshot.
#[derive(Debug, Clone)]
pub struct Snapshot {
    /// Unique snapshot id.
    pub id: String,
    /// Human-readable name.
    pub name: String,
    /// Creation timestamp (Unix seconds).
    pub created: i64,
    /// Optional description.
    pub description: Option<String>,
    /// Snapshot of all inodes (ino -> serialized inode).
    pub inodes: HashMap<u64, Vec<u8>>,
    /// Root inode number.
    pub root_ino: u64,
}

/// What a snapshot holds.
pub struct SnapshotView {
    pub id: Seq<char>,
    pub name: Seq<char>,
    pub created: i64,
    pub description: Option<Seq<char>>,
    pub inodes: Map<u64, Seq<u8>>,
    pub root_ino: u64,
}

impl View for Snapshot {
    type V = SnapshotView;

    open spec fn view(&self) -> SnapshotView {
        SnapshotView {
            id: self.id@,
            name: self.name@,
            created: self.created,
            description: match self.description {
                Some(description) => Some(description@),
                None => None,
            },
            inodes: self.inodes@.map_values(|bytes: Vec<u8>| bytes@),
            root_ino: self.root_ino,
        }
    }
}

/// The serialized form in which a snapshot holds an inode.
pub open spec fn stored_inode(inode: InodeView) -> Seq<u8> {
    seq![INODE_FORMAT] + ser_inode(inode)
}

impl Snapshot {
    /// Create a new, empty snapshot with a fresh id, stamped with the
    /// current time.
    pub fn new(name: String, description: Option<String>) -> (r: Self)
        ensures
            r.name == name,
            r.description == description,
            r@.inodes == Map::<u64, Seq<u8>>::empty(),
            r.root_ino == ROOT_INO,
    {
        broadcast use vstd::std_specs::hash::group_hash_axioms;

        let r = Snapshot {
            id: fresh_snapshot_id(),
            name,
            created: now_unix_secs(),
            description,
            inodes: HashMap::new(),
            root_ino: ROOT_INO,
        };
        assert(r@.inodes =~= Map::<u64, Seq<u8>>::empty());
        r
    }

    /// Add an inode to the snapshot: it is held in its serialized form
    /// under its number, in place of what was held there.
    pub fn add_inode(&mut self, inode: &Inode) -> (r: Result<()>)
        ensures
            r.is_ok(),
            final(self).id == old(self).id,
            final(self).name == old(self).name,
            final(self).created == old(self).created,
            final(self).description == old(self).description,
            final(self).root_ino == old(self).root_ino,
            final(self)@.inodes == old(self)@.inodes.insert(inode.ino, stored_inode(inode@)),
    {
        broadcast use vstd::std_specs::hash::group_hash_axioms;

        let serialized = encode_inode(inode);
        self.inodes.insert(inode.ino, serialized);
        assert(self@.inodes =~= old(self)@.inodes.insert(inode.ino, stored_inode(inode@)));
        Ok(())
    }

    /// Get an inode from the snapshot. An entry that does not hold an inode
    /// gives `Deserialization`.
    pub fn get_inode(&self, ino: u64) -> (r: Result<Option<Inode>>)
        ensures
            match r {
                Ok(Some(inode)) => self@.inodes.contains_key(ino) && decoded_inode(
                    self@.inodes[ino],
                ) == Some(inode@),
                Ok(None) => !self@.inodes.contains_key(ino),
                Err(e) => self@.inodes.contains_key(ino) && decoded_inode(
                    self@.inodes[ino],
                ).is_none() && e is Deserialization,
            },
    {
        broadcast use vstd::std_specs::hash::group_hash_axioms;

        match self.inodes.get(&ino) {
            Some(data) => {
                match decode_inode(data.as_slice()) {
                    Ok(inode) => Ok(Some(inode)),
                    Err(e) => Err(e),
                }
            },
            None => Ok(None),
        }
    }

    /// The numbers of the inodes in the snapshot, each once, in no
    /// particular order.
    pub fn inode_numbers(&self) -> (r: Vec<u64>)
        ensures
            r@.no_duplicates(),
            forall|ino: u64| r@.contains(ino) <==> self@.inodes.contains_key(ino),
    {
        broadcast use vstd::std_specs::hash::group_hash_axioms;

        let mut numbers: Vec<u64> = Vec::new();
        for ino in iter: self.inodes.keys()
            invariant
                numbers@ == iter.seq().unref().take(iter.index() as int),
                iter.seq().unref().to_set() == self.inodes@.dom(),
                iter.seq().no_duplicates(),
        {
            numbers.push(*ino);
            assert(numbers@ =~= iter.seq().unref().take(iter.index() + 1));
        }
        proof {
            let ghost all = self.inodes.keys().remaining().unref();
            assert(numbers@ =~= all);
            assert forall|ino: u64| numbers@.contains(ino) <==> self@.inodes.contains_key(
                ino,
            ) by {
                assert(all.to_set().contains(ino) <==> all.contains(ino));
            }
        }
        numbers
    }

    /// Get all inodes in the snapshot, in no particular order. An entry
    /// that does not hold an inode gives `Deserialization`.
    pub fn all_inodes(&self) -> (r: Result<Vec<Inode>>)
        ensures
            match r {
                Ok(inodes) => decoded_from(self@, inodes@),
                Err(e) => e is Deserialization && !holds_inodes(self@),
            },
    {
        broadcast use vstd::std_specs::hash::group_hash_axioms;

        let numbers = self.inode_numbers();
        let mut inodes: Vec<Inode> = Vec::new();
        let mut i: usize = 0;
        while i < numbers.len()
            invariant
                i <= numbers@.len(),
                self.lists(numbers@),
                inodes@.len() == i,
                forall|j: int|
                    0 <= j < i ==> decoded_inode(self@.inodes[numbers@[j]]) == Some(
                        (#[trigger] inodes@[j])@,
                    ),
            decreases numbers@.len() - i,
        {
            let ino = numbers[i];
            assert(numbers@.contains(ino));
            match self.get_inode(ino) {
                Ok(Some(inode)) => {
                    inodes.push(inode);
                },
                Ok(None) => {
                    assert(false);
                },
                Err(e) => {
                    return Err(e);
                },
            }
            i += 1;
        }
        assert(decoded_in_order(self@, numbers@, inodes@));
        Ok(inodes)
    }

    /// Whether `numbers` lists the inodes of the snapshot, each once.
    pub open spec fn lists(&self, numbers: Seq<u64>) -> bool {
        &&& numbers.no_duplicates()
        &&& forall|ino: u64| numbers.contains(ino) <==> self@.inodes.contains_key(ino)
    }

    /// Get the number of inodes in the snapshot.
    pub fn inode_count(&self) -> (r: usize)
        ensures
            r == self@.inodes.len(),
    {
        broadcast use vstd::std_specs::hash::group_hash_axioms;

        assert(self@.inodes.dom() =~= self.inodes@.dom());
        self.inodes.len()
    }
}

/// The label that binds exported snapshots to their purpose.
pub open spec fn export_label() -> Seq<u8> {
    "snapshots".spec_bytes()
}

/// What exported snapshots open to under `key`.
pub open spec fn opened_export(key: Seq<u8>, sealed: Seq<u8>) -> Option<Seq<u8>> {
    if sealed.len() < NONCE_SIZE + TAG_SIZE {
        None
    } else {
        decrypted(
            key,
            sealed.take(NONCE_SIZE as int),
            sealed.skip(NONCE_SIZE as int),
            export_label(),
        )
    }
}

/// Position of the first snapshot with the given name.
pub open spec fn position_by_name(snapshots: Seq<Snapshot>, name: Seq<char>) -> Option<int> {
    if exists|i: int| 0 <= i < snapshots.len() && (#[trigger] snapshots[i]).name@ == name {
        Some(
            choose|i: int|
                0 <= i < snapshots.len() && (#[trigger] snapshots[i]).name@ == name && forall|
                    j: int,
                |
                    0 <= j < i ==> (#[trigger] snapshots[j]).name@ != name,
        )
    } else {
        None
    }
}

/// Position of the first snapshot with the given id.
pub open spec fn position_by_id(snapshots: Seq<Snapshot>, id: Seq<char>) -> Option<int> {
    if exists|i: int| 0 <= i < snapshots.len() && (#[trigger] snapshots[i]).id@ == id {
        Some(
            choose|i: int|
                0 <= i < snapshots.len() && (#[trigger] snapshots[i]).id@ == id && forall|j: int|
                    0 <= j < i ==> (#[trigger] snapshots[j]).id@ != id,
        )
    } else {
        None
    }
}

/// The list that takes in one more snapshot under a limit (0 = unlimited):
/// where it is full, the oldest snapshot leaves.
pub open spec fn pruned(snapshots: Seq<Snapshot>, limit: nat) -> Seq<Snapshot> {
    if limit > 0 && snapshots.len() >= limit {
        snapshots.skip(1)
    } else {
        snapshots
    }
}

/// Whether every entry of the snapshot holds an inode.
pub open spec fn holds_inodes(snapshot: SnapshotView) -> bool {
    forall|key: u64|
        snapshot.inodes.contains_key(key) ==> decoded_inode(#[trigger] snapshot.inodes[key]).is_some()
}

/// Whether an entry of the snapshot holds an inode with the number `ino`.
pub open spec fn restores_to(snapshot: SnapshotView, ino: u64) -> bool {
    exists|key: u64|
        snapshot.inodes.contains_key(key) && (#[trigger] decoded_inode(
            snapshot.inodes[key],
        )).is_some() && decoded_inode(snapshot.inodes[key]).unwrap().ino == ino
}

/// Whether an entry of the snapshot holds `inode`, and `ino` is its number.
pub open spec fn restored_as(snapshot: SnapshotView, ino: u64, inode: InodeView) -> bool {
    exists|key: u64|
        snapshot.inodes.contains_key(key) && #[trigger] decoded_inode(snapshot.inodes[key]) == Some(
            inode,
        ) && inode.ino == ino
}

/// Whether an inode of the list, from position `from` on, has the number
/// `ino`.
pub open spec fn among(all: Seq<Inode>, from: int, ino: u64) -> bool {
    exists|j: int| from <= j < all.len() && (#[trigger] all[j]).ino == ino
}

/// Whether `inode` stands in the list, from position `from` on, and `ino`
/// is its number.
pub open spec fn taken_from(all: Seq<Inode>, from: int, ino: u64, inode: Inode) -> bool {
    exists|j: int| from <= j < all.len() && (#[trigger] all[j]) == inode && inode.ino == ino
}

/// Whether `all` are the inodes that the entries of the snapshot hold, in
/// the order of `numbers`.
pub open spec fn decoded_in_order(snapshot: SnapshotView, numbers: Seq<u64>, all: Seq<Inode>) -> bool {
    &&& numbers.no_duplicates()
    &&& forall|ino: u64| numbers.contains(ino) <==> snapshot.inodes.contains_key(ino)
    &&& all.len() == numbers.len()
    &&& forall|i: int|
        0 <= i < numbers.len() ==> decoded_inode(snapshot.inodes[numbers[i]]) == Some(
            (#[trigger] all[i])@,
        )
}

/// Whether `all` are the inodes that the entries of the snapshot hold, in
/// some order.
pub open spec fn decoded_from(snapshot: SnapshotView, all: Seq<Inode>) -> bool {
    exists|numbers: Seq<u64>| #[trigger] decoded_in_order(snapshot, numbers, all)
}

/// The inodes that were read from a snapshot are as many as its entries.
proof fn lemma_all_inodes(snapshot: SnapshotView, numbers: Seq<u64>, all: Seq<Inode>)
    requires
        decoded_in_order(snapshot, numbers, all),
    ensures
        decoded_from(snapshot, all),
        holds_inodes(snapshot),
        all.len() == snapshot.inodes.len(),
{
    assert forall|key: u64| snapshot.inodes.contains_key(key) implies decoded_inode(
        #[trigger] snapshot.inodes[key],
    ).is_some() by {
        assert(numbers.contains(key));
        let j = choose|j: int| 0 <= j < numbers.len() && numbers[j] == key;
        assert(decoded_inode(snapshot.inodes[numbers[j]]) == Some(all[j]@));
    }
    numbers.unique_seq_to_set();
    assert(numbers.to_set() =~= snapshot.inodes.dom());
}

/// An inode number is among those read from a snapshot exactly if an entry
/// of the snapshot holds an inode with it.
proof fn lemma_restores(snapshot: SnapshotView, all: Seq<Inode>, ino: u64)
    requires
        decoded_from(snapshot, all),
    ensures
        among(all, 0, ino) <==> restores_to(snapshot, ino),
{
    let numbers = choose|numbers: Seq<u64>| #[trigger] decoded_in_order(snapshot, numbers, all);
    if among(all, 0, ino) {
        let j = choose|j: int| 0 <= j < all.len() && (#[trigger] all[j]).ino == ino;
        assert(numbers.contains(numbers[j]));
        assert(decoded_inode(snapshot.inodes[numbers[j]]) == Some(all[j]@));
    }
    if restores_to(snapshot, ino) {
        let key = choose|key: u64|
            snapshot.inodes.contains_key(key) && (#[trigger] decoded_inode(
                snapshot.inodes[key],
            )).is_some() && decoded_inode(snapshot.inodes[key]).unwrap().ino == ino;
        assert(numbers.contains(key));
        let j = choose|j: int| 0 <= j < numbers.len() && numbers[j] == key;
        assert(decoded_inode(snapshot.inodes[numbers[j]]) == Some(all[j]@));
        assert(all[j].ino == ino);
    }
}

/// An inode read from a snapshot is what an entry of the snapshot holds.
proof fn lemma_restored_as(snapshot: SnapshotView, all: Seq<Inode>, j: int)
    requires
        decoded_from(snapshot, all),
        0 <= j < all.len(),
    ensures
        restored_as(snapshot, all[j].ino, all[j]@),
{
    let numbers = choose|numbers: Seq<u64>| #[trigger] decoded_in_order(snapshot, numbers, all);
    assert(numbers.contains(numbers[j]));
    assert(decoded_inode(snapshot.inodes[numbers[j]]) == Some(all[j]@));
}

/// Manages snapshots: a bounded list, oldest first.
pub struct SnapshotManager {
    /// Encryption key.
    key: [u8; KEY_SIZE],
    /// Maximum snapshots to keep (0 = unlimited).
    max_snapshots: usize,
    /// Loaded snapshots.
    snapshots: Vec<Snapshot>,
    /// How many times a snapshot was restored.
    restores: u64,
}

impl SnapshotManager {
    /// The snapshots, oldest first.
    pub closed spec fn snapshots(&self) -> Seq<Snapshot> {
        self.snapshots@
    }

    /// Maximum snapshots to keep (0 = unlimited).
    pub closed spec fn limit(&self) -> nat {
        self.max_snapshots as nat
    }

    /// The encryption key.
    pub closed spec fn key_bytes(&self) -> Seq<u8> {
        self.key@
    }

    /// How many times a snapshot was restored.
    pub closed spec fn restores(&self) -> u64 {
        self.restores
    }

    /// Create a new snapshot manager.
    pub fn new(key: [u8; KEY_SIZE], max_snapshots: usize) -> (r: Self)
        ensures
            r.snapshots().len() == 0,
            r.limit() == max_snapshots,
            r.key_bytes() == key@,
            r.restores() == 0,
    {
        SnapshotManager { key, max_snapshots, snapshots: Vec::new(), restores: 0 }
    }

    /// Create a snapshot of the inodes that `iter_inodes` gives, each in
    /// its serialized form under its number. Where the list is full, the
    /// oldest snapshot is dropped first. Where `iter_inodes` fails, so does
    /// this, and the list stays as it was.
    pub fn create_snapshot<F>(&mut self, name: String, description: Option<String>, iter_inodes: F) -> (r: Result<
        &Snapshot,
    >) where F: FnOnce() -> Result<Vec<Inode>>
        requires
            iter_inodes.requires(()),
        ensures
            final(self).limit() == old(self).limit(),
            final(self).key_bytes() == old(self).key_bytes(),
            final(self).restores() == old(self).restores(),
            match r {
                Ok(snapshot) => {
                    &&& final(self).snapshots().len() > 0
                    &&& *snapshot == final(self).snapshots().last()
                    &&& snapshot.name == name
                    &&& snapshot.description == description
                    &&& snapshot.root_ino == ROOT_INO
                    &&& exists|inodes: Vec<Inode>| #[trigger]
                        iter_inodes.ensures((), Ok(inodes)) && snapshot@.inodes == collected(inodes@)
                    &&& final(self).snapshots().drop_last() == pruned(
                        old(self).snapshots(),
                        old(self).limit(),
                    )
                },
                Err(e) => iter_inodes.ensures((), Err(e)) && final(self).snapshots() == old(
                    self,
                ).snapshots(),
            },
    {
        let mut snapshot = Snapshot::new(name, description);
        let inodes = match iter_inodes() {
            Ok(inodes) => inodes,
            Err(e) => {
                return Err(e);
            },
        };
        let n = inodes.len();
        let mut i: usize = 0;
        assert(inodes@.take(0) =~= Seq::<Inode>::empty());
        while i < n
            invariant
                n == inodes@.len(),
                i <= n,
                snapshot.name == name,
                snapshot.description == description,
                snapshot.root_ino == ROOT_INO,
                snapshot@.inodes == collected(inodes@.take(i as int)),
            decreases n - i,
        {
            proof {
                assert(inodes@.take(i + 1).drop_last() =~= inodes@.take(i as int));
                assert(inodes@.take(i + 1).last() == inodes@[i as int]);
            }
            let _ = snapshot.add_inode(&inodes[i]);
            i += 1;
        }
        assert(inodes@.take(n as int) =~= inodes@);
        Ok(self.keep(snapshot))
    }

    /// Create a snapshot of a store: of every inode that a path leads to
    /// from the root over the children lists, each in its serialized form.
    /// Where the list is full, the oldest snapshot is dropped first.
    pub fn capture(&mut self, name: String, description: Option<String>, store: &MetadataStore) -> (r: Result<
        &Snapshot,
    >)
        requires
            store.wf(),
        ensures
            final(self).limit() == old(self).limit(),
            final(self).key_bytes() == old(self).key_bytes(),
            final(self).restores() == old(self).restores(),
            final(self).snapshots().len() > 0,
            r matches Ok(snapshot) && *snapshot == final(self).snapshots().last(),
            final(self).snapshots().last().name == name,
            final(self).snapshots().last().description == description,
            final(self).snapshots().last().root_ino == ROOT_INO,
            forall|ino: u64| #[trigger]
                final(self).snapshots().last()@.inodes.contains_key(ino) <==> reachable(
                    store.inodes(),
                    ino,
                ),
            forall|ino: u64|
                reachable(store.inodes(), ino) ==> #[trigger] final(self).snapshots().last()@.inodes[ino] == stored_inode(store.inodes()[ino]@),
            final(self).snapshots().drop_last() == pruned(old(self).snapshots(), old(self).limit()),
    {
        let numbers = reachable_inodes(store);
        let mut snapshot = Snapshot::new(name, description);
        let mut i: usize = 0;
        while i < numbers.len()
            invariant
                store.wf(),
                i <= numbers@.len(),
                forall|ino: u64| numbers@.contains(ino) <==> reachable(store.inodes(), ino),
                snapshot.name == name,
                snapshot.description == description,
                snapshot.root_ino == ROOT_INO,
                forall|ino: u64| #[trigger]
                    snapshot@.inodes.contains_key(ino) <==> numbers@.take(i as int).contains(ino),
                forall|ino: u64| #[trigger]
                    snapshot@.inodes.contains_key(ino) ==> snapshot@.inodes[ino] == stored_inode(
                        store.inodes()[ino]@,
                    ),
            decreases numbers@.len() - i,
        {
            let ino = numbers[i];
            let ghost earlier = numbers@.take(i as int);
            proof {
                assert(numbers@.contains(ino));
                assert(numbers@.take(i + 1) =~= earlier.push(ino));
                assert forall|x: u64| earlier.push(ino).contains(x) <==> earlier.contains(x) || x
                    == ino by {
                    if earlier.contains(x) {
                        let j = choose|j: int| 0 <= j < earlier.len() && earlier[j] == x;
                        assert(earlier.push(ino)[j] == x);
                    }
                    if x == ino {
                        assert(earlier.push(ino)[earlier.len() as int] == x);
                    }
                }
            }
            match store.get_inode(ino) {
                Some(inode) => {
                    proof {
                        store.lemma_inode_key(ino);
                    }
                    let _ = snapshot.add_inode(inode);
                },
                None => {
                    proof {
                        assert(reachable(store.inodes(), ino));
                        let path = choose|path: Seq<u64>| #[trigger]
                            is_path(store.inodes(), path) && path.last() == ino;
                        assert(store.inodes().contains_key(path[path.len() - 1]));
                        assert(false);
                    }
                },
            }
            assert forall|x: u64| #[trigger]
                snapshot@.inodes.contains_key(x) <==> numbers@.take(i + 1).contains(x) by {
                assert(earlier.push(ino).contains(x) <==> earlier.contains(x) || x == ino);
            }
            i += 1;
        }
        proof {
            assert(numbers@.take(i as int) =~= numbers@);
            assert forall|ino: u64| reachable(store.inodes(), ino) implies snapshot@.inodes[ino]
                == stored_inode(store.inodes()[ino]@) by {
                assert(numbers@.contains(ino));
                assert(snapshot@.inodes.contains_key(ino));
            }
        }
        Ok(self.keep(snapshot))
    }

    /// Restore a snapshot into a store: every inode of the snapshot is
    /// saved under its number, in place of what the store held there, and
    /// the count of restores goes up by one. The other inodes of the store
    /// stay. An unknown id gives `SnapshotNotFound`, an entry that does not
    /// hold an inode `Deserialization`; the store then stays as it was.
    pub fn restore(&mut self, id: &str, store: &mut MetadataStore) -> (r: Result<usize>)
        requires
            old(store).wf(),
        ensures
            final(store).wf(),
            final(self).limit() == old(self).limit(),
            final(self).key_bytes() == old(self).key_bytes(),
            final(self).snapshots() == old(self).snapshots(),
            final(store).chunk_rows() == old(store).chunk_rows(),
            final(store).sealed_values() == old(store).sealed_values(),
            final(store).key_bytes() == old(store).key_bytes(),
            final(store).namespace() == old(store).namespace(),
            final(store).next() == old(store).next(),
            match position_by_id(old(self).snapshots(), id@) {
                Some(p) => if holds_inodes(old(self).snapshots()[p]@) {
                    &&& r matches Ok(n) && n == old(self).snapshots()[p]@.inodes.len()
                    &&& final(self).restores() == if old(self).restores() < u64::MAX {
                        (old(self).restores() + 1) as u64
                    } else {
                        u64::MAX
                    }
                    &&& forall|ino: u64| #[trigger]
                        final(store).inodes().contains_key(ino) <==> old(store).inodes().contains_key(
                            ino,
                        ) || restores_to(old(self).snapshots()[p]@, ino)
                    &&& forall|ino: u64| #[trigger]
                        final(store).inodes().contains_key(ino) ==> if restores_to(
                            old(self).snapshots()[p]@,
                            ino,
                        ) {
                            restored_as(old(self).snapshots()[p]@, ino, final(store).inodes()[ino]@)
                        } else {
                            final(store).inodes()[ino] == old(store).inodes()[ino]
                        }
                } else {
                    &&& r matches Err(e) && e is Deserialization
                    &&& *final(store) == *old(store)
                    &&& final(self).restores() == old(self).restores()
                },
                None => {
                    &&& r matches Err(e) && e is SnapshotNotFound
                    &&& *final(store) == *old(store)
                    &&& final(self).restores() == old(self).restores()
                },
            },
    {
        let ghost snapshot = match position_by_id(self.snapshots(), id@) {
            Some(p) => self.snapshots()[p]@,
            None => arbitrary(),
        };
        let mut inodes = match self.get(id) {
            Some(found) => {
                match found.all_inodes() {
                    Ok(inodes) => {
                        proof {
                            let numbers = choose|numbers: Seq<u64>| #[trigger]
                                decoded_in_order(found@, numbers, inodes@);
                            lemma_all_inodes(found@, numbers, inodes@);
                        }
                        inodes
                    },
                    Err(e) => {
                        return Err(e);
                    },
                }
            },
            None => {
                return Err(Error::SnapshotNotFound(id.to_string()));
            },
        };
        let ghost all = inodes@;
        let n = inodes.len();
        while inodes.len() > 0
            invariant
                store.wf(),
                store.chunk_rows() == old(store).chunk_rows(),
                store.sealed_values() == old(store).sealed_values(),
                store.key_bytes() == old(store).key_bytes(),
                store.namespace() == old(store).namespace(),
                store.next() == old(store).next(),
                inodes@.len() <= all.len(),
                inodes@ == all.take(inodes@.len() as int),
                forall|ino: u64| #[trigger]
                    store.inodes().contains_key(ino) <==> old(store).inodes().contains_key(ino)
                        || among(all, inodes@.len() as int, ino),
                forall|ino: u64| #[trigger]
                    store.inodes().contains_key(ino) ==> if among(all, inodes@.len() as int, ino) {
                        taken_from(all, inodes@.len() as int, ino, store.inodes()[ino])
                    } else {
                        store.inodes()[ino] == old(store).inodes()[ino]
                    },
            decreases inodes@.len(),
        {
            let ghost from = inodes@.len() as int;
            let ghost before = store.inodes();
            match inodes.pop() {
                Some(inode) => {
                    proof {
                        assert(inode == all[from - 1]);
                        assert(inodes@ =~= all.take(from - 1));
                        assert forall|ino: u64| among(all, from - 1, ino) <==> among(all, from, ino)
                            || ino == inode.ino by {
                            if among(all, from - 1, ino) {
                                let j = choose|j: int|
                                    from - 1 <= j < all.len() && (#[trigger] all[j]).ino == ino;
                                if j >= from {
                                    assert(among(all, from, ino));
                                }
                            }
                            if among(all, from, ino) {
                                let j = choose|j: int|
                                    from <= j < all.len() && (#[trigger] all[j]).ino == ino;
                                assert(all[j].ino == ino);
                            }
                            if ino == inode.ino {
                                assert(all[from - 1].ino == ino);
                            }
                        }
                        assert forall|ino: u64, held: Inode|
                            taken_from(all, from, ino, held) implies taken_from(
                            all,
                            from - 1,
                            ino,
                            held,
                        ) by {
                            let j = choose|j: int|
                                from <= j < all.len() && (#[trigger] all[j]) == held && held.ino
                                    == ino;
                            assert(all[j] == held);
                        }
                        assert(taken_from(all, from - 1, inode.ino, inode)) by {
                            assert(all[from - 1] == inode);
                        }
                    }
                    store.save_inode(inode);
                },
                None => {},
            }
        }
        self.restores = if self.restores < u64::MAX {
            self.restores + 1
        } else {
            u64::MAX
        };
        proof {
            assert forall|ino: u64| among(all, 0, ino) <==> restores_to(snapshot, ino) by {
                lemma_restores(snapshot, all, ino);
            }
            assert forall|ino: u64| #[trigger]
                store.inodes().contains_key(ino) && restores_to(snapshot, ino) implies restored_as(
                snapshot,
                ino,
                store.inodes()[ino]@,
            ) by {
                lemma_restores(snapshot, all, ino);
                let held = store.inodes()[ino];
                let j = choose|j: int|
                    0 <= j < all.len() && (#[trigger] all[j]) == held && held.ino == ino;
                lemma_restored_as(snapshot, all, j);
            }
        }
        Ok(n)
    }

    /// Take a snapshot into the list. Where the list is full, the oldest
    /// snapshot is dropped first.
    fn keep(&mut self, snapshot: Snapshot) -> (r: &Snapshot)
        ensures
            final(self).limit() == old(self).limit(),
            final(self).key_bytes() == old(self).key_bytes(),
            final(self).restores() == old(self).restores(),
            final(self).snapshots().len() > 0,
            *r == final(self).snapshots().last(),
            final(self).snapshots().last() == snapshot,
            final(self).snapshots().drop_last() == pruned(old(self).snapshots(), old(self).limit()),
    {
        let ghost before = self.snapshots@;
        if self.max_snapshots > 0 && self.snapshots.len() >= self.max_snapshots {
            self.snapshots.remove(0);
            assert(self.snapshots@ =~= before.skip(1));
        }
        let ghost kept = self.snapshots@;
        self.snapshots.push(snapshot);
        assert(self.snapshots@.drop_last() =~= kept);
        let last = self.snapshots.len() - 1;
        &self.snapshots[last]
    }

    /// List all snapshots, oldest first.
    pub fn list(&self) -> (r: &[Snapshot])
        ensures
            r@ == self.snapshots(),
    {
        self.snapshots.as_slice()
    }

    /// Get a snapshot by id: the oldest one that carries it.
    pub fn get(&self, id: &str) -> (r: Option<&Snapshot>)
        ensures
            match position_by_id(self.snapshots(), id@) {
                Some(i) => r == Some(&self.snapshots()[i]),
                None => r.is_none(),
            },
    {
        let mut i: usize = 0;
        while i < self.snapshots.len()
            invariant
                i <= self.snapshots@.len(),
                forall|j: int| 0 <= j < i ==> (#[trigger] self.snapshots@[j]).id@ != id@,
            decreases self.snapshots@.len() - i,
        {
            if str_eq(self.snapshots[i].id.as_str(), id) {
                return Some(&self.snapshots[i]);
            }
            i += 1;
        }
        None
    }

    /// Get a snapshot by name: the oldest one that carries it.
    pub fn get_by_name(&self, name: &str) -> (r: Option<&Snapshot>)
        ensures
            match position_by_name(self.snapshots(), name@) {
                Some(i) => r == Some(&self.snapshots()[i]),
                None => r.is_none(),
            },
    {
        let mut i: usize = 0;
        while i < self.snapshots.len()
            invariant
                i <= self.snapshots@.len(),
                forall|j: int| 0 <= j < i ==> (#[trigger] self.snapshots@[j]).name@ != name@,
            decreases self.snapshots@.len() - i,
        {
            if str_eq(self.snapshots[i].name.as_str(), name) {
                return Some(&self.snapshots[i]);
            }
            i += 1;
        }
        None
    }

    /// Delete a snapshot by id: the oldest one that carries it. The result
    /// tells whether there was one.
    pub fn delete(&mut self, id: &str) -> (r: bool)
        ensures
            final(self).limit() == old(self).limit(),
            final(self).key_bytes() == old(self).key_bytes(),
            final(self).restores() == old(self).restores(),
            match position_by_id(old(self).snapshots(), id@) {
                Some(i) => r && final(self).snapshots() == old(self).snapshots().remove(i),
                None => !r && final(self).snapshots() == old(self).snapshots(),
            },
    {
        let mut i: usize = 0;
        while i < self.snapshots.len()
            invariant
                *self == *old(self),
                i <= self.snapshots@.len(),
                forall|j: int| 0 <= j < i ==> (#[trigger] self.snapshots@[j]).id@ != id@,
            decreases self.snapshots@.len() - i,
        {
            if str_eq(self.snapshots[i].id.as_str(), id) {
                self.snapshots.remove(i);
                return true;
            }
            i += 1;
        }
        false
    }

    /// Encrypt and serialize all snapshots for storage: the list in its
    /// binary form, encrypted under the manager's key and bound to the
    /// label `snapshots`, in wire form. It fails only where the list is
    /// longer than can be encrypted.
    pub fn export(&self) -> (r: Result<Vec<u8>>)
        ensures
            r matches Ok(sealed) ==> (opened_export(self.key_bytes(), sealed@) matches Some(plain)
                && decoded_snapshots(plain) == Some(snapshot_views(self.snapshots()))),
            r matches Err(e) ==> e is Encryption && exists|plain: Seq<u8>|
                #[trigger] decoded_snapshots(plain) == Some(snapshot_views(self.snapshots()))
                    && plain.len() > MAX_PLAINTEXT_LEN,
    {
        let serialized = encode_snapshots(self.snapshots.as_slice());
        match encrypt(&self.key, serialized.as_slice(), "snapshots".as_bytes()) {
            Ok(data) => {
                let sealed = data.to_bytes();
                proof {
                    lemma_wire_round_trip(data.nonce@, data.ciphertext@);
                }
                Ok(sealed)
            },
            Err(e) => {
                assert(decoded_snapshots(serialized@) == Some(snapshot_views(self.snapshots())));
                Err(e)
            },
        }
    }

    /// Import snapshots from encrypted data: they take the place of the
    /// list. Data that does not open under the manager's key gives
    /// `Decryption`, data that opens to something else than a list of
    /// snapshots `Deserialization`; the list then stays as it was.
    pub fn import(&mut self, data: &[u8]) -> (r: Result<()>)
        ensures
            final(self).limit() == old(self).limit(),
            final(self).key_bytes() == old(self).key_bytes(),
            final(self).restores() == old(self).restores(),
            match opened_export(old(self).key_bytes(), data@) {
                Some(plain) => match decoded_snapshots(plain) {
                    Some(views) => r is Ok && snapshot_views(final(self).snapshots()) == views,
                    None => (r matches Err(e) && e is Deserialization) && final(self).snapshots()
                        == old(self).snapshots(),
                },
                None => (r matches Err(e) && e is Decryption) && final(self).snapshots() == old(self).snapshots(),
            },
    {
        let encrypted = match EncryptedData::from_bytes(data) {
            Ok(x) => x,
            Err(e) => {
                return Err(e);
            },
        };
        let plain = match decrypt(&self.key, &encrypted, "snapshots".as_bytes()) {
            Ok(x) => x,
            Err(e) => {
                return Err(e);
            },
        };
        match decode_snapshots(plain.as_slice()) {
            Ok(snapshots) => {
                self.snapshots = snapshots;
                Ok(())
            },
            Err(e) => Err(e),
        }
    }

    /// Get the latest snapshot.
    pub fn latest(&self) -> (r: Option<&Snapshot>)
        ensures
            match r {
                Some(snapshot) => self.snapshots().len() > 0 && *snapshot
                    == self.snapshots().last(),
                None => self.snapshots().len() == 0,
            },
    {
        if self.snapshots.len() == 0 {
            None
        } else {
            Some(&self.snapshots[self.snapshots.len() - 1])
        }
    }
}

/// The table of a snapshot that takes in `inodes` in order: where a number
/// occurs twice the last one counts.
pub open spec fn collected(inodes: Seq<Inode>) -> Map<u64, Seq<u8>>
    decreases inodes.len(),
{
    if inodes.len() == 0 {
        Map::empty()
    } else {
        collected(inodes.drop_last()).insert(inodes.last().ino, stored_inode(inodes.last()@))
    }
}

/// Whether `path` leads from the root over children lists, through inodes
/// that are held.
pub open spec fn is_path(inodes: Map<u64, Inode>, path: Seq<u64>) -> bool {
    &&& path.len() > 0
    &&& path[0] == ROOT_INO
    &&& forall|i: int| 0 <= i < path.len() ==> inodes.contains_key(#[trigger] path[i])
    &&& forall|i: int| 0 < i < path.len() ==> #[trigger] linked(inodes, path, i)
}

/// Whether the inode at position `i` of the path is a child of the one
/// before it.
pub open spec fn linked(inodes: Map<u64, Inode>, path: Seq<u64>, i: int) -> bool {
    inodes[path[i - 1]].children@.contains(path[i])
}

/// Whether a path leads from the root to `ino`.
pub open spec fn reachable(inodes: Map<u64, Inode>, ino: u64) -> bool {
    exists|path: Seq<u64>| #[trigger] is_path(inodes, path) && path.last() == ino
}

/// Whether the list holds every held child of the inodes it holds before
/// position `upto`.
pub open spec fn closed_upto(inodes: Map<u64, Inode>, order: Seq<u64>, upto: int) -> bool {
    forall|i: int, c: int|
        0 <= i < upto && 0 <= c < inodes[order[i]].children@.len() && inodes.contains_key(
            (#[trigger] inodes[order[i]].children@[c]),
        ) ==> order.contains(inodes[order[i]].children@[c])
}

/// A held child of a reachable inode is reachable.
pub proof fn lemma_child_reachable(inodes: Map<u64, Inode>, parent: u64, child: u64)
    requires
        reachable(inodes, parent),
        inodes.contains_key(child),
        inodes[parent].children@.contains(child),
    ensures
        reachable(inodes, child),
{
    let path = choose|path: Seq<u64>| #[trigger] is_path(inodes, path) && path.last() == parent;
    let longer = path.push(child);
    assert forall|i: int| 0 < i < longer.len() implies #[trigger] linked(inodes, longer, i) by {
        if i < path.len() {
            assert(linked(inodes, path, i));
        }
    }
    assert(is_path(inodes, longer));
    assert(longer.last() == child);
}

/// A list that holds the root and every held child of its inodes holds
/// every inode that a path ends in.
pub proof fn lemma_paths_end_inside(inodes: Map<u64, Inode>, order: Seq<u64>, path: Seq<u64>)
    requires
        is_path(inodes, path),
        order.contains(ROOT_INO),
        closed_upto(inodes, order, order.len() as int),
    ensures
        order.contains(path.last()),
    decreases path.len(),
{
    if path.len() > 1 {
        let front = path.drop_last();
        assert(is_path(inodes, front)) by {
            assert forall|i: int| 0 < i < front.len() implies #[trigger] linked(inodes, front, i) by {
                assert(linked(inodes, path, i));
            }
        }
        lemma_paths_end_inside(inodes, order, front);
        let parent = path[path.len() - 2];
        assert(front.last() == parent);
        let i = choose|i: int| 0 <= i < order.len() && order[i] == parent;
        let children = inodes[parent].children@;
        assert(linked(inodes, path, path.len() - 1));
        assert(children.contains(path[path.len() - 1]));
        let c = choose|c: int| 0 <= c < children.len() && children[c] == path.last();
        assert(inodes.contains_key(inodes[order[i]].children@[c]));
    }
}

/// A list without repetition of held inodes that lacks a held inode is
/// shorter than the number of held inodes.
proof fn lemma_room_left(inodes: Map<u64, Inode>, order: Seq<u64>, ino: u64)
    requires
        inodes.dom().finite(),
        order.no_duplicates(),
        forall|i: int| 0 <= i < order.len() ==> inodes.contains_key(#[trigger] order[i]),
        inodes.contains_key(ino),
        !order.contains(ino),
    ensures
        order.len() < inodes.len(),
{
    let longer = order.push(ino);
    assert(longer.no_duplicates());
    longer.unique_seq_to_set();
    assert(longer.to_set().subset_of(inodes.dom())) by {
        assert forall|x: u64| longer.to_set().contains(x) implies inodes.dom().contains(x) by {
            let i = choose|i: int| 0 <= i < longer.len() && longer[i] == x;
            if i < order.len() {
                assert(order[i] == x);
            }
        }
    }
    vstd::set_lib::lemma_len_subset(longer.to_set(), inodes.dom());
}

/// The inodes to capture: those that a path leads to from the root over
/// the children lists, each once, the root first.
pub fn reachable_inodes(store: &MetadataStore) -> (r: Vec<u64>)
    ensures
        r@.no_duplicates(),
        forall|ino: u64| r@.contains(ino) <==> reachable(store.inodes(), ino),
        r@.len() > 0 ==> r@[0] == ROOT_INO,
{
    let mut order: Vec<u64> = Vec::new();
    if !store.has_inode(ROOT_INO) {
        proof {
            assert forall|ino: u64| !reachable(store.inodes(), ino) by {
                if reachable(store.inodes(), ino) {
                    let path = choose|path: Seq<u64>| #[trigger]
                        is_path(store.inodes(), path) && path.last() == ino;
                    assert(store.inodes().contains_key(path[0]));
                }
            }
        }
        return order;
    }
    let limit = store.inode_count();
    proof {
        lemma_room_left(store.inodes(), order@, ROOT_INO);
        assert(is_path(store.inodes(), seq![ROOT_INO]));
        assert(seq![ROOT_INO].last() == ROOT_INO);
    }
    order.push(ROOT_INO);
    let mut next: usize = 0;
    while next < order.len()
        invariant
            limit == store.inodes().len(),
            store.inodes().dom().finite(),
            0 < order@.len() <= limit,
            next <= order@.len(),
            order@[0] == ROOT_INO,
            order@.no_duplicates(),
            forall|i: int| 0 <= i < order@.len() ==> store.inodes().contains_key(#[trigger] order@[i]),
            forall|i: int| 0 <= i < order@.len() ==> reachable(store.inodes(), #[trigger] order@[i]),
            closed_upto(store.inodes(), order@, next as int),
        decreases limit - next,
    {
        let current = order[next];
        match store.get_inode(current) {
            Some(inode) => {
                let mut c: usize = 0;
                while c < inode.children.len()
                    invariant
                        limit == store.inodes().len(),
                        store.inodes().dom().finite(),
                        *inode == store.inodes()[current],
                        current == order@[next as int],
                        0 < order@.len() <= limit,
                        next < order@.len(),
                        order@[0] == ROOT_INO,
                        order@.no_duplicates(),
                        c <= inode.children@.len(),
                        forall|i: int|
                            0 <= i < order@.len() ==> store.inodes().contains_key(
                                #[trigger] order@[i],
                            ),
                        forall|i: int|
                            0 <= i < order@.len() ==> reachable(
                                store.inodes(),
                                #[trigger] order@[i],
                            ),
                        closed_upto(store.inodes(), order@, next as int),
                        forall|k: int|
                            0 <= k < c && store.inodes().contains_key(
                                (#[trigger] inode.children@[k]),
                            ) ==> order@.contains(inode.children@[k]),
                    decreases inode.children@.len() - c,
                {
                    let child = inode.children[c];
                    let ghost before = order@;
                    if store.has_inode(child) && !listed(&order, child) {
                        proof {
                            lemma_room_left(store.inodes(), order@, child);
                            assert(inode.children@.contains(child));
                            lemma_child_reachable(store.inodes(), current, child);
                        }
                        order.push(child);
                    }
                    proof {
                        assert forall|x: u64| before.contains(x) implies order@.contains(x) by {
                            let p = choose|p: int| 0 <= p < before.len() && before[p] == x;
                            assert(order@[p] == x);
                        }
                        if order@.len() > before.len() {
                            assert(order@[before.len() as int] == child);
                        }
                        assert forall|i: int, k: int|
                            0 <= i < next && 0 <= k < store.inodes()[order@[i]].children@.len()
                                && store.inodes().contains_key(
                                (#[trigger] store.inodes()[order@[i]].children@[k]),
                            ) implies order@.contains(store.inodes()[order@[i]].children@[k]) by {
                            assert(order@[i] == before[i]);
                            assert(before.contains(store.inodes()[before[i]].children@[k]));
                        }
                    }
                    c += 1;
                }
            },
            None => {},
        }
        next += 1;
    }
    proof {
        assert(order@.contains(ROOT_INO));
        assert forall|ino: u64| reachable(store.inodes(), ino) implies order@.contains(ino) by {
            let path = choose|path: Seq<u64>| #[trigger]
                is_path(store.inodes(), path) && path.last() == ino;
            lemma_paths_end_inside(store.inodes(), order@, path);
        }
    }
    order
}

/// Whether `ino` is in the list.
fn listed(order: &Vec<u64>, ino: u64) -> (r: bool)
    ensures
        r == order@.contains(ino),
{
    let mut i: usize = 0;
    while i < order.len()
        invariant
            i <= order@.len(),
            forall|j: int| 0 <= j < i ==> order@[j] != ino,
        decreases order@.len() - i,
    {
        if order[i] == ino {
            return true;
        }
        i += 1;
    }
    false
}

} // verus!
