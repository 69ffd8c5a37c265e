//! The binary form of snapshots at rest.
//!
//! A snapshot is written as a format byte, its id, its name, its creation
//! time, its optional description, its root inode number, the number of its
//! entries and the entries, each as the inode number and the serialized
//! inode. The entries stand in no particular order; read back, they give the
//! same table. A list of snapshots is written as their number and each
//! snapshot as a byte string.

use crate::bytes::be64;
use crate::codec::{
    get_bool, get_bytes, get_text, get_u64, lemma_parse_bytes, lemma_parse_text, lemma_parse_u64, parse_bytes,
    parse_text, parse_u64, put_bool, put_bytes, put_text, put_u64, ser_bytes, ser_text,
};
use crate::error::{Error, Result};
use crate::metadata::codec::{lemma_casts_back, lemma_parse_opt_text, parse_opt_text, ser_opt_text};
use crate::snapshot::snapshot::{Snapshot, SnapshotView};
use std::collections::HashMap;
use vstd::prelude::*;
use vstd::utf8::encode_utf8;

verus! {

/// The format byte that precedes a snapshot at rest.
pub const SNAPSHOT_FORMAT: u8 = 1;

/// The binary form of an entry: the inode number and the serialized inode.
pub open spec fn ser_entry(entry: (u64, Seq<u8>)) -> Seq<u8> {
    be64(entry.0) + ser_bytes(entry.1)
}

/// The entry at `pos`.
#[verifier::opaque]
pub open spec fn parse_entry(b: Seq<u8>, pos: int) -> Option<((u64, Seq<u8>), int)> {
    match parse_u64(b, pos) {
        Some((ino, at1)) => match parse_bytes(b, at1) {
            Some((bytes, at2)) => Some(((ino, bytes), at2)),
            None => None,
        },
        None => None,
    }
}

/// The binary form of entries, one after the other.
pub open spec fn ser_entries(entries: Seq<(u64, Seq<u8>)>) -> Seq<u8>
    decreases entries.len(),
{
    if entries.len() == 0 {
        Seq::empty()
    } else {
        ser_entries(entries.drop_last()) + ser_entry(entries.last())
    }
}

/// The `n` entries from `pos` on.
pub open spec fn parse_entries(b: Seq<u8>, pos: int, n: nat) -> Option<(Seq<(u64, Seq<u8>)>, int)>
    decreases n,
{
    if n == 0 {
        Some((Seq::empty(), pos))
    } else {
        match parse_entries(b, pos, (n - 1) as nat) {
            Some((earlier, mid)) => match parse_entry(b, mid) {
                Some((entry, end)) => Some((earlier.push(entry), end)),
                None => None,
            },
            None => None,
        }
    }
}

/// The table that entries make, taken in order: where a number occurs twice
/// the last entry counts.
pub open spec fn table_of(entries: Seq<(u64, Seq<u8>)>) -> Map<u64, Seq<u8>>
    decreases entries.len(),
{
    if entries.len() == 0 {
        Map::empty()
    } else {
        table_of(entries.drop_last()).insert(entries.last().0, entries.last().1)
    }
}

/// A snapshot without its entries.
pub open spec fn head_of(s: SnapshotView) -> SnapshotView {
    SnapshotView { inodes: Map::empty(), ..s }
}

/// The binary form of what stands before the entries, without the format
/// byte.
#[verifier::opaque]
pub open spec fn ser_head(s: SnapshotView) -> Seq<u8> {
    ser_text(s.id) + ser_text(s.name) + be64(s.created as u64) + ser_opt_text(s.description) + be64(
        s.root_ino,
    )
}

/// What stands before the entries, read at `pos`.
#[verifier::opaque]
pub open spec fn parse_head(b: Seq<u8>, pos: int) -> Option<(SnapshotView, int)> {
    match parse_text(b, pos) {
        Some((id, at1)) => match parse_text(b, at1) {
            Some((name, at2)) => match parse_u64(b, at2) {
                Some((created, at3)) => match parse_opt_text(b, at3) {
                    Some((description, at4)) => match parse_u64(b, at4) {
                        Some((root_ino, at5)) => Some(
                            (
                                SnapshotView {
                                    id,
                                    name,
                                    created: created as i64,
                                    description,
                                    inodes: Map::empty(),
                                    root_ino,
                                },
                                at5,
                            ),
                        ),
                        None => None,
                    },
                    None => None,
                },
                None => None,
            },
            None => None,
        },
        None => None,
    }
}

/// The snapshot that bytes at rest hold: behind the format byte, up to the
/// last byte.
pub open spec fn decoded_snapshot(b: Seq<u8>) -> Option<SnapshotView> {
    if b.len() == 0 || b[0] != SNAPSHOT_FORMAT {
        None
    } else {
        match parse_head(b, 1) {
            Some((head, at1)) => match parse_u64(b, at1) {
                Some((count, at2)) => match parse_entries(b, at2, count as nat) {
                    Some((entries, end)) => if end == b.len() {
                        Some(SnapshotView { inodes: table_of(entries), ..head })
                    } else {
                        None
                    },
                    None => None,
                },
                None => None,
            },
            None => None,
        }
    }
}

/// Whether the texts of a snapshot can be written behind their lengths.
pub open spec fn writable_head(s: SnapshotView) -> bool {
    &&& encode_utf8(s.id).len() <= u64::MAX
    &&& encode_utf8(s.name).len() <= u64::MAX
    &&& s.description matches Some(text) ==> encode_utf8(text).len() <= u64::MAX
}

/// An entry that was written is read back.
pub proof fn lemma_parse_entry(before: Seq<u8>, entry: (u64, Seq<u8>), after: Seq<u8>)
    requires
        entry.1.len() <= u64::MAX,
    ensures
        parse_entry(before + ser_entry(entry) + after, before.len() as int) == Some(
            (entry, before.len() as int + ser_entry(entry).len()),
        ),
{
    reveal(parse_entry);
    let b = before + ser_entry(entry) + after;
    assert(b =~= before + be64(entry.0) + (ser_bytes(entry.1) + after));
    lemma_parse_u64(before, entry.0, ser_bytes(entry.1) + after);
    assert(b =~= (before + be64(entry.0)) + ser_bytes(entry.1) + after);
    lemma_parse_bytes(before + be64(entry.0), entry.1, after);
}

/// Entries that were written are read back.
pub proof fn lemma_parse_entries(before: Seq<u8>, entries: Seq<(u64, Seq<u8>)>, after: Seq<u8>)
    requires
        forall|i: int| 0 <= i < entries.len() ==> (#[trigger] entries[i]).1.len() <= u64::MAX,
    ensures
        parse_entries(before + ser_entries(entries) + after, before.len() as int, entries.len())
            == Some((entries, before.len() as int + ser_entries(entries).len())),
    decreases entries.len(),
{
    let b = before + ser_entries(entries) + after;
    if entries.len() == 0 {
        assert(entries =~= Seq::<(u64, Seq<u8>)>::empty());
    } else {
        let front = entries.drop_last();
        let last = entries.last();
        assert(b =~= before + ser_entries(front) + (ser_entry(last) + after));
        lemma_parse_entries(before, front, ser_entry(last) + after);
        assert(b =~= (before + ser_entries(front)) + ser_entry(last) + after);
        lemma_parse_entry(before + ser_entries(front), last, after);
        assert(front.push(last) =~= entries);
    }
}

/// Where the first entries cannot be read, more cannot be read either.
pub proof fn lemma_parse_entries_fails(b: Seq<u8>, pos: int, k: nat, n: nat)
    requires
        k <= n,
        parse_entries(b, pos, k).is_none(),
    ensures
        parse_entries(b, pos, n).is_none(),
    decreases n,
{
    if k < n {
        lemma_parse_entries_fails(b, pos, k, (n - 1) as nat);
    }
}

/// Entries with distinct numbers make the table that holds each of them
/// and nothing else.
pub proof fn lemma_table_of(entries: Seq<(u64, Seq<u8>)>)
    requires
        forall|i: int, j: int|
            0 <= i < j < entries.len() ==> (#[trigger] entries[i]).0 != (#[trigger] entries[j]).0,
    ensures
        forall|i: int|
            0 <= i < entries.len() ==> table_of(entries).contains_key((#[trigger] entries[i]).0)
                && table_of(entries)[entries[i].0] == entries[i].1,
        forall|ino: u64| #[trigger]
            table_of(entries).contains_key(ino) ==> exists|i: int|
                0 <= i < entries.len() && (#[trigger] entries[i]).0 == ino,
    decreases entries.len(),
{
    if entries.len() > 0 {
        let front = entries.drop_last();
        lemma_table_of(front);
        assert forall|i: int| 0 <= i < entries.len() implies table_of(entries).contains_key(
            (#[trigger] entries[i]).0,
        ) && table_of(entries)[entries[i].0] == entries[i].1 by {
            if i < entries.len() - 1 {
                assert(front[i] == entries[i]);
            }
        }
        assert forall|ino: u64| #[trigger] table_of(entries).contains_key(ino) implies exists|i: int|
            0 <= i < entries.len() && (#[trigger] entries[i]).0 == ino by {
            if ino == entries.last().0 {
                assert(entries[entries.len() - 1].0 == ino);
            } else {
                assert(table_of(front).contains_key(ino));
                let i = choose|i: int| 0 <= i < front.len() && (#[trigger] front[i]).0 == ino;
                assert(entries[i].0 == ino);
            }
        }
    }
}

/// What stands before the entries is read back as it was written.
pub proof fn lemma_parse_head(before: Seq<u8>, s: SnapshotView, after: Seq<u8>)
    requires
        writable_head(s),
    ensures
        parse_head(before + ser_head(s) + after, before.len() as int) == Some(
            (head_of(s), before.len() as int + ser_head(s).len()),
        ),
{
    reveal(ser_head);
    reveal(parse_head);
    let f1 = ser_text(s.id);
    let f2 = ser_text(s.name);
    let f3 = be64(s.created as u64);
    let f4 = ser_opt_text(s.description);
    let f5 = be64(s.root_ino);
    let b = before + ser_head(s) + after;
    assert(b =~= before + f1 + (f2 + f3 + f4 + f5 + after));
    lemma_parse_text(before, s.id, f2 + f3 + f4 + f5 + after);
    assert(b =~= (before + f1) + f2 + (f3 + f4 + f5 + after));
    lemma_parse_text(before + f1, s.name, f3 + f4 + f5 + after);
    assert(b =~= (before + f1 + f2) + f3 + (f4 + f5 + after));
    lemma_parse_u64(before + f1 + f2, s.created as u64, f4 + f5 + after);
    assert(b =~= (before + f1 + f2 + f3) + f4 + (f5 + after));
    lemma_parse_opt_text(before + f1 + f2 + f3, s.description, f5 + after);
    assert(b =~= (before + f1 + f2 + f3 + f4) + f5 + after);
    lemma_parse_u64(before + f1 + f2 + f3 + f4, s.root_ino, after);
    lemma_casts_back(s.created, 0);
}

/// Write what stands before the entries.
fn put_head(out: &mut Vec<u8>, snapshot: &Snapshot)
    ensures
        final(out)@ == old(out)@ + ser_head(snapshot@),
        writable_head(snapshot@),
{
    put_text(out, snapshot.id.as_str());
    put_text(out, snapshot.name.as_str());
    put_u64(out, snapshot.created as u64);
    let ghost middle = out@;
    match &snapshot.description {
        Some(description) => {
            put_bool(out, true);
            put_text(out, description.as_str());
        },
        None => {
            put_bool(out, false);
        },
    }
    assert(out@ =~= middle + ser_opt_text(snapshot@.description)) by {
        reveal(ser_opt_text);
    }
    put_u64(out, snapshot.root_ino);
    assert(out@ =~= old(out)@ + ser_head(snapshot@)) by {
        reveal(ser_head);
    }
}

/// Read what stands before the entries, into a snapshot without entries.
fn get_head(b: &[u8], pos: usize) -> (r: Option<(Snapshot, usize)>)
    ensures
        match r {
            Some((snapshot, end)) => parse_head(b@, pos as int) == Some((snapshot@, end as int))
                && snapshot.inodes@ == Map::<u64, Vec<u8>>::empty(),
            None => parse_head(b@, pos as int).is_none(),
        },
{
    broadcast use vstd::std_specs::hash::group_hash_axioms;

    reveal(parse_head);
    reveal(parse_opt_text);
    let (id, at1) = match get_text(b, pos) {
        Some(x) => x,
        None => {
            return None;
        },
    };
    let (name, at2) = match get_text(b, at1) {
        Some(x) => x,
        None => {
            return None;
        },
    };
    let (created, at3) = match get_u64(b, at2) {
        Some(x) => x,
        None => {
            return None;
        },
    };
    let (present, at3b) = match get_bool(b, at3) {
        Some(x) => x,
        None => {
            return None;
        },
    };
    let (description, at4) = if present {
        match get_text(b, at3b) {
            Some((text, end)) => (Some(text), end),
            None => {
                return None;
            },
        }
    } else {
        (None, at3b)
    };
    let (root_ino, at5) = match get_u64(b, at4) {
        Some(x) => x,
        None => {
            return None;
        },
    };
    let snapshot = Snapshot {
        id,
        name,
        created: created as i64,
        description,
        inodes: HashMap::new(),
        root_ino,
    };
    assert(snapshot@.inodes =~= Map::<u64, Seq<u8>>::empty());
    Some((snapshot, at5))
}

impl Snapshot {
    /// Serialize the snapshot for storage. Deserializing the result gives
    /// the snapshot.
    pub fn serialize(&self) -> (r: Result<Vec<u8>>)
        ensures
            r matches Ok(bytes) && decoded_snapshot(bytes@) == Some(self@),
    {
        broadcast use vstd::std_specs::hash::group_hash_axioms;

        let numbers = self.inode_numbers();
        let count = numbers.len() as u64;
        let mut out: Vec<u8> = Vec::new();
        out.push(SNAPSHOT_FORMAT);
        put_head(&mut out, self);
        put_u64(&mut out, count);
        let ghost start = out@;
        let ghost mut entries: Seq<(u64, Seq<u8>)> = Seq::empty();
        let mut i: usize = 0;
        while i < numbers.len()
            invariant
                self.lists(numbers@),
                i <= numbers@.len(),
                entries.len() == i,
                forall|j: int|
                    0 <= j < i ==> (#[trigger] entries[j]) == (numbers@[j], self@.inodes[numbers@[j]])
                        && entries[j].1.len() <= u64::MAX,
                out@ == start + ser_entries(entries),
            decreases numbers@.len() - i,
        {
            let ino = numbers[i];
            assert(numbers@.contains(ino));
            match self.inodes.get(&ino) {
                Some(bytes) => {
                    let len = bytes.len();
                    put_u64(&mut out, ino);
                    put_bytes(&mut out, bytes.as_slice());
                    proof {
                        let entry = (ino, bytes@);
                        assert(entries.push(entry).drop_last() =~= entries);
                        entries = entries.push(entry);
                        assert(out@ =~= start + ser_entries(entries));
                    }
                },
                None => {
                    assert(false);
                },
            }
            i += 1;
        }
        proof {
            let format = seq![SNAPSHOT_FORMAT];
            let head = ser_head(self@);
            let tail = be64(count) + ser_entries(entries);
            assert(out@ =~= format + head + tail);
            lemma_parse_head(format, self@, tail);
            assert(out@ =~= (format + head) + be64(count) + ser_entries(entries));
            lemma_parse_u64(format + head, count, ser_entries(entries));
            assert(out@ =~= (format + head + be64(count)) + ser_entries(entries) + Seq::<u8>::empty());
            lemma_parse_entries(format + head + be64(count), entries, Seq::<u8>::empty());
            lemma_table_of(entries);
            assert forall|ino: u64| #[trigger]
                self@.inodes.contains_key(ino) implies table_of(entries).contains_key(ino)
                && table_of(entries)[ino] == self@.inodes[ino] by {
                assert(numbers@.contains(ino));
                let j = choose|j: int| 0 <= j < numbers@.len() && numbers@[j] == ino;
                assert(entries[j].0 == ino);
            }
            assert forall|ino: u64| #[trigger]
                table_of(entries).contains_key(ino) implies self@.inodes.contains_key(ino) by {
                let j = choose|j: int| 0 <= j < entries.len() && (#[trigger] entries[j]).0 == ino;
                assert(numbers@[j] == ino);
                assert(numbers@.contains(ino));
            }
            assert(table_of(entries) =~= self@.inodes);
        }
        Ok(out)
    }

    /// Deserialize a snapshot. Another format byte, fields that are cut
    /// short or malformed, and bytes behind the last entry are refused.
    pub fn deserialize(data: &[u8]) -> (r: Result<Snapshot>)
        ensures
            match decoded_snapshot(data@) {
                Some(v) => r matches Ok(snapshot) && snapshot@ == v,
                None => r matches Err(e) && e is Deserialization,
            },
    {
        broadcast use vstd::std_specs::hash::group_hash_axioms;

        if data.len() == 0 || data[0] != SNAPSHOT_FORMAT {
            return Err(Error::Deserialization("Unknown snapshot format".to_string()));
        }
        let (mut snapshot, at1) = match get_head(data, 1) {
            Some(x) => x,
            None => {
                return Err(Error::Deserialization("Malformed snapshot".to_string()));
            },
        };
        let (count, at2) = match get_u64(data, at1) {
            Some(x) => x,
            None => {
                return Err(Error::Deserialization("Malformed snapshot".to_string()));
            },
        };
        let ghost head = snapshot@;
        let ghost mut entries: Seq<(u64, Seq<u8>)> = Seq::empty();
        let mut cursor: usize = at2;
        let mut i: u64 = 0;
        assert(snapshot@.inodes =~= table_of(entries));
        while i < count
            invariant
                i <= count,
                data@.len() > 0,
                data@[0] == SNAPSHOT_FORMAT,
                parse_head(data@, 1) == Some((head, at1 as int)),
                parse_u64(data@, at1 as int) == Some((count, at2 as int)),
                parse_entries(data@, at2 as int, i as nat) == Some((entries, cursor as int)),
                snapshot@ == (SnapshotView { inodes: table_of(entries), ..head }),
            decreases count - i,
        {
            let (ino, mid) = match get_u64(data, cursor) {
                Some(x) => x,
                None => {
                    proof {
                        reveal(parse_entry);
                        assert(parse_entries(data@, at2 as int, (i + 1) as nat).is_none());
                        lemma_parse_entries_fails(data@, at2 as int, (i + 1) as nat, count as nat);
                    }
                    return Err(Error::Deserialization("Malformed snapshot".to_string()));
                },
            };
            let (bytes, end) = match get_bytes(data, mid) {
                Some(x) => x,
                None => {
                    proof {
                        reveal(parse_entry);
                        assert(parse_entries(data@, at2 as int, (i + 1) as nat).is_none());
                        lemma_parse_entries_fails(data@, at2 as int, (i + 1) as nat, count as nat);
                    }
                    return Err(Error::Deserialization("Malformed snapshot".to_string()));
                },
            };
            proof {
                reveal(parse_entry);
                let entry = (ino, bytes@);
                assert(entries.push(entry).drop_last() =~= entries);
                entries = entries.push(entry);
            }
            snapshot.inodes.insert(ino, bytes);
            assert(snapshot@.inodes =~= table_of(entries));
            cursor = end;
            i += 1;
        }
        if cursor != data.len() {
            return Err(Error::Deserialization("Trailing bytes behind snapshot".to_string()));
        }
        Ok(snapshot)
    }
}

/// The binary form of byte strings, one after the other.
pub open spec fn ser_blobs(blobs: Seq<Seq<u8>>) -> Seq<u8>
    decreases blobs.len(),
{
    if blobs.len() == 0 {
        Seq::empty()
    } else {
        ser_blobs(blobs.drop_last()) + ser_bytes(blobs.last())
    }
}

/// The `n` byte strings from `pos` on.
pub open spec fn parse_blobs(b: Seq<u8>, pos: int, n: nat) -> Option<(Seq<Seq<u8>>, int)>
    decreases n,
{
    if n == 0 {
        Some((Seq::empty(), pos))
    } else {
        match parse_blobs(b, pos, (n - 1) as nat) {
            Some((earlier, mid)) => match parse_bytes(b, mid) {
                Some((blob, end)) => Some((earlier.push(blob), end)),
                None => None,
            },
            None => None,
        }
    }
}

/// The snapshots that byte strings hold, if each holds one.
pub open spec fn decoded_each(blobs: Seq<Seq<u8>>) -> Option<Seq<SnapshotView>>
    decreases blobs.len(),
{
    if blobs.len() == 0 {
        Some(Seq::empty())
    } else {
        match decoded_each(blobs.drop_last()) {
            Some(earlier) => match decoded_snapshot(blobs.last()) {
                Some(snapshot) => Some(earlier.push(snapshot)),
                None => None,
            },
            None => None,
        }
    }
}

/// The list of snapshots that bytes at rest hold, up to the last byte.
pub open spec fn decoded_snapshots(b: Seq<u8>) -> Option<Seq<SnapshotView>> {
    match parse_u64(b, 0) {
        Some((count, at1)) => match parse_blobs(b, at1, count as nat) {
            Some((blobs, end)) => if end == b.len() {
                decoded_each(blobs)
            } else {
                None
            },
            None => None,
        },
        None => None,
    }
}

/// What each snapshot of a list holds.
pub open spec fn snapshot_views(snapshots: Seq<Snapshot>) -> Seq<SnapshotView> {
    snapshots.map_values(|snapshot: Snapshot| snapshot@)
}

/// Byte strings that were written are read back.
pub proof fn lemma_parse_blobs(before: Seq<u8>, blobs: Seq<Seq<u8>>, after: Seq<u8>)
    requires
        forall|i: int| 0 <= i < blobs.len() ==> (#[trigger] blobs[i]).len() <= u64::MAX,
    ensures
        parse_blobs(before + ser_blobs(blobs) + after, before.len() as int, blobs.len()) == Some(
            (blobs, before.len() as int + ser_blobs(blobs).len()),
        ),
    decreases blobs.len(),
{
    let b = before + ser_blobs(blobs) + after;
    if blobs.len() == 0 {
        assert(blobs =~= Seq::<Seq<u8>>::empty());
    } else {
        let front = blobs.drop_last();
        let last = blobs.last();
        assert(b =~= before + ser_blobs(front) + (ser_bytes(last) + after));
        lemma_parse_blobs(before, front, ser_bytes(last) + after);
        assert(b =~= (before + ser_blobs(front)) + ser_bytes(last) + after);
        lemma_parse_bytes(before + ser_blobs(front), last, after);
        assert(front.push(last) =~= blobs);
    }
}

/// Where the first byte strings cannot be read, more cannot be read either.
pub proof fn lemma_parse_blobs_fails(b: Seq<u8>, pos: int, k: nat, n: nat)
    requires
        k <= n,
        parse_blobs(b, pos, k).is_none(),
    ensures
        parse_blobs(b, pos, n).is_none(),
    decreases n,
{
    if k < n {
        lemma_parse_blobs_fails(b, pos, k, (n - 1) as nat);
    }
}

/// The binary form of a list of snapshots. Decoding it gives the list.
pub fn encode_snapshots(snapshots: &[Snapshot]) -> (r: Vec<u8>)
    ensures
        decoded_snapshots(r@) == Some(snapshot_views(snapshots@)),
{
    let count = snapshots.len() as u64;
    let mut out: Vec<u8> = Vec::new();
    put_u64(&mut out, count);
    let ghost start = out@;
    let ghost mut blobs: Seq<Seq<u8>> = Seq::empty();
    let mut i: usize = 0;
    assert(snapshot_views(snapshots@.take(0)) =~= Seq::<SnapshotView>::empty());
    while i < snapshots.len()
        invariant
            i <= snapshots@.len(),
            blobs.len() == i,
            forall|j: int| 0 <= j < i ==> (#[trigger] blobs[j]).len() <= u64::MAX,
            decoded_each(blobs) == Some(snapshot_views(snapshots@.take(i as int))),
            out@ == start + ser_blobs(blobs),
        decreases snapshots@.len() - i,
    {
        match snapshots[i].serialize() {
            Ok(bytes) => {
                let len = bytes.len();
                put_bytes(&mut out, bytes.as_slice());
                proof {
                    assert(blobs.push(bytes@).drop_last() =~= blobs);
                    assert(snapshot_views(snapshots@.take(i + 1)) =~= snapshot_views(
                        snapshots@.take(i as int),
                    ).push(snapshots@[i as int]@));
                    blobs = blobs.push(bytes@);
                    assert(out@ =~= start + ser_blobs(blobs));
                }
            },
            Err(_) => {
                assert(false);
            },
        }
        i += 1;
    }
    proof {
        assert(snapshots@.take(i as int) =~= snapshots@);
        assert(out@ =~= Seq::<u8>::empty() + be64(count) + ser_blobs(blobs));
        lemma_parse_u64(Seq::<u8>::empty(), count, ser_blobs(blobs));
        assert(out@ =~= be64(count) + ser_blobs(blobs) + Seq::<u8>::empty());
        lemma_parse_blobs(be64(count), blobs, Seq::<u8>::empty());
    }
    out
}

/// Decode a list of snapshots. A list or a snapshot that is cut short or
/// malformed, and bytes behind the last snapshot, are refused.
pub fn decode_snapshots(b: &[u8]) -> (r: Result<Vec<Snapshot>>)
    ensures
        match decoded_snapshots(b@) {
            Some(views) => r matches Ok(snapshots) && snapshot_views(snapshots@) == views,
            None => r matches Err(e) && e is Deserialization,
        },
{
    let (count, at1) = match get_u64(b, 0) {
        Some(x) => x,
        None => {
            return Err(Error::Deserialization("Malformed snapshot list".to_string()));
        },
    };
    let mut blobs: Vec<Vec<u8>> = Vec::new();
    let mut cursor: usize = at1;
    let mut i: u64 = 0;
    assert(blob_views(blobs@) =~= Seq::<Seq<u8>>::empty());
    while i < count
        invariant
            i <= count,
            blobs@.len() == i,
            parse_u64(b@, 0) == Some((count, at1 as int)),
            parse_blobs(b@, at1 as int, i as nat) == Some((blob_views(blobs@), cursor as int)),
        decreases count - i,
    {
        let ghost earlier = blob_views(blobs@);
        match get_bytes(b, cursor) {
            Some((blob, end)) => {
                blobs.push(blob);
                cursor = end;
                assert(blob_views(blobs@) =~= earlier.push(blob@));
            },
            None => {
                proof {
                    assert(parse_blobs(b@, at1 as int, (i + 1) as nat).is_none());
                    lemma_parse_blobs_fails(b@, at1 as int, (i + 1) as nat, count as nat);
                }
                return Err(Error::Deserialization("Malformed snapshot list".to_string()));
            },
        }
        i += 1;
    }
    if cursor != b.len() {
        return Err(Error::Deserialization("Trailing bytes behind snapshots".to_string()));
    }
    let mut snapshots: Vec<Snapshot> = Vec::new();
    let mut k: usize = 0;
    assert(blob_views(blobs@).take(0) =~= Seq::<Seq<u8>>::empty());
    assert(snapshot_views(snapshots@) =~= Seq::<SnapshotView>::empty());
    while k < blobs.len()
        invariant
            k <= blobs@.len(),
            decoded_snapshots(b@) == decoded_each(blob_views(blobs@)),
            decoded_each(blob_views(blobs@).take(k as int)) == Some(snapshot_views(snapshots@)),
        decreases blobs@.len() - k,
    {
        let ghost earlier = snapshot_views(snapshots@);
        proof {
            let views = blob_views(blobs@);
            assert(views.take(k + 1).drop_last() =~= views.take(k as int));
            assert(views.take(k + 1).last() == blobs@[k as int]@);
        }
        match Snapshot::deserialize(blobs[k].as_slice()) {
            Ok(snapshot) => {
                snapshots.push(snapshot);
                assert(snapshot_views(snapshots@) =~= earlier.push(snapshot@));
            },
            Err(e) => {
                proof {
                    let views = blob_views(blobs@);
                    assert(views.take(views.len() as int) =~= views);
                    lemma_decoded_each_fails(views, (k + 1) as nat);
                }
                return Err(e);
            },
        }
        k += 1;
    }
    assert(blob_views(blobs@).take(k as int) =~= blob_views(blobs@));
    Ok(snapshots)
}

/// The byte strings of a list.
pub open spec fn blob_views(blobs: Seq<Vec<u8>>) -> Seq<Seq<u8>> {
    blobs.map_values(|blob: Vec<u8>| blob@)
}

/// Where the first byte strings do not all hold a snapshot, the whole list
/// does not either.
pub proof fn lemma_decoded_each_fails(blobs: Seq<Seq<u8>>, k: nat)
    requires
        k <= blobs.len(),
        decoded_each(blobs.take(k as int)).is_none(),
    ensures
        decoded_each(blobs).is_none(),
    decreases blobs.len(),
{
    if k < blobs.len() {
        assert(blobs.drop_last().take(k as int) =~= blobs.take(k as int));
        lemma_decoded_each_fails(blobs.drop_last(), k);
    } else {
        assert(blobs.take(k as int) =~= blobs);
    }
}

} // verus!
