//! The binary form of inodes.
//!
//! An inode at rest is a format byte followed by its number, its parent, its
//! name, its attributes, its children behind their number, its manifest if it
//! has one, its version and its link target if it has one. Bytes behind the
//! last field are refused.

use crate::bytes::{be32, be64};
use crate::chunk::codec::{
    get_manifest, lemma_parse_manifest, parse_manifest, put_manifest, ser_manifest, writable, ChunkManifestView,
};
use crate::chunk::ChunkManifest;
use crate::codec::{
    get_bool, get_text, get_u32, get_u64, lemma_parse_bool, lemma_parse_text, lemma_parse_u32, lemma_parse_u64,
    parse_bool, parse_text, parse_u32, parse_u64, put_bool, put_text, put_u32, put_u64, ser_bool, ser_text,
};
use crate::error::{Error, Result};
use crate::metadata::inode::{FileType, Inode, InodeAttributes};
use vstd::prelude::*;
use vstd::utf8::encode_utf8;

verus! {

/// Format byte of an inode at rest.
pub const INODE_FORMAT: u8 = 1;

/// What an inode says.
pub struct InodeView {
    pub ino: u64,
    pub parent: u64,
    pub name: Seq<char>,
    pub attrs: InodeAttributes,
    pub children: Seq<u64>,
    pub manifest: Option<ChunkManifestView>,
    pub version: u64,
    pub symlink_target: Option<Seq<char>>,
}

impl View for Inode {
    type V = InodeView;

    open spec fn view(&self) -> InodeView {
        InodeView {
            ino: self.ino,
            parent: self.parent,
            name: self.name@,
            attrs: self.attrs,
            children: self.children@,
            manifest: match self.manifest {
                Some(manifest) => Some(manifest@),
                None => None,
            },
            version: self.version,
            symlink_target: match self.symlink_target {
                Some(target) => Some(target@),
                None => None,
            },
        }
    }
}

/// The number that stands for a kind.
pub open spec fn kind_code(kind: FileType) -> u32 {
    match kind {
        FileType::RegularFile => 0,
        FileType::Directory => 1,
        FileType::Symlink => 2,
    }
}

/// The binary form of the attributes.
#[verifier::opaque]
pub open spec fn ser_attrs(a: InodeAttributes) -> Seq<u8> {
    be64(a.size) + be64(a.atime as u64) + be64(a.mtime as u64) + be64(a.ctime as u64) + be32(
        kind_code(a.kind),
    ) + be32(a.perm as u32) + be32(a.nlink) + be32(a.uid) + be32(a.gid)
}

/// The attributes at `pos`.
#[verifier::opaque]
pub open spec fn parse_attrs(b: Seq<u8>, pos: int) -> Option<(InodeAttributes, int)> {
    match parse_u64(b, pos) {
        Some((size, at1)) => match parse_u64(b, at1) {
            Some((atime, at2)) => match parse_u64(b, at2) {
                Some((mtime, at3)) => match parse_u64(b, at3) {
                    Some((ctime, at4)) => match parse_u32(b, at4) {
                        Some((kind, at5)) => match parse_u32(b, at5) {
                            Some((perm, at6)) => match parse_u32(b, at6) {
                                Some((nlink, at7)) => match parse_u32(b, at7) {
                                    Some((uid, at8)) => match parse_u32(b, at8) {
                                        Some((gid, at9)) => if kind <= 2 && perm <= 0xffff {
                                            Some(
                                                (
                                                    InodeAttributes {
                                                        size,
                                                        atime: atime as i64,
                                                        mtime: mtime as i64,
                                                        ctime: ctime as i64,
                                                        kind: if kind == 0 {
                                                            FileType::RegularFile
                                                        } else if kind == 1 {
                                                            FileType::Directory
                                                        } else {
                                                            FileType::Symlink
                                                        },
                                                        perm: perm as u16,
                                                        nlink,
                                                        uid,
                                                        gid,
                                                    },
                                                    at9,
                                                ),
                                            )
                                        } else {
                                            None
                                        },
                                        None => None,
                                    },
                                    None => None,
                                },
                                None => None,
                            },
                            None => None,
                        },
                        None => None,
                    },
                    None => None,
                },
                None => None,
            },
            None => None,
        },
        None => None,
    }
}

/// The binary form of inode numbers, one after the other.
pub open spec fn ser_numbers(numbers: Seq<u64>) -> Seq<u8>
    decreases numbers.len(),
{
    if numbers.len() == 0 {
        Seq::empty()
    } else {
        ser_numbers(numbers.drop_last()) + be64(numbers.last())
    }
}

/// The `n` inode numbers from `pos` on.
pub open spec fn parse_numbers(b: Seq<u8>, pos: int, n: nat) -> Option<(Seq<u64>, int)>
    decreases n,
{
    if n == 0 {
        Some((Seq::empty(), pos))
    } else {
        match parse_numbers(b, pos, (n - 1) as nat) {
            Some((earlier, mid)) => match parse_u64(b, mid) {
                Some((number, end)) => Some((earlier.push(number), end)),
                None => None,
            },
            None => None,
        }
    }
}

/// The binary form of an optional manifest.
#[verifier::opaque]
pub open spec fn ser_opt_manifest(m: Option<ChunkManifestView>) -> Seq<u8> {
    match m {
        Some(manifest) => ser_bool(true) + ser_manifest(manifest),
        None => ser_bool(false),
    }
}

/// The optional manifest at `pos`.
#[verifier::opaque]
pub open spec fn parse_opt_manifest(b: Seq<u8>, pos: int) -> Option<(Option<ChunkManifestView>, int)> {
    match parse_bool(b, pos) {
        Some((present, at1)) => if present {
            match parse_manifest(b, at1) {
                Some((manifest, at2)) => Some((Some(manifest), at2)),
                None => None,
            }
        } else {
            Some((None, at1))
        },
        None => None,
    }
}

/// The binary form of an optional text.
#[verifier::opaque]
pub open spec fn ser_opt_text(t: Option<Seq<char>>) -> Seq<u8> {
    match t {
        Some(text) => ser_bool(true) + ser_text(text),
        None => ser_bool(false),
    }
}

/// The optional text at `pos`.
#[verifier::opaque]
pub open spec fn parse_opt_text(b: Seq<u8>, pos: int) -> Option<(Option<Seq<char>>, int)> {
    match parse_bool(b, pos) {
        Some((present, at1)) => if present {
            match parse_text(b, at1) {
                Some((text, at2)) => Some((Some(text), at2)),
                None => None,
            }
        } else {
            Some((None, at1))
        },
        None => None,
    }
}

/// The binary form of an inode, without the format byte.
pub open spec fn ser_inode(i: InodeView) -> Seq<u8> {
    be64(i.ino) + be64(i.parent) + ser_text(i.name) + ser_attrs(i.attrs) + be64(
        i.children.len() as u64,
    ) + ser_numbers(i.children) + ser_opt_manifest(i.manifest) + be64(i.version) + ser_opt_text(
        i.symlink_target,
    )
}

/// The inode at `pos`.
#[verifier::opaque]
pub open spec fn parse_inode(b: Seq<u8>, pos: int) -> Option<(InodeView, int)> {
    match parse_u64(b, pos) {
        Some((ino, at1)) => match parse_u64(b, at1) {
            Some((parent, at2)) => match parse_text(b, at2) {
                Some((name, at3)) => match parse_attrs(b, at3) {
                    Some((attrs, at4)) => match parse_u64(b, at4) {
                        Some((count, at5)) => match parse_numbers(b, at5, count as nat) {
                            Some((children, at6)) => match parse_opt_manifest(b, at6) {
                                Some((manifest, at7)) => match parse_u64(b, at7) {
                                    Some((version, at8)) => match parse_opt_text(b, at8) {
                                        Some((symlink_target, at9)) => Some(
                                            (
                                                InodeView {
                                                    ino,
                                                    parent,
                                                    name,
                                                    attrs,
                                                    children,
                                                    manifest,
                                                    version,
                                                    symlink_target,
                                                },
                                                at9,
                                            ),
                                        ),
                                        None => None,
                                    },
                                    None => None,
                                },
                                None => None,
                            },
                            None => None,
                        },
                        None => None,
                    },
                    None => None,
                },
                None => None,
            },
            None => None,
        },
        None => None,
    }
}

/// The inode that bytes at rest hold: behind the format byte, up to the last
/// byte.
pub open spec fn decoded_inode(b: Seq<u8>) -> Option<InodeView> {
    if b.len() == 0 || b[0] != INODE_FORMAT {
        None
    } else {
        match parse_inode(b, 1) {
            Some((inode, end)) => if end == b.len() {
                Some(inode)
            } else {
                None
            },
            None => None,
        }
    }
}

/// The texts and the lists of an inode can be written: their lengths are of
/// 64 bits.
pub open spec fn writable_inode(i: InodeView) -> bool {
    &&& encode_utf8(i.name).len() <= u64::MAX
    &&& i.children.len() <= u64::MAX
    &&& i.manifest matches Some(manifest) ==> writable(manifest)
    &&& i.symlink_target matches Some(target) ==> encode_utf8(target).len() <= u64::MAX
}

/// Attributes that were written are read back.
pub proof fn lemma_parse_attrs(before: Seq<u8>, a: InodeAttributes, after: Seq<u8>)
    ensures
        parse_attrs(before + ser_attrs(a) + after, before.len() as int) == Some(
            (a, before.len() as int + ser_attrs(a).len()),
        ),
{
    reveal(ser_attrs);
    reveal(parse_attrs);
    let f1 = be64(a.size);
    let f2 = be64(a.atime as u64);
    let f3 = be64(a.mtime as u64);
    let f4 = be64(a.ctime as u64);
    let f5 = be32(kind_code(a.kind));
    let f6 = be32(a.perm as u32);
    let f7 = be32(a.nlink);
    let f8 = be32(a.uid);
    let f9 = be32(a.gid);
    let b = before + ser_attrs(a) + after;
    assert(b =~= before + f1 + (f2 + f3 + f4 + f5 + f6 + f7 + f8 + f9 + after));
    lemma_parse_u64(before, a.size, f2 + f3 + f4 + f5 + f6 + f7 + f8 + f9 + after);
    assert(b =~= (before + f1) + f2 + (f3 + f4 + f5 + f6 + f7 + f8 + f9 + after));
    lemma_parse_u64(before + f1, a.atime as u64, f3 + f4 + f5 + f6 + f7 + f8 + f9 + after);
    assert(b =~= (before + f1 + f2) + f3 + (f4 + f5 + f6 + f7 + f8 + f9 + after));
    lemma_parse_u64(before + f1 + f2, a.mtime as u64, f4 + f5 + f6 + f7 + f8 + f9 + after);
    assert(b =~= (before + f1 + f2 + f3) + f4 + (f5 + f6 + f7 + f8 + f9 + after));
    lemma_parse_u64(before + f1 + f2 + f3, a.ctime as u64, f5 + f6 + f7 + f8 + f9 + after);
    assert(b =~= (before + f1 + f2 + f3 + f4) + f5 + (f6 + f7 + f8 + f9 + after));
    lemma_parse_u32(before + f1 + f2 + f3 + f4, kind_code(a.kind), f6 + f7 + f8 + f9 + after);
    assert(b =~= (before + f1 + f2 + f3 + f4 + f5) + f6 + (f7 + f8 + f9 + after));
    lemma_parse_u32(before + f1 + f2 + f3 + f4 + f5, a.perm as u32, f7 + f8 + f9 + after);
    assert(b =~= (before + f1 + f2 + f3 + f4 + f5 + f6) + f7 + (f8 + f9 + after));
    lemma_parse_u32(before + f1 + f2 + f3 + f4 + f5 + f6, a.nlink, f8 + f9 + after);
    assert(b =~= (before + f1 + f2 + f3 + f4 + f5 + f6 + f7) + f8 + (f9 + after));
    lemma_parse_u32(before + f1 + f2 + f3 + f4 + f5 + f6 + f7, a.uid, f9 + after);
    assert(b =~= (before + f1 + f2 + f3 + f4 + f5 + f6 + f7 + f8) + f9 + after);
    lemma_parse_u32(before + f1 + f2 + f3 + f4 + f5 + f6 + f7 + f8, a.gid, after);
    lemma_casts_back(a.atime, a.perm);
    lemma_casts_back(a.mtime, a.perm);
    lemma_casts_back(a.ctime, a.perm);
}

/// A signed time and a permission word come back from their unsigned forms.
pub proof fn lemma_casts_back(time: i64, perm: u16)
    ensures
        (time as u64) as i64 == time,
        (perm as u32) as u16 == perm,
        perm as u32 <= 0xffff,
{
    let t = time as u64;
    assert(t as i64 == time) by (bit_vector)
        requires
            t == time as u64,
    ;
    let p = perm as u32;
    assert(p as u16 == perm && p <= 0xffff) by (bit_vector)
        requires
            p == perm as u32,
    ;
}

/// Inode numbers that were written are read back.
pub proof fn lemma_parse_numbers(before: Seq<u8>, numbers: Seq<u64>, after: Seq<u8>)
    ensures
        parse_numbers(before + ser_numbers(numbers) + after, before.len() as int, numbers.len())
            == Some((numbers, before.len() as int + ser_numbers(numbers).len())),
    decreases numbers.len(),
{
    let b = before + ser_numbers(numbers) + after;
    if numbers.len() == 0 {
        assert(numbers =~= Seq::<u64>::empty());
    } else {
        let front = numbers.drop_last();
        let last = numbers.last();
        assert(b =~= before + ser_numbers(front) + (be64(last) + after));
        lemma_parse_numbers(before, front, be64(last) + after);
        assert(b =~= (before + ser_numbers(front)) + be64(last) + after);
        lemma_parse_u64(before + ser_numbers(front), last, after);
        assert(front.push(last) =~= numbers);
    }
}

/// Where the first numbers cannot be read, more cannot be read either.
pub proof fn lemma_parse_numbers_fails(b: Seq<u8>, pos: int, k: nat, n: nat)
    requires
        k <= n,
        parse_numbers(b, pos, k).is_none(),
    ensures
        parse_numbers(b, pos, n).is_none(),
    decreases n,
{
    if k < n {
        lemma_parse_numbers_fails(b, pos, k, (n - 1) as nat);
    }
}

/// An optional manifest that was written is read back.
pub proof fn lemma_parse_opt_manifest(
    before: Seq<u8>,
    m: Option<ChunkManifestView>,
    after: Seq<u8>,
)
    requires
        m matches Some(manifest) ==> writable(manifest),
    ensures
        parse_opt_manifest(before + ser_opt_manifest(m) + after, before.len() as int) == Some(
            (m, before.len() as int + ser_opt_manifest(m).len()),
        ),
{
    reveal(ser_opt_manifest);
    reveal(parse_opt_manifest);
    let b = before + ser_opt_manifest(m) + after;
    match m {
        Some(manifest) => {
            assert(b =~= before + ser_bool(true) + (ser_manifest(manifest) + after));
            lemma_parse_bool(before, true, ser_manifest(manifest) + after);
            assert(b =~= (before + ser_bool(true)) + ser_manifest(manifest) + after);
            lemma_parse_manifest(before + ser_bool(true), manifest, after);
        },
        None => {
            lemma_parse_bool(before, false, after);
        },
    }
}

/// An optional text that was written is read back.
pub proof fn lemma_parse_opt_text(before: Seq<u8>, t: Option<Seq<char>>, after: Seq<u8>)
    requires
        t matches Some(text) ==> encode_utf8(text).len() <= u64::MAX,
    ensures
        parse_opt_text(before + ser_opt_text(t) + after, before.len() as int) == Some(
            (t, before.len() as int + ser_opt_text(t).len()),
        ),
{
    reveal(ser_opt_text);
    reveal(parse_opt_text);
    let b = before + ser_opt_text(t) + after;
    match t {
        Some(text) => {
            assert(b =~= before + ser_bool(true) + (ser_text(text) + after));
            lemma_parse_bool(before, true, ser_text(text) + after);
            assert(b =~= (before + ser_bool(true)) + ser_text(text) + after);
            lemma_parse_text(before + ser_bool(true), text, after);
        },
        None => {
            lemma_parse_bool(before, false, after);
        },
    }
}

/// An inode that was written is read back.
#[verifier::rlimit(60)]
pub proof fn lemma_parse_inode(before: Seq<u8>, i: InodeView, after: Seq<u8>)
    requires
        writable_inode(i),
    ensures
        parse_inode(before + ser_inode(i) + after, before.len() as int) == Some(
            (i, before.len() as int + ser_inode(i).len()),
        ),
{
    reveal(parse_inode);
    let f1 = be64(i.ino);
    let f2 = be64(i.parent);
    let f3 = ser_text(i.name);
    let f4 = ser_attrs(i.attrs);
    let f5 = be64(i.children.len() as u64);
    let f6 = ser_numbers(i.children);
    let f7 = ser_opt_manifest(i.manifest);
    let f8 = be64(i.version);
    let f9 = ser_opt_text(i.symlink_target);
    let b = before + ser_inode(i) + after;
    assert(b =~= before + f1 + (f2 + f3 + f4 + f5 + f6 + f7 + f8 + f9 + after));
    lemma_parse_u64(before, i.ino, f2 + f3 + f4 + f5 + f6 + f7 + f8 + f9 + after);
    assert(b =~= (before + f1) + f2 + (f3 + f4 + f5 + f6 + f7 + f8 + f9 + after));
    lemma_parse_u64(before + f1, i.parent, f3 + f4 + f5 + f6 + f7 + f8 + f9 + after);
    assert(b =~= (before + f1 + f2) + f3 + (f4 + f5 + f6 + f7 + f8 + f9 + after));
    lemma_parse_text(before + f1 + f2, i.name, f4 + f5 + f6 + f7 + f8 + f9 + after);
    assert(b =~= (before + f1 + f2 + f3) + f4 + (f5 + f6 + f7 + f8 + f9 + after));
    lemma_parse_attrs(before + f1 + f2 + f3, i.attrs, f5 + f6 + f7 + f8 + f9 + after);
    assert(b =~= (before + f1 + f2 + f3 + f4) + f5 + (f6 + f7 + f8 + f9 + after));
    lemma_parse_u64(before + f1 + f2 + f3 + f4, i.children.len() as u64, f6 + f7 + f8 + f9 + after);
    assert(b =~= (before + f1 + f2 + f3 + f4 + f5) + f6 + (f7 + f8 + f9 + after));
    lemma_parse_numbers(before + f1 + f2 + f3 + f4 + f5, i.children, f7 + f8 + f9 + after);
    assert(b =~= (before + f1 + f2 + f3 + f4 + f5 + f6) + f7 + (f8 + f9 + after));
    lemma_parse_opt_manifest(before + f1 + f2 + f3 + f4 + f5 + f6, i.manifest, f8 + f9 + after);
    assert(b =~= (before + f1 + f2 + f3 + f4 + f5 + f6 + f7) + f8 + (f9 + after));
    lemma_parse_u64(before + f1 + f2 + f3 + f4 + f5 + f6 + f7, i.version, f9 + after);
    assert(b =~= (before + f1 + f2 + f3 + f4 + f5 + f6 + f7 + f8) + f9 + after);
    lemma_parse_opt_text(before + f1 + f2 + f3 + f4 + f5 + f6 + f7 + f8, i.symlink_target, after);
}

/// Write the attributes.
pub fn put_attrs(out: &mut Vec<u8>, a: &InodeAttributes)
    ensures
        final(out)@ == old(out)@ + ser_attrs(*a),
{
    reveal(ser_attrs);
    put_u64(out, a.size);
    put_u64(out, a.atime as u64);
    put_u64(out, a.mtime as u64);
    put_u64(out, a.ctime as u64);
    put_u32(
        out,
        match a.kind {
            FileType::RegularFile => 0,
            FileType::Directory => 1,
            FileType::Symlink => 2,
        },
    );
    put_u32(out, a.perm as u32);
    put_u32(out, a.nlink);
    put_u32(out, a.uid);
    put_u32(out, a.gid);
    assert(out@ =~= old(out)@ + ser_attrs(*a));
}

/// Read the attributes.
pub fn get_attrs(b: &[u8], pos: usize) -> (r: Option<(InodeAttributes, usize)>)
    ensures
        match r {
            Some((a, end)) => parse_attrs(b@, pos as int) == Some((a, end as int)),
            None => parse_attrs(b@, pos as int).is_none(),
        },
{
    reveal(parse_attrs);
    let (size, at1) = match get_u64(b, pos) {
        Some(x) => x,
        None => {
            return None;
        },
    };
    let (atime, at2) = match get_u64(b, at1) {
        Some(x) => x,
        None => {
            return None;
        },
    };
    let (mtime, at3) = match get_u64(b, at2) {
        Some(x) => x,
        None => {
            return None;
        },
    };
    let (ctime, at4) = match get_u64(b, at3) {
        Some(x) => x,
        None => {
            return None;
        },
    };
    let (kind, at5) = match get_u32(b, at4) {
        Some(x) => x,
        None => {
            return None;
        },
    };
    let (perm, at6) = match get_u32(b, at5) {
        Some(x) => x,
        None => {
            return None;
        },
    };
    let (nlink, at7) = match get_u32(b, at6) {
        Some(x) => x,
        None => {
            return None;
        },
    };
    let (uid, at8) = match get_u32(b, at7) {
        Some(x) => x,
        None => {
            return None;
        },
    };
    let (gid, at9) = match get_u32(b, at8) {
        Some(x) => x,
        None => {
            return None;
        },
    };
    if kind > 2 || perm > 0xffff {
        return None;
    }
    let kind = if kind == 0 {
        FileType::RegularFile
    } else if kind == 1 {
        FileType::Directory
    } else {
        FileType::Symlink
    };
    Some(
        (
            InodeAttributes {
                size,
                atime: atime as i64,
                mtime: mtime as i64,
                ctime: ctime as i64,
                kind,
                perm: perm as u16,
                nlink,
                uid,
                gid,
            },
            at9,
        ),
    )
}

/// Write an inode, without the format byte.
#[verifier::rlimit(60)]
pub fn put_inode(out: &mut Vec<u8>, inode: &Inode)
    ensures
        final(out)@ == old(out)@ + ser_inode(inode@),
        writable_inode(inode@),
{
    put_u64(out, inode.ino);
    put_u64(out, inode.parent);
    put_text(out, inode.name.as_str());
    put_attrs(out, &inode.attrs);
    put_u64(out, inode.children.len() as u64);
    let ghost start = out@;
    let mut i: usize = 0;
    assert(inode.children@.take(0) =~= Seq::<u64>::empty());
    while i < inode.children.len()
        invariant
            i <= inode.children@.len(),
            out@ == start + ser_numbers(inode.children@.take(i as int)),
        decreases inode.children@.len() - i,
    {
        proof {
            assert(inode.children@.take(i + 1).drop_last() =~= inode.children@.take(i as int));
            assert(inode.children@.take(i + 1).last() == inode.children@[i as int]);
        }
        put_u64(out, inode.children[i]);
        assert(out@ =~= start + ser_numbers(inode.children@.take(i + 1)));
        i += 1;
    }
    assert(inode.children@.take(i as int) =~= inode.children@);
    match &inode.manifest {
        Some(manifest) => {
            put_bool(out, true);
            put_manifest(out, manifest);
        },
        None => {
            put_bool(out, false);
        },
    }
    let ghost middle = out@;
    assert(middle =~= start + ser_numbers(inode.children@) + ser_opt_manifest(inode@.manifest)) by {
        reveal(ser_opt_manifest);
    }
    put_u64(out, inode.version);
    match &inode.symlink_target {
        Some(target) => {
            put_bool(out, true);
            put_text(out, target.as_str());
        },
        None => {
            put_bool(out, false);
        },
    }
    assert(out@ =~= middle + be64(inode.version) + ser_opt_text(inode@.symlink_target)) by {
        reveal(ser_opt_text);
    }
    assert(out@ =~= old(out)@ + ser_inode(inode@));
}

/// Read an inode.
pub fn get_inode(b: &[u8], pos: usize) -> (r: Option<(Inode, usize)>)
    ensures
        match r {
            Some((inode, end)) => parse_inode(b@, pos as int) == Some((inode@, end as int)),
            None => parse_inode(b@, pos as int).is_none(),
        },
{
    reveal(parse_inode);
    reveal(parse_opt_manifest);
    reveal(parse_opt_text);
    let (ino, at1) = match get_u64(b, pos) {
        Some(x) => x,
        None => {
            return None;
        },
    };
    let (parent, at2) = match get_u64(b, at1) {
        Some(x) => x,
        None => {
            return None;
        },
    };
    let (name, at3) = match get_text(b, at2) {
        Some(x) => x,
        None => {
            return None;
        },
    };
    let (attrs, at4) = match get_attrs(b, at3) {
        Some(x) => x,
        None => {
            return None;
        },
    };
    let (count, at5) = match get_u64(b, at4) {
        Some(x) => x,
        None => {
            return None;
        },
    };
    let mut children: Vec<u64> = Vec::new();
    let mut cursor: usize = at5;
    let mut i: u64 = 0;
    while i < count
        invariant
            i <= count,
            children@.len() == i,
            parse_u64(b@, pos as int) == Some((ino, at1 as int)),
            parse_u64(b@, at1 as int) == Some((parent, at2 as int)),
            parse_text(b@, at2 as int) == Some((name@, at3 as int)),
            parse_attrs(b@, at3 as int) == Some((attrs, at4 as int)),
            parse_u64(b@, at4 as int) == Some((count, at5 as int)),
            parse_numbers(b@, at5 as int, i as nat) == Some((children@, cursor as int)),
        decreases count - i,
    {
        match get_u64(b, cursor) {
            Some((number, end)) => {
                children.push(number);
                cursor = end;
            },
            None => {
                proof {
                    reveal(parse_inode);
                    assert(parse_numbers(b@, at5 as int, (i + 1) as nat).is_none());
                    lemma_parse_numbers_fails(b@, at5 as int, (i + 1) as nat, count as nat);
                }
                return None;
            },
        }
        i += 1;
    }
    let (has_manifest, at6) = match get_bool(b, cursor) {
        Some(x) => x,
        None => {
            return None;
        },
    };
    let (manifest, at7): (Option<ChunkManifest>, usize) = if has_manifest {
        match get_manifest(b, at6) {
            Some((manifest, end)) => (Some(manifest), end),
            None => {
                return None;
            },
        }
    } else {
        (None, at6)
    };
    let (version, at8) = match get_u64(b, at7) {
        Some(x) => x,
        None => {
            return None;
        },
    };
    let (has_target, at9) = match get_bool(b, at8) {
        Some(x) => x,
        None => {
            return None;
        },
    };
    let (symlink_target, at10): (Option<String>, usize) = if has_target {
        match get_text(b, at9) {
            Some((target, end)) => (Some(target), end),
            None => {
                return None;
            },
        }
    } else {
        (None, at9)
    };
    Some((Inode { ino, parent, name, attrs, children, manifest, version, symlink_target }, at10))
}

/// The binary form of an inode at rest. Decoding it gives the inode.
pub fn encode_inode(inode: &Inode) -> (r: Vec<u8>)
    ensures
        r@ == seq![INODE_FORMAT] + ser_inode(inode@),
        decoded_inode(r@) == Some(inode@),
{
    let mut out: Vec<u8> = Vec::new();
    out.push(INODE_FORMAT);
    put_inode(&mut out, inode);
    proof {
        assert(out@ =~= seq![INODE_FORMAT] + ser_inode(inode@) + Seq::<u8>::empty());
        lemma_parse_inode(seq![INODE_FORMAT], inode@, Seq::<u8>::empty());
    }
    out
}

/// Decode an inode at rest. Another format byte, fields that are cut short
/// or malformed, and bytes behind the last field are refused.
pub fn decode_inode(b: &[u8]) -> (r: Result<Inode>)
    ensures
        match decoded_inode(b@) {
            Some(i) => r matches Ok(inode) && inode@ == i,
            None => r matches Err(e) && e is Deserialization,
        },
{
    if b.len() == 0 || b[0] != INODE_FORMAT {
        return Err(Error::Deserialization("Unknown inode format".to_string()));
    }
    match get_inode(b, 1) {
        Some((inode, end)) => {
            if end != b.len() {
                return Err(Error::Deserialization("Trailing bytes behind inode".to_string()));
            }
            Ok(inode)
        },
        None => Err(Error::Deserialization("Malformed inode".to_string())),
    }
}

} // verus!
