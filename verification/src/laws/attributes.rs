//! The attributes of files: as they are told, as they are changed, and as directories list them.

use vstd::prelude::*;

use super::bits;
use super::layout;
use crate::bytes;
use crate::syscall::fs::dir;
use crate::syscall::fs::dir::Dirent;
use crate::syscall::fs::meta;
use crate::syscall::fs::meta::{Chown, FileRights, Pages, Times};
use crate::syscall::fs::xattr;
use crate::syscall::util;
use crate::vfs::{InodeKind, Stat, TimeSpec};

verus! {

/// The number of a kind, in a list and in a mode.
pub proof fn law_kinds_have_their_numbers()
    ensures
        dir::kind_code(InodeKind::Pipe) == 1,
        dir::kind_code(InodeKind::CharDevice) == 2,
        dir::kind_code(InodeKind::Directory) == 4,
        dir::kind_code(InodeKind::Regular) == 8,
        dir::kind_code(InodeKind::Symlink) == 10,
        dir::kind_code(InodeKind::Socket) == 12,
        forall|kind: InodeKind| #[trigger]
            meta::kind_bits(kind) == dir::kind_code(kind) * 0o10000,
{
    assert forall|kind: InodeKind| #[trigger]
        meta::kind_bits(kind) == dir::kind_code(kind) * 0o10000 by {
        match kind {
            InodeKind::Regular => {},
            InodeKind::Directory => {},
            InodeKind::CharDevice => {},
            InodeKind::Symlink => {},
            InodeKind::Pipe => {},
            InodeKind::Socket => {},
        }
    }
}

/// A file that is made with the mode that another is told with is of the same kind, where it can
/// be made.
pub proof fn law_kind_in_a_mode_is_the_kind_told(kind: InodeKind, rights: u64)
    requires
        rights < 0o10000,
        kind != InodeKind::Symlink,
        kind != InodeKind::Socket,
    ensures
        dir::kind_in((meta::kind_bits(kind) + rights) as u64) == Some(kind),
{
    let mode = (meta::kind_bits(kind) + rights) as u64;
    bits::lemma_mode_bits(mode);
    assert(meta::kind_bits(kind) == dir::kind_code(kind) * 0o10000) by {
        law_kinds_have_their_numbers();
    }
    match kind {
        InodeKind::Regular => {},
        InodeKind::Directory => {},
        InodeKind::CharDevice => {},
        InodeKind::Symlink => {},
        InodeKind::Pipe => {},
        InodeKind::Socket => {},
    }
}

proof fn lemma_told_mode(st: Stat)
    requires
        st.mode < 0o10000,
    ensures
        meta::kind_bits(st.kind) as u32 | st.mode as u32 == dir::kind_code(st.kind) * 0o10000
            + st.mode,
        meta::kind_bits(st.kind) | (st.mode & 0o7777) == dir::kind_code(st.kind) * 0o10000 + st.mode,
{
    law_kinds_have_their_numbers();
    let k = meta::kind_bits(st.kind);
    assert(k == dir::kind_code(st.kind) * 0o10000);
    bits::lemma_kind_and_rights(k, st.mode);
}

/// The attributes of a file stand at their places.
pub proof fn law_attributes_stand_at_their_places(st: Stat, uid: u32, gid: u32)
    requires
        st.mode < 0o10000,
    ensures
        ({
            let s = meta::packed_stat(st, uid, gid);
            &&& s.len() == 144
            &&& bytes::le64(s, 0) == st.dev_id
            &&& bytes::le64(s, 8) == st.inode_id
            &&& bytes::le64(s, 16) == st.nlink
            &&& bytes::le32(s, 24) == dir::kind_code(st.kind) * 0o10000 + st.mode
            &&& bytes::le32(s, 28) == uid
            &&& bytes::le32(s, 32) == gid
            &&& bytes::le64(s, 40) == st.rdev
            &&& bytes::le64(s, 48) == st.size
            &&& bytes::le64(s, 56) == st.blksize
            &&& bytes::le64(s, 64) == st.blocks
            &&& bytes::le64(s, 72) == st.atime.sec as u64
            &&& bytes::le64(s, 80) == (st.atime.nsec as i64) as u64
            &&& bytes::le64(s, 88) == st.mtime.sec as u64
            &&& bytes::le64(s, 96) == (st.mtime.nsec as i64) as u64
            &&& bytes::le64(s, 104) == st.ctime.sec as u64
            &&& bytes::le64(s, 112) == (st.ctime.nsec as i64) as u64
        }),
{
    lemma_told_mode(st);
    let mode = meta::kind_bits(st.kind) as u32 | st.mode as u32;
    let none = Seq::<u8>::empty();
    let s0 = bytes::put64(st.dev_id);
    layout::lemma_put64(none, st.dev_id);
    assert(none + s0 =~= s0);
    let s1 = s0 + bytes::put64(st.inode_id);
    layout::lemma_put64(s0, st.inode_id);
    layout::lemma_behind(s0, bytes::put64(st.inode_id));
    let s2 = s1 + bytes::put64(st.nlink as u64);
    layout::lemma_put64(s1, st.nlink as u64);
    layout::lemma_behind(s1, bytes::put64(st.nlink as u64));
    let s3 = s2 + bytes::put32(mode);
    layout::lemma_put32(s2, mode);
    layout::lemma_behind(s2, bytes::put32(mode));
    let s4 = s3 + bytes::put32(uid);
    layout::lemma_put32(s3, uid);
    layout::lemma_behind(s3, bytes::put32(uid));
    let s5 = s4 + bytes::put32(gid);
    layout::lemma_put32(s4, gid);
    layout::lemma_behind(s4, bytes::put32(gid));
    let s6 = s5 + bytes::zeros(4);
    layout::lemma_behind(s5, bytes::zeros(4));
    let s7 = s6 + bytes::put64(st.rdev);
    layout::lemma_put64(s6, st.rdev);
    layout::lemma_behind(s6, bytes::put64(st.rdev));
    let s8 = s7 + bytes::put64(st.size);
    layout::lemma_put64(s7, st.size);
    layout::lemma_behind(s7, bytes::put64(st.size));
    let s9 = s8 + bytes::put64(st.blksize as u64);
    layout::lemma_put64(s8, st.blksize as u64);
    layout::lemma_behind(s8, bytes::put64(st.blksize as u64));
    let s10 = s9 + bytes::put64(st.blocks);
    layout::lemma_put64(s9, st.blocks);
    layout::lemma_behind(s9, bytes::put64(st.blocks));
    let s11 = s10 + meta::packed(st.atime);
    lemma_time(s10, st.atime);
    layout::lemma_behind(s10, meta::packed(st.atime));
    let s12 = s11 + meta::packed(st.mtime);
    lemma_time(s11, st.mtime);
    layout::lemma_behind(s11, meta::packed(st.mtime));
    let s13 = s12 + meta::packed(st.ctime);
    lemma_time(s12, st.ctime);
    layout::lemma_behind(s12, meta::packed(st.ctime));
    layout::lemma_behind(s13, bytes::zeros(24));
    assert(meta::packed_stat(st, uid, gid) == s13 + bytes::zeros(24));
}

proof fn lemma_time(s: Seq<u8>, t: TimeSpec)
    ensures
        ({
            let all = s + meta::packed(t);
            &&& all.len() == s.len() + 16
            &&& bytes::le64(all, s.len() as int) == t.sec as u64
            &&& bytes::le64(all, s.len() as int + 8) == (t.nsec as i64) as u64
        }),
{
    let sec = bytes::put64(t.sec as u64);
    let nsec = bytes::put64((t.nsec as i64) as u64);
    assert(s + (sec + nsec) =~= (s + sec) + nsec);
    layout::lemma_put64(s, t.sec as u64);
    layout::lemma_put64(s + sec, (t.nsec as i64) as u64);
    layout::lemma_behind(s + sec, nsec);
}

proof fn lemma_short_time(s: Seq<u8>, t: TimeSpec)
    ensures
        ({
            let all = s + meta::packed_short(t);
            &&& all.len() == s.len() + 12
            &&& bytes::le64(all, s.len() as int) == t.sec as u64
            &&& bytes::le32(all, s.len() as int + 8) == t.nsec as u32
        }),
{
    let sec = bytes::put64(t.sec as u64);
    let nsec = bytes::put32(t.nsec as u32);
    assert(s + (sec + nsec) =~= (s + sec) + nsec);
    layout::lemma_put64(s, t.sec as u64);
    layout::lemma_put32(s + sec, t.nsec as u32);
    layout::lemma_behind(s + sec, nsec);
}

/// The attributes of a file in the longer form stand at their places.
pub proof fn law_longer_attributes_stand_at_their_places(st: Stat, uid: u32, gid: u32)
    requires
        st.mode < 0o10000,
    ensures
        ({
            let s = meta::packed_statx(st, uid, gid);
            &&& s.len() == 256
            &&& bytes::le32(s, 0) == 0x7ff
            &&& bytes::le32(s, 4) == st.blksize
            &&& bytes::le32(s, 16) == st.nlink
            &&& bytes::le32(s, 20) == uid
            &&& bytes::le32(s, 24) == gid
            &&& bytes::le16(s, 28) == dir::kind_code(st.kind) * 0o10000 + st.mode
            &&& bytes::le64(s, 32) == st.inode_id
            &&& bytes::le64(s, 40) == st.size
            &&& bytes::le64(s, 48) == st.blocks
            &&& bytes::le64(s, 64) == st.atime.sec as u64
            &&& bytes::le32(s, 72) == st.atime.nsec as u32
            &&& bytes::le64(s, 96) == st.ctime.sec as u64
            &&& bytes::le32(s, 104) == st.ctime.nsec as u32
            &&& bytes::le64(s, 112) == st.mtime.sec as u64
            &&& bytes::le32(s, 120) == st.mtime.nsec as u32
        }),
{
    lemma_told_mode(st);
    let mode = meta::kind_bits(st.kind) | (st.mode & 0o7777);
    let none = Seq::<u8>::empty();
    let s0 = bytes::put32(0x7ff);
    layout::lemma_put32(none, 0x7ff);
    assert(none + s0 =~= s0);
    let s1 = s0 + bytes::put32(st.blksize);
    layout::lemma_put32(s0, st.blksize);
    layout::lemma_behind(s0, bytes::put32(st.blksize));
    let s2 = s1 + bytes::zeros(8);
    layout::lemma_behind(s1, bytes::zeros(8));
    let s3 = s2 + bytes::put32(st.nlink);
    layout::lemma_put32(s2, st.nlink);
    layout::lemma_behind(s2, bytes::put32(st.nlink));
    let s4 = s3 + bytes::put32(uid);
    layout::lemma_put32(s3, uid);
    layout::lemma_behind(s3, bytes::put32(uid));
    let s5 = s4 + bytes::put32(gid);
    layout::lemma_put32(s4, gid);
    layout::lemma_behind(s4, bytes::put32(gid));
    let s6 = s5 + bytes::put16(mode);
    layout::lemma_put(s5, 0, 0, mode);
    layout::lemma_behind(s5, bytes::put16(mode));
    let s7 = s6 + bytes::zeros(2);
    layout::lemma_behind(s6, bytes::zeros(2));
    let s8 = s7 + bytes::put64(st.inode_id);
    layout::lemma_put64(s7, st.inode_id);
    layout::lemma_behind(s7, bytes::put64(st.inode_id));
    let s9 = s8 + bytes::put64(st.size);
    layout::lemma_put64(s8, st.size);
    layout::lemma_behind(s8, bytes::put64(st.size));
    let s10 = s9 + bytes::put64(st.blocks);
    layout::lemma_put64(s9, st.blocks);
    layout::lemma_behind(s9, bytes::put64(st.blocks));
    let s11 = s10 + bytes::zeros(8);
    layout::lemma_behind(s10, bytes::zeros(8));
    let s12 = s11 + meta::packed_short(st.atime);
    lemma_short_time(s11, st.atime);
    layout::lemma_behind(s11, meta::packed_short(st.atime));
    let s13 = s12 + bytes::zeros(20);
    layout::lemma_behind(s12, bytes::zeros(20));
    let s14 = s13 + meta::packed_short(st.ctime);
    lemma_short_time(s13, st.ctime);
    layout::lemma_behind(s13, meta::packed_short(st.ctime));
    let s15 = s14 + bytes::zeros(4);
    layout::lemma_behind(s14, bytes::zeros(4));
    let s16 = s15 + meta::packed_short(st.mtime);
    lemma_short_time(s15, st.mtime);
    layout::lemma_behind(s15, meta::packed_short(st.mtime));
    layout::lemma_behind(s16, bytes::zeros(132));
    assert(meta::packed_statx(st, uid, gid) == s16 + bytes::zeros(132));
}

/// The file system of a file is told in blocks: how many there are, and how many of them are
/// free, both for everybody; with the flags of its mount.
pub proof fn law_file_system_is_told_in_blocks(st: Stat, pages: Pages, mount_flags: u64)
    requires
        st.blksize > 0,
        pages.in_use <= pages.total,
        pages.total * 4096 <= u64::MAX,
    ensures
        ({
            let s = meta::packed_statfs(st, pages, mount_flags);
            let all = (pages.total * 4096) / (st.blksize as int);
            let free = ((pages.total - pages.in_use) * 4096) / (st.blksize as int);
            &&& s.len() == 120
            &&& bytes::le64(s, 8) == st.blksize
            &&& bytes::le64(s, 16) == all
            &&& bytes::le64(s, 24) == free
            &&& bytes::le64(s, 32) == free
            &&& bytes::le64(s, 56) == st.dev_id
            &&& bytes::le64(s, 64) == 255
            &&& bytes::le64(s, 72) == st.blksize
            &&& bytes::le64(s, 80) == mount_flags % 16
        }),
{
    bits::lemma_mount_bits(mount_flags);
    let magic: u64 = if st.dev_id >> 56 == 0xe4 {
        0xef53
    } else {
        0x0102_1994
    };
    let total = ((pages.total * 4096) / (st.blksize as int)) as u64;
    let free = (((pages.total - pages.in_use) * 4096) / (st.blksize as int)) as u64;
    let blksize = st.blksize as int;
    let whole = pages.total * 4096;
    let left = (pages.total - pages.in_use) * 4096;
    assert(0 <= whole / blksize <= whole) by (nonlinear_arith)
        requires
            whole >= 0,
            blksize > 0,
    ;
    assert(0 <= left / blksize <= left) by (nonlinear_arith)
        requires
            left >= 0,
            blksize > 0,
    ;
    let none = Seq::<u8>::empty();
    let s0 = bytes::put64(magic);
    layout::lemma_put64(none, magic);
    assert(none + s0 =~= s0);
    let s1 = s0 + bytes::put64(st.blksize as u64);
    layout::lemma_put64(s0, st.blksize as u64);
    layout::lemma_behind(s0, bytes::put64(st.blksize as u64));
    let s2 = s1 + bytes::put64(total);
    layout::lemma_put64(s1, total);
    layout::lemma_behind(s1, bytes::put64(total));
    let s3 = s2 + bytes::put64(free);
    layout::lemma_put64(s2, free);
    layout::lemma_behind(s2, bytes::put64(free));
    let s4 = s3 + bytes::put64(free);
    layout::lemma_put64(s3, free);
    layout::lemma_behind(s3, bytes::put64(free));
    let s5 = s4 + bytes::put64(u64::MAX);
    layout::lemma_put64(s4, u64::MAX);
    layout::lemma_behind(s4, bytes::put64(u64::MAX));
    let s6 = s5 + bytes::put64(u64::MAX);
    layout::lemma_put64(s5, u64::MAX);
    layout::lemma_behind(s5, bytes::put64(u64::MAX));
    let s7 = s6 + bytes::put64(st.dev_id);
    layout::lemma_put64(s6, st.dev_id);
    layout::lemma_behind(s6, bytes::put64(st.dev_id));
    let s8 = s7 + bytes::put64(255);
    layout::lemma_put64(s7, 255);
    layout::lemma_behind(s7, bytes::put64(255));
    let s9 = s8 + bytes::put64(st.blksize as u64);
    layout::lemma_put64(s8, st.blksize as u64);
    layout::lemma_behind(s8, bytes::put64(st.blksize as u64));
    let flags = mount_flags & 0x000f;
    let s10 = s9 + bytes::put64(flags);
    layout::lemma_put64(s9, flags);
    layout::lemma_behind(s9, bytes::put64(flags));
    layout::lemma_behind(s10, bytes::zeros(32));
    assert(meta::packed_statfs(st, pages, mount_flags) == s10 + bytes::zeros(32));
}

proof fn lemma_record_head(inode: u64, next: u64, len: u16) -> (head: Seq<u8>)
    ensures
        head == bytes::put64(inode) + bytes::put64(next) + bytes::put16(len),
        head.len() == 18,
        bytes::le64(head, 0) == inode,
        bytes::le64(head, 8) == next,
        bytes::le16(head, 16) == len,
{
    let none = Seq::<u8>::empty();
    let s0 = bytes::put64(inode);
    layout::lemma_put64(none, inode);
    assert(none + s0 =~= s0);
    let s1 = s0 + bytes::put64(next);
    layout::lemma_put64(s0, next);
    layout::lemma_behind(s0, bytes::put64(next));
    let head = s1 + bytes::put16(len);
    layout::lemma_put(s1, 0, 0, len);
    layout::lemma_behind(s1, bytes::put16(len));
    head
}

proof fn lemma_three_behind(head: Seq<u8>, a: Seq<u8>, b: Seq<u8>, c: Seq<u8>)
    requires
        head.len() == 18,
    ensures
        ({
            let s = head + a + b + c;
            let after_a = 18 + a.len() as int;
            let after_b = after_a + b.len();
            &&& s.len() == after_b + c.len()
            &&& bytes::le64(s, 0) == bytes::le64(head, 0)
            &&& bytes::le64(s, 8) == bytes::le64(head, 8)
            &&& bytes::le16(s, 16) == bytes::le16(head, 16)
            &&& s.subrange(18, after_a) == a
            &&& s.subrange(after_a, after_b) == b
            &&& s.subrange(after_b, after_b + c.len()) == c
            &&& a.len() > 0 ==> s[18] == a[0]
            &&& b.len() > 0 ==> s[after_a] == b[0]
            &&& c.len() > 0 ==> s[after_b] == c[0] && s.last() == c.last()
        }),
{
    let s = head + a + b + c;
    let after_a = 18 + a.len() as int;
    let after_b = after_a + b.len();
    let rest = a + b + c;
    assert(s =~= head + rest);
    layout::lemma_behind(head, rest);
    assert(s.subrange(18, after_a) =~= a);
    assert(s.subrange(after_a, after_b) =~= b);
    assert(s.subrange(after_b, after_b + c.len()) =~= c);
}

proof fn lemma_record_len(n: int, legacy: bool)
    requires
        0 <= n <= 255,
    ensures
        ({
            let len = dir::record_len(n, legacy);
            let from = if legacy {
                18
            } else {
                19int
            };
            &&& len % 8 == 0
            &&& from + n < len < from + n + 11
            &&& len - 19 - n > 0
            &&& len as u16 == len
        }),
{
}

proof fn lemma_record_parts(e: Dirent, i: int, legacy: bool) -> (parts: (Seq<u8>, Seq<u8>))
    requires
        e.name@.len() <= 255,
        0 <= i < u64::MAX,
    ensures
        ({
            let (head, fill) = parts;
            let n = e.name@.len() as int;
            let len = dir::record_len(n, legacy);
            let kind = seq![dir::kind_code(e.kind)];
            &&& head.len() == 18
            &&& bytes::le64(head, 0) == e.inode_id
            &&& bytes::le64(head, 8) == i + 1
            &&& bytes::le16(head, 16) == len
            &&& fill.len() == len - 19 - n
            &&& fill[0] == 0
            &&& legacy ==> dir::record(e, i, legacy) == head + e.name@ + fill + kind
            &&& !legacy ==> dir::record(e, i, legacy) == head + kind + e.name@ + fill
        }),
{
    let n = e.name@.len() as int;
    let len = dir::record_len(n, legacy);
    lemma_record_len(n, legacy);
    let head = lemma_record_head(e.inode_id, (i + 1) as u64, len as u16);
    (head, bytes::zeros((len - 19 - n) as nat))
}

/// A record in a list of a directory: the inode, the number of the next record, how long this one
/// is, the kind, and the name with zeros behind it. It takes whole groups of eight bytes. In the
/// older form the kind is the last byte.
#[verifier::spinoff_prover]
#[verifier::rlimit(50)]
pub proof fn law_record_of_a_directory(e: Dirent, i: int, legacy: bool)
    requires
        e.name@.len() <= 255,
        0 <= i < u64::MAX,
    ensures
        ({
            let s = dir::record(e, i, legacy);
            let n = e.name@.len() as int;
            let from = if legacy {
                18
            } else {
                19int
            };
            &&& s.len() % 8 == 0
            &&& from + n < s.len() < from + n + 11
            &&& bytes::le64(s, 0) == e.inode_id
            &&& bytes::le64(s, 8) == i + 1
            &&& bytes::le16(s, 16) == s.len()
            &&& s.subrange(from, from + n) == e.name@
            &&& s[from + n] == 0
            &&& legacy ==> s.last() == dir::kind_code(e.kind)
            &&& !legacy ==> s[18] == dir::kind_code(e.kind)
        }),
{
    let n = e.name@.len() as int;
    lemma_record_len(n, legacy);
    let (head, fill) = lemma_record_parts(e, i, legacy);
    let kind = seq![dir::kind_code(e.kind)];
    let s = dir::record(e, i, legacy);
    if legacy {
        lemma_three_behind(head, e.name@, fill, kind);
        assert(s.len() == 18 + n + fill.len() + 1);
    } else {
        lemma_three_behind(head, kind, e.name@, fill);
        assert(s.len() == 18 + 1 + n + fill.len());
    }
}

/// Who owns a file may change its mode, and so may who can act as the owner of all files of the
/// namespace; nobody else may.
pub proof fn law_owner_changes_the_mode(rights: FileRights, file_uid: u32)
    ensures
        rights.fsuid == file_uid ==> meta::may_chmod(rights, file_uid),
        rights.cap_fowner && rights.owns_user ==> meta::may_chmod(rights, file_uid),
        rights.fsuid != file_uid && !rights.cap_fowner ==> !meta::may_chmod(rights, file_uid),
        rights.fsuid != file_uid && !rights.owns_user ==> !meta::may_chmod(rights, file_uid),
{
}

/// A file is given to the user and the group asked for, by who may; an id whose low half is all
/// ones asks for nothing. An id that stands for nobody is refused.
pub proof fn law_files_are_given_as_asked(
    file_uid: u32,
    rights: FileRights,
    uid: u64,
    gid: u64,
    kernel_uid: Option<u32>,
    kernel_gid: Option<u32>,
)
    ensures
        ({
            let r = meta::chowned(file_uid, rights, uid, gid, kernel_uid, kernel_gid);
            let asks_user = uid % 0x1_0000_0000 != 0xffff_ffff;
            let asks_group = gid % 0x1_0000_0000 != 0xffff_ffff;
            let capable = rights.cap_chown && rights.owns_user && rights.owns_group;
            let known = (asks_user ==> kernel_uid is Some) && (asks_group ==> kernel_gid is Some);
            &&& !asks_user && !asks_group ==> r == Chown::Done(0)
            &&& (asks_user || asks_group) && !known ==> r == Chown::Done(-22i64)
            &&& r matches Chown::Give { uid: u, gid: g } ==> {
                &&& known && (asks_user || asks_group)
                &&& u == (if asks_user {
                    kernel_uid
                } else {
                    None
                })
                &&& g == (if asks_group {
                    kernel_gid
                } else {
                    None
                })
                &&& asks_user ==> capable || (rights.fsuid == file_uid && kernel_uid == Some(
                    file_uid,
                ))
                &&& asks_group ==> capable || (rights.fsuid == file_uid && (kernel_gid == Some(
                    rights.fsgid,
                ) || rights.in_new_group))
            }
            &&& (asks_user || asks_group) && known && capable ==> r is Give
            &&& !asks_user && asks_group && known && rights.fsuid == file_uid
                && rights.in_new_group ==> r is Give
            &&& (asks_user || asks_group) && known && r is Done ==> r == Chown::Done(-1i64)
        }),
{
    bits::lemma_low_parts(uid);
    bits::lemma_low_parts(gid);
    bits::lemma_low_sign(uid);
    bits::lemma_low_sign(gid);
}

/// A time in seconds and microseconds is read as one in seconds and nanoseconds.
pub proof fn law_microseconds_are_a_thousand_nanoseconds(b: Seq<u8>)
    ensures
        ({
            let usec = bytes::le64(b, 8);
            &&& meta::timeval_in(Some(b)) is Ok == (usec < 1_000_000)
            &&& meta::timeval_in(Some(b)) matches Ok(t) ==> t.sec as u64 == bytes::le64(b, 0)
                && t.nsec == usec * 1000
            &&& meta::timeval_in(Some(b)) matches Err(e) ==> e == -22
            &&& meta::timeval_in(None) == Err::<TimeSpec, i64>(-14i64)
        }),
{
    bits::lemma_sign(bytes::le64(b, 8));
    bits::lemma_sign(bytes::le64(b, 0));
}

/// Of two times, the first is that of the last access and the second that of the last change.
/// Without them both are now; the fraction `0x3fffffff` stands for now, and `0x3ffffffe` for
/// leaving the time as it is.
pub proof fn law_times_of_access_and_change(first: Seq<u8>, second: Seq<u8>, now: TimeSpec)
    ensures
        meta::times_given(false, Some(first), Some(second), now) == Ok::<Times, i64>(
            Times { atime: Some(now), mtime: Some(now) },
        ),
        meta::timevals(false, Some(first), Some(second), now) == Ok::<Times, i64>(
            Times { atime: Some(now), mtime: Some(now) },
        ),
        meta::times_given(true, Some(first), Some(second), now) matches Ok(t) ==> {
            &&& t.atime == time_meant(first, now)
            &&& t.mtime == time_meant(second, now)
        },
        meta::times_given(true, Some(first), Some(second), now) is Ok,
        meta::times_given(true, None, Some(second), now) == Err::<Times, i64>(-14i64),
        meta::times_given(true, Some(first), None, now) == Err::<Times, i64>(-14i64),
        meta::timevals(true, Some(first), Some(second), now) matches Ok(t) ==> {
            &&& t.atime == Some(meta::timeval_in(Some(first))->Ok_0)
            &&& t.mtime == Some(meta::timeval_in(Some(second))->Ok_0)
        },
        meta::timevals(true, Some(first), Some(second), now) is Ok == (bytes::le64(first, 8)
            < 1_000_000 && bytes::le64(second, 8) < 1_000_000),
{
    law_microseconds_are_a_thousand_nanoseconds(first);
    law_microseconds_are_a_thousand_nanoseconds(second);
}

/// The time that sixteen bytes stand for.
pub open spec fn time_meant(b: Seq<u8>, now: TimeSpec) -> Option<TimeSpec> {
    let nsec = (bytes::le64(b, 8) as i64) as i32;
    if nsec == 0x3fff_ffff {
        Some(now)
    } else if nsec == 0x3fff_fffe {
        None
    } else {
        Some(TimeSpec { sec: bytes::le64(b, 0) as i64, nsec })
    }
}

/// A value of an attribute is told where there is room for it, and how long it is in any case.
pub proof fn law_value_is_told_where_it_fits(n: usize, buf: Seq<u8>, to: u64, size: u64)
    requires
        n <= buf.len(),
        n <= i64::MAX,
    ensures
        ({
            let r = xattr::xattr_answer(Ok(n), buf, to, size);
            &&& r.code == n
            &&& size > 0 && n <= size ==> r.out == seq![(to, buf.take(n as int))]
            &&& size == 0 || n > size ==> r.out.len() == 0
        }),
{
}

/// A duration counts its seconds a thousand million times.
pub proof fn law_durations_are_in_nanoseconds(b: Seq<u8>, now: u64)
    requires
        now + bytes::le64(b, 0) * 1_000_000_000 + bytes::le64(b, 8) <= u64::MAX,
    ensures
        ({
            let whole = bytes::le64(b, 0) * 1_000_000_000 + bytes::le64(b, 8);
            let fits = bytes::le64(b, 8) < 1_000_000_000;
            &&& util::duration_in(Some(b)) == (if fits {
                Ok::<u64, i64>(whole as u64)
            } else {
                Err(-22i64)
            })
            &&& util::relative_deadline(0, Some(b), now) == Ok::<Option<u64>, i64>(None)
            &&& fits ==> util::relative_deadline(1, Some(b), now) == Ok::<Option<u64>, i64>(
                Some((now + whole) as u64),
            )
            &&& fits ==> util::absolute_deadline(1, 0, Some(b)) == Ok::<Option<u64>, i64>(
                Some(whole as u64),
            ) && util::absolute_deadline(1, 1, Some(b)) == Ok::<Option<u64>, i64>(
                Some(whole as u64),
            )
            &&& forall|clock: u64|
                clock > 1 ==> #[trigger] util::absolute_deadline(1, clock, Some(b)) == Err::<
                    Option<u64>,
                    i64,
                >(-22i64)
        }),
{
}

/// A directory is listed from an entry on, as far as there is room, and it is told where to go on.
pub proof fn law_directory_is_listed_as_far_as_it_fits(
    entries: Seq<Dirent>,
    offset: u64,
    to: u64,
    count: u64,
    legacy: bool,
)
    ensures
        ({
            let room = if count < 4096 {
                count as int
            } else {
                4096
            };
            let (out, next) = dir::records(entries, offset as int, room, legacy);
            let (r, go_on) = dir::listed(
                Some(InodeKind::Directory),
                Ok(entries),
                offset,
                to,
                count,
                legacy,
            );
            &&& count < 24 ==> r.code == -22 && go_on is None
            &&& count >= 24 && out.len() > 0 ==> r.code == out.len() as i64 && r.out == seq![(to, out)]
                && go_on == Some(next as u64)
            &&& count >= 24 && out.len() == 0 && next >= entries.len() ==> r.code == 0 && r.out.len()
                == 0
            &&& count >= 24 && out.len() == 0 && next < entries.len() ==> r.code == -22
        }),
        count >= 24 ==> dir::listed(None, Ok(entries), offset, to, count, legacy).0.code == -9,
        count >= 24 ==> dir::listed(
            Some(InodeKind::Regular),
            Ok(entries),
            offset,
            to,
            count,
            legacy,
        ).0.code == -20,
{
}

/// Each record in a list is that of its entry, and the first that does not fit ends the list.
pub proof fn law_records_follow_each_other(
    entries: Seq<Dirent>,
    i: int,
    room: int,
    legacy: bool,
)
    requires
        0 <= i < entries.len(),
        room >= 0,
    ensures
        ({
            let len = dir::record(entries[i], i, legacy).len();
            let (out, next) = dir::records(entries, i, room, legacy);
            &&& len > room && entries[i].name@.len() <= 255 ==> out.len() == 0 && next == i
            &&& len <= room && entries[i].name@.len() <= 255 ==> out == dir::record(
                entries[i],
                i,
                legacy,
            ) + dir::records(entries, i + 1, room - len, legacy).0 && next == dir::records(
                entries,
                i + 1,
                room - len,
                legacy,
            ).1
        }),
{
    if entries[i].name@.len() <= 255 {
        let e = entries[i];
        let len = dir::record_len(e.name@.len() as int, legacy);
        layout::lemma_put64(Seq::empty(), e.inode_id);
        layout::lemma_put64(Seq::empty(), (i + 1) as u64);
        layout::lemma_put(Seq::empty(), 0, 0, len as u16);
        assert(dir::record(e, i, legacy).len() == len);
    }
}

/// A program may be told other flags of a mount than the mount has.
pub proof fn law_flags_told_of_a_mount(flags: u64, others: u64)
    ensures
        meta::told_flags(flags, None) == flags,
        meta::told_flags(flags, Some(others)) == others,
{
}

/// A list ends with the last entry.
pub proof fn law_list_ends_with_the_last_entry(entries: Seq<Dirent>, i: int, room: int, legacy: bool)
    requires
        entries.len() <= i,
    ensures
        dir::records(entries, i, room, legacy).0.len() == 0,
        dir::records(entries, i, room, legacy).1 == i,
{
}

} // verus!
