//! The virtual file system: what an inode, an open file and a mount look like to the
//! rules that decide about them.

use vstd::prelude::*;

use crate::errno;
use crate::vfs::locks::bsd::FlockTable;
use crate::vfs::locks::bsd;
use crate::process_model::Pid;

pub mod blocking;
pub mod context;
pub mod fd;
pub mod forest;
pub mod forest_order;
pub mod locks;
pub mod mount;
pub mod mount_laws;
pub mod mount_queries;
pub mod mount_table;
pub mod path;
pub mod pipe;
pub mod pivot;
pub mod registry;
pub mod resolve;
pub mod tree;
pub mod world;

verus! {

/// What an inode is.
#[derive(Clone, Copy, Debug, PartialEq, Eq, Structural)]
pub enum InodeKind {
    Regular,
    Directory,
    CharDevice,
    Symlink,
    Pipe,
    Socket,
}

/// A point in time: seconds, and nanoseconds within the second.
#[derive(Clone, Copy, Debug, PartialEq, Eq, Structural)]
pub struct TimeSpec {
    pub sec: i64,
    pub nsec: i32,
}

impl Default for TimeSpec {
    fn default() -> (t: TimeSpec)
        ensures
            t == (TimeSpec { sec: 0, nsec: 0 }),
    {
        TimeSpec { sec: 0, nsec: 0 }
    }
}

/// The attributes of an inode.
#[derive(Clone, Copy, Debug, PartialEq, Eq, Structural)]
pub struct Stat {
    pub size: u64,
    pub kind: InodeKind,
    pub mode: u16,
    pub nlink: u32,
    pub uid: u32,
    pub gid: u32,
    pub inode_id: u64,
    pub dev_id: u64,
    pub rdev: u64,
    pub blksize: u32,
    pub blocks: u64,
    pub atime: TimeSpec,
    pub mtime: TimeSpec,
    pub ctime: TimeSpec,
}

impl Stat {
    /// The attributes of a new inode: one link, owned by root, blocks of one page, and
    /// every time at zero.
    pub fn fresh(kind: InodeKind, size: u64, mode: u16) -> (stat: Stat)
        ensures
            stat == (Stat {
                size,
                kind,
                mode,
                nlink: 1,
                uid: 0,
                gid: 0,
                inode_id: 0,
                dev_id: 0,
                rdev: 0,
                blksize: 4096,
                blocks: 0,
                atime: TimeSpec { sec: 0, nsec: 0 },
                mtime: TimeSpec { sec: 0, nsec: 0 },
                ctime: TimeSpec { sec: 0, nsec: 0 },
            }),
    {
        Stat {
            size,
            kind,
            mode,
            nlink: 1,
            uid: 0,
            gid: 0,
            inode_id: 0,
            dev_id: 0,
            rdev: 0,
            blksize: 4096,
            blocks: 0,
            atime: TimeSpec { sec: 0, nsec: 0 },
            mtime: TimeSpec { sec: 0, nsec: 0 },
            ctime: TimeSpec { sec: 0, nsec: 0 },
        }
    }
}

/// The device number of a pair of numbers: from the lowest bit up, 8 bits of the minor
/// number, 12 of the major, 24 of the minor and 20 of the major.
pub open spec fn device_number(major: u32, minor: u32) -> u64 {
    (minor as u64 & 0xff) | ((major as u64 & 0xfff) << 8) | ((minor as u64 & !0xffu64) << 12) | ((
    major as u64 & !0xfffu64) << 32)
}

/// The device number of a major and a minor number.
pub fn makedev(major: u32, minor: u32) -> (dev: u64)
    ensures
        dev == device_number(major, minor),
{
    let major: u64 = major as u64;
    let minor: u64 = minor as u64;
    (minor & 0xff) | ((major & 0xfff) << 8) | ((minor & !0xffu64) << 12) | ((major & !0xfffu64)
        << 32)
}

/// Both numbers can be read back from a device number.
pub proof fn law_device_number_is_unique(major: u32, minor: u32)
    ensures
        (device_number(major, minor) >> 8) & 0xfff | (device_number(major, minor) >> 32)
            & !0xfffu64 == major as u64,
        device_number(major, minor) & 0xff | (device_number(major, minor) >> 12) & 0xffff_ff00u64
            == minor as u64,
{
    assert((((minor as u64 & 0xff) | ((major as u64 & 0xfff) << 8) | ((minor as u64 & !0xffu64)
        << 12) | ((major as u64 & !0xfffu64) << 32)) >> 8) & 0xfff | (((minor as u64 & 0xff) | ((
    major as u64 & 0xfff) << 8) | ((minor as u64 & !0xffu64) << 12) | ((major as u64 & !0xfffu64)
        << 32)) >> 32) & !0xfffu64 == major as u64) by (bit_vector);
    assert(((minor as u64 & 0xff) | ((major as u64 & 0xfff) << 8) | ((minor as u64 & !0xffu64)
        << 12) | ((major as u64 & !0xfffu64) << 32)) & 0xff | (((minor as u64 & 0xff) | ((
    major as u64 & 0xfff) << 8) | ((minor as u64 & !0xffu64) << 12) | ((major as u64 & !0xfffu64)
        << 32)) >> 12) & 0xffff_ff00u64 == minor as u64) by (bit_vector);
}

/// An entry of a directory.
#[derive(Debug)]
pub struct DirEntry {
    pub name: String,
    pub kind: InodeKind,
    pub inode_id: u64,
}

pub const F_SEAL_SEAL: u32 = 0x0001;
pub const F_SEAL_SHRINK: u32 = 0x0002;
pub const F_SEAL_GROW: u32 = 0x0004;
pub const F_SEAL_WRITE: u32 = 0x0008;
pub const F_SEAL_FUTURE_WRITE: u32 = 0x0010;
pub const SEAL_MASK: u32 = 0x001f;

pub const O_WRONLY: u32 = 0o1;
pub const O_RDWR: u32 = 0o2;
pub const O_ACCMODE: u32 = 0o3;
pub const O_CREAT: u32 = 0o100;
pub const O_EXCL: u32 = 0o200;
pub const O_TRUNC: u32 = 0o1000;
pub const O_APPEND: u32 = 0o2000;
pub const O_NONBLOCK: u32 = 0o4000;
pub const O_DIRECTORY: u32 = 0o200000;
pub const O_NOFOLLOW: u32 = 0o400000;
pub const O_CLOEXEC: u32 = 0o2000000;
pub const O_PATH: u32 = 0o10000000;

/// The flags that an open file can change after it was opened.
pub const O_MUTABLE: u32 = 0o6000;

/// The flags of an open file, as bits.
#[derive(Clone, Copy, Debug, PartialEq, Eq, Structural)]
pub struct OpenFlags {
    pub bits: u32,
}

impl OpenFlags {
    pub open spec fn has(self, flag: u32) -> bool {
        self.bits & flag == flag
    }

    /// Opened for reading: not for writing only.
    pub open spec fn readable(self) -> bool {
        self.bits & O_ACCMODE != O_WRONLY
    }

    /// Opened for writing: not for reading only.
    pub open spec fn writable(self) -> bool {
        self.bits & O_ACCMODE != 0
    }

    /// Whether all bits of `flag` are set.
    pub fn contains(self, flag: u32) -> (r: bool)
        ensures
            r == self.has(flag),
    {
        self.bits & flag == flag
    }

    /// Whether the file can be read.
    pub fn is_readable(self) -> (r: bool)
        ensures
            r == self.readable(),
    {
        self.bits & O_ACCMODE != O_WRONLY
    }

    /// Whether the file can be written.
    pub fn is_writable(self) -> (r: bool)
        ensures
            r == self.writable(),
    {
        self.bits & O_ACCMODE != 0
    }
}

/// What a seek counts from.
#[derive(Clone, Copy, Debug, PartialEq, Eq, Structural)]
pub enum Whence {
    Start,
    Cur,
    End,
}

/// An open file description.
///
/// `inode` is the id of the file's inode and `kind` what it is. `mount` is the in-use
/// tag of the mount that the file was reached through.
pub struct OpenFile {
    pub inode: u64,
    pub kind: InodeKind,
    pub flags_bits: u32,
    pub offset: u64,
    pub mount: Option<usize>,
    pub path: String,
}

pub open spec fn saturating_sum(a: u64, b: int) -> u64 {
    if a + b <= u64::MAX {
        (a + b) as u64
    } else {
        u64::MAX
    }
}

impl OpenFile {
    /// A file opened without a mount to hold.
    pub fn new(inode: u64, kind: InodeKind, flags: OpenFlags) -> (file: OpenFile)
        ensures
            file.inode == inode,
            file.kind == kind,
            file.flags_bits == flags.bits,
            file.offset == 0,
            file.mount is None,
            file.path@ == Seq::<char>::empty(),
    {
        Self::new_with_mount(inode, kind, flags, None)
    }

    /// A file opened through a mount.
    pub fn new_with_mount(
        inode: u64,
        kind: InodeKind,
        flags: OpenFlags,
        mount: Option<usize>,
    ) -> (file: OpenFile)
        ensures
            file.inode == inode,
            file.kind == kind,
            file.flags_bits == flags.bits,
            file.offset == 0,
            file.mount == mount,
            file.path@ == Seq::<char>::empty(),
    {
        OpenFile { inode, kind, flags_bits: flags.bits, offset: 0, mount, path: String::new() }
    }

    /// A file that takes no part in counting who has its inode open.
    pub fn new_no_open(inode: u64, kind: InodeKind, flags: OpenFlags) -> (file: OpenFile)
        ensures
            file.inode == inode,
            file.kind == kind,
            file.flags_bits == flags.bits,
            file.offset == 0,
            file.mount is None,
            file.path@ == Seq::<char>::empty(),
    {
        Self::new_with_mount(inode, kind, flags, None)
    }

    /// The file, with the path under which it was opened.
    pub fn with_path(self, path: String) -> (file: OpenFile)
        ensures
            file.path == path,
            file.inode == self.inode,
            file.kind == self.kind,
            file.flags_bits == self.flags_bits,
            file.offset == self.offset,
            file.mount == self.mount,
    {
        let mut file = self;
        file.path = path;
        file
    }

    /// The flags of the file.
    pub fn flags(&self) -> (flags: OpenFlags)
        ensures
            flags == (OpenFlags { bits: self.flags_bits }),
    {
        OpenFlags { bits: self.flags_bits }
    }

    /// Sets the flags that can change after opening; the others stay.
    pub fn set_flags_subset(&mut self, new_flags: OpenFlags)
        ensures
            final(self).flags_bits == (old(self).flags_bits & !O_MUTABLE) | (new_flags.bits
                & O_MUTABLE),
            final(self).inode == old(self).inode,
            final(self).kind == old(self).kind,
            final(self).offset == old(self).offset,
            final(self).mount == old(self).mount,
            final(self).path == old(self).path,
    {
        let new_bits: u32 = new_flags.bits & O_MUTABLE;
        self.flags_bits = (self.flags_bits & !O_MUTABLE) | new_bits;
    }

    /// Where the next read starts.
    pub fn read_offset(&self) -> (at: Result<u64, i64>)
        ensures
            at == (if (OpenFlags { bits: self.flags_bits }).readable() {
                Ok(self.offset)
            } else {
                Err(errno::EACCES)
            }),
    {
        if !self.flags().is_readable() {
            return Err(errno::EACCES);
        }
        Ok(self.offset)
    }

    /// Takes the outcome of a read at the offset into account: the offset moves on by
    /// what was read.
    pub fn read(&mut self, outcome: Result<usize, i64>) -> (result: Result<usize, i64>)
        ensures
            ({
                let ok = (OpenFlags { bits: old(self).flags_bits }).readable();
                &&& result == (if ok {
                    outcome
                } else {
                    Err(errno::EACCES)
                })
                &&& final(self).offset == (if ok && outcome is Ok {
                    saturating_sum(old(self).offset, outcome->Ok_0 as int)
                } else {
                    old(self).offset
                })
            }),
            final(self).flags_bits == old(self).flags_bits,
            final(self).inode == old(self).inode,
            final(self).kind == old(self).kind,
            final(self).mount == old(self).mount,
            final(self).path == old(self).path,
    {
        if !self.flags().is_readable() {
            return Err(errno::EACCES);
        }
        match outcome {
            Ok(n) => {
                self.offset = self.offset.saturating_add(n as u64);
                Ok(n)
            },
            Err(e) => Err(e),
        }
    }

    /// Where the next write starts: at the end of the file where it is open for
    /// appending.
    pub fn write_offset(&self, size: u64) -> (at: Result<u64, i64>)
        ensures
            at == (if !(OpenFlags { bits: self.flags_bits }).writable() {
                Err(errno::EACCES)
            } else if (OpenFlags { bits: self.flags_bits }).has(O_APPEND) {
                Ok(size)
            } else {
                Ok(self.offset)
            }),
    {
        if !self.flags().is_writable() {
            return Err(errno::EACCES);
        }
        if self.flags().contains(O_APPEND) {
            Ok(size)
        } else {
            Ok(self.offset)
        }
    }

    /// Takes the outcome of a write at `write_offset` into account: the offset stands
    /// behind what was written.
    pub fn write(&mut self, size: u64, outcome: Result<usize, i64>) -> (result: Result<usize, i64>)
        ensures
            ({
                let flags = OpenFlags { bits: old(self).flags_bits };
                let at = if flags.has(O_APPEND) {
                    size
                } else {
                    old(self).offset
                };
                &&& result == (if flags.writable() {
                    outcome
                } else {
                    Err(errno::EACCES)
                })
                &&& final(self).offset == (if flags.writable() && outcome is Ok {
                    saturating_sum(at, outcome->Ok_0 as int)
                } else {
                    old(self).offset
                })
            }),
            final(self).flags_bits == old(self).flags_bits,
            final(self).inode == old(self).inode,
            final(self).kind == old(self).kind,
            final(self).mount == old(self).mount,
            final(self).path == old(self).path,
    {
        match self.write_offset(size) {
            Err(e) => Err(e),
            Ok(at) => match outcome {
                Ok(n) => {
                    self.offset = at.saturating_add(n as u64);
                    Ok(n)
                },
                Err(e) => Err(e),
            },
        }
    }

    /// The position that a seek counts from.
    pub open spec fn seek_base(&self, whence: Whence, size: u64) -> int {
        match whence {
            Whence::Start => 0,
            Whence::Cur => self.offset as i64 as int,
            Whence::End => size as i64 as int,
        }
    }

    /// Moves the offset; before the start of the file it stays at the start.
    pub fn seek(&mut self, whence: Whence, pos: i64, size: u64) -> (at: u64)
        requires
            i64::MIN <= old(self).seek_base(whence, size) + pos <= i64::MAX,
        ensures
            ({
                let sum = old(self).seek_base(whence, size) + pos;
                at == (if sum < 0 {
                    0
                } else {
                    sum
                })
            }),
            final(self).offset == at,
            final(self).flags_bits == old(self).flags_bits,
            final(self).inode == old(self).inode,
            final(self).kind == old(self).kind,
            final(self).mount == old(self).mount,
            final(self).path == old(self).path,
    {
        let base: i64 = match whence {
            Whence::Start => 0,
            Whence::Cur => self.offset as i64,
            Whence::End => size as i64,
        };
        let sum: i64 = base + pos;
        let at: u64 = if sum < 0 {
            0
        } else {
            sum as u64
        };
        self.offset = at;
        at
    }
}

/// How often a mount is in use, and its flags.
#[derive(Clone, Copy, Debug, PartialEq, Eq, Structural)]
pub struct MountInUseTag {
    pub refs: usize,
    pub flags: u64,
}

/// What happens to the tag of a mount.
pub ghost enum TagEvent {
    /// A use is taken.
    Used,
    /// A use is given back.
    Released,
    SetFlags(u64),
}

/// A tag after an event.
pub open spec fn tag_after(tag: MountInUseTag, event: TagEvent) -> MountInUseTag {
    match event {
        TagEvent::Used => MountInUseTag { refs: (tag.refs + 1) as usize, ..tag },
        TagEvent::Released => MountInUseTag { refs: (tag.refs - 1) as usize, ..tag },
        TagEvent::SetFlags(flags) => MountInUseTag { flags, ..tag },
    }
}

impl MountInUseTag {
    /// The tag of a mount that nobody uses, without flags.
    pub fn new() -> (tag: MountInUseTag)
        ensures
            tag == (MountInUseTag { refs: 0, flags: 0 }),
    {
        Self::new_with_flags(0)
    }

    /// The tag of a mount that nobody uses.
    pub fn new_with_flags(flags: u64) -> (tag: MountInUseTag)
        ensures
            tag == (MountInUseTag { refs: 0, flags }),
    {
        MountInUseTag { refs: 0, flags }
    }

    /// How often the mount is in use.
    pub fn refs(&self) -> (refs: usize)
        ensures
            refs == self.refs,
    {
        self.refs
    }

    /// The flags of the mount.
    pub fn flags(&self) -> (flags: u64)
        ensures
            flags == self.flags,
    {
        self.flags
    }

    /// Sets the flags of the mount.
    pub fn set_flags(&mut self, flags: u64)
        ensures
            *final(self) == tag_after(*old(self), TagEvent::SetFlags(flags)),
    {
        self.flags = flags;
    }
}

/// One use of a mount, by the number of its tag. It counts until it is released.
pub struct MountInUseGuard {
    pub tag: usize,
}

impl MountInUseGuard {
    /// Takes one use of the mount with the given tag.
    pub fn new(tags: &mut Vec<MountInUseTag>, tag: usize) -> (guard: MountInUseGuard)
        requires
            tag < old(tags)@.len(),
            old(tags)@[tag as int].refs < usize::MAX,
        ensures
            guard.tag == tag,
            final(tags)@ == old(tags)@.update(
                tag as int,
                tag_after(old(tags)@[tag as int], TagEvent::Used),
            ),
    {
        let at: usize = tag;
        let before = tags[at];
        tags[at] = MountInUseTag { refs: before.refs + 1, flags: before.flags };
        MountInUseGuard { tag }
    }

    /// Takes a further use of the same mount.
    pub fn clone(&self, tags: &mut Vec<MountInUseTag>) -> (guard: MountInUseGuard)
        requires
            self.tag < old(tags)@.len(),
            old(tags)@[self.tag as int].refs < usize::MAX,
        ensures
            guard.tag == self.tag,
            final(tags)@ == old(tags)@.update(
                self.tag as int,
                tag_after(old(tags)@[self.tag as int], TagEvent::Used),
            ),
    {
        MountInUseGuard::new(tags, self.tag)
    }

    /// The flags that the mount has now.
    pub fn flags(&self, tags: &Vec<MountInUseTag>) -> (flags: u64)
        requires
            self.tag < tags@.len(),
        ensures
            flags == tags@[self.tag as int].flags,
    {
        tags[self.tag].flags()
    }

    /// Gives the use of the mount back.
    pub fn release(self, tags: &mut Vec<MountInUseTag>)
        requires
            self.tag < old(tags)@.len(),
            old(tags)@[self.tag as int].refs > 0,
        ensures
            final(tags)@ == old(tags)@.update(
                self.tag as int,
                tag_after(old(tags)@[self.tag as int], TagEvent::Released),
            ),
    {
        let at: usize = self.tag;
        let before = tags[at];
        tags[at] = MountInUseTag { refs: before.refs - 1, flags: before.flags };
    }
}

/// Releasing a use gives back the count from before it was taken.
pub proof fn law_release_undoes_use(tag: MountInUseTag)
    requires
        tag.refs < usize::MAX,
    ensures
        tag_after(tag_after(tag, TagEvent::Used), TagEvent::Released) == tag,
{
}

/// How many uses there are after some events: those taken, less those given back.
pub open spec fn live_uses(events: Seq<TagEvent>) -> int
    decreases events.len(),
{
    if events.len() == 0 {
        0
    } else {
        live_uses(events.drop_last()) + (match events.last() {
            TagEvent::Used => 1int,
            TagEvent::Released => -1,
            TagEvent::SetFlags(_) => 0,
        })
    }
}

/// Only a use that there is is given back, and all can be counted.
pub open spec fn is_course(events: Seq<TagEvent>) -> bool
    decreases events.len(),
{
    0 <= live_uses(events) <= usize::MAX && (events.len() > 0 ==> is_course(events.drop_last()))
}

/// A tag after some events.
pub open spec fn tag_after_all(tag: MountInUseTag, events: Seq<TagEvent>) -> MountInUseTag
    decreases events.len(),
{
    if events.len() == 0 {
        tag
    } else {
        tag_after(tag_after_all(tag, events.drop_last()), events.last())
    }
}

/// The flags that were set last.
pub open spec fn flags_after(flags: u64, events: Seq<TagEvent>) -> u64
    decreases events.len(),
{
    if events.len() == 0 {
        flags
    } else {
        match events.last() {
            TagEvent::SetFlags(f) => f,
            _ => flags_after(flags, events.drop_last()),
        }
    }
}

/// Whatever happened to the tag of a new mount, it counts the uses that there are, and has the
/// flags that were set last.
pub proof fn law_tag_counts_live_uses(flags: u64, events: Seq<TagEvent>)
    requires
        is_course(events),
    ensures
        ({
            let tag = tag_after_all(MountInUseTag { refs: 0, flags }, events);
            tag.refs == live_uses(events) && tag.flags == flags_after(flags, events)
        }),
    decreases events.len(),
{
    if events.len() > 0 {
        law_tag_counts_live_uses(flags, events.drop_last());
    }
}

/// What watchers are told when an open file of theirs is closed.
#[derive(Clone, Copy, Debug, PartialEq, Eq, Structural)]
pub enum CloseEvent {
    /// It was open for writing.
    Written,
    /// It was not.
    NotWritten,
}

/// What watchers are told when a file is closed; only regular files are watched.
pub open spec fn close_event(file: OpenFile, watching: bool) -> Option<CloseEvent> {
    if watching && file.kind == InodeKind::Regular {
        if (OpenFlags { bits: file.flags_bits }).writable() {
            Some(CloseEvent::Written)
        } else {
            Some(CloseEvent::NotWritten)
        }
    } else {
        None
    }
}

impl OpenFile {
    /// Takes the end of an open file into account: its lock on the whole file goes, and watchers
    /// are told. Those come back who waited for the lock.
    pub fn closed(&self, flocks: &mut FlockTable, ofd_key: u64, watching: bool) -> (r: (
        Vec<Pid>,
        Option<CloseEvent>,
    ))
        requires
            old(flocks).wf(),
        ensures
            final(flocks).wf(),
            bsd::dropped(*old(flocks), *final(flocks), ofd_key, r.0@),
            r.1 == close_event(*self, watching),
    {
        let woken = bsd::drop_ofd(flocks, ofd_key);
        let event = if watching && self.kind == InodeKind::Regular {
            if self.flags().is_writable() {
                Some(CloseEvent::Written)
            } else {
                Some(CloseEvent::NotWritten)
            }
        } else {
            None
        };
        (woken, event)
    }
}

/// Whether a directory can be closed for new names: `listed` is how many names it has.
pub fn seal_if_empty_dir(kind: InodeKind, listed: Result<usize, i64>) -> (r: Result<(), i64>)
    ensures
        r == (if kind != InodeKind::Directory {
            Err::<(), i64>(errno::ENOTDIR)
        } else {
            match listed {
                Err(e) => Err::<(), i64>(e),
                Ok(n) => if n > 0 {
                    Err::<(), i64>(errno::ENOTEMPTY)
                } else {
                    Ok::<(), i64>(())
                },
            }
        }),
{
    if kind != InodeKind::Directory {
        return Err(errno::ENOTDIR);
    }
    match listed {
        Err(e) => Err(e),
        Ok(n) => {
            if n > 0 {
                Err(errno::ENOTEMPTY)
            } else {
                Ok(())
            }
        },
    }
}

} // verus!
