//! Open files: where reading and writing goes on, what a descriptor stands for, and what the
//! flags of an open file mean.

use vstd::prelude::*;

use super::bits;
use crate::bytes;
use crate::numeral;
use crate::syscall::event;
use crate::syscall::fs::file_io;
use crate::syscall::fs::inotify;
use crate::syscall::fs::locks;
use crate::syscall::fs::open;
use crate::syscall::fs::open::Pty;
use crate::vfs;
use crate::vfs::fd;
use crate::vfs::fd::FdTable;
use crate::vfs::pipe;
use crate::vfs::{CloseEvent, InodeKind, OpenFile, OpenFlags};

verus! {

/// A seek with the number `0` counts from the start of the file, with `1` from where reading
/// and writing goes on, and with `2` from the end; no other number is known.
pub proof fn law_seek_counts_from_start_offset_or_end(
    file: OpenFile,
    size: u64,
    whence: u64,
    by: i64,
)
    requires
        file.offset <= i64::MAX,
        size <= i64::MAX,
    ensures
        file_io::whence_of(whence) is Some == (whence <= 2),
        whence == 0 ==> file.seek_base(file_io::whence_of(whence)->0, size) + by == by,
        whence == 1 ==> file.seek_base(file_io::whence_of(whence)->0, size) + by == file.offset
            + by,
        whence == 2 ==> file.seek_base(file_io::whence_of(whence)->0, size) + by == size + by,
{
}

/// The lowest two bits of its flags say how a file may be used: `1` for writing alone, `0` for
/// reading alone, and otherwise for both.
pub proof fn law_access_is_in_the_lowest_bits(bits: u32)
    ensures
        ({
            let flags = OpenFlags { bits };
            &&& flags.readable() == (bits % 4 != 1)
            &&& flags.writable() == (bits % 4 != 0)
            &&& open::access_wanted(flags) == (if bits % 4 == 0 {
                4int
            } else if bits % 4 == 1 {
                2
            } else {
                6
            })
        }),
{
    bits::lemma_open_bits(bits);
}

/// A file is opened where it is of the kind asked for and where the mount allows it: a directory
/// is not written, nothing is written or made on a read-only mount, and a device is not opened
/// where there are to be none. A regular file that is to be cut is cut where it may be written.
pub proof fn law_kinds_and_mounts_decide_on_opening(
    kind: InodeKind,
    bits: u32,
    mount_flags: u64,
)
    ensures
        ({
            let r = open::open_allowed(kind, OpenFlags { bits }, mount_flags);
            let writes = bits % 4 != 0;
            let cuts = (bits / 0o1000) % 2 == 1;
            let makes = (bits / 0o100) % 2 == 1;
            let wants_directory = (bits / 0o200000) % 2 == 1;
            let directory = kind == InodeKind::Directory;
            let read_only = mount_flags % 2 == 1;
            let no_devices = (mount_flags / 4) % 2 == 1;
            &&& wants_directory && !directory ==> r == Err::<bool, i64>(-20i64)
            &&& directory && (writes || cuts) ==> r == Err::<bool, i64>(-21i64)
            &&& !wants_directory && !directory && read_only && (writes || cuts || makes) ==> r
                == Err::<bool, i64>(-30i64)
            &&& !wants_directory && kind == InodeKind::CharDevice && no_devices && !writes && !cuts
                && !makes ==> r == Err::<bool, i64>(-13i64)
            &&& r is Ok ==> !(read_only && (writes || cuts || makes)) && !(directory && (writes
                || cuts)) && !(wants_directory && !directory) && !(no_devices && kind
                == InodeKind::CharDevice)
            &&& r matches Ok(cut) ==> cut == (cuts && writes && kind == InodeKind::Regular)
            &&& !read_only && !no_devices && !wants_directory && !directory ==> r is Ok
            &&& directory && !writes && !cuts && !read_only ==> r is Ok
        }),
{
    bits::lemma_open_bits(bits);
    bits::lemma_low_bits(mount_flags);
}

/// Of a regular file that is watched, it is told on closing whether it was open for writing.
pub proof fn law_closing_tells_of_writing(file: OpenFile, watching: bool)
    ensures
        vfs::close_event(file, watching) == (if !watching || file.kind != InodeKind::Regular {
            None
        } else if file.flags_bits % 4 == 0 {
            Some(CloseEvent::NotWritten)
        } else {
            Some(CloseEvent::Written)
        }),
{
    bits::lemma_open_bits(file.flags_bits);
}

/// A duplicate stands for the file that the first descriptor stands for. No other descriptor is
/// changed, and a file that the number stood for is handed out. What is not open cannot be
/// duplicated, and nothing changes then.
pub proof fn law_duplicate_stands_for_the_same_file(
    before: FdTable,
    after: FdTable,
    src: i32,
    dst: i32,
    fd_flags: u8,
    code: i64,
    displaced: Option<u64>,
    other: int,
)
    requires
        file_io::dup_result(before, after, src, dst, fd_flags, code, displaced),
    ensures
        other != dst ==> after.file_at(other) == before.file_at(other),
        code >= 0 ==> code == dst && after.file_at(dst as int) == before.file_at(src as int)
            && after.file_at(dst as int) is Some,
        code >= 0 && src != dst ==> displaced == before.file_at(dst as int)
            && after@[dst as int].fd_flags == fd_flags,
        code < 0 ==> code == -9 && after == before && displaced is None,
        0 <= src < before.cap && 0 <= dst < before.cap && before.file_at(src as int) is Some
            ==> code >= 0,
{
}

/// What is made room for lies between the offset and as many bytes behind it. The file grows to
/// that end where it does not reach it, unless it is to keep its size; a hole is made only within
/// a file that keeps its size.
pub proof fn law_room_is_made_where_asked(size: u64, mode: u64, offset: u64, len: u64)
    requires
        offset + len <= u64::MAX,
    ensures
        ({
            let r = file_io::allocate_request(size, mode, offset, len);
            let keep = mode % 2 == 1;
            let hole = (mode / 2) % 2 == 1;
            let zero = (mode / 0x10) % 2 == 1;
            &&& hole && !keep ==> r is Err && r->Err_0 == -22
            &&& !hole || keep ==> r is Ok
            &&& r matches Ok(a) ==> {
                &&& a.resize == (if !keep && size < offset + len {
                    Some((offset + len) as u64)
                } else {
                    None
                })
                &&& a.zero_from == offset
                &&& hole ==> a.zero_to == (if offset + len < size {
                    offset + len
                } else {
                    size as int
                })
                &&& !hole && zero ==> a.zero_to == offset + len
                &&& !hole && !zero ==> a.zero_to == a.zero_from
            }
        }),
{
    bits::lemma_low_bits(mode);
}

/// At most `0x40000` bytes are read or written at a time.
pub proof fn law_counts_are_cut(count: u64)
    ensures
        file_io::at_most(count, file_io::READ_BUF_MAX) <= 0x4_0000,
        count <= 0x4_0000 ==> file_io::at_most(count, file_io::READ_BUF_MAX) == count,
        count > 0x4_0000 ==> file_io::at_most(count, file_io::READ_BUF_MAX) == 0x4_0000,
{
}

/// A place in a file moves on by what was moved, and an offset in memory is taken where there is
/// one.
pub proof fn law_offsets_move_on(at: u64, n: u64, ptr: u64, read: Option<u64>)
    requires
        at + n <= u64::MAX,
    ensures
        file_io::moved_by(Some(at), n) == Some((at + n) as u64),
        file_io::moved_by(None, n) is None,
        file_io::given_offset(ptr, read) is None == (ptr == 0),
        ptr != 0 && read is Some ==> file_io::given_offset(ptr, read) == read,
        ptr != 0 && read is None ==> file_io::given_offset(ptr, read) == Some(0u64),
{
}

/// The request in twenty-four bytes: the flags, the mode, and how to walk. To walk without links
/// adds the flag of not following one, and changes no other.
pub proof fn law_request_to_open_is_read_as_it_stands(size: u64, b: Seq<u8>)
    ensures
        ({
            let r = open::how_to_open(size, Some(b));
            let walking = bytes::le64(b, 16);
            &&& r is Ok == (size == 24 && walking < 0x40)
            &&& r is Err ==> r->Err_0 == -22
            &&& size == 24 ==> open::how_to_open(size, None) == Err::<(u64, u64), i64>(-14i64)
            &&& r matches Ok((flags, mode)) ==> {
                &&& mode == bytes::le64(b, 8)
                &&& (walking / 4) % 2 == 0 ==> flags == bytes::le64(b, 0)
                &&& (walking / 4) % 2 == 1 ==> (flags / 0o400000) % 2 == 1 && flags % 0o400000
                    == bytes::le64(b, 0) % 0o400000 && flags / 0o1000000 == bytes::le64(b, 0)
                    / 0o1000000
            }
        }),
{
    bits::lemma_walking_bits(bytes::le64(b, 16), bytes::le64(b, 0));
    bits::lemma_low_bits(bytes::le64(b, 16));
}

/// The slave of a pseudo terminal is opened by the number that it has, where there is such a one.
pub proof fn law_terminal_is_opened_by_its_number(known: Seq<u32>, n: u32)
    ensures
        open::pty_at("/dev/pts/"@ + numeral::digits_of(n as nat), known) == (if known.contains(n) {
            Some(Pty::Slave(n))
        } else {
            None
        }),
        open::pty_at("/dev/ptmx"@, known) == Some(Pty::Master),
{
    let head = "/dev/pts/"@;
    let digits = numeral::digits_of(n as nat);
    let full = head + digits;
    reveal_strlit("/dev/pts/");
    reveal_strlit("/dev/ptmx");
    numeral::law_number_is_read_back(n);
    assert(full.take(head.len() as int) =~= head);
    assert(full.skip(head.len() as int) =~= digits);
    assert(full != "/dev/ptmx"@) by {
        assert(full[7] == 's');
        assert("/dev/ptmx"@[7] == 'm');
    }
}

/// A new descriptor is the lowest that is free, and stands for the file; no other changes. Where
/// none is free, nothing does.
pub proof fn law_new_descriptor_is_the_lowest_free(
    before: FdTable,
    after: FdTable,
    file: u64,
    fd_flags: u8,
    code: i64,
    other: int,
)
    requires
        event::new_fd(before, after, file, fd_flags, code),
        before.cap > 0,
    ensures
        code >= 0 ==> {
            &&& before.file_at(code as int) is None
            &&& after.file_at(code as int) == Some(file)
            &&& after@[code as int].fd_flags == fd_flags
            &&& 0 <= other < code ==> before.file_at(other) is Some
            &&& other != code ==> after.file_at(other) == before.file_at(other)
        },
        code < 0 ==> code == -24 && after == before,
{
    if code >= 0 && 0 <= other < code {
        assert(before@.contains_key(other));
    }
}

/// Descriptors from one number to another are closed, and no others.
pub proof fn law_descriptors_between_are_closed(
    open: Map<int, fd::OpenFd>,
    first: int,
    last: int,
    n: int,
)
    ensures
        ({
            let after = open::closed_between(open, first, last);
            &&& after.contains_key(n) == (open.contains_key(n) && !(first <= n <= last))
            &&& after.contains_key(n) ==> after[n] == open[n]
        }),
{
}

/// Descriptors that are so marked are closed when a program is run; all are when a process ends.
pub proof fn law_marked_descriptors_are_closed(slots: Seq<fd::Slot>, only_marked: bool, i: int)
    requires
        0 <= i < slots.len(),
        slots[i].file is Some,
        !only_marked || slots[i].fd_flags == 1,
    ensures
        fd::closed_files(slots, only_marked).contains(slots[i].file->0),
    decreases slots.len(),
{
    let front = slots.drop_last();
    bits::lemma_set_bits(0);
    if i < slots.len() - 1 {
        assert(front[i] == slots[i]);
        law_marked_descriptors_are_closed(front, only_marked, i);
        let file = slots[i].file->0;
        let k = choose|k: int|
            0 <= k < fd::closed_files(front, only_marked).len() && fd::closed_files(
                front,
                only_marked,
            )[k] == file;
        if fd::closes(slots.last(), only_marked) {
            assert(fd::closed_files(slots, only_marked)[k] == file);
        }
    } else {
        let all = fd::closed_files(slots, only_marked);
        assert(fd::closes(slots.last(), only_marked));
        assert(all[all.len() - 1] == slots[i].file->0);
    }
}

/// A descriptor that is not marked stays open when a program is run.
pub proof fn law_unmarked_descriptors_stay(slot: fd::Slot)
    requires
        slot.fd_flags == 0,
    ensures
        !fd::closes(slot, true),
        fd::closes(slot, false) == (slot.file is Some),
{
    bits::lemma_set_bits(0);
}

/// Pipes and sockets are streams, which have nothing to be written back.
pub proof fn law_streams(kind: InodeKind)
    ensures
        file_io::is_stream(kind) == (kind == InodeKind::Pipe || kind == InodeKind::Socket),
{
}

/// A pipe holds `65536` bytes at most, and what does not fit waits.
pub proof fn law_pipes_have_room(pending: Seq<u8>, data: Seq<u8>, readers: u32)
    requires
        pending.len() <= 65536,
    ensures
        ({
            let put = pipe::put_in(pending, readers, data);
            &&& readers == 0 ==> put.len() == 0
            &&& readers > 0 && pending.len() + data.len() <= 65536 ==> put == data
            &&& readers > 0 && pending.len() + data.len() > 65536 ==> put == data.take(
                65536 - pending.len(),
            )
        }),
        forall|n: int|
            0 <= n <= pending.len() ==> #[trigger] pipe::taken_out(pending, n) == pending.take(n),
{
    if readers > 0 && pending.len() + data.len() <= 65536 {
        assert(data.take(data.len() as int) =~= data);
    }
}

/// A duplicate is the lowest descriptor from a number on that is free, and stands for the same
/// file; no other changes.
pub proof fn law_duplicate_is_the_lowest_free_from_a_number(
    before: FdTable,
    after: FdTable,
    file: u64,
    min: i32,
    fd_flags: u8,
    code: i64,
    other: int,
)
    requires
        locks::duplicated(before, after, file, min, fd_flags, code),
        0 <= min < before.cap,
    ensures
        code >= 0 ==> {
            &&& code >= min
            &&& before.file_at(code as int) is None
            &&& after.file_at(code as int) == Some(file)
            &&& after@[code as int].fd_flags == fd_flags
            &&& min <= other < code ==> before.file_at(other) is Some
            &&& other != code ==> after.file_at(other) == before.file_at(other)
        },
        code < 0 ==> code == -24 && after == before,
{
    let result = choose|result: Result<i32, i32>|
        {
            &&& #[trigger] fd::installed(before, after, file, min, fd_flags, result)
            &&& code == (match result {
                Ok(n) => n as i64,
                Err(_) => -24i64,
            })
        };
    assert(fd::installed(before, after, file, min, fd_flags, result));
    if code >= 0 && min <= other < code {
        assert(before@.contains_key(other));
    }
}

/// What is read fills the front of the buffer, and the rest of it stays.
pub proof fn law_read_fills_the_front(
    before: Seq<u8>,
    after: Seq<u8>,
    data: Seq<u8>,
    n: int,
    i: int,
)
    requires
        0 <= n <= before.len(),
        n <= data.len(),
        0 <= i < before.len(),
        pipe::filled(before, after, data, n),
    ensures
        after.len() == before.len(),
        after[i] == (if i < n {
            data[i]
        } else {
            before[i]
        }),
{
}

/// Descriptors are marked by the lowest bit of their flags.
pub proof fn law_marked_descriptors(open: Map<int, fd::OpenFd>, n: int)
    ensures
        !open.contains_key(n) ==> !fd::marked_cloexec(open, n),
        open.contains_key(n) && open[n].fd_flags == 1 ==> fd::marked_cloexec(open, n),
        open.contains_key(n) && open[n].fd_flags == 0 ==> !fd::marked_cloexec(open, n),
{
    bits::lemma_set_bits(0);
}

/// A watcher does not wait where it is so asked.
pub proof fn law_watcher_does_not_wait_where_asked(flags: u32)
    ensures
        inotify::watcher_flags(flags).bits == (if (flags / 0x800) % 2 == 1 {
            0x800u32
        } else {
            0u32
        }),
{
    bits::lemma_open_bits(flags);
}

} // verus!
