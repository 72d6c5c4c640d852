//! Calls that give two descriptors at once: pipes and pairs of sockets.
use crate::bytes;
use crate::errno;
use crate::syscall::event;
use crate::vfs::fd;
use crate::vfs::fd::{FdTable, OpenFd};
use vstd::prelude::*;

verus! {

/// What installing two descriptors comes to: both or none.
pub open spec fn pair_installed(
    before: FdTable,
    after: FdTable,
    first: u64,
    second: u64,
    fd_flags: u8,
    result: Result<(i32, i32), i64>,
) -> bool {
    match result {
        Ok((a, b)) => {
            let one = before@.insert(a as int, OpenFd { file: first, fd_flags });
            &&& fd::is_lowest_free(before@, 0, a as int)
            &&& fd::is_lowest_free(one, 0, b as int)
            &&& after@ == one.insert(b as int, OpenFd { file: second, fd_flags })
            &&& after.cap == before.cap
            &&& after.reach() == fd::reach_with(
                fd::reach_with(before.reach(), a as int),
                b as int,
            )
        },
        Err(e) => {
            &&& after@ == before@
            &&& after.cap == before.cap
            &&& if before.cap == 0 {
                e == errno::EINVAL && after == before
            } else {
                e == errno::EMFILE && ((is_full(before) && after == before) || exists|
                    middle: FdTable,
                    a: i32,
                | #[trigger]
                    fd::installed(
                        before,
                        middle,
                        first,
                        0,
                        fd_flags,
                        Ok::<i32, i32>(a),
                    ) && is_full(middle) && after.reach() == middle.reach())
            }
        },
    }
}

/// There is no room for another descriptor.
pub open spec fn is_full(table: FdTable) -> bool {
    exists|n: int| #[trigger]
        fd::is_lowest_free(table@, 0, n) && table.cap <= n && table.reach() <= n
}

/// Installs two descriptors, or none where there is no room for both.
pub fn install_pair(table: &mut FdTable, first: u64, second: u64, fd_flags: u8) -> (r: Result<
    (i32, i32),
    i64,
>)
    requires
        old(table).wf(),
    ensures
        final(table).wf(),
        pair_installed(*old(table), *final(table), first, second, fd_flags, r),
{
    let ghost before = table@;
    let a: i32 = match table.install_from(first, 0, fd_flags) {
        Ok(a) => a,
        Err(e) => {
            return Err(e as i64);
        },
    };
    let ghost middle = *table;
    assert(fd::installed(*old(table), middle, first, 0, fd_flags, Ok::<i32, i32>(a)));
    match table.install_from(second, 0, fd_flags) {
        Ok(b) => Ok((a, b)),
        Err(e) => {
            assert(is_full(middle));
            let _ = table.remove(a);
            assert(table@ =~= before);
            Err(e as i64)
        },
    }
}

/// Installs the two ends of a pipe: for reading, and for writing.
pub fn sys_pipe2(table: &mut FdTable, read_end: u64, write_end: u64, flags: u64) -> (r: Result<
    (i32, i32),
    i64,
>)
    requires
        old(table).wf(),
    ensures
        final(table).wf(),
        pair_installed(
            *old(table),
            *final(table),
            read_end,
            write_end,
            if flags & event::CLOEXEC != 0 {
                fd::FD_CLOEXEC
            } else {
                0
            },
            r,
        ),
{
    let fd_flags: u8 = if flags & event::CLOEXEC != 0 {
        fd::FD_CLOEXEC
    } else {
        0
    };
    install_pair(table, read_end, write_end, fd_flags)
}

/// Two descriptors as the caller gets them.
pub fn pair_bytes(a: i32, b: i32) -> (out: Vec<u8>)
    ensures
        out@ == bytes::put32(a as u32) + bytes::put32(b as u32),
{
    let mut out: Vec<u8> = Vec::new();
    bytes::push_u32(&mut out, a as u32);
    bytes::push_u32(&mut out, b as u32);
    assert(out@ =~= bytes::put32(a as u32) + bytes::put32(b as u32));
    out
}

/// The answer once the caller was told of two descriptors: one that could not be told does
/// not keep them.
pub fn pair_told(table: &mut FdTable, a: i32, b: i32, told: bool) -> (code: i64)
    requires
        old(table).wf(),
    ensures
        final(table).wf(),
        code == (if told {
            0
        } else {
            errno::EFAULT
        }),
        final(table)@ == (if told {
            old(table)@
        } else {
            old(table)@.remove(a as int).remove(b as int)
        }),
        final(table).cap == old(table).cap,
        final(table).reach() == old(table).reach(),
{
    if told {
        return 0;
    }
    let _ = table.remove(a);
    let _ = table.remove(b);
    errno::EFAULT
}

/// A call that fails leaves no descriptor behind, wherever it fails.
pub proof fn law_failed_pair_leaves_nothing(
    before: FdTable,
    after: FdTable,
    first: u64,
    second: u64,
    fd_flags: u8,
    result: Result<(i32, i32), i64>,
)
    requires
        pair_installed(before, after, first, second, fd_flags, result),
    ensures
        result is Err ==> after@ == before@,
        result is Ok ==> after@.remove(result->Ok_0.0 as int).remove(result->Ok_0.1 as int)
            == before@,
{
    if result is Ok {
        let (a, b) = result->Ok_0;
        assert(after@.remove(a as int).remove(b as int) =~= before@);
    }
}

} // verus!
