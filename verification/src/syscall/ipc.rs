//! Futexes, keys and shared memory: what is asked of their keepers.
use super::util;
use crate::bytes;
use crate::errno;
use vstd::prelude::*;

verus! {

pub const FUTEX_WAIT: u64 = 0;

pub const FUTEX_WAKE: u64 = 1;

pub const FUTEX_REQUEUE: u64 = 3;

pub const FUTEX_CMP_REQUEUE: u64 = 4;

pub const FUTEX_WAKE_OP: u64 = 5;

pub const FUTEX_LOCK_PI: u64 = 6;

pub const FUTEX_UNLOCK_PI: u64 = 7;

pub const FUTEX_TRYLOCK_PI: u64 = 8;

pub const FUTEX_WAIT_BITSET: u64 = 9;

pub const FUTEX_WAKE_BITSET: u64 = 10;

pub const FUTEX_WAIT_REQUEUE_PI: u64 = 11;

pub const FUTEX_CMP_REQUEUE_PI: u64 = 12;

pub const FUTEX_LOCK_PI2: u64 = 13;

pub const FUTEX_PRIVATE_FLAG: u64 = 0x80;

pub const FUTEX_CLOCK_REALTIME: u64 = 0x100;

pub const FUTEX_OP_MASK: u64 = !(FUTEX_PRIVATE_FLAG | FUTEX_CLOCK_REALTIME);

/// What is done on futexes of the caller's memory.
#[derive(Clone, Copy, PartialEq, Eq, Structural, Debug)]
pub enum FutexOp {
    Wait { uaddr: u64, val: i32, deadline: Option<u64> },
    Wake { uaddr: u64, count: u32 },
    WaitBitset { uaddr: u64, val: i32, bits: u32, deadline: Option<u64> },
    WakeBitset { uaddr: u64, count: u32, bits: u32 },
    Requeue { from: u64, to: u64, wake: u32, requeue: u32, expected: Option<i32> },
    WakeOp { uaddr: u64, uaddr2: u64, wake: u32, wake2: u32, op: u32 },
    LockPi { uaddr: u64, deadline: Option<u64> },
    UnlockPi { uaddr: u64 },
    TrylockPi { uaddr: u64 },
    WaitRequeuePi { uaddr: u64, val: i32, deadline: Option<u64>, to: u64 },
    RequeuePi { uaddr: u64, wake: u32, requeue: u32, to: u64, value: i32 },
}

/// What `futex` asks for. `time` is what was read at `timeout`.
pub open spec fn futex_request(
    uaddr: u64,
    op: u64,
    val: u64,
    timeout: u64,
    uaddr2: u64,
    val3: u64,
    time: Option<Seq<u8>>,
    now: u64,
) -> Result<FutexOp, i64> {
    let raw = op & FUTEX_OP_MASK;
    let relative = util::relative_deadline(timeout, time, now);
    let clock = if raw == FUTEX_LOCK_PI {
        0u64
    } else if raw == FUTEX_WAIT_REQUEUE_PI && op & FUTEX_CLOCK_REALTIME != 0 {
        0u64
    } else {
        1u64
    };
    let absolute = util::absolute_deadline(timeout, clock, time);
    if raw == FUTEX_WAIT {
        match relative {
            Err(e) => Err(e),
            Ok(deadline) => Ok(FutexOp::Wait { uaddr, val: val as i32, deadline }),
        }
    } else if raw == FUTEX_WAKE {
        Ok(FutexOp::Wake { uaddr, count: val as u32 })
    } else if raw == FUTEX_WAIT_BITSET {
        match relative {
            Err(e) => Err(e),
            Ok(deadline) => Ok(
                FutexOp::WaitBitset { uaddr, val: val as i32, bits: val3 as u32, deadline },
            ),
        }
    } else if raw == FUTEX_WAKE_BITSET {
        Ok(FutexOp::WakeBitset { uaddr, count: val as u32, bits: val3 as u32 })
    } else if raw == FUTEX_REQUEUE || raw == FUTEX_CMP_REQUEUE {
        Ok(
            FutexOp::Requeue {
                from: uaddr,
                to: uaddr2,
                wake: val as u32,
                requeue: timeout as u32,
                expected: if raw == FUTEX_REQUEUE {
                    None
                } else {
                    Some(val3 as i32)
                },
            },
        )
    } else if raw == FUTEX_WAKE_OP {
        Ok(
            FutexOp::WakeOp {
                uaddr,
                uaddr2,
                wake: val as u32,
                wake2: timeout as u32,
                op: val3 as u32,
            },
        )
    } else if raw == FUTEX_LOCK_PI || raw == FUTEX_LOCK_PI2 {
        match absolute {
            Err(e) => Err(e),
            Ok(deadline) => Ok(FutexOp::LockPi { uaddr, deadline }),
        }
    } else if raw == FUTEX_UNLOCK_PI {
        Ok(FutexOp::UnlockPi { uaddr })
    } else if raw == FUTEX_TRYLOCK_PI {
        Ok(FutexOp::TrylockPi { uaddr })
    } else if raw == FUTEX_WAIT_REQUEUE_PI {
        match absolute {
            Err(e) => Err(e),
            Ok(deadline) => Ok(
                FutexOp::WaitRequeuePi { uaddr, val: val as i32, deadline, to: uaddr2 },
            ),
        }
    } else if raw == FUTEX_CMP_REQUEUE_PI {
        Ok(
            FutexOp::RequeuePi {
                uaddr,
                wake: val as u32,
                requeue: timeout as u32,
                to: uaddr2,
                value: val3 as i32,
            },
        )
    } else {
        Err(errno::ENOSYS)
    }
}

/// `futex`
pub fn sys_futex(
    uaddr: u64,
    op: u64,
    val: u64,
    timeout: u64,
    uaddr2: u64,
    val3: u64,
    time: Option<Vec<u8>>,
    now: u64,
) -> (r: Result<FutexOp, i64>)
    requires
        time is Some ==> time->0@.len() == 16,
    ensures
        r == futex_request(
            uaddr,
            op,
            val,
            timeout,
            uaddr2,
            val3,
            util::bytes_view(time),
            now,
        ),
{
    let raw: u64 = op & FUTEX_OP_MASK;
    match raw {
        FUTEX_WAIT => match util::decode_timespec_relative_deadline(timeout, time, now) {
            Err(e) => Err(e),
            Ok(deadline) => Ok(FutexOp::Wait { uaddr, val: val as i32, deadline }),
        },
        FUTEX_WAKE => Ok(FutexOp::Wake { uaddr, count: val as u32 }),
        FUTEX_WAIT_BITSET => match util::decode_timespec_relative_deadline(timeout, time, now) {
            Err(e) => Err(e),
            Ok(deadline) => Ok(
                FutexOp::WaitBitset { uaddr, val: val as i32, bits: val3 as u32, deadline },
            ),
        },
        FUTEX_WAKE_BITSET => Ok(
            FutexOp::WakeBitset { uaddr, count: val as u32, bits: val3 as u32 },
        ),
        FUTEX_REQUEUE => Ok(
            FutexOp::Requeue {
                from: uaddr,
                to: uaddr2,
                wake: val as u32,
                requeue: timeout as u32,
                expected: None,
            },
        ),
        FUTEX_CMP_REQUEUE => Ok(
            FutexOp::Requeue {
                from: uaddr,
                to: uaddr2,
                wake: val as u32,
                requeue: timeout as u32,
                expected: Some(val3 as i32),
            },
        ),
        FUTEX_WAKE_OP => Ok(
            FutexOp::WakeOp {
                uaddr,
                uaddr2,
                wake: val as u32,
                wake2: timeout as u32,
                op: val3 as u32,
            },
        ),
        FUTEX_LOCK_PI | FUTEX_LOCK_PI2 => {
            let clock: u64 = if raw == FUTEX_LOCK_PI2 {
                1
            } else {
                0
            };
            match util::decode_timespec_absolute_or_relative(timeout, clock, time) {
                Err(e) => Err(e),
                Ok(deadline) => Ok(FutexOp::LockPi { uaddr, deadline }),
            }
        },
        FUTEX_UNLOCK_PI => Ok(FutexOp::UnlockPi { uaddr }),
        FUTEX_TRYLOCK_PI => Ok(FutexOp::TrylockPi { uaddr }),
        FUTEX_WAIT_REQUEUE_PI => {
            let clock: u64 = if op & FUTEX_CLOCK_REALTIME != 0 {
                0
            } else {
                1
            };
            match util::decode_timespec_absolute_or_relative(timeout, clock, time) {
                Err(e) => Err(e),
                Ok(deadline) => Ok(
                    FutexOp::WaitRequeuePi { uaddr, val: val as i32, deadline, to: uaddr2 },
                ),
            }
        },
        FUTEX_CMP_REQUEUE_PI => Ok(
            FutexOp::RequeuePi {
                uaddr,
                wake: val as u32,
                requeue: timeout as u32,
                to: uaddr2,
                value: val3 as i32,
            },
        ),
        _ => Err(errno::ENOSYS),
    }
}

/// `futex_wake`
pub fn sys_futex_wake(uaddr: u64, mask: u64, nr: u64, flags: u64) -> (r: Result<FutexOp, i64>)
    ensures
        r == (if (flags as u32) % 4 != util::FUTEX2_SIZE_U32 || mask == 0 {
            Err(errno::EINVAL)
        } else {
            Ok::<FutexOp, i64>(
                FutexOp::WakeBitset { uaddr, count: nr as u32, bits: mask as u32 },
            )
        }),
{
    if let Err(e) = util::validate_futex2_flags(flags as u32) {
        return Err(e);
    }
    if mask == 0 {
        return Err(errno::EINVAL);
    }
    Ok(FutexOp::WakeBitset { uaddr, count: nr as u32, bits: mask as u32 })
}

/// `futex_wait`
pub fn sys_futex_wait(
    uaddr: u64,
    val: u64,
    mask: u64,
    flags: u64,
    timeout: u64,
    clockid: u64,
    time: Option<Vec<u8>>,
) -> (r: Result<FutexOp, i64>)
    requires
        time is Some ==> time->0@.len() == 16,
    ensures
        r == (if (flags as u32) % 4 != util::FUTEX2_SIZE_U32 || mask == 0 {
            Err(errno::EINVAL)
        } else {
            match util::absolute_deadline(timeout, clockid, util::bytes_view(time)) {
                Err(e) => Err(e),
                Ok(deadline) => Ok::<FutexOp, i64>(
                    FutexOp::WaitBitset { uaddr, val: val as i32, bits: mask as u32, deadline },
                ),
            }
        }),
{
    if let Err(e) = util::validate_futex2_flags(flags as u32) {
        return Err(e);
    }
    if mask == 0 {
        return Err(errno::EINVAL);
    }
    match util::decode_timespec_absolute_or_relative(timeout, clockid, time) {
        Err(e) => Err(e),
        Ok(deadline) => Ok(
            FutexOp::WaitBitset { uaddr, val: val as i32, bits: mask as u32, deadline },
        ),
    }
}

/// `futex_requeue`, with the two futexes that were read.
pub fn sys_futex_requeue(buf: Option<Vec<u8>>, flags: u64, nr_wake: u64, nr_requeue: u64) -> (r:
    Result<FutexOp, i64>)
    requires
        buf is Some ==> buf->0@.len() == 48,
    ensures
        r == (if (flags as u32) % 4 != util::FUTEX2_SIZE_U32 {
            Err(errno::EINVAL)
        } else if buf is None {
            Err(errno::EFAULT)
        } else {
            Ok::<FutexOp, i64>(
                FutexOp::Requeue {
                    from: bytes::le64(buf->0@, 8),
                    to: bytes::le64(buf->0@, 32),
                    wake: nr_wake as u32,
                    requeue: nr_requeue as u32,
                    expected: Some(bytes::le64(buf->0@, 0) as i32),
                },
            )
        }),
{
    if let Err(e) = util::validate_futex2_flags(flags as u32) {
        return Err(e);
    }
    match buf {
        None => Err(errno::EFAULT),
        Some(b) => Ok(
            FutexOp::Requeue {
                from: bytes::u64_at(&b, 8),
                to: bytes::u64_at(&b, 32),
                wake: nr_wake as u32,
                requeue: nr_requeue as u32,
                expected: Some(bytes::u64_at(&b, 0) as i32),
            },
        ),
    }
}

/// The most futexes that one call waits for.
pub const FUTEX_WAITV_MAX: u64 = 128;

/// One of several futexes that are waited for.
#[derive(Clone, Copy, PartialEq, Eq, Structural, Debug)]
pub struct Waiter {
    pub uaddr: u64,
    pub val: u32,
}

/// How many futexes are read.
pub fn futex_waitv_len(nr_futexes: u64, flags: u64) -> (r: Result<u64, i64>)
    ensures
        r == (if flags != 0 || nr_futexes == 0 || nr_futexes > FUTEX_WAITV_MAX {
            Err(errno::EINVAL)
        } else {
            Ok::<u64, i64>(nr_futexes)
        }),
{
    if flags != 0 {
        return Err(errno::EINVAL);
    }
    if nr_futexes == 0 || nr_futexes > FUTEX_WAITV_MAX {
        return Err(errno::EINVAL);
    }
    Ok(nr_futexes)
}

pub open spec fn waiters_in(buf: Seq<u8>) -> Seq<Waiter> {
    Seq::new(
        (buf.len() / 24) as nat,
        |i: int|
            Waiter { uaddr: bytes::le64(buf, 24 * i + 8), val: bytes::le64(buf, 24 * i) as u32 },
    )
}

pub open spec fn size_is_right(buf: Seq<u8>, i: int) -> bool {
    bytes::le32(buf, 24 * i + 16) % 4 == util::FUTEX2_SIZE_U32
}

pub open spec fn sizes_are_right(buf: Seq<u8>) -> bool {
    forall|i: int| 0 <= i < buf.len() / 24 ==> #[trigger] size_is_right(buf, i)
}

/// `futex_waitv`, with the futexes that were read: those waited for and until when.
pub fn sys_futex_waitv(buf: Option<Vec<u8>>, timeout: u64, clockid: u64, time: Option<Vec<u8>>) -> (r:
    Result<(Vec<Waiter>, Option<u64>), i64>)
    requires
        buf is Some ==> buf->0@.len() % 24 == 0,
        time is Some ==> time->0@.len() == 16,
    ensures
        ({
            let deadline = util::absolute_deadline(timeout, clockid, util::bytes_view(time));
            match r {
                Ok((w, d)) => buf is Some && sizes_are_right(buf->0@) && deadline
                    == Ok::<Option<u64>, i64>(d) && w@ == waiters_in(buf->0@),
                Err(e) => if buf is None {
                    e == errno::EFAULT
                } else if !sizes_are_right(buf->0@) {
                    e == errno::EINVAL
                } else {
                    deadline == Err::<Option<u64>, i64>(e)
                },
            }
        }),
{
    let b = match buf {
        Some(b) => b,
        None => {
            return Err(errno::EFAULT);
        },
    };
    let n: usize = b.len() / 24;
    let mut entries: Vec<Waiter> = Vec::new();
    let mut i: usize = 0;
    while i < n
        invariant
            i <= n,
            buf is Some,
            buf->0@ == b@,
            n == b@.len() / 24,
            entries@.len() == i,
            forall|j: int| 0 <= j < i ==> entries@[j] == #[trigger] waiters_in(b@)[j],
            forall|j: int| 0 <= j < i ==> #[trigger] size_is_right(b@, j),
        decreases n - i,
    {
        assert(24 * i + 24 <= b.len());
        let at: usize = 24 * i;
        if let Err(e) = util::validate_futex2_flags(bytes::u32_at(&b, at + 16)) {
            assert(!size_is_right(b@, i as int));
            return Err(e);
        }
        assert(size_is_right(b@, i as int));
        entries.push(
            Waiter { uaddr: bytes::u64_at(&b, at + 8), val: bytes::u64_at(&b, at) as u32 },
        );
        i += 1;
    }
    assert(entries@ =~= waiters_in(b@));
    match util::decode_timespec_absolute_or_relative(timeout, clockid, time) {
        Err(e) => Err(e),
        Ok(d) => Ok((entries, d)),
    }
}

pub const KEYCTL_GET_KEYRING_ID: u64 = 0;

pub const KEYCTL_JOIN_SESSION_KEYRING: u64 = 1;

pub const KEYCTL_DESCRIBE: u64 = 6;

/// The one keyring that there is.
pub const SESSION_KEYRING: i64 = 1;

pub const ENOKEY: i64 = -126;

/// `keyctl`: there is a keyring, and no key in it.
pub fn sys_keyctl(option: u64) -> (code: i64)
    ensures
        code == (if option == KEYCTL_JOIN_SESSION_KEYRING || option == KEYCTL_GET_KEYRING_ID {
            SESSION_KEYRING
        } else if option == KEYCTL_DESCRIBE {
            ENOKEY
        } else {
            errno::EOPNOTSUPP
        }),
{
    match option {
        KEYCTL_JOIN_SESSION_KEYRING | KEYCTL_GET_KEYRING_ID => SESSION_KEYRING,
        KEYCTL_DESCRIBE => ENOKEY,
        _ => errno::EOPNOTSUPP,
    }
}

/// What is asked of the keeper of shared memory.
#[derive(Clone, Copy, PartialEq, Eq, Structural, Debug)]
pub enum ShmOp {
    Get { key: i32, size: u64, flags: u32 },
    Attach { id: i32, addr: u64, flags: u32 },
    Detach { addr: u64 },
    Control { id: i32, cmd: i32, buf: u64 },
}

/// `shmget`
pub fn sys_shmget(key: u64, size: u64, flags: u64) -> (r: ShmOp)
    ensures
        r == (ShmOp::Get { key: key as i32, size, flags: flags as u32 }),
{
    ShmOp::Get { key: key as i32, size, flags: flags as u32 }
}

/// `shmat`: not on borrowed memory.
pub fn sys_shmat(borrower: bool, shmid: u64, addr: u64, flags: u64) -> (r: Result<ShmOp, i64>)
    ensures
        r == (if borrower {
            Err(errno::ENOMEM)
        } else {
            Ok::<ShmOp, i64>(ShmOp::Attach { id: shmid as i32, addr, flags: flags as u32 })
        }),
{
    if borrower {
        return Err(errno::ENOMEM);
    }
    Ok(ShmOp::Attach { id: shmid as i32, addr, flags: flags as u32 })
}

/// `shmdt`: not on borrowed memory.
pub fn sys_shmdt(borrower: bool, addr: u64) -> (r: Result<ShmOp, i64>)
    ensures
        r == (if borrower {
            Err(errno::EINVAL)
        } else {
            Ok::<ShmOp, i64>(ShmOp::Detach { addr })
        }),
{
    if borrower {
        return Err(errno::EINVAL);
    }
    Ok(ShmOp::Detach { addr })
}

/// `shmctl`
pub fn sys_shmctl(shmid: u64, cmd: u64, buf: u64) -> (r: ShmOp)
    ensures
        r == (ShmOp::Control { id: shmid as i32, cmd: cmd as i32, buf }),
{
    ShmOp::Control { id: shmid as i32, cmd: cmd as i32, buf }
}

} // verus!
