//! What several calls have in common: times and strings from the caller's memory.
use crate::bytes;
use crate::errno;
use crate::syscall::fs::paths;
use crate::text;
use crate::vfs;
use crate::vfs::TimeSpec;
use vstd::prelude::*;

verus! {

pub const NANOS: u64 = 1_000_000_000;

/// Seconds and nanoseconds as nanoseconds, or the most that can be told.
pub open spec fn nanos_of(sec: u64, nsec: u64) -> u64 {
    if sec * NANOS + nsec > u64::MAX {
        u64::MAX
    } else {
        (sec * NANOS + nsec) as u64
    }
}

/// The time after a while, or the last one that can be told.
pub open spec fn later(now: u64, by: u64) -> u64 {
    if now + by > u64::MAX {
        u64::MAX
    } else {
        (now + by) as u64
    }
}

pub fn total_nanos(sec: u64, nsec: u64) -> (r: u64)
    ensures
        r == nanos_of(sec, nsec),
{
    match sec.checked_mul(NANOS) {
        Some(x) => x.saturating_add(nsec),
        None => u64::MAX,
    }
}

/// A time as bytes: seconds, then nanoseconds.
pub open spec fn packed_time(sec: i64, nsec: i64) -> Seq<u8> {
    bytes::put64(sec as u64) + bytes::put64(nsec as u64)
}

/// A time for the caller.
pub fn write_timespec(sec: i64, nsec: i64) -> (b: Vec<u8>)
    ensures
        b@ == packed_time(sec, nsec),
        b@.len() == 16,
{
    let mut b: Vec<u8> = Vec::new();
    bytes::push_u64(&mut b, sec as u64);
    bytes::push_u64(&mut b, nsec as u64);
    assert(b@ =~= packed_time(sec, nsec));
    b
}

/// Nanoseconds as seconds and the rest.
pub fn split_secs_nsecs(nanos: u64) -> (r: (i64, i64))
    ensures
        r.0 == nanos / NANOS,
        r.1 == nanos % NANOS,
        r.0 * NANOS + r.1 == nanos,
        0 <= r.1 < NANOS,
{
    ((nanos / NANOS) as i64, (nanos % NANOS) as i64)
}

pub open spec fn time_in(buf: Seq<u8>) -> TimeSpec {
    TimeSpec { sec: bytes::le64(buf, 0) as i64, nsec: (bytes::le64(buf, 8) as i64) as i32 }
}

/// A time from the caller.
pub fn read_timespec(buf: Option<Vec<u8>>) -> (r: Result<TimeSpec, i64>)
    requires
        buf is Some ==> buf->0@.len() == 16,
    ensures
        r == (if buf is None {
            Err(errno::EFAULT)
        } else {
            Ok::<TimeSpec, i64>(time_in(buf->0@))
        }),
{
    match buf {
        None => Err(errno::EFAULT),
        Some(b) => Ok(
            TimeSpec {
                sec: bytes::u64_at(&b, 0) as i64,
                nsec: (bytes::u64_at(&b, 8) as i64) as i32,
            },
        ),
    }
}

/// How long a time lasts, where it is one.
pub open spec fn duration_in(buf: Option<Seq<u8>>) -> Result<u64, i64> {
    if buf is None {
        Err(errno::EFAULT)
    } else if bytes::le64(buf->0, 8) >= NANOS {
        Err(errno::EINVAL)
    } else {
        Ok(nanos_of(bytes::le64(buf->0, 0), bytes::le64(buf->0, 8)))
    }
}

pub open spec fn bytes_view(buf: Option<Vec<u8>>) -> Option<Seq<u8>> {
    match buf {
        Some(b) => Some(b@),
        None => None,
    }
}

/// Reads how long a time lasts.
pub fn read_duration(buf: Option<Vec<u8>>) -> (r: Result<u64, i64>)
    requires
        buf is Some ==> buf->0@.len() == 16,
    ensures
        r == duration_in(bytes_view(buf)),
{
    match buf {
        None => Err(errno::EFAULT),
        Some(b) => {
            let sec: u64 = bytes::u64_at(&b, 0);
            let nsec: u64 = bytes::u64_at(&b, 8);
            if nsec >= NANOS {
                return Err(errno::EINVAL);
            }
            Ok(total_nanos(sec, nsec))
        },
    }
}

/// The end of a wait that lasts as long as the caller says; none without a time.
pub open spec fn relative_deadline(addr: u64, buf: Option<Seq<u8>>, now: u64) -> Result<
    Option<u64>,
    i64,
> {
    if addr == 0 {
        Ok(None)
    } else {
        match duration_in(buf) {
            Err(e) => Err(e),
            Ok(d) => Ok(Some(later(now, d))),
        }
    }
}

/// The end of a wait that lasts as long as the caller says.
pub fn decode_timespec_relative_deadline(addr: u64, buf: Option<Vec<u8>>, now: u64) -> (r: Result<
    Option<u64>,
    i64,
>)
    requires
        buf is Some ==> buf->0@.len() == 16,
    ensures
        r == relative_deadline(addr, bytes_view(buf), now),
{
    if addr == 0 {
        return Ok(None);
    }
    match read_duration(buf) {
        Err(e) => Err(e),
        Ok(d) => Ok(Some(now.saturating_add(d))),
    }
}

/// The end of a wait that ends when the caller says, by one of two clocks.
pub open spec fn absolute_deadline(addr: u64, clockid: u64, buf: Option<Seq<u8>>) -> Result<
    Option<u64>,
    i64,
> {
    if addr == 0 {
        Ok(None)
    } else if clockid > 1 {
        Err(errno::EINVAL)
    } else {
        match duration_in(buf) {
            Err(e) => Err(e),
            Ok(d) => Ok(Some(d)),
        }
    }
}

/// The end of a wait that ends when the caller says.
pub fn decode_timespec_absolute_or_relative(
    addr: u64,
    clockid: u64,
    buf: Option<Vec<u8>>,
) -> (r: Result<Option<u64>, i64>)
    requires
        buf is Some ==> buf->0@.len() == 16,
    ensures
        r == absolute_deadline(addr, clockid, bytes_view(buf)),
{
    if addr == 0 {
        return Ok(None);
    }
    if clockid != 0 && clockid != 1 {
        return Err(errno::EINVAL);
    }
    match read_duration(buf) {
        Err(e) => Err(e),
        Ok(d) => Ok(Some(d)),
    }
}

/// The size that a futex is to have, by the two lowest bits of its flags.
pub const FUTEX2_SIZE_U32: u32 = 2;

/// Whether flags ask for a futex of four bytes.
pub fn validate_futex2_flags(flags: u32) -> (r: Result<(), i64>)
    ensures
        r == (if flags % 4 == FUTEX2_SIZE_U32 {
            Ok::<(), i64>(())
        } else {
            Err(errno::EINVAL)
        }),
{
    if flags % 4 != FUTEX2_SIZE_U32 {
        return Err(errno::EINVAL);
    }
    Ok(())
}

/// Whether a caller may set the time: the superuser alone. `None` stands for a caller that is
/// gone.
pub fn caller_can_set_time(euid: Option<u32>) -> (r: bool)
    ensures
        r == (euid == Some(0u32)),
{
    match euid {
        Some(id) => id == 0,
        None => false,
    }
}

/// Where a string ends: the first zero from a place on, or the end of the bytes.
pub open spec fn string_end(buf: Seq<u8>, from: int) -> int
    decreases buf.len() - from,
{
    if from < 0 || from >= buf.len() || buf[from] == 0 {
        from
    } else {
        string_end(buf, from + 1)
    }
}

/// The string that a caller gives: it has an end, and is text.
pub open spec fn string_in(ptr: u64, buf: Option<Seq<u8>>) -> Result<Seq<char>, i64> {
    if ptr == 0 || buf is None {
        Err(errno::EFAULT)
    } else {
        let n = string_end(buf->0, 0);
        if n >= buf->0.len() {
            Err(errno::EINVAL)
        } else {
            match text::text_of(buf->0.take(n)) {
                Some(s) => Ok(s),
                None => Err(errno::EINVAL),
            }
        }
    }
}

/// A string from the caller, up to its end.
pub fn read_user_cstr(ptr: u64, buf: Option<Vec<u8>>) -> (r: Result<String, i64>)
    ensures
        paths::text_in(r) == string_in(ptr, bytes_view(buf)),
{
    if ptr == 0 {
        return Err(errno::EFAULT);
    }
    let b = match buf {
        Some(b) => b,
        None => {
            return Err(errno::EFAULT);
        },
    };
    let mut i: usize = 0;
    while i < b.len()
        invariant
            i <= b@.len(),
            ptr != 0,
            buf is Some,
            buf->0@ == b@,
            string_end(b@, 0) == string_end(b@, i as int),
        decreases b.len() - i,
    {
        if b[i] == 0 {
            let s = bytes::part(&b, 0, i);
            assert(s@ =~= b@.take(i as int));
            return match text::from_utf8(&s) {
                Some(t) => Ok(t),
                None => Err(errno::EINVAL),
            };
        }
        i += 1;
    }
    Err(errno::EINVAL)
}

/// Whether an open file does not wait.
pub fn fd_is_nonblock(flags: Option<u32>) -> (r: bool)
    ensures
        r == (flags is Some && flags->0 & vfs::O_NONBLOCK == vfs::O_NONBLOCK),
{
    match flags {
        Some(f) => (f & vfs::O_NONBLOCK) == vfs::O_NONBLOCK,
        None => false,
    }
}

/// A time that is shown is read as it was, as long as its nanoseconds are fewer than a second.
pub proof fn law_time_reads_as_shown(sec: i64, nsec: i64)
    requires
        0 <= nsec < NANOS,
    ensures
        time_in(packed_time(sec, nsec)).sec == sec,
        time_in(packed_time(sec, nsec)).nsec == nsec,
{
    let s = packed_time(sec, nsec);
    assert(s.subrange(0, 8) =~= bytes::put64(sec as u64));
    assert(s.subrange(8, 16) =~= bytes::put64(nsec as u64));
    bytes::lemma_at64(s, 0, sec as u64);
    bytes::lemma_at64(s, 8, nsec as u64);
    assert((sec as u64) as i64 == sec) by (bit_vector);
}

} // verus!
