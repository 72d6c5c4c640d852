//! `capget` and `capset`.
use super::reply;
use super::reply::Reply;
use crate::bytes;
use crate::errno;
use crate::process_model::Pid;
use vstd::prelude::*;

verus! {

pub const LINUX_CAPABILITY_VERSION_3: u32 = 0x20080522;

/// The capabilities of a process, one bit each.
#[derive(Clone, Copy, PartialEq, Eq, Structural, Debug)]
pub struct Caps {
    pub effective: u64,
    pub permitted: u64,
    pub inheritable: u64,
    pub bounding: u64,
}

/// What the head of a request says.
#[derive(Clone, Copy, PartialEq, Eq, Structural, Debug)]
pub struct CapHeader {
    pub version: u32,
    pub pid: i32,
}

pub open spec fn header_of(hdr: Seq<u8>) -> CapHeader {
    CapHeader { version: bytes::le32(hdr, 0), pid: bytes::le32(hdr, 4) as i32 }
}

fn read_header(hdr: &Vec<u8>) -> (h: CapHeader)
    requires
        hdr@.len() == 8,
    ensures
        h == header_of(hdr@),
{
    CapHeader { version: bytes::u32_at(hdr, 0), pid: bytes::u32_at(hdr, 4) as i32 }
}

fn wanted_version() -> (b: Vec<u8>)
    ensures
        b@ == bytes::put32(LINUX_CAPABILITY_VERSION_3),
{
    let mut b: Vec<u8> = Vec::new();
    bytes::push_u32(&mut b, LINUX_CAPABILITY_VERSION_3);
    assert(b@ =~= bytes::put32(LINUX_CAPABILITY_VERSION_3));
    b
}

/// How a request goes on.
pub enum CapStep {
    Reply(i64),
    /// The caller is told the right version, if it can be, and gets `EINVAL` either way.
    TellVersion(Vec<u8>),
    Of(Pid),
}

/// Whose capabilities `capget` asks for. `hdr` is the head of the request, where it could be
/// read.
pub fn capget_target(hdr_ptr: u64, hdr: Option<Vec<u8>>, caller: Pid) -> (r: CapStep)
    requires
        hdr is Some ==> hdr->0@.len() == 8,
    ensures
        match r {
            CapStep::Reply(code) => code == errno::EFAULT && (hdr_ptr == 0 || hdr is None),
            CapStep::TellVersion(b) => hdr_ptr != 0 && hdr is Some && header_of(hdr->0@).version
                != LINUX_CAPABILITY_VERSION_3 && b@ == bytes::put32(LINUX_CAPABILITY_VERSION_3),
            CapStep::Of(pid) => hdr_ptr != 0 && hdr is Some && header_of(hdr->0@).version
                == LINUX_CAPABILITY_VERSION_3 && pid == (if header_of(hdr->0@).pid == 0 {
                caller
            } else {
                Pid(header_of(hdr->0@).pid as u32)
            }),
        },
{
    if hdr_ptr == 0 {
        return CapStep::Reply(errno::EFAULT);
    }
    let hdr = match hdr {
        Some(h) => h,
        None => {
            return CapStep::Reply(errno::EFAULT);
        },
    };
    let h = read_header(&hdr);
    if h.version != LINUX_CAPABILITY_VERSION_3 {
        return CapStep::TellVersion(wanted_version());
    }
    if h.pid == 0 {
        CapStep::Of(caller)
    } else {
        CapStep::Of(Pid(h.pid as u32))
    }
}

pub open spec fn low(x: u64) -> u32 {
    (x % 0x1_0000_0000) as u32
}

pub open spec fn high(x: u64) -> u32 {
    (x / 0x1_0000_0000) as u32
}

/// Capabilities as the caller gets them: the lower halves of all three sets, then the upper
/// ones.
pub open spec fn packed(c: Caps) -> Seq<u8> {
    bytes::put32s(words(c))
}

pub open spec fn words(c: Caps) -> Seq<u32> {
    seq![
        low(c.effective),
        low(c.permitted),
        low(c.inheritable),
        high(c.effective),
        high(c.permitted),
        high(c.inheritable),
    ]
}

/// `capget`, once it is known whose capabilities are asked for.
pub fn sys_capget(data_ptr: u64, target: Option<Caps>) -> (r: Reply)
    ensures
        r@ == (if target is None {
            reply::plain(errno::ESRCH)
        } else if data_ptr == 0 {
            reply::plain(0)
        } else {
            reply::with_bytes(0, data_ptr, packed(target->0))
        }),
{
    let c = match target {
        Some(c) => c,
        None => {
            return Reply::plain(errno::ESRCH);
        },
    };
    if data_ptr == 0 {
        return Reply::plain(0);
    }
    let mut buf: Vec<u8> = Vec::new();
    bytes::push_u32(&mut buf, (c.effective % 0x1_0000_0000) as u32);
    bytes::push_u32(&mut buf, (c.permitted % 0x1_0000_0000) as u32);
    bytes::push_u32(&mut buf, (c.inheritable % 0x1_0000_0000) as u32);
    bytes::push_u32(&mut buf, (c.effective / 0x1_0000_0000) as u32);
    bytes::push_u32(&mut buf, (c.permitted / 0x1_0000_0000) as u32);
    bytes::push_u32(&mut buf, (c.inheritable / 0x1_0000_0000) as u32);
    proof {
        let w = words(c);
        reveal_with_fuel(bytes::put32s, 7);
        assert(w.drop_last() =~= w.take(5));
        assert(w.take(5).drop_last() =~= w.take(4));
        assert(w.take(4).drop_last() =~= w.take(3));
        assert(w.take(3).drop_last() =~= w.take(2));
        assert(w.take(2).drop_last() =~= w.take(1));
        assert(w.take(1).drop_last() =~= Seq::<u32>::empty());
        assert(Seq::<u8>::empty() + bytes::put32(w[0]) =~= bytes::put32(w[0]));
        assert(buf@ =~= packed(c));
    }
    Reply::with_bytes(0, data_ptr, buf)
}

/// Whether `capset` goes on to read the capabilities: a process sets its own alone.
pub fn capset_target(hdr_ptr: u64, data_ptr: u64, hdr: Option<Vec<u8>>, caller: Pid) -> (r: CapStep)
    requires
        hdr is Some ==> hdr->0@.len() == 8,
    ensures
        ({
            let h = header_of(hdr->0@);
            let fault = hdr_ptr == 0 || data_ptr == 0 || hdr is None;
            match r {
                CapStep::Reply(code) => (code == errno::EFAULT && fault) || (code == errno::EPERM
                    && !fault && h.version == LINUX_CAPABILITY_VERSION_3 && h.pid != 0
                    && h.pid as u32 != caller.0),
                CapStep::TellVersion(b) => !fault && h.version != LINUX_CAPABILITY_VERSION_3 && b@
                    == bytes::put32(LINUX_CAPABILITY_VERSION_3),
                CapStep::Of(pid) => !fault && h.version == LINUX_CAPABILITY_VERSION_3 && (h.pid
                    == 0 || h.pid as u32 == caller.0) && pid == caller,
            }
        }),
{
    if hdr_ptr == 0 || data_ptr == 0 {
        return CapStep::Reply(errno::EFAULT);
    }
    let hdr = match hdr {
        Some(h) => h,
        None => {
            return CapStep::Reply(errno::EFAULT);
        },
    };
    let h = read_header(&hdr);
    if h.version != LINUX_CAPABILITY_VERSION_3 {
        return CapStep::TellVersion(wanted_version());
    }
    if h.pid != 0 && h.pid as u32 != caller.0 {
        return CapStep::Reply(errno::EPERM);
    }
    CapStep::Of(caller)
}

/// The set whose halves stand at two places.
pub open spec fn halves(buf: Seq<u8>, low: int, high: int) -> u64 {
    (bytes::le32(buf, low) + 0x1_0000_0000 * bytes::le32(buf, high)) as u64
}

fn join_halves(buf: &Vec<u8>, low: usize, high: usize) -> (x: u64)
    requires
        low + 4 <= buf@.len(),
        high + 4 <= buf@.len(),
    ensures
        x == halves(buf@, low as int, high as int),
{
    let l: u64 = bytes::u32_at(buf, low) as u64;
    let h: u64 = bytes::u32_at(buf, high) as u64;
    l + 0x1_0000_0000 * h
}

/// The capabilities after `capset`, or what forbids it. No permitted capability is gained;
/// what is effective is permitted; what is inheritable was inheritable or permitted, and
/// within the bounds unless it was inheritable before. `mask` holds all capabilities there
/// are.
pub open spec fn after_capset(
    c: Caps,
    effective: u64,
    permitted: u64,
    inheritable: u64,
    mask: u64,
) -> (i64, Caps) {
    if permitted & !c.permitted != 0 || effective & !permitted != 0 || inheritable & !(
    c.inheritable | c.permitted) != 0 || inheritable & !(c.bounding | c.inheritable) != 0 {
        (errno::EPERM, c)
    } else {
        (
            0,
            Caps {
                effective: effective & mask,
                permitted: permitted & mask,
                inheritable: inheritable & mask,
                bounding: c.bounding,
            },
        )
    }
}

/// `capset`, with the capabilities that were read.
pub fn sys_capset(caps: &mut Caps, data: Option<Vec<u8>>, mask: u64) -> (code: i64)
    requires
        data is Some ==> data->0@.len() == 24,
    ensures
        (code, *final(caps)) == (if data is None {
            (errno::EFAULT, *old(caps))
        } else {
            after_capset(
                *old(caps),
                halves(data->0@, 0, 12),
                halves(data->0@, 4, 16),
                halves(data->0@, 8, 20),
                mask,
            )
        }),
{
    let buf = match data {
        Some(b) => b,
        None => {
            return errno::EFAULT;
        },
    };
    let effective: u64 = join_halves(&buf, 0, 12);
    let permitted: u64 = join_halves(&buf, 4, 16);
    let inheritable: u64 = join_halves(&buf, 8, 20);
    if (permitted & !caps.permitted) != 0 {
        return errno::EPERM;
    }
    if (effective & !permitted) != 0 {
        return errno::EPERM;
    }
    if (inheritable & !(caps.inheritable | caps.permitted)) != 0 {
        return errno::EPERM;
    }
    if (inheritable & !(caps.bounding | caps.inheritable)) != 0 {
        return errno::EPERM;
    }
    caps.effective = effective & mask;
    caps.permitted = permitted & mask;
    caps.inheritable = inheritable & mask;
    0
}

/// No call gains a permitted capability, and what is effective stays permitted.
pub proof fn law_capset_gains_nothing(c: Caps, e: u64, p: u64, i: u64, mask: u64)
    requires
        c.effective & !c.permitted == 0,
    ensures
        after_capset(c, e, p, i, mask).1.permitted & !c.permitted == 0,
        after_capset(c, e, p, i, mask).1.effective & !after_capset(c, e, p, i, mask).1.permitted
            == 0,
        after_capset(c, e, p, i, mask).1.bounding == c.bounding,
{
    let have = c.permitted;
    assert(p & !have == 0 ==> (p & mask) & !have == 0) by (bit_vector);
    assert(e & !p == 0 ==> (e & mask) & !(p & mask) == 0) by (bit_vector);
    assert(have & !have == 0) by (bit_vector);
}

/// What `capget` shows is what `capset` sets.
pub proof fn law_capset_reads_what_capget_shows(c: Caps)
    ensures
        packed(c).len() == 24,
        halves(packed(c), 0, 12) == c.effective,
        halves(packed(c), 4, 16) == c.permitted,
        halves(packed(c), 8, 20) == c.inheritable,
{
    let w = words(c);
    bytes::law_numbers_are_read_back(w);
    assert(bytes::le32(packed(c), 0) == w[0]);
    assert(bytes::le32(packed(c), 4) == w[1]);
    assert(bytes::le32(packed(c), 8) == w[2]);
    assert(bytes::le32(packed(c), 12) == w[3]);
    assert(bytes::le32(packed(c), 16) == w[4]);
    assert(bytes::le32(packed(c), 20) == w[5]);
}

} // verus!
