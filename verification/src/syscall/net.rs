//! Sockets, and the messages with descriptors in them.
use super::event;
use super::fs::file_io;
use super::reply;
use super::reply::Reply;
use crate::bytes;
use crate::errno;
use crate::vfs;
use crate::vfs::fd;
use crate::vfs::fd::FdTable;
use vstd::prelude::*;

verus! {

pub const AF_UNIX: u32 = 1;

pub const AF_INET: u32 = 2;

pub const AF_INET6: u32 = 10;

pub const AF_NETLINK: u32 = 16;

pub const SOCK_STREAM: u32 = 1;

pub const SOCK_DGRAM: u32 = 2;

pub const SOCK_RAW: u32 = 3;

pub const SOCK_SEQPACKET: u32 = 5;

pub const IPPROTO_ICMP: u32 = 1;

pub const IPPROTO_ICMPV6: u32 = 58;

/// A socket to be made.
#[derive(Clone, Copy, PartialEq, Eq, Structural, Debug)]
pub enum SocketKind {
    /// For the control messages of the network.
    Echo,
    Udp { v6: bool },
    Tcp { v6: bool },
    UnixStream,
    UnixSeqpacket,
    UnixDgram,
    Netlink { protocol: i32 },
}

/// Which socket a domain, a type and a protocol name.
pub open spec fn socket_kind(domain: u32, stype: u32, proto: u32) -> Option<SocketKind> {
    let inet = domain == AF_INET || domain == AF_INET6;
    let echo = proto == IPPROTO_ICMP || proto == IPPROTO_ICMPV6;
    if inet && (stype == SOCK_DGRAM || stype == SOCK_RAW) && echo {
        Some(SocketKind::Echo)
    } else if inet && stype == SOCK_DGRAM {
        Some(SocketKind::Udp { v6: domain == AF_INET6 })
    } else if inet && stype == SOCK_STREAM {
        Some(SocketKind::Tcp { v6: domain == AF_INET6 })
    } else if domain == AF_UNIX && stype == SOCK_STREAM {
        Some(SocketKind::UnixStream)
    } else if domain == AF_UNIX && stype == SOCK_SEQPACKET {
        Some(SocketKind::UnixSeqpacket)
    } else if domain == AF_UNIX && stype == SOCK_DGRAM {
        Some(SocketKind::UnixDgram)
    } else if domain == AF_NETLINK {
        Some(SocketKind::Netlink { protocol: proto as i32 })
    } else {
        None
    }
}

fn choose_socket(domain: u32, stype: u32, proto: u32) -> (r: Option<SocketKind>)
    ensures
        r == socket_kind(domain, stype, proto),
{
    let v6 = domain == AF_INET6;
    match domain {
        AF_INET | AF_INET6 => {
            if (stype == SOCK_DGRAM || stype == SOCK_RAW) && (proto == IPPROTO_ICMP || proto
                == IPPROTO_ICMPV6) {
                return Some(SocketKind::Echo);
            }
            match stype {
                SOCK_DGRAM => Some(SocketKind::Udp { v6 }),
                SOCK_STREAM => Some(SocketKind::Tcp { v6 }),
                _ => None,
            }
        },
        AF_UNIX => match stype {
            SOCK_STREAM => Some(SocketKind::UnixStream),
            SOCK_SEQPACKET => Some(SocketKind::UnixSeqpacket),
            SOCK_DGRAM => Some(SocketKind::UnixDgram),
            _ => None,
        },
        AF_NETLINK => Some(SocketKind::Netlink { protocol: proto as i32 }),
        _ => None,
    }
}

/// A socket to be made, and the flags of its descriptor.
#[derive(Clone, Copy, PartialEq, Eq, Structural, Debug)]
pub struct NewSocket {
    pub kind: SocketKind,
    pub flags: u32,
    pub cloexec: bool,
}

/// `socket`
pub fn sys_socket(domain: u64, kind: u64, protocol: u64) -> (r: Result<NewSocket, i64>)
    ensures
        r == match socket_kind(domain as u32, kind as u32 & 0xff, protocol as u32) {
            None => Err(errno::EAFNOSUPPORT),
            Some(k) => Ok(
                NewSocket {
                    kind: k,
                    flags: event::open_flags(vfs::O_RDWR, kind),
                    cloexec: kind & event::CLOEXEC != 0,
                },
            ),
        },
{
    let stype: u32 = kind as u32 & 0xff;
    match choose_socket(domain as u32, stype, protocol as u32) {
        None => Err(errno::EAFNOSUPPORT),
        Some(k) => {
            let flags: u32 = if kind & event::NONBLOCK != 0 {
                vfs::O_RDWR | vfs::O_NONBLOCK
            } else {
                vfs::O_RDWR
            };
            Ok(NewSocket { kind: k, flags, cloexec: kind & event::CLOEXEC != 0 })
        },
    }
}

/// Two sockets to be made that are connected to each other.
#[derive(Clone, Copy, PartialEq, Eq, Structural, Debug)]
pub struct NewPair {
    /// Whether messages keep their bounds.
    pub framed: bool,
    pub flags: u32,
    pub cloexec: bool,
}

/// `socketpair`
pub fn sys_socketpair(domain: u64, kind: u64) -> (r: Result<NewPair, i64>)
    ensures
        ({
            let stype = (kind & 0xf) as u32;
            r == (if domain as u32 != AF_UNIX {
                Err(errno::EAFNOSUPPORT)
            } else if stype != SOCK_STREAM && stype != SOCK_DGRAM && stype != SOCK_SEQPACKET {
                Err(errno::ESOCKTNOSUPPORT)
            } else {
                Ok::<NewPair, i64>(
                    NewPair {
                        framed: stype != SOCK_STREAM,
                        flags: event::open_flags(vfs::O_RDWR, kind),
                        cloexec: kind & event::CLOEXEC != 0,
                    },
                )
            })
        }),
{
    if domain as u32 != AF_UNIX {
        return Err(errno::EAFNOSUPPORT);
    }
    let framed = match (kind & 0xf) as u32 {
        SOCK_STREAM => false,
        SOCK_DGRAM | SOCK_SEQPACKET => true,
        _ => {
            return Err(errno::ESOCKTNOSUPPORT);
        },
    };
    let flags: u32 = if kind & event::NONBLOCK != 0 {
        vfs::O_RDWR | vfs::O_NONBLOCK
    } else {
        vfs::O_RDWR
    };
    Ok(NewPair { framed, flags, cloexec: kind & event::CLOEXEC != 0 })
}

/// The longest address of a socket.
pub const SOCKADDR_MAX: u64 = 128;

/// The address of a socket, with what was read of the caller's memory.
pub fn read_sockaddr(addrlen: u64, buf: Option<Vec<u8>>) -> (r: Result<Vec<u8>, i64>)
    ensures
        r == (if addrlen == 0 || addrlen > SOCKADDR_MAX {
            Err(errno::EINVAL)
        } else if buf is None {
            Err(errno::EFAULT)
        } else {
            Ok::<Vec<u8>, i64>(buf->0)
        }),
{
    if addrlen == 0 || addrlen > SOCKADDR_MAX {
        return Err(errno::EINVAL);
    }
    match buf {
        None => Err(errno::EFAULT),
        Some(b) => Ok(b),
    }
}

/// What is done on a socket.
pub enum SocketCall {
    Reply(i64),
    Listen { backlog: i32 },
    Connect { addr: Vec<u8>, nonblock: bool },
    Shutdown { how: i32 },
    SetOption { level: i32, option: i32, value: u64, len: u64 },
    GetOption { level: i32, option: i32, value: u64, len_at: u64 },
    OwnName { to: u64, len_at: u64 },
    PeerName { to: u64, len_at: u64 },
}

/// `listen`: what is not open is no socket either.
pub fn sys_listen(is_socket: bool, backlog: u64) -> (r: SocketCall)
    ensures
        r == (if is_socket {
            SocketCall::Listen { backlog: backlog as i32 }
        } else {
            SocketCall::Reply(errno::ENOTSOCK)
        }),
{
    if !is_socket {
        return SocketCall::Reply(errno::ENOTSOCK);
    }
    SocketCall::Listen { backlog: backlog as i32 }
}

/// `connect`: the address is looked at before the socket.
pub fn sys_connect(addrlen: u64, buf: Option<Vec<u8>>, is_socket: bool, nonblock: bool) -> (r:
    SocketCall)
    ensures
        r == (if addrlen == 0 || addrlen > SOCKADDR_MAX {
            SocketCall::Reply(errno::EINVAL)
        } else if buf is None {
            SocketCall::Reply(errno::EFAULT)
        } else if !is_socket {
            SocketCall::Reply(errno::ENOTSOCK)
        } else {
            SocketCall::Connect { addr: buf->0, nonblock }
        }),
{
    match sys_bind(addrlen, buf, is_socket) {
        Err(e) => SocketCall::Reply(e),
        Ok(addr) => SocketCall::Connect { addr, nonblock },
    }
}

/// `shutdown`
pub fn sys_shutdown(is_socket: bool, how: u64) -> (r: SocketCall)
    ensures
        r == (if is_socket {
            SocketCall::Shutdown { how: how as i32 }
        } else {
            SocketCall::Reply(errno::ENOTSOCK)
        }),
{
    if !is_socket {
        return SocketCall::Reply(errno::ENOTSOCK);
    }
    SocketCall::Shutdown { how: how as i32 }
}

/// `setsockopt`
pub fn sys_setsockopt(is_socket: bool, level: u64, option: u64, value: u64, len: u64) -> (r:
    SocketCall)
    ensures
        r == (if is_socket {
            SocketCall::SetOption { level: level as i32, option: option as i32, value, len }
        } else {
            SocketCall::Reply(errno::ENOTSOCK)
        }),
{
    if !is_socket {
        return SocketCall::Reply(errno::ENOTSOCK);
    }
    SocketCall::SetOption { level: level as i32, option: option as i32, value, len }
}

/// `getsockopt`
pub fn sys_getsockopt(is_socket: bool, level: u64, option: u64, value: u64, len_at: u64) -> (r:
    SocketCall)
    ensures
        r == (if is_socket {
            SocketCall::GetOption { level: level as i32, option: option as i32, value, len_at }
        } else {
            SocketCall::Reply(errno::ENOTSOCK)
        }),
{
    if !is_socket {
        return SocketCall::Reply(errno::ENOTSOCK);
    }
    SocketCall::GetOption { level: level as i32, option: option as i32, value, len_at }
}

/// `getsockname`
pub fn sys_getsockname(is_socket: bool, addr: u64, len_at: u64) -> (r: SocketCall)
    ensures
        r == (if is_socket {
            SocketCall::OwnName { to: addr, len_at }
        } else {
            SocketCall::Reply(errno::ENOTSOCK)
        }),
{
    if !is_socket {
        return SocketCall::Reply(errno::ENOTSOCK);
    }
    SocketCall::OwnName { to: addr, len_at }
}

/// `getpeername`
pub fn sys_getpeername(is_socket: bool, addr: u64, len_at: u64) -> (r: SocketCall)
    ensures
        r == (if is_socket {
            SocketCall::PeerName { to: addr, len_at }
        } else {
            SocketCall::Reply(errno::ENOTSOCK)
        }),
{
    if !is_socket {
        return SocketCall::Reply(errno::ENOTSOCK);
    }
    SocketCall::PeerName { to: addr, len_at }
}

/// A new socket gets the lowest free descriptor.
pub fn socket_made(table: &mut FdTable, made: Result<u64, i64>, cloexec: bool) -> (code: i64)
    requires
        old(table).wf(),
        made is Err ==> made->Err_0 < 0,
    ensures
        final(table).wf(),
        match made {
            Err(e) => code == e && *final(table) == *old(table),
            Ok(file) => event::new_fd(
                *old(table),
                *final(table),
                file,
                if cloexec {
                    fd::FD_CLOEXEC
                } else {
                    0
                },
                code,
            ),
        },
{
    match made {
        Err(e) => e,
        Ok(file) => event::install_lowest(table, file, cloexec),
    }
}

/// `bind`: the address that the socket gets. The address is looked at before
/// the socket.
pub fn sys_bind(addrlen: u64, buf: Option<Vec<u8>>, is_socket: bool) -> (r: Result<Vec<u8>, i64>)
    ensures
        r == (if addrlen == 0 || addrlen > SOCKADDR_MAX {
            Err(errno::EINVAL)
        } else if buf is None {
            Err(errno::EFAULT)
        } else if !is_socket {
            Err(errno::ENOTSOCK)
        } else {
            Ok::<Vec<u8>, i64>(buf->0)
        }),
{
    match read_sockaddr(addrlen, buf) {
        Err(e) => Err(e),
        Ok(b) => {
            if !is_socket {
                return Err(errno::ENOTSOCK);
            }
            Ok(b)
        },
    }
}

/// Where the caller is told of the other side, where it asks for that.
pub fn peer_place(addr: u64, addrlen: u64) -> (r: Option<(u64, u64)>)
    ensures
        r == (if addr != 0 && addrlen != 0 {
            Some((addr, addrlen))
        } else {
            None
        }),
{
    if addr != 0 && addrlen != 0 {
        Some((addr, addrlen))
    } else {
        None
    }
}

/// `accept`: what was accepted gets the lowest free descriptor.
pub fn sys_accept(table: &mut FdTable, is_socket: bool, accepted: Result<u64, i64>) -> (code: i64)
    requires
        old(table).wf(),
        accepted is Err ==> accepted->Err_0 < 0,
    ensures
        final(table).wf(),
        if !is_socket {
            code == errno::ENOTSOCK && *final(table) == *old(table)
        } else {
            match accepted {
                Err(e) => code == e && *final(table) == *old(table),
                Ok(file) => event::new_fd(*old(table), *final(table), file, 0, code),
            }
        },
{
    if !is_socket {
        return errno::ENOTSOCK;
    }
    match accepted {
        Err(e) => e,
        Ok(file) => event::install_lowest(table, file, false),
    }
}

pub const MSG_DONTWAIT: u64 = 0x40;

/// Whether a call on a socket does not wait.
pub fn does_not_wait(file_nonblock: bool, flags: u64) -> (r: bool)
    ensures
        r == (file_nonblock || flags & MSG_DONTWAIT != 0),
{
    file_nonblock || flags & MSG_DONTWAIT != 0
}

/// What `sendto` reads of the caller's memory: how many bytes, or an answer at once.
pub fn sendto_len(count: u64, is_socket: bool) -> (r: Result<u64, i64>)
    ensures
        r == (if count == 0 {
            Err(0i64)
        } else if !is_socket {
            Err(errno::ENOTSOCK)
        } else {
            Ok::<u64, i64>(file_io::at_most(count, super::dispatch::WRITE_BUF_MAX))
        }),
{
    if count == 0 {
        return Err(0);
    }
    if !is_socket {
        return Err(errno::ENOTSOCK);
    }
    if count > super::dispatch::WRITE_BUF_MAX {
        Ok(super::dispatch::WRITE_BUF_MAX)
    } else {
        Ok(count)
    }
}

/// `sendto`: to whom the bytes go, where the caller says so.
pub fn sys_sendto(payload_read: bool, addr: u64, addrlen: u64, buf: Option<Vec<u8>>) -> (r: Result<
    Option<Vec<u8>>,
    i64,
>)
    ensures
        r == (if !payload_read {
            Err(errno::EFAULT)
        } else if addr == 0 || addrlen == 0 {
            Ok(None)
        } else if addrlen > SOCKADDR_MAX {
            Err(errno::EINVAL)
        } else if buf is None {
            Err(errno::EFAULT)
        } else {
            Ok::<Option<Vec<u8>>, i64>(Some(buf->0))
        }),
{
    if !payload_read {
        return Err(errno::EFAULT);
    }
    if addr == 0 || addrlen == 0 {
        return Ok(None);
    }
    match read_sockaddr(addrlen, buf) {
        Err(e) => Err(e),
        Ok(b) => Ok(Some(b)),
    }
}

/// What `recvfrom` goes on with: how many bytes, or an answer at once.
pub fn recvfrom_len(count: u64, is_socket: bool) -> (r: Result<u64, i64>)
    ensures
        r == (if count == 0 {
            Err(0i64)
        } else if count > file_io::READ_BUF_MAX {
            Err(errno::EINVAL)
        } else if !is_socket {
            Err(errno::ENOTSOCK)
        } else {
            Ok::<u64, i64>(count)
        }),
{
    if count == 0 {
        return Err(0);
    }
    if count > file_io::READ_BUF_MAX {
        return Err(errno::EINVAL);
    }
    if !is_socket {
        return Err(errno::ENOTSOCK);
    }
    Ok(count)
}

/// `recvfrom`, once bytes were received or an error came: the bytes go to the caller.
pub fn sys_recvfrom(buf: u64, received: Result<Vec<u8>, i64>) -> (r: Reply)
    requires
        received is Ok ==> received->Ok_0@.len() <= i64::MAX,
    ensures
        r@ == match received {
            Err(e) => reply::plain(e),
            Ok(b) => if b@.len() == 0 {
                reply::plain(0)
            } else {
                reply::with_bytes(b@.len() as i64, buf, b@)
            },
        },
{
    match received {
        Err(e) => Reply::plain(e),
        Ok(b) => {
            if b.len() == 0 {
                return Reply::plain(0);
            }
            Reply::with_bytes(b.len() as i64, buf, b)
        },
    }
}

/// The head of a message.
#[derive(Clone, Copy, PartialEq, Eq, Structural, Debug)]
pub struct MsgHeader {
    pub name: u64,
    pub name_len: u32,
    pub iov: u64,
    pub iov_len: u64,
    pub control: u64,
    pub control_len: u64,
}

pub const MSGHDR_SIZE: usize = 56;

pub const MH_NAMELEN: u64 = 8;

pub const MH_CONTROLLEN: u64 = 40;

pub const MH_FLAGS: u64 = 48;

pub open spec fn header_in(h: Seq<u8>) -> MsgHeader {
    MsgHeader {
        name: bytes::le64(h, 0),
        name_len: bytes::le32(h, 8),
        iov: bytes::le64(h, 16),
        iov_len: bytes::le64(h, 24),
        control: bytes::le64(h, 32),
        control_len: bytes::le64(h, 40),
    }
}

/// Reads the head of a message.
pub fn read_header(h: &Vec<u8>) -> (r: MsgHeader)
    requires
        h@.len() == MSGHDR_SIZE,
    ensures
        r == header_in(h@),
{
    MsgHeader {
        name: bytes::u64_at(h, 0),
        name_len: bytes::u32_at(h, 8),
        iov: bytes::u64_at(h, 16),
        iov_len: bytes::u64_at(h, 24),
        control: bytes::u64_at(h, 32),
        control_len: bytes::u64_at(h, 40),
    }
}

pub const CMSG_HDR_LEN: u64 = 16;

pub const SCM_SOL_SOCKET: u32 = 1;

pub const SCM_RIGHTS: u32 = 1;

pub const SCM_CREDENTIALS: u32 = 2;

pub const UCRED_LEN: u64 = 12;

/// How many descriptors come with a message. `head` is the head of its control data.
pub open spec fn rights_request(control: u64, controllen: u64, head: Option<Seq<u8>>) -> Result<
    u64,
    i64,
> {
    if control == 0 || controllen < CMSG_HDR_LEN {
        Ok(0)
    } else if head is None {
        Err(errno::EFAULT)
    } else {
        let len = bytes::le64(head->0, 0);
        if bytes::le32(head->0, 8) != SCM_SOL_SOCKET || bytes::le32(head->0, 12) != SCM_RIGHTS {
            Ok(0)
        } else if len < CMSG_HDR_LEN || len > controllen {
            Err(errno::EINVAL)
        } else {
            Ok(((len - CMSG_HDR_LEN) / 4) as u64)
        }
    }
}

/// How many descriptors come with a message.
pub fn parse_scm_rights(control: u64, controllen: u64, head: Option<Vec<u8>>) -> (r: Result<
    u64,
    i64,
>)
    requires
        head is Some ==> head->0@.len() == 16,
    ensures
        r == rights_request(control, controllen, super::util::bytes_view(head)),
{
    if control == 0 || controllen < CMSG_HDR_LEN {
        return Ok(0);
    }
    let h = match head {
        Some(h) => h,
        None => {
            return Err(errno::EFAULT);
        },
    };
    let len: u64 = bytes::u64_at(&h, 0);
    let level: u32 = bytes::u32_at(&h, 8);
    let ctype: u32 = bytes::u32_at(&h, 12);
    if level != SCM_SOL_SOCKET || ctype != SCM_RIGHTS {
        return Ok(0);
    }
    if len < CMSG_HDR_LEN || len > controllen {
        return Err(errno::EINVAL);
    }
    Ok((len - CMSG_HDR_LEN) / 4)
}

/// The open file that a descriptor of a message stands for: `read` is the descriptor as it was
/// read.
pub fn passed_file(table: &FdTable, read: Option<u32>) -> (r: Result<u64, i64>)
    ensures
        r == (if read is None {
            Err(errno::EFAULT)
        } else if table.file_at((read->0 as i32) as int) is None {
            Err(errno::EBADF)
        } else {
            Ok::<u64, i64>(table.file_at((read->0 as i32) as int)->0)
        }),
{
    match read {
        None => Err(errno::EFAULT),
        Some(n) => match table.get(n as i32) {
            None => Err(errno::EBADF),
            Some(f) => Ok(f),
        },
    }
}

/// A length rounded up to whole words.
pub open spec fn aligned(n: int) -> int {
    (n + 7) / 8 * 8
}

pub fn cmsg_align(n: usize) -> (r: usize)
    requires
        n + 7 <= usize::MAX,
    ensures
        r == aligned(n as int),
        n <= r < n + 8,
{
    (n + 7) / 8 * 8
}

/// Control data with one more piece: it begins at a whole word.
pub open spec fn with_cmsg(buf: Seq<u8>, ctype: u32, payload: Seq<u8>) -> Seq<u8> {
    buf + bytes::zeros((aligned(buf.len() as int) - buf.len()) as nat) + bytes::put64(
        (CMSG_HDR_LEN + payload.len()) as u64,
    ) + bytes::put32(SCM_SOL_SOCKET) + bytes::put32(ctype) + payload
}

/// Adds a piece to control data.
pub fn push_cmsg(buf: &mut Vec<u8>, ctype: u32, payload: &Vec<u8>)
    requires
        old(buf)@.len() + 7 <= usize::MAX,
        payload@.len() + CMSG_HDR_LEN <= u64::MAX,
    ensures
        final(buf)@ == with_cmsg(old(buf)@, ctype, payload@),
{
    let n: usize = buf.len();
    let pad: usize = cmsg_align(n);
    bytes::push_zeros(buf, pad - n);
    bytes::push_u64(buf, CMSG_HDR_LEN + payload.len() as u64);
    bytes::push_u32(buf, SCM_SOL_SOCKET);
    bytes::push_u32(buf, ctype);
    let ghost before = buf@;
    let mut i: usize = 0;
    assert(before + payload@.take(0) =~= before);
    while i < payload.len()
        invariant
            i <= payload@.len(),
            buf@ == before + payload@.take(i as int),
        decreases payload.len() - i,
    {
        buf.push(payload[i]);
        i += 1;
        assert(buf@ =~= before + payload@.take(i as int));
    }
    assert(payload@.take(i as int) =~= payload@);
}

/// What installing open files one after the other comes to, until there is no room: the table,
/// and the descriptors.
pub open spec fn files_installed(
    before: FdTable,
    after: FdTable,
    files: Seq<u64>,
    fds: Seq<u32>,
) -> bool {
    &&& fds.len() <= files.len()
    &&& exists|steps: Seq<FdTable>| #[trigger] is_run(before, after, files, fds, steps)
    &&& fds.len() < files.len() ==> no_room(after)
}

/// Whether no descriptor can be had: all below the cap and within reach are open.
pub open spec fn no_room(table: FdTable) -> bool {
    table.cap == 0 || exists|n: int| #[trigger]
        fd::is_lowest_free(table@, 0, n) && table.cap <= n && table.reach() <= n
}

/// Tables, each with one more descriptor: the lowest that was free.
pub open spec fn is_run(
    before: FdTable,
    after: FdTable,
    files: Seq<u64>,
    fds: Seq<u32>,
    steps: Seq<FdTable>,
) -> bool {
    &&& steps.len() == fds.len() + 1
    &&& steps[0] == before
    &&& steps.last() == after
    &&& forall|i: int|
        0 <= i < fds.len() ==> is_run_step(#[trigger] steps[i], steps[i + 1], files[i], fds[i])
}

pub open spec fn is_run_step(before: FdTable, after: FdTable, file: u64, n: u32) -> bool {
    n <= i32::MAX && fd::installed(before, after, file, 0, 0, Ok::<i32, i32>(n as i32))
}

/// Installs open files one after the other, until there is no room.
pub fn install_files(table: &mut FdTable, files: &Vec<u64>) -> (fds: Vec<u32>)
    requires
        old(table).wf(),
    ensures
        final(table).wf(),
        final(table).cap == old(table).cap,
        files_installed(*old(table), *final(table), files@, fds@),
{
    let mut fds: Vec<u32> = Vec::new();
    let ghost mut steps: Seq<FdTable> = seq![*table];
    let mut i: usize = 0;
    assert(is_run(*old(table), *table, files@, fds@, steps));
    while i < files.len()
        invariant
            i <= files@.len(),
            table.wf(),
            table.cap == old(table).cap,
            fds@.len() == i,
            is_run(*old(table), *table, files@, fds@, steps),
        decreases files.len() - i,
    {
        let ghost before = *table;
        match table.install(files[i]) {
            Ok(n) => {
                assert(n >= 0);
                fds.push(n as u32);
                proof {
                    let old_steps = steps;
                    steps = steps.push(*table);
                    assert(old_steps.last() == before);
                    assert forall|k: int| 0 <= k < fds@.len() implies is_run_step(
                        #[trigger] steps[k],
                        steps[k + 1],
                        files@[k],
                        fds@[k],
                    ) by {
                        if k < i {
                            assert(is_run_step(
                                old_steps[k],
                                old_steps[k + 1],
                                files@[k],
                                fds@[k],
                            ));
                        }
                    }
                    assert(is_run(*old(table), *table, files@, fds@, steps));
                }
            },
            Err(_) => {
                return fds;
            },
        }
        i += 1;
    }
    fds
}

/// Who sent a message.
#[derive(Clone, Copy, PartialEq, Eq, Structural, Debug)]
pub struct Sender {
    pub pid: i32,
    pub uid: u32,
    pub gid: u32,
}

/// Control data for the caller, and whether some was left out. Data that cannot be handed over
/// counts as left out.
pub struct Control {
    pub data: Vec<u8>,
    pub truncated: bool,
}

/// Whether there is room for the descriptors of a message.
pub open spec fn rights_fit(files: int, controllen: u64) -> bool {
    CMSG_HDR_LEN + 4 * files <= controllen
}

/// Control data with the descriptors.
pub open spec fn rights_data(fds: Seq<u32>) -> Seq<u8> {
    with_cmsg(Seq::empty(), SCM_RIGHTS, bytes::put32s(fds))
}

/// Control data with the sender, where there is one and room for it.
pub open spec fn with_sender(data: Seq<u8>, sender: Option<Sender>, controllen: u64) -> Seq<u8> {
    if sender is Some && sender_fits(data.len() as int, controllen) {
        with_cmsg(
            data,
            SCM_CREDENTIALS,
            bytes::put32s(seq![sender->0.pid as u32, sender->0.uid, sender->0.gid]),
        )
    } else {
        data
    }
}

pub open spec fn sender_fits(len: int, controllen: u64) -> bool {
    aligned(len) + CMSG_HDR_LEN + UCRED_LEN <= controllen
}

fn sender_bytes(s: Sender) -> (b: Vec<u8>)
    ensures
        b@ == bytes::put32s(seq![s.pid as u32, s.uid, s.gid]),
        b@.len() == 12,
{
    let mut b: Vec<u8> = Vec::new();
    bytes::push_u32(&mut b, s.pid as u32);
    bytes::push_u32(&mut b, s.uid);
    bytes::push_u32(&mut b, s.gid);
    proof {
        let w = seq![s.pid as u32, s.uid, s.gid];
        reveal_with_fuel(bytes::put32s, 4);
        assert(w.drop_last() =~= seq![s.pid as u32, s.uid]);
        assert(w.drop_last().drop_last() =~= seq![s.pid as u32]);
        assert(w.drop_last().drop_last().drop_last() =~= Seq::<u32>::empty());
        assert(b@ =~= bytes::put32s(w));
        bytes::law_numbers_are_read_back(w);
    }
    b
}

fn fd_bytes(fds: &Vec<u32>) -> (b: Vec<u8>)
    ensures
        b@ == bytes::put32s(fds@),
        b@.len() == 4 * fds@.len(),
{
    let mut b: Vec<u8> = Vec::new();
    let mut i: usize = 0;
    assert(fds@.take(0) =~= Seq::<u32>::empty());
    while i < fds.len()
        invariant
            i <= fds@.len(),
            b@ == bytes::put32s(fds@.take(i as int)),
        decreases fds.len() - i,
    {
        bytes::push_u32(&mut b, fds[i]);
        assert(fds@.take(i + 1).drop_last() =~= fds@.take(i as int));
        i += 1;
    }
    assert(fds@.take(i as int) =~= fds@);
    proof {
        bytes::law_numbers_are_read_back(fds@);
    }
    b
}

fn rights_bytes(fds: &Vec<u32>) -> (data: Vec<u8>)
    requires
        4 * fds@.len() + CMSG_HDR_LEN <= u64::MAX,
    ensures
        data@ == rights_data(fds@),
        data@.len() == CMSG_HDR_LEN + 4 * fds@.len(),
{
    let mut data: Vec<u8> = Vec::new();
    assert(data@ =~= Seq::empty());
    let payload = fd_bytes(fds);
    push_cmsg(&mut data, SCM_RIGHTS, &payload);
    data
}

/// Adds the sender, where there is one and room for it. Says whether it was left out.
fn add_sender(data: &mut Vec<u8>, sender: Option<Sender>, controllen: u64) -> (left_out: bool)
    requires
        old(data)@.len() + 0x24 <= usize::MAX,
    ensures
        final(data)@ == with_sender(old(data)@, sender, controllen),
        left_out == (sender is Some && !sender_fits(old(data)@.len() as int, controllen)),
{
    match sender {
        None => false,
        Some(s) => {
            let need: u64 = cmsg_align(data.len()) as u64 + CMSG_HDR_LEN + UCRED_LEN;
            if need > controllen {
                return true;
            }
            let payload = sender_bytes(s);
            push_cmsg(data, SCM_CREDENTIALS, &payload);
            false
        },
    }
}

/// Hands the descriptors and the sender of a message to the caller, each where there is room
/// for it. Descriptors for which there is room are installed, until none can be had.
pub fn deliver_control(
    table: &mut FdTable,
    files: &Vec<u64>,
    sender: Option<Sender>,
    control: u64,
    controllen: u64,
) -> (r: Control)
    requires
        old(table).wf(),
        4 * files@.len() + 0x40 <= usize::MAX,
    ensures
        final(table).wf(),
        final(table).cap == old(table).cap,
        ({
            let n = files@.len() as int;
            if n == 0 && sender is None {
                r.data@.len() == 0 && !r.truncated && *final(table) == *old(table)
            } else if control == 0 {
                r.data@.len() == 0 && r.truncated && *final(table) == *old(table)
            } else if n > 0 && rights_fit(n, controllen) {
                exists|fds: Seq<u32>|
                    {
                        &&& #[trigger] files_installed(*old(table), *final(table), files@, fds)
                        &&& r.data@ == with_sender(rights_data(fds), sender, controllen)
                        &&& r.truncated == (sender is Some && !sender_fits(
                            rights_data(fds).len() as int,
                            controllen,
                        ))
                    }
            } else {
                &&& *final(table) == *old(table)
                &&& r.data@ == with_sender(Seq::empty(), sender, controllen)
                &&& r.truncated == (n > 0 || (sender is Some && !sender_fits(0, controllen)))
            }
        }),
{
    if files.len() == 0 && sender.is_none() {
        return Control { data: Vec::new(), truncated: false };
    }
    if control == 0 {
        return Control { data: Vec::new(), truncated: true };
    }
    if files.len() > 0 && CMSG_HDR_LEN + 4 * (files.len() as u64) <= controllen {
        let fds = install_files(table, files);
        assert(files_installed(*old(table), *table, files@, fds@));
        let mut data = rights_bytes(&fds);
        let truncated = add_sender(&mut data, sender, controllen);
        return Control { data, truncated };
    }
    let mut data: Vec<u8> = Vec::new();
    assert(data@ =~= Seq::empty());
    let left_out = add_sender(&mut data, sender, controllen);
    Control { data, truncated: files.len() > 0 || left_out }
}

pub const MSG_CTRUNC: u32 = 8;

/// What `recvmsg` tells of who sent the message: how long the address is, and as much of it
/// as there is room for.
pub fn name_told(name: u64, room: u32, src: &Option<Vec<u8>>) -> (r: (u32, Option<usize>))
    requires
        src is Some ==> src->0@.len() <= u32::MAX,
    ensures
        r == (if src is Some && name != 0 && room > 0 {
            (
                src->0@.len() as u32,
                Some(
                    if src->0@.len() < room {
                        src->0@.len() as usize
                    } else {
                        room as usize
                    },
                ),
            )
        } else {
            (0u32, None::<usize>)
        }),
{
    match src {
        Some(a) => {
            if name != 0 && room > 0 {
                let n: usize = if a.len() < room as usize {
                    a.len()
                } else {
                    room as usize
                };
                return (a.len() as u32, Some(n));
            }
            (0, None)
        },
        None => (0, None),
    }
}

/// Control data that is sent with descriptors is understood where it arrives: its head says
/// how many there are.
pub proof fn law_rights_are_understood(fds: Seq<u32>, controllen: u64)
    requires
        rights_fit(fds.len() as int, controllen),
    ensures
        rights_data(fds).len() == CMSG_HDR_LEN + 4 * fds.len(),
        rights_request(1, controllen, Some(rights_data(fds).take(16))) == Ok::<u64, i64>(
            fds.len() as u64,
        ),
{
    bytes::law_numbers_are_read_back(fds);
    let payload = bytes::put32s(fds);
    let len = (CMSG_HDR_LEN + payload.len()) as u64;
    let e = Seq::<u8>::empty();
    assert(e + bytes::zeros((aligned(0) - 0) as nat) =~= e);
    let head = bytes::put64(len) + bytes::put32(SCM_SOL_SOCKET) + bytes::put32(SCM_RIGHTS);
    let s = rights_data(fds);
    assert(s =~= head + payload);
    assert(s.take(16) =~= head);
    lemma_head(
        bytes::put64(len),
        bytes::put32(SCM_SOL_SOCKET),
        bytes::put32(SCM_RIGHTS),
    );
    bytes::lemma_at64(head, 0, len);
    bytes::lemma_at32(head, 8, SCM_SOL_SOCKET);
    bytes::lemma_at32(head, 12, SCM_RIGHTS);
}

proof fn lemma_head(a: Seq<u8>, b: Seq<u8>, c: Seq<u8>)
    requires
        a.len() == 8 && b.len() == 4 && c.len() == 4,
    ensures
        (a + b + c).len() == 16,
        (a + b + c).subrange(0, 8) == a,
        (a + b + c).subrange(8, 12) == b,
        (a + b + c).subrange(12, 16) == c,
{
    let s = a + b + c;
    assert(s.subrange(0, 8) =~= a);
    assert(s.subrange(8, 12) =~= b);
    assert(s.subrange(12, 16) =~= c);
}

} // verus!
