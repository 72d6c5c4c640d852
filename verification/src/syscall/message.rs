//! Messages of several parts: how `sendmsg` and `recvmsg` go from the head of a message to the
//! answer.
use super::dispatch;
use super::fs::file_io;
use super::fs::iovec;
use super::fs::iovec::Piece;
use super::net;
use super::net::{Control, MsgHeader};
use super::reply;
use super::reply::{CopyOut, Reply, ReplyView};
use super::util;
use super::vm_copy;
use super::vm_copy::IoVec;
use crate::bytes;
use crate::errno;
use crate::vfs::fd::FdTable;
use vstd::prelude::*;

verus! {

/// What a message is received with.
pub struct Receive {
    pub head: MsgHeader,
    pub parts: Vec<IoVec>,
    /// How many bytes are asked for.
    pub len: u64,
}

#[verifier::ext_equal]
pub ghost struct ReceiveView {
    pub head: MsgHeader,
    pub parts: Seq<IoVec>,
    pub len: u64,
}

pub open spec fn receive_view(r: Result<Receive, i64>) -> Result<ReceiveView, i64> {
    match r {
        Ok(m) => Ok(ReceiveView { head: m.head, parts: m.parts@, len: m.len }),
        Err(e) => Err(e),
    }
}

/// What a message is received with, or an answer at once: without room nothing is received.
/// `head` and `raw` are the head of the message and the list of its parts, as they were read.
pub open spec fn receiving(head: Option<Seq<u8>>, raw: Option<Seq<u8>>, open: bool) -> Result<
    ReceiveView,
    i64,
> {
    match head {
        None => Err(errno::EFAULT),
        Some(h) => {
            let head = net::header_in(h);
            match iovec::parts_in(head.iov_len, raw) {
                Err(e) => Err(e),
                Ok(parts) => {
                    let room = iovec::capacity(parts, parts.len() as int);
                    if room == 0 {
                        Err(0)
                    } else if !open {
                        Err(errno::EBADF)
                    } else {
                        Ok(
                            ReceiveView {
                                head,
                                parts,
                                len: file_io::at_most(room, file_io::READ_BUF_MAX),
                            },
                        )
                    }
                },
            }
        },
    }
}

/// The list of parts was read as far as the head of the message says.
pub open spec fn list_fits(head: Option<Vec<u8>>, raw: Option<Vec<u8>>) -> bool {
    &&& head is Some ==> head->0@.len() == net::MSGHDR_SIZE
    &&& head is Some && raw is Some ==> raw->0@.len() == 16 * net::header_in(head->0@).iov_len
}

/// `recvmsg`, up to the place where bytes are waited for.
pub fn sys_recvmsg(head: Option<Vec<u8>>, raw: Option<Vec<u8>>, open: bool) -> (r: Result<
    Receive,
    i64,
>)
    requires
        list_fits(head, raw),
    ensures
        receive_view(r) == receiving(util::bytes_view(head), util::bytes_view(raw), open),
{
    let head = match head {
        None => {
            return Err(errno::EFAULT);
        },
        Some(h) => net::read_header(&h),
    };
    let parts = match iovec::read_iovecs(head.iov_len, raw) {
        Err(e) => {
            return Err(e);
        },
        Ok(v) => v,
    };
    let room: u64 = iovec::total_len(&parts);
    if room == 0 {
        return Err(0);
    }
    if !open {
        return Err(errno::EBADF);
    }
    let len: u64 = if room > file_io::READ_BUF_MAX {
        file_io::READ_BUF_MAX
    } else {
        room
    };
    Ok(Receive { head, parts, len })
}

/// Bytes for the parts, in turn: each part is filled before the next one is begun.
pub open spec fn scattered(parts: Seq<IoVec>, data: Seq<u8>) -> Seq<(u64, Seq<u8>)> {
    let pieces = iovec::spread(parts, data.len() as int, parts.len() as int);
    Seq::new(
        pieces.len(),
        |i: int| (pieces[i].base, data.subrange(pieces[i].from as int, pieces[i].from + pieces[i].len)),
    )
}

/// Hands what was received to the caller. The answer is how much that was.
pub fn scatter(parts: &Vec<IoVec>, data: &Vec<u8>) -> (r: Reply)
    requires
        data@.len() <= i64::MAX,
    ensures
        r@ == (ReplyView { code: data@.len() as i64, out: scattered(parts@, data@) }),
{
    let pieces = iovec::spread_over(parts, data.len() as u64);
    proof {
        iovec::lemma_pieces_are_within(parts@, data@.len() as int, parts@.len() as int);
    }
    let mut r = Reply::plain(data.len() as i64);
    let mut i: usize = 0;
    while i < pieces.len()
        invariant
            i <= pieces@.len(),
            data@.len() <= i64::MAX,
            pieces@ == iovec::spread(parts@, data@.len() as int, parts@.len() as int),
            forall|k: int|
                0 <= k < pieces@.len() ==> {
                    let p = #[trigger] pieces@[k];
                    p.from + p.len <= data@.len()
                },
            r@ == (ReplyView {
                code: data@.len() as i64,
                out: scattered(parts@, data@).take(i as int),
            }),
        decreases pieces.len() - i,
    {
        let p = pieces[i];
        assert(pieces@[i as int].from + pieces@[i as int].len <= data.len());
        let piece = bytes::part(data, p.from as usize, (p.from + p.len) as usize);
        let ghost before = r@;
        let ghost b = piece@;
        r.out.push(CopyOut { to: p.base, bytes: piece });
        i += 1;
        assert(r@.out =~= before.out.push((p.base, b)));
        assert(scattered(parts@, data@).take(i as int) =~= scattered(parts@, data@).take(
            i - 1,
        ).push(scattered(parts@, data@)[i - 1]));
    }
    assert(scattered(parts@, data@).take(i as int) =~= scattered(parts@, data@));
    r
}

/// How much control data the caller got, and whether some was left out: what could not be
/// copied was left out.
pub open spec fn control_told(data: Seq<u8>, truncated: bool, copied: bool) -> (u64, bool) {
    if data.len() == 0 {
        (0, truncated)
    } else if !copied {
        (0, true)
    } else {
        (data.len() as u64, truncated)
    }
}

/// What the caller is told at the end: who sent the message, as far as there is room, and in the
/// head how long that and the control data are, and whether control data was left out.
pub open spec fn told_at_end(
    msg: u64,
    head: MsgHeader,
    src: Option<Seq<u8>>,
    control: (u64, bool),
) -> Seq<(u64, Seq<u8>)> {
    let wanted = src is Some && head.name != 0 && head.name_len > 0;
    let name = if wanted {
        let n = if src->0.len() < head.name_len {
            src->0.len() as int
        } else {
            head.name_len as int
        };
        seq![(head.name, src->0.take(n))]
    } else {
        Seq::empty()
    };
    let name_len = if wanted {
        src->0.len() as u32
    } else {
        0
    };
    let flags = if control.1 {
        net::MSG_CTRUNC
    } else {
        0
    };
    name + seq![
        ((msg + net::MH_NAMELEN) as u64, bytes::put32(name_len)),
        ((msg + net::MH_CONTROLLEN) as u64, bytes::put64(control.0)),
        ((msg + net::MH_FLAGS) as u64, bytes::put32(flags)),
    ]
}

/// The end of `recvmsg`: what is copied to the caller, each whether or not the others can be.
/// `copied` says whether the control data could be.
pub fn recvmsg_end(
    msg: u64,
    head: MsgHeader,
    src: &Option<Vec<u8>>,
    control: &Control,
    copied: bool,
) -> (out: Vec<CopyOut>)
    requires
        msg + net::MSGHDR_SIZE <= u64::MAX,
        src is Some ==> src->0@.len() <= u32::MAX,
    ensures
        reply::copies_view(out@) == told_at_end(
            msg,
            head,
            util::bytes_view(*src),
            control_told(control.data@, control.truncated, copied),
        ),
{
    let (name_len, shown) = net::name_told(head.name, head.name_len, src);
    let mut out: Vec<CopyOut> = Vec::new();
    match (src, shown) {
        (Some(a), Some(n)) => {
            let name = bytes::part(a, 0, n);
            assert(name@ =~= a@.take(n as int));
            out.push(CopyOut { to: head.name, bytes: name });
        },
        _ => {},
    }
    let (len, truncated): (u64, bool) = if control.data.len() == 0 {
        (0, control.truncated)
    } else if !copied {
        (0, true)
    } else {
        (control.data.len() as u64, control.truncated)
    };
    let flags: u32 = if truncated {
        net::MSG_CTRUNC
    } else {
        0
    };
    let mut b: Vec<u8> = Vec::new();
    bytes::push_u32(&mut b, name_len);
    assert(b@ =~= bytes::put32(name_len));
    out.push(CopyOut { to: msg + net::MH_NAMELEN, bytes: b });
    let mut b: Vec<u8> = Vec::new();
    bytes::push_u64(&mut b, len);
    assert(b@ =~= bytes::put64(len));
    out.push(CopyOut { to: msg + net::MH_CONTROLLEN, bytes: b });
    let mut b: Vec<u8> = Vec::new();
    bytes::push_u32(&mut b, flags);
    assert(b@ =~= bytes::put32(flags));
    out.push(CopyOut { to: msg + net::MH_FLAGS, bytes: b });
    assert(reply::copies_view(out@) =~= told_at_end(
        msg,
        head,
        util::bytes_view(*src),
        control_told(control.data@, control.truncated, copied),
    ));
    out
}

/// The open files that the descriptors of a message stand for, as far as the first `n`; or why
/// the first of them that stands for none does not.
pub open spec fn files_passed(table: FdTable, reads: Seq<Option<u32>>, n: int) -> Result<
    Seq<u64>,
    i64,
>
    decreases n,
{
    if n <= 0 {
        Ok(Seq::empty())
    } else {
        match files_passed(table, reads, n - 1) {
            Err(e) => Err(e),
            Ok(files) => match reads[n - 1] {
                None => Err(errno::EFAULT),
                Some(fd) => match table.file_at((fd as i32) as int) {
                    None => Err(errno::EBADF),
                    Some(file) => Ok(files.push(file)),
                },
            },
        }
    }
}

pub open spec fn files_view(r: Result<Vec<u64>, i64>) -> Result<Seq<u64>, i64> {
    match r {
        Ok(v) => Ok(v@),
        Err(e) => Err(e),
    }
}

proof fn lemma_failure_stays(table: FdTable, reads: Seq<Option<u32>>, m: int, n: int)
    requires
        m <= n,
        files_passed(table, reads, m) is Err,
    ensures
        files_passed(table, reads, n) == files_passed(table, reads, m),
    decreases n - m,
{
    if m < n {
        lemma_failure_stays(table, reads, m, n - 1);
    }
}

/// The open files that the descriptors of a message stand for.
pub fn passed_files(table: &FdTable, reads: &Vec<Option<u32>>) -> (r: Result<Vec<u64>, i64>)
    ensures
        files_view(r) == files_passed(*table, reads@, reads@.len() as int),
{
    let mut files: Vec<u64> = Vec::new();
    assert(files@ =~= Seq::empty());
    let mut i: usize = 0;
    while i < reads.len()
        invariant
            i <= reads@.len(),
            files_passed(*table, reads@, i as int) == Ok::<Seq<u64>, i64>(files@),
        decreases reads.len() - i,
    {
        match net::passed_file(table, reads[i]) {
            Err(e) => {
                proof {
                    assert(files_passed(*table, reads@, i + 1) == Err::<Seq<u64>, i64>(e));
                    lemma_failure_stays(*table, reads@, i + 1, reads@.len() as int);
                }
                return Err(e);
            },
            Ok(file) => {
                files.push(file);
            },
        }
        i += 1;
    }
    Ok(files)
}

/// What a message is sent with: where its bytes are, and the files that go with it.
pub struct Send {
    pub pieces: Vec<Piece>,
    pub len: u64,
    pub files: Vec<u64>,
}

#[verifier::ext_equal]
pub ghost struct SendView {
    pub pieces: Seq<Piece>,
    pub len: u64,
    pub files: Seq<u64>,
}

pub open spec fn send_view(r: Result<Send, i64>) -> Result<SendView, i64> {
    match r {
        Ok(m) => Ok(SendView { pieces: m.pieces@, len: m.len, files: m.files@ }),
        Err(e) => Err(e),
    }
}

/// What a message is sent with, or an answer at once: a message of neither bytes nor files is
/// not sent.
pub open spec fn sending(
    head: Option<Seq<u8>>,
    raw: Option<Seq<u8>>,
    files: Result<Seq<u64>, i64>,
    open: bool,
) -> Result<SendView, i64> {
    match head {
        None => Err(errno::EFAULT),
        Some(h) => match iovec::parts_in(net::header_in(h).iov_len, raw) {
            Err(e) => Err(e),
            Ok(parts) => match files {
                Err(e) => Err(e),
                Ok(files) => {
                    let total = iovec::capacity(parts, parts.len() as int);
                    let len = file_io::at_most(total, dispatch::WRITE_BUF_MAX);
                    if total == 0 && files.len() == 0 {
                        Err(0)
                    } else if !open {
                        Err(errno::EBADF)
                    } else {
                        Ok(
                            SendView {
                                pieces: iovec::spread(parts, len as int, parts.len() as int),
                                len,
                                files,
                            },
                        )
                    }
                },
            },
        },
    }
}

/// `sendmsg`, up to the place where its bytes are read. `files` is what became of the
/// descriptors in its control data.
pub fn sys_sendmsg(
    head: Option<Vec<u8>>,
    raw: Option<Vec<u8>>,
    files: Result<Vec<u64>, i64>,
    open: bool,
) -> (r: Result<Send, i64>)
    requires
        list_fits(head, raw),
    ensures
        send_view(r) == sending(
            util::bytes_view(head),
            util::bytes_view(raw),
            files_view(files),
            open,
        ),
{
    let head = match head {
        None => {
            return Err(errno::EFAULT);
        },
        Some(h) => net::read_header(&h),
    };
    let parts = match iovec::read_iovecs(head.iov_len, raw) {
        Err(e) => {
            return Err(e);
        },
        Ok(v) => v,
    };
    let files = match files {
        Err(e) => {
            return Err(e);
        },
        Ok(f) => f,
    };
    let total: u64 = iovec::total_len(&parts);
    if total == 0 && files.len() == 0 {
        return Err(0);
    }
    if !open {
        return Err(errno::EBADF);
    }
    let len: u64 = if total > dispatch::WRITE_BUF_MAX {
        dispatch::WRITE_BUF_MAX
    } else {
        total
    };
    let pieces = iovec::spread_over(&parts, len);
    Ok(Send { pieces, len, files })
}

/// How a message goes out.
#[derive(Clone, Copy, PartialEq, Eq, Structural, Debug)]
pub enum Outgoing {
    Reply(i64),
    /// As bytes alone.
    Bytes { nonblock: bool },
    /// With files.
    WithFiles { nonblock: bool },
}

/// How a message goes out, once its bytes were read or could not be.
pub fn sendmsg_out(read: bool, files: usize, file_nonblock: bool, flags: u64) -> (r: Outgoing)
    ensures
        r == ({
            let nonblock = file_nonblock || flags & net::MSG_DONTWAIT != 0;
            if !read {
                Outgoing::Reply(errno::EFAULT)
            } else if files == 0 {
                Outgoing::Bytes { nonblock }
            } else {
                Outgoing::WithFiles { nonblock }
            }
        }),
{
    if !read {
        return Outgoing::Reply(errno::EFAULT);
    }
    let nonblock = net::does_not_wait(file_nonblock, flags);
    if files == 0 {
        Outgoing::Bytes { nonblock }
    } else {
        Outgoing::WithFiles { nonblock }
    }
}

/// What is received fills the parts without gaps: together they hold as much as was received,
/// as far as there is room.
pub proof fn law_received_bytes_are_handed_over(parts: Seq<IoVec>, data: Seq<u8>, i: int)
    requires
        data.len() <= u64::MAX,
        0 <= i < scattered(parts, data).len(),
    ensures
        iovec::pieces_len(iovec::spread(parts, data.len() as int, parts.len() as int))
            == iovec::least(vm_copy::total(parts, parts.len() as int) as int, data.len() as int),
        ({
            let pieces = iovec::spread(parts, data.len() as int, parts.len() as int);
            let from = iovec::pieces_len(pieces.take(i)) as int;
            scattered(parts, data)[i] == (
                pieces[i].base,
                data.subrange(from, from + pieces[i].len),
            )
        }),
{
    iovec::law_spread_loses_nothing(parts, data.len() as u64, parts.len() as int);
}

} // verus!
