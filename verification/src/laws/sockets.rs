//! Sockets: their kinds, and the messages that go through them.

use vstd::prelude::*;

use super::layout;
use crate::bytes;
use crate::syscall::fs::iovec;
use crate::syscall::message;
use crate::syscall::net;
use crate::syscall::net::{MsgHeader, Sender, SocketKind};
use crate::syscall::vm_copy;
use crate::syscall::vm_copy::{CopyState, IoVec};
use crate::vfs::fd::{FdTable, OpenFd};

verus! {

/// The kinds of sockets by the numbers of their domain and type.
pub proof fn law_kinds_of_sockets(proto: u32)
    ensures
        proto != 1 && proto != 58 ==> net::socket_kind(2, 2, proto) == Some(
            SocketKind::Udp { v6: false },
        ) && net::socket_kind(10, 2, proto) == Some(SocketKind::Udp { v6: true }),
        proto == 1 || proto == 58 ==> net::socket_kind(2, 2, proto) == Some(SocketKind::Echo)
            && net::socket_kind(2, 3, proto) == Some(SocketKind::Echo) && net::socket_kind(
            10,
            2,
            proto,
        ) == Some(SocketKind::Echo) && net::socket_kind(10, 3, proto) == Some(SocketKind::Echo),
        proto != 1 && proto != 58 ==> net::socket_kind(2, 3, proto) is None,
        net::socket_kind(2, 1, proto) == Some(SocketKind::Tcp { v6: false }),
        net::socket_kind(10, 1, proto) == Some(SocketKind::Tcp { v6: true }),
        net::socket_kind(1, 1, proto) == Some(SocketKind::UnixStream),
        net::socket_kind(1, 2, proto) == Some(SocketKind::UnixDgram),
        net::socket_kind(1, 5, proto) == Some(SocketKind::UnixSeqpacket),
        net::socket_kind(1, 3, proto) is None,
        forall|stype: u32| #[trigger]
            net::socket_kind(16, stype, proto) == Some(
                SocketKind::Netlink { protocol: proto as i32 },
            ),
        forall|domain: u32, stype: u32|
            domain != 1 && domain != 2 && domain != 10 && domain != 16 ==> #[trigger]
            net::socket_kind(domain, stype, proto) is None,
{
}

/// The head of a message: the name, the parts and what goes with it.
pub proof fn law_head_of_a_message(h: Seq<u8>)
    ensures
        net::header_in(h) == (MsgHeader {
            name: bytes::le64(h, 0),
            name_len: bytes::le32(h, 8),
            iov: bytes::le64(h, 16),
            iov_len: bytes::le64(h, 24),
            control: bytes::le64(h, 32),
            control_len: bytes::le64(h, 40),
        }),
        net::MSGHDR_SIZE == 56,
{
}

/// A part of a message is sixteen bytes: where it is, and how long.
pub proof fn law_parts_of_a_message(b: Seq<u8>, i: int)
    requires
        0 <= i < b.len() / 16,
    ensures
        vm_copy::iovecs(b).len() == b.len() / 16,
        vm_copy::iovecs(b)[i] == (IoVec {
            base: bytes::le64(b, 16 * i),
            len: bytes::le64(b, 16 * i + 8),
        }),
        forall|n: u64| n > 1024 ==> #[trigger] iovec::parts_in(n, Some(b)) == Err::<Seq<IoVec>, i64>(
            -22i64,
        ),
        forall|n: u64|
            0 < n <= 1024 ==> #[trigger] iovec::parts_in(n, Some(b)) == Ok::<Seq<IoVec>, i64>(
                vm_copy::iovecs(b),
            ),
        iovec::parts_in(0, None) == Ok::<Seq<IoVec>, i64>(Seq::empty()),
        iovec::parts_in(1, None) == Err::<Seq<IoVec>, i64>(-14i64),
{
}

/// Files go with a message where what goes with it is of the first kind of the first level: as
/// many as there is room for numbers behind the sixteen bytes of its head.
pub proof fn law_files_that_go_with_a_message(control: u64, len: u64, head: Seq<u8>)
    requires
        control != 0,
        len >= 16,
    ensures
        ({
            let own = bytes::le64(head, 0);
            let r = net::rights_request(control, len, Some(head));
            let files = bytes::le32(head, 8) == 1 && bytes::le32(head, 12) == 1;
            &&& !files ==> r == Ok::<u64, i64>(0)
            &&& files && 16 <= own <= len ==> r == Ok::<u64, i64>(((own - 16) / 4) as u64)
            &&& files && (own < 16 || own > len) ==> r == Err::<u64, i64>(-22i64)
            &&& net::rights_request(control, len, None) == Err::<u64, i64>(-14i64)
            &&& net::rights_request(0, len, Some(head)) == Ok::<u64, i64>(0)
            &&& net::rights_request(control, 15, Some(head)) == Ok::<u64, i64>(0)
        }),
{
}

proof fn lemma_attached(buf: Seq<u8>, ctype: u32, payload: Seq<u8>)
    requires
        buf.len() <= 0x1_0000,
        payload.len() <= 0x1_0000,
    ensures
        ({
            let s = net::with_cmsg(buf, ctype, payload);
            let at = (buf.len() as int + 7) / 8 * 8;
            &&& s.len() == at + 16 + payload.len()
            &&& s.take(buf.len() as int) == buf
            &&& bytes::le64(s, at) == 16 + payload.len()
            &&& bytes::le32(s, at + 8) == 1
            &&& bytes::le32(s, at + 12) == ctype
            &&& s.skip(at + 16) == payload
        }),
{
    let at = (buf.len() as int + 7) / 8 * 8;
    let fill = bytes::zeros((at - buf.len()) as nat);
    let len = (16 + payload.len()) as u64;
    let s0 = buf + fill;
    let s1 = s0 + bytes::put64(len);
    layout::lemma_put64(s0, len);
    let s2 = s1 + bytes::put32(1);
    layout::lemma_put32(s1, 1);
    layout::lemma_behind(s1, bytes::put32(1));
    let s3 = s2 + bytes::put32(ctype);
    layout::lemma_put32(s2, ctype);
    layout::lemma_behind(s2, bytes::put32(ctype));
    layout::lemma_behind(s3, payload);
    let s = s3 + payload;
    assert(net::with_cmsg(buf, ctype, payload) == s);
    assert(s.take(buf.len() as int) =~= buf);
    assert(s.skip(at + 16) =~= payload);
}

/// What goes with a message is told with a head before it: how long it is with its head, its
/// level and its kind. It begins at the next group of eight bytes. The numbers of files are of
/// the kind `1`, and who sent the message, by process, user and group, is of the kind `2`.
pub proof fn law_what_goes_with_a_message_is_told(
    fds: Seq<u32>,
    sender: Sender,
    len: u64,
)
    requires
        fds.len() <= 253,
    ensures
        ({
            let rights = net::rights_data(fds);
            &&& rights.len() == 16 + 4 * fds.len()
            &&& bytes::le64(rights, 0) == 16 + 4 * fds.len()
            &&& bytes::le32(rights, 8) == 1
            &&& bytes::le32(rights, 12) == 1
            &&& rights.skip(16) == bytes::put32s(fds)
            &&& net::rights_fit(fds.len() as int, len) == (rights.len() <= len)
        }),
        ({
            let s = net::with_sender(Seq::empty(), Some(sender), len);
            &&& len < 28 ==> s.len() == 0
            &&& len >= 28 ==> {
                &&& s.len() == 28
                &&& bytes::le64(s, 0) == 28
                &&& bytes::le32(s, 8) == 1
                &&& bytes::le32(s, 12) == 2
                &&& s.skip(16) == bytes::put32s(seq![sender.pid as u32, sender.uid, sender.gid])
            }
        }),
        net::with_sender(bytes::put32s(fds), None, len) == bytes::put32s(fds),
{
    let none = Seq::<u8>::empty();
    bytes::law_numbers_are_read_back(fds);
    lemma_attached(none, 1, bytes::put32s(fds));
    let ids = seq![sender.pid as u32, sender.uid, sender.gid];
    bytes::law_numbers_are_read_back(ids);
    lemma_attached(none, 2, bytes::put32s(ids));
}

/// What was received is told at the end: the name as far as there is room, how long it is, how
/// much went with the message, and whether some of that is missing.
pub proof fn law_received_message_is_told(
    msg: u64,
    head: MsgHeader,
    src: Seq<u8>,
    control: u64,
    missing: bool,
)
    requires
        msg + 56 <= u64::MAX,
        head.name != 0,
        head.name_len > 0,
        src.len() <= 128,
    ensures
        ({
            let out = message::told_at_end(msg, head, Some(src), (control, missing));
            let n = if src.len() < head.name_len {
                src.len() as int
            } else {
                head.name_len as int
            };
            out == seq![
                (head.name, src.take(n)),
                ((msg + 8) as u64, bytes::put32(src.len() as u32)),
                ((msg + 40) as u64, bytes::put64(control)),
                (
                    (msg + 48) as u64,
                    bytes::put32(
                        if missing {
                            8u32
                        } else {
                            0
                        },
                    ),
                ),
            ]
        }),
        message::told_at_end(msg, head, None, (control, missing)).len() == 3,
        message::told_at_end(msg, head, None, (control, missing))[0] == (
            (msg + 8) as u64,
            bytes::put32(0),
        ),
{
    let n = if src.len() < head.name_len {
        src.len() as int
    } else {
        head.name_len as int
    };
    let out = message::told_at_end(msg, head, Some(src), (control, missing));
    assert(out =~= seq![
        (head.name, src.take(n)),
        ((msg + 8) as u64, bytes::put32(src.len() as u32)),
        ((msg + 40) as u64, bytes::put64(control)),
        (
            (msg + 48) as u64,
            bytes::put32(
                if missing {
                    8u32
                } else {
                    0
                },
            ),
        ),
    ]);
}

/// What went with a message and could not be handed over is missing.
pub proof fn law_control_that_is_missing(data: Seq<u8>, truncated: bool)
    requires
        data.len() <= u64::MAX,
    ensures
        data.len() == 0 ==> message::control_told(data, truncated, true) == (0u64, truncated),
        data.len() > 0 ==> message::control_told(data, truncated, true) == (
            data.len() as u64,
            truncated,
        ),
        data.len() > 0 ==> message::control_told(data, truncated, false) == (0u64, true),
{
}

/// Files that go with a message are those that the descriptors stand for, in their order.
pub proof fn law_descriptors_stand_for_the_files_passed(
    table: FdTable,
    reads: Seq<Option<u32>>,
    n: int,
    k: int,
)
    requires
        0 <= k < n <= reads.len(),
        forall|i: int|
            0 <= i < n ==> (#[trigger] reads[i]) is Some && table.file_at((reads[i]->0 as i32) as int)
                is Some,
    ensures
        ({
            let r = message::files_passed(table, reads, n);
            &&& r is Ok
            &&& r->Ok_0.len() == n
            &&& Some(r->Ok_0[k]) == table.file_at((reads[k]->0 as i32) as int)
        }),
    decreases n,
{
    let last = reads[n - 1];
    if n == 1 {
        assert(message::files_passed(table, reads, 0) == Ok::<Seq<u64>, i64>(Seq::empty()));
    } else {
        law_descriptors_stand_for_the_files_passed(table, reads, n - 1, 0);
        if k < n - 1 {
            law_descriptors_stand_for_the_files_passed(table, reads, n - 1, k);
        }
    }
}

/// The first descriptor that cannot be read, or stands for no file, is the error.
pub proof fn law_files_that_cannot_be_passed(table: FdTable, reads: Seq<Option<u32>>, n: int, k: int)
    requires
        0 <= k < n <= reads.len(),
        message::files_passed(table, reads, k) is Ok,
        reads[k] is None || table.file_at((reads[k]->0 as i32) as int) is None,
    ensures
        ({
            let r = message::files_passed(table, reads, n);
            &&& r is Err
            &&& r->Err_0 == (if reads[k] is None {
                -14i64
            } else {
                -9i64
            })
        }),
    decreases n,
{
    if k < n - 1 {
        law_files_that_cannot_be_passed(table, reads, n - 1, k);
    }
}

/// Each file that came with a message gets a descriptor of its own, that was free, in order.
pub proof fn law_files_that_came_are_open(
    before: FdTable,
    after: FdTable,
    files: Seq<u64>,
    fds: Seq<u32>,
    steps: Seq<FdTable>,
    k: int,
)
    requires
        net::is_run(before, after, files, fds, steps),
        before.cap > 0,
        0 <= k < fds.len() <= files.len(),
    ensures
        after.file_at(fds[k] as int) == Some(files[k]),
        before.file_at(fds[k] as int) is None,
        forall|fd: int|
            before.file_at(fd) is Some ==> #[trigger] after.file_at(fd) == before.file_at(fd),
    decreases fds.len(),
{
    let n = fds.len() as int;
    assert(net::is_run_step(steps[n - 1], steps[n - 1 + 1], files[n - 1], fds[n - 1]));
    let front = fds.drop_last();
    let begun = steps.drop_last();
    assert forall|i: int| 0 <= i < front.len() implies net::is_run_step(
        #[trigger] begun[i],
        begun[i + 1],
        files[i],
        front[i],
    ) by {
        assert(net::is_run_step(steps[i], steps[i + 1], files[i], fds[i]));
    }
    assert(begun.last() == steps[n - 1]);
    assert(net::is_run(before, begun.last(), files, front, begun));
    lemma_same_cap(before, begun.last(), files, front, begun);
    let prior = begun.last();
    assert(after@ == prior@.insert(
        (fds[n - 1] as i32) as int,
        OpenFd { file: files[n - 1], fd_flags: 0 },
    ));
    if n > 1 {
        law_files_that_came_are_open(before, prior, files, front, begun, 0);
        if k < n - 1 {
            law_files_that_came_are_open(before, prior, files, front, begun, k);
            assert(front[k] == fds[k]);
        }
    } else {
        assert(prior == before);
    }
    assert forall|fd: int| before.file_at(fd) is Some implies #[trigger] after.file_at(fd)
        == before.file_at(fd) by {
        assert(prior.file_at(fd) == before.file_at(fd));
    }
    if before.file_at(fds[k] as int) is Some {
        assert(prior.file_at(fds[k] as int) == before.file_at(fds[k] as int));
    }
}

proof fn lemma_same_cap(
    before: FdTable,
    after: FdTable,
    files: Seq<u64>,
    fds: Seq<u32>,
    steps: Seq<FdTable>,
)
    requires
        net::is_run(before, after, files, fds, steps),
        before.cap > 0,
    ensures
        after.cap == before.cap,
    decreases fds.len(),
{
    let n = fds.len() as int;
    if n > 0 {
        assert(net::is_run_step(steps[n - 1], steps[n - 1 + 1], files[n - 1], fds[n - 1]));
        let front = fds.drop_last();
        let begun = steps.drop_last();
        assert forall|i: int| 0 <= i < front.len() implies net::is_run_step(
            #[trigger] begun[i],
            begun[i + 1],
            files[i],
            front[i],
        ) by {
            assert(net::is_run_step(steps[i], steps[i + 1], files[i], fds[i]));
        }
        lemma_same_cap(before, begun.last(), files, front, begun);
    }
}

/// A message is received into the parts that are listed, up to their room and a limit; without
/// room nothing is received.
pub proof fn law_message_is_received_into_its_parts(h: Seq<u8>, raw: Seq<u8>, open: bool)
    requires
        0 < bytes::le64(h, 24) <= 1024,
    ensures
        ({
            let parts = vm_copy::iovecs(raw);
            let room = vm_copy::total(parts, parts.len() as int);
            let r = message::receiving(Some(h), Some(raw), open);
            &&& room == 0 ==> r is Err && r->Err_0 == 0
            &&& room > 0 && !open ==> r is Err && r->Err_0 == -9
            &&& room > 0 && open ==> r is Ok && {
                &&& r->Ok_0.parts == parts
                &&& r->Ok_0.head == net::header_in(h)
                &&& room <= 0x4_0000 ==> r->Ok_0.len == room
                &&& room > 0x4_0000 ==> r->Ok_0.len == 0x4_0000
            }
            &&& message::receiving(None, Some(raw), open) matches Err(e) && e == -14
            &&& message::receiving(Some(h), None, open) matches Err(e) && e == -14
        }),
{
}

/// A message is sent from the parts that are listed, up to a limit, with the files; without
/// either nothing is sent.
pub proof fn law_message_is_sent_from_its_parts(
    h: Seq<u8>,
    raw: Seq<u8>,
    files: Seq<u64>,
    open: bool,
)
    requires
        0 < bytes::le64(h, 24) <= 1024,
    ensures
        ({
            let parts = vm_copy::iovecs(raw);
            let total = vm_copy::total(parts, parts.len() as int);
            let r = message::sending(Some(h), Some(raw), Ok(files), open);
            let nothing = total == 0 && files.len() == 0;
            &&& nothing ==> r is Err && r->Err_0 == 0
            &&& !nothing && !open ==> r is Err && r->Err_0 == -9
            &&& !nothing && open ==> r is Ok && {
                &&& r->Ok_0.files == files
                &&& total <= 0x10_0000 ==> r->Ok_0.len == total
                &&& total > 0x10_0000 ==> r->Ok_0.len == 0x10_0000
                &&& r->Ok_0.pieces == iovec::spread(parts, r->Ok_0.len as int, parts.len() as int)
            }
            &&& message::sending(None, Some(raw), Ok(files), open) matches Err(e) && e == -14
            &&& message::sending(Some(h), None, Ok(files), open) matches Err(e) && e == -14
        }),
{
}

/// A copy goes on at the first place on either side where there is something left; what was
/// copied does not change, and what is passed over is empty.
pub proof fn law_copy_goes_on_where_something_is_left(
    s: CopyState,
    local: Seq<IoVec>,
    remote: Seq<IoVec>,
    i: int,
)
    requires
        local.len() <= usize::MAX,
        remote.len() <= usize::MAX,
    ensures
        ({
            let r = vm_copy::past_empty(s, local, remote);
            &&& r.copied == s.copied
            &&& r.local < local.len() && r.remote < remote.len() ==> r.local_off
                < local[r.local as int].len && r.remote_off < remote[r.remote as int].len
            &&& s.local <= r.local
            &&& s.remote <= r.remote
            &&& r.local == s.local ==> r.local_off == s.local_off
            &&& r.local > s.local ==> r.local_off == 0 && s.local_off >= local[s.local as int].len
            &&& s.local < i < r.local ==> local[i].len == 0
            &&& r.remote == s.remote ==> r.remote_off == s.remote_off
            &&& r.remote > s.remote ==> r.remote_off == 0 && s.remote_off
                >= remote[s.remote as int].len
            &&& s.remote < i < r.remote ==> remote[i].len == 0
        }),
    decreases local.len() - s.local + remote.len() - s.remote,
{
    if s.local < local.len() && s.remote < remote.len() {
        let local_done = s.local_off >= local[s.local as int].len;
        let remote_done = s.remote_off >= remote[s.remote as int].len;
        if local_done || remote_done {
            let next = CopyState {
                local: if local_done {
                    (s.local + 1) as usize
                } else {
                    s.local
                },
                local_off: if local_done {
                    0
                } else {
                    s.local_off
                },
                remote: if remote_done {
                    (s.remote + 1) as usize
                } else {
                    s.remote
                },
                remote_off: if remote_done {
                    0
                } else {
                    s.remote_off
                },
                ..s
            };
            law_copy_goes_on_where_something_is_left(next, local, remote, i);
        }
    }
}

/// Memory of another process is copied between the parts that are listed on either side.
pub proof fn law_copies_between_the_parts_listed(
    n: u64,
    local: Seq<u8>,
    m: u64,
    remote: Seq<u8>,
    space: bool,
)
    ensures
        ({
            let r = vm_copy::copy_parts(n, Some(local), m, Some(remote), space);
            &&& !space ==> r is Err && r->Err_0 == -3
            &&& space ==> r is Ok
            &&& space && n > 0 ==> r->Ok_0.0 == vm_copy::iovecs(local)
            &&& space && m > 0 ==> r->Ok_0.1 == vm_copy::iovecs(remote)
            &&& space && n == 0 ==> r->Ok_0.0.len() == 0
            &&& space && m == 0 ==> r->Ok_0.1.len() == 0
        }),
        n > 0 ==> vm_copy::copy_parts(n, None, m, Some(remote), space) is Err,
        m > 0 ==> vm_copy::copy_parts(n, Some(local), m, None, space) is Err,
        n > 0 ==> vm_copy::copy_parts(n, None, m, Some(remote), space)->Err_0 == -14,
        m > 0 ==> vm_copy::copy_parts(n, Some(local), m, None, space)->Err_0 == -14,
{
}

/// Where the sender is not asked for, nothing is told of it but that its name has no length.
pub proof fn law_sender_that_is_not_asked_for(
    msg: u64,
    head: MsgHeader,
    src: Seq<u8>,
    control: u64,
    missing: bool,
)
    requires
        head.name == 0 || head.name_len == 0,
    ensures
        message::told_at_end(msg, head, Some(src), (control, missing)) == message::told_at_end(
            msg,
            head,
            None,
            (control, missing),
        ),
{
}

} // verus!
