//! Pipes: a bounded queue of bytes between readers and writers.

use std::collections::VecDeque;

use vstd::prelude::*;

use crate::vfs::{InodeKind, OpenFlags, Stat, TimeSpec};

verus! {

pub const PIPE_CAPACITY: usize = 65_536;

pub const POLL_IN: u16 = 0x1;
pub const POLL_OUT: u16 = 0x4;
pub const POLL_HUP: u16 = 0x10;

/// The bytes on their way, and how many ends are open for reading and for writing.
pub struct Pipe {
    pub buf: VecDeque<u8>,
    pub readers: u32,
    pub writers: u32,
}

/// What one attempt to read came to.
#[derive(Clone, Copy, Debug, PartialEq, Eq, Structural)]
pub enum ReadStep {
    Drained(usize),
    Eof,
    WouldPark,
}

/// What one attempt to write came to.
#[derive(Clone, Copy, Debug, PartialEq, Eq, Structural)]
pub enum WriteStep {
    Wrote(usize),
    BrokenPipe,
    WouldPark,
}

/// Whom to wake after an attempt to read or write that went through.
#[derive(Clone, Copy, Debug, PartialEq, Eq, Structural)]
pub enum Wake {
    Nobody,
    OneReader,
    OneWriter,
}

pub open spec fn min(a: int, b: int) -> int {
    if a <= b {
        a
    } else {
        b
    }
}

/// `after` holds the first `n` elements of `data`, then what `before` held there.
pub open spec fn filled(before: Seq<u8>, after: Seq<u8>, data: Seq<u8>, n: int) -> bool {
    after == data.take(n) + before.skip(n)
}

/// What of `data` is put in behind the bytes on their way: as much as there is room for, and
/// nothing without a reader.
pub open spec fn put_in(pending: Seq<u8>, readers: u32, data: Seq<u8>) -> Seq<u8> {
    if readers == 0 {
        Seq::empty()
    } else {
        data.take(min(data.len() as int, PIPE_CAPACITY - pending.len()))
    }
}

/// What is taken out of the bytes on their way by a read of up to `n` bytes.
pub open spec fn taken_out(pending: Seq<u8>, n: int) -> Seq<u8> {
    pending.take(min(pending.len() as int, n))
}

impl Pipe {
    /// The bytes that were written and not yet read, oldest first.
    pub open spec fn bytes(&self) -> Seq<u8> {
        self.buf@
    }

    pub open spec fn wf(&self) -> bool {
        self.bytes().len() <= PIPE_CAPACITY
    }

    /// A pipe with no end open.
    pub fn new() -> (pipe: Pipe)
        ensures
            pipe.wf(),
            pipe.bytes() == Seq::<u8>::empty(),
            pipe.readers == 0,
            pipe.writers == 0,
    {
        Pipe { buf: VecDeque::with_capacity(PIPE_CAPACITY), readers: 0, writers: 0 }
    }

    /// Counts an end that was opened.
    pub fn bump_open(&mut self, readable: bool, writable: bool)
        requires
            old(self).wf(),
            readable ==> old(self).readers < u32::MAX,
            writable ==> old(self).writers < u32::MAX,
        ensures
            final(self).wf(),
            final(self).bytes() == old(self).bytes(),
            final(self).readers == old(self).readers + (if readable {
                1int
            } else {
                0
            }),
            final(self).writers == old(self).writers + (if writable {
                1int
            } else {
                0
            }),
    {
        if writable {
            self.writers = self.writers + 1;
        }
        if readable {
            self.readers = self.readers + 1;
        }
    }

    /// Counts an end that was closed. Says whether all readers, and whether all writers,
    /// are to be woken: those whose last counterpart is gone.
    pub fn drop_close(&mut self, readable: bool, writable: bool) -> (wake: (bool, bool))
        requires
            old(self).wf(),
        ensures
            final(self).wf(),
            final(self).bytes() == old(self).bytes(),
            final(self).readers == (if readable && old(self).readers > 0 {
                old(self).readers - 1
            } else {
                old(self).readers as int
            }),
            final(self).writers == (if writable && old(self).writers > 0 {
                old(self).writers - 1
            } else {
                old(self).writers as int
            }),
            wake.0 == (writable && final(self).writers == 0),
            wake.1 == (readable && final(self).readers == 0),
    {
        let mut wake_readers = false;
        let mut wake_writers = false;
        if writable {
            if self.writers > 0 {
                self.writers = self.writers - 1;
            }
            if self.writers == 0 {
                wake_readers = true;
            }
        }
        if readable {
            if self.readers > 0 {
                self.readers = self.readers - 1;
            }
            if self.readers == 0 {
                wake_writers = true;
            }
        }
        (wake_readers, wake_writers)
    }

    /// Takes an end into account that is opened.
    pub fn on_open(&mut self, flags: OpenFlags)
        requires
            old(self).wf(),
            flags.readable() ==> old(self).readers < u32::MAX,
            flags.writable() ==> old(self).writers < u32::MAX,
        ensures
            final(self).wf(),
            final(self).bytes() == old(self).bytes(),
            final(self).readers == old(self).readers + (if flags.readable() {
                1int
            } else {
                0
            }),
            final(self).writers == old(self).writers + (if flags.writable() {
                1int
            } else {
                0
            }),
    {
        self.bump_open(flags.is_readable(), flags.is_writable());
    }

    /// Takes an end into account that is closed. All readers, then all writers, are woken where
    /// the result says so: the last one on the other side has gone.
    pub fn on_close(&mut self, flags: OpenFlags) -> (wake: (bool, bool))
        requires
            old(self).wf(),
        ensures
            final(self).wf(),
            final(self).bytes() == old(self).bytes(),
            final(self).readers == (if flags.readable() && old(self).readers > 0 {
                old(self).readers - 1
            } else {
                old(self).readers as int
            }),
            final(self).writers == (if flags.writable() && old(self).writers > 0 {
                old(self).writers - 1
            } else {
                old(self).writers as int
            }),
            wake == (
                flags.writable() && final(self).writers == 0,
                flags.readable() && final(self).readers == 0,
            ),
    {
        self.drop_close(flags.is_readable(), flags.is_writable())
    }

    /// What the pipe is ready for, as `poll` tells it.
    pub fn poll(&self) -> (mask: u16)
        ensures
            mask == (if self.bytes().len() > 0 || self.writers == 0 {
                POLL_IN
            } else {
                0
            }) + (if self.bytes().len() < PIPE_CAPACITY || self.readers == 0 {
                POLL_OUT
            } else {
                0
            }) + (if self.writers == 0 && self.bytes().len() == 0 {
                POLL_HUP
            } else {
                0
            }),
    {
        let (readable, writable, over) = self.poll_in_out_hup();
        let mut mask: u16 = 0;
        if readable {
            mask = mask + POLL_IN;
        }
        if writable {
            mask = mask + POLL_OUT;
        }
        if over {
            mask = mask + POLL_HUP;
        }
        mask
    }

    /// The attributes of the pipe: its size is what it holds.
    pub fn stat(&self) -> (stat: Stat)
        ensures
            stat == (Stat {
                size: self.bytes().len() as u64,
                kind: InodeKind::Pipe,
                mode: 0o600,
                nlink: 1,
                uid: 0,
                gid: 0,
                inode_id: 0,
                dev_id: 0,
                rdev: 0,
                blksize: 4096,
                blocks: 0,
                atime: TimeSpec { sec: 0, nsec: 0 },
                mtime: TimeSpec { sec: 0, nsec: 0 },
                ctime: TimeSpec { sec: 0, nsec: 0 },
            }),
    {
        Stat::fresh(InodeKind::Pipe, self.buffered() as u64, 0o600)
    }

    /// Copies the oldest bytes without taking them out.
    pub fn peek_inner(&self, buf: &mut [u8]) -> (n: usize)
        ensures
            n == min(self.bytes().len() as int, old(buf)@.len() as int),
            filled(old(buf)@, final(buf)@, self.bytes(), n as int),
    {
        let mut n: usize = 0;
        assert(old(buf)@ =~= self.bytes().take(0) + old(buf)@.skip(0));
        while n < buf.len() && n < self.buf.len()
            invariant
                n <= self.bytes().len(),
                n <= buf@.len() == old(buf)@.len(),
                filled(old(buf)@, buf@, self.bytes(), n as int),
            decreases buf.len() - n,
        {
            buf[n] = self.buf[n];
            n += 1;
            assert(buf@ =~= self.bytes().take(n as int) + old(buf)@.skip(n as int));
        }
        n
    }

    /// Takes out as many of the oldest bytes as there are and fit. Where there is none,
    /// it is the end of the stream once nobody can write, and else a reason to wait.
    pub fn read_step(&mut self, buf: &mut [u8]) -> (step: ReadStep)
        requires
            old(self).wf(),
        ensures
            final(self).wf(),
            final(self).readers == old(self).readers,
            final(self).writers == old(self).writers,
            taken_out(old(self).bytes(), old(buf)@.len() as int) + final(self).bytes() == old(
                self).bytes(),
            ({
                let n = min(old(self).bytes().len() as int, old(buf)@.len() as int);
                &&& final(self).bytes() == old(self).bytes().skip(n)
                &&& filled(old(buf)@, final(buf)@, old(self).bytes(), n)
                &&& step == (if old(self).bytes().len() > 0 {
                    ReadStep::Drained(n as usize)
                } else if old(self).writers == 0 {
                    ReadStep::Eof
                } else {
                    ReadStep::WouldPark
                })
            }),
    {
        assert(old(buf)@ =~= self.bytes().take(0) + old(buf)@.skip(0));
        assert(self.bytes().skip(0) =~= self.bytes());
        if self.buf.len() > 0 {
            let mut n: usize = 0;
            while n < buf.len() && self.buf.len() > 0
                invariant
                    n <= old(self).bytes().len(),
                    n <= buf@.len() == old(buf)@.len(),
                    old(self).wf(),
                    self.readers == old(self).readers,
                    self.writers == old(self).writers,
                    self.bytes() == old(self).bytes().skip(n as int),
                    filled(old(buf)@, buf@, old(self).bytes(), n as int),
                decreases buf.len() - n,
            {
                match self.buf.pop_front() {
                    Some(b) => {
                        buf[n] = b;
                        n += 1;
                    },
                    None => {},
                }
                assert(self.bytes() =~= old(self).bytes().skip(n as int));
                assert(buf@ =~= old(self).bytes().take(n as int) + old(buf)@.skip(n as int));
            }
            return ReadStep::Drained(n);
        }
        if self.writers == 0 {
            return ReadStep::Eof;
        }
        ReadStep::WouldPark
    }

    /// Puts in as many of the bytes as there is room for. Without a reader the pipe is
    /// broken; without room it is a reason to wait.
    pub fn write_step(&mut self, buf: &[u8]) -> (step: WriteStep)
        requires
            old(self).wf(),
        ensures
            final(self).wf(),
            final(self).readers == old(self).readers,
            final(self).writers == old(self).writers,
            final(self).bytes() == old(self).bytes() + put_in(
                old(self).bytes(),
                old(self).readers,
                buf@,
            ),
            ({
                let room = PIPE_CAPACITY - old(self).bytes().len();
                let n = min(buf@.len() as int, room);
                if old(self).readers == 0 {
                    step == WriteStep::BrokenPipe && final(self).bytes() == old(self).bytes()
                } else if room == 0 {
                    step == WriteStep::WouldPark && final(self).bytes() == old(self).bytes()
                } else {
                    &&& step == WriteStep::Wrote(n as usize)
                    &&& final(self).bytes() == old(self).bytes() + buf@.take(n)
                }
            }),
    {
        if self.readers == 0 {
            return WriteStep::BrokenPipe;
        }
        let room: usize = PIPE_CAPACITY - self.buf.len();
        if room > 0 {
            let n: usize = if buf.len() <= room {
                buf.len()
            } else {
                room
            };
            let mut i: usize = 0;
            assert(self.bytes() =~= old(self).bytes() + buf@.take(0));
            while i < n
                invariant
                    i <= n <= buf@.len(),
                    n <= PIPE_CAPACITY - old(self).bytes().len(),
                    self.readers == old(self).readers,
                    self.writers == old(self).writers,
                    self.bytes() == old(self).bytes() + buf@.take(i as int),
                decreases n - i,
            {
                self.buf.push_back(buf[i]);
                i += 1;
                assert(self.bytes() =~= old(self).bytes() + buf@.take(i as int));
            }
            return WriteStep::Wrote(n);
        }
        WriteStep::WouldPark
    }

    /// Whether a read, and whether a write, would not wait, and whether the pipe has
    /// come to its end.
    pub fn poll_in_out_hup(&self) -> (ready: (bool, bool, bool))
        ensures
            ready.0 == (self.bytes().len() > 0 || self.writers == 0),
            ready.1 == (self.bytes().len() < PIPE_CAPACITY || self.readers == 0),
            ready.2 == (self.writers == 0 && self.bytes().len() == 0),
    {
        let len: usize = self.buf.len();
        (
            len > 0 || self.writers == 0,
            len < PIPE_CAPACITY || self.readers == 0,
            self.writers == 0 && len == 0,
        )
    }

    /// How many ends are open for reading.
    pub fn readers(&self) -> (n: u32)
        ensures
            n == self.readers,
    {
        self.readers
    }

    /// How many ends are open for writing.
    pub fn writers(&self) -> (n: u32)
        ensures
            n == self.writers,
    {
        self.writers
    }

    /// How many bytes are on their way.
    pub fn buffered(&self) -> (n: usize)
        ensures
            n == self.bytes().len(),
    {
        self.buf.len()
    }

    /// How many bytes fit.
    pub fn capacity() -> (n: usize)
        ensures
            n == PIPE_CAPACITY,
    {
        PIPE_CAPACITY
    }

    /// One attempt of a reader, and whom to wake when it took bytes out.
    pub fn read_attempt(&mut self, buf: &mut [u8]) -> (result: (ReadStep, Wake))
        requires
            old(self).wf(),
        ensures
            final(self).wf(),
            final(self).readers == old(self).readers,
            final(self).writers == old(self).writers,
            ({
                let n = min(old(self).bytes().len() as int, old(buf)@.len() as int);
                &&& final(self).bytes() == old(self).bytes().skip(n)
                &&& filled(old(buf)@, final(buf)@, old(self).bytes(), n)
                &&& result == (if old(self).bytes().len() > 0 {
                    (ReadStep::Drained(n as usize), Wake::OneWriter)
                } else if old(self).writers == 0 {
                    (ReadStep::Eof, Wake::Nobody)
                } else {
                    (ReadStep::WouldPark, Wake::Nobody)
                })
            }),
    {
        let step = self.read_step(buf);
        match step {
            ReadStep::Drained(_) => (step, Wake::OneWriter),
            _ => (step, Wake::Nobody),
        }
    }

    /// One attempt of a writer, and whom to wake when it put bytes in.
    pub fn write_attempt(&mut self, buf: &[u8]) -> (result: (WriteStep, Wake))
        requires
            old(self).wf(),
        ensures
            final(self).wf(),
            final(self).readers == old(self).readers,
            final(self).writers == old(self).writers,
            ({
                let room = PIPE_CAPACITY - old(self).bytes().len();
                let n = min(buf@.len() as int, room);
                if old(self).readers == 0 {
                    result == (WriteStep::BrokenPipe, Wake::Nobody) && final(self).bytes() == old(
                        self).bytes()
                } else if room == 0 {
                    result == (WriteStep::WouldPark, Wake::Nobody) && final(self).bytes() == old(
                        self).bytes()
                } else {
                    &&& result == (WriteStep::Wrote(n as usize), Wake::OneReader)
                    &&& final(self).bytes() == old(self).bytes() + buf@.take(n)
                }
            }),
    {
        let step = self.write_step(buf);
        match step {
            WriteStep::Wrote(_) => (step, Wake::OneReader),
            _ => (step, Wake::Nobody),
        }
    }
}

/// What is done with a pipe.
pub ghost enum PipeCall {
    Write(Seq<u8>),
    /// A read of up to so many bytes.
    Read(nat),
    /// Ends were opened or closed: so many are for reading now.
    Readers(u32),
}

/// A pipe after some calls, with all that was put in and all that was taken out.
#[verifier::ext_equal]
pub ghost struct PipeRun {
    pub pending: Seq<u8>,
    pub readers: u32,
    pub written: Seq<u8>,
    pub read: Seq<u8>,
}

/// A new pipe after some calls.
pub open spec fn run(calls: Seq<PipeCall>) -> PipeRun
    decreases calls.len(),
{
    if calls.len() == 0 {
        PipeRun {
            pending: Seq::empty(),
            readers: 0,
            written: Seq::empty(),
            read: Seq::empty(),
        }
    } else {
        let r = run(calls.drop_last());
        match calls.last() {
            PipeCall::Write(data) => {
                let put = put_in(r.pending, r.readers, data);
                PipeRun { pending: r.pending + put, written: r.written + put, ..r }
            },
            PipeCall::Read(n) => {
                let taken = taken_out(r.pending, n as int);
                PipeRun {
                    pending: r.pending.skip(taken.len() as int),
                    read: r.read + taken,
                    ..r
                }
            },
            PipeCall::Readers(readers) => PipeRun { readers, ..r },
        }
    }
}

/// Over any run of calls readers get what writers put in, in order and without gaps: what was
/// put in is what was taken out, and then what is still on its way. That is never more than
/// fits.
pub proof fn law_bytes_come_out_as_they_went_in(calls: Seq<PipeCall>)
    ensures
        run(calls).written == run(calls).read + run(calls).pending,
        run(calls).pending.len() <= PIPE_CAPACITY,
    decreases calls.len(),
{
    if calls.len() > 0 {
        let r = run(calls.drop_last());
        law_bytes_come_out_as_they_went_in(calls.drop_last());
        match calls.last() {
            PipeCall::Write(data) => {
                let put = put_in(r.pending, r.readers, data);
                assert(r.read + r.pending + put =~= r.read + (r.pending + put));
            },
            PipeCall::Read(n) => {
                let taken = taken_out(r.pending, n as int);
                assert(taken + r.pending.skip(taken.len() as int) =~= r.pending);
                assert(r.read + taken + r.pending.skip(taken.len() as int) =~= r.read + r.pending);
            },
            PipeCall::Readers(_) => {},
        }
    }
}

/// A reader gets back what was written, in order: the bytes that one write put behind
/// those already on their way come out behind them, unchanged.
pub proof fn law_first_in_first_out(pending: Seq<u8>, data: Seq<u8>, n: int)
    requires
        0 <= n <= pending.len() + data.len(),
    ensures
        (pending + data).take(n) + (pending + data).skip(n) == pending + data,
        n >= pending.len() ==> (pending + data).take(n) == pending + data.take(n - pending.len()),
        n >= pending.len() ==> (pending + data).skip(n) == data.skip(n - pending.len()),
        n <= pending.len() ==> (pending + data).take(n) == pending.take(n),
        n <= pending.len() ==> (pending + data).skip(n) == pending.skip(n) + data,
{
    let all = pending + data;
    assert(all.take(n) + all.skip(n) =~= all);
    if n >= pending.len() {
        assert(all.take(n) =~= pending + data.take(n - pending.len()));
        assert(all.skip(n) =~= data.skip(n - pending.len()));
    }
    if n <= pending.len() {
        assert(all.take(n) =~= pending.take(n));
        assert(all.skip(n) =~= pending.skip(n) + data);
    }
}

} // verus!
