//! The table of a process's file descriptors.

use vstd::prelude::*;

use crate::errno;

verus! {

/// How many descriptors a fresh table allows.
pub const MAX_FDS: usize = 1024;

/// How many descriptors a table can ever allow.
pub const HARD_MAX_FDS: usize = 65536;

/// Descriptor flag: close on exec.
pub const FD_CLOEXEC: u8 = 1;

/// One place of the table. `file` is the key of an open file description.
#[derive(Clone, Copy)]
pub struct Slot {
    pub file: Option<u64>,
    pub fd_flags: u8,
}

/// An open descriptor: its open file description and its own flags.
#[derive(Clone, Copy, Debug, PartialEq, Eq, Structural)]
pub struct OpenFd {
    pub file: u64,
    pub fd_flags: u8,
}

/// The descriptors of a process, and how many it may have.
pub struct FdTable {
    pub slots: Vec<Slot>,
    pub cap: usize,
}

/// `fd` is the lowest descriptor from `min_fd` up that is not open.
pub open spec fn is_lowest_free(open: Map<int, OpenFd>, min_fd: int, fd: int) -> bool {
    &&& min_fd <= fd
    &&& !open.contains_key(fd)
    &&& forall|lower: int| min_fd <= lower < fd ==> #[trigger] open.contains_key(lower)
}

/// How far a table reaches that reached as far as `reach`, once it has a place for `fd`.
pub open spec fn reach_with(reach: int, fd: int) -> int {
    if reach <= fd {
        fd + 1
    } else {
        reach
    }
}

/// The descriptors that a list of slots stands for.
pub open spec fn open_fds(slots: Seq<Slot>) -> Map<int, OpenFd> {
    Map::new(
        |fd: int| 0 <= fd < slots.len() && slots[fd].file is Some,
        |fd: int| OpenFd { file: slots[fd].file->0, fd_flags: slots[fd].fd_flags },
    )
}

impl View for FdTable {
    type V = Map<int, OpenFd>;

    open spec fn view(&self) -> Map<int, OpenFd> {
        open_fds(self.slots@)
    }
}

impl FdTable {
    pub open spec fn wf(&self) -> bool {
        &&& self.cap <= HARD_MAX_FDS
        &&& self.slots@.len() <= HARD_MAX_FDS
    }

    /// One more than the highest descriptor that the table has had a place for. A free
    /// place below it is used even where the cap has since been lowered.
    pub open spec fn reach(&self) -> int {
        self.slots@.len() as int
    }

    /// A table without open descriptors.
    pub fn new() -> (table: FdTable)
        ensures
            table.wf(),
            table@ == Map::<int, OpenFd>::empty(),
            table.reach() == 0,
            table.cap == MAX_FDS,
    {
        let table = FdTable { slots: Vec::new(), cap: MAX_FDS };
        assert(table@ =~= Map::<int, OpenFd>::empty());
        table
    }

    /// How many descriptors the process may have.
    pub fn soft_cap(&self) -> (cap: usize)
        ensures
            cap == self.cap,
    {
        self.cap
    }

    /// Sets how many descriptors the process may have, within the hard limit.
    pub fn set_soft_cap(&mut self, new: usize) -> (clamped: usize)
        requires
            old(self).wf(),
        ensures
            final(self).wf(),
            clamped == (if new <= HARD_MAX_FDS {
                new
            } else {
                HARD_MAX_FDS
            }),
            final(self).cap == clamped,
            final(self).slots == old(self).slots,
    {
        let clamped: usize = if new <= HARD_MAX_FDS {
            new
        } else {
            HARD_MAX_FDS
        };
        self.cap = clamped;
        clamped
    }

    /// Makes room for `len` places. The new ones are free.
    fn ensure_len(slots: &mut Vec<Slot>, len: usize)
        ensures
            final(slots)@.len() == (if old(slots)@.len() < len {
                len as nat
            } else {
                old(slots)@.len()
            }),
            forall|i: int| 0 <= i < old(slots)@.len() ==> final(slots)@[i] == old(slots)@[i],
            forall|i: int|
                old(slots)@.len() <= i < final(slots)@.len() ==> (#[trigger] final(
                    slots)@[i]).file is None,
    {
        while slots.len() < len
            invariant
                old(slots)@.len() <= slots@.len(),
                slots@.len() <= len || slots@.len() == old(slots)@.len(),
                forall|i: int| 0 <= i < old(slots)@.len() ==> slots@[i] == old(slots)@[i],
                forall|i: int|
                    old(slots)@.len() <= i < slots@.len() ==> (#[trigger] slots@[i]).file is None,
            decreases len - slots@.len(),
        {
            slots.push(Slot { file: None, fd_flags: 0 });
        }
    }

    /// Opens the lowest free descriptor.
    pub fn install(&mut self, file: u64) -> (result: Result<i32, i32>)
        requires
            old(self).wf(),
        ensures
            final(self).wf(),
            final(self).cap == old(self).cap,
            installed(*old(self), *final(self), file, 0, 0, result),
    {
        self.install_from(file, 0, 0)
    }

    /// Opens the lowest free descriptor from `min_fd` up.
    pub fn install_from(&mut self, file: u64, min_fd: i32, fd_flags: u8) -> (result: Result<
        i32,
        i32,
    >)
        requires
            old(self).wf(),
        ensures
            final(self).wf(),
            final(self).cap == old(self).cap,
            installed(*old(self), *final(self), file, min_fd, fd_flags, result),
    {
        if min_fd < 0 || (min_fd as usize) >= self.cap {
            return Err(errno::EINVAL as i32);
        }
        let start: usize = min_fd as usize;
        let mut i: usize = start;
        while i < self.slots.len()
            invariant
                self.wf(),
                *self == *old(self),
                start <= i,
                start == min_fd,
                i <= self.slots.len() || i == start,
                start < self.cap,
                forall|lower: int| start <= lower < i ==> #[trigger] self@.contains_key(lower),
            decreases self.slots.len() - i,
        {
            if self.slots[i].file.is_none() {
                self.slots[i] = Slot { file: Some(file), fd_flags };
                assert(self@ =~= old(self)@.insert(i as int, OpenFd { file, fd_flags }));
                assert(is_lowest_free(old(self)@, min_fd as int, i as int));
                return Ok(i as i32);
            }
            i += 1;
        }
        assert(is_lowest_free(self@, min_fd as int, i as int));
        if i >= self.cap {
            return Err(errno::EMFILE as i32);
        }
        Self::ensure_len(&mut self.slots, i + 1);
        self.slots[i] = Slot { file: Some(file), fd_flags };
        assert(self@ =~= old(self)@.insert(i as int, OpenFd { file, fd_flags }));
        Ok(i as i32)
    }

    /// Opens `fd` itself. Returns what it was open on before.
    pub fn install_at(&mut self, fd: i32, file: u64) -> (displaced: Option<u64>)
        requires
            old(self).wf(),
        ensures
            final(self).wf(),
            final(self).cap == old(self).cap,
            0 <= fd < old(self).cap ==> final(self)@ == old(self)@.insert(
                fd as int,
                (OpenFd { file, fd_flags: 0 }),
            ) && displaced == old(self).file_at(fd as int) && final(self).reach() == reach_with(
                old(self).reach(),
                fd as int,
            ),
            !(0 <= fd < old(self).cap) ==> *final(self) == *old(self) && displaced is None,
    {
        self.install_at_with(fd, file, 0)
    }

    /// The open file description of a descriptor.
    pub open spec fn file_at(&self, fd: int) -> Option<u64> {
        if self@.contains_key(fd) {
            Some(self@[fd].file)
        } else {
            None
        }
    }

    /// Opens `fd` itself, with flags. Returns what it was open on before. Outside the cap
    /// nothing happens.
    pub fn install_at_with(&mut self, fd: i32, file: u64, fd_flags: u8) -> (displaced: Option<u64>)
        requires
            old(self).wf(),
        ensures
            final(self).wf(),
            final(self).cap == old(self).cap,
            0 <= fd < old(self).cap ==> final(self)@ == old(self)@.insert(
                fd as int,
                (OpenFd { file, fd_flags }),
            ) && displaced == old(self).file_at(fd as int) && final(self).reach() == reach_with(
                old(self).reach(),
                fd as int,
            ),
            !(0 <= fd < old(self).cap) ==> *final(self) == *old(self) && displaced is None,
    {
        if fd < 0 || (fd as usize) >= self.cap {
            return None;
        }
        let at: usize = fd as usize;
        Self::ensure_len(&mut self.slots, at + 1);
        let displaced = self.slots[at].file;
        self.slots[at] = Slot { file: Some(file), fd_flags };
        assert(self@ =~= old(self)@.insert(fd as int, OpenFd { file, fd_flags }));
        displaced
    }

    /// The open file description of a descriptor.
    pub fn get(&self, fd: i32) -> (file: Option<u64>)
        ensures
            file == self.file_at(fd as int),
    {
        if fd < 0 || (fd as usize) >= self.slots.len() {
            return None;
        }
        self.slots[fd as usize].file
    }

    /// Closes a descriptor. Returns what it was open on.
    pub fn remove(&mut self, fd: i32) -> (file: Option<u64>)
        requires
            old(self).wf(),
        ensures
            final(self).wf(),
            final(self).cap == old(self).cap,
            final(self).reach() == old(self).reach(),
            file == old(self).file_at(fd as int),
            final(self)@ == old(self)@.remove(fd as int),
    {
        if fd < 0 || (fd as usize) >= self.slots.len() {
            assert(self@ =~= self@.remove(fd as int));
            return None;
        }
        let at: usize = fd as usize;
        let file = self.slots[at].file;
        self.slots[at] = Slot { file: None, fd_flags: 0 };
        assert(self@ =~= old(self)@.remove(fd as int));
        file
    }

    /// Makes `dst` refer to what `src` is open on. With `dst` comes what it was open on
    /// before. Onto itself a descriptor is only checked.
    pub fn dup_to(&mut self, src: i32, dst: i32, fd_flags: u8) -> (result: Result<
        (i32, Option<u64>),
        i32,
    >)
        requires
            old(self).wf(),
        ensures
            final(self).wf(),
            final(self).cap == old(self).cap,
            ({
                let in_cap = 0 <= src < old(self).cap && 0 <= dst < old(self).cap;
                let source = old(self).file_at(src as int);
                if in_cap && source is Some {
                    if src == dst {
                        result == Ok::<(i32, Option<u64>), i32>((dst, None)) && *final(self)
                            == *old(self)
                    } else {
                        &&& result == Ok::<(i32, Option<u64>), i32>(
                            (dst, old(self).file_at(dst as int)),
                        )
                        &&& final(self)@ == old(self)@.insert(
                            dst as int,
                            OpenFd { file: source->0, fd_flags },
                        )
                        &&& final(self).reach() == reach_with(old(self).reach(), dst as int)
                    }
                } else {
                    result == Err::<(i32, Option<u64>), i32>(errno::EBADF as i32) && *final(self)
                        == *old(self)
                }
            }),
    {
        let cap: usize = self.cap;
        if src < 0 || (src as usize) >= cap || dst < 0 || (dst as usize) >= cap {
            return Err(errno::EBADF as i32);
        }
        match self.get(src) {
            None => Err(errno::EBADF as i32),
            Some(file) => {
                if src == dst {
                    return Ok((dst, None));
                }
                let displaced = self.install_at_with(dst, file, fd_flags);
                Ok((dst, displaced))
            },
        }
    }

    /// The flags of an open descriptor.
    pub fn fd_flags(&self, fd: i32) -> (flags: Option<u8>)
        ensures
            flags == (if self@.contains_key(fd as int) {
                Some(self@[fd as int].fd_flags)
            } else {
                None
            }),
    {
        if fd < 0 || (fd as usize) >= self.slots.len() {
            return None;
        }
        let slot = self.slots[fd as usize];
        if slot.file.is_some() {
            Some(slot.fd_flags)
        } else {
            None
        }
    }

    /// Sets the flags of an open descriptor.
    pub fn set_fd_flags(&mut self, fd: i32, flags: u8) -> (result: Result<(), i32>)
        requires
            old(self).wf(),
        ensures
            final(self).wf(),
            final(self).cap == old(self).cap,
            final(self).reach() == old(self).reach(),
            old(self)@.contains_key(fd as int) ==> result is Ok && final(self)@ == old(self)@.insert(
                fd as int,
                OpenFd { file: old(self)@[fd as int].file, fd_flags: flags },
            ),
            !old(self)@.contains_key(fd as int) ==> result == Err::<(), i32>(errno::EBADF as i32)
                && *final(self) == *old(self),
    {
        if fd < 0 || (fd as usize) >= self.slots.len() {
            return Err(errno::EBADF as i32);
        }
        let at: usize = fd as usize;
        let file = self.slots[at].file;
        if file.is_none() {
            return Err(errno::EBADF as i32);
        }
        self.slots[at] = Slot { file, fd_flags: flags };
        assert(self@ =~= old(self)@.insert(
            fd as int,
            OpenFd { file: old(self)@[fd as int].file, fd_flags: flags },
        ));
        Ok(())
    }

    /// Closes what is marked to close on exec. Returns the open file descriptions of the
    /// closed descriptors, lowest descriptor first.
    pub fn close_cloexec(&mut self) -> (closed: Vec<u64>)
        requires
            old(self).wf(),
        ensures
            final(self).wf(),
            final(self).cap == old(self).cap,
            final(self).reach() == old(self).reach(),
            final(self)@ == old(self)@.remove_keys(
                Set::new(|fd: int| marked_cloexec(old(self)@, fd)),
            ),
            closed@ == closed_files(old(self).slots@, true),
    {
        let mut closed: Vec<u64> = Vec::new();
        let mut i: usize = 0;
        let ghost before = self.slots@;
        while i < self.slots.len()
            invariant
                before == old(self).slots@,
                i <= before.len() == self.slots@.len(),
                self.cap == old(self).cap,
                closed@ == closed_files(before.take(i as int), true),
                forall|j: int|
                    0 <= j < i ==> #[trigger] self.slots@[j] == (if closes(before[j], true) {
                        Slot { file: None, fd_flags: 0 }
                    } else {
                        before[j]
                    }),
                forall|j: int| i <= j < before.len() ==> self.slots@[j] == before[j],
            decreases self.slots.len() - i,
        {
            assert(before.take(i + 1).drop_last() =~= before.take(i as int));
            let slot = self.slots[i];
            match slot.file {
                Some(file) => {
                    if (slot.fd_flags & FD_CLOEXEC) != 0 {
                        closed.push(file);
                        self.slots[i] = Slot { file: None, fd_flags: 0 };
                    }
                },
                None => {},
            }
            i += 1;
        }
        assert(before.take(before.len() as int) =~= before);
        assert(self@ =~= old(self)@.remove_keys(
            Set::new(|fd: int| marked_cloexec(old(self)@, fd)),
        ));
        closed
    }

    /// Closes everything. Returns the open file descriptions of the closed descriptors,
    /// lowest descriptor first.
    pub fn close_all(&mut self) -> (closed: Vec<u64>)
        requires
            old(self).wf(),
        ensures
            final(self).wf(),
            final(self).cap == old(self).cap,
            final(self).reach() == old(self).reach(),
            final(self)@ == Map::<int, OpenFd>::empty(),
            closed@ == closed_files(old(self).slots@, false),
    {
        let mut closed: Vec<u64> = Vec::new();
        let mut i: usize = 0;
        let ghost before = self.slots@;
        while i < self.slots.len()
            invariant
                before == old(self).slots@,
                i <= before.len() == self.slots@.len(),
                self.cap == old(self).cap,
                closed@ == closed_files(before.take(i as int), false),
                forall|j: int| 0 <= j < i ==> (#[trigger] self.slots@[j]).file is None,
                forall|j: int| i <= j < before.len() ==> self.slots@[j] == before[j],
            decreases self.slots.len() - i,
        {
            assert(before.take(i + 1).drop_last() =~= before.take(i as int));
            match self.slots[i].file {
                Some(file) => {
                    closed.push(file);
                },
                None => {},
            }
            self.slots[i] = Slot { file: None, fd_flags: 0 };
            i += 1;
        }
        assert(before.take(before.len() as int) =~= before);
        assert(self@ =~= Map::<int, OpenFd>::empty());
        closed
    }

    /// The table that a child process starts with.
    pub fn clone_for_child(&self) -> (child: FdTable)
        requires
            self.wf(),
        ensures
            child.wf(),
            child@ == self@,
            child.cap == self.cap,
            child.reach() == self.reach(),
    {
        let mut slots: Vec<Slot> = Vec::new();
        let mut i: usize = 0;
        while i < self.slots.len()
            invariant
                i <= self.slots.len(),
                slots@ == self.slots@.take(i as int),
            decreases self.slots.len() - i,
        {
            slots.push(self.slots[i]);
            i += 1;
            assert(slots@ =~= self.slots@.take(i as int));
        }
        assert(slots@ =~= self.slots@);
        FdTable { slots, cap: self.cap }
    }
}

impl Default for FdTable {
    fn default() -> (table: FdTable)
        ensures
            table.wf(),
            table@ == Map::<int, OpenFd>::empty(),
            table.reach() == 0,
            table.cap == MAX_FDS,
    {
        FdTable::new()
    }
}

/// `fd` is open and marked to close on exec.
pub open spec fn marked_cloexec(open: Map<int, OpenFd>, fd: int) -> bool {
    open.contains_key(fd) && (open[fd].fd_flags & FD_CLOEXEC) != 0
}

/// The slot is open and, where only marked ones count, marked to close on exec.
pub open spec fn closes(slot: Slot, only_marked: bool) -> bool {
    slot.file is Some && (only_marked ==> (slot.fd_flags & FD_CLOEXEC) != 0)
}

/// The open file descriptions of the slots that close, in order.
pub open spec fn closed_files(slots: Seq<Slot>, only_marked: bool) -> Seq<u64>
    decreases slots.len(),
{
    if slots.len() == 0 {
        Seq::empty()
    } else if closes(slots.last(), only_marked) {
        closed_files(slots.drop_last(), only_marked).push(slots.last().file->0)
    } else {
        closed_files(slots.drop_last(), only_marked)
    }
}

/// What opening the lowest free descriptor from `min_fd` up does: it fails where
/// `min_fd` is outside the cap, and where the lowest free descriptor is beyond both the
/// cap and the places that the table has. Otherwise that descriptor, and no other, is
/// new.
pub open spec fn installed(
    before: FdTable,
    after: FdTable,
    file: u64,
    min_fd: i32,
    fd_flags: u8,
    result: Result<i32, i32>,
) -> bool {
    if !(0 <= min_fd < before.cap) {
        result == Err::<i32, i32>(errno::EINVAL as i32) && after == before
    } else {
        match result {
            Ok(fd) => {
                &&& is_lowest_free(before@, min_fd as int, fd as int)
                &&& fd < before.cap || fd < before.reach()
                &&& after.cap == before.cap
                &&& after@ == before@.insert(fd as int, OpenFd { file, fd_flags })
                &&& after.reach() == reach_with(before.reach(), fd as int)
            },
            Err(e) => {
                &&& e == errno::EMFILE as i32
                &&& after == before
                &&& exists|fd: int| #[trigger]
                    is_lowest_free(before@, min_fd as int, fd) && before.cap <= fd
                        && before.reach() <= fd
            },
        }
    }
}

/// The lowest free descriptor is unique, so what opening one does is determined.
pub proof fn law_install_is_determined(
    before: FdTable,
    after1: FdTable,
    after2: FdTable,
    file: u64,
    min_fd: i32,
    fd_flags: u8,
    result1: Result<i32, i32>,
    result2: Result<i32, i32>,
)
    requires
        installed(before, after1, file, min_fd, fd_flags, result1),
        installed(before, after2, file, min_fd, fd_flags, result2),
    ensures
        result1 == result2,
        after1@ == after2@,
        after1.cap == after2.cap,
        after1.reach() == after2.reach(),
{
    if 0 <= min_fd < before.cap {
        let f1 = match result1 {
            Ok(fd) => fd as int,
            Err(_) => choose|fd: int| #[trigger]
                is_lowest_free(before@, min_fd as int, fd) && before.cap <= fd && before.reach()
                    <= fd,
        };
        let f2 = match result2 {
            Ok(fd) => fd as int,
            Err(_) => choose|fd: int| #[trigger]
                is_lowest_free(before@, min_fd as int, fd) && before.cap <= fd && before.reach()
                    <= fd,
        };
        if f1 < f2 {
            assert(before@.contains_key(f1));
        } else if f2 < f1 {
            assert(before@.contains_key(f2));
        }
    }
}

/// Closing the descriptor that was just opened gives back the table as it was.
pub proof fn law_close_undoes_open(
    before: FdTable,
    after: FdTable,
    file: u64,
    min_fd: i32,
    fd_flags: u8,
    fd: i32,
)
    requires
        installed(before, after, file, min_fd, fd_flags, Ok(fd)),
        0 <= min_fd < before.cap,
    ensures
        after@.contains_key(fd as int),
        after@[fd as int].file == file,
        after@.remove(fd as int) == before@,
        after.cap == before.cap,
{
    assert(after@.remove(fd as int) =~= before@);
}

} // verus!
