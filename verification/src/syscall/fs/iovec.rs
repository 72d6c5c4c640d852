//! Parts of the caller's memory that are read or written one after the other.
use crate::errno;
use crate::syscall::util;
use crate::syscall::vm_copy;
use crate::syscall::vm_copy::IoVec;
use vstd::prelude::*;

verus! {

/// How many bytes of a list of parts are read.
pub fn iovecs_len(count: u64) -> (r: Result<u64, i64>)
    ensures
        r == (if count > vm_copy::IOV_MAX {
            Err(errno::EINVAL)
        } else {
            Ok::<u64, i64>((16 * count) as u64)
        }),
{
    if count > vm_copy::IOV_MAX {
        return Err(errno::EINVAL);
    }
    Ok(16 * count)
}

/// The parts that a list names. `raw` is the list as it was read.
pub open spec fn parts_in(count: u64, raw: Option<Seq<u8>>) -> Result<Seq<IoVec>, i64> {
    if count > vm_copy::IOV_MAX {
        Err(errno::EINVAL)
    } else if count == 0 {
        Ok(Seq::empty())
    } else {
        match raw {
            None => Err(errno::EFAULT),
            Some(b) => Ok(vm_copy::iovecs(b)),
        }
    }
}

pub open spec fn parts_view(r: Result<Vec<IoVec>, i64>) -> Result<Seq<IoVec>, i64> {
    match r {
        Ok(v) => Ok(v@),
        Err(e) => Err(e),
    }
}

/// The parts that a list names.
pub fn read_iovecs(count: u64, raw: Option<Vec<u8>>) -> (r: Result<Vec<IoVec>, i64>)
    requires
        raw is Some ==> raw->0@.len() == 16 * count,
    ensures
        parts_view(r) == parts_in(count, util::bytes_view(raw)),
        r is Ok ==> r->Ok_0@.len() == count,
{
    if count > vm_copy::IOV_MAX {
        return Err(errno::EINVAL);
    }
    if count == 0 {
        let none: Vec<IoVec> = Vec::new();
        assert(none@ =~= Seq::empty());
        return Ok(none);
    }
    match raw {
        None => Err(errno::EFAULT),
        Some(b) => Ok(vm_copy::read_iovecs(&b)),
    }
}

/// How many bytes all parts hold, or the most that can be counted.
pub open spec fn capacity(v: Seq<IoVec>, n: int) -> u64 {
    if vm_copy::total(v, n) > u64::MAX {
        u64::MAX
    } else {
        vm_copy::total(v, n) as u64
    }
}

/// How many bytes all parts hold.
pub fn total_len(v: &Vec<IoVec>) -> (sum: u64)
    ensures
        sum == capacity(v@, v@.len() as int),
{
    let mut sum: u64 = 0;
    let mut i: usize = 0;
    while i < v.len()
        invariant
            i <= v@.len(),
            sum == capacity(v@, i as int),
        decreases v.len() - i,
    {
        sum = sum.saturating_add(v[i].len);
        i += 1;
    }
    sum
}

/// Bytes of a buffer for a part of the caller's memory.
#[derive(Clone, Copy, PartialEq, Eq, Structural, Debug)]
pub struct Piece {
    pub base: u64,
    pub from: u64,
    pub len: u64,
}

pub open spec fn least(a: int, b: int) -> int {
    if a <= b {
        a
    } else {
        b
    }
}

/// How `n` bytes are spread over the first `k` parts: each part is filled before the next
/// one is begun.
pub open spec fn spread(v: Seq<IoVec>, n: int, k: int) -> Seq<Piece>
    decreases k,
{
    if k <= 0 {
        Seq::empty()
    } else {
        let before = spread(v, n, k - 1);
        let off = least(vm_copy::total(v, k - 1) as int, n);
        let take = least(v[k - 1].len as int, n - off);
        if take > 0 {
            before.push(Piece { base: v[k - 1].base, from: off as u64, len: take as u64 })
        } else {
            before
        }
    }
}

/// Spreads `n` bytes over parts.
pub fn spread_over(v: &Vec<IoVec>, n: u64) -> (pieces: Vec<Piece>)
    ensures
        pieces@ == spread(v@, n as int, v@.len() as int),
{
    let mut pieces: Vec<Piece> = Vec::new();
    let mut off: u64 = 0;
    let mut i: usize = 0;
    while i < v.len()
        invariant
            i <= v@.len(),
            off == least(vm_copy::total(v@, i as int) as int, n as int),
            pieces@ == spread(v@, n as int, i as int),
        decreases v.len() - i,
    {
        let left: u64 = n - off;
        let len: u64 = v[i].len;
        let take: u64 = if len < left {
            len
        } else {
            left
        };
        if take > 0 {
            pieces.push(Piece { base: v[i].base, from: off, len: take });
        }
        off += take;
        i += 1;
    }
    pieces
}

/// No piece goes beyond the bytes.
pub proof fn lemma_pieces_are_within(v: Seq<IoVec>, n: int, k: int)
    requires
        0 <= k <= v.len(),
        0 <= n <= u64::MAX,
    ensures
        forall|i: int|
            0 <= i < spread(v, n, k).len() ==> {
                let p = #[trigger] spread(v, n, k)[i];
                p.from + p.len <= n
            },
    decreases k,
{
    if k > 0 {
        lemma_pieces_are_within(v, n, k - 1);
        let before = spread(v, n, k - 1);
        let all = spread(v, n, k);
        assert forall|i: int| 0 <= i < all.len() implies {
            let p = #[trigger] all[i];
            p.from + p.len <= n
        } by {
            if i < before.len() {
                assert(all[i] == before[i]);
            }
        }
    }
}

pub open spec fn pieces_len(p: Seq<Piece>) -> nat
    decreases p.len(),
{
    if p.len() == 0 {
        0
    } else {
        pieces_len(p.drop_last()) + p.last().len as nat
    }
}

/// The pieces follow one another without gaps, and hold all bytes that the parts have room
/// for.
pub proof fn law_spread_loses_nothing(v: Seq<IoVec>, n: u64, k: int)
    requires
        0 <= k <= v.len(),
    ensures
        pieces_len(spread(v, n as int, k)) == least(vm_copy::total(v, k) as int, n as int),
        forall|i: int|
            0 <= i < spread(v, n as int, k).len() ==> #[trigger] spread(v, n as int, k)[i].from
                == pieces_len(spread(v, n as int, k).take(i)),
    decreases k,
{
    if k > 0 {
        law_spread_loses_nothing(v, n, k - 1);
        let before = spread(v, n as int, k - 1);
        let all = spread(v, n as int, k);
        if all.len() > before.len() {
            assert(all.drop_last() =~= before);
        }
        assert forall|i: int| 0 <= i < all.len() implies #[trigger] all[i].from == pieces_len(
            all.take(i),
        ) by {
            if i < before.len() {
                assert(all[i] == before[i]);
                assert(all.take(i) =~= before.take(i));
            } else {
                assert(all.take(i) =~= before);
            }
        }
    } else {
        assert(spread(v, n as int, k) =~= Seq::<Piece>::empty());
    }
}

/// How reading or writing one part after the other goes on.
#[derive(Clone, Copy, PartialEq, Eq, Structural, Debug)]
pub enum VecStep {
    Return(i64),
    /// The next part, with this many bytes moved so far.
    Next(i64),
}

/// How it goes on after one part: a part that fails counts only where nothing was moved
/// before, and one that was not filled is the last.
pub fn vec_step(total: i64, moved: i64, len: u64) -> (r: VecStep)
    requires
        0 <= total,
        total + moved <= i64::MAX,
    ensures
        r == (if moved < 0 {
            VecStep::Return(
                if total == 0 {
                    moved
                } else {
                    total
                },
            )
        } else if moved < len {
            VecStep::Return((total + moved) as i64)
        } else {
            VecStep::Next((total + moved) as i64)
        }),
{
    if moved < 0 {
        return VecStep::Return(
            if total == 0 {
                moved
            } else {
                total
            },
        );
    }
    let sum: i64 = total + moved;
    if (moved as u64) < len {
        VecStep::Return(sum)
    } else {
        VecStep::Next(sum)
    }
}

/// The next part that is not empty, from one on.
pub fn next_part(v: &Vec<IoVec>, from: usize) -> (r: Option<usize>)
    requires
        from <= v@.len(),
    ensures
        match r {
            Some(i) => from <= i < v@.len() && v@[i as int].len > 0 && forall|j: int|
                from <= j < i ==> (#[trigger] v@[j]).len == 0,
            None => forall|j: int| from <= j < v@.len() ==> (#[trigger] v@[j]).len == 0,
        },
{
    let mut i: usize = from;
    while i < v.len()
        invariant
            from <= i <= v@.len(),
            forall|j: int| from <= j < i ==> (#[trigger] v@[j]).len == 0,
        decreases v.len() - i,
    {
        if v[i].len > 0 {
            return Some(i);
        }
        i += 1;
    }
    None
}

} // verus!
