//! Where the parts of a record stand.

use vstd::prelude::*;

use crate::bytes;
use crate::syscall::reply;
use crate::syscall::reply::ReplyView;
use crate::syscall::util;
use crate::text;

verus! {

/// What is read of bytes is not changed by what stands behind them.
pub proof fn lemma_behind(s: Seq<u8>, t: Seq<u8>)
    ensures
        (s + t).len() == s.len() + t.len(),
        forall|at: int|
            0 <= at && at + 8 <= s.len() ==> #[trigger] bytes::le64(s + t, at) == bytes::le64(s, at),
        forall|at: int|
            0 <= at && at + 4 <= s.len() ==> #[trigger] bytes::le32(s + t, at) == bytes::le32(s, at),
        forall|at: int|
            0 <= at && at + 2 <= s.len() ==> #[trigger] bytes::le16(s + t, at) == bytes::le16(s, at),
{
}

/// A number written behind bytes is read there.
pub proof fn lemma_put(s: Seq<u8>, x: u64, y: u32, z: u16)
    ensures
        bytes::put64(x).len() == 8,
        bytes::put32(y).len() == 4,
        bytes::put16(z).len() == 2,
        bytes::le64(s + bytes::put64(x), s.len() as int) == x,
        bytes::le32(s + bytes::put32(y), s.len() as int) == y,
        bytes::le16(s + bytes::put16(z), s.len() as int) == z,
{
    let none = Seq::<u8>::empty();
    bytes::law_read_gives_back_write(s, none, y, x, z);
    assert(s + bytes::put64(x) + none =~= s + bytes::put64(x));
    assert(s + bytes::put32(y) + none =~= s + bytes::put32(y));
    assert(s + bytes::put16(z) + none =~= s + bytes::put16(z));
}

/// Eight bytes are put behind others.
pub proof fn lemma_put64(s: Seq<u8>, x: u64)
    ensures
        (s + bytes::put64(x)).len() == s.len() + 8,
        bytes::le64(s + bytes::put64(x), s.len() as int) == x,
{
    lemma_put(s, x, 0, 0);
}

/// Four bytes are put behind others.
pub proof fn lemma_put32(s: Seq<u8>, x: u32)
    ensures
        (s + bytes::put32(x)).len() == s.len() + 4,
        bytes::le32(s + bytes::put32(x), s.len() as int) == x,
{
    lemma_put(s, 0, x, 0);
}

/// What is wanted somewhere is told there, behind what is told already.
pub proof fn law_told_where_wanted(r: ReplyView, to: u64, b: Seq<u8>)
    ensures
        reply::where_wanted(r, 0, b) == r,
        to != 0 ==> reply::where_wanted(r, to, b).code == r.code,
        to != 0 ==> reply::where_wanted(r, to, b).out == r.out.push((to, b)),
        reply::plain(r.code).out.len() == 0,
        reply::with_bytes(r.code, to, b).out == seq![(to, b)],
        reply::with_bytes(r.code, to, b).code == r.code,
{
}

proof fn lemma_string_end(b: Seq<u8>, from: int, end: int)
    requires
        0 <= from <= end < b.len(),
        forall|i: int| from <= i < end ==> #[trigger] b[i] != 0,
        b[end] == 0,
    ensures
        util::string_end(b, from) == end,
    decreases end - from,
{
    if from < end {
        lemma_string_end(b, from + 1, end);
    }
}

/// A string in memory ends at its first zero.
pub proof fn law_string_ends_at_its_zero(ptr: u64, s: Seq<u8>, rest: Seq<u8>)
    requires
        ptr != 0,
        forall|i: int| 0 <= i < s.len() ==> #[trigger] s[i] != 0,
    ensures
        ({
            let r = util::string_in(ptr, Some(s + seq![0u8] + rest));
            &&& text::text_of(s) matches Some(t) ==> r == Ok::<Seq<char>, i64>(t)
            &&& text::text_of(s) is None ==> r == Err::<Seq<char>, i64>(-22i64)
            &&& util::string_in(0, Some(s)) == Err::<Seq<char>, i64>(-14i64)
            &&& util::string_in(ptr, None) == Err::<Seq<char>, i64>(-14i64)
        }),
{
    let b = s + seq![0u8] + rest;
    assert forall|i: int| 0 <= i < s.len() implies #[trigger] b[i] != 0 by {
        assert(b[i] == s[i]);
    }
    lemma_string_end(b, 0, s.len() as int);
    assert(b.take(s.len() as int) =~= s);
}

} // verus!
