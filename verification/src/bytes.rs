//! Numbers as bytes, the lowest first.
use vstd::prelude::*;

verus! {

pub open spec fn le16(s: Seq<u8>, at: int) -> u16 {
    (s[at] + 0x100 * s[at + 1]) as u16
}

pub open spec fn le32(s: Seq<u8>, at: int) -> u32 {
    (s[at] + 0x100 * s[at + 1] + 0x1_0000 * s[at + 2] + 0x100_0000 * s[at + 3]) as u32
}

pub open spec fn le64(s: Seq<u8>, at: int) -> u64 {
    (le32(s, at) + 0x1_0000_0000 * le32(s, at + 4)) as u64
}

pub open spec fn put16(x: u16) -> Seq<u8> {
    seq![(x % 0x100) as u8, (x / 0x100) as u8]
}

pub open spec fn put32(x: u32) -> Seq<u8> {
    seq![
        (x % 0x100) as u8,
        (x / 0x100 % 0x100) as u8,
        (x / 0x1_0000 % 0x100) as u8,
        (x / 0x100_0000) as u8,
    ]
}

pub open spec fn put64(x: u64) -> Seq<u8> {
    put32((x % 0x1_0000_0000) as u32) + put32((x / 0x1_0000_0000) as u32)
}

/// Numbers one after the other.
pub open spec fn put32s(xs: Seq<u32>) -> Seq<u8>
    decreases xs.len(),
{
    if xs.len() == 0 {
        Seq::empty()
    } else {
        put32s(xs.drop_last()) + put32(xs.last())
    }
}

/// `n` bytes of nothing.
pub open spec fn zeros(n: nat) -> Seq<u8> {
    Seq::new(n, |i: int| 0u8)
}

pub fn u16_at(s: &Vec<u8>, at: usize) -> (x: u16)
    requires
        at + 2 <= s@.len(),
    ensures
        x == le16(s@, at as int),
{
    assert(at + 2 <= s.len());
    s[at] as u16 + 0x100 * (s[at + 1] as u16)
}

pub fn u32_at(s: &Vec<u8>, at: usize) -> (x: u32)
    requires
        at + 4 <= s@.len(),
    ensures
        x == le32(s@, at as int),
{
    assert(at + 4 <= s.len());
    s[at] as u32 + 0x100 * (s[at + 1] as u32) + 0x1_0000 * (s[at + 2] as u32) + 0x100_0000 * (
    s[at + 3] as u32)
}

pub fn u64_at(s: &Vec<u8>, at: usize) -> (x: u64)
    requires
        at + 8 <= s@.len(),
    ensures
        x == le64(s@, at as int),
{
    assert(at + 8 <= s.len());
    let low: u64 = u32_at(s, at) as u64;
    let high: u64 = u32_at(s, at + 4) as u64;
    low + 0x1_0000_0000 * high
}

pub fn push_u16(out: &mut Vec<u8>, x: u16)
    ensures
        final(out)@ == old(out)@ + put16(x),
{
    let ghost before = out@;
    out.push((x % 0x100) as u8);
    out.push((x / 0x100) as u8);
    assert(out@ =~= before + put16(x));
}

pub fn push_u32(out: &mut Vec<u8>, x: u32)
    ensures
        final(out)@ == old(out)@ + put32(x),
{
    let ghost before = out@;
    out.push((x % 0x100) as u8);
    out.push((x / 0x100 % 0x100) as u8);
    out.push((x / 0x1_0000 % 0x100) as u8);
    out.push((x / 0x100_0000) as u8);
    assert(out@ =~= before + put32(x));
}

pub fn push_u64(out: &mut Vec<u8>, x: u64)
    ensures
        final(out)@ == old(out)@ + put64(x),
{
    let ghost before = out@;
    push_u32(out, (x % 0x1_0000_0000) as u32);
    push_u32(out, (x / 0x1_0000_0000) as u32);
    assert(out@ =~= before + put64(x));
}

/// Adds the bytes of `b` from `from` to `to`.
pub fn push_part(out: &mut Vec<u8>, b: &Vec<u8>, from: usize, to: usize)
    requires
        from <= to <= b@.len(),
    ensures
        final(out)@ == old(out)@ + b@.subrange(from as int, to as int),
{
    let ghost before = out@;
    let mut i: usize = from;
    assert(out@ =~= before + b@.subrange(from as int, from as int));
    while i < to
        invariant
            from <= i <= to <= b@.len(),
            out@ == before + b@.subrange(from as int, i as int),
        decreases to - i,
    {
        out.push(b[i]);
        i += 1;
        assert(out@ =~= before + b@.subrange(from as int, i as int));
    }
}

/// The bytes of `s` from `from` to `to`.
pub fn part(s: &Vec<u8>, from: usize, to: usize) -> (r: Vec<u8>)
    requires
        from <= to <= s@.len(),
    ensures
        r@ == s@.subrange(from as int, to as int),
{
    let mut r: Vec<u8> = Vec::new();
    let mut i: usize = from;
    while i < to
        invariant
            from <= i <= to <= s@.len(),
            r@ == s@.subrange(from as int, i as int),
        decreases to - i,
    {
        r.push(s[i]);
        i += 1;
        assert(r@ =~= s@.subrange(from as int, i as int));
    }
    r
}

pub fn push_zeros(out: &mut Vec<u8>, n: usize)
    ensures
        final(out)@ == old(out)@ + zeros(n as nat),
{
    let ghost before = out@;
    let mut i: usize = 0;
    assert(out@ =~= before + zeros(0));
    while i < n
        invariant
            i <= n,
            out@ == before + zeros(i as nat),
        decreases n - i,
    {
        out.push(0);
        i += 1;
        assert(out@ =~= before + zeros(i as nat));
    }
}

/// What is written somewhere is read back from there.
pub proof fn law_read_gives_back_write(before: Seq<u8>, after: Seq<u8>, x: u32, y: u64, z: u16)
    ensures
        le16(before + put16(z) + after, before.len() as int) == z,
        le32(before + put32(x) + after, before.len() as int) == x,
        le64(before + put64(y) + after, before.len() as int) == y,
{
    let n = before.len() as int;
    let s = before + put16(z) + after;
    assert(s[n] == put16(z)[0] && s[n + 1] == put16(z)[1]);
    assert((before + put32(x) + after).subrange(n, n + 4) =~= put32(x));
    lemma_at32(before + put32(x) + after, n, x);
    assert((before + put64(y) + after).subrange(n, n + 8) =~= put64(y));
    lemma_at64(before + put64(y) + after, n, y);
}

pub proof fn lemma_at32(s: Seq<u8>, at: int, x: u32)
    requires
        0 <= at,
        at + 4 <= s.len(),
        s.subrange(at, at + 4) == put32(x),
    ensures
        le32(s, at) == x,
{
    let p = s.subrange(at, at + 4);
    assert(s[at] == p[0] && s[at + 1] == p[1] && s[at + 2] == p[2] && s[at + 3] == p[3]);
}

pub proof fn lemma_at64(s: Seq<u8>, at: int, x: u64)
    requires
        0 <= at,
        at + 8 <= s.len(),
        s.subrange(at, at + 8) == put64(x),
    ensures
        le64(s, at) == x,
{
    let low = (x % 0x1_0000_0000) as u32;
    let high = (x / 0x1_0000_0000) as u32;
    let p = s.subrange(at, at + 8);
    assert(s.subrange(at, at + 4) =~= p.subrange(0, 4));
    assert(s.subrange(at + 4, at + 8) =~= p.subrange(4, 8));
    assert(p.subrange(0, 4) =~= put32(low));
    assert(p.subrange(4, 8) =~= put32(high));
    lemma_at32(s, at, low);
    lemma_at32(s, at + 4, high);
}

/// Of numbers written one after the other each is read back from its place.
pub proof fn law_numbers_are_read_back(xs: Seq<u32>)
    ensures
        put32s(xs).len() == 4 * xs.len(),
        forall|k: int| 0 <= k < xs.len() ==> le32(put32s(xs), 4 * k) == #[trigger] xs[k],
    decreases xs.len(),
{
    if xs.len() > 0 {
        let front = xs.drop_last();
        law_numbers_are_read_back(front);
        let s = put32s(front);
        let out = put32s(xs);
        assert(put32(xs.last()).len() == 4);
        assert forall|k: int| 0 <= k < xs.len() implies le32(out, 4 * k) == #[trigger] xs[k] by {
            if k < front.len() {
                assert(xs[k] == front[k]);
                assert(out[4 * k] == s[4 * k] && out[4 * k + 1] == s[4 * k + 1] && out[4 * k + 2]
                    == s[4 * k + 2] && out[4 * k + 3] == s[4 * k + 3]);
            } else {
                law_read_gives_back_write(s, Seq::empty(), xs.last(), 0, 0);
                assert(out =~= s + put32(xs.last()) + Seq::<u8>::empty());
            }
        }
    }
}

proof fn lemma_digits(a: u8, b: u8, c: u8, d: u8, x: u32)
    requires
        x == a + 0x100 * b + 0x1_0000 * c + 0x100_0000 * d,
    ensures
        x % 0x100 == a,
        x / 0x100 % 0x100 == b,
        x / 0x1_0000 % 0x100 == c,
        x / 0x100_0000 == d,
{
    assert(x / 0x100 == b + 0x100 * c + 0x1_0000 * d);
    assert(x / 0x1_0000 == c + 0x100 * d);
}

proof fn lemma_four(s: Seq<u8>, at: int)
    requires
        0 <= at,
        at + 4 <= s.len(),
    ensures
        put32(le32(s, at)) == s.subrange(at, at + 4),
{
    lemma_digits(s[at], s[at + 1], s[at + 2], s[at + 3], le32(s, at));
    assert(put32(le32(s, at)) =~= s.subrange(at, at + 4));
}

proof fn lemma_join(low: u32, high: u32, x: u64)
    requires
        x == low + 0x1_0000_0000 * high,
    ensures
        put64(x) == put32(low) + put32(high),
{
    assert(x % 0x1_0000_0000 == low);
    assert(x / 0x1_0000_0000 == high);
}

/// What is read somewhere is what would be written there.
pub proof fn law_write_gives_back_read(s: Seq<u8>)
    ensures
        s.len() == 2 ==> put16(le16(s, 0)) == s,
        s.len() == 4 ==> put32(le32(s, 0)) == s,
        s.len() == 8 ==> put64(le64(s, 0)) == s,
{
    if s.len() == 2 {
        assert(put16(le16(s, 0)) =~= s);
    } else if s.len() == 4 {
        lemma_four(s, 0);
        assert(s.subrange(0, 4) =~= s);
    } else if s.len() == 8 {
        lemma_four(s, 0);
        lemma_four(s, 4);
        lemma_join(le32(s, 0), le32(s, 4), le64(s, 0));
        assert(s.subrange(0, 4) + s.subrange(4, 8) =~= s);
    }
}

} // verus!
