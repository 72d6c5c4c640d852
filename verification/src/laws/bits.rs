//! The bits of a number as parts of it.

use vstd::prelude::*;

verus! {

/// A bit is set where the number, divided by the bit's weight, is odd.
pub proof fn lemma_low_bits(x: u64)
    by (bit_vector)
    ensures
        (x & 1 != 0) == (x % 2 == 1),
        (x & 2 != 0) == ((x / 2) % 2 == 1),
        (x & 4 != 0) == ((x / 4) % 2 == 1),
        (x & 8 != 0) == ((x / 8) % 2 == 1),
        (x & 0x10 != 0) == ((x / 0x10) % 2 == 1),
        (x & 0x20 != 0) == ((x / 0x20) % 2 == 1),
{
}

/// The low part of a number is what is left of it by division.
pub proof fn lemma_low_parts(x: u64)
    by (bit_vector)
    ensures
        (x as u32) as u64 == x % 0x1_0000_0000,
        (x as u16) as u64 == x % 0x1_0000,
        (x as u32) == x % 0x1_0000_0000,
{
}

/// A register holds a number below zero where its highest bit is set.
pub proof fn lemma_sign(x: u64)
    by (bit_vector)
    ensures
        ((x as i64) < 0) == (x >= 0x8000_0000_0000_0000),
        x < 0x8000_0000_0000_0000 ==> x as i64 == x,
        x >= 0x8000_0000_0000_0000 ==> x as i64 == x - 0x1_0000_0000_0000_0000,
        (x as i64 == -1) == (x == 0xffff_ffff_ffff_ffff),
        (x as i64) as u64 == x,
{
}

/// The bits of a request for memory.
pub proof fn lemma_mapping_bits(x: u64)
    by (bit_vector)
    ensures
        (x & !(1u64 | 2u64 | 4u64) == 0) == (x < 8),
        (x & 0x10_0000 != 0) == ((x / 0x10_0000) % 2 == 1),
        (x & (0x10u64 | 0x10_0000u64) != 0) == ((x / 0x10) % 2 == 1 || (x / 0x10_0000) % 2 == 1),
{
}

/// The flags of a mount that is made, without and with the bit for all that is mounted below.
pub proof fn lemma_binding_bits(plain: u64, full: u64)
    by (bit_vector)
    requires
        plain <= 0xffff_ffff_ffff_bfff,
        full == plain + 0x4000,
        (plain / 0x4000) % 2 == 0,
    ensures
        plain & 0x4000 == 0,
        full & 0x4000 != 0,
        plain & 0x001e_0000 == full & 0x001e_0000,
        plain & 0x000f == full & 0x000f,
        plain & 0x0002_0000 == full & 0x0002_0000,
        plain & 0x0010_0000 == full & 0x0010_0000,
{
}

/// Single flags of a mount that is made.
pub proof fn lemma_mount_bits(x: u64)
    by (bit_vector)
    ensures
        (x & 0x1000 != 0) == ((x / 0x1000) % 2 == 1),
        (x & 0x2000 != 0) == ((x / 0x2000) % 2 == 1),
        (x & 0x4000 != 0) == ((x / 0x4000) % 2 == 1),
        (x & 0x0002_0000 != 0) == ((x / 0x0002_0000) % 2 == 1),
        (x & 0x0004_0000 != 0) == ((x / 0x0004_0000) % 2 == 1),
        (x & 0x0008_0000 != 0) == ((x / 0x0008_0000) % 2 == 1),
        (x & 0x0010_0000 != 0) == ((x / 0x0010_0000) % 2 == 1),
        (x & 0x001e_0000 != 0) == ((x / 0x0002_0000) % 16 != 0),
        (x & (2u64 | 1u64) == 0) == (x % 4 == 0),
        (x & !(2u64 | 1u64) == 0) == (x < 4),
        x & 0x000f == x % 16,
{
}

/// The flags of an open file.
pub proof fn lemma_open_bits(x: u32)
    by (bit_vector)
    ensures
        (x & 0o3 != 1) == (x % 4 != 1),
        (x & 0o3 != 0) == (x % 4 != 0),
        (x & 0o100 == 0o100) == ((x / 0o100) % 2 == 1),
        (x & 0o200 == 0o200) == ((x / 0o200) % 2 == 1),
        (x & 0o1000 == 0o1000) == ((x / 0o1000) % 2 == 1),
        (x & 0o2000 == 0o2000) == ((x / 0o2000) % 2 == 1),
        (x & 0o4000 == 0o4000) == ((x / 0o4000) % 2 == 1),
        (x & 0o4000 != 0) == ((x / 0o4000) % 2 == 1),
        (x & 0x0200_0000 == 0) == ((x / 0x0200_0000) % 2 == 0),
        (x & 0o200000 == 0o200000) == ((x / 0o200000) % 2 == 1),
        (x & 0o400000 == 0o400000) == ((x / 0o400000) % 2 == 1),
        (x & 0o2000000 == 0o2000000) == ((x / 0o2000000) % 2 == 1),
{
}

/// The flags of a request to open, with the one of not following a link added.
pub proof fn lemma_walking_bits(walking: u64, flags: u64)
    by (bit_vector)
    ensures
        (walking & !0x3f == 0) == (walking < 0x40),
        ((flags | 0o400000) / 0o400000) % 2 == 1,
        (flags | 0o400000) % 0o400000 == flags % 0o400000,
        (flags | 0o400000) / 0o1000000 == flags / 0o1000000,
{
}

/// The bits of a mode that say of which kind a file is, and the flag for removing a directory.
pub proof fn lemma_mode_bits(x: u64)
    by (bit_vector)
    ensures
        x & 0o170000 == ((x / 0o10000) % 0o20) * 0o10000,
        (x & 0x200 != 0) == ((x / 0x200) % 2 == 1),
        (x & 0x1000 != 0) == ((x / 0x1000) % 2 == 1),
{
}

/// A kind and the rights of a file share no bit.
pub proof fn lemma_kind_and_rights(k: u16, m: u16)
    by (bit_vector)
    requires
        k % 0o10000 == 0,
        m < 0o10000,
    ensures
        (k as u32) | (m as u32) == k + m,
        k | (m & 0o7777) == k + m,
{
}

/// The low half of a register that holds minus one.
pub proof fn lemma_low_sign(x: u64)
    by (bit_vector)
    ensures
        (x as i32 == -1) == (x % 0x1_0000_0000 == 0xffff_ffff),
        ((x as i32) < 0) == (x % 0x1_0000_0000 >= 0x8000_0000),
        x % 0x1_0000_0000 < 0x8000_0000 ==> x as i32 == x % 0x1_0000_0000,
{
}

/// The bit that the inode of a terminal's master has, and the class of a command.
pub proof fn lemma_device_bits(x: u64)
    by (bit_vector)
    ensures
        (x & 0x4000_0000_0000_0000 == 0) == (x / 0x4000_0000_0000_0000 % 2 == 0),
        (x & !0x4000_0000_0000_0000u64) % 0x1_0000_0000u64 == x % 0x1_0000_0000u64,
        (x >> 8u64) & 0xffu64 == (x / 0x100u64) % 0x100u64,
        (0x10u32 | 0x80u32 | 0x40u32 | 0x08u32) == 0xd8u32,
{
}

/// A request for the lock of a whole file, without the bit for not waiting, and single bits.
pub proof fn lemma_flock_bits(x: u32)
    by (bit_vector)
    ensures
        (x & !4u32 == 1) == (x == 1 || x == 5),
        (x & !4u32 == 2) == (x == 2 || x == 6),
        (x & !4u32 == 8) == (x == 8 || x == 12),
        (x & 4 == 0) == ((x / 4) % 2 == 0),
        (x & 8 != 0) == ((x / 8) % 2 == 1),
        (x & 0x100 == 0) == ((x / 0x100) % 2 == 0),
        (x & 0x2000 != 0) == ((x / 0x2000) % 2 == 1),
{
}

/// Bits that are not missing in a set are part of it.
pub proof fn lemma_part(a: u64, b: u64)
    by (bit_vector)
    ensures
        (a & !b == 0) == (a & b == a),
{
}

/// The flags of a request for a new task.
pub proof fn lemma_clone_bits(x: u64)
    by (bit_vector)
    ensures
        (x & 0x100 != 0) == ((x / 0x100) % 2 == 1),
        (x & 0x4000 != 0) == ((x / 0x4000) % 2 == 1),
        (x & 0x2000_0000 != 0) == ((x / 0x2000_0000) % 2 == 1),
        (x & 0x0800_0000 != 0) == ((x / 0x0800_0000) % 2 == 1),
        (x & 0x4000_0000 != 0) == ((x / 0x4000_0000) % 2 == 1),
        (x & (0x2000_0000u64 | 0x0800_0000u64 | 0x4000_0000u64) != 0) == ((x / 0x2000_0000) % 2 == 1
            || (x / 0x0800_0000) % 2 == 1 || (x / 0x4000_0000) % 2 == 1),
        (x & (0x100u64 | (0x200u64 | 0x400u64 | 0x800u64 | 0x1_0000u64)) == (0x100u64 | (0x200u64
            | 0x400u64 | 0x800u64 | 0x1_0000u64))) == ((x / 0x100) % 2 == 1 && (x / 0x200) % 2 == 1
            && (x / 0x400) % 2 == 1 && (x / 0x800) % 2 == 1 && (x / 0x1_0000) % 2 == 1),
        (x & (0x100u64 | (0x200u64 | 0x400u64 | 0x800u64 | 0x1_0000u64)) == 0) == ((x / 0x100) % 2
            == 0 && (x / 0x200) % 2 == 0 && (x / 0x400) % 2 == 0 && (x / 0x800) % 2 == 0 && (x
            / 0x1_0000) % 2 == 0),
        (x & (0x200u64 | 0x400u64 | 0x800u64 | 0x1_0000u64) == 0) == ((x / 0x200) % 2 == 0 && (x
            / 0x400) % 2 == 0 && (x / 0x800) % 2 == 0 && (x / 0x1_0000) % 2 == 0),
{
}

/// The flags of a request for a new task in a record.
pub proof fn lemma_record_bits(x: u64, y: u64)
    by (bit_vector)
    ensures
        (x & (0x1_0000_0000u64 | 0x2_0000_0000u64) == 0) == ((x / 0x1_0000_0000) % 4 == 0),
        (x & 0x1000 != 0) == ((x / 0x1000) % 2 == 1),
        ((x & !0xffu64) | (y & 0xff)) / 0x100 == x / 0x100,
        ((x & !0xffu64) | (y & 0xff)) % 0x100 == y % 0x100,
{
}

/// The halves of what a filter returns.
pub proof fn lemma_verdict_bits(x: u32)
    by (bit_vector)
    ensures
        x & 0x7fff_0000 == ((x / 0x1_0000) % 0x8000) * 0x1_0000,
        x & 0xffff == x % 0x1_0000,
{
}

/// What a file is ready for, as far as it was asked or is told unasked.
pub proof fn lemma_poll_bits(e: u16, r: u16)
    by (bit_vector)
    ensures
        ((r & (e | 8u16 | 0x10u16 | 0x20u16)) % 2 == 1) == (r % 2 == 1 && e % 2 == 1),
        ((r & (e | 8u16 | 0x10u16 | 0x20u16)) / 2 % 2 == 1) == (r / 2 % 2 == 1 && e / 2 % 2 == 1),
        ((r & (e | 8u16 | 0x10u16 | 0x20u16)) / 4 % 2 == 1) == (r / 4 % 2 == 1 && e / 4 % 2 == 1),
        ((r & (e | 8u16 | 0x10u16 | 0x20u16)) / 8 % 2 == 1) == (r / 8 % 2 == 1),
        ((r & (e | 8u16 | 0x10u16 | 0x20u16)) / 0x10 % 2 == 1) == (r / 0x10 % 2 == 1),
        ((r & (e | 8u16 | 0x10u16 | 0x20u16)) / 0x20 % 2 == 1) == (r / 0x20 % 2 == 1),
        (e & 0x20u16 != 0) == (e / 0x20 % 2 == 1),
{
}

/// The bits of a byte in a set of descriptors, and those that make a file readable and writable.
pub proof fn lemma_set_bits(b: u8)
    by (bit_vector)
    ensures
        ((b >> 0u8) & 1u8 != 0) == (b % 2 == 1),
        ((b >> 1u8) & 1u8 != 0) == (b / 2 % 2 == 1),
        ((b >> 2u8) & 1u8 != 0) == (b / 4 % 2 == 1),
        ((b >> 3u8) & 1u8 != 0) == (b / 8 % 2 == 1),
        ((b >> 4u8) & 1u8 != 0) == (b / 0x10 % 2 == 1),
        ((b >> 5u8) & 1u8 != 0) == (b / 0x20 % 2 == 1),
        ((b >> 6u8) & 1u8 != 0) == (b / 0x40 % 2 == 1),
        ((b >> 7u8) & 1u8 != 0) == (b / 0x80 % 2 == 1),
        1u8 & 1u8 == 1u8,
        0u8 & 1u8 == 0u8,
        (1u16 | 0x10u16 | 8u16) == 0x19u16,
        (4u16 | 8u16) == 0xcu16,
{
}

/// The flags of a new descriptor, and those of a stack for signals.
pub proof fn lemma_descriptor_bits(x: u64)
    by (bit_vector)
    ensures
        (x & 0o2000000 != 0) == ((x / 0o2000000) % 2 == 1),
        (x & 0o4000 != 0) == ((x / 0o4000) % 2 == 1),
        (0u32 | 0o4000u32) == 0o4000u32,
        (2u32 | 0o4000u32) == 0o4002u32,
        (2i32 & 2i32) == 2i32,
        (0i32 & 2i32) == 0i32,
{
}

/// The numbers of calls on a word in memory, without the two bits that change nothing, and the
/// nodes beside the first.
pub proof fn lemma_word_bits(x: u64)
    by (bit_vector)
    ensures
        (x >> 0u64) & 1u64 == x % 2,
        (x >> 1u64) & 1u64 == x / 2 % 2,
        forall|k: u64| #[trigger] (0u64 >> k) & 1u64 == 0u64,
        0u64 & !(0x80u64 | 0x100u64) == 0,
        1u64 & !(0x80u64 | 0x100u64) == 1,
        2u64 & !(0x80u64 | 0x100u64) == 2,
        3u64 & !(0x80u64 | 0x100u64) == 3,
        4u64 & !(0x80u64 | 0x100u64) == 4,
        5u64 & !(0x80u64 | 0x100u64) == 5,
        6u64 & !(0x80u64 | 0x100u64) == 6,
        7u64 & !(0x80u64 | 0x100u64) == 7,
        8u64 & !(0x80u64 | 0x100u64) == 8,
        9u64 & !(0x80u64 | 0x100u64) == 9,
        10u64 & !(0x80u64 | 0x100u64) == 10,
        11u64 & !(0x80u64 | 0x100u64) == 11,
        12u64 & !(0x80u64 | 0x100u64) == 12,
        13u64 & !(0x80u64 | 0x100u64) == 13,
        0x10bu64 & !(0x80u64 | 0x100u64) == 11,
        0x81u64 & !(0x80u64 | 0x100u64) == 1,
        11u64 & 0x100u64 == 0,
        ((x & 0xffff_ffff_ffff_ffffu64) & !1u64 == 0) == (x <= 1),
{
}

} // verus!
