//! The sound device: its settings, and the calls that ask for them.
use vstd::prelude::*;

use crate::bytes;
use crate::errno;
use crate::syscall::reply;
use crate::syscall::reply::Reply;
use crate::syscall::util;

verus! {

pub const SNDCTL_DSP_RESET: u64 = 0x0000_5000;
pub const SNDCTL_DSP_SYNC: u64 = 0x0000_5001;
pub const SNDCTL_DSP_SPEED: u64 = 0xC004_5002;
pub const SNDCTL_DSP_STEREO: u64 = 0xC004_5003;
pub const SNDCTL_DSP_GETBLKSIZE: u64 = 0xC004_5004;
pub const SNDCTL_DSP_SETFMT: u64 = 0xC004_5005;
pub const SNDCTL_DSP_CHANNELS: u64 = 0xC004_5006;
pub const SNDCTL_DSP_SETFRAGMENT: u64 = 0xC004_500A;
pub const SNDCTL_DSP_GETFMTS: u64 = 0x8004_500B;
pub const SNDCTL_DSP_GETOSPACE: u64 = 0x8010_500C;

/// Asks for the format without changing it.
pub const AFMT_QUERY: u32 = 0;
pub const AFMT_U8: u32 = 0x08;
pub const AFMT_S16_LE: u32 = 0x10;
pub const AFMT_S8: u32 = 0x40;
pub const AFMT_U16_LE: u32 = 0x80;

/// How much the device takes at a time, and how many such parts it holds.
pub const FRAGMENT: u32 = 4096;
pub const FRAGMENTS: u32 = 8;

/// The settings of the device.
#[derive(Clone, Copy, Debug, PartialEq, Eq, Structural)]
pub struct Dsp {
    pub format: u32,
    pub channels: u32,
    pub rate: u32,
}

/// Whether a command is one of the sound device.
pub open spec fn is_dsp_command(cmd: u64) -> bool {
    ||| cmd == SNDCTL_DSP_RESET
    ||| cmd == SNDCTL_DSP_SYNC
    ||| cmd == SNDCTL_DSP_SPEED
    ||| cmd == SNDCTL_DSP_STEREO
    ||| cmd == SNDCTL_DSP_GETBLKSIZE
    ||| cmd == SNDCTL_DSP_SETFMT
    ||| cmd == SNDCTL_DSP_CHANNELS
    ||| cmd == SNDCTL_DSP_SETFRAGMENT
    ||| cmd == SNDCTL_DSP_GETFMTS
    ||| cmd == SNDCTL_DSP_GETOSPACE
}

/// Whether a command is one of the sound device.
pub fn dsp_command(cmd: u64) -> (r: bool)
    ensures
        r == is_dsp_command(cmd),
{
    cmd == SNDCTL_DSP_RESET || cmd == SNDCTL_DSP_SYNC || cmd == SNDCTL_DSP_SPEED || cmd
        == SNDCTL_DSP_STEREO || cmd == SNDCTL_DSP_GETBLKSIZE || cmd == SNDCTL_DSP_SETFMT || cmd
        == SNDCTL_DSP_CHANNELS || cmd == SNDCTL_DSP_SETFRAGMENT || cmd == SNDCTL_DSP_GETFMTS || cmd
        == SNDCTL_DSP_GETOSPACE
}

/// Whether a command sets something: four bytes are read for it.
pub open spec fn sets_dsp(cmd: u64) -> bool {
    ||| cmd == SNDCTL_DSP_SETFMT
    ||| cmd == SNDCTL_DSP_CHANNELS
    ||| cmd == SNDCTL_DSP_STEREO
    ||| cmd == SNDCTL_DSP_SPEED
}

/// The settings after a command that sets something, and the number handed back. What cannot be
/// had is replaced by what can.
pub open spec fn dsp_set(dsp: Dsp, cmd: u64, wanted: u32, nearest_rate: u32) -> (Dsp, u32) {
    if cmd == SNDCTL_DSP_SETFMT {
        let format = if wanted == AFMT_QUERY {
            dsp.format
        } else if wanted == AFMT_S16_LE || wanted == AFMT_U16_LE || wanted == AFMT_S8 || wanted
            == AFMT_U8 {
            wanted
        } else {
            AFMT_S16_LE
        };
        (Dsp { format, ..dsp }, format)
    } else if cmd == SNDCTL_DSP_CHANNELS {
        let channels = if wanted == 1 {
            1u32
        } else {
            2
        };
        (Dsp { channels, ..dsp }, channels)
    } else if cmd == SNDCTL_DSP_STEREO {
        if wanted == 0 {
            (Dsp { channels: 1, ..dsp }, 0)
        } else {
            (Dsp { channels: 2, ..dsp }, 1)
        }
    } else {
        (Dsp { rate: nearest_rate, ..dsp }, nearest_rate)
    }
}

/// The space in the device: all of it.
pub open spec fn space_told() -> Seq<u8> {
    bytes::put32(FRAGMENTS) + bytes::put32(FRAGMENTS) + bytes::put32(FRAGMENT) + bytes::put32(
        (FRAGMENTS * FRAGMENT) as u32,
    )
}

/// The answer to a command of the sound device, and the settings afterwards.
pub open spec fn dsp_call(
    dsp: Dsp,
    cmd: u64,
    arg: u64,
    input: Option<Seq<u8>>,
    nearest_rate: u32,
) -> (reply::ReplyView, Dsp) {
    if sets_dsp(cmd) {
        match input {
            None => (reply::plain(errno::EFAULT), dsp),
            Some(b) => {
                let (after, told) = dsp_set(dsp, cmd, bytes::le32(b, 0), nearest_rate);
                (reply::with_bytes(0, arg, bytes::put32(told)), after)
            },
        }
    } else if cmd == SNDCTL_DSP_GETOSPACE {
        (reply::with_bytes(0, arg, space_told()), dsp)
    } else if cmd == SNDCTL_DSP_GETFMTS {
        (
            reply::with_bytes(
                0,
                arg,
                bytes::put32(AFMT_S16_LE | AFMT_U16_LE | AFMT_S8 | AFMT_U8),
            ),
            dsp,
        )
    } else if cmd == SNDCTL_DSP_GETBLKSIZE {
        (reply::with_bytes(0, arg, bytes::put32(FRAGMENT)), dsp)
    } else if cmd == SNDCTL_DSP_SETFRAGMENT || cmd == SNDCTL_DSP_SYNC || cmd == SNDCTL_DSP_RESET {
        (reply::plain(0), dsp)
    } else {
        (reply::plain(errno::ENOTTY), dsp)
    }
}

fn number(code: i64, arg: u64, x: u32) -> (r: Reply)
    ensures
        r@ == reply::with_bytes(code, arg, bytes::put32(x)),
{
    let mut out: Vec<u8> = Vec::new();
    bytes::push_u32(&mut out, x);
    assert(out@ =~= bytes::put32(x));
    Reply::with_bytes(code, arg, out)
}

/// Answers a command of the sound device. `nearest_rate` is the rate that the device has nearest
/// to the one wanted.
pub fn do_dsp_ioctl(
    dsp: &mut Dsp,
    cmd: u64,
    arg: u64,
    input: &Option<Vec<u8>>,
    nearest_rate: u32,
) -> (r: Reply)
    requires
        sets_dsp(cmd) && input is Some ==> input->0@.len() == 4,
    ensures
        (r@, *final(dsp)) == dsp_call(
            *old(dsp),
            cmd,
            arg,
            util::bytes_view(*input),
            nearest_rate,
        ),
{
    if cmd == SNDCTL_DSP_SETFMT || cmd == SNDCTL_DSP_CHANNELS || cmd == SNDCTL_DSP_STEREO || cmd
        == SNDCTL_DSP_SPEED {
        let wanted: u32 = match input {
            None => {
                return Reply::plain(errno::EFAULT);
            },
            Some(b) => bytes::u32_at(b, 0),
        };
        if cmd == SNDCTL_DSP_SETFMT {
            let format: u32 = if wanted == AFMT_QUERY {
                dsp.format
            } else if wanted == AFMT_S16_LE || wanted == AFMT_U16_LE || wanted == AFMT_S8 || wanted
                == AFMT_U8 {
                wanted
            } else {
                AFMT_S16_LE
            };
            dsp.format = format;
            return number(0, arg, format);
        }
        if cmd == SNDCTL_DSP_CHANNELS {
            let channels: u32 = if wanted == 1 || wanted == 2 {
                wanted
            } else {
                2
            };
            dsp.channels = channels;
            return number(0, arg, channels);
        }
        if cmd == SNDCTL_DSP_STEREO {
            if wanted == 0 {
                dsp.channels = 1;
                return number(0, arg, 0);
            }
            dsp.channels = 2;
            return number(0, arg, 1);
        }
        dsp.rate = nearest_rate;
        return number(0, arg, nearest_rate);
    }
    if cmd == SNDCTL_DSP_GETOSPACE {
        let mut out: Vec<u8> = Vec::new();
        bytes::push_u32(&mut out, FRAGMENTS);
        bytes::push_u32(&mut out, FRAGMENTS);
        bytes::push_u32(&mut out, FRAGMENT);
        bytes::push_u32(&mut out, FRAGMENTS * FRAGMENT);
        assert(out@ =~= space_told());
        return Reply::with_bytes(0, arg, out);
    }
    if cmd == SNDCTL_DSP_GETFMTS {
        return number(0, arg, AFMT_S16_LE | AFMT_U16_LE | AFMT_S8 | AFMT_U8);
    }
    if cmd == SNDCTL_DSP_GETBLKSIZE {
        return number(0, arg, FRAGMENT);
    }
    if cmd == SNDCTL_DSP_SETFRAGMENT || cmd == SNDCTL_DSP_SYNC || cmd == SNDCTL_DSP_RESET {
        return Reply::plain(0);
    }
    Reply::plain(errno::ENOTTY)
}

/// Asking for the format tells the one that was set last.
pub proof fn law_format_is_told(dsp: Dsp, wanted: u32, rate: u32)
    ensures
        ({
            let (after, told) = dsp_set(dsp, SNDCTL_DSP_SETFMT, wanted, rate);
            &&& dsp_set(after, SNDCTL_DSP_SETFMT, AFMT_QUERY, rate) == (after, told)
            &&& after.format == told
        }),
{
}

} // verus!
