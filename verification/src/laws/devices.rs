//! What commands do to terminals, screens and sound devices.

use vstd::prelude::*;

use super::bits;
use super::layout;
use crate::bytes;
use crate::process_model::Pid;
use crate::syscall::fs::dsp;
use crate::syscall::fs::dsp::Dsp;
use crate::syscall::fs::ioctl;
use crate::syscall::fs::ioctl::{Device, DeviceFile, Screen, StepView, Terminals, TtyFacts};
use crate::syscall::reply::ReplyView;

verus! {

/// An answer without bytes.
pub open spec fn answered(code: i64) -> StepView {
    StepView::Reply(ReplyView { code, out: Seq::empty() })
}

/// The answer that all is well, with bytes.
pub open spec fn told(to: u64, b: Seq<u8>) -> StepView {
    StepView::Reply(ReplyView { code: 0, out: seq![(to, b)] })
}

/// What a terminal tells: its settings, the size of its window, the group in its foreground, its
/// session, its number, and what its keyboard is.
pub proof fn law_terminal_tells(
    file: DeviceFile,
    terminals: Terminals,
    facts: TtyFacts,
    arg: u64,
    input: Option<Seq<u8>>,
)
    ensures
        ioctl::tty_step(file, terminals, facts, 0x5401, arg, input) == told(
            arg,
            terminals.termios_of(file.inode),
        ),
        ioctl::tty_step(file, terminals, facts, 0x5413, arg, input) == told(
            arg,
            terminals.winsize_of(file.inode),
        ),
        facts.foreground != Pid(0) ==> ioctl::tty_step(file, terminals, facts, 0x540f, arg, input)
            == told(arg, bytes::put32(facts.foreground_seen)),
        facts.foreground == Pid(0) ==> ioctl::tty_step(file, terminals, facts, 0x540f, arg, input)
            == told(arg, bytes::put32(facts.own_group_seen)),
        ioctl::tty_step(file, terminals, facts, 0x5429, arg, input) == (if facts.session == Pid(0) {
            answered(-25i64)
        } else {
            told(arg, bytes::put32(facts.session_seen))
        }),
        ioctl::tty_step(file, terminals, facts, 0x8004_5430, arg, input) == (if file.inode
            / 0x4000_0000_0000_0000 % 2 == 0 {
            answered(-25i64)
        } else {
            told(arg, bytes::put32((file.inode % 0x1_0000_0000) as u32))
        }),
        ioctl::tty_step(file, terminals, facts, 0x4b33, arg, input) == told(arg, seq![2u8]),
        ioctl::tty_step(file, terminals, facts, 0x4b44, arg, input) == told(
            arg,
            bytes::put32(facts.keyboard_mode),
        ),
        ioctl::tty_step(file, terminals, facts, 0x4b31, arg, input) == told(arg, seq![0u8]),
{
    bits::lemma_device_bits(file.inode);
    bits::lemma_low_parts(file.inode & !ioctl::MASTER_BIT);
    assert((file.inode & !ioctl::MASTER_BIT) as u32 == (file.inode % 0x1_0000_0000) as u32);
    assert(facts.foreground != Pid(0) ==> facts.foreground.0 != 0);
    assert(facts.session != Pid(0) ==> facts.session.0 != 0);
}

/// What is done to a terminal: a group comes to its foreground, it becomes the terminal of a
/// session whose leader asks for it, or of none, and what waits in it is thrown away.
pub proof fn law_terminal_obeys(
    file: DeviceFile,
    terminals: Terminals,
    facts: TtyFacts,
    arg: u64,
    input: Option<Seq<u8>>,
)
    ensures
        ioctl::tty_step(file, terminals, facts, 0x5410, arg, input) == (if input is None {
            answered(-14i64)
        } else if facts.may_change is Err {
            answered(facts.may_change->Err_0)
        } else {
            StepView::SetForeground {
                group: if facts.group_meant is Some {
                    facts.group_meant->0
                } else {
                    Pid(bytes::le32(input->0, 0))
                },
            }
        }),
        ioctl::tty_step(file, terminals, facts, 0x540e, arg, input) == (if facts.caller_session
            == facts.caller {
            StepView::Acquire
        } else {
            answered(-1i64)
        }),
        ioctl::tty_step(file, terminals, facts, 0x5422, arg, input) == (if facts.session
            == facts.caller_session {
            StepView::Release
        } else {
            answered(0)
        }),
        ioctl::tty_step(file, terminals, facts, 0x540b, arg, input) == (StepView::Flush {
            input: arg == 0 || arg == 2,
            output: arg == 1 || arg == 2,
        }),
        ioctl::tty_step(file, terminals, facts, 0x4b45, arg, input) == StepView::SetKeyboardMode(
            arg as u32,
        ),
        ioctl::tty_step(file, terminals, facts, 0x5409, arg, input) == answered(0),
        ioctl::tty_step(file, terminals, facts, 0x540a, arg, input) == answered(0),
        ioctl::tty_step(file, terminals, facts, 0x4004_5431, arg, input) == answered(0),
        ioctl::tty_step(file, terminals, facts, 0x4b32, arg, input) == answered(0),
{
}

/// The settings of a terminal and the size of its window are set by these commands, from as many
/// bytes as they have. A process in the background may set the size at any time.
pub proof fn law_settings_come_in_their_length(
    facts: TtyFacts,
    cmd: u64,
    input: Option<Seq<u8>>,
)
    ensures
        ioctl::is_setting(cmd) == (cmd == 0x5402 || cmd == 0x5403 || cmd == 0x5404 || cmd == 0x5414),
        cmd == 0x5402 || cmd == 0x5403 || cmd == 0x5404 ==> ioctl::input_len(cmd) == 36,
        ioctl::input_len(0x5414) == 8,
        ioctl::input_len(0x5410) == 4,
        input is None ==> ioctl::set_allowed(facts, cmd, input) == Err::<(), i64>(-14i64),
        input is Some ==> ioctl::set_allowed(facts, 0x5414, input) is Ok,
        input is Some && facts.may_change is Err && (cmd == 0x5402 || cmd == 0x5403 || cmd
            == 0x5404) ==> ioctl::set_allowed(facts, cmd, input) == Err::<(), i64>(
            facts.may_change->Err_0,
        ),
        input is Some && facts.may_change is Ok ==> ioctl::set_allowed(facts, cmd, input) is Ok,
{
}

/// The commands that terminals know.
pub proof fn law_commands_of_terminals(cmd: u64)
    ensures
        ioctl::is_tty_command(cmd) == (cmd == 0x5401 || cmd == 0x5402 || cmd == 0x5403 || cmd
            == 0x5404 || cmd == 0x5409 || cmd == 0x540a || cmd == 0x540b || cmd == 0x540e || cmd
            == 0x540f || cmd == 0x5410 || cmd == 0x5413 || cmd == 0x5414 || cmd == 0x5422 || cmd
            == 0x5429 || cmd == 0x8004_5430 || cmd == 0x4004_5431 || cmd == 0x4b31 || cmd == 0x4b32
            || cmd == 0x4b33 || cmd == 0x4b44 || cmd == 0x4b45),
{
}

/// A terminal begins in the usual way: lines are edited and echoed, and signals are made.
pub proof fn law_terminals_begin_in_the_usual_way()
    ensures
        ioctl::default_termios().len() == 36,
        bytes::le32(ioctl::default_termios(), 0) == 0x500,
        bytes::le32(ioctl::default_termios(), 4) == 0x5,
        bytes::le32(ioctl::default_termios(), 8) == 0xbbd,
        bytes::le32(ioctl::default_termios(), 12) == 0x8b,
{
}

/// A graphics device takes the commands of its class, and sound and input devices take all.
pub proof fn law_devices_take_their_commands(file: DeviceFile, cmd: u64)
    ensures
        ({
            let graphics = (cmd / 0x100) % 0x100 == 0x64;
            ioctl::handed_to(file, cmd) == (if graphics && file.drm_card {
                Some(Device::Card)
            } else if graphics && file.drm_render {
                Some(Device::Render)
            } else if file.alsa is Some {
                Some(Device::Sound(file.alsa->0))
            } else if file.evdev is Some {
                Some(Device::Input(file.evdev->0))
            } else {
                None
            })
        }),
{
    bits::lemma_device_bits(cmd);
}

/// A screen tells how wide and high it is, that a point has thirty-two bits, and where the
/// colours stand in them; and where its memory begins, how long it is, and how long a line is.
pub proof fn law_screen_tells_its_size(screen: Screen, arg: u64)
    requires
        screen.width * 4 <= u32::MAX,
        screen.len <= u32::MAX,
    ensures
        ({
            let v = ioctl::var_screen(screen.width, screen.height);
            let f = ioctl::fix_screen(screen.start, screen.len, screen.width);
            &&& ioctl::other_step(Some(screen), 0x4600, arg) == told(arg, v)
            &&& ioctl::other_step(Some(screen), 0x4601, arg) == answered(0)
            &&& ioctl::other_step(Some(screen), 0x4602, arg) == told(arg, f)
            &&& ioctl::other_step(Some(screen), 0x4603, arg) == answered(-25i64)
            &&& ioctl::other_step(None, 0x4600, arg) == answered(-25i64)
            &&& v.len() == 160
            &&& bytes::le32(v, 0) == screen.width
            &&& bytes::le32(v, 4) == screen.height
            &&& bytes::le32(v, 8) == screen.width
            &&& bytes::le32(v, 12) == screen.height
            &&& bytes::le32(v, 24) == 32
            &&& bytes::le32(v, 32) == 16 && bytes::le32(v, 36) == 8
            &&& bytes::le32(v, 44) == 8 && bytes::le32(v, 48) == 8
            &&& bytes::le32(v, 56) == 0 && bytes::le32(v, 60) == 8
            &&& bytes::le32(v, 68) == 24 && bytes::le32(v, 72) == 8
            &&& f.len() == 80
            &&& bytes::le64(f, 16) == screen.start
            &&& bytes::le32(f, 24) == screen.len
            &&& bytes::le32(f, 36) == 2
            &&& bytes::le32(f, 48) == screen.width * 4
        }),
{
    let width = screen.width;
    let height = screen.height;
    let xs = seq![
        width,
        height,
        width,
        height,
        0,
        0,
        32,
        0,
        16,
        8,
        0,
        8,
        8,
        0,
        0,
        8,
        0,
        24,
        8,
        0,
    ];
    bytes::law_numbers_are_read_back(xs);
    let head = bytes::put32s(xs);
    layout::lemma_behind(head, bytes::zeros(80));
    assert(xs.len() == 20);
    assert(bytes::le32(head, 4int * 0) == xs[0]);
    assert(bytes::le32(head, 4int * 1) == xs[1]);
    assert(bytes::le32(head, 4int * 2) == xs[2]);
    assert(bytes::le32(head, 4int * 3) == xs[3]);
    assert(bytes::le32(head, 4int * 6) == xs[6]);
    assert(bytes::le32(head, 4int * 8) == xs[8]);
    assert(bytes::le32(head, 4int * 9) == xs[9]);
    assert(bytes::le32(head, 4int * 11) == xs[11]);
    assert(bytes::le32(head, 4int * 12) == xs[12]);
    assert(bytes::le32(head, 4int * 14) == xs[14]);
    assert(bytes::le32(head, 4int * 15) == xs[15]);
    assert(bytes::le32(head, 4int * 17) == xs[17]);
    assert(bytes::le32(head, 4int * 18) == xs[18]);
    let s0 = ioctl::screen_name();
    let s1 = s0 + bytes::put64(screen.start);
    layout::lemma_put64(s0, screen.start);
    let s2 = s1 + bytes::put32(screen.len as u32);
    layout::lemma_put32(s1, screen.len as u32);
    layout::lemma_behind(s1, bytes::put32(screen.len as u32));
    let s3 = s2 + bytes::zeros(8);
    layout::lemma_behind(s2, bytes::zeros(8));
    let s4 = s3 + bytes::put32(2);
    layout::lemma_put32(s3, 2);
    layout::lemma_behind(s3, bytes::put32(2));
    let s5 = s4 + bytes::zeros(8);
    layout::lemma_behind(s4, bytes::zeros(8));
    let line = (width * 4) as u32;
    let s6 = s5 + bytes::put32(line);
    layout::lemma_put32(s5, line);
    layout::lemma_behind(s5, bytes::put32(line));
    layout::lemma_behind(s6, bytes::zeros(28));
}

/// A sound device takes the format, the channels and the rate that it is told, as far as it has
/// them, keeps the rest, and tells what it took.
pub proof fn law_sound_device_takes_what_it_has(dsp: Dsp, wanted: u32, nearest: u32)
    ensures
        ({
            let (after, told) = dsp::dsp_set(dsp, 0xc004_5005, wanted, nearest);
            let known = wanted == 0x08 || wanted == 0x10 || wanted == 0x40 || wanted == 0x80;
            &&& told == (if wanted == 0 {
                dsp.format
            } else if known {
                wanted
            } else {
                0x10
            })
            &&& after == (Dsp { format: told, channels: dsp.channels, rate: dsp.rate })
        }),
        ({
            let (after, told) = dsp::dsp_set(dsp, 0xc004_5006, wanted, nearest);
            &&& told == (if wanted == 1 {
                1
            } else {
                2u32
            })
            &&& after == (Dsp { format: dsp.format, channels: told, rate: dsp.rate })
        }),
        ({
            let (after, told) = dsp::dsp_set(dsp, 0xc004_5003, wanted, nearest);
            &&& told == (if wanted == 0 {
                0
            } else {
                1u32
            })
            &&& after == (Dsp {
                format: dsp.format,
                channels: (told + 1) as u32,
                rate: dsp.rate,
            })
        }),
        dsp::dsp_set(dsp, 0xc004_5002, wanted, nearest) == (
            Dsp { format: dsp.format, channels: dsp.channels, rate: nearest },
            nearest,
        ),
{
}

/// What a sound device is asked leaves it as it is; it has eight pieces of room of `4096` bytes
/// each.
pub proof fn law_questions_leave_a_sound_device_alone(
    dsp: Dsp,
    arg: u64,
    input: Option<Seq<u8>>,
    rate: u32,
)
    ensures
        dsp::dsp_call(dsp, 0x8010_500c, arg, input, rate) == (
            ReplyView { code: 0, out: seq![(arg, dsp::space_told())] },
            dsp,
        ),
        bytes::le32(dsp::space_told(), 0) == 8,
        bytes::le32(dsp::space_told(), 4) == 8,
        bytes::le32(dsp::space_told(), 8) == 4096,
        bytes::le32(dsp::space_told(), 12) == 32768,
        dsp::dsp_call(dsp, 0x8004_500b, arg, input, rate) == (
            ReplyView { code: 0, out: seq![(arg, bytes::put32(0xd8))] },
            dsp,
        ),
        dsp::dsp_call(dsp, 0xc004_5004, arg, input, rate) == (
            ReplyView { code: 0, out: seq![(arg, bytes::put32(4096))] },
            dsp,
        ),
        dsp::dsp_call(dsp, 0xc004_500a, arg, input, rate) == (
            ReplyView { code: 0, out: Seq::empty() },
            dsp,
        ),
        dsp::dsp_call(dsp, 0x5000, arg, input, rate) == (
            ReplyView { code: 0, out: Seq::empty() },
            dsp,
        ),
        dsp::dsp_call(dsp, 0x5001, arg, input, rate) == (
            ReplyView { code: 0, out: Seq::empty() },
            dsp,
        ),
        dsp::dsp_call(dsp, 0xc004_5005, arg, None, rate) == (
            ReplyView { code: -14i64, out: Seq::empty() },
            dsp,
        ),
{
    bits::lemma_device_bits(0);
    let a = bytes::put32(8);
    let b = bytes::put32(4096);
    let c = bytes::put32(32768);
    let none = Seq::<u8>::empty();
    layout::lemma_put32(none, 8);
    assert(none + a =~= a);
    layout::lemma_put32(a, 8);
    layout::lemma_behind(a, a);
    layout::lemma_put32(a + a, 4096);
    layout::lemma_behind(a + a, b);
    layout::lemma_put32(a + a + b, 32768);
    layout::lemma_behind(a + a + b, c);
}

} // verus!
