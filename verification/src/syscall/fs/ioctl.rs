//! What terminals, screens and other devices are asked for.
use std::collections::BTreeMap;

use vstd::prelude::*;

use crate::bytes;
use crate::errno;
use crate::process_model::Pid;
use crate::syscall::fs::dsp;
use crate::syscall::fs::dsp::Dsp;
use crate::syscall::reply;
use crate::syscall::reply::Reply;
use crate::syscall::util;
use crate::vfs::InodeKind;

verus! {

pub const TCGETS: u64 = 0x5401;
pub const TCSETS: u64 = 0x5402;
pub const TCSETSW: u64 = 0x5403;
pub const TCSETSF: u64 = 0x5404;
pub const TCSBRK: u64 = 0x5409;
pub const TCXONC: u64 = 0x540A;
pub const TCFLSH: u64 = 0x540B;
pub const TIOCSCTTY: u64 = 0x540E;
pub const TIOCGPGRP: u64 = 0x540F;
pub const TIOCSPGRP: u64 = 0x5410;
pub const TIOCGWINSZ: u64 = 0x5413;
pub const TIOCSWINSZ: u64 = 0x5414;
pub const TIOCNOTTY: u64 = 0x5422;
pub const TIOCGSID: u64 = 0x5429;
pub const TIOCGPTN: u64 = 0x8004_5430;
pub const TIOCSPTLCK: u64 = 0x4004_5431;
pub const FBIOGET_VSCREENINFO: u64 = 0x4600;
pub const FBIOPUT_VSCREENINFO: u64 = 0x4601;
pub const FBIOGET_FSCREENINFO: u64 = 0x4602;
pub const KDGETLED: u64 = 0x4B31;
pub const KDSETLED: u64 = 0x4B32;
pub const KDGKBTYPE: u64 = 0x4B33;
pub const KDGKBMODE: u64 = 0x4B44;
pub const KDSKBMODE: u64 = 0x4B45;
pub const KB_101: u8 = 0x02;

/// Marks the inode of a pseudo-terminal's master end.
pub const MASTER_BIT: u64 = 0x4000_0000_0000_0000;

/// The settings that a terminal starts with.
pub open spec fn default_termios() -> Seq<u8> {
    seq![
        0x00u8,
        0x05,
        0x00,
        0x00,
        0x05,
        0x00,
        0x00,
        0x00,
        0xbd,
        0x0b,
        0x00,
        0x00,
        0x8b,
        0x00,
        0x00,
        0x00,
    ] + bytes::zeros(20)
}

fn new_termios() -> (t: Vec<u8>)
    ensures
        t@ == default_termios(),
{
    let mut t: Vec<u8> = Vec::new();
    bytes::push_u32(&mut t, 0x0000_0500);
    bytes::push_u32(&mut t, 0x0000_0005);
    bytes::push_u32(&mut t, 0x0000_0bbd);
    bytes::push_u32(&mut t, 0x0000_008b);
    bytes::push_zeros(&mut t, 20);
    assert(t@ =~= default_termios());
    t
}

/// The settings and the window sizes of the terminals, each by its inode. A terminal has its
/// own once they were set.
pub struct Terminals {
    pub termios: BTreeMap<u64, Vec<u8>>,
    pub winsize: BTreeMap<u64, Vec<u8>>,
    /// The size of a window before it is set.
    pub first_winsize: Vec<u8>,
}

impl Terminals {
    /// The settings of a terminal.
    pub open spec fn termios_of(&self, inode: u64) -> Seq<u8> {
        if self.termios@.contains_key(inode) {
            self.termios@[inode]@
        } else {
            default_termios()
        }
    }

    /// The size of a terminal's window.
    pub open spec fn winsize_of(&self, inode: u64) -> Seq<u8> {
        if self.winsize@.contains_key(inode) {
            self.winsize@[inode]@
        } else {
            self.first_winsize@
        }
    }

    /// All terminals are as they were, but perhaps the settings of one.
    pub open spec fn same_but_termios(&self, before: &Terminals, inode: u64) -> bool {
        &&& forall|other: u64|
            other != inode ==> #[trigger] self.termios_of(other) == before.termios_of(other)
        &&& forall|other: u64| #[trigger] self.winsize_of(other) == before.winsize_of(other)
    }

    /// All terminals are as they were, but perhaps the window of one.
    pub open spec fn same_but_winsize(&self, before: &Terminals, inode: u64) -> bool {
        &&& forall|other: u64|
            other != inode ==> #[trigger] self.winsize_of(other) == before.winsize_of(other)
        &&& forall|other: u64| #[trigger] self.termios_of(other) == before.termios_of(other)
    }

    /// No terminal has settings of its own.
    pub fn new(first_winsize: Vec<u8>) -> (t: Terminals)
        ensures
            t.first_winsize == first_winsize,
            forall|inode: u64| #[trigger] t.termios_of(inode) == default_termios(),
            forall|inode: u64| #[trigger] t.winsize_of(inode) == first_winsize@,
    {
        Terminals { termios: BTreeMap::new(), winsize: BTreeMap::new(), first_winsize }
    }
}

fn copy_bytes(b: &Vec<u8>) -> (copy: Vec<u8>)
    ensures
        copy@ == b@,
{
    let mut copy: Vec<u8> = Vec::new();
    let mut i: usize = 0;
    while i < b.len()
        invariant
            i <= b@.len(),
            copy@ == b@.take(i as int),
        decreases b.len() - i,
    {
        copy.push(b[i]);
        i += 1;
        assert(copy@ =~= b@.take(i as int));
    }
    assert(copy@ =~= b@);
    copy
}

/// The settings of a terminal.
pub fn termios_get_pub(terminals: &Terminals, inode_id: u64) -> (t: Vec<u8>)
    ensures
        t@ == terminals.termios_of(inode_id),
{
    match terminals.termios.get(&inode_id) {
        Some(t) => copy_bytes(t),
        None => new_termios(),
    }
}

fn termios_set(terminals: &mut Terminals, inode_id: u64, t: Vec<u8>)
    ensures
        final(terminals).termios_of(inode_id) == t@,
        final(terminals).same_but_termios(old(terminals), inode_id),
{
    terminals.termios.insert(inode_id, t);
}

fn winsize_get(terminals: &Terminals, inode_id: u64) -> (w: Vec<u8>)
    ensures
        w@ == terminals.winsize_of(inode_id),
{
    match terminals.winsize.get(&inode_id) {
        Some(w) => copy_bytes(w),
        None => copy_bytes(&terminals.first_winsize),
    }
}

fn winsize_set(terminals: &mut Terminals, inode_id: u64, w: Vec<u8>)
    ensures
        final(terminals).winsize_of(inode_id) == w@,
        final(terminals).same_but_winsize(old(terminals), inode_id),
{
    terminals.winsize.insert(inode_id, w);
}

/// The process group in the foreground of the console, and the session that put it there.
#[derive(Clone, Copy, Debug, PartialEq, Eq, Structural)]
pub struct Console {
    pub session: u32,
    pub group: u32,
}

/// The process group in the foreground of the console; zero before one was put there.
pub fn console_fg_pgrp(console: &Console) -> (group: u32)
    ensures
        group == console.group,
{
    console.group
}

/// Puts a process group into the foreground of the console.
pub fn console_set_fg(console: &mut Console, session: u32, group: u32)
    ensures
        *final(console) == (Console { session, group }),
{
    console.session = session;
    console.group = group;
}

/// The process group that a session sees in the foreground of the console: its own choice, or
/// the caller's group.
pub fn console_group_seen(console: &Console, session: u32, own_group: u32) -> (group: u32)
    ensures
        group == (if console.group != 0 && console.session == session {
            console.group
        } else {
            own_group
        }),
{
    if console.group != 0 && console.session == session {
        console.group
    } else {
        own_group
    }
}

/// What is told of a screen that can change: its size, and where the colours stand in a pixel of
/// 32 bits.
pub open spec fn var_screen(width: u32, height: u32) -> Seq<u8> {
    bytes::put32s(
        seq![width, height, width, height, 0, 0, 32, 0, 16, 8, 0, 8, 8, 0, 0, 8, 0, 24, 8, 0],
    ) + bytes::zeros(80)
}

/// What is told of a screen that can change.
pub fn fb_var_screeninfo(width: u32, height: u32) -> (out: Vec<u8>)
    ensures
        out@ == var_screen(width, height),
{
    let mut out: Vec<u8> = Vec::new();
    let words: [u32; 20] = [
        width,
        height,
        width,
        height,
        0,
        0,
        32,
        0,
        16,
        8,
        0,
        8,
        8,
        0,
        0,
        8,
        0,
        24,
        8,
        0,
    ];
    let ghost all = seq![
        width,
        height,
        width,
        height,
        0u32,
        0,
        32,
        0,
        16,
        8,
        0,
        8,
        8,
        0,
        0,
        8,
        0,
        24,
        8,
        0,
    ];
    assert(words@ =~= all);
    let mut i: usize = 0;
    assert(all.take(0) =~= Seq::empty());
    while i < 20
        invariant
            i <= 20,
            words@ == all,
            all.len() == 20,
            out@ == bytes::put32s(all.take(i as int)),
        decreases 20 - i,
    {
        bytes::push_u32(&mut out, words[i]);
        i += 1;
        assert(all.take(i as int).drop_last() =~= all.take(i - 1));
        assert(all.take(i as int).last() == words@[i - 1]);
    }
    assert(all.take(20) =~= all);
    bytes::push_zeros(&mut out, 80);
    out
}

/// The name of the screen.
pub open spec fn screen_name() -> Seq<u8> {
    seq![
        0x63u8,
        0x79,
        0x70,
        0x68,
        0x65,
        0x72,
        0x61,
        0x2d,
        0x76,
        0x69,
        0x72,
        0x74,
        0x67,
        0x70,
        0x75,
        0x00,
    ]
}

/// What is told of a screen that cannot change: its name, its memory, that it has true colours,
/// and how long a line is.
pub open spec fn fix_screen(start: u64, len: usize, width: u32) -> Seq<u8> {
    screen_name() + bytes::put64(start) + bytes::put32(len as u32) + bytes::zeros(8) + bytes::put32(
        2,
    ) + bytes::zeros(8) + bytes::put32((width * 4) as u32) + bytes::zeros(28)
}

/// What is told of a screen that cannot change.
pub fn fb_fix_screeninfo(smem_start: u64, smem_len: usize, width: u32) -> (out: Vec<u8>)
    requires
        width * 4 <= u32::MAX,
    ensures
        out@ == fix_screen(smem_start, smem_len, width),
{
    let mut out: Vec<u8> = Vec::new();
    bytes::push_u64(&mut out, 0x2d61_7265_6870_7963);
    bytes::push_u64(&mut out, 0x0075_7067_7472_6976);
    assert(out@ =~= screen_name());
    bytes::push_u64(&mut out, smem_start);
    bytes::push_u32(&mut out, #[verifier::truncate] (smem_len as u32));
    bytes::push_zeros(&mut out, 8);
    bytes::push_u32(&mut out, 2);
    bytes::push_zeros(&mut out, 8);
    bytes::push_u32(&mut out, width * 4);
    bytes::push_zeros(&mut out, 28);
    assert(out@ =~= fix_screen(smem_start, smem_len, width));
    out
}

/// What is known of the file that a device command goes to.
#[derive(Clone, Copy)]
pub struct DeviceFile {
    pub kind: InodeKind,
    pub inode: u64,
    pub drm_card: bool,
    pub drm_render: bool,
    /// Which part of the sound card it is.
    pub alsa: Option<u32>,
    /// Which input device it is.
    pub evdev: Option<u32>,
    /// Whether it is the sound device with settings of its own.
    pub dsp: bool,
}

/// What is known of the caller and of the terminal that it speaks of. The groups and sessions
/// come with the numbers that the caller knows them by.
#[derive(Clone, Copy)]
pub struct TtyFacts {
    pub foreground: Pid,
    pub foreground_seen: u32,
    pub own_group_seen: u32,
    pub session: Pid,
    pub session_seen: u32,
    pub caller: Pid,
    pub caller_session: Pid,
    /// The group that the number in the caller's bytes stands for, if it stands for one.
    pub group_meant: Option<Pid>,
    /// Whether a process in the background may change the terminal now.
    pub may_change: Result<(), i64>,
    pub keyboard_mode: u32,
}

/// The memory, the size of it and the size of the screen.
#[derive(Clone, Copy)]
pub struct Screen {
    pub start: u64,
    pub len: usize,
    pub width: u32,
    pub height: u32,
}

/// A device that takes its commands itself.
#[derive(Clone, Copy, Debug, PartialEq, Eq, Structural)]
pub enum Device {
    Card,
    Render,
    Sound(u32),
    Input(u32),
}

/// What is to be done for a device command.
pub enum IoctlStep {
    Reply(Reply),
    /// The device takes the command itself.
    Hand { device: Device, cmd: u32 },
    /// Done, once what is asked for was thrown away.
    Flush { input: bool, output: bool },
    SetForeground { group: Pid },
    /// The terminal becomes that of the caller's session.
    Acquire,
    /// The terminal belongs to no session any more.
    Release,
    SetKeyboardMode(u32),
}

pub ghost enum StepView {
    Reply(reply::ReplyView),
    Hand { device: Device, cmd: u32 },
    Flush { input: bool, output: bool },
    SetForeground { group: Pid },
    Acquire,
    Release,
    SetKeyboardMode(u32),
}

impl View for IoctlStep {
    type V = StepView;

    open spec fn view(&self) -> StepView {
        match *self {
            IoctlStep::Reply(r) => StepView::Reply(r@),
            IoctlStep::Hand { device, cmd } => StepView::Hand { device, cmd },
            IoctlStep::Flush { input, output } => StepView::Flush { input, output },
            IoctlStep::SetForeground { group } => StepView::SetForeground { group },
            IoctlStep::Acquire => StepView::Acquire,
            IoctlStep::Release => StepView::Release,
            IoctlStep::SetKeyboardMode(m) => StepView::SetKeyboardMode(m),
        }
    }
}

/// The device that takes a command itself.
pub open spec fn handed_to(file: DeviceFile, cmd: u64) -> Option<Device> {
    let graphics = (cmd >> 8) & 0xff == 0x64;
    if file.drm_card && graphics {
        Some(Device::Card)
    } else if file.drm_render && graphics {
        Some(Device::Render)
    } else if file.alsa is Some {
        Some(Device::Sound(file.alsa->0))
    } else if file.evdev is Some {
        Some(Device::Input(file.evdev->0))
    } else {
        None
    }
}

/// The commands that only a terminal takes.
pub open spec fn is_tty_command(cmd: u64) -> bool {
    ||| TCGETS <= cmd <= TCSETSF
    ||| TCSBRK <= cmd <= TCFLSH
    ||| TIOCSCTTY <= cmd <= TIOCSPGRP
    ||| cmd == TIOCGWINSZ
    ||| cmd == TIOCSWINSZ
    ||| cmd == TIOCNOTTY
    ||| cmd == TIOCGSID
    ||| cmd == TIOCGPTN
    ||| cmd == TIOCSPTLCK
    ||| KDGETLED <= cmd <= KDGKBTYPE
    ||| cmd == KDGKBMODE
    ||| cmd == KDSKBMODE
}

/// How many bytes are read for a command.
pub open spec fn input_len(cmd: u64) -> nat {
    if cmd == TIOCSWINSZ {
        8
    } else if TCSETS <= cmd <= TCSETSF {
        36
    } else {
        4
    }
}

/// What is to be done for a command that a terminal takes and that changes no settings.
pub open spec fn tty_step(
    file: DeviceFile,
    terminals: Terminals,
    facts: TtyFacts,
    cmd: u64,
    arg: u64,
    input: Option<Seq<u8>>,
) -> StepView {
    if cmd == TIOCGWINSZ {
        StepView::Reply(reply::with_bytes(0, arg, terminals.winsize_of(file.inode)))
    } else if cmd == TCGETS {
        StepView::Reply(reply::with_bytes(0, arg, terminals.termios_of(file.inode)))
    } else if cmd == TIOCGPGRP {
        StepView::Reply(
            reply::with_bytes(
                0,
                arg,
                bytes::put32(
                    if facts.foreground.0 != 0 {
                        facts.foreground_seen
                    } else {
                        facts.own_group_seen
                    },
                ),
            ),
        )
    } else if cmd == TIOCSPGRP {
        match input {
            None => StepView::Reply(reply::plain(errno::EFAULT)),
            Some(b) => match facts.may_change {
                Err(e) => StepView::Reply(reply::plain(e)),
                Ok(_) => StepView::SetForeground {
                    group: match facts.group_meant {
                        Some(p) => p,
                        None => Pid(bytes::le32(b, 0)),
                    },
                },
            },
        }
    } else if cmd == TIOCSCTTY {
        if facts.caller_session != facts.caller {
            StepView::Reply(reply::plain(errno::EPERM))
        } else {
            StepView::Acquire
        }
    } else if cmd == TIOCNOTTY {
        if facts.session == facts.caller_session {
            StepView::Release
        } else {
            StepView::Reply(reply::plain(0))
        }
    } else if cmd == TIOCGSID {
        if facts.session.0 == 0 {
            StepView::Reply(reply::plain(errno::ENOTTY))
        } else {
            StepView::Reply(reply::with_bytes(0, arg, bytes::put32(facts.session_seen)))
        }
    } else if cmd == TIOCGPTN {
        if file.inode & MASTER_BIT == 0 {
            StepView::Reply(reply::plain(errno::ENOTTY))
        } else {
            StepView::Reply(
                reply::with_bytes(0, arg, bytes::put32((file.inode & !MASTER_BIT) as u32)),
            )
        }
    } else if cmd == TCFLSH {
        StepView::Flush { input: arg == 0 || arg == 2, output: arg == 1 || arg == 2 }
    } else if cmd == KDGKBTYPE {
        StepView::Reply(reply::with_bytes(0, arg, seq![KB_101]))
    } else if cmd == KDGKBMODE {
        StepView::Reply(reply::with_bytes(0, arg, bytes::put32(facts.keyboard_mode)))
    } else if cmd == KDSKBMODE {
        StepView::SetKeyboardMode(arg as u32)
    } else if cmd == KDGETLED {
        StepView::Reply(reply::with_bytes(0, arg, seq![0u8]))
    } else {
        StepView::Reply(reply::plain(0))
    }
}

fn told(arg: u64, x: u32) -> (step: IoctlStep)
    ensures
        step@ == StepView::Reply(reply::with_bytes(0, arg, bytes::put32(x))),
{
    let mut out: Vec<u8> = Vec::new();
    bytes::push_u32(&mut out, x);
    assert(out@ =~= bytes::put32(x));
    IoctlStep::Reply(Reply::with_bytes(0, arg, out))
}

fn told_byte(arg: u64, x: u8) -> (step: IoctlStep)
    ensures
        step@ == StepView::Reply(reply::with_bytes(0, arg, seq![x])),
{
    let mut out: Vec<u8> = Vec::new();
    out.push(x);
    assert(out@ =~= seq![x]);
    IoctlStep::Reply(Reply::with_bytes(0, arg, out))
}

fn answer(code: i64) -> (step: IoctlStep)
    ensures
        step@ == StepView::Reply(reply::plain(code)),
{
    IoctlStep::Reply(Reply::plain(code))
}

fn tty_call(
    file: &DeviceFile,
    terminals: &Terminals,
    facts: &TtyFacts,
    cmd: u64,
    arg: u64,
    input: &Option<Vec<u8>>,
) -> (step: IoctlStep)
    requires
        cmd == TIOCSPGRP && input is Some ==> input->0@.len() == 4,
    ensures
        step@ == tty_step(*file, *terminals, *facts, cmd, arg, util::bytes_view(*input)),
{
    if cmd == TIOCGWINSZ {
        return IoctlStep::Reply(Reply::with_bytes(0, arg, winsize_get(terminals, file.inode)));
    }
    if cmd == TCGETS {
        return IoctlStep::Reply(Reply::with_bytes(0, arg, termios_get_pub(terminals, file.inode)));
    }
    if cmd == TIOCGPGRP {
        return told(
            arg,
            if facts.foreground.0 != 0 {
                facts.foreground_seen
            } else {
                facts.own_group_seen
            },
        );
    }
    if cmd == TIOCSPGRP {
        let b = match input {
            None => {
                return answer(errno::EFAULT);
            },
            Some(b) => b,
        };
        return match facts.may_change {
            Err(e) => answer(e),
            Ok(_) => match facts.group_meant {
                Some(p) => IoctlStep::SetForeground { group: p },
                None => IoctlStep::SetForeground { group: Pid(bytes::u32_at(b, 0)) },
            },
        };
    }
    if cmd == TIOCSCTTY {
        if facts.caller_session != facts.caller {
            return answer(errno::EPERM);
        }
        return IoctlStep::Acquire;
    }
    if cmd == TIOCNOTTY {
        if facts.session == facts.caller_session {
            return IoctlStep::Release;
        }
        return answer(0);
    }
    if cmd == TIOCGSID {
        if facts.session.0 == 0 {
            return answer(errno::ENOTTY);
        }
        return told(arg, facts.session_seen);
    }
    if cmd == TIOCGPTN {
        if file.inode & MASTER_BIT == 0 {
            return answer(errno::ENOTTY);
        }
        return told(arg, #[verifier::truncate] ((file.inode & !MASTER_BIT) as u32));
    }
    if cmd == TCFLSH {
        return IoctlStep::Flush { input: arg == 0 || arg == 2, output: arg == 1 || arg == 2 };
    }
    if cmd == KDGKBTYPE {
        return told_byte(arg, KB_101);
    }
    if cmd == KDGKBMODE {
        return told(arg, facts.keyboard_mode);
    }
    if cmd == KDSKBMODE {
        return IoctlStep::SetKeyboardMode(#[verifier::truncate] (arg as u32));
    }
    if cmd == KDGETLED {
        return told_byte(arg, 0);
    }
    answer(0)
}

/// What is to be done where terminals do not come in.
pub open spec fn other_step(screen: Option<Screen>, cmd: u64, arg: u64) -> StepView {
    StepView::Reply(
        if cmd == FBIOGET_VSCREENINFO && screen is Some {
            reply::with_bytes(0, arg, var_screen(screen->0.width, screen->0.height))
        } else if cmd == FBIOPUT_VSCREENINFO && screen is Some {
            reply::plain(0)
        } else if cmd == FBIOGET_FSCREENINFO && screen is Some {
            reply::with_bytes(
                0,
                arg,
                fix_screen(screen->0.start, screen->0.len, screen->0.width),
            )
        } else {
            reply::plain(errno::ENOTTY)
        },
    )
}

fn other_call(screen: Option<Screen>, cmd: u64, arg: u64) -> (step: IoctlStep)
    requires
        cmd == FBIOGET_FSCREENINFO && screen is Some ==> screen->0.width * 4 <= u32::MAX,
    ensures
        step@ == other_step(screen, cmd, arg),
{
    match screen {
        None => answer(errno::ENOTTY),
        Some(s) => {
            if cmd == FBIOGET_VSCREENINFO {
                let out = fb_var_screeninfo(s.width, s.height);
                IoctlStep::Reply(Reply::with_bytes(0, arg, out))
            } else if cmd == FBIOPUT_VSCREENINFO {
                answer(0)
            } else if cmd == FBIOGET_FSCREENINFO {
                let out = fb_fix_screeninfo(s.start, s.len, s.width);
                IoctlStep::Reply(Reply::with_bytes(0, arg, out))
            } else {
                answer(errno::ENOTTY)
            }
        },
    }
}

/// Whether a command sets what a terminal remembers: all that stands in the way is decided.
pub open spec fn set_allowed(facts: TtyFacts, cmd: u64, input: Option<Seq<u8>>) -> Result<(), i64> {
    if input is None {
        Err(errno::EFAULT)
    } else if cmd != TIOCSWINSZ && facts.may_change is Err {
        Err(facts.may_change->Err_0)
    } else {
        Ok(())
    }
}

/// The commands that set what a terminal remembers.
pub open spec fn is_setting(cmd: u64) -> bool {
    cmd == TIOCSWINSZ || TCSETS <= cmd <= TCSETSF
}

fn set_call(
    file: &DeviceFile,
    terminals: &mut Terminals,
    facts: &TtyFacts,
    cmd: u64,
    input: Option<Vec<u8>>,
) -> (step: IoctlStep)
    requires
        is_setting(cmd),
    ensures
        match set_allowed(*facts, cmd, util::bytes_view(input)) {
            Err(e) => step@ == StepView::Reply(reply::plain(e)) && *final(terminals) == *old(
                terminals),
            Ok(_) => if cmd == TIOCSWINSZ {
                &&& step@ == StepView::Reply(reply::plain(0))
                &&& final(terminals).winsize_of(file.inode) == input->0@
                &&& final(terminals).same_but_winsize(old(terminals), file.inode)
            } else {
                &&& step@ == StepView::Flush { input: cmd == TCSETSF, output: false }
                &&& final(terminals).termios_of(file.inode) == input->0@
                &&& final(terminals).same_but_termios(old(terminals), file.inode)
            },
        },
{
    let b = match input {
        None => {
            return answer(errno::EFAULT);
        },
        Some(b) => b,
    };
    if cmd == TIOCSWINSZ {
        winsize_set(terminals, file.inode, b);
        return answer(0);
    }
    match facts.may_change {
        Err(e) => {
            return answer(e);
        },
        Ok(_) => {},
    }
    termios_set(terminals, file.inode, b);
    IoctlStep::Flush { input: cmd == TCSETSF, output: false }
}

/// Takes a command for a device. `input` is what was read for it, `nearest_rate` the rate that
/// the sound device has nearest to the one wanted.
pub fn sys_ioctl(
    file: Option<DeviceFile>,
    terminals: &mut Terminals,
    sound: &mut Dsp,
    facts: &TtyFacts,
    screen: Option<Screen>,
    cmd: u64,
    arg: u64,
    input: Option<Vec<u8>>,
    nearest_rate: u32,
) -> (step: IoctlStep)
    requires
        file is Some && cmd & 0xffff_ffff == FBIOGET_FSCREENINFO && screen is Some && handed_to(
            file->0,
            cmd & 0xffff_ffff,
        ) is None ==> screen->0.width * 4 <= u32::MAX,
        input is Some ==> input->0@.len() == input_len(cmd & 0xffff_ffff),
    ensures
        ({
            let cmd = cmd & 0xffff_ffff;
            let read = util::bytes_view(input);
            let unchanged = *final(terminals) == *old(terminals);
            match file {
                None => step@ == StepView::Reply(reply::plain(errno::EBADF)) && unchanged
                    && *final(sound) == *old(sound),
                Some(f) => if handed_to(f, cmd) is Some {
                    &&& step@ == StepView::Hand {
                        device: handed_to(f, cmd)->0,
                        cmd: cmd as u32,
                    }
                    &&& unchanged
                    &&& *final(sound) == *old(sound)
                } else if is_tty_command(cmd) {
                    &&& *final(sound) == *old(sound)
                    &&& if f.kind != InodeKind::CharDevice {
                        step@ == StepView::Reply(reply::plain(errno::ENOTTY)) && unchanged
                    } else if !is_setting(cmd) {
                        step@ == tty_step(f, *old(terminals), *facts, cmd, arg, read) && unchanged
                    } else {
                        match set_allowed(*facts, cmd, read) {
                            Err(e) => step@ == StepView::Reply(reply::plain(e)) && unchanged,
                            Ok(_) => if cmd == TIOCSWINSZ {
                                &&& step@ == StepView::Reply(reply::plain(0))
                                &&& final(terminals).winsize_of(f.inode) == input->0@
                                &&& final(terminals).same_but_winsize(old(terminals), f.inode)
                            } else {
                                &&& step@ == StepView::Flush {
                                    input: cmd == TCSETSF,
                                    output: false,
                                }
                                &&& final(terminals).termios_of(f.inode) == input->0@
                                &&& final(terminals).same_but_termios(old(terminals), f.inode)
                            },
                        }
                    }
                } else if dsp::is_dsp_command(cmd) {
                    &&& unchanged
                    &&& if !f.dsp {
                        step@ == StepView::Reply(reply::plain(errno::ENOTTY)) && *final(sound)
                            == *old(sound)
                    } else {
                        let (r, after) = dsp::dsp_call(*old(sound), cmd, arg, read, nearest_rate);
                        step@ == StepView::Reply(r) && *final(sound) == after
                    }
                } else {
                    step@ == other_step(screen, cmd, arg) && unchanged && *final(sound) == *old(
                        sound)
                },
            }
        }),
{
    let f = match file {
        None => {
            return answer(errno::EBADF);
        },
        Some(f) => f,
    };
    let cmd: u64 = cmd & 0xffff_ffff;
    match hand_to(&f, cmd) {
        Some(device) => {
            return IoctlStep::Hand { device, cmd: #[verifier::truncate] (cmd as u32) };
        },
        None => {},
    }
    if tty_command(cmd) {
        if f.kind != InodeKind::CharDevice {
            return answer(errno::ENOTTY);
        }
        if cmd == TIOCSWINSZ || (TCSETS <= cmd && cmd <= TCSETSF) {
            return set_call(&f, terminals, facts, cmd, input);
        }
        return tty_call(&f, terminals, facts, cmd, arg, &input);
    }
    if dsp::dsp_command(cmd) {
        if !f.dsp {
            return answer(errno::ENOTTY);
        }
        return IoctlStep::Reply(dsp::do_dsp_ioctl(sound, cmd, arg, &input, nearest_rate));
    }
    other_call(screen, cmd, arg)
}

fn hand_to(file: &DeviceFile, cmd: u64) -> (device: Option<Device>)
    ensures
        device == handed_to(*file, cmd),
{
    let graphics = (cmd >> 8) & 0xff == 0x64;
    if file.drm_card && graphics {
        return Some(Device::Card);
    }
    if file.drm_render && graphics {
        return Some(Device::Render);
    }
    match file.alsa {
        Some(kind) => {
            return Some(Device::Sound(kind));
        },
        None => {},
    }
    match file.evdev {
        Some(idx) => Some(Device::Input(idx)),
        None => None,
    }
}

fn tty_command(cmd: u64) -> (r: bool)
    ensures
        r == is_tty_command(cmd),
{
    (TCGETS <= cmd && cmd <= TCSETSF) || (TCSBRK <= cmd && cmd <= TCFLSH) || (TIOCSCTTY <= cmd && cmd
        <= TIOCSPGRP) || cmd == TIOCGWINSZ || cmd == TIOCSWINSZ || cmd == TIOCNOTTY || cmd
        == TIOCGSID || cmd == TIOCGPTN || cmd == TIOCSPTLCK || (KDGETLED <= cmd && cmd <= KDGKBTYPE)
        || cmd == KDGKBMODE || cmd == KDSKBMODE
}

/// A terminal tells the settings and the window size that it remembers: those set last.
pub proof fn law_settings_are_told(
    file: DeviceFile,
    terminals: Terminals,
    facts: TtyFacts,
    arg: u64,
    input: Option<Seq<u8>>,
)
    ensures
        tty_step(file, terminals, facts, TCGETS, arg, input) == StepView::Reply(
            reply::with_bytes(0, arg, terminals.termios_of(file.inode)),
        ),
        tty_step(file, terminals, facts, TIOCGWINSZ, arg, input) == StepView::Reply(
            reply::with_bytes(0, arg, terminals.winsize_of(file.inode)),
        ),
{
}

} // verus!
