//! Mounting, unmounting and changing the root.
use vstd::prelude::*;
use vstd::string::*;

use crate::errno;
use crate::numeral;
use crate::syscall::fs::paths;
use crate::syscall::fs::paths::At;
use crate::syscall::fs::paths::PathRead;
use crate::text;
use crate::vfs::context;
use crate::vfs::context::Context;
use crate::vfs::context::MountWorld;
use crate::vfs::forest;
use crate::vfs::mount;
use crate::vfs::mount_queries;
use crate::vfs::path;
use crate::vfs::resolve;
use crate::vfs::resolve::Inode;
use crate::vfs::world;
use crate::vfs::InodeKind;

verus! {

/// The first slash from a place on; the end where there is none.
pub open spec fn first_slash(s: Seq<char>, from: int) -> int
    decreases s.len() - from,
{
    if from < 0 || from >= s.len() {
        s.len() as int
    } else if s[from] == '/' {
        from
    } else {
        first_slash(s, from + 1)
    }
}

fn find_slash(s: &Vec<char>, from: usize) -> (at: usize)
    requires
        from <= s@.len(),
    ensures
        at == first_slash(s@, from as int),
        from <= at <= s@.len(),
{
    let mut i: usize = from;
    while i < s.len()
        invariant
            from <= i <= s@.len(),
            first_slash(s@, from as int) == first_slash(s@, i as int),
        decreases s.len() - i,
    {
        if s[i] == '/' {
            return i;
        }
        i += 1;
    }
    i
}

/// The directory under which a process's descriptors stand.
pub open spec fn fd_directory(pid: u32) -> Seq<char> {
    "/proc/"@ + numeral::digits_of(pid as nat) + "/fd/"@
}

/// Where the descriptor's number begins in a path into one of the two directories of the
/// caller's descriptors.
pub open spec fn fd_place(full: Seq<char>, pid: u32) -> Option<int> {
    if text::begins_with(full, "/proc/self/fd/"@) {
        Some("/proc/self/fd/"@.len() as int)
    } else if text::begins_with(full, fd_directory(pid)) {
        Some(fd_directory(pid).len() as int)
    } else {
        None
    }
}

/// A path through one of the caller's descriptors is that of the open file, where that is
/// known. `fd_paths` holds for each descriptor the path of its file, empty where there is none.
pub open spec fn canonical(full: Seq<char>, pid: u32, fd_paths: Seq<Seq<char>>) -> Seq<char> {
    match fd_place(full, pid) {
        None => full,
        Some(from) => {
            let end = first_slash(full, from);
            match numeral::fd_in(full.subrange(from, end)) {
                Some(fd) => if fd < fd_paths.len() && fd_paths[fd as int].len() > 0 {
                    fd_paths[fd as int] + full.skip(end)
                } else {
                    full
                },
                None => full,
            }
        },
    }
}

fn push_chars(out: &mut Vec<char>, more: &Vec<char>)
    ensures
        final(out)@ == old(out)@ + more@,
{
    let mut i: usize = 0;
    assert(out@ =~= out@ + more@.take(0));
    while i < more.len()
        invariant
            i <= more@.len(),
            out@ == old(out)@ + more@.take(i as int),
        decreases more.len() - i,
    {
        out.push(more[i]);
        i += 1;
        assert(out@ =~= old(out)@ + more@.take(i as int));
    }
    assert(more@.take(i as int) =~= more@);
}

fn descriptor_place(chars: &Vec<char>, pid: u32) -> (place: Option<usize>)
    ensures
        match place {
            Some(from) => fd_place(chars@, pid) == Some(from as int) && from <= chars@.len(),
            None => fd_place(chars@, pid) is None,
        },
{
    let own = text::to_chars("/proc/self/fd/");
    if text::starts_with(chars, &own) {
        return Some(own.len());
    }
    let mut dir = text::to_chars("/proc/");
    push_chars(&mut dir, &numeral::decimal_chars(pid));
    push_chars(&mut dir, &text::to_chars("/fd/"));
    if text::starts_with(chars, &dir) {
        return Some(dir.len());
    }
    None
}

fn part_of(chars: &Vec<char>, from: usize, to: usize) -> (part: Vec<char>)
    requires
        from <= to <= chars@.len(),
    ensures
        part@ == chars@.subrange(from as int, to as int),
{
    let mut part: Vec<char> = Vec::new();
    let mut i: usize = from;
    while i < to
        invariant
            from <= i <= to <= chars@.len(),
            part@ == chars@.subrange(from as int, i as int),
        decreases to - i,
    {
        part.push(chars[i]);
        i += 1;
        assert(part@ =~= chars@.subrange(from as int, i as int));
    }
    part
}

/// The path of the file that a path through one of the caller's descriptors means.
pub fn canon_proc_fd(full: String, pid: u32, fd_paths: &Vec<String>) -> (r: String)
    ensures
        r@ == canonical(full@, pid, path::views(fd_paths@)),
{
    let chars = text::to_chars(full.as_str());
    let from: usize = match descriptor_place(&chars, pid) {
        None => {
            return full;
        },
        Some(from) => from,
    };
    let end: usize = find_slash(&chars, from);
    let number = part_of(&chars, from, end);
    match numeral::parse_fd(&number) {
        None => full,
        Some(fd) => {
            let at: usize = fd as usize;
            if at >= fd_paths.len() {
                return full;
            }
            assert(path::views(fd_paths@)[at as int] == fd_paths@[at as int]@);
            if paths::is_empty(fd_paths[at].as_str()) {
                return full;
            }
            let mut r = fd_paths[at].as_str().to_owned();
            let rest = text::slice(full.as_str(), end, chars.len());
            r.append(rest.as_str());
            assert(rest@ =~= full@.skip(end as int));
            r
        },
    }
}

/// The path at which a caller means a mount.
pub open spec fn mount_path(at: At, path: Seq<char>, pid: u32, fd_paths: Seq<Seq<char>>) -> Result<
    Seq<char>,
    i64,
> {
    match paths::user_path(at, path) {
        Err(e) => Err(e),
        Ok(full) => Ok(canonical(full, pid, fd_paths)),
    }
}

/// What a caller says of the paths in a call, and what is known of its descriptors.
pub struct Caller {
    pub at: At,
    pub pid: u32,
    /// For each descriptor the path of its file; empty where there is none.
    pub fd_paths: Vec<String>,
}

pub open spec fn path_for(caller: Caller, read: PathRead) -> Result<Seq<char>, i64> {
    match paths::path_read(read) {
        Err(e) => Err(e),
        Ok(p) => mount_path(caller.at, p, caller.pid, path::views(caller.fd_paths@)),
    }
}

/// The path at which a caller means a mount.
pub fn resolve_mount_path(caller: &Caller, path: &str) -> (r: Result<String, i64>)
    ensures
        paths::text_in(r) == mount_path(
            caller.at,
            path@,
            caller.pid,
            path::views(caller.fd_paths@),
        ),
{
    match paths::resolve_user_path(&caller.at, path) {
        Err(e) => Err(e),
        Ok(full) => Ok(canon_proc_fd(full, caller.pid, &caller.fd_paths)),
    }
}

fn read_mount_path(caller: &Caller, read: PathRead) -> (r: Result<String, i64>)
    ensures
        paths::text_in(r) == path_for(*caller, read),
{
    match paths::copy_path(read) {
        Err(e) => Err(e),
        Ok(p) => resolve_mount_path(caller, p.as_str()),
    }
}

impl Caller {
    /// Files are known only under paths that something can be mounted at.
    pub open spec fn wf(&self) -> bool {
        forall|i: int|
            0 <= i < self.fd_paths@.len() && (#[trigger] self.fd_paths@[i])@.len() > 0
                ==> forest::is_mount_path(self.fd_paths@[i]@)
    }
}

proof fn lemma_slashed(names: Seq<Seq<char>>)
    requires
        path::all_proper(names),
        names.len() > 0,
    ensures
        path::is_absolute(path::slashed(names)),
        path::slashed(names).last() != '/',
    decreases names.len(),
{
    let front = names.drop_last();
    assert(path::is_proper(names[names.len() - 1]));
    let last = names.last();
    assert(!last.contains('/'));
    assert(path::slashed(names).last() == last.last());
    assert(last[last.len() - 1] != '/');
    if front.len() > 0 {
        assert forall|i: int| 0 <= i < front.len() implies path::is_proper(#[trigger] front[i]) by {
            assert(front[i] == names[i]);
        }
        lemma_slashed(front);
        assert(path::slashed(names)[0] == path::slashed(front)[0]);
    } else {
        assert(path::slashed(front) =~= Seq::empty());
        assert(path::slashed(names)[0] == '/');
    }
}

/// Something can be mounted at every path that a caller can mean.
pub proof fn law_mount_path_is_proper(caller: Caller, read: PathRead)
    requires
        caller.wf(),
        path_for(caller, read) is Ok,
    ensures
        forest::is_mount_path(path_for(caller, read)->Ok_0),
{
    let given = paths::path_read(read)->Ok_0;
    let full = paths::user_path(caller.at, given)->Ok_0;
    let cwd = if path::is_absolute(given) {
        "/"@
    } else if caller.at.dirfd != crate::syscall::dispatch::AT_FDCWD {
        caller.at.dir->0.path@
    } else {
        paths::cwd_of(caller.at.cwd_path)
    };
    assert(full == path::normalized(cwd, given));
    path::law_names_are_proper(cwd, given);
    let names = path::names_of(cwd, given);
    if names.len() > 0 {
        lemma_slashed(names);
    }
    assert(forest::is_mount_path(full));
    let fd_paths = path::views(caller.fd_paths@);
    match fd_place(full, caller.pid) {
        None => {},
        Some(from) => {
            let end = first_slash(full, from);
            lemma_first_slash(full, from);
            match numeral::fd_in(full.subrange(from, end)) {
                Some(fd) => {
                    if fd < fd_paths.len() && fd_paths[fd as int].len() > 0 {
                        assert(forest::is_mount_path(caller.fd_paths@[fd as int]@));
                        let rest = full.skip(end);
                        let r = fd_paths[fd as int] + rest;
                        assert(r[0] == fd_paths[fd as int][0]);
                        if rest.len() > 0 {
                            assert(r.last() == rest.last());
                            assert(rest.last() == full.last());
                            lemma_fd_place(full, caller.pid);
                        } else {
                            assert(r =~= fd_paths[fd as int]);
                        }
                    }
                },
                None => {},
            }
        },
    }
}

proof fn lemma_first_slash(s: Seq<char>, from: int)
    requires
        0 <= from <= s.len(),
    ensures
        from <= first_slash(s, from) <= s.len(),
    decreases s.len() - from,
{
    if from < s.len() && s[from] != '/' {
        lemma_first_slash(s, from + 1);
    }
}

proof fn lemma_fd_place(full: Seq<char>, pid: u32)
    requires
        fd_place(full, pid) is Some,
    ensures
        0 < fd_place(full, pid)->0 <= full.len(),
        full.len() > 1,
{
    reveal_strlit("/proc/self/fd/");
    reveal_strlit("/proc/");
    reveal_strlit("/fd/");
    assert(fd_directory(pid).len() >= 10);
}

/// What a call of `mount` asks for.
pub enum MountPlan {
    Fail(i64),
    /// Nothing is to be done.
    Done,
    Propagation { target: String },
    Move { source: String, target: String },
    Remount { target: String },
    Bind { source: String, target: String },
    /// A new file system.
    New { source: String, target: String, fstype: String },
}

pub ghost enum PlanView {
    Fail(i64),
    Done,
    Propagation { target: Seq<char> },
    Move { source: Seq<char>, target: Seq<char> },
    Remount { target: Seq<char> },
    Bind { source: Seq<char>, target: Seq<char> },
    New { source: Seq<char>, target: Seq<char>, fstype: Seq<char> },
}

impl View for MountPlan {
    type V = PlanView;

    open spec fn view(&self) -> PlanView {
        match *self {
            MountPlan::Fail(e) => PlanView::Fail(e),
            MountPlan::Done => PlanView::Done,
            MountPlan::Propagation { target } => PlanView::Propagation { target: target@ },
            MountPlan::Move { source, target } => PlanView::Move {
                source: source@,
                target: target@,
            },
            MountPlan::Remount { target } => PlanView::Remount { target: target@ },
            MountPlan::Bind { source, target } => PlanView::Bind {
                source: source@,
                target: target@,
            },
            MountPlan::New { source, target, fstype } => PlanView::New {
                source: source@,
                target: target@,
                fstype: fstype@,
            },
        }
    }
}

/// The arguments of `mount`, as they were read. Where no source is given, `source` is `None`.
pub struct MountArgs {
    pub source: Option<PathRead>,
    pub target: PathRead,
    pub fstype: PathRead,
    pub flags: u64,
}

/// A file system that is there without being mounted.
pub open spec fn is_built_in(fstype: Seq<char>) -> bool {
    fstype == "devtmpfs"@ || fstype == "devpts"@ || fstype == "mqueue"@ || fstype == "cgroup"@
        || fstype == "cgroup2"@
}

/// A file system that can be mounted.
pub open spec fn is_mountable(fstype: Seq<char>) -> bool {
    fstype == "tmpfs"@ || fstype == "ext4"@ || fstype == "proc"@ || fstype == "sysfs"@
}

fn built_in(fstype: &str) -> (r: bool)
    ensures
        r == is_built_in(fstype@),
{
    text::equal(fstype, "devtmpfs") || text::equal(fstype, "devpts") || text::equal(
        fstype,
        "mqueue",
    ) || text::equal(fstype, "cgroup") || text::equal(fstype, "cgroup2")
}

fn mountable(fstype: &str) -> (r: bool)
    ensures
        r == is_mountable(fstype@),
{
    text::equal(fstype, "tmpfs") || text::equal(fstype, "ext4") || text::equal(fstype, "proc")
        || text::equal(fstype, "sysfs")
}

/// The source of a bind or a move; without one it cannot be read.
pub open spec fn given_source(source: Option<PathRead>) -> PathRead {
    match source {
        Some(read) => read,
        None => PathRead::TooLong,
    }
}

/// The plan for two paths. Both are read before either is looked at.
pub open spec fn both_paths(caller: Caller, source: PathRead, target: PathRead) -> Result<
    (Seq<char>, Seq<char>),
    i64,
> {
    match (paths::path_read(source), paths::path_read(target)) {
        (Err(e), _) => Err(e),
        (_, Err(e)) => Err(e),
        _ => match (path_for(caller, source), path_for(caller, target)) {
            (Err(e), _) => Err(e),
            (_, Err(e)) => Err(e),
            (Ok(s), Ok(t)) => Ok((s, t)),
        },
    }
}

/// What mounting a new file system asks for.
pub open spec fn planned_new(caller: Caller, args: MountArgs) -> PlanView {
    match paths::path_read(args.fstype) {
        Err(_) => PlanView::Fail(errno::EINVAL),
        Ok(fstype) => if is_built_in(fstype) {
            PlanView::Done
        } else if !is_mountable(fstype) {
            PlanView::Fail(errno::ENODEV)
        } else {
            match path_for(caller, args.target) {
                Err(e) => PlanView::Fail(e),
                Ok(target) => match args.source {
                    None => PlanView::New { source: "none"@, target, fstype },
                    Some(read) => match paths::path_read(read) {
                        Err(e) => PlanView::Fail(e),
                        Ok(source) => PlanView::New { source, target, fstype },
                    },
                },
            }
        },
    }
}

/// What a call of `mount` asks for: the flags decide.
pub open spec fn planned(caller: Caller, args: MountArgs, capable: bool) -> PlanView {
    let source = given_source(args.source);
    if !capable {
        PlanView::Fail(errno::EPERM)
    } else if args.flags & mount::PROPAGATION_MASK != 0 && args.flags & mount::MS_BIND == 0 {
        match path_for(caller, args.target) {
            Err(e) => PlanView::Fail(e),
            Ok(target) => PlanView::Propagation { target },
        }
    } else if args.flags & mount::MS_MOVE != 0 {
        match both_paths(caller, source, args.target) {
            Err(e) => PlanView::Fail(e),
            Ok((source, target)) => PlanView::Move { source, target },
        }
    } else if args.flags & mount::MS_REMOUNT != 0 {
        match path_for(caller, args.target) {
            Err(e) => PlanView::Fail(e),
            Ok(target) => PlanView::Remount { target },
        }
    } else if args.flags & mount::MS_BIND != 0 {
        match both_paths(caller, source, args.target) {
            Err(e) => PlanView::Fail(e),
            Ok((source, target)) => PlanView::Bind { source, target },
        }
    } else {
        planned_new(caller, args)
    }
}

pub open spec fn pair_in(r: Result<(String, String), i64>) -> Result<(Seq<char>, Seq<char>), i64> {
    match r {
        Ok((a, b)) => Ok((a@, b@)),
        Err(e) => Err(e),
    }
}

fn read_both(caller: &Caller, source: Option<PathRead>, target: PathRead) -> (r: Result<
    (String, String),
    i64,
>)
    ensures
        pair_in(r) == both_paths(*caller, given_source(source), target),
{
    let read = match source {
        Some(read) => read,
        None => PathRead::TooLong,
    };
    let s = match paths::copy_path(read) {
        Err(e) => {
            return Err(e);
        },
        Ok(p) => p,
    };
    let t = match paths::copy_path(target) {
        Err(e) => {
            return Err(e);
        },
        Ok(p) => p,
    };
    let s_norm = match resolve_mount_path(caller, s.as_str()) {
        Err(e) => {
            return Err(e);
        },
        Ok(p) => p,
    };
    match resolve_mount_path(caller, t.as_str()) {
        Err(e) => Err(e),
        Ok(t_norm) => Ok((s_norm, t_norm)),
    }
}

fn plan_new(caller: &Caller, args: MountArgs) -> (plan: MountPlan)
    ensures
        plan@ == planned_new(*caller, args),
{
    let fstype = match paths::copy_path(args.fstype) {
        Err(_) => {
            return MountPlan::Fail(errno::EINVAL);
        },
        Ok(s) => s,
    };
    if built_in(fstype.as_str()) {
        return MountPlan::Done;
    }
    if !mountable(fstype.as_str()) {
        return MountPlan::Fail(errno::ENODEV);
    }
    let target = match read_mount_path(caller, args.target) {
        Err(e) => {
            return MountPlan::Fail(e);
        },
        Ok(p) => p,
    };
    match args.source {
        None => MountPlan::New { source: String::from_str("none"), target, fstype },
        Some(read) => match paths::copy_path(read) {
            Err(e) => MountPlan::Fail(e),
            Ok(source) => MountPlan::New { source, target, fstype },
        },
    }
}

/// What a call of `mount` asks for. `capable` says whether the caller may mount at all.
pub fn plan_mount(caller: &Caller, args: MountArgs, capable: bool) -> (plan: MountPlan)
    ensures
        plan@ == planned(*caller, args, capable),
        plan@ matches PlanView::Fail(e) ==> e < 0,
{
    if !capable {
        return MountPlan::Fail(errno::EPERM);
    }
    let flags: u64 = args.flags;
    if flags & mount::PROPAGATION_MASK != 0 && flags & mount::MS_BIND == 0 {
        return match read_mount_path(caller, args.target) {
            Err(e) => MountPlan::Fail(e),
            Ok(target) => MountPlan::Propagation { target },
        };
    }
    if flags & mount::MS_MOVE != 0 {
        return match read_both(caller, args.source, args.target) {
            Err(e) => MountPlan::Fail(e),
            Ok((source, target)) => MountPlan::Move { source, target },
        };
    }
    if flags & mount::MS_REMOUNT != 0 {
        return match read_mount_path(caller, args.target) {
            Err(e) => MountPlan::Fail(e),
            Ok(target) => MountPlan::Remount { target },
        };
    }
    if flags & mount::MS_BIND != 0 {
        return match read_both(caller, args.source, args.target) {
            Err(e) => MountPlan::Fail(e),
            Ok((source, target)) => MountPlan::Bind { source, target },
        };
    }
    plan_new(caller, args)
}

/// Every path in a plan is one that something can be mounted at.
pub open spec fn plan_fits(plan: PlanView) -> bool {
    match plan {
        PlanView::Fail(_) => true,
        PlanView::Done => true,
        PlanView::Propagation { target } => forest::is_mount_path(target),
        PlanView::Move { source, target } => forest::is_mount_path(source)
            && forest::is_mount_path(target),
        PlanView::Remount { target } => forest::is_mount_path(target),
        PlanView::Bind { source, target } => forest::is_mount_path(source)
            && forest::is_mount_path(target),
        PlanView::New { source, target, fstype } => forest::is_mount_path(target),
    }
}

/// A plan names only paths that something can be mounted at.
pub proof fn law_plan_fits(caller: Caller, args: MountArgs, capable: bool)
    requires
        caller.wf(),
    ensures
        plan_fits(planned(caller, args, capable)),
{
    let source = given_source(args.source);
    if path_for(caller, args.target) is Ok {
        law_mount_path_is_proper(caller, args.target);
    }
    if path_for(caller, source) is Ok {
        law_mount_path_is_proper(caller, source);
    }
}

/// What getting the root of a new file system came to.
#[derive(Clone, Copy, Debug, PartialEq, Eq, Structural)]
pub enum NewRoot {
    /// The disk is in use already.
    Busy,
    /// There is no disk.
    NoDevice,
    /// There is no file system on the disk.
    Unreadable,
    Root(u64),
}

/// Whether the root of a new file system is to be got, for a directory; or the answer.
pub open spec fn new_target<F: Inode>(
    fs: &F,
    root: u64,
    nodes: Seq<forest::NodeView>,
    source: Seq<char>,
    target: Seq<char>,
    fstype: Seq<char>,
) -> Result<u64, i64> {
    match resolve::inode_of(resolve::resolved(fs, root, nodes, root, target, true)) {
        Err(e) => Err(e),
        Ok(inode) => if fs.kind_of(inode) != InodeKind::Directory {
            Err(errno::ENOTDIR)
        } else if fstype == "ext4"@ && source != "/dev/vda"@ {
            Err(errno::ENODEV)
        } else {
            Ok(inode)
        },
    }
}

/// The directory that a new file system is to be mounted on.
pub fn check_new_target<F: Inode>(
    fs: &F,
    ctx: &Context,
    world: &MountWorld,
    source: &str,
    target: &str,
    fstype: &str,
) -> (r: Result<u64, i64>)
    requires
        world.wf(),
        ctx.mounts < world.tables@.len(),
    ensures
        r == new_target(
            fs,
            ctx.root,
            world@.tables[ctx.mounts as int],
            source@,
            target@,
            fstype@,
        ),
        r matches Err(e) ==> e < 0,
{
    assert(world@.tables[ctx.mounts as int] == world.tables@[ctx.mounts as int]@);
    let inode: u64 = match resolve::resolve(
        fs,
        ctx.root,
        &world.tables[ctx.mounts],
        ctx.root,
        target,
    ) {
        Err(e) => {
            return Err(e);
        },
        Ok(i) => i,
    };
    if fs.kind(inode) != InodeKind::Directory {
        return Err(errno::ENOTDIR);
    }
    if text::equal(fstype, "ext4") && !text::equal(source, "/dev/vda") {
        return Err(errno::ENODEV);
    }
    Ok(inode)
}

/// The answer of `mount`, whether the disk is given free again, and all tables afterwards, for
/// every plan but new flags for a mount. `new_root` is what getting the root of a new file
/// system came to.
pub open spec fn mounted<F: Inode>(
    fs: &F,
    ctx: Context,
    top: u64,
    w: context::WorldView,
    plan: PlanView,
    flags: u64,
    new_root: NewRoot,
) -> (i64, bool, context::WorldView) {
    let nodes = w.tables[ctx.mounts as int];
    match plan {
        PlanView::Fail(e) => (e, false, w),
        PlanView::Done => (0, false, w),
        PlanView::Propagation { target } => {
            let targets = mount::change_targets(nodes, target, flags);
            (
                0,
                false,
                mount::with_all_changed(w, ctx.mounts as int, targets, flags, targets.len() as int),
            )
        },
        PlanView::Move { source, target } => {
            let (code, after) = mount::after_move(fs, ctx, w, source, target);
            (code, false, after)
        },
        PlanView::Remount { target } => (0, false, w),
        PlanView::Bind { source, target } => {
            let (code, after) = mount::after_bind(fs, ctx, top, w, source, target, flags);
            (code, false, after)
        },
        PlanView::New { source, target, fstype } => match new_target(
            fs,
            ctx.root,
            nodes,
            source,
            target,
            fstype,
        ) {
            Err(e) => (e, false, w),
            Ok(inode) => match new_root {
                NewRoot::Busy => (errno::EBUSY, false, w),
                NewRoot::NoDevice => (errno::ENODEV, true, w),
                NewRoot::Unreadable => (errno::EINVAL, true, w),
                NewRoot::Root(new) => (
                    0,
                    false,
                    mount::after_install_new(
                        fs,
                        top,
                        w,
                        ctx.mounts as int,
                        target,
                        inode,
                        new,
                        flags,
                        source,
                        fstype,
                    ).0,
                ),
            },
        },
    }
}

/// The answer of `mount` with new flags for a mount, and all tables afterwards: the mount at the
/// path gets them, or the only one whose root the path leads to.
pub open spec fn remounted<F: Inode>(
    fs: &F,
    ctx: Context,
    w: context::WorldView,
    target: Seq<char>,
    flags: u64,
    code: i64,
    after: context::WorldView,
) -> bool {
    let nodes = w.tables[ctx.mounts as int];
    let given = flags & mount::MOUNT_FLAG_MASK;
    match forest::node_at(nodes, target) {
        Some(node) => code == 0 && after == world::with_flags(w, node.data.in_use, given),
        None => match resolve::inode_of(
            resolve::resolved(fs, ctx.root, nodes, ctx.root, target, true),
        ) {
            Err(_) => code == errno::EINVAL && after == w,
            Ok(inode) => if exists|i: int| #[trigger]
                mount_queries::is_only_root(nodes, inode, i) {
                code == 0 && exists|i: int| #[trigger]
                    mount_queries::is_only_root(nodes, inode, i) && after == world::with_flags(
                        w,
                        nodes[i].data.in_use,
                        given,
                    )
            } else {
                code == errno::EINVAL && after == w
            },
        },
    }
}

/// Gives a mount new flags.
pub fn remount<F: Inode>(fs: &F, ctx: &Context, world: &mut MountWorld, target: &str, flags: u64) -> (code:
    i64)
    requires
        old(world).wf(),
        ctx.mounts < old(world).tables@.len(),
    ensures
        final(world).wf(),
        final(world).root == old(world).root,
        final(world).tables@.len() == old(world).tables@.len(),
        remounted(fs, *ctx, old(world)@, target@, flags, code, final(world)@),
{
    let given: u64 = flags & mount::MOUNT_FLAG_MASK;
    if world.set_mount_flags(ctx.mounts, target, given) {
        return 0;
    }
    assert(world@.tables[ctx.mounts as int] == world.tables@[ctx.mounts as int]@);
    match resolve::resolve(fs, ctx.root, &world.tables[ctx.mounts], ctx.root, target) {
        Err(_) => errno::EINVAL,
        Ok(inode) => {
            if world.set_mount_flags_by_inode(ctx.mounts, inode, given) {
                0
            } else {
                errno::EINVAL
            }
        },
    }
}

/// Whether what a plan mounts has a root of the file tree to stand in, and new peer groups can be
/// numbered, as many as the plan makes.
pub open spec fn groups_suffice<F: Inode>(
    fs: &F,
    ctx: Context,
    world: MountWorld,
    plan: PlanView,
    flags: u64,
    new_root: NewRoot,
) -> bool {
    let w = world@;
    let nodes = w.tables[ctx.mounts as int];
    match plan {
        PlanView::Propagation { target } => w.registry.next_group + mount::change_targets(
            nodes,
            target,
            flags,
        ).len() < u64::MAX,
        PlanView::Bind { source, target } => world.root is Some && w.registry.next_group
            < u64::MAX,
        PlanView::New { source, target, fstype } => new_root is Root && new_target(
            fs,
            ctx.root,
            nodes,
            source,
            target,
            fstype,
        ) is Ok ==> world.root is Some && w.registry.next_group < u64::MAX,
        _ => true,
    }
}

/// Mounts something, or changes how it is mounted. With the answer comes whether the disk is to
/// be given free again.
pub fn sys_mount<F: Inode>(
    fs: &F,
    ctx: &Context,
    world: &mut MountWorld,
    plan: MountPlan,
    flags: u64,
    new_root: NewRoot,
) -> (r: (i64, bool))
    requires
        old(world).wf(),
        ctx.mounts < old(world).tables@.len(),
        plan_fits(plan@),
        groups_suffice(fs, *ctx, *old(world), plan@, flags, new_root),
    ensures
        final(world).wf(),
        final(world).root == old(world).root,
        match plan@ {
            PlanView::Remount { target } => !r.1 && remounted(
                fs,
                *ctx,
                old(world)@,
                target,
                flags,
                r.0,
                final(world)@,
            ),
            other => (r.0, r.1, final(world)@) == mounted(
                fs,
                *ctx,
                old(world).root->0,
                old(world)@,
                other,
                flags,
                new_root,
            ),
        },
        !(plan@ is Fail) && r.0 != 0 ==> r.0 < 0 && final(world)@ == old(world)@,
{
    let ghost w = world@;
    match plan {
        MountPlan::Fail(e) => (e, false),
        MountPlan::Done => (0, false),
        MountPlan::Propagation { target } => {
            let code: i64 = mount::change_propagation(world, ctx.mounts, target.as_str(), flags);
            (code, false)
        },
        MountPlan::Move { source, target } => {
            let code: i64 = mount::move_mount(fs, ctx, world, source.as_str(), target.as_str());
            (code, false)
        },
        MountPlan::Remount { target } => {
            let code: i64 = remount(fs, ctx, world, target.as_str(), flags);
            (code, false)
        },
        MountPlan::Bind { source, target } => {
            let code: i64 = mount::bind_mount(
                fs,
                ctx,
                world,
                source.as_str(),
                target.as_str(),
                flags,
            );
            (code, false)
        },
        MountPlan::New { source, target, fstype } => {
            let inode: u64 = match check_new_target(
                fs,
                ctx,
                world,
                source.as_str(),
                target.as_str(),
                fstype.as_str(),
            ) {
                Err(e) => {
                    return (e, false);
                },
                Ok(i) => i,
            };
            match new_root {
                NewRoot::Busy => (errno::EBUSY, false),
                NewRoot::NoDevice => (errno::ENODEV, true),
                NewRoot::Unreadable => (errno::EINVAL, true),
                NewRoot::Root(new) => {
                    let _mirrors = mount::install_new(
                        fs,
                        ctx,
                        world,
                        target.as_str(),
                        inode,
                        new,
                        flags,
                        source.as_str(),
                        fstype.as_str(),
                    );
                    (0, false)
                },
            }
        },
    }
}

/// The path to unmount, or why nothing is.
pub open spec fn umount_target(caller: Caller, target: PathRead, flags: u64, capable: bool) -> Result<
    Seq<char>,
    i64,
> {
    if !capable {
        Err(errno::EPERM)
    } else if flags & mount::MNT_EXPIRE != 0 {
        Err(errno::EINVAL)
    } else {
        path_for(caller, target)
    }
}

/// Unmounts something. With the answer comes whether the disk is free for another mount.
pub fn sys_umount2<F: Inode>(
    fs: &F,
    ctx: &Context,
    world: &mut MountWorld,
    caller: &Caller,
    target: PathRead,
    flags: u64,
    capable: bool,
) -> (r: (i64, bool))
    requires
        old(world).wf(),
        ctx.mounts < old(world).tables@.len(),
        caller.wf(),
    ensures
        final(world).wf(),
        final(world).root == old(world).root,
        match umount_target(*caller, target, flags, capable) {
            Err(e) => r == (e, false) && final(world)@ == old(world)@,
            Ok(path) => (r.0, final(world)@, r.1) == mount::after_umount(
                fs,
                *ctx,
                old(world)@,
                path,
                flags,
            ),
        },
{
    if !capable {
        return (errno::EPERM, false);
    }
    if flags & mount::MNT_EXPIRE != 0 {
        return (errno::EINVAL, false);
    }
    match read_mount_path(caller, target) {
        Err(e) => (e, false),
        Ok(path) => {
            proof {
                law_mount_path_is_proper(*caller, target);
            }
            mount::do_umount(fs, ctx, world, path.as_str(), flags)
        },
    }
}

/// The directory that a path leads to.
pub open spec fn directory_at<F: Inode>(
    fs: &F,
    root: u64,
    nodes: Seq<forest::NodeView>,
    at: At,
    path: Seq<char>,
) -> Result<u64, i64> {
    match paths::start_of(at, root, path) {
        Err(e) => Err(e),
        Ok(start) => match resolve::inode_of(
            resolve::resolved(fs, root, nodes, start, path, true),
        ) {
            Err(e) => Err(e),
            Ok(inode) => if fs.kind_of(inode) != InodeKind::Directory {
                Err(errno::ENOTDIR)
            } else {
                Ok(inode)
            },
        },
    }
}

/// The two directories of a change of the root, and the paths given for them.
pub open spec fn pivot_directories<F: Inode>(
    fs: &F,
    root: u64,
    nodes: Seq<forest::NodeView>,
    caller: Caller,
    new_root: PathRead,
    put_old: PathRead,
    capable: bool,
) -> Result<(u64, u64, Seq<char>, Seq<char>), i64> {
    if !capable {
        Err(errno::EPERM)
    } else {
        match (paths::path_read(new_root), paths::path_read(put_old)) {
            (Err(e), _) => Err(e),
            (_, Err(e)) => Err(e),
            (Ok(n), Ok(o)) => match (
                directory_at(fs, root, nodes, caller.at, n),
                directory_at(fs, root, nodes, caller.at, o),
            ) {
                (Err(e), _) => Err(e),
                (_, Err(e)) => Err(e),
                (Ok(new_inode), Ok(old_inode)) => match (
                    path_for(caller, new_root),
                    path_for(caller, put_old),
                ) {
                    (Err(e), _) => Err(e),
                    (_, Err(e)) => Err(e),
                    (Ok(n_path), Ok(o_path)) => Ok((new_inode, old_inode, n_path, o_path)),
                },
            },
        }
    }
}

/// `path` is where a directory is mounted; where it is not, the path given for it.
pub open spec fn is_real_path(
    nodes: Seq<forest::NodeView>,
    inode: u64,
    given: Seq<char>,
    path: Seq<char>,
) -> bool {
    if exists|i: int| 0 <= i < nodes.len() && (#[trigger] nodes[i]).data.root == inode {
        mount_queries::is_longest_path(nodes, inode, nodes.len() as int, path)
    } else {
        path == given
    }
}

fn real_path(world: &MountWorld, t: usize, inode: u64, given: String) -> (path: String)
    requires
        world.wf(),
        t < world.tables@.len(),
        forest::is_mount_path(given@),
    ensures
        is_real_path(world@.tables[t as int], inode, given@, path@),
        forest::is_mount_path(path@),
{
    let ghost nodes = world@.tables[t as int];
    assert(nodes == world.tables@[t as int]@);
    match world.tables[t].mount_path_for_root_inode(inode) {
        Some(path) => {
            proof {
                let i = choose|i: int|
                    0 <= i < nodes.len() && (#[trigger] nodes[i]).data.root == inode
                        && nodes[i].path == path@;
                assert(forest::is_mount_path(nodes[i].path));
            }
            path
        },
        None => given,
    }
}

fn find_directory<F: Inode>(fs: &F, ctx: &Context, world: &MountWorld, at: &At, path: &str) -> (r:
    Result<u64, i64>)
    requires
        world.wf(),
        ctx.mounts < world.tables@.len(),
    ensures
        r == directory_at(fs, ctx.root, world@.tables[ctx.mounts as int], *at, path@),
{
    assert(world@.tables[ctx.mounts as int] == world.tables@[ctx.mounts as int]@);
    match paths::resolve_at_inode(fs, ctx.root, &world.tables[ctx.mounts], at, path) {
        Err(e) => Err(e),
        Ok(inode) => {
            if fs.kind(inode) != InodeKind::Directory {
                Err(errno::ENOTDIR)
            } else {
                Ok(inode)
            }
        },
    }
}

/// Makes a directory the root, and puts the old root under another. The new root comes back:
/// it becomes the caller's root and working directory.
pub fn sys_pivot_root<F: Inode>(
    fs: &F,
    ctx: &Context,
    world: &mut MountWorld,
    caller: &Caller,
    new_root: PathRead,
    put_old: PathRead,
    capable: bool,
) -> (r: Result<u64, i64>)
    requires
        old(world).wf(),
        ctx.mounts < old(world).tables@.len(),
        caller.wf(),
        old(world)@.registry.tags.len() + old(world)@.tables[ctx.mounts as int].len() + 1
            <= usize::MAX,
    ensures
        final(world).wf(),
        final(world).root == old(world).root,
        ({
            let w = old(world)@;
            let nodes = w.tables[ctx.mounts as int];
            match pivot_directories(fs, ctx.root, nodes, *caller, new_root, put_old, capable) {
                Err(e) => r == Err::<u64, i64>(e) && final(world)@ == w,
                Ok((new_inode, old_inode, n_given, o_given)) => exists|
                    n_path: Seq<char>,
                    o_path: Seq<char>,
                |
                    {
                        let (outcome, after) = #[trigger] world::after_pivot_root(
                            w,
                            ctx.mounts as int,
                            n_path,
                            o_path,
                        );
                        &&& is_real_path(nodes, new_inode, n_given, n_path)
                        &&& is_real_path(nodes, old_inode, o_given, o_path)
                        &&& final(world)@ == after
                        &&& r == (match outcome {
                            Ok(_) => Ok(new_inode),
                            Err(e) => Err(e),
                        })
                    },
            }
        }),
{
    if !capable {
        return Err(errno::EPERM);
    }
    let ghost nodes = world@.tables[ctx.mounts as int];
    let ghost w = world@;
    let n_text = match paths::copy_path(new_root) {
        Err(e) => {
            return Err(e);
        },
        Ok(p) => p,
    };
    let o_text = match paths::copy_path(put_old) {
        Err(e) => {
            return Err(e);
        },
        Ok(p) => p,
    };
    let new_inode: u64 = match find_directory(fs, ctx, world, &caller.at, n_text.as_str()) {
        Err(e) => {
            return Err(e);
        },
        Ok(i) => i,
    };
    let old_inode: u64 = match find_directory(fs, ctx, world, &caller.at, o_text.as_str()) {
        Err(e) => {
            return Err(e);
        },
        Ok(i) => i,
    };
    let n_given = match resolve_mount_path(caller, n_text.as_str()) {
        Err(e) => {
            return Err(e);
        },
        Ok(p) => p,
    };
    let o_given = match resolve_mount_path(caller, o_text.as_str()) {
        Err(e) => {
            return Err(e);
        },
        Ok(p) => p,
    };
    proof {
        law_mount_path_is_proper(*caller, new_root);
        law_mount_path_is_proper(*caller, put_old);
    }
    let n_path = real_path(world, ctx.mounts, new_inode, n_given);
    let o_path = real_path(world, ctx.mounts, old_inode, o_given);
    let outcome = world.pivot_root(ctx.mounts, n_path.as_str(), o_path.as_str());
    assert((outcome, world@) == world::after_pivot_root(
        w,
        ctx.mounts as int,
        n_path@,
        o_path@,
    ));
    match outcome {
        Ok(_) => Ok(new_inode),
        Err(e) => Err(e),
    }
}

} // verus!
