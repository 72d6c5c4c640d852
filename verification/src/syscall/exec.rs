//! Running a program: `execve` and `execveat`.
//!
//! A file that begins with `#!` names an interpreter, which is run in its place with the file
//! as an argument. `exec_loaded` says what becomes of a file that was read; as long as it names
//! an interpreter, that one is looked up and read in turn.
use crate::bytes;
use crate::errno;
use crate::text;
use crate::syscall::fs::paths;
use crate::syscall::fs::paths::At;
use crate::syscall::fs::paths::PathRead;
use crate::vfs::mount_table::MountTable;
use crate::vfs::resolve;
use crate::vfs::resolve::Inode;
use vstd::prelude::*;
use vstd::string::*;
use vstd::utf8;

verus! {

/// How often an interpreter may itself have an interpreter.
pub const MAX_SHEBANG_DEPTH: usize = 4;

/// The largest program.
pub const EXEC_MAX_BYTES: u64 = 64 * 1024 * 1024;

/// The most arguments.
pub const EXEC_MAX_ARGS: usize = 1024;

pub const AT_EMPTY_PATH: u64 = 0x1000;

pub const NEWLINE: u8 = 0x0a;

pub const RETURN: u8 = 0x0d;

pub const BLANK: u8 = 0x20;

pub const TAB: u8 = 0x09;

pub const SLASH: u8 = 0x2f;

pub open spec fn is_blank(b: u8) -> bool {
    b == BLANK || b == TAB
}

pub open spec fn ends_line(b: u8) -> bool {
    b == NEWLINE || b == RETURN
}

/// How many blanks come first.
pub open spec fn blanks(s: Seq<u8>) -> nat
    decreases s.len(),
{
    if s.len() > 0 && is_blank(s[0]) {
        1 + blanks(s.skip(1))
    } else {
        0
    }
}

/// How many bytes come before the first blank.
pub open spec fn word(s: Seq<u8>) -> nat
    decreases s.len(),
{
    if s.len() > 0 && !is_blank(s[0]) {
        1 + word(s.skip(1))
    } else {
        0
    }
}

/// How many bytes come before the end of the line.
pub open spec fn line_len(s: Seq<u8>) -> nat
    decreases s.len(),
{
    if s.len() > 0 && !ends_line(s[0]) {
        1 + line_len(s.skip(1))
    } else {
        0
    }
}

pub proof fn lemma_lens(s: Seq<u8>)
    ensures
        blanks(s) <= s.len(),
        word(s) <= s.len(),
        line_len(s) <= s.len(),
    decreases s.len(),
{
    if s.len() > 0 {
        lemma_lens(s.skip(1));
    }
}

fn skip_blanks(s: &Vec<u8>, from: usize) -> (at: usize)
    requires
        from <= s@.len(),
    ensures
        at == from + blanks(s@.skip(from as int)),
        at <= s@.len(),
{
    let mut i: usize = from;
    while i < s.len() && (s[i] == BLANK || s[i] == TAB)
        invariant
            from <= i <= s@.len(),
            from + blanks(s@.skip(from as int)) == i + blanks(s@.skip(i as int)),
        decreases s.len() - i,
    {
        assert(s@.skip(i as int)[0] == s@[i as int]);
        assert(s@.skip(i as int).skip(1) =~= s@.skip(i + 1));
        i += 1;
    }
    assert(i < s@.len() ==> s@.skip(i as int)[0] == s@[i as int]);
    i
}

fn skip_word(s: &Vec<u8>, from: usize) -> (at: usize)
    requires
        from <= s@.len(),
    ensures
        at == from + word(s@.skip(from as int)),
        at <= s@.len(),
{
    let mut i: usize = from;
    while i < s.len() && s[i] != BLANK && s[i] != TAB
        invariant
            from <= i <= s@.len(),
            from + word(s@.skip(from as int)) == i + word(s@.skip(i as int)),
        decreases s.len() - i,
    {
        assert(s@.skip(i as int)[0] == s@[i as int]);
        assert(s@.skip(i as int).skip(1) =~= s@.skip(i + 1));
        i += 1;
    }
    assert(i < s@.len() ==> s@.skip(i as int)[0] == s@[i as int]);
    i
}

fn skip_line(s: &Vec<u8>, from: usize) -> (at: usize)
    requires
        from <= s@.len(),
    ensures
        at == from + line_len(s@.skip(from as int)),
        at <= s@.len(),
{
    let mut i: usize = from;
    while i < s.len() && s[i] != NEWLINE && s[i] != RETURN
        invariant
            from <= i <= s@.len(),
            from + line_len(s@.skip(from as int)) == i + line_len(s@.skip(i as int)),
        decreases s.len() - i,
    {
        assert(s@.skip(i as int)[0] == s@[i as int]);
        assert(s@.skip(i as int).skip(1) =~= s@.skip(i + 1));
        i += 1;
    }
    assert(i < s@.len() ==> s@.skip(i as int)[0] == s@[i as int]);
    i
}

/// Whether a file names an interpreter.
pub open spec fn is_script(image: Seq<u8>) -> bool {
    image.len() >= 2 && image[0] == 0x23 && image[1] == 0x21
}

/// The first line of a file, behind its mark and the blanks after it.
pub open spec fn script_line(image: Seq<u8>) -> Seq<u8> {
    let rest = image.skip(2);
    let line = rest.take(line_len(rest) as int);
    line.skip(blanks(line) as int)
}

/// The interpreter that a script names: the first word of its line.
pub open spec fn interpreter(image: Seq<u8>) -> Seq<u8> {
    let line = script_line(image);
    line.take(word(line) as int)
}

/// The argument that a script gives its interpreter: all of its line behind the first word
/// and the blanks after it.
pub open spec fn interpreter_arg(image: Seq<u8>) -> Seq<u8> {
    let line = script_line(image);
    let tail = line.skip(word(line) as int);
    tail.skip(blanks(tail) as int)
}

/// What a script asks for.
pub struct Shebang {
    pub interpreter: Vec<u8>,
    pub arg: Vec<u8>,
}

/// The interpreter that a script names, and its argument; none where the line is blank.
pub fn read_shebang(image: &Vec<u8>) -> (r: Option<Shebang>)
    requires
        is_script(image@),
    ensures
        r is None == (script_line(image@).len() == 0),
        r is Some ==> r->0.interpreter@ == interpreter(image@) && r->0.arg@ == interpreter_arg(
            image@,
        ),
{
    let end: usize = skip_line(image, 2);
    let line = bytes::part(image, 2, end);
    proof {
        let rest = image@.skip(2);
        assert(line@ =~= rest.take(line_len(rest) as int));
        lemma_lens(line@);
        assert(line@.skip(0) =~= line@);
    }
    let start: usize = skip_blanks(&line, 0);
    let ghost text = script_line(image@);
    assert(text == line@.skip(start as int));
    if start == line.len() {
        return None;
    }
    let split: usize = skip_word(&line, start);
    let arg_start: usize = skip_blanks(&line, split);
    let name = bytes::part(&line, start, split);
    let arg = bytes::part(&line, arg_start, line.len());
    proof {
        assert(name@ =~= text.take(word(text) as int));
        assert(line@.skip(split as int) =~= text.skip(word(text) as int));
        assert(arg@ =~= line@.skip(split as int).skip(arg_start - split));
    }
    Some(Shebang { interpreter: name, arg })
}

pub open spec fn args_view(argv: Seq<Vec<u8>>) -> Seq<Seq<u8>> {
    Seq::new(argv.len(), |i: int| argv[i]@)
}

/// The arguments of an interpreter: its name, what the script gives it, the script, and the
/// arguments of the script but for its name.
pub open spec fn script_args(image: Seq<u8>, path: Seq<u8>, argv: Seq<Seq<u8>>) -> Seq<Seq<u8>> {
    let head = if interpreter_arg(image).len() > 0 {
        seq![interpreter(image), interpreter_arg(image), path]
    } else {
        seq![interpreter(image), path]
    };
    head + (if argv.len() > 0 {
        argv.skip(1)
    } else {
        argv
    })
}

fn copy(s: &Vec<u8>) -> (r: Vec<u8>)
    ensures
        r@ == s@,
{
    let r = bytes::part(s, 0, s.len());
    assert(r@ =~= s@);
    r
}

/// What becomes of a file that was read.
pub enum ExecStep {
    Fail(i64),
    /// The interpreter is looked up, with these arguments.
    Interpret { interpreter: Vec<u8>, argv: Vec<Vec<u8>> },
    /// The file is run.
    Run,
}

/// What becomes of a file at `path` that was read, after `depth` scripts.
pub fn exec_step(image: &Vec<u8>, path: &Vec<u8>, argv: &Vec<Vec<u8>>, depth: usize) -> (r:
    ExecStep)
    ensures
        match r {
            ExecStep::Run => !is_script(image@),
            ExecStep::Fail(e) => is_script(image@) && ((depth >= MAX_SHEBANG_DEPTH && e
                == errno::ELOOP) || (depth < MAX_SHEBANG_DEPTH && script_line(image@).len() == 0
                && e == errno::ENOEXEC)),
            ExecStep::Interpret { interpreter: name, argv: new } => is_script(image@) && depth
                < MAX_SHEBANG_DEPTH && script_line(image@).len() > 0 && name@ == interpreter(image@)
                && args_view(new@) == script_args(image@, path@, args_view(argv@)),
        },
{
    if !(image.len() >= 2 && image[0] == 0x23 && image[1] == 0x21) {
        return ExecStep::Run;
    }
    if depth >= MAX_SHEBANG_DEPTH {
        return ExecStep::Fail(errno::ELOOP);
    }
    let she = match read_shebang(image) {
        Some(s) => s,
        None => {
            return ExecStep::Fail(errno::ENOEXEC);
        },
    };
    let mut new: Vec<Vec<u8>> = Vec::new();
    new.push(copy(&she.interpreter));
    if she.arg.len() > 0 {
        new.push(she.arg);
    }
    new.push(copy(path));
    let ghost head = args_view(new@);
    let ghost old_args = args_view(argv@);
    let mut i: usize = 1;
    assert(argv@.len() > 0 ==> args_view(new@) =~= head + old_args.subrange(1, 1));
    while i < argv.len()
        invariant
            1 <= i,
            argv@.len() > 0 ==> i <= argv@.len(),
            old_args == args_view(argv@),
            args_view(new@) == if argv@.len() > 0 {
                head + old_args.subrange(1, i as int)
            } else {
                head
            },
        decreases argv.len() - i,
    {
        let ghost before = new@;
        new.push(copy(&argv[i]));
        assert(args_view(new@) =~= args_view(before).push(old_args[i as int]));
        assert(old_args.subrange(1, i + 1) =~= old_args.subrange(1, i as int).push(
            old_args[i as int],
        ));
        i += 1;
        assert(args_view(new@) =~= head + old_args.subrange(1, i as int));
    }
    proof {
        assert(argv@.len() > 0 ==> old_args.subrange(1, i as int) =~= old_args.skip(1));
        assert(args_view(new@) =~= script_args(image@, path@, old_args));
    }
    ExecStep::Interpret { interpreter: she.interpreter, argv: new }
}

/// What is known of a file that is to be run.
#[derive(Clone, Copy, PartialEq, Eq, Structural, Debug)]
pub struct ExecFile {
    /// Whether the caller may run it.
    pub executable: bool,
    pub size: u64,
}

/// Whether a file can be read to be run: its size, or what forbids it.
pub fn exec_file(file: Result<ExecFile, i64>) -> (r: Result<u64, i64>)
    ensures
        r == match file {
            Err(e) => Err(e),
            Ok(f) => if !f.executable {
                Err(errno::EACCES)
            } else if f.size == 0 {
                Err(errno::ENOEXEC)
            } else if f.size > EXEC_MAX_BYTES {
                Err(errno::E2BIG)
            } else {
                Ok(f.size)
            },
        },
{
    let f = match file {
        Ok(f) => f,
        Err(e) => {
            return Err(e);
        },
    };
    if !f.executable {
        return Err(errno::EACCES);
    }
    if f.size == 0 {
        return Err(errno::ENOEXEC);
    }
    if f.size > EXEC_MAX_BYTES {
        return Err(errno::E2BIG);
    }
    Ok(f.size)
}

/// How reading a file goes on.
#[derive(Clone, Copy, PartialEq, Eq, Structural, Debug)]
pub enum ReadStep {
    More(u64),
    Done,
    Fail(i64),
}

/// How reading a file of `size` bytes goes on, of which `total` are read, after another read
/// gave `n` bytes: a file that ends early cannot be run.
pub fn exec_read(size: u64, total: u64, n: Result<u64, i64>) -> (r: ReadStep)
    requires
        total < size,
        n is Ok ==> n->Ok_0 <= size - total,
    ensures
        r == match n {
            Err(e) => ReadStep::Fail(e),
            Ok(k) => if k == 0 {
                ReadStep::Fail(errno::ENOEXEC)
            } else if total + k == size {
                ReadStep::Done
            } else {
                ReadStep::More((total + k) as u64)
            },
        },
{
    match n {
        Err(e) => ReadStep::Fail(e),
        Ok(k) => {
            if k == 0 {
                return ReadStep::Fail(errno::ENOEXEC);
            }
            if total + k == size {
                return ReadStep::Done;
            }
            ReadStep::More(total + k)
        },
    }
}

pub open spec fn is_own_file(path: Seq<char>) -> bool {
    text::begins_with(path, "/proc/self/fd/"@) || text::begins_with(path, "/proc/self/exe"@)
}

/// Whether a path is refused: a program that was run from memory cannot run itself again.
pub fn exec_path_refused(path: &str, ran_from_memory: bool) -> (r: Option<i64>)
    ensures
        r == (if is_own_file(path@) && ran_from_memory {
            Some(errno::EACCES)
        } else {
            None
        }),
{
    let p = text::to_chars(path);
    let fd = text::to_chars("/proc/self/fd/");
    let exe = text::to_chars("/proc/self/exe");
    if (text::starts_with(&p, &fd) || text::starts_with(&p, &exe)) && ran_from_memory {
        Some(errno::EACCES)
    } else {
        None
    }
}

/// The path of the program that a caller wants to run, or why it is refused.
pub open spec fn program_path(at: At, read: PathRead, ran_from_memory: bool) -> Result<Seq<char>, i64> {
    match paths::path_read(read) {
        Err(e) => Err(e),
        Ok(p) => match paths::user_path(at, p) {
            Err(e) => Err(e),
            Ok(full) => if is_own_file(full) && ran_from_memory {
                Err(errno::EACCES)
            } else {
                Ok(full)
            },
        },
    }
}

/// Begins to run a program: its path. The arguments are read after that, and the file behind the
/// path is looked up with `exec_lookup`.
pub fn sys_execve(at: &At, read: PathRead, ran_from_memory: bool) -> (r: Result<String, i64>)
    ensures
        paths::text_in(r) == program_path(*at, read, ran_from_memory),
{
    let p = match paths::copy_path(read) {
        Err(e) => {
            return Err(e);
        },
        Ok(p) => p,
    };
    let full = match paths::resolve_user_path(at, p.as_str()) {
        Err(e) => {
            return Err(e);
        },
        Ok(full) => full,
    };
    match exec_path_refused(full.as_str(), ran_from_memory) {
        Some(e) => Err(e),
        None => Ok(full),
    }
}

/// The file of a program or of an interpreter.
pub fn exec_lookup<F: Inode>(fs: &F, root: u64, mounts: &MountTable, path: &str) -> (r: Result<u64, i64>)
    requires
        mounts.wf(),
    ensures
        r == resolve::inode_of(resolve::resolved(fs, root, mounts@, root, path@, true)),
{
    resolve::resolve(fs, root, mounts, root, path)
}

/// The path of the interpreter that a script names: `named` is its name, where that is text.
pub fn exec_interpreter(at: &At, named: Option<String>) -> (r: Result<String, i64>)
    ensures
        paths::text_in(r) == (match named {
            None => Err(errno::EINVAL),
            Some(n) => paths::user_path(*at, n@),
        }),
{
    match named {
        None => Err(errno::EINVAL),
        Some(n) => paths::resolve_user_path(at, n.as_str()),
    }
}

/// The arguments, or the path alone where there are none.
pub fn exec_args(argv: Vec<Vec<u8>>, path: &Vec<u8>) -> (r: Vec<Vec<u8>>)
    ensures
        args_view(r@) == (if argv@.len() == 0 {
            seq![path@]
        } else {
            args_view(argv@)
        }),
{
    if argv.len() == 0 {
        let mut r: Vec<Vec<u8>> = Vec::new();
        r.push(copy(path));
        assert(args_view(r@) =~= seq![path@]);
        r
    } else {
        argv
    }
}

/// The name under which the program is shown: its first argument where that is a path from
/// the root, else its own path.
pub fn shown_path(argv: &Vec<Vec<u8>>, path: &Vec<u8>) -> (r: Vec<u8>)
    ensures
        r@ == (if argv@.len() > 0 && argv@[0]@.len() > 0 && argv@[0]@[0] == SLASH {
            argv@[0]@
        } else {
            path@
        }),
{
    if argv.len() > 0 && argv[0].len() > 0 && argv[0][0] == SLASH {
        copy(&argv[0])
    } else {
        copy(path)
    }
}

/// What is left of a path behind its last slash.
pub open spec fn base_name(path: Seq<u8>) -> Seq<u8>
    decreases path.len(),
{
    if path.len() == 0 || path.last() == SLASH {
        Seq::empty()
    } else {
        base_name(path.drop_last()).push(path.last())
    }
}

proof fn lemma_base_name(path: Seq<u8>, at: int)
    requires
        0 <= at <= path.len(),
        at == 0 || path[at - 1] == SLASH,
        forall|i: int| at <= i < path.len() ==> path[i] != SLASH,
    ensures
        base_name(path) == path.skip(at),
    decreases path.len(),
{
    if path.len() > at {
        lemma_base_name(path.drop_last(), at);
        assert(path.drop_last().skip(at).push(path.last()) =~= path.skip(at));
    } else {
        assert(path.skip(at) =~= Seq::<u8>::empty());
    }
}

/// The short name of a program: at most fifteen bytes of its path's last part, filled up to
/// sixteen.
pub open spec fn short_name(path: Seq<u8>) -> Seq<u8> {
    let base = base_name(path);
    let n = if base.len() > 15 {
        15
    } else {
        base.len() as int
    };
    base.take(n) + bytes::zeros((16 - n) as nat)
}

/// The short name of a program.
pub fn exec_name(path: &Vec<u8>) -> (name: Vec<u8>)
    ensures
        name@ == short_name(path@),
        name@.len() == 16,
{
    let mut at: usize = path.len();
    while at > 0 && path[at - 1] != SLASH
        invariant
            at <= path@.len(),
            forall|i: int| at <= i < path@.len() ==> path@[i] != SLASH,
        decreases at,
    {
        at -= 1;
    }
    proof {
        lemma_base_name(path@, at as int);
    }
    let mut n: usize = path.len() - at;
    if n > 15 {
        n = 15;
    }
    let mut name = bytes::part(path, at, at + n);
    assert(name@ =~= base_name(path@).take(n as int));
    bytes::push_zeros(&mut name, 16 - n);
    name
}

/// A program on its way to be run: where it is looked for, with which arguments, and how many
/// scripts led there.
pub struct Loading {
    pub path: String,
    pub argv: Vec<Vec<u8>>,
    pub depth: usize,
}

#[verifier::ext_equal]
pub ghost struct LoadingView {
    pub path: Seq<char>,
    pub argv: Seq<Seq<u8>>,
    pub depth: usize,
}

impl View for Loading {
    type V = LoadingView;

    open spec fn view(&self) -> LoadingView {
        LoadingView { path: self.path@, argv: args_view(self.argv@), depth: self.depth }
    }
}

/// How running a program goes on.
pub enum ExecNext {
    Fail(i64),
    /// The file at the path is looked up and read.
    Load,
    /// The file that was read is run: how it is shown, and its short name.
    Run { shown: Vec<u8>, name: Vec<u8> },
}

pub ghost enum NextView {
    Fail(i64),
    Load,
    Run { shown: Seq<u8>, name: Seq<u8> },
}

impl View for ExecNext {
    type V = NextView;

    open spec fn view(&self) -> NextView {
        match *self {
            ExecNext::Fail(e) => NextView::Fail(e),
            ExecNext::Load => NextView::Load,
            ExecNext::Run { shown, name } => NextView::Run { shown: shown@, name: name@ },
        }
    }
}

/// Begins with a program: without arguments it gets its own path.
pub fn exec_begin(path: String, argv: Vec<Vec<u8>>) -> (l: Loading)
    ensures
        l@ == (LoadingView {
            path: path@,
            argv: if argv@.len() == 0 {
                seq![utf8::encode_utf8(path@)]
            } else {
                args_view(argv@)
            },
            depth: 0,
        }),
{
    let own = path.as_str().as_bytes_vec();
    let argv = exec_args(argv, &own);
    Loading { path, argv, depth: 0 }
}

/// How a program is shown.
pub open spec fn shown_as(argv: Seq<Seq<u8>>, path: Seq<u8>) -> Seq<u8> {
    if argv.len() > 0 && argv[0].len() > 0 && argv[0][0] == SLASH {
        argv[0]
    } else {
        path
    }
}

/// What becomes of a program once the file at its path is read: a script gives way to its
/// interpreter, as long as not too many have.
pub open spec fn loaded(l: LoadingView, at: At, image: Seq<u8>) -> (LoadingView, NextView) {
    let own = utf8::encode_utf8(l.path);
    if !is_script(image) {
        (l, NextView::Run { shown: shown_as(l.argv, own), name: short_name(own) })
    } else if l.depth >= MAX_SHEBANG_DEPTH {
        (l, NextView::Fail(errno::ELOOP))
    } else if script_line(image).len() == 0 {
        (l, NextView::Fail(errno::ENOEXEC))
    } else {
        match text::text_of(interpreter(image)) {
            None => (l, NextView::Fail(errno::EINVAL)),
            Some(n) => match paths::user_path(at, n) {
                Err(e) => (l, NextView::Fail(e)),
                Ok(path) => (
                    LoadingView {
                        path,
                        argv: script_args(image, own, l.argv),
                        depth: (l.depth + 1) as usize,
                    },
                    NextView::Load,
                ),
            },
        }
    }
}

/// Goes on with a program once the file at its path is read.
pub fn exec_loaded(l: &mut Loading, at: &At, image: &Vec<u8>) -> (next: ExecNext)
    ensures
        (final(l)@, next@) == loaded(old(l)@, *at, image@),
{
    let own = l.path.as_str().as_bytes_vec();
    match exec_step(image, &own, &l.argv, l.depth) {
        ExecStep::Fail(e) => ExecNext::Fail(e),
        ExecStep::Run => {
            let shown = shown_path(&l.argv, &own);
            let name = exec_name(&own);
            ExecNext::Run { shown, name }
        },
        ExecStep::Interpret { interpreter, argv } => match exec_interpreter(
            at,
            text::from_utf8(&interpreter),
        ) {
            Err(e) => ExecNext::Fail(e),
            Ok(path) => {
                l.path = path;
                l.argv = argv;
                l.depth = l.depth + 1;
                ExecNext::Load
            },
        },
    }
}

/// Scripts are followed only so far: each step leads one script deeper, and none leads deeper
/// than the limit.
pub proof fn law_scripts_come_to_an_end(l: LoadingView, at: At, image: Seq<u8>)
    ensures
        loaded(l, at, image).1 == NextView::Load ==> {
            &&& loaded(l, at, image).0.depth == l.depth + 1
            &&& l.depth < MAX_SHEBANG_DEPTH
        },
{
}

/// The script that leads to an interpreter is named to it by the path under which it was found.
pub proof fn law_interpreter_finds_the_script(l: LoadingView, at: At, image: Seq<u8>)
    requires
        loaded(l, at, image).1 == NextView::Load,
    ensures
        loaded(l, at, image).0.argv.contains(utf8::encode_utf8(l.path)),
{
    let own = utf8::encode_utf8(l.path);
    let argv = script_args(image, own, l.argv);
    let n = if interpreter_arg(image).len() > 0 {
        2int
    } else {
        1
    };
    assert(argv[n] == own);
}

/// What was read of one argument.
pub enum ArgRead {
    /// The place of the argument could not be read.
    Fault,
    /// The list ends here.
    End,
    /// The argument could not be read, or has no end.
    TooLong,
    Arg(Vec<u8>),
}

/// How reading the arguments goes on.
#[derive(Clone, Copy, PartialEq, Eq, Structural, Debug)]
pub enum ArgStep {
    More,
    Done,
    Fail(i64),
}

/// Takes in what was read of one argument: a list is done at its end, and too long where it
/// has none within `max` places.
pub fn take_arg(args: &mut Vec<Vec<u8>>, read: ArgRead, max: usize) -> (r: ArgStep)
    requires
        old(args)@.len() < max,
    ensures
        match read {
            ArgRead::Fault => r == ArgStep::Fail(errno::EFAULT) && final(args)@ == old(args)@,
            ArgRead::End => r == ArgStep::Done && final(args)@ == old(args)@,
            ArgRead::TooLong => r == ArgStep::Fail(errno::E2BIG) && final(args)@ == old(args)@,
            ArgRead::Arg(a) => final(args)@ == old(args)@.push(a) && r == if old(args)@.len() + 1
                == max {
                ArgStep::Fail(errno::E2BIG)
            } else {
                ArgStep::More
            },
        },
{
    match read {
        ArgRead::Fault => ArgStep::Fail(errno::EFAULT),
        ArgRead::End => ArgStep::Done,
        ArgRead::TooLong => ArgStep::Fail(errno::E2BIG),
        ArgRead::Arg(a) => {
            args.push(a);
            if args.len() == max {
                ArgStep::Fail(errno::E2BIG)
            } else {
                ArgStep::More
            }
        },
    }
}

/// Whether `execveat` names the open file itself: the path is empty, or not given at all.
pub open spec fn no_path(pathname: u64, read: PathRead) -> Result<bool, i64> {
    if pathname == 0 {
        Ok(true)
    } else {
        match paths::path_read(read) {
            Err(e) => Err(e),
            Ok(p) => Ok(p.len() == 0),
        }
    }
}

/// `execveat`: the size of the program that is run, or why none is. The path is looked at first,
/// then the arguments.
pub open spec fn open_program(
    pathname: u64,
    read: PathRead,
    args: Result<(), i64>,
    flags: u64,
    ran_from_memory: bool,
    size: Option<u64>,
) -> Result<u64, i64> {
    match no_path(pathname, read) {
        Err(e) => Err(e),
        Ok(empty) => match args {
            Err(e) => Err(e),
            Ok(_) => if flags & AT_EMPTY_PATH == 0 || !empty || ran_from_memory {
                Err(errno::ENOSYS)
            } else {
                match size {
                    None => Err(errno::EBADF),
                    Some(n) => if n == 0 {
                        Err(errno::ENOEXEC)
                    } else if n > EXEC_MAX_BYTES {
                        Err(errno::E2BIG)
                    } else {
                        Ok(n)
                    },
                }
            },
        },
    }
}

/// `execveat`: an open file can be run, once, and nothing else. `args` is what reading the
/// arguments and the environment came to, and `size` the size of the open file.
pub fn sys_execveat(
    pathname: u64,
    read: PathRead,
    args: Result<(), i64>,
    flags: u64,
    ran_from_memory: bool,
    size: Option<u64>,
) -> (r: Result<u64, i64>)
    ensures
        r == open_program(pathname, read, args, flags, ran_from_memory, size),
{
    let empty = if pathname == 0 {
        true
    } else {
        match paths::copy_path(read) {
            Err(e) => {
                return Err(e);
            },
            Ok(p) => paths::is_empty(p.as_str()),
        }
    };
    match args {
        Err(e) => {
            return Err(e);
        },
        Ok(_) => {},
    }
    if flags & AT_EMPTY_PATH == 0 || !empty || ran_from_memory {
        return Err(errno::ENOSYS);
    }
    match size {
        None => Err(errno::EBADF),
        Some(n) => {
            if n == 0 {
                return Err(errno::ENOEXEC);
            }
            if n > EXEC_MAX_BYTES {
                return Err(errno::E2BIG);
            }
            Ok(n)
        },
    }
}

/// `/proc/self/fd`
pub open spec fn unnamed() -> Seq<u8> {
    seq![0x2fu8, 0x70, 0x72, 0x6f, 0x63, 0x2f, 0x73, 0x65, 0x6c, 0x66, 0x2f, 0x66, 0x64]
}

/// The arguments of an open file that is run: without any it gets the name of no file in
/// particular. It is shown by the first of them.
pub fn execveat_args(argv: Vec<Vec<u8>>) -> (r: Vec<Vec<u8>>)
    ensures
        args_view(r@) == (if argv@.len() == 0 {
            seq![unnamed()]
        } else {
            args_view(argv@)
        }),
        r@.len() > 0,
{
    let name: Vec<u8> = vec![
        0x2f, 0x70, 0x72, 0x6f, 0x63, 0x2f, 0x73, 0x65, 0x6c, 0x66, 0x2f, 0x66, 0x64,
    ];
    assert(name@ =~= unnamed());
    let r = exec_args(argv, &name);
    assert(r@.len() == args_view(r@).len());
    r
}

/// An interpreter gets the script and the script's own arguments, in their order, behind
/// whatever it gets itself.
pub proof fn law_interpreter_gets_script(image: Seq<u8>, path: Seq<u8>, argv: Seq<Seq<u8>>)
    requires
        argv.len() > 0,
    ensures
        ({
            let new = script_args(image, path, argv);
            let n = new.len() - argv.len();
            &&& 1 <= n <= 2
            &&& new[0] == interpreter(image)
            &&& new[n] == path
            &&& new.skip(n + 1) == argv.skip(1)
        }),
{
    let new = script_args(image, path, argv);
    let n = new.len() - argv.len();
    assert(new.skip(n + 1) =~= argv.skip(1));
}

/// An interpreter's name and the first byte of its argument hold no blank.
pub proof fn law_interpreter_is_one_word(image: Seq<u8>)
    ensures
        forall|i: int|
            0 <= i < interpreter(image).len() ==> !is_blank(#[trigger] interpreter(image)[i]),
        interpreter_arg(image).len() > 0 ==> !is_blank(interpreter_arg(image)[0]),
{
    let line = script_line(image);
    lemma_lens(line);
    lemma_word(line);
    let tail = line.skip(word(line) as int);
    lemma_lens(tail);
    lemma_blanks(tail);
}

proof fn lemma_word(s: Seq<u8>)
    ensures
        forall|i: int| 0 <= i < word(s) ==> !is_blank(#[trigger] s[i]),
    decreases s.len(),
{
    if s.len() > 0 && !is_blank(s[0]) {
        lemma_lens(s);
        lemma_word(s.skip(1));
        assert forall|i: int| 0 <= i < word(s) implies !is_blank(#[trigger] s[i]) by {
            if i > 0 {
                assert(s.skip(1)[i - 1] == s[i]);
            }
        }
    }
}

proof fn lemma_blanks(s: Seq<u8>)
    ensures
        blanks(s) < s.len() ==> !is_blank(s[blanks(s) as int]),
    decreases s.len(),
{
    if s.len() > 0 && is_blank(s[0]) {
        lemma_blanks(s.skip(1));
    }
}

} // verus!
