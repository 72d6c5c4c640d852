//! Extended attributes.
use vstd::prelude::*;
use vstd::string::*;

use crate::errno;
use crate::syscall::fs::paths;
use crate::syscall::fs::paths::PathRead;
use crate::syscall::reply;
use crate::syscall::reply::Reply;
use crate::syscall::util;

verus! {

/// An attribute that is to be set.
pub struct SetXattr {
    pub inode: u64,
    pub name: String,
    pub value: Vec<u8>,
    pub flags: u32,
}

/// The arguments of a call on an attribute: the directory and the path, where the name and the
/// value are, how long the value is or may be, and flags.
#[derive(Clone, Copy, Debug, PartialEq, Eq, Structural)]
pub struct XattrCall {
    pub dirfd: u64,
    pub path: u64,
    pub name: u64,
    pub value: u64,
    pub size: u64,
    pub flags: u64,
}

/// `setxattrat`: sets without flags.
pub fn sys_setxattrat(dirfd: u64, path: u64, name: u64, value: u64, size: u64) -> (call: XattrCall)
    ensures
        call == (XattrCall { dirfd, path, name, value, size, flags: 0 }),
{
    XattrCall { dirfd, path, name, value, size, flags: 0 }
}

/// `getxattrat`: the value has no place of its own.
pub fn sys_getxattrat(dirfd: u64, path: u64, name: u64, size: u64) -> (call: XattrCall)
    ensures
        call == (XattrCall { dirfd, path, name, value: 0, size, flags: 0 }),
{
    XattrCall { dirfd, path, name, value: 0, size, flags: 0 }
}

/// `listxattrat`: the list has no place of its own.
pub fn sys_listxattrat(dirfd: u64, path: u64, size: u64) -> (call: XattrCall)
    ensures
        call == (XattrCall { dirfd, path, name: 0, value: 0, size, flags: 0 }),
{
    XattrCall { dirfd, path, name: 0, value: 0, size, flags: 0 }
}

/// `removexattrat`: the name has no place of its own.
pub fn sys_removexattrat(dirfd: u64, path: u64) -> (call: XattrCall)
    ensures
        call == (XattrCall { dirfd, path, name: 0, value: 0, size: 0, flags: 0 }),
{
    XattrCall { dirfd, path, name: 0, value: 0, size: 0, flags: 0 }
}

/// The file that a call with a descriptor speaks of.
pub fn opened_file(file: Option<u64>) -> (r: Result<u64, i64>)
    ensures
        r == (match file {
            None => Err(errno::EBADF),
            Some(inode) => Ok(inode),
        }),
{
    match file {
        None => Err(errno::EBADF),
        Some(inode) => Ok(inode),
    }
}

/// The value that is to be set: `size` bytes, of which none need to be readable where there are
/// none.
pub open spec fn value_in(size: u64, value: Option<Seq<u8>>) -> Result<Seq<u8>, i64> {
    if size == 0 {
        Ok(Seq::empty())
    } else {
        match value {
            None => Err(errno::EFAULT),
            Some(v) => Ok(v),
        }
    }
}

/// An attribute that is to be set, or why it is not. `target` is the file: the one that the path
/// leads to, links followed, or the one that the descriptor is open on.
pub open spec fn xattr_set(
    target: Result<u64, i64>,
    name: PathRead,
    size: u64,
    value: Option<Seq<u8>>,
    flags: u64,
) -> Result<(u64, Seq<char>, Seq<u8>, u32), i64> {
    match target {
        Err(e) => Err(e),
        Ok(inode) => match paths::path_read(name) {
            Err(e) => Err(e),
            Ok(n) => match value_in(size, value) {
                Err(e) => Err(e),
                Ok(v) => Ok((inode, n, v, flags as u32)),
            },
        },
    }
}

/// Sets an attribute of a file.
pub fn sys_setxattr(
    target: Result<u64, i64>,
    name: PathRead,
    size: u64,
    value: Option<Vec<u8>>,
    flags: u64,
) -> (r: Result<SetXattr, i64>)
    requires
        value is Some ==> value->0@.len() == size,
    ensures
        (match r {
            Ok(s) => Ok((s.inode, s.name@, s.value@, s.flags)),
            Err(e) => Err(e),
        }) == xattr_set(target, name, size, util::bytes_view(value), flags),
{
    let inode: u64 = match target {
        Err(e) => {
            return Err(e);
        },
        Ok(i) => i,
    };
    let name = match paths::copy_xname(name) {
        Err(e) => {
            return Err(e);
        },
        Ok(n) => n,
    };
    let flags: u32 = #[verifier::truncate] (flags as u32);
    if size == 0 {
        let none: Vec<u8> = Vec::new();
        assert(none@ =~= Seq::empty());
        return Ok(SetXattr { inode, name, value: none, flags });
    }
    match value {
        None => Err(errno::EFAULT),
        Some(v) => Ok(SetXattr { inode, name, value: v, flags }),
    }
}

/// The file and the name of an attribute that is to be told or removed.
pub open spec fn xattr_named(target: Result<u64, i64>, name: PathRead) -> Result<
    (u64, Seq<char>),
    i64,
> {
    match target {
        Err(e) => Err(e),
        Ok(inode) => match paths::path_read(name) {
            Err(e) => Err(e),
            Ok(n) => Ok((inode, n)),
        },
    }
}

/// The attribute of a file that is to be told.
pub fn sys_getxattr(target: Result<u64, i64>, name: PathRead) -> (r: Result<(u64, String), i64>)
    ensures
        paths::name_in(r) == xattr_named(target, name),
{
    match target {
        Err(e) => Err(e),
        Ok(inode) => match paths::copy_xname(name) {
            Err(e) => Err(e),
            Ok(n) => Ok((inode, n)),
        },
    }
}

/// The attribute of a file that is to be removed.
pub fn sys_removexattr(target: Result<u64, i64>, name: PathRead) -> (r: Result<(u64, String), i64>)
    ensures
        paths::name_in(r) == xattr_named(target, name),
{
    sys_getxattr(target, name)
}

/// The answer to a question for an attribute or for the names of all: how long it is. It is
/// handed over where there is room for it; with no room at all only the length is asked for.
pub open spec fn xattr_answer(got: Result<usize, i64>, buf: Seq<u8>, to: u64, size: u64)
    -> reply::ReplyView {
    match got {
        Err(e) => reply::plain(e),
        Ok(n) => if size > 0 && n <= size {
            reply::with_bytes(n as i64, to, buf.take(n as int))
        } else {
            reply::plain(n as i64)
        },
    }
}

/// Tells an attribute, or the names of all: `buf` is what was filled in, and `got` how long the
/// whole is.
pub fn xattr_reply(got: Result<usize, i64>, buf: Vec<u8>, to: u64, size: u64) -> (r: Reply)
    requires
        buf@.len() == size,
    ensures
        r@ == xattr_answer(got, buf@, to, size),
{
    match got {
        Err(e) => Reply::plain(e),
        Ok(n) => {
            if size > 0 && n as u64 <= size {
                let mut out = buf;
                out.truncate(n);
                assert(out@ =~= buf@.take(n as int));
                Reply::with_bytes(n as i64, to, out)
            } else {
                Reply::plain(n as i64)
            }
        },
    }
}

/// Asking without room hands nothing over, and tells the same length as asking with enough.
pub proof fn law_length_is_told_without_room(n: usize, buf: Seq<u8>, to: u64, size: u64)
    requires
        n <= size,
    ensures
        xattr_answer(Ok(n), Seq::empty(), to, 0).out.len() == 0,
        xattr_answer(Ok(n), Seq::empty(), to, 0).code == xattr_answer(Ok(n), buf, to, size).code,
{
}

} // verus!
