//! Where memory comes from, on a machine with one node.
use super::reply;
use super::reply::Reply;
use crate::bytes;
use crate::errno;
use vstd::prelude::*;

verus! {

pub const MPOL_DEFAULT: u64 = 0;

pub const MPOL_PREFERRED: u64 = 1;

pub const MPOL_BIND: u64 = 2;

pub const MPOL_INTERLEAVE: u64 = 3;

pub const MPOL_LOCAL: u64 = 4;

/// The bits of a mask that count: the first `maxnode`.
pub open spec fn counted_bits(maxnode: u64) -> u64 {
    if maxnode >= 64 {
        u64::MAX
    } else {
        ((1u64 << maxnode) - 1) as u64
    }
}

/// Whether a policy names nodes.
pub open spec fn names_nodes(mode: u64, nodemask: u64, maxnode: u64) -> bool {
    mode != MPOL_DEFAULT && mode != MPOL_LOCAL && nodemask != 0 && maxnode > 0
}

/// What setting a policy comes to: only the first node may be named. `mask` is what was read
/// of the caller's nodes.
pub open spec fn policy_result(mode: u64, nodemask: u64, maxnode: u64, mask: Option<u64>) -> i64 {
    if mode > MPOL_LOCAL {
        errno::EINVAL
    } else if names_nodes(mode, nodemask, maxnode) {
        if mask is None {
            errno::EFAULT
        } else if (mask->0 & counted_bits(maxnode)) & !1u64 != 0 {
            errno::EINVAL
        } else {
            0
        }
    } else {
        0
    }
}

/// `mbind`
pub fn sys_mbind(mode: u64, nodemask: u64, maxnode: u64, mask: Option<u64>) -> (code: i64)
    ensures
        code == policy_result(mode, nodemask, maxnode, mask),
{
    match mode {
        MPOL_DEFAULT | MPOL_PREFERRED | MPOL_BIND | MPOL_INTERLEAVE | MPOL_LOCAL => {},
        _ => {
            return errno::EINVAL;
        },
    }
    if mode != MPOL_DEFAULT && mode != MPOL_LOCAL && nodemask != 0 && maxnode > 0 {
        let mask: u64 = match mask {
            Some(m) => m,
            None => {
                return errno::EFAULT;
            },
        };
        let valid: u64 = if maxnode >= 64 {
            u64::MAX
        } else {
            assert(maxnode < 64 ==> (1u64 << maxnode) >= 1) by (bit_vector);
            (1u64 << maxnode) - 1
        };
        if (mask & valid) & !1u64 != 0 {
            return errno::EINVAL;
        }
    }
    0
}

/// `set_mempolicy`
pub fn sys_set_mempolicy(mode: u64, nodemask: u64, maxnode: u64, mask: Option<u64>) -> (code: i64)
    ensures
        code == policy_result(mode, nodemask, maxnode, mask),
{
    sys_mbind(mode, nodemask, maxnode, mask)
}

/// How many bytes of a mask of nodes are handed over.
pub open spec fn mask_len(maxnode: u64) -> nat {
    if maxnode > 56 {
        8
    } else {
        ((maxnode + 7) / 8) as nat
    }
}

/// The mask that names the first node.
pub open spec fn first_node(n: nat) -> Seq<u8> {
    seq![1u8] + bytes::zeros((n - 1) as nat)
}

/// `get_mempolicy`: the policy is the default, and all memory is on the first node.
pub fn sys_get_mempolicy(mode_ptr: u64, nodemask: u64, maxnode: u64) -> (r: Reply)
    ensures
        r@ == ({
            let told = reply::where_wanted(reply::plain(0), mode_ptr, bytes::put32(0));
            if maxnode > 0 {
                reply::where_wanted(told, nodemask, first_node(mask_len(maxnode)))
            } else {
                told
            }
        }),
{
    let mut r = Reply::plain(0);
    let mut mode: Vec<u8> = Vec::new();
    bytes::push_u32(&mut mode, 0);
    assert(mode@ =~= bytes::put32(0));
    r.hand_over(mode_ptr, mode);
    if maxnode > 0 {
        let n: usize = if maxnode > 56 {
            8
        } else {
            ((maxnode + 7) / 8) as usize
        };
        let mut buf: Vec<u8> = Vec::new();
        buf.push(1);
        bytes::push_zeros(&mut buf, n - 1);
        assert(buf@ =~= first_node(mask_len(maxnode)));
        r.hand_over(nodemask, buf);
    }
    r
}

/// `set_mempolicy_home_node`: there is one node to be at home on.
pub fn sys_set_mempolicy_home_node(home_node: u64) -> (code: i64)
    ensures
        code == (if home_node == 0 {
            0
        } else {
            errno::EINVAL
        }),
{
    if home_node != 0 {
        return errno::EINVAL;
    }
    0
}

} // verus!
