//! The answer of a call that hands something over in the caller's memory.
use crate::errno;
use vstd::prelude::*;

verus! {

/// Bytes for a place in the caller's memory.
pub struct CopyOut {
    pub to: u64,
    pub bytes: Vec<u8>,
}

impl View for CopyOut {
    type V = (u64, Seq<u8>);

    open spec fn view(&self) -> (u64, Seq<u8>) {
        (self.to, self.bytes@)
    }
}

/// An answer: the bytes are copied one after the other. Where one does not fit, those after
/// it are left out and the answer is `EFAULT`.
pub struct Reply {
    pub code: i64,
    pub out: Vec<CopyOut>,
}

#[verifier::ext_equal]
pub ghost struct ReplyView {
    pub code: i64,
    pub out: Seq<(u64, Seq<u8>)>,
}

pub open spec fn copies_view(out: Seq<CopyOut>) -> Seq<(u64, Seq<u8>)> {
    Seq::new(out.len(), |i: int| out[i]@)
}

impl View for Reply {
    type V = ReplyView;

    open spec fn view(&self) -> ReplyView {
        ReplyView { code: self.code, out: copies_view(self.out@) }
    }
}

/// An answer with nothing to hand over.
pub open spec fn plain(code: i64) -> ReplyView {
    ReplyView { code, out: Seq::empty() }
}

/// An answer with one thing to hand over.
pub open spec fn with_bytes(code: i64, to: u64, bytes: Seq<u8>) -> ReplyView {
    ReplyView { code, out: seq![(to, bytes)] }
}

/// `with_bytes`, where there is a place for the bytes.
pub open spec fn where_wanted(r: ReplyView, to: u64, bytes: Seq<u8>) -> ReplyView {
    if to == 0 {
        r
    } else {
        ReplyView { code: r.code, out: r.out.push((to, bytes)) }
    }
}

impl Reply {
    pub fn plain(code: i64) -> (r: Reply)
        ensures
            r@ == plain(code),
    {
        let r = Reply { code, out: Vec::new() };
        assert(r@ =~= plain(code));
        r
    }

    pub fn with_bytes(code: i64, to: u64, bytes: Vec<u8>) -> (r: Reply)
        ensures
            r@ == with_bytes(code, to, bytes@),
    {
        let mut out: Vec<CopyOut> = Vec::new();
        let ghost b = bytes@;
        out.push(CopyOut { to, bytes });
        let r = Reply { code, out };
        assert(r@ =~= with_bytes(code, to, b));
        r
    }

    /// Adds bytes, where there is a place for them.
    pub fn hand_over(&mut self, to: u64, bytes: Vec<u8>)
        ensures
            final(self)@ == where_wanted(old(self)@, to, bytes@),
    {
        let ghost before = self@;
        let ghost b = bytes@;
        if to != 0 {
            self.out.push(CopyOut { to, bytes });
        }
        assert(self@ =~= where_wanted(before, to, b));
    }

    /// The answer, once the bytes are copied or one did not fit.
    pub fn settle(&self, copied: bool) -> (code: i64)
        ensures
            code == if self@.out.len() > 0 && !copied {
                errno::EFAULT
            } else {
                self.code
            },
    {
        if self.out.len() > 0 && !copied {
            errno::EFAULT
        } else {
            self.code
        }
    }
}

} // verus!
