//! The region: an arena of tagged blocks, and handles into it.
//!
//! A handle is the index of a block. Block 0 is the nil sentinel, which is
//! also the empty list. A block is never freed or moved. Every link of a
//! block leads to an older block, so no chain of links can come back to where
//! it started.

use vstd::prelude::*;
use crate::error::SlErrCode;
use crate::form::Tree;
use crate::tag::{CoreType, TAG_NIL, spec_core_type};

verus! {

/// Bytes of a vector block before its elements: the length field.
pub const VEC_HEAD: usize = 4;

/// Bytes of a hash vector block before its buckets: size and fill fields.
pub const HASH_HEAD: usize = 8;

/// A handle: the index of a block of the region that made it.
#[derive(Debug, Clone, Copy, PartialEq, Eq, Structural)]
pub struct SlHndl {
    pub idx: usize,
}

/// The fixed part of a block: its tag, its reference count, its "next" link
/// and the two escape fields. An escape field means something only where the
/// tag has its flag.
#[derive(Debug, Clone, Copy, PartialEq, Eq, Structural)]
pub struct Head {
    pub tag: u8,
    pub refc: u32,
    pub next: SlHndl,
    pub self_type: u32,
    pub pred_type: u32,
    pub size: usize,
}

/// What a block holds after its header, by kind.
#[derive(Debug)]
pub enum Payload {
    /// Nothing, or bytes that nothing was written to yet.
    Empty,
    Int(i64),
    /// The decimal literal of a float.
    Text(Vec<u8>),
    Sym(u32),
    Code(SlErrCode),
    /// The one slot of a reference cell.
    Ptr(SlHndl),
    /// The elements of a standard vector, or the buckets of a hash vector.
    Handles(Vec<SlHndl>),
    /// The bytes of a string.
    Bytes(Vec<u8>),
    /// Untyped bytes, which fields are written to and read from by offset
    /// and width.
    Raw(Vec<u8>),
}

/// An arena of a fixed capacity in bytes.
pub struct Region {
    pub heads: Vec<Head>,
    pub payloads: Vec<Payload>,
    pub used: usize,
    pub capacity: usize,
}

/// The handle of the nil sentinel.
pub fn nil() -> (r: SlHndl)
    ensures
        r.idx == 0,
{
    SlHndl { idx: 0 }
}

/// Whether a handle is the nil sentinel.
pub fn nil_p(h: SlHndl) -> (r: bool)
    ensures
        r == (h.idx == 0),
{
    h.idx == 0
}

/// The two payloads are equal, or both are untyped bytes of one length.
pub open spec fn same_payload(a: Payload, b: Payload) -> bool {
    a == b || (a is Raw && b is Raw && a->Raw_0@.len() == b->Raw_0@.len())
}

impl Region {
    /// Number of blocks, the nil sentinel included.
    pub open spec fn len(&self) -> int {
        self.heads@.len() as int
    }

    /// Every link of block `i` leads to an older block.
    pub open spec fn links_below(&self, i: int) -> bool {
        &&& self.heads@[i].next.idx < i
        &&& match self.payloads@[i] {
            Payload::Ptr(v) => v.idx < i,
            Payload::Handles(hs) => forall|j: int|
                0 <= j < hs@.len() ==> (#[trigger] hs@[j]).idx < i,
            _ => true,
        }
    }

    /// The region's invariant.
    pub open spec fn wf(&self) -> bool {
        &&& self.heads@.len() == self.payloads@.len()
        &&& self.heads@.len() >= 1
        &&& self.heads@[0].tag == TAG_NIL
        &&& self.heads@[0].next.idx == 0
        &&& self.used <= self.capacity
        &&& forall|i: int| 1 <= i < self.heads@.len() ==> #[trigger] self.links_below(i)
    }

    /// Bytes that are still free.
    pub open spec fn spec_free(&self) -> int {
        self.capacity - self.used
    }

    /// The value that block `h` is, as a tree. A handle that is out of range
    /// reads as nil, and so does a link that does not lead to an older block;
    /// a well-formed region has neither.
    pub open spec fn tree_at(&self, h: int) -> Tree
        decreases h, 1int, 0int,
    {
        if h <= 0 || h >= self.heads@.len() || h >= self.payloads@.len() {
            Tree::Nil
        } else {
            let hd = self.heads@[h];
            match (spec_core_type(hd.tag), self.payloads@[h]) {
                (None, _) => Tree::Other,
                (Some(CoreType::Nil), _) => Tree::Nil,
                (Some(CoreType::Bool), _) => Tree::Bool(hd.tag / 4 == 2),
                (Some(CoreType::I64), Payload::Int(n)) => Tree::Int(n),
                (Some(CoreType::F64), Payload::Text(t)) => Tree::Float(t@),
                (Some(CoreType::Symbol), Payload::Sym(s)) => Tree::Sym(s),
                (Some(CoreType::ErrCode), Payload::Code(e)) => Tree::ErrCode(e),
                (Some(CoreType::VecStr), Payload::Bytes(b)) => Tree::Str(b@),
                (Some(CoreType::Ref), Payload::Ptr(v)) => Tree::Cell(
                    Box::new(if v.idx < h { self.tree_at(v.idx as int) } else { Tree::Nil }),
                    Box::new(if hd.next.idx < h { self.tree_at(hd.next.idx as int) } else { Tree::Nil }),
                ),
                (Some(CoreType::VecStd), Payload::Handles(hs)) => Tree::Vector(
                    self.trees_upto(hs@, h, hs@.len()),
                ),
                (Some(CoreType::VecHash), Payload::Handles(hs)) => Tree::Hash(
                    self.trees_upto(hs@, h, hs@.len()),
                ),
                (Some(CoreType::ProcLambda), _) => Tree::Proc,
                (Some(CoreType::ProcNative), _) => Tree::Proc,
                _ => Tree::CoreOther,
            }
        }
    }

    /// The trees of the first `n` handles of `hs`, which are links of block `h`.
    pub open spec fn trees_upto(&self, hs: Seq<SlHndl>, h: int, n: nat) -> Seq<Tree>
        decreases h, 0int, n,
    {
        if n == 0 || n > hs.len() {
            Seq::empty()
        } else {
            self.trees_upto(hs, h, (n - 1) as nat).push(
                if hs[n - 1].idx < h {
                    self.tree_at(hs[n - 1].idx as int)
                } else {
                    Tree::Nil
                },
            )
        }
    }

    /// `later` holds every block of this region, with the same tag, links and
    /// payload; reference counts, escape fields and the bytes of an untyped
    /// payload may differ, and there may be new blocks.
    pub open spec fn extended_by(&self, later: Region) -> bool {
        &&& self.heads@.len() <= later.heads@.len()
        &&& self.payloads@.len() <= later.payloads@.len()
        &&& self.capacity == later.capacity
        &&& self.used <= later.used
        &&& forall|i: int|
            0 <= i < self.heads@.len() ==> (#[trigger] later.heads@[i]).tag == self.heads@[i].tag
                && later.heads@[i].next == self.heads@[i].next
        &&& forall|i: int|
            0 <= i < self.payloads@.len() ==> same_payload(
                self.payloads@[i],
                #[trigger] later.payloads@[i],
            )
    }
}

/// `trees_upto` goes handle by handle.
pub proof fn lemma_trees_upto(reg: Region, hs: Seq<SlHndl>, h: int, n: nat)
    requires
        n <= hs.len(),
    ensures
        reg.trees_upto(hs, h, n).len() == n,
        forall|j: int|
            0 <= j < n ==> (#[trigger] reg.trees_upto(hs, h, n)[j]) == (if hs[j].idx < h {
                reg.tree_at(hs[j].idx as int)
            } else {
                Tree::Nil
            }),
    decreases n,
{
    if n > 0 {
        lemma_trees_upto(reg, hs, h, (n - 1) as nat);
    }
}

/// A value, once made, stays what it is: whatever is allocated later, and
/// however reference counts and escape fields change, every handle of the
/// earlier region denotes the same tree in the later one.
pub proof fn lemma_tree_kept(before: Region, later: Region, h: int)
    requires
        before.extended_by(later),
        before.heads@.len() == before.payloads@.len(),
        0 <= h < before.heads@.len(),
    ensures
        later.tree_at(h) == before.tree_at(h),
    decreases h,
{
    if h > 0 {
        let hd = before.heads@[h];
        assert(later.heads@[h].tag == hd.tag);
        assert(same_payload(before.payloads@[h], later.payloads@[h]));
        match (spec_core_type(hd.tag), before.payloads@[h]) {
            (Some(CoreType::Ref), Payload::Ptr(v)) => {
                if v.idx < h {
                    lemma_tree_kept(before, later, v.idx as int);
                }
                if hd.next.idx < h {
                    lemma_tree_kept(before, later, hd.next.idx as int);
                }
            },
            (Some(CoreType::VecStd), Payload::Handles(hs)) => {
                lemma_trees_kept(before, later, hs@, h);
            },
            (Some(CoreType::VecHash), Payload::Handles(hs)) => {
                lemma_trees_kept(before, later, hs@, h);
            },
            _ => {},
        }
    }
}

/// The same, for the links of block `h`.
pub proof fn lemma_trees_kept(before: Region, later: Region, hs: Seq<SlHndl>, h: int)
    requires
        before.extended_by(later),
        before.heads@.len() == before.payloads@.len(),
        0 < h < before.heads@.len(),
    ensures
        later.trees_upto(hs, h, hs.len()) == before.trees_upto(hs, h, hs.len()),
    decreases h, 0int,
{
    lemma_trees_upto(before, hs, h, hs.len());
    lemma_trees_upto(later, hs, h, hs.len());
    assert forall|j: int| 0 <= j < hs.len() implies later.trees_upto(hs, h, hs.len())[j]
        == before.trees_upto(hs, h, hs.len())[j] by {
        if hs[j].idx < h {
            lemma_tree_kept(before, later, hs[j].idx as int);
        }
    }
    assert(later.trees_upto(hs, h, hs.len()) =~= before.trees_upto(hs, h, hs.len()));
}

} // verus!
