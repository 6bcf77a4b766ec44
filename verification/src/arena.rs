//! Allocation in a region, typed construction of the built-in kinds, and
//! the inspection of tags, types, links and reference counts.

use vstd::prelude::*;
use crate::error::SlErrCode;
use crate::form::Tree;
use crate::env::{T_T, T_NIL};
use crate::region::{Region, SlHndl, Head, Payload, VEC_HEAD, HASH_HEAD, lemma_tree_kept, lemma_trees_upto};
use crate::tag::{CoreType, HEAD_LEN, PTR_LEN, TAG_NIL, TAG_BOOL_F, TAG_BOOL_T, TAG_ERR, TAG_SYM, TAG_I64, TAG_F64, TAG_PTR, TAG_VEC_STD, TAG_VEC_STR, TAG_VEC_HASH, spec_core_type, spec_payload_offset, spec_self_type_p, spec_pred_type_p, spec_type_id, core_type_of, payload_offset, pred_type_p, type_id};

verus! {

/// Whether every link of `payload` and the link `next` lead to blocks of a
/// region of `len` blocks.
pub open spec fn links_within(next: SlHndl, payload: Payload, len: int) -> bool {
    &&& next.idx < len
    &&& match payload {
        Payload::Ptr(v) => v.idx < len,
        Payload::Handles(hs) => forall|j: int| 0 <= j < hs@.len() ==> (#[trigger] hs@[j]).idx < len,
        _ => true,
    }
}

/// The header with `n` more references counted; the count stays at its
/// greatest value once it is there.
pub open spec fn bump_by(hd: Head, n: int) -> Head {
    Head {
        refc: if hd.refc + n > u32::MAX {
            u32::MAX
        } else {
            (hd.refc + n) as u32
        },
        ..hd
    }
}

/// 1 if `h` is block `i` and not nil, else 0.
pub open spec fn links_to(i: int, h: SlHndl) -> int {
    if i != 0 && i == h.idx {
        1
    } else {
        0
    }
}

/// Whether every handle of `hs` is the index of a block before block `i`.
pub fn all_below(hs: &Vec<SlHndl>, i: usize) -> (r: bool)
    ensures
        r == (forall|j: int| 0 <= j < hs@.len() ==> (#[trigger] hs@[j]).idx < i),
{
    let mut j: usize = 0;
    while j < hs.len()
        invariant
            j <= hs.len(),
            forall|m: int| 0 <= m < j ==> (#[trigger] hs@[m]).idx < i,
        decreases hs.len() - j,
    {
        if hs[j].idx >= i {
            assert(!(hs@[j as int].idx < i));
            return false;
        }
        j += 1;
    }
    true
}

/// How many of the first `n` handles of `hs` are block `i`; nil is not
/// counted.
pub open spec fn occ(hs: Seq<SlHndl>, i: int, n: nat) -> nat
    decreases n,
{
    if n == 0 || n > hs.len() {
        0
    } else {
        (occ(hs, i, (n - 1) as nat) + links_to(i, hs[n - 1])) as nat
    }
}

/// A block that none of the handles is, is counted no times.
pub proof fn lemma_occ_zero(hs: Seq<SlHndl>, i: int, n: nat)
    requires
        n <= hs.len(),
        forall|j: int| 0 <= j < n ==> i == 0 || (#[trigger] hs[j]).idx != i,
    ensures
        occ(hs, i, n) == 0,
    decreases n,
{
    if n > 0 {
        lemma_occ_zero(hs, i, (n - 1) as nat);
        assert(i == 0 || hs[n - 1].idx != i);
    }
}

/// The count over the first handles does not depend on what follows them.
pub proof fn lemma_occ_push(hs: Seq<SlHndl>, h: SlHndl, i: int, n: nat)
    requires
        n <= hs.len(),
    ensures
        occ(hs.push(h), i, n) == occ(hs, i, n),
    decreases n,
{
    if n > 0 {
        lemma_occ_push(hs, h, i, (n - 1) as nat);
        assert(hs.push(h)[n - 1] == hs[n - 1]);
    }
}

impl Region {
    /// Counts one more reference to each of the handles `hs`, nil left out:
    /// they are about to be stored into the slots of one block.
    pub fn bump_all(&mut self, hs: &Vec<SlHndl>)
        requires
            old(self).wf(),
            forall|j: int| 0 <= j < hs@.len() ==> (#[trigger] hs@[j]).idx < old(self).len(),
        ensures
            final(self).wf(),
            old(self).extended_by(*final(self)),
            final(self).len() == old(self).len(),
            final(self).used == old(self).used,
            final(self).capacity == old(self).capacity,
            final(self).payloads == old(self).payloads,
            forall|i: int|
                0 <= i < old(self).len() ==> (#[trigger] final(self).heads@[i]) == bump_by(
                    old(self).heads@[i],
                    occ(hs@, i, hs@.len()) as int,
                ),
    {
        let mut j: usize = 0;
        while j < hs.len()
            invariant
                j <= hs.len(),
                self.wf(),
                old(self).wf(),
                old(self).extended_by(*self),
                self.len() == old(self).len(),
                self.used == old(self).used,
                self.capacity == old(self).capacity,
                self.payloads == old(self).payloads,
                forall|k: int| 0 <= k < hs@.len() ==> (#[trigger] hs@[k]).idx < old(self).len(),
                forall|i: int|
                    0 <= i < old(self).len() ==> (#[trigger] self.heads@[i]) == bump_by(
                        old(self).heads@[i],
                        occ(hs@, i, j as nat) as int,
                    ),
            decreases hs.len() - j,
        {
            let ghost before = *self;
            let h: SlHndl = hs[j];
            if h.idx != 0 {
                self.inc_refc(h);
            }
            proof {
                crate::store::lemma_extended_trans(*old(self), before, *self);
                assert forall|i: int| 0 <= i < old(self).len() implies (#[trigger] self.heads@[i])
                    == bump_by(old(self).heads@[i], occ(hs@, i, (j + 1) as nat) as int) by {
                    assert(before.heads@[i] == bump_by(
                        old(self).heads@[i],
                        occ(hs@, i, j as nat) as int,
                    ));
                    assert(occ(hs@, i, (j + 1) as nat) == occ(hs@, i, j as nat) + links_to(i, h));
                }
            }
            j += 1;
        }
    }

    /// The trees of the handles `hs`, in order.
    pub open spec fn trees_of(&self, hs: Seq<SlHndl>) -> Seq<Tree> {
        Seq::new(hs.len(), |j: int| self.tree_at(hs[j].idx as int))
    }

    /// The header of every block of this region is in `later` what it is
    /// here, its reference count included.
    pub open spec fn heads_kept(&self, later: Region) -> bool {
        &&& self.len() <= later.len()
        &&& forall|i: int| 0 <= i < self.len() ==> (#[trigger] later.heads@[i]) == self.heads@[i]
    }

    /// The blocks of this region from block `from` on were made for one
    /// value whose handle is `root`: each of them is held in one slot and has
    /// the count 1, but for the root, which is the last of them and has the
    /// count 0. Nil has no block of its own.
    pub open spec fn fresh_counts(&self, from: int, root: SlHndl) -> bool {
        &&& if root.idx == 0 {
            self.len() == from
        } else {
            from <= root.idx && root.idx == self.len() - 1
        }
        &&& forall|k: int|
            from <= k < self.len() ==> (#[trigger] self.heads@[k]).refc == (if k == root.idx {
                0u32
            } else {
                1u32
            })
    }

    /// What a constructor promises: with `bytes` free it appends one block,
    /// which is `tree`, and keeps every older value; without, it changes
    /// nothing and returns `None`.
    pub open spec fn made(&self, later: Region, r: Option<SlHndl>, bytes: int, tree: Tree) -> bool {
        if self.spec_free() >= bytes {
            &&& r is Some
            &&& r->Some_0.idx == self.len()
            &&& later.len() == self.len() + 1
            &&& later.used == self.used + bytes
            &&& later.tree_at(self.len()) == tree
            &&& later.heads@[self.len()].refc == 0
            &&& self.extended_by(later)
            &&& later.wf()
        } else {
            r is None && later == *self
        }
    }

    /// Reserves an arena of `capacity` bytes. It holds the nil sentinel and
    /// nothing else.
    pub fn acquire(capacity: usize) -> (r: Region)
        ensures
            r.wf(),
            r.len() == 1,
            r.used == 0,
            r.capacity == capacity,
    {
        let mut heads: Vec<Head> = Vec::new();
        heads.push(Head { tag: TAG_NIL, refc: 0, next: SlHndl { idx: 0 }, self_type: 0, pred_type: 0, size: 0 });
        let mut payloads: Vec<Payload> = Vec::new();
        payloads.push(Payload::Empty);
        Region { heads, payloads, used: 0, capacity }
    }

    /// Whether every link of block `i` leads to an older block.
    pub fn links_ok(&self, i: usize) -> (r: bool)
        requires
            i < self.heads@.len(),
            i < self.payloads@.len(),
        ensures
            r == self.links_below(i as int),
    {
        if self.heads[i].next.idx >= i {
            return false;
        }
        match &self.payloads[i] {
            Payload::Ptr(v) => v.idx < i,
            Payload::Handles(hs) => all_below(hs, i),
            _ => true,
        }
    }

    /// Whether the region's invariant holds. A region that was made by
    /// `acquire` and changed by the functions of this library only is always
    /// well-formed; this tells for a region whose fields were written to.
    pub fn well_formed(&self) -> (r: bool)
        ensures
            r == self.wf(),
    {
        let n: usize = self.heads.len();
        if n != self.payloads.len() || n < 1 {
            return false;
        }
        if self.heads[0].tag != TAG_NIL || self.heads[0].next.idx != 0 || self.used
            > self.capacity {
            return false;
        }
        let mut i: usize = 1;
        while i < n
            invariant
                1 <= i <= n,
                n == self.heads@.len(),
                n == self.payloads@.len(),
                forall|k: int| 1 <= k < i ==> #[trigger] self.links_below(k),
            decreases n - i,
        {
            if !self.links_ok(i) {
                return false;
            }
            i += 1;
        }
        true
    }

    /// Bytes that are still free.
    pub fn free(&self) -> (r: usize)
        requires
            self.wf(),
        ensures
            r == self.spec_free(),
    {
        self.capacity - self.used
    }

    /// Number of blocks, the nil sentinel included.
    pub fn count(&self) -> (r: usize)
        ensures
            r == self.len(),
    {
        self.heads.len()
    }

    /// Appends a block with the given tag, link and payload, if its header,
    /// escape fields and `size` payload bytes fit.
    pub fn place(&mut self, tag: u8, size: usize, next: SlHndl, payload: Payload) -> (r: Option<SlHndl>)
        requires
            old(self).wf(),
            links_within(next, payload, old(self).len()),
        ensures
            final(self).wf(),
            old(self).heads_kept(*final(self)),
            old(self).extended_by(*final(self)),
            old(self).spec_free() >= spec_payload_offset(tag) + size <==> r is Some,
            match r {
                Some(h) => {
                    &&& h.idx == old(self).len()
                    &&& final(self).len() == old(self).len() + 1
                    &&& final(self).heads@ == old(self).heads@.push(
                        (Head { tag, refc: 0, next, self_type: 0, pred_type: 0, size }),
                    )
                    &&& final(self).payloads@ == old(self).payloads@.push(payload)
                    &&& final(self).used == old(self).used + spec_payload_offset(tag) + size
                },
                None => *final(self) == *old(self),
            },
    {
        let off: usize = payload_offset(tag);
        let room: usize = self.capacity - self.used;
        if room < off || room - off < size {
            return None;
        }
        let n: usize = self.heads.len();
        self.heads.push(Head { tag, refc: 0, next, self_type: 0, pred_type: 0, size });
        self.payloads.push(payload);
        self.used = self.used + off + size;
        proof {
            assert forall|i: int| 1 <= i < self.heads@.len() implies #[trigger] self.links_below(i) by {
                if i < n {
                    assert(old(self).links_below(i));
                    assert(self.heads@[i] == old(self).heads@[i]);
                    assert(self.payloads@[i] == old(self).payloads@[i]);
                }
            }
        }
        Some(SlHndl { idx: n })
    }

    /// Carves a fresh block of `size` payload bytes with the tag `tag`.
    /// Nothing is promised of what the bytes hold.
    pub fn alloc_block(&mut self, size: usize, tag: u8) -> (r: Option<SlHndl>)
        requires
            old(self).wf(),
        ensures
            final(self).wf(),
            old(self).heads_kept(*final(self)),
            old(self).extended_by(*final(self)),
            old(self).spec_free() >= spec_payload_offset(tag) + size <==> r is Some,
            match r {
                Some(h) => {
                    &&& h.idx == old(self).len()
                    &&& final(self).len() == old(self).len() + 1
                    &&& final(self).heads@[h.idx as int].tag == tag
                    &&& final(self).heads@[h.idx as int].refc == 0
                    &&& final(self).heads@[h.idx as int].size == size
                    &&& final(self).used == old(self).used + spec_payload_offset(tag) + size
                    &&& final(self).payloads@[h.idx as int] is Raw
                    &&& final(self).payloads@[h.idx as int]->Raw_0@.len() == size
                },
                None => *final(self) == *old(self),
            },
    {
        if self.capacity - self.used < size {
            return None;
        }
        let mut bytes: Vec<u8> = Vec::new();
        let mut i: usize = 0;
        while i < size
            invariant
                i <= size,
                bytes@.len() == i,
            decreases size - i,
        {
            bytes.push(0);
            i += 1;
        }
        self.place(tag, size, SlHndl { idx: 0 }, Payload::Raw(bytes))
    }

    /// Makes a boolean.
    pub fn bool_init(&mut self, b: bool) -> (r: Option<SlHndl>)
        requires
            old(self).wf(),
        ensures
            old(self).made(*final(self), r, 8, Tree::Bool(b)),
            final(self).wf(),
            old(self).heads_kept(*final(self)),
    {
        let tag: u8 = if b { TAG_BOOL_T } else { TAG_BOOL_F };
        self.place(tag, 0, SlHndl { idx: 0 }, Payload::Empty)
    }

    /// Makes a signed 64-bit integer.
    pub fn i64_init(&mut self, n: i64) -> (r: Option<SlHndl>)
        requires
            old(self).wf(),
        ensures
            old(self).made(*final(self), r, 16, Tree::Int(n)),
            final(self).wf(),
            old(self).heads_kept(*final(self)),
    {
        self.place(TAG_I64, 8, SlHndl { idx: 0 }, Payload::Int(n))
    }

    /// Makes a 64-bit float, given by its decimal literal.
    pub fn f64_init(&mut self, text: Vec<u8>) -> (r: Option<SlHndl>)
        requires
            old(self).wf(),
        ensures
            old(self).made(*final(self), r, 16, Tree::Float(text@)),
            final(self).wf(),
            old(self).heads_kept(*final(self)),
    {
        self.place(TAG_F64, 8, SlHndl { idx: 0 }, Payload::Text(text))
    }

    /// Makes a symbol with the id `id`.
    pub fn sym_init(&mut self, id: u32) -> (r: Option<SlHndl>)
        requires
            old(self).wf(),
        ensures
            old(self).made(*final(self), r, 12, Tree::Sym(id)),
            final(self).wf(),
            old(self).heads_kept(*final(self)),
    {
        self.place(TAG_SYM, 4, SlHndl { idx: 0 }, Payload::Sym(id))
    }

    /// Makes an error object of the unknown kind, whose stored number is 0.
    pub fn errcode_make(&mut self) -> (r: Option<SlHndl>)
        requires
            old(self).wf(),
        ensures
            old(self).made(*final(self), r, 10, Tree::ErrCode(SlErrCode::ErrorUnknown)),
            final(self).wf(),
            old(self).heads_kept(*final(self)),
    {
        self.errcode_init(SlErrCode::ErrorUnknown)
    }

    /// Makes an error object.
    pub fn errcode_init(&mut self, err: SlErrCode) -> (r: Option<SlHndl>)
        requires
            old(self).wf(),
        ensures
            old(self).made(*final(self), r, 10, Tree::ErrCode(err)),
            final(self).wf(),
            old(self).heads_kept(*final(self)),
    {
        self.place(TAG_ERR, 2, SlHndl { idx: 0 }, Payload::Code(err))
    }

    /// Makes a string of the given bytes.
    pub fn string_init(&mut self, bytes: Vec<u8>) -> (r: Option<SlHndl>)
        requires
            old(self).wf(),
        ensures
            old(self).made(*final(self), r, (12 + bytes@.len()) as int, Tree::Str(bytes@)),
            final(self).wf(),
            old(self).heads_kept(*final(self)),
    {
        if bytes.len() > usize::MAX - VEC_HEAD {
            return None;
        }
        let size: usize = VEC_HEAD + bytes.len();
        self.place(TAG_VEC_STR, size, SlHndl { idx: 0 }, Payload::Bytes(bytes))
    }

    /// Makes a reference cell that holds `value` and whose "next" link is
    /// `next`. Both now stand in one more place, so the count of each goes up
    /// by one first, and by two where they are the same block; the count of
    /// nil is not kept.
    pub fn ref_init(&mut self, value: SlHndl, next: SlHndl) -> (r: Option<SlHndl>)
        requires
            old(self).wf(),
            value.idx < old(self).len(),
            next.idx < old(self).len(),
        ensures
            old(self).made(
                *final(self),
                r,
                16,
                Tree::Cell(
                    Box::new(old(self).tree_at(value.idx as int)),
                    Box::new(old(self).tree_at(next.idx as int)),
                ),
            ),
            final(self).wf(),
            r is Some ==> forall|i: int|
                0 <= i < old(self).len() ==> (#[trigger] final(self).heads@[i]) == bump_by(
                    old(self).heads@[i],
                    links_to(i, value) + links_to(i, next),
                ),
    {
        if self.capacity - self.used < 16 {
            return None;
        }
        if value.idx != 0 {
            self.inc_refc(value);
        }
        let ghost mid = *self;
        if next.idx != 0 {
            self.inc_refc(next);
        }
        proof {
            crate::store::lemma_extended_trans(*old(self), mid, *self);
        }
        let ghost bumped = *self;
        let r = self.place(TAG_PTR, PTR_LEN, next, Payload::Ptr(value));
        proof {
            crate::store::lemma_extended_trans(*old(self), bumped, *self);
            lemma_tree_kept(*old(self), *self, value.idx as int);
            lemma_tree_kept(*old(self), *self, next.idx as int);
        }
        r
    }

    /// Makes a standard vector of the given elements. Each element is counted
    /// once more for each slot that it is stored into.
    pub fn stdvec_init(&mut self, elts: Vec<SlHndl>) -> (r: Option<SlHndl>)
        requires
            old(self).wf(),
            forall|j: int| 0 <= j < elts@.len() ==> (#[trigger] elts@[j]).idx < old(self).len(),
        ensures
            old(self).made(
                *final(self),
                r,
                (12 + 8 * elts@.len()) as int,
                Tree::Vector(old(self).trees_of(elts@)),
            ),
            final(self).wf(),
            r is Some ==> forall|i: int|
                0 <= i < old(self).len() ==> (#[trigger] final(self).heads@[i]) == bump_by(
                    old(self).heads@[i],
                    occ(elts@, i, elts@.len()) as int,
                ),
    {
        if elts.len() > (usize::MAX - VEC_HEAD) / PTR_LEN {
            return None;
        }
        let size: usize = VEC_HEAD + PTR_LEN * elts.len();
        if self.capacity - self.used < HEAD_LEN || self.capacity - self.used - HEAD_LEN < size {
            return None;
        }
        let ghost hs = elts@;
        self.bump_all(&elts);
        let ghost bumped = *self;
        let r = self.place(TAG_VEC_STD, size, SlHndl { idx: 0 }, Payload::Handles(elts));
        proof {
            crate::store::lemma_extended_trans(*old(self), bumped, *self);
            lemma_links_kept(*old(self), *self, hs);
        }
        r
    }

    /// Makes a hash vector of the given bucket chains. Each chain is counted
    /// once more for each slot that it is stored into.
    pub fn hashvec_init(&mut self, buckets: Vec<SlHndl>) -> (r: Option<SlHndl>)
        requires
            old(self).wf(),
            forall|j: int|
                0 <= j < buckets@.len() ==> (#[trigger] buckets@[j]).idx < old(self).len(),
        ensures
            old(self).made(
                *final(self),
                r,
                (16 + 8 * buckets@.len()) as int,
                Tree::Hash(old(self).trees_of(buckets@)),
            ),
            final(self).wf(),
            r is Some ==> forall|i: int|
                0 <= i < old(self).len() ==> (#[trigger] final(self).heads@[i]) == bump_by(
                    old(self).heads@[i],
                    occ(buckets@, i, buckets@.len()) as int,
                ),
    {
        if buckets.len() > (usize::MAX - HASH_HEAD) / PTR_LEN {
            return None;
        }
        let size: usize = HASH_HEAD + PTR_LEN * buckets.len();
        if self.capacity - self.used < HEAD_LEN || self.capacity - self.used - HEAD_LEN < size {
            return None;
        }
        let ghost hs = buckets@;
        self.bump_all(&buckets);
        let ghost bumped = *self;
        let r = self.place(TAG_VEC_HASH, size, SlHndl { idx: 0 }, Payload::Handles(buckets));
        proof {
            crate::store::lemma_extended_trans(*old(self), bumped, *self);
            lemma_links_kept(*old(self), *self, hs);
        }
        r
    }

    /// Counts one more reference to block `h`. The count stays at its
    /// greatest value once it is there.
    pub fn inc_refc(&mut self, h: SlHndl)
        requires
            old(self).wf(),
            h.idx < old(self).len(),
        ensures
            final(self).wf(),
            old(self).extended_by(*final(self)),
            final(self).len() == old(self).len(),
            final(self).used == old(self).used,
            final(self).payloads == old(self).payloads,
            final(self).heads@ == old(self).heads@.update(
                h.idx as int,
                (Head {
                    refc: if old(self).heads@[h.idx as int].refc < u32::MAX {
                        (old(self).heads@[h.idx as int].refc + 1) as u32
                    } else {
                        u32::MAX
                    },
                    ..old(self).heads@[h.idx as int]
                }),
            ),
    {
        let hd: Head = self.heads[h.idx];
        let refc: u32 = if hd.refc < u32::MAX { hd.refc + 1 } else { u32::MAX };
        self.heads.set(h.idx, Head { refc, ..hd });
        proof {
            assert forall|i: int| 1 <= i < self.heads@.len() implies #[trigger] self.links_below(i) by {
                assert(old(self).links_below(i));
            }
        }
    }

    /// The reference count of block `h`.
    pub fn refc(&self, h: SlHndl) -> (r: u32)
        requires
            h.idx < self.len(),
        ensures
            r == self.heads@[h.idx as int].refc,
    {
        self.heads[h.idx].refc
    }

    /// The tag of block `h`.
    pub fn tag(&self, h: SlHndl) -> (r: u8)
        requires
            h.idx < self.len(),
        ensures
            r == self.heads@[h.idx as int].tag,
    {
        self.heads[h.idx].tag
    }

    /// The built-in kind of block `h`; `None` for a value of an extended type.
    pub fn core_type(&self, h: SlHndl) -> (r: Option<CoreType>)
        requires
            h.idx < self.len(),
        ensures
            r == spec_core_type(self.heads@[h.idx as int].tag),
    {
        core_type_of(self.heads[h.idx].tag)
    }

    /// The "next" link of block `h`.
    pub fn get_next_list_elt(&self, h: SlHndl) -> (r: SlHndl)
        requires
            self.wf(),
            h.idx < self.len(),
        ensures
            r == self.heads@[h.idx as int].next,
            r.idx < self.len(),
            h.idx > 0 ==> r.idx < h.idx,
    {
        if h.idx > 0 {
            assert(self.links_below(h.idx as int));
        }
        self.heads[h.idx].next
    }

    /// The self type of block `h`: nil's type for the sentinel, the fixed id
    /// of a built-in kind, else the id stored in the block.
    pub open spec fn spec_self_type(&self, h: int) -> u32 {
        let hd = self.heads@[h];
        if h == 0 {
            T_NIL
        } else {
            match spec_core_type(hd.tag) {
                Some(t) => spec_type_id(t),
                None => hd.self_type,
            }
        }
    }

    /// The predicate type of block `h`: the recorded one, or the top type.
    pub open spec fn spec_pred_type(&self, h: int) -> u32 {
        let hd = self.heads@[h];
        if h == 0 {
            T_NIL
        } else if spec_pred_type_p(hd.tag) {
            hd.pred_type
        } else {
            T_T
        }
    }

    /// The self type of a value: the fixed id of its built-in kind, or the id
    /// stored after the header of a value of an extended type, which has to
    /// be self-typed.
    pub fn get_self_type(&self, h: SlHndl) -> (r: u32)
        requires
            h.idx < self.len(),
            h.idx != 0 && spec_core_type(self.heads@[h.idx as int].tag) is None
                ==> spec_self_type_p(self.heads@[h.idx as int].tag),
        ensures
            r == self.spec_self_type(h.idx as int),
    {
        if h.idx == 0 {
            return T_NIL;
        }
        let hd: Head = self.heads[h.idx];
        match core_type_of(hd.tag) {
            Some(t) => type_id(t),
            None => hd.self_type,
        }
    }

    /// The predicate type of a value: the recorded supertype id, or the top
    /// type where none is recorded.
    pub fn get_pred_type(&self, h: SlHndl) -> (r: u32)
        requires
            h.idx < self.len(),
        ensures
            r == self.spec_pred_type(h.idx as int),
    {
        if h.idx == 0 {
            T_NIL
        } else if pred_type_p(self.heads[h.idx].tag) {
            self.heads[h.idx].pred_type
        } else {
            T_T
        }
    }

    /// Writes the self type id of a self-typed value.
    pub fn set_self_type(&mut self, h: SlHndl, typ: u32)
        requires
            old(self).wf(),
            h.idx < old(self).len(),
            spec_self_type_p(old(self).heads@[h.idx as int].tag),
        ensures
            final(self).wf(),
            old(self).extended_by(*final(self)),
            final(self).used == old(self).used,
            final(self).payloads == old(self).payloads,
            final(self).heads@ == old(self).heads@.update(
                h.idx as int,
                (Head { self_type: typ, ..old(self).heads@[h.idx as int] }),
            ),
    {
        let hd: Head = self.heads[h.idx];
        self.heads.set(h.idx, Head { self_type: typ, ..hd });
        proof {
            assert forall|i: int| 1 <= i < self.heads@.len() implies #[trigger] self.links_below(i) by {
                assert(old(self).links_below(i));
            }
        }
    }

    /// Writes the predicate type id of a predicate-typed value.
    pub fn set_pred_type(&mut self, h: SlHndl, typ: u32)
        requires
            old(self).wf(),
            h.idx < old(self).len(),
            spec_pred_type_p(old(self).heads@[h.idx as int].tag),
        ensures
            final(self).wf(),
            old(self).extended_by(*final(self)),
            final(self).used == old(self).used,
            final(self).payloads == old(self).payloads,
            final(self).heads@ == old(self).heads@.update(
                h.idx as int,
                (Head { pred_type: typ, ..old(self).heads@[h.idx as int] }),
            ),
    {
        let hd: Head = self.heads[h.idx];
        self.heads.set(h.idx, Head { pred_type: typ, ..hd });
        proof {
            assert forall|i: int| 1 <= i < self.heads@.len() implies #[trigger] self.links_below(i) by {
                assert(old(self).links_below(i));
            }
        }
    }
}

/// Whether a payload is of the form that the kind `t` keeps.
pub open spec fn payload_fits(t: CoreType, p: Payload) -> bool {
    match (t, p) {
        (CoreType::Nil, _) => true,
        (CoreType::Bool, _) => true,
        (CoreType::I64, Payload::Int(_)) => true,
        (CoreType::F64, Payload::Text(_)) => true,
        (CoreType::Symbol, Payload::Sym(_)) => true,
        (CoreType::ErrCode, Payload::Code(_)) => true,
        (CoreType::Ref, Payload::Ptr(_)) => true,
        (CoreType::VecStd, Payload::Handles(_)) => true,
        (CoreType::VecHash, Payload::Handles(_)) => true,
        (CoreType::VecStr, Payload::Bytes(_)) => true,
        _ => false,
    }
}

impl Region {
    /// Block `h` is a value of the built-in kind `t`, with the payload of
    /// that kind: what every typed accessor asks before it reads.
    pub open spec fn holds(&self, h: int, t: CoreType) -> bool {
        &&& 0 < h < self.len()
        &&& spec_core_type(self.heads@[h].tag) == Some(t)
        &&& payload_fits(t, self.payloads@[h])
    }

    /// The type-check guard: whether block `h` is a value of the kind `t`.
    pub fn typed_p(&self, h: SlHndl, t: CoreType) -> (r: bool)
        requires
            self.wf(),
            h.idx < self.len(),
        ensures
            r == self.holds(h.idx as int, t),
    {
        if h.idx == 0 {
            return false;
        }
        match core_type_of(self.heads[h.idx].tag) {
            None => false,
            Some(k) => k == t && match (t, &self.payloads[h.idx]) {
                (CoreType::Nil, _) => true,
                (CoreType::Bool, _) => true,
                (CoreType::I64, Payload::Int(_)) => true,
                (CoreType::F64, Payload::Text(_)) => true,
                (CoreType::Symbol, Payload::Sym(_)) => true,
                (CoreType::ErrCode, Payload::Code(_)) => true,
                (CoreType::Ref, Payload::Ptr(_)) => true,
                (CoreType::VecStd, Payload::Handles(_)) => true,
                (CoreType::VecHash, Payload::Handles(_)) => true,
                (CoreType::VecStr, Payload::Bytes(_)) => true,
                _ => false,
            },
        }
    }

    /// The truth value of a boolean.
    pub fn bool_get(&self, h: SlHndl) -> (r: bool)
        requires
            self.wf(),
            self.holds(h.idx as int, CoreType::Bool),
        ensures
            self.tree_at(h.idx as int) == Tree::Bool(r),
    {
        self.heads[h.idx].tag / 4 == 2
    }

    /// The number of a signed 64-bit integer.
    pub fn i64_get(&self, h: SlHndl) -> (r: i64)
        requires
            self.wf(),
            self.holds(h.idx as int, CoreType::I64),
        ensures
            self.tree_at(h.idx as int) == Tree::Int(r),
    {
        match &self.payloads[h.idx] {
            Payload::Int(n) => *n,
            _ => 0,
        }
    }

    /// The decimal literal of a 64-bit float.
    pub fn f64_get(&self, h: SlHndl) -> (r: &[u8])
        requires
            self.wf(),
            self.holds(h.idx as int, CoreType::F64),
        ensures
            self.tree_at(h.idx as int) == Tree::Float(r@),
    {
        match &self.payloads[h.idx] {
            Payload::Text(t) => t.as_slice(),
            _ => &[],
        }
    }

    /// The id of a symbol.
    pub fn sym_get_id(&self, h: SlHndl) -> (r: u32)
        requires
            self.wf(),
            self.holds(h.idx as int, CoreType::Symbol),
        ensures
            self.tree_at(h.idx as int) == Tree::Sym(r),
    {
        match &self.payloads[h.idx] {
            Payload::Sym(s) => *s,
            _ => 0,
        }
    }

    /// The error kind of an error object.
    pub fn errcode_get(&self, h: SlHndl) -> (r: SlErrCode)
        requires
            self.wf(),
            self.holds(h.idx as int, CoreType::ErrCode),
        ensures
            self.tree_at(h.idx as int) == Tree::ErrCode(r),
    {
        match &self.payloads[h.idx] {
            Payload::Code(e) => *e,
            _ => SlErrCode::ErrorUnknown,
        }
    }

    /// Replaces the error kind of an error object. Nothing else changes.
    pub fn errcode_set(&mut self, h: SlHndl, err: SlErrCode)
        requires
            old(self).wf(),
            old(self).holds(h.idx as int, CoreType::ErrCode),
        ensures
            final(self).wf(),
            final(self).holds(h.idx as int, CoreType::ErrCode),
            final(self).tree_at(h.idx as int) == Tree::ErrCode(err),
            final(self).heads == old(self).heads,
            final(self).used == old(self).used,
            final(self).capacity == old(self).capacity,
            final(self).payloads@ == old(self).payloads@.update(h.idx as int, Payload::Code(err)),
    {
        self.payloads.set(h.idx, Payload::Code(err));
        proof {
            assert forall|i: int| 1 <= i < self.heads@.len() implies #[trigger] self.links_below(
                i,
            ) by {
                assert(old(self).links_below(i));
            }
        }
    }

    /// The bytes of a string.
    pub fn string_get(&self, h: SlHndl) -> (r: &[u8])
        requires
            self.wf(),
            self.holds(h.idx as int, CoreType::VecStr),
        ensures
            self.tree_at(h.idx as int) == Tree::Str(r@),
    {
        match &self.payloads[h.idx] {
            Payload::Bytes(b) => b.as_slice(),
            _ => &[],
        }
    }

    /// The value that a reference cell holds.
    pub fn ref_get(&self, h: SlHndl) -> (r: SlHndl)
        requires
            self.wf(),
            self.holds(h.idx as int, CoreType::Ref),
        ensures
            r.idx < h.idx,
            self.tree_at(h.idx as int) == Tree::Cell(
                Box::new(self.tree_at(r.idx as int)),
                Box::new(self.tree_at(self.heads@[h.idx as int].next.idx as int)),
            ),
    {
        assert(self.links_below(h.idx as int));
        match &self.payloads[h.idx] {
            Payload::Ptr(v) => *v,
            _ => SlHndl { idx: 0 },
        }
    }

    /// The number of elements of a standard vector.
    pub fn stdvec_get_len(&self, h: SlHndl) -> (r: usize)
        requires
            self.wf(),
            self.holds(h.idx as int, CoreType::VecStd),
        ensures
            self.tree_at(h.idx as int) is Vector,
            r == self.tree_at(h.idx as int)->Vector_0.len(),
    {
        match &self.payloads[h.idx] {
            Payload::Handles(hs) => {
                proof {
                    lemma_trees_upto(*self, hs@, h.idx as int, hs@.len());
                }
                hs.len()
            },
            _ => 0,
        }
    }

    /// The element of a standard vector at `idx`.
    pub fn stdvec_idx(&self, h: SlHndl, idx: usize) -> (r: SlHndl)
        requires
            self.wf(),
            self.holds(h.idx as int, CoreType::VecStd),
            idx < self.tree_at(h.idx as int)->Vector_0.len(),
        ensures
            r.idx < h.idx,
            self.tree_at(h.idx as int)->Vector_0[idx as int] == self.tree_at(r.idx as int),
    {
        assert(self.links_below(h.idx as int));
        match &self.payloads[h.idx] {
            Payload::Handles(hs) => {
                proof {
                    lemma_trees_upto(*self, hs@, h.idx as int, hs@.len());
                }
                hs[idx]
            },
            _ => SlHndl { idx: 0 },
        }
    }

    /// The number of buckets of a hash vector.
    pub fn hashvec_get_size(&self, h: SlHndl) -> (r: usize)
        requires
            self.wf(),
            self.holds(h.idx as int, CoreType::VecHash),
        ensures
            self.tree_at(h.idx as int) is Hash,
            r == self.tree_at(h.idx as int)->Hash_0.len(),
    {
        match &self.payloads[h.idx] {
            Payload::Handles(hs) => {
                proof {
                    lemma_trees_upto(*self, hs@, h.idx as int, hs@.len());
                }
                hs.len()
            },
            _ => 0,
        }
    }
}

/// The links of a new block denote in the later region what they denoted
/// before the block was made.
pub proof fn lemma_links_kept(before: Region, later: Region, hs: Seq<SlHndl>)
    requires
        before.extended_by(later),
        before.heads@.len() == before.payloads@.len(),
        forall|j: int| 0 <= j < hs.len() ==> (#[trigger] hs[j]).idx < before.len(),
    ensures
        later.trees_upto(hs, before.len(), hs.len()) == before.trees_of(hs),
{
    lemma_trees_upto(later, hs, before.len(), hs.len());
    assert forall|j: int| 0 <= j < hs.len() implies later.trees_upto(hs, before.len(), hs.len())[j]
        == before.trees_of(hs)[j] by {
        assert(hs[j].idx < before.len());
        lemma_tree_kept(before, later, hs[j].idx as int);
    }
    assert(later.trees_upto(hs, before.len(), hs.len()) =~= before.trees_of(hs));
}

/// What a value's type is does not depend on how often it is referred to:
/// writing an escape field of one block changes the types of no other.
pub proof fn lemma_types_of_others(before: Region, later: Region, h: int, k: int)
    requires
        0 <= h < before.len(),
        0 <= k < before.len(),
        h != k,
        later.heads@.len() == before.heads@.len(),
        forall|i: int| 0 <= i < before.len() && i != h ==> later.heads@[i] == before.heads@[i],
    ensures
        later.spec_self_type(k) == before.spec_self_type(k),
        later.spec_pred_type(k) == before.spec_pred_type(k),
{
}

} // verus!
