//! Writing a form into a region, block by block, children first.

use vstd::prelude::*;
use crate::form::{Form, Tree, views, lemma_views};
use crate::arena::{occ, lemma_occ_zero, lemma_occ_push};
use crate::region::{Region, SlHndl, lemma_tree_kept};

verus! {

/// The bytes that the blocks of a value take in a region: for each block its
/// header and its payload. Nil takes none: it is the sentinel.
pub open spec fn spec_size(t: Tree) -> nat
    decreases t,
{
    match t {
        Tree::Nil => 0,
        Tree::Bool(_) => 8,
        Tree::Int(_) => 16,
        Tree::Float(_) => 16,
        Tree::Sym(_) => 12,
        Tree::Str(b) => 12 + b.len(),
        Tree::ErrCode(_) => 10,
        Tree::Cell(v, n) => 16 + spec_size(*v) + spec_size(*n),
        Tree::Vector(items) => 12 + 8 * items.len() + sizes_upto(items, items.len()),
        Tree::Hash(buckets) => 16 + 8 * buckets.len() + sizes_upto(buckets, buckets.len()),
        _ => 0,
    }
}

/// The bytes that the first `n` of `items` take together.
pub open spec fn sizes_upto(items: Seq<Tree>, n: nat) -> nat
    decreases items, n,
{
    if n == 0 || n > items.len() {
        0
    } else {
        sizes_upto(items, (n - 1) as nat) + spec_size(items[n - 1])
    }
}

/// More items take no fewer bytes.
pub proof fn lemma_sizes_grow(items: Seq<Tree>, i: nat, n: nat)
    requires
        i <= n <= items.len(),
    ensures
        sizes_upto(items, i) <= sizes_upto(items, n),
    decreases n - i,
{
    if i < n {
        lemma_sizes_grow(items, i, (n - 1) as nat);
    }
}

/// Extension goes on: what extends an extension extends the first region.
pub proof fn lemma_extended_trans(a: Region, b: Region, c: Region)
    requires
        a.extended_by(b),
        b.extended_by(c),
    ensures
        a.extended_by(c),
{
    assert forall|i: int| 0 <= i < a.heads@.len() implies (#[trigger] c.heads@[i]).tag
        == a.heads@[i].tag && c.heads@[i].next == a.heads@[i].next by {
        assert(b.heads@[i].tag == a.heads@[i].tag);
    }
    assert forall|i: int| 0 <= i < a.payloads@.len() implies crate::region::same_payload(
        a.payloads@[i],
        #[trigger] c.payloads@[i],
    ) by {
        assert(crate::region::same_payload(a.payloads@[i], b.payloads@[i]));
        assert(crate::region::same_payload(b.payloads@[i], c.payloads@[i]));
    }
}

/// Headers that are kept twice are kept.
pub proof fn lemma_heads_kept_trans(a: Region, b: Region, c: Region)
    requires
        a.heads_kept(b),
        b.heads_kept(c),
    ensures
        a.heads_kept(c),
{
    assert forall|i: int| 0 <= i < a.len() implies (#[trigger] c.heads@[i]) == a.heads@[i] by {
        assert(b.heads@[i] == a.heads@[i]);
    }
}

/// Writes `f` into the region and returns its handle. It succeeds exactly
/// when the bytes of `f` fit. Blocks made before the room ran out stay: the
/// region is never rolled back, and every older value stays what it was.
///
/// A handle is counted once more before it is stored into a slot of a cell
/// or a vector. So of the blocks made, each has the count 1 but the one
/// returned, whose count is 0; no count of an older block changes.
pub fn store(reg: &mut Region, f: &Form) -> (r: Option<SlHndl>)
    requires
        old(reg).wf(),
    ensures
        final(reg).wf(),
        old(reg).extended_by(*final(reg)),
        old(reg).heads_kept(*final(reg)),
        r is Some <==> old(reg).spec_free() >= spec_size(f@),
        match r {
            Some(h) => h.idx < final(reg).len() && final(reg).tree_at(h.idx as int) == f@
                && final(reg).used == old(reg).used + spec_size(f@) && final(reg).fresh_counts(
                old(reg).len(),
                h,
            ),
            None => true,
        },
    decreases f,
{
    match f {
        Form::Nil => Some(SlHndl { idx: 0 }),
        Form::Bool(b) => reg.bool_init(*b),
        Form::Int(n) => reg.i64_init(*n),
        Form::Float(t) => reg.f64_init(crate::form::copy_bytes(t)),
        Form::Sym(s) => reg.sym_init(*s),
        Form::Str(b) => reg.string_init(crate::form::copy_bytes(b)),
        Form::Cell(v, n) => {
            let hv: SlHndl = match store(reg, v) {
                Some(h) => h,
                None => {
                    return None;
                },
            };
            let ghost mid1 = *reg;
            let r2 = store(reg, n);
            proof {
                lemma_extended_trans(*old(reg), mid1, *reg);
                lemma_heads_kept_trans(*old(reg), mid1, *reg);
            }
            let hn: SlHndl = match r2 {
                Some(h) => h,
                None => {
                    return None;
                },
            };
            let ghost mid2 = *reg;
            let r = reg.ref_init(hv, hn);
            proof {
                lemma_tree_kept(mid1, mid2, hv.idx as int);
                lemma_extended_trans(*old(reg), mid2, *reg);
                if r is Some {
                    assert forall|i: int| 0 <= i < old(reg).len() implies (#[trigger] reg.heads@[i])
                        == old(reg).heads@[i] by {
                        assert(mid2.heads@[i] == old(reg).heads@[i]);
                    }
                    assert forall|k: int| old(reg).len() <= k < reg.len() implies (
                    #[trigger] reg.heads@[k]).refc == (if k == r->Some_0.idx {
                        0u32
                    } else {
                        1u32
                    }) by {
                        if k < mid1.len() {
                            assert(mid2.heads@[k] == mid1.heads@[k]);
                        }
                    }
                }
            }
            r
        },
        Form::Vector(items) => {
            proof {
                lemma_views(items@, items@.len());
            }
            let hs: Vec<SlHndl> = match store_all(reg, items) {
                Some(hs) => hs,
                None => {
                    return None;
                },
            };
            let ghost mid = *reg;
            let ghost handles = hs@;
            let r = reg.stdvec_init(hs);
            proof {
                lemma_extended_trans(*old(reg), mid, *reg);
                if r is Some {
                    assert forall|i: int| 0 <= i < old(reg).len() implies (#[trigger] reg.heads@[i])
                        == old(reg).heads@[i] by {
                        lemma_occ_zero(handles, i, handles.len());
                        assert(mid.heads@[i] == old(reg).heads@[i]);
                    }
                    assert forall|k: int| old(reg).len() <= k < reg.len() implies (
                    #[trigger] reg.heads@[k]).refc == (if k == r->Some_0.idx {
                        0u32
                    } else {
                        1u32
                    }) by {
                        if k < mid.len() {
                            assert(mid.heads@[k].refc + occ(handles, k, handles.len()) == 1);
                        }
                    }
                }
            }
            r
        },
        Form::Hash(buckets) => {
            proof {
                lemma_views(buckets@, buckets@.len());
            }
            let hs: Vec<SlHndl> = match store_all(reg, buckets) {
                Some(hs) => hs,
                None => {
                    return None;
                },
            };
            let ghost mid = *reg;
            let ghost handles = hs@;
            let r = reg.hashvec_init(hs);
            proof {
                lemma_extended_trans(*old(reg), mid, *reg);
                if r is Some {
                    assert forall|i: int| 0 <= i < old(reg).len() implies (#[trigger] reg.heads@[i])
                        == old(reg).heads@[i] by {
                        lemma_occ_zero(handles, i, handles.len());
                        assert(mid.heads@[i] == old(reg).heads@[i]);
                    }
                    assert forall|k: int| old(reg).len() <= k < reg.len() implies (
                    #[trigger] reg.heads@[k]).refc == (if k == r->Some_0.idx {
                        0u32
                    } else {
                        1u32
                    }) by {
                        if k < mid.len() {
                            assert(mid.heads@[k].refc + occ(handles, k, handles.len()) == 1);
                        }
                    }
                }
            }
            r
        },
    }
}

/// Writes the forms of `items` into the region, in order, and returns their
/// handles. It succeeds exactly when the bytes of all of them fit. Of the
/// blocks made, those whose handle is returned have the count 0 and are yet
/// to be stored; each other has the count 1.
pub fn store_all(reg: &mut Region, items: &Vec<Form>) -> (r: Option<Vec<SlHndl>>)
    requires
        old(reg).wf(),
    ensures
        final(reg).wf(),
        old(reg).extended_by(*final(reg)),
        old(reg).heads_kept(*final(reg)),
        r is Some <==> old(reg).spec_free() >= sizes_upto(views(items@), items@.len()),
        match r {
            Some(hs) => {
                &&& hs@.len() == items@.len()
                &&& forall|j: int| 0 <= j < hs@.len() ==> (#[trigger] hs@[j]).idx < final(reg).len()
                &&& final(reg).trees_of(hs@) == views(items@)
                &&& final(reg).used == old(reg).used + sizes_upto(views(items@), items@.len())
                &&& forall|j: int|
                    0 <= j < hs@.len() ==> (#[trigger] hs@[j]).idx == 0 || old(reg).len()
                        <= hs@[j].idx
                &&& forall|k: int|
                    old(reg).len() <= k < final(reg).len() ==> (#[trigger] final(reg).heads@[k]).refc
                        + occ(hs@, k, hs@.len()) == 1
            },
            None => true,
        },
    decreases items,
{
    let ghost trees = views(items@);
    proof {
        lemma_views(items@, items@.len());
    }
    let mut hs: Vec<SlHndl> = Vec::new();
    let mut i: usize = 0;
    while i < items.len()
        invariant
            i <= items.len(),
            trees == views(items@),
            trees.len() == items@.len(),
            forall|j: int| 0 <= j < items@.len() ==> (#[trigger] items@[j])@ == trees[j],
            reg.wf(),
            old(reg).wf(),
            old(reg).extended_by(*reg),
            old(reg).heads_kept(*reg),
            hs@.len() == i,
            reg.used == old(reg).used + sizes_upto(trees, i as nat),
            forall|j: int| 0 <= j < i ==> (#[trigger] hs@[j]).idx < reg.len(),
            forall|j: int| 0 <= j < i ==> reg.tree_at((#[trigger] hs@[j]).idx as int) == trees[j],
            forall|j: int| 0 <= j < i ==> (#[trigger] hs@[j]).idx == 0 || old(reg).len() <= hs@[j].idx,
            forall|k: int|
                old(reg).len() <= k < reg.len() ==> (#[trigger] reg.heads@[k]).refc + occ(
                    hs@,
                    k,
                    i as nat,
                ) == 1,
        decreases items.len() - i,
    {
        let ghost before = *reg;
        let ghost hs_before = hs@;
        let r = store(reg, &items[i]);
        let ghost mid = *reg;
        proof {
            lemma_extended_trans(*old(reg), before, mid);
            lemma_heads_kept_trans(*old(reg), before, mid);
            lemma_sizes_grow(trees, (i + 1) as nat, items@.len());
        }
        match r {
            Some(h) => {
                hs.push(h);
                proof {
                    assert forall|j: int| 0 <= j < i + 1 implies reg.tree_at(
                        (#[trigger] hs@[j]).idx as int,
                    ) == trees[j] by {
                        if j < i {
                            assert(hs@[j] == hs_before[j]);
                            lemma_tree_kept(before, *reg, hs_before[j].idx as int);
                        }
                    }
                    assert forall|k: int| old(reg).len() <= k < reg.len() implies (
                    #[trigger] reg.heads@[k]).refc + occ(hs@, k, (i + 1) as nat) == 1 by {
                        lemma_occ_push(hs_before, h, k, i as nat);
                        assert(hs@ == hs_before.push(h));
                        assert(hs@[i as int] == h);
                        if k < before.len() {
                            assert(reg.heads@[k] == before.heads@[k]);
                        } else {
                            lemma_occ_zero(hs_before, k, i as nat);
                        }
                    }
                }
            },
            None => {
                return None;
            },
        }
        i += 1;
    }
    assert(reg.trees_of(hs@) =~= trees);
    Some(hs)
}

} // verus!
