//! Values as trees: the mathematical model `Tree`, which contracts speak of,
//! and `Form`, the owned value that the reader hands out.

use vstd::prelude::*;
use crate::error::SlErrCode;

verus! {

/// What a value is, whatever holds it: a form in hand or a block in a region.
pub ghost enum Tree {
    /// The nil sentinel, which is also the empty list.
    Nil,
    Bool(bool),
    Int(i64),
    /// A 64-bit float, known by the decimal literal that denotes it.
    Float(Seq<u8>),
    /// A symbol id: name index and mode.
    Sym(u32),
    Str(Seq<u8>),
    ErrCode(SlErrCode),
    /// A reference cell: the value it holds and what its "next" link leads to.
    Cell(Box<Tree>, Box<Tree>),
    /// A standard vector of values.
    Vector(Seq<Tree>),
    /// A hash vector: one chain of entries for each bucket.
    Hash(Seq<Tree>),
    Proc,
    /// A built-in kind that has no literal form.
    CoreOther,
    /// A value of an extended type.
    Other,
}

/// A value as the reader produces it, before it is written into a region.
#[derive(Debug)]
pub enum Form {
    Nil,
    Bool(bool),
    Int(i64),
    Float(Vec<u8>),
    Sym(u32),
    Str(Vec<u8>),
    Cell(Box<Form>, Box<Form>),
    Vector(Vec<Form>),
    Hash(Vec<Form>),
}

/// The trees of the first `n` forms of `items`.
pub open spec fn views_upto(items: Seq<Form>, n: nat) -> Seq<Tree>
    decreases items, n,
{
    if n == 0 || n > items.len() {
        Seq::empty()
    } else {
        views_upto(items, (n - 1) as nat).push(tree_of(items[n - 1]))
    }
}

/// The trees of all the forms of `items`.
pub open spec fn views(items: Seq<Form>) -> Seq<Tree>
    decreases items, items.len() + 1,
{
    views_upto(items, items.len())
}

/// The tree of a form.
pub open spec fn tree_of(f: Form) -> Tree
    decreases f,
{
    match f {
        Form::Nil => Tree::Nil,
        Form::Bool(b) => Tree::Bool(b),
        Form::Int(n) => Tree::Int(n),
        Form::Float(t) => Tree::Float(t@),
        Form::Sym(s) => Tree::Sym(s),
        Form::Str(b) => Tree::Str(b@),
        Form::Cell(v, n) => Tree::Cell(Box::new(tree_of(*v)), Box::new(tree_of(*n))),
        Form::Vector(items) => Tree::Vector(views(items@)),
        Form::Hash(buckets) => Tree::Hash(views(buckets@)),
    }
}

impl View for Form {
    type V = Tree;

    open spec fn view(&self) -> Tree {
        tree_of(*self)
    }
}

/// `views` goes item by item.
pub proof fn lemma_views(items: Seq<Form>, n: nat)
    requires
        n <= items.len(),
    ensures
        views_upto(items, n).len() == n,
        forall|i: int| 0 <= i < n ==> (#[trigger] views_upto(items, n)[i]) == items[i]@,
    decreases n,
{
    if n > 0 {
        lemma_views(items, (n - 1) as nat);
    }
}

/// The trees of a sequence with one more form at its end.
pub proof fn lemma_views_push(items: Seq<Form>, f: Form)
    ensures
        views(items.push(f)) == views(items).push(f@),
{
    lemma_views(items, items.len());
    lemma_views(items.push(f), items.len() + 1);
    assert(views(items.push(f)) =~= views(items).push(f@));
}

/// A copy of a byte vector.
pub fn copy_bytes(b: &Vec<u8>) -> (r: Vec<u8>)
    ensures
        r@ == b@,
{
    let mut r: Vec<u8> = Vec::new();
    let mut i: usize = 0;
    while i < b.len()
        invariant
            i <= b.len(),
            r@ == b@.take(i as int),
        decreases b.len() - i,
    {
        r.push(b[i]);
        assert(b@.take(i + 1) =~= b@.take(i as int).push(b@[i as int]));
        i += 1;
    }
    assert(b@.take(b.len() as int) =~= b@);
    r
}

impl Form {
    /// A deep copy: another form with the same tree.
    pub fn copy(&self) -> (r: Form)
        ensures
            r@ == self@,
        decreases self,
    {
        match self {
            Form::Nil => Form::Nil,
            Form::Bool(b) => Form::Bool(*b),
            Form::Int(n) => Form::Int(*n),
            Form::Float(t) => Form::Float(copy_bytes(t)),
            Form::Sym(s) => Form::Sym(*s),
            Form::Str(b) => Form::Str(copy_bytes(b)),
            Form::Cell(v, n) => Form::Cell(Box::new(v.copy()), Box::new(n.copy())),
            Form::Vector(items) => Form::Vector(copy_forms(items)),
            Form::Hash(buckets) => Form::Hash(copy_forms(buckets)),
        }
    }
}

/// Deep copies of all the forms of `items`, in order.
pub fn copy_forms(items: &Vec<Form>) -> (r: Vec<Form>)
    ensures
        views(r@) == views(items@),
        r@.len() == items@.len(),
    decreases items,
{
    let mut r: Vec<Form> = Vec::new();
    let mut i: usize = 0;
    proof {
        lemma_views(items@, 0);
    }
    while i < items.len()
        invariant
            i <= items.len(),
            r@.len() == i,
            views(r@) == views_upto(items@, i as nat),
        decreases items.len() - i,
    {
        let c = items[i].copy();
        proof {
            lemma_views_push(r@, c);
        }
        r.push(c);
        i += 1;
    }
    r
}

} // verus!
