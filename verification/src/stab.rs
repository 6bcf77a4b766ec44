//! The symbol table: names are interned once and keep their index for good.

use vstd::prelude::*;
use crate::symbol::NAME_SPACE;

verus! {

/// Whether two byte strings hold the same bytes.
pub fn bytes_eq(a: &[u8], b: &[u8]) -> (r: bool)
    ensures
        r == (a@ == b@),
{
    if a.len() != b.len() {
        return false;
    }
    let mut i: usize = 0;
    while i < a.len()
        invariant
            a.len() == b.len(),
            i <= a.len(),
            forall|k: int| 0 <= k < i ==> a@[k] == b@[k],
        decreases a.len() - i,
    {
        if a[i] != b[i] {
            return false;
        }
        i += 1;
    }
    assert(a@ =~= b@);
    true
}

/// The index that `name` has after interning it into `table`, and the table
/// after that: an absent name goes to the end, a present one changes nothing.
/// `None` where the name is absent and the table already holds 2^30 names.
pub open spec fn spec_intern(table: Seq<Seq<u8>>, name: Seq<u8>) -> Option<(u32, Seq<Seq<u8>>)> {
    if table.contains(name) {
        Some((table.index_of(name) as u32, table))
    } else if table.len() < NAME_SPACE {
        Some((table.len() as u32, table.push(name)))
    } else {
        None
    }
}

/// No name stands twice in the table.
pub open spec fn distinct(table: Seq<Seq<u8>>) -> bool {
    forall|i: int, j: int| 0 <= i < j < table.len() ==> table[i] != table[j]
}

/// Append-only table of interned names; a name's index is its id.
pub struct Stab {
    names: Vec<Vec<u8>>,
}

impl View for Stab {
    type V = Seq<Seq<u8>>;

    closed spec fn view(&self) -> Seq<Seq<u8>> {
        Seq::new(self.names@.len(), |i: int| self.names@[i]@)
    }
}

impl Stab {
    /// The table's invariant: names are distinct and every index fits in 30 bits.
    pub open spec fn wf(&self) -> bool {
        &&& distinct(self@)
        &&& self@.len() <= NAME_SPACE
    }

    /// An empty table.
    pub fn new() -> (r: Stab)
        ensures
            r.wf(),
            r@ == Seq::<Seq<u8>>::empty(),
    {
        let r = Stab { names: Vec::new() };
        assert(r@ =~= Seq::<Seq<u8>>::empty());
        r
    }

    /// How many names are interned.
    pub fn len(&self) -> (r: usize)
        ensures
            r == self@.len(),
    {
        self.names.len()
    }

    /// The index of `name`, if it is interned.
    pub fn lookup(&self, name: &[u8]) -> (r: Option<u32>)
        requires
            self.wf(),
        ensures
            r is Some <==> self@.contains(name@),
            r is Some ==> r->Some_0 == self@.index_of(name@) && self@[r->Some_0 as int]
                == name@,
    {
        let mut i: usize = 0;
        while i < self.names.len()
            invariant
                self.wf(),
                i <= self.names@.len(),
                forall|k: int| 0 <= k < i ==> self@[k] != name@,
            decreases self.names@.len() - i,
        {
            if bytes_eq(self.names[i].as_slice(), name) {
                assert(self@[i as int] == name@);
                let ghost j = self@.index_of(name@);
                assert(self@[j] == name@);
                assert(j == i) by {
                    if j < i {
                    } else if i < j {
                    }
                }
                return Some(i as u32);
            }
            i += 1;
        }
        assert(!self@.contains(name@));
        None
    }

    /// Returns the id of `name`, interning it first where it is new. `None`,
    /// and no change, where the name is new and the table is full.
    pub fn try_get_id(&mut self, name: &[u8]) -> (r: Option<u32>)
        requires
            old(self).wf(),
        ensures
            final(self).wf(),
            old(self)@.is_prefix_of(final(self)@),
            match spec_intern(old(self)@, name@) {
                Some((id, table)) => r == Some(id) && final(self)@ == table,
                None => r is None && final(self)@ == old(self)@,
            },
    {
        match self.lookup(name) {
            Some(id) => Some(id),
            None => {
                let n = self.names.len();
                if n >= NAME_SPACE as usize {
                    return None;
                }
                let mut copy: Vec<u8> = Vec::new();
                let mut i: usize = 0;
                while i < name.len()
                    invariant
                        i <= name.len(),
                        copy@ == name@.take(i as int),
                    decreases name.len() - i,
                {
                    copy.push(name[i]);
                    assert(name@.take(i + 1) =~= name@.take(i as int).push(name@[i as int]));
                    i += 1;
                }
                assert(copy@ =~= name@);
                self.names.push(copy);
                assert(self@ =~= old(self)@.push(name@));
                Some(n as u32)
            },
        }
    }

    /// Whether `name` can be given an id: it is interned, or there is room.
    pub open spec fn can_intern(&self, name: Seq<u8>) -> bool {
        self@.contains(name) || self@.len() < NAME_SPACE
    }

    /// Returns the id of `name`: the one it has, or the next free one.
    pub fn get_id(&mut self, name: &[u8]) -> (r: u32)
        requires
            old(self).wf(),
            old(self).can_intern(name@),
        ensures
            final(self).wf(),
            spec_intern(old(self)@, name@) == Some((r, final(self)@)),
            old(self)@.is_prefix_of(final(self)@),
            r < final(self)@.len(),
            final(self)@[r as int] == name@,
    {
        match self.try_get_id(name) {
            Some(id) => id,
            None => {
                proof {
                    assert(false);
                }
                0
            },
        }
    }

    /// Whether `id` is the index of an interned name.
    pub fn has_id(&self, id: u32) -> (r: bool)
        ensures
            r == (id < self@.len()),
    {
        (id as usize) < self.names.len()
    }

    /// The name interned under `id`.
    pub fn get_name(&self, id: u32) -> (r: &[u8])
        requires
            id < self@.len(),
        ensures
            r@ == self@[id as int],
    {
        self.names[id as usize].as_slice()
    }
}

/// A beginning of a beginning is a beginning.
pub proof fn lemma_prefix_trans(a: Seq<Seq<u8>>, b: Seq<Seq<u8>>, c: Seq<Seq<u8>>)
    requires
        a.is_prefix_of(b),
        b.is_prefix_of(c),
    ensures
        a.is_prefix_of(c),
{
    assert(a =~= c.subrange(0, a.len() as int)) by {
        assert(b =~= c.subrange(0, b.len() as int));
        assert(a =~= b.subrange(0, a.len() as int));
    }
}

/// Interning keeps every name where it was: ids are never reused or removed.
pub proof fn lemma_intern_keeps(table: Seq<Seq<u8>>, name: Seq<u8>)
    requires
        distinct(table),
        table.len() <= NAME_SPACE,
        spec_intern(table, name) is Some,
    ensures
        ({
            let (id, after) = spec_intern(table, name)->Some_0;
            &&& distinct(after)
            &&& after.len() <= NAME_SPACE
            &&& table.len() <= after.len() <= table.len() + 1
            &&& after.take(table.len() as int) == table
            &&& id < after.len()
            &&& after[id as int] == name
        }),
{
    let (id, after) = spec_intern(table, name)->Some_0;
    if table.contains(name) {
        assert(after.take(table.len() as int) =~= table);
    } else {
        assert(after.take(table.len() as int) =~= table);
        assert forall|i: int, j: int| 0 <= i < j < after.len() implies after[i] != after[j] by {
            if j == table.len() {
                assert(table[i] != name);
            }
        }
    }
}

/// Interning the same bytes a second time gives the same id and leaves the
/// table as the first interning made it.
pub proof fn lemma_intern_idempotent(table: Seq<Seq<u8>>, name: Seq<u8>)
    requires
        distinct(table),
        table.len() <= NAME_SPACE,
        spec_intern(table, name) is Some,
    ensures
        ({
            let (id, after) = spec_intern(table, name)->Some_0;
            spec_intern(after, name) == Some((id, after))
        }),
{
    lemma_intern_keeps(table, name);
    let (id, after) = spec_intern(table, name)->Some_0;
    assert(after[id as int] == name);
    assert(after.contains(name));
    let j = after.index_of(name);
    assert(after[j] == name);
    if j < id {
    } else if id < j {
    }
}

/// Two different byte strings, interned one after the other, get different ids.
pub proof fn lemma_intern_injective(table: Seq<Seq<u8>>, a: Seq<u8>, b: Seq<u8>)
    requires
        distinct(table),
        table.len() <= NAME_SPACE,
        a != b,
        spec_intern(table, a) is Some,
        spec_intern(spec_intern(table, a)->Some_0.1, b) is Some,
    ensures
        ({
            let (ida, mid) = spec_intern(table, a)->Some_0;
            let (idb, after) = spec_intern(mid, b)->Some_0;
            &&& ida != idb
            &&& after[ida as int] == a
            &&& after[idb as int] == b
        }),
{
    lemma_intern_keeps(table, a);
    let (ida, mid) = spec_intern(table, a)->Some_0;
    lemma_intern_keeps(mid, b);
    let (idb, after) = spec_intern(mid, b)->Some_0;
    assert(after.take(mid.len() as int)[ida as int] == after[ida as int]);
}

} // verus!
