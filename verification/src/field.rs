//! Fields of an untyped payload: a number of up to sixteen bytes, least
//! significant byte first, at any offset. No alignment is asked for.

use vstd::prelude::*;
use vstd::arithmetic::div_mod::lemma_mod_breakdown;
use crate::region::{Region, SlHndl, Payload};

verus! {

/// 256 to the power `w`.
pub open spec fn pow256(w: nat) -> nat
    decreases w,
{
    if w == 0 {
        1
    } else {
        256 * pow256((w - 1) as nat)
    }
}

/// The number that `bytes` hold, least significant byte first.
pub open spec fn le_value(bytes: Seq<u8>) -> nat
    decreases bytes.len(),
{
    if bytes.len() == 0 {
        0
    } else {
        bytes[0] as nat + 256 * le_value(bytes.skip(1))
    }
}

/// The `width` low bytes of `v`, least significant first.
pub open spec fn le_bytes(v: nat, width: nat) -> Seq<u8>
    decreases width,
{
    if width == 0 {
        Seq::empty()
    } else {
        seq![(v % 256) as u8] + le_bytes(v / 256, (width - 1) as nat)
    }
}

/// The payload after `field` was written at `offset`.
pub open spec fn with_field(bytes: Seq<u8>, offset: int, field: Seq<u8>) -> Seq<u8> {
    bytes.subrange(0, offset) + field + bytes.subrange(offset + field.len(), bytes.len() as int)
}

/// The bytes of a number are as many as its width.
pub proof fn lemma_le_bytes_len(v: nat, width: nat)
    ensures
        le_bytes(v, width).len() == width,
    decreases width,
{
    if width > 0 {
        lemma_le_bytes_len(v / 256, (width - 1) as nat);
    }
}

/// What bytes hold is less than 256 to the power of their number.
pub proof fn lemma_le_value_bound(bytes: Seq<u8>)
    ensures
        le_value(bytes) < pow256(bytes.len()),
    decreases bytes.len(),
{
    if bytes.len() > 0 {
        lemma_le_value_bound(bytes.skip(1));
    }
}

/// The bytes of a number hold that number, cut to the width.
pub proof fn lemma_le_round_trip(v: nat, width: nat)
    ensures
        le_value(le_bytes(v, width)) == v % pow256(width),
    decreases width,
{
    if width > 0 {
        let rest = le_bytes(v / 256, (width - 1) as nat);
        lemma_le_round_trip(v / 256, (width - 1) as nat);
        assert(le_bytes(v, width).skip(1) =~= rest);
        lemma_pow256_pos((width - 1) as nat);
        lemma_mod_breakdown(v as int, 256, pow256((width - 1) as nat) as int);
    }
}

/// A power of 256 is positive.
pub proof fn lemma_pow256_pos(w: nat)
    ensures
        pow256(w) > 0,
    decreases w,
{
    if w > 0 {
        lemma_pow256_pos((w - 1) as nat);
    }
}

/// A field that was written is read back, and a field that lies apart from
/// it reads as before.
pub proof fn lemma_field_kept(bytes: Seq<u8>, offset: int, field: Seq<u8>, at: int, width: int)
    requires
        0 <= offset,
        offset + field.len() <= bytes.len(),
        0 <= at,
        0 <= width,
        at + width <= bytes.len(),
    ensures
        with_field(bytes, offset, field).len() == bytes.len(),
        with_field(bytes, offset, field).subrange(offset, offset + field.len()) == field,
        at + width <= offset || offset + field.len() <= at ==> with_field(
            bytes,
            offset,
            field,
        ).subrange(at, at + width) == bytes.subrange(at, at + width),
{
    let after = with_field(bytes, offset, field);
    assert(after.subrange(offset, offset + field.len()) =~= field);
    if at + width <= offset || offset + field.len() <= at {
        assert(after.subrange(at, at + width) =~= bytes.subrange(at, at + width));
    }
}

/// A field reads back as what was written to it, cut to its width, however
/// it is aligned.
pub proof fn lemma_field_round_trip(bytes: Seq<u8>, offset: int, width: nat, value: nat)
    requires
        0 <= offset,
        offset + width <= bytes.len(),
    ensures
        le_value(
            with_field(bytes, offset, le_bytes(value, width)).subrange(offset, offset + width),
        ) == value % pow256(width),
{
    lemma_le_bytes_len(value, width);
    lemma_field_kept(bytes, offset, le_bytes(value, width), 0, 0);
    lemma_le_round_trip(value, width);
}

impl Region {
    /// Block `h` has an untyped payload in which a field of `width` bytes
    /// lies at `offset`.
    pub open spec fn has_field(&self, h: int, offset: int, width: int) -> bool {
        &&& 0 <= h < self.len()
        &&& self.payloads@[h] is Raw
        &&& 0 <= offset
        &&& 0 <= width <= 16
        &&& offset + width <= self.payloads@[h]->Raw_0@.len()
    }

    /// The bytes of the untyped payload of block `h`.
    pub open spec fn raw_bytes(&self, h: int) -> Seq<u8> {
        self.payloads@[h]->Raw_0@
    }

    /// Reads the field of `width` bytes at `offset` of the payload of block `h`.
    pub fn core_read_field(&self, h: SlHndl, offset: usize, width: usize) -> (r: u128)
        requires
            self.wf(),
            self.has_field(h.idx as int, offset as int, width as int),
        ensures
            r == le_value(self.raw_bytes(h.idx as int).subrange(offset as int, offset + width)),
    {
        match &self.payloads[h.idx] {
            Payload::Raw(b) => {
                let mut acc: u128 = 0;
                let mut i: usize = width;
                assert(b@.subrange(offset + width, offset + width) =~= Seq::<u8>::empty());
                while i > 0
                    invariant
                        i <= width <= 16,
                        offset + width <= b.len(),
                        acc == le_value(b@.subrange(offset + i, offset + width)),
                    decreases i,
                {
                    proof {
                        lemma_le_value_bound(b@.subrange(offset + i, offset + width));
                        reveal_with_fuel(pow256, 17);
                        assert(b@.subrange(offset + i - 1, offset + width).skip(1) =~= b@.subrange(
                            offset + i,
                            offset + width,
                        ));
                    }
                    i -= 1;
                    acc = acc * 256 + b[offset + i] as u128;
                }
                acc
            },
            _ => 0,
        }
    }

    /// Writes `value`, cut to `width` bytes, at `offset` of the payload of
    /// block `h`. Nothing else changes: no other byte, no other block, and
    /// what any handle denotes.
    pub fn core_write_field(&mut self, h: SlHndl, offset: usize, width: usize, value: u128)
        requires
            old(self).wf(),
            old(self).has_field(h.idx as int, offset as int, width as int),
        ensures
            final(self).wf(),
            old(self).extended_by(*final(self)),
            final(self).heads == old(self).heads,
            final(self).used == old(self).used,
            final(self).len() == old(self).len(),
            final(self).payloads@[h.idx as int] is Raw,
            final(self).raw_bytes(h.idx as int) == with_field(
                old(self).raw_bytes(h.idx as int),
                offset as int,
                le_bytes(value as nat, width as nat),
            ),
            forall|k: int|
                0 <= k < old(self).len() && k != h.idx ==> final(self).payloads@[k] == old(
                    self,
                ).payloads@[k],
    {
        let ghost before = old(self).raw_bytes(h.idx as int);
        let mut out: Vec<u8> = Vec::new();
        match &self.payloads[h.idx] {
            Payload::Raw(b) => {
                let mut i: usize = 0;
                while i < offset
                    invariant
                        i <= offset <= b.len(),
                        offset + width <= b.len(),
                        out@ == b@.subrange(0, i as int),
                    decreases offset - i,
                {
                    out.push(b[i]);
                    assert(b@.subrange(0, i + 1) =~= b@.subrange(0, i as int).push(b@[i as int]));
                    i += 1;
                }
                let mut cur: u128 = value;
                let mut j: usize = 0;
                let ghost mut done: Seq<u8> = Seq::empty();
                assert(out@ =~= b@.subrange(0, offset as int) + done);
                assert(done + le_bytes(cur as nat, width as nat) =~= le_bytes(
                    value as nat,
                    width as nat,
                ));
                while j < width
                    invariant
                        j <= width,
                        offset + width <= b.len(),
                        done.len() == j,
                        out@ == b@.subrange(0, offset as int) + done,
                        done + le_bytes(cur as nat, (width - j) as nat) == le_bytes(
                            value as nat,
                            width as nat,
                        ),
                    decreases width - j,
                {
                    let low: u8 = (cur % 256) as u8;
                    proof {
                        assert(done.push(low) + le_bytes((cur / 256) as nat, (width - j - 1) as nat)
                            =~= done + le_bytes(cur as nat, (width - j) as nat));
                        assert(out@.push(low) =~= b@.subrange(0, offset as int) + done.push(low));
                        done = done.push(low);
                    }
                    out.push(low);
                    cur = cur / 256;
                    j += 1;
                }
                assert(done =~= le_bytes(value as nat, width as nat));
                let mut k: usize = offset + width;
                assert(out@ =~= b@.subrange(0, offset as int) + done + b@.subrange(
                    offset + width,
                    k as int,
                ));
                while k < b.len()
                    invariant
                        offset + width <= k <= b.len(),
                        out@ == b@.subrange(0, offset as int) + done + b@.subrange(
                            offset + width,
                            k as int,
                        ),
                    decreases b@.len() - k,
                {
                    out.push(b[k]);
                    assert(b@.subrange(offset + width, k + 1) =~= b@.subrange(
                        offset + width,
                        k as int,
                    ).push(b@[k as int]));
                    assert(out@ =~= b@.subrange(0, offset as int) + done + b@.subrange(
                        offset + width,
                        k + 1,
                    ));
                    k += 1;
                }
                assert(out@ == with_field(before, offset as int, done));
            },
            _ => {},
        }
        proof {
            lemma_le_bytes_len(value as nat, width as nat);
        }
        self.payloads.set(h.idx, Payload::Raw(out));
        proof {
            assert forall|i: int| 1 <= i < self.heads@.len() implies #[trigger] self.links_below(
                i,
            ) by {
                assert(old(self).links_below(i));
            }
        }
    }
}

} // verus!
