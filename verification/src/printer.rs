//! The canonical printer: a value of a region, with the symbol table that
//! its symbols were interned in, back to source text.

use vstd::prelude::*;
use vstd::string::StringSliceAdditionalSpecFns;
use crate::ascii::{LPAREN, RPAREN, LBRACKET, RBRACKET, LBRACE, RBRACE, COLON, DOLLAR, AT, DQUOTE, HASH, GREATER, SPACE, UPPER_T, UPPER_F};
use crate::error::SlErrCode;
use crate::form::Tree;
use crate::number::{int_text, push_int};
use crate::region::{Region, SlHndl, Head, Payload, lemma_trees_upto};
use crate::stab::Stab;
use crate::symbol::{SymbolMode, spec_demodes, spec_mode_of, demodes_sym, mode_of_sym};
use crate::tag::{CoreType, core_type_of};

verus! {

/// The name of an error kind.
pub open spec fn err_name(e: SlErrCode) -> Seq<u8> {
    match e {
        SlErrCode::ErrorUnknown => "ErrorUnknown".spec_bytes(),
        SlErrCode::ParseUnexpectedEnd => "ParseUnexpectedEnd".spec_bytes(),
        SlErrCode::ParseBadSpecial => "ParseBadSpecial".spec_bytes(),
        SlErrCode::ParseInvalidChar => "ParseInvalidChar".spec_bytes(),
        SlErrCode::ParseInvalidString => "ParseInvalidString".spec_bytes(),
        SlErrCode::ParseInvalidNum => "ParseInvalidNum".spec_bytes(),
        SlErrCode::FileCouldNotRead => "FileCouldNotRead".spec_bytes(),
    }
}

/// The sigil of a mode; the basic mode has none.
pub open spec fn sigil(mode: SymbolMode) -> Seq<u8> {
    match mode {
        SymbolMode::Basic => Seq::empty(),
        SymbolMode::Keyword => seq![COLON],
        SymbolMode::Module => seq![AT],
        SymbolMode::Type => seq![DOLLAR],
    }
}

/// A symbol as text: the sigil of its mode, then the name interned under its
/// name index. An index that was never interned prints as a placeholder.
pub open spec fn sym_text(id: u32, table: Seq<Seq<u8>>) -> Seq<u8> {
    let n = spec_demodes(id) as int;
    sigil(spec_mode_of(id)) + (if n < table.len() {
        table[n]
    } else {
        "<$other>".spec_bytes()
    })
}

/// The canonical text of a value.
pub open spec fn render(t: Tree, table: Seq<Seq<u8>>) -> Seq<u8>
    decreases t,
{
    match t {
        Tree::Nil => seq![LPAREN, RPAREN],
        Tree::Bool(b) => if b {
            seq![HASH, UPPER_T]
        } else {
            seq![HASH, UPPER_F]
        },
        Tree::Int(n) => int_text(n as int),
        Tree::Float(x) => x,
        Tree::Sym(id) => sym_text(id, table),
        Tree::Str(b) => seq![DQUOTE] + b + seq![DQUOTE],
        Tree::ErrCode(e) => "<err: ".spec_bytes() + err_name(e) + seq![GREATER],
        Tree::Cell(v, n) => seq![LPAREN] + render(*v, table) + chain_text(*n, table) + seq![
            RPAREN,
        ],
        Tree::Vector(items) => seq![LBRACKET] + joined(items, table, items.len()) + seq![RBRACKET],
        Tree::Hash(buckets) => seq![LBRACE] + drop_first(
            buckets_text(buckets, table, buckets.len()),
        ) + seq![RBRACE],
        Tree::Proc => "<$proc>".spec_bytes(),
        Tree::CoreOther => "<@core/$other>".spec_bytes(),
        Tree::Other => "<$other>".spec_bytes(),
    }
}

/// The text of the rest of a list: for each further cell a space and its
/// value, up to the first "next" link that leads to no cell.
pub open spec fn chain_text(t: Tree, table: Seq<Seq<u8>>) -> Seq<u8>
    decreases t,
{
    match t {
        Tree::Cell(v, n) => seq![SPACE] + render(*v, table) + chain_text(*n, table),
        _ => Seq::empty(),
    }
}

/// The first `n` items, with one space between neighbours.
pub open spec fn joined(items: Seq<Tree>, table: Seq<Seq<u8>>, n: nat) -> Seq<u8>
    decreases items, n,
{
    if n == 0 || n > items.len() {
        Seq::empty()
    } else if n == 1 {
        render(items[0], table)
    } else {
        joined(items, table, (n - 1) as nat) + seq![SPACE] + render(items[n - 1], table)
    }
}

/// A map entry as text: key, space, value. Where the entry has no key or no
/// value cell, nil stands in.
pub open spec fn entry_text(entry: Tree, table: Seq<Seq<u8>>) -> Seq<u8>
    decreases entry,
{
    match entry {
        Tree::Cell(k, kn) => render(*k, table) + seq![SPACE] + (match *kn {
            Tree::Cell(v, _) => render(*v, table),
            _ => seq![LPAREN, RPAREN],
        }),
        _ => seq![LPAREN, RPAREN, SPACE, LPAREN, RPAREN],
    }
}

/// The entries of one bucket chain, each with a space before it.
pub open spec fn bucket_text(chain: Tree, table: Seq<Seq<u8>>) -> Seq<u8>
    decreases chain,
{
    match chain {
        Tree::Cell(e, n) => seq![SPACE] + entry_text(*e, table) + bucket_text(*n, table),
        _ => Seq::empty(),
    }
}

/// The entries of the first `n` buckets, in bucket order.
pub open spec fn buckets_text(buckets: Seq<Tree>, table: Seq<Seq<u8>>, n: nat) -> Seq<u8>
    decreases buckets, n,
{
    if n == 0 || n > buckets.len() {
        Seq::empty()
    } else {
        buckets_text(buckets, table, (n - 1) as nat) + bucket_text(buckets[n - 1], table)
    }
}

/// `s` without its first byte, if it has one.
pub open spec fn drop_first(s: Seq<u8>) -> Seq<u8> {
    if s.len() > 0 {
        s.skip(1)
    } else {
        s
    }
}

/// Appends the bytes of `b`.
pub fn push_bytes(out: &mut Vec<u8>, b: &[u8])
    ensures
        final(out)@ == old(out)@ + b@,
{
    let mut i: usize = 0;
    assert(b@.take(0) =~= Seq::<u8>::empty());
    assert(out@ =~= old(out)@ + b@.take(0));
    while i < b.len()
        invariant
            i <= b.len(),
            out@ == old(out)@ + b@.take(i as int),
        decreases b.len() - i,
    {
        out.push(b[i]);
        assert(b@.take(i + 1) =~= b@.take(i as int).push(b@[i as int]));
        assert(out@ =~= old(out)@ + b@.take(i + 1));
        i += 1;
    }
    assert(b@.take(b.len() as int) =~= b@);
}

/// Appends the bytes of `s`.
pub fn push_str(out: &mut Vec<u8>, s: &str)
    ensures
        final(out)@ == old(out)@ + s.spec_bytes(),
{
    push_bytes(out, s.as_bytes());
}

/// The name of an error kind.
pub fn err_name_of(e: SlErrCode) -> (r: &'static str)
    ensures
        r.spec_bytes() == err_name(e),
{
    match e {
        SlErrCode::ErrorUnknown => "ErrorUnknown",
        SlErrCode::ParseUnexpectedEnd => "ParseUnexpectedEnd",
        SlErrCode::ParseBadSpecial => "ParseBadSpecial",
        SlErrCode::ParseInvalidChar => "ParseInvalidChar",
        SlErrCode::ParseInvalidString => "ParseInvalidString",
        SlErrCode::ParseInvalidNum => "ParseInvalidNum",
        SlErrCode::FileCouldNotRead => "FileCouldNotRead",
    }
}

/// Appends a symbol: sigil and name.
pub fn push_sym(out: &mut Vec<u8>, tbl: &Stab, id: u32)
    ensures
        final(out)@ == old(out)@ + sym_text(id, tbl@),
{
    match mode_of_sym(id) {
        SymbolMode::Basic => {},
        SymbolMode::Keyword => {
            out.push(COLON);
        },
        SymbolMode::Module => {
            out.push(AT);
        },
        SymbolMode::Type => {
            out.push(DOLLAR);
        },
    }
    assert(out@ =~= old(out)@ + sigil(spec_mode_of(id)));
    let n: u32 = demodes_sym(id);
    if tbl.has_id(n) {
        push_bytes(out, tbl.get_name(n));
    } else {
        push_str(out, "<$other>");
    }
    assert(out@ =~= old(out)@ + sym_text(id, tbl@));
}

/// The two links of a reference cell, if block `h` is one.
pub fn cell_parts(reg: &Region, h: SlHndl) -> (r: Option<(SlHndl, SlHndl)>)
    requires
        reg.wf(),
        h.idx < reg.len(),
    ensures
        match r {
            Some((v, n)) => {
                &&& v.idx < h.idx
                &&& n.idx < h.idx
                &&& reg.tree_at(h.idx as int) == Tree::Cell(
                    Box::new(reg.tree_at(v.idx as int)),
                    Box::new(reg.tree_at(n.idx as int)),
                )
            },
            None => !(reg.tree_at(h.idx as int) is Cell),
        },
{
    if h.idx == 0 {
        return None;
    }
    assert(reg.links_below(h.idx as int));
    let hd: Head = reg.heads[h.idx];
    match core_type_of(hd.tag) {
        Some(CoreType::Ref) => match &reg.payloads[h.idx] {
            Payload::Ptr(v) => Some((*v, hd.next)),
            _ => None,
        },
        _ => None,
    }
}

/// Appends the canonical text of the value of block `h`.
pub fn print_at(reg: &Region, tbl: &Stab, h: SlHndl, out: &mut Vec<u8>)
    requires
        reg.wf(),
        h.idx < reg.len(),
    ensures
        final(out)@ == old(out)@ + render(reg.tree_at(h.idx as int), tbl@),
    decreases h.idx, 1int,
{
    if h.idx == 0 {
        out.push(LPAREN);
        out.push(RPAREN);
        assert(out@ =~= old(out)@ + seq![LPAREN, RPAREN]);
        return ;
    }
    assert(reg.links_below(h.idx as int));
    let hd: Head = reg.heads[h.idx];
    let ghost tree = reg.tree_at(h.idx as int);
    match (core_type_of(hd.tag), &reg.payloads[h.idx]) {
        (None, _) => {
            push_str(out, "<$other>");
        },
        (Some(CoreType::Nil), _) => {
            out.push(LPAREN);
            out.push(RPAREN);
            assert(out@ =~= old(out)@ + seq![LPAREN, RPAREN]);
        },
        (Some(CoreType::Bool), _) => {
            out.push(HASH);
            if hd.tag / 4 == 2 {
                out.push(UPPER_T);
                assert(out@ =~= old(out)@ + seq![HASH, UPPER_T]);
            } else {
                out.push(UPPER_F);
                assert(out@ =~= old(out)@ + seq![HASH, UPPER_F]);
            }
        },
        (Some(CoreType::I64), Payload::Int(n)) => {
            push_int(out, *n);
        },
        (Some(CoreType::F64), Payload::Text(t)) => {
            push_bytes(out, t.as_slice());
        },
        (Some(CoreType::Symbol), Payload::Sym(s)) => {
            push_sym(out, tbl, *s);
        },
        (Some(CoreType::ErrCode), Payload::Code(e)) => {
            push_str(out, "<err: ");
            push_str(out, err_name_of(*e));
            out.push(GREATER);
            assert(out@ =~= old(out)@ + ("<err: ".spec_bytes() + err_name(*e) + seq![GREATER]));
        },
        (Some(CoreType::VecStr), Payload::Bytes(b)) => {
            out.push(DQUOTE);
            push_bytes(out, b.as_slice());
            out.push(DQUOTE);
            assert(out@ =~= old(out)@ + (seq![DQUOTE] + b@ + seq![DQUOTE]));
        },
        (Some(CoreType::Ref), Payload::Ptr(v)) => {
            print_list(reg, tbl, *v, hd.next, h, out);
        },
        (Some(CoreType::VecStd), Payload::Handles(hs)) => {
            proof {
                lemma_trees_upto(*reg, hs@, h.idx as int, hs@.len());
            }
            print_items(reg, tbl, hs, h, out);
        },
        (Some(CoreType::VecHash), Payload::Handles(hs)) => {
            proof {
                lemma_trees_upto(*reg, hs@, h.idx as int, hs@.len());
            }
            print_buckets(reg, tbl, hs, h, out);
        },
        (Some(CoreType::ProcLambda), _) => {
            push_str(out, "<$proc>");
        },
        (Some(CoreType::ProcNative), _) => {
            push_str(out, "<$proc>");
        },
        _ => {
            push_str(out, "<@core/$other>");
        },
    }
}

/// Appends the rest of a list, from the cell `cur` on.
pub fn print_chain(reg: &Region, tbl: &Stab, cur: SlHndl, out: &mut Vec<u8>)
    requires
        reg.wf(),
        cur.idx < reg.len(),
    ensures
        final(out)@ == old(out)@ + chain_text(reg.tree_at(cur.idx as int), tbl@),
    decreases cur.idx, 2int,
{
    let mut at: SlHndl = cur;
    let ghost want = old(out)@ + chain_text(reg.tree_at(cur.idx as int), tbl@);
    loop
        invariant
            reg.wf(),
            at.idx <= cur.idx,
            at.idx < reg.len(),
            out@ + chain_text(reg.tree_at(at.idx as int), tbl@) == want,
            want == old(out)@ + chain_text(reg.tree_at(cur.idx as int), tbl@),
        decreases at.idx,
    {
        match cell_parts(reg, at) {
            Some((v, n)) => {
                let ghost before = out@;
                out.push(SPACE);
                print_at(reg, tbl, v, out);
                assert(out@ + chain_text(reg.tree_at(n.idx as int), tbl@) =~= before + (seq![SPACE]
                    + render(reg.tree_at(v.idx as int), tbl@) + chain_text(
                    reg.tree_at(n.idx as int),
                    tbl@,
                )));
                at = n;
            },
            None => {
                assert(out@ + Seq::<u8>::empty() =~= out@);
                return ;
            },
        }
    }
}

/// Appends the elements of a vector, which is block `h`, with one space
/// between neighbours.
pub fn print_items(reg: &Region, tbl: &Stab, hs: &Vec<SlHndl>, h: SlHndl, out: &mut Vec<u8>)
    requires
        reg.wf(),
        h.idx < reg.len(),
        forall|j: int| 0 <= j < hs@.len() ==> (#[trigger] hs@[j]).idx < h.idx,
    ensures
        final(out)@ == old(out)@ + (seq![LBRACKET] + joined(
            reg.trees_upto(hs@, h.idx as int, hs@.len()),
            tbl@,
            hs@.len(),
        ) + seq![RBRACKET]),
    decreases h.idx, 0int,
{
    let ghost items = reg.trees_upto(hs@, h.idx as int, hs@.len());
    proof {
        lemma_trees_upto(*reg, hs@, h.idx as int, hs@.len());
    }
    out.push(LBRACKET);
    let mut i: usize = 0;
    assert(out@ =~= old(out)@ + seq![LBRACKET] + joined(items, tbl@, 0));
    while i < hs.len()
        invariant
            reg.wf(),
            h.idx < reg.len(),
            i <= hs.len(),
            items.len() == hs@.len(),
            forall|j: int| 0 <= j < hs@.len() ==> (#[trigger] hs@[j]).idx < h.idx,
            forall|j: int| 0 <= j < hs@.len() ==> (#[trigger] items[j]) == reg.tree_at(hs@[j].idx as int),
            out@ == old(out)@ + seq![LBRACKET] + joined(items, tbl@, i as nat),
        decreases hs.len() - i,
    {
        let ghost before = out@;
        if i > 0 {
            out.push(SPACE);
        }
        print_at(reg, tbl, hs[i], out);
        assert(out@ =~= old(out)@ + seq![LBRACKET] + joined(items, tbl@, (i + 1) as nat));
        i += 1;
    }
    out.push(RBRACKET);
    assert(out@ =~= old(out)@ + (seq![LBRACKET] + joined(items, tbl@, hs@.len()) + seq![RBRACKET]));
}

/// Appends a list: the value of its first cell, then the rest of the chain,
/// in parentheses. The cell is block `h`.
pub fn print_list(reg: &Region, tbl: &Stab, v: SlHndl, next: SlHndl, h: SlHndl, out: &mut Vec<u8>)
    requires
        reg.wf(),
        h.idx < reg.len(),
        v.idx < h.idx,
        next.idx < h.idx,
    ensures
        final(out)@ == old(out)@ + (seq![LPAREN] + render(reg.tree_at(v.idx as int), tbl@)
            + chain_text(reg.tree_at(next.idx as int), tbl@) + seq![RPAREN]),
    decreases h.idx, 0int,
{
    out.push(LPAREN);
    print_at(reg, tbl, v, out);
    print_chain(reg, tbl, next, out);
    out.push(RPAREN);
    assert(out@ =~= old(out)@ + (seq![LPAREN] + render(reg.tree_at(v.idx as int), tbl@)
        + chain_text(reg.tree_at(next.idx as int), tbl@) + seq![RPAREN]));
}

/// Appends `body` without its first byte.
pub fn push_tail(out: &mut Vec<u8>, body: &Vec<u8>)
    ensures
        final(out)@ == old(out)@ + drop_first(body@),
{
    if body.len() == 0 {
        assert(out@ =~= old(out)@ + drop_first(body@));
        return ;
    }
    let mut i: usize = 1;
    assert(out@ =~= old(out)@ + body@.subrange(1, 1));
    while i < body.len()
        invariant
            1 <= i <= body.len(),
            out@ == old(out)@ + body@.subrange(1, i as int),
        decreases body.len() - i,
    {
        out.push(body[i]);
        assert(out@ =~= old(out)@ + body@.subrange(1, i + 1));
        i += 1;
    }
    assert(body@.subrange(1, body.len() as int) =~= body@.skip(1));
}

/// Appends the entries of one bucket chain, from the cell `cur` on, each
/// with a space before it.
pub fn print_bucket(reg: &Region, tbl: &Stab, cur: SlHndl, out: &mut Vec<u8>)
    requires
        reg.wf(),
        cur.idx < reg.len(),
    ensures
        final(out)@ == old(out)@ + bucket_text(reg.tree_at(cur.idx as int), tbl@),
    decreases cur.idx, 3int,
{
    let mut at: SlHndl = cur;
    let ghost want = old(out)@ + bucket_text(reg.tree_at(cur.idx as int), tbl@);
    loop
        invariant
            reg.wf(),
            at.idx <= cur.idx,
            at.idx < reg.len(),
            out@ + bucket_text(reg.tree_at(at.idx as int), tbl@) == want,
            want == old(out)@ + bucket_text(reg.tree_at(cur.idx as int), tbl@),
        decreases at.idx,
    {
        match cell_parts(reg, at) {
            Some((e, n)) => {
                let ghost before = out@;
                out.push(SPACE);
                print_entry(reg, tbl, e, out);
                assert(out@ + bucket_text(reg.tree_at(n.idx as int), tbl@) =~= before + (seq![
                    SPACE,
                ] + entry_text(reg.tree_at(e.idx as int), tbl@) + bucket_text(
                    reg.tree_at(n.idx as int),
                    tbl@,
                )));
                at = n;
            },
            None => {
                assert(out@ + Seq::<u8>::empty() =~= out@);
                return ;
            },
        }
    }
}

/// Appends one map entry: key, space, value.
pub fn print_entry(reg: &Region, tbl: &Stab, e: SlHndl, out: &mut Vec<u8>)
    requires
        reg.wf(),
        e.idx < reg.len(),
    ensures
        final(out)@ == old(out)@ + entry_text(reg.tree_at(e.idx as int), tbl@),
    decreases e.idx, 2int,
{
    match cell_parts(reg, e) {
        Some((k, kn)) => {
            print_at(reg, tbl, k, out);
            out.push(SPACE);
            match cell_parts(reg, kn) {
                Some((v, _)) => {
                    print_at(reg, tbl, v, out);
                    assert(out@ =~= old(out)@ + (render(reg.tree_at(k.idx as int), tbl@) + seq![
                        SPACE,
                    ] + render(reg.tree_at(v.idx as int), tbl@)));
                },
                None => {
                    out.push(LPAREN);
                    out.push(RPAREN);
                    assert(out@ =~= old(out)@ + (render(reg.tree_at(k.idx as int), tbl@) + seq![
                        SPACE,
                    ] + seq![LPAREN, RPAREN]));
                },
            }
        },
        None => {
            out.push(LPAREN);
            out.push(RPAREN);
            out.push(SPACE);
            out.push(LPAREN);
            out.push(RPAREN);
            assert(out@ =~= old(out)@ + seq![LPAREN, RPAREN, SPACE, LPAREN, RPAREN]);
        },
    }
}

/// Appends a hash vector, which is block `h`: in braces, the entries of its
/// buckets in bucket order, with one space between neighbours.
pub fn print_buckets(reg: &Region, tbl: &Stab, hs: &Vec<SlHndl>, h: SlHndl, out: &mut Vec<u8>)
    requires
        reg.wf(),
        h.idx < reg.len(),
        forall|j: int| 0 <= j < hs@.len() ==> (#[trigger] hs@[j]).idx < h.idx,
    ensures
        final(out)@ == old(out)@ + (seq![LBRACE] + drop_first(
            buckets_text(reg.trees_upto(hs@, h.idx as int, hs@.len()), tbl@, hs@.len()),
        ) + seq![RBRACE]),
    decreases h.idx, 0int,
{
    let ghost buckets = reg.trees_upto(hs@, h.idx as int, hs@.len());
    proof {
        lemma_trees_upto(*reg, hs@, h.idx as int, hs@.len());
    }
    let mut body: Vec<u8> = Vec::new();
    let mut i: usize = 0;
    assert(body@ =~= buckets_text(buckets, tbl@, 0));
    while i < hs.len()
        invariant
            reg.wf(),
            h.idx < reg.len(),
            i <= hs.len(),
            buckets.len() == hs@.len(),
            forall|j: int| 0 <= j < hs@.len() ==> (#[trigger] hs@[j]).idx < h.idx,
            forall|j: int| 0 <= j < hs@.len() ==> (#[trigger] buckets[j]) == reg.tree_at(hs@[j].idx as int),
            body@ == buckets_text(buckets, tbl@, i as nat),
        decreases hs.len() - i,
    {
        print_bucket(reg, tbl, hs[i], &mut body);
        i += 1;
    }
    out.push(LBRACE);
    push_tail(out, &body);
    out.push(RBRACE);
    assert(out@ =~= old(out)@ + (seq![LBRACE] + drop_first(body@) + seq![RBRACE]));
}

/// `String::from_utf8_lossy` gives the text that the bytes encode where
/// they are well-formed UTF-8; of other bytes nothing is claimed here.
#[verifier::external_body]
fn text_of(bytes: &Vec<u8>) -> (r: String)
    ensures
        vstd::utf8::valid_utf8(bytes@) ==> r@ == vstd::utf8::decode_utf8(bytes@),
{
    String::from_utf8_lossy(bytes.as_slice()).into_owned()
}

/// Bundles together a value and the region and symbol table that it lives
/// in, for display.
pub struct SlContextVal<'a> {
    pub reg: &'a Region,
    pub tbl: &'a Stab,
    pub val: SlHndl,
}

/// Bundles a value with its region and symbol table.
pub fn context<'a>(reg: &'a Region, tbl: &'a Stab, val: SlHndl) -> (r: SlContextVal<'a>)
    ensures
        r.reg == reg,
        r.tbl == tbl,
        r.val == val,
{
    SlContextVal { reg, tbl, val }
}

impl<'a> SlContextVal<'a> {
    /// The canonical text of the value, in the model.
    pub open spec fn spec_text(&self) -> Seq<u8> {
        render(self.reg.tree_at(self.val.idx as int), self.tbl@)
    }

    /// The canonical text of the value, as bytes.
    pub fn to_bytes(&self) -> (r: Vec<u8>)
        requires
            self.reg.wf(),
            self.val.idx < self.reg.len(),
        ensures
            r@ == self.spec_text(),
    {
        let mut out: Vec<u8> = Vec::new();
        print_at(self.reg, self.tbl, self.val, &mut out);
        assert(out@ =~= self.spec_text());
        out
    }

    /// The canonical text of the value.
    pub fn to_string(&self) -> (r: String)
        requires
            self.reg.wf(),
            self.val.idx < self.reg.len(),
        ensures
            vstd::utf8::valid_utf8(self.spec_text()) ==> r@ == vstd::utf8::decode_utf8(
                self.spec_text(),
            ),
    {
        let bytes: Vec<u8> = self.to_bytes();
        text_of(&bytes)
    }
}

} // verus!
