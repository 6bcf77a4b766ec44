//! The canonical text of a value is well-formed UTF-8 where its strings
//! and the names of its symbols are.

use vstd::prelude::*;
use vstd::string::StringSliceAdditionalSpecFns;
use vstd::utf8::{valid_utf8, pop_first_scalar, valid_utf8_concat, encode_utf8_valid_utf8};
use crate::ascii::{LPAREN, RPAREN, LBRACKET, RBRACKET, LBRACE, RBRACE, DQUOTE, GREATER, SPACE};
use crate::form::Tree;
use crate::grammar::{TokenClass, allowed};
use crate::kinds::lemma_valid_after_ascii;
use crate::number::{int_text, nat_text, lemma_nat_text_value};
use crate::printer::{render, chain_text, joined, entry_text, bucket_text, buckets_text, drop_first, sym_text, sigil, err_name};
use crate::roundtrip::{printable, printable_chain, token_bytes};
use crate::symbol::{spec_demodes, spec_mode_of};

verus! {

/// The strings of the value, the literals of its floats and the names of
/// its symbols are well-formed UTF-8.
pub open spec fn utf8_ok(t: Tree, table: Seq<Seq<u8>>) -> bool
    decreases t,
{
    match t {
        Tree::Float(x) => valid_utf8(x),
        Tree::Str(b) => valid_utf8(b),
        Tree::Sym(id) => spec_demodes(id) < table.len() ==> valid_utf8(
            table[spec_demodes(id) as int],
        ),
        Tree::Cell(v, n) => utf8_ok(*v, table) && utf8_ok(*n, table),
        Tree::Vector(items) => forall|i: int|
            0 <= i < items.len() ==> utf8_ok(#[trigger] items[i], table),
        Tree::Hash(buckets) => forall|i: int|
            0 <= i < buckets.len() ==> utf8_ok(#[trigger] buckets[i], table),
        _ => true,
    }
}

/// Text of ASCII bytes is well-formed.
pub proof fn lemma_ascii_valid(s: Seq<u8>)
    requires
        forall|i: int| 0 <= i < s.len() ==> #[trigger] s[i] < 128,
    ensures
        valid_utf8(s),
    decreases s.len(),
{
    if s.len() > 0 {
        assert(s[0] < 128);
        let rest = s.subrange(1, s.len() as int);
        assert(pop_first_scalar(s) =~= rest);
        assert forall|i: int| 0 <= i < rest.len() implies #[trigger] rest[i] < 128 by {
            assert(rest[i] == s[i + 1]);
        }
        lemma_ascii_valid(rest);
    }
}

/// The bytes of a token are ASCII, so a token is well-formed.
pub proof fn lemma_token_valid(txt: Seq<u8>, class: TokenClass)
    requires
        token_bytes(txt, class),
    ensures
        valid_utf8(txt),
{
    assert forall|i: int| 0 <= i < txt.len() implies #[trigger] txt[i] < 128 by {
        assert(allowed(class, txt[i]));
    }
    lemma_ascii_valid(txt);
}

/// The decimal text of an integer is well-formed.
pub proof fn lemma_int_text_valid(n: int)
    ensures
        valid_utf8(int_text(n)),
{
    let s = int_text(n);
    if n < 0 {
        lemma_nat_text_value((-n) as nat);
        assert forall|i: int| 0 <= i < s.len() implies #[trigger] s[i] < 128 by {
            if i > 0 {
                assert(s[i] == nat_text((-n) as nat)[i - 1]);
            }
        }
    } else {
        lemma_nat_text_value(n as nat);
    }
    lemma_ascii_valid(s);
}

/// The text of a symbol is well-formed where its name is.
pub proof fn lemma_sym_text_valid(id: u32, table: Seq<Seq<u8>>)
    requires
        utf8_ok(Tree::Sym(id), table),
    ensures
        valid_utf8(sym_text(id, table)),
{
    lemma_ascii_valid(sigil(spec_mode_of(id)));
    encode_utf8_valid_utf8("<$other>"@);
    let n = spec_demodes(id) as int;
    if n < table.len() {
        valid_utf8_concat(sigil(spec_mode_of(id)), table[n]);
    } else {
        valid_utf8_concat(sigil(spec_mode_of(id)), "<$other>".spec_bytes());
    }
}

/// The canonical text of a value is well-formed UTF-8 where the value's
/// strings, float literals and symbol names are; and so are the texts of a
/// chain, of a map entry and of a bucket.
pub proof fn lemma_render_valid(t: Tree, table: Seq<Seq<u8>>)
    requires
        utf8_ok(t, table),
    ensures
        valid_utf8(render(t, table)),
        valid_utf8(chain_text(t, table)),
        valid_utf8(bucket_text(t, table)),
        valid_utf8(entry_text(t, table)),
        bucket_text(t, table).len() > 0 ==> bucket_text(t, table)[0] == SPACE,
    decreases t, 1int, 0int,
{
    lemma_ascii_valid(Seq::<u8>::empty());
    lemma_ascii_valid(seq![LPAREN]);
    lemma_ascii_valid(seq![RPAREN]);
    lemma_ascii_valid(seq![SPACE]);
    lemma_ascii_valid(seq![LPAREN, RPAREN]);
    lemma_ascii_valid(seq![LPAREN, RPAREN, SPACE, LPAREN, RPAREN]);
    match t {
        Tree::Nil => {},
        Tree::Bool(b) => {
            lemma_ascii_valid(render(t, table));
        },
        Tree::Int(n) => {
            lemma_int_text_valid(n as int);
        },
        Tree::Float(x) => {},
        Tree::Sym(id) => {
            lemma_sym_text_valid(id, table);
        },
        Tree::Str(b) => {
            lemma_ascii_valid(seq![DQUOTE]);
            valid_utf8_concat(seq![DQUOTE], b);
            valid_utf8_concat(seq![DQUOTE] + b, seq![DQUOTE]);
        },
        Tree::ErrCode(e) => {
            encode_utf8_valid_utf8("<err: "@);
            encode_utf8_valid_utf8("ErrorUnknown"@);
            encode_utf8_valid_utf8("ParseUnexpectedEnd"@);
            encode_utf8_valid_utf8("ParseBadSpecial"@);
            encode_utf8_valid_utf8("ParseInvalidChar"@);
            encode_utf8_valid_utf8("ParseInvalidString"@);
            encode_utf8_valid_utf8("ParseInvalidNum"@);
            encode_utf8_valid_utf8("FileCouldNotRead"@);
            lemma_ascii_valid(seq![GREATER]);
            valid_utf8_concat("<err: ".spec_bytes(), err_name(e));
            valid_utf8_concat("<err: ".spec_bytes() + err_name(e), seq![GREATER]);
        },
        Tree::Cell(v, n) => {
            lemma_render_valid(*v, table);
            lemma_render_valid(*n, table);
            let rv = render(*v, table);
            let cn = chain_text(*n, table);
            valid_utf8_concat(seq![LPAREN], rv);
            valid_utf8_concat(seq![LPAREN] + rv, cn);
            valid_utf8_concat(seq![LPAREN] + rv + cn, seq![RPAREN]);
            valid_utf8_concat(seq![SPACE], rv);
            valid_utf8_concat(seq![SPACE] + rv, cn);
            let ev = entry_text(*v, table);
            let bn = bucket_text(*n, table);
            valid_utf8_concat(seq![SPACE], ev);
            valid_utf8_concat(seq![SPACE] + ev, bn);
            assert(bucket_text(t, table)[0] == SPACE);
            valid_utf8_concat(rv, seq![SPACE]);
            match *n {
                Tree::Cell(v2, n2) => {
                    assert(utf8_ok(*n, table));
                    assert(utf8_ok(*v2, table));
                    lemma_render_valid(*v2, table);
                    valid_utf8_concat(rv + seq![SPACE], render(*v2, table));
                },
                _ => {
                    valid_utf8_concat(rv + seq![SPACE], seq![LPAREN, RPAREN]);
                },
            }
        },
        Tree::Vector(items) => {
            lemma_joined_valid(t, table, items.len());
            lemma_ascii_valid(seq![LBRACKET]);
            lemma_ascii_valid(seq![RBRACKET]);
            let body = joined(items, table, items.len());
            valid_utf8_concat(seq![LBRACKET], body);
            valid_utf8_concat(seq![LBRACKET] + body, seq![RBRACKET]);
        },
        Tree::Hash(buckets) => {
            lemma_buckets_valid(t, table, buckets.len());
            lemma_ascii_valid(seq![LBRACE]);
            lemma_ascii_valid(seq![RBRACE]);
            let body = buckets_text(buckets, table, buckets.len());
            if body.len() > 0 {
                lemma_valid_after_ascii(body, 0);
                assert(body.subrange(1, body.len() as int) =~= body.skip(1));
            }
            let inner = drop_first(body);
            valid_utf8_concat(seq![LBRACE], inner);
            valid_utf8_concat(seq![LBRACE] + inner, seq![RBRACE]);
        },
        Tree::Proc => {
            encode_utf8_valid_utf8("<$proc>"@);
        },
        Tree::CoreOther => {
            encode_utf8_valid_utf8("<@core/$other>"@);
        },
        Tree::Other => {
            encode_utf8_valid_utf8("<$other>"@);
        },
    }
}

/// The first `k` items of a vector, joined, are well-formed text.
pub proof fn lemma_joined_valid(t: Tree, table: Seq<Seq<u8>>, k: nat)
    requires
        t is Vector,
        utf8_ok(t, table),
        k <= t->Vector_0.len(),
    ensures
        valid_utf8(joined(t->Vector_0, table, k)),
    decreases t, 0int, k,
{
    let items = t->Vector_0;
    lemma_ascii_valid(Seq::<u8>::empty());
    if k >= 1 {
        assert(utf8_ok(items[k - 1], table));
        lemma_render_valid(items[k - 1], table);
        if k >= 2 {
            lemma_joined_valid(t, table, (k - 1) as nat);
            lemma_ascii_valid(seq![SPACE]);
            let before = joined(items, table, (k - 1) as nat);
            valid_utf8_concat(before, seq![SPACE]);
            valid_utf8_concat(before + seq![SPACE], render(items[k - 1], table));
        }
    }
}

/// The entries of the first `k` buckets of a map are well-formed text,
/// which starts with a space if it is not empty.
pub proof fn lemma_buckets_valid(t: Tree, table: Seq<Seq<u8>>, k: nat)
    requires
        t is Hash,
        utf8_ok(t, table),
        k <= t->Hash_0.len(),
    ensures
        valid_utf8(buckets_text(t->Hash_0, table, k)),
        buckets_text(t->Hash_0, table, k).len() > 0 ==> buckets_text(t->Hash_0, table, k)[0]
            == SPACE,
    decreases t, 0int, k,
{
    let buckets = t->Hash_0;
    lemma_ascii_valid(Seq::<u8>::empty());
    if k >= 1 {
        assert(utf8_ok(buckets[k - 1], table));
        lemma_render_valid(buckets[k - 1], table);
        lemma_buckets_valid(t, table, (k - 1) as nat);
        valid_utf8_concat(
            buckets_text(buckets, table, (k - 1) as nat),
            bucket_text(buckets[k - 1], table),
        );
    }
}

/// A printable value, as the reader makes them, has well-formed strings,
/// float literals and symbol names: so its canonical text is well-formed
/// UTF-8, and `to_string` gives exactly that text.
pub proof fn lemma_printable_utf8_ok(t: Tree, table: Seq<Seq<u8>>)
    ensures
        printable(t, table) ==> utf8_ok(t, table),
        printable_chain(t, table) ==> utf8_ok(t, table),
        printable(t, table) ==> valid_utf8(render(t, table)),
    decreases t,
{
    match t {
        Tree::Float(x) => {
            if printable(t, table) {
                lemma_token_valid(x, TokenClass::Number);
            }
        },
        Tree::Sym(id) => {
            if printable(t, table) {
                let name = table[spec_demodes(id) as int];
                if token_bytes(name, TokenClass::Symbol) {
                    lemma_token_valid(name, TokenClass::Symbol);
                } else {
                    lemma_token_valid(name, TokenClass::SpecSym);
                }
            }
        },
        Tree::Cell(v, n) => {
            lemma_printable_utf8_ok(*v, table);
            lemma_printable_utf8_ok(*n, table);
        },
        Tree::Vector(items) => {
            if printable(t, table) {
                assert forall|i: int| 0 <= i < items.len() implies utf8_ok(
                    #[trigger] items[i],
                    table,
                ) by {
                    lemma_printable_utf8_ok(items[i], table);
                }
            }
        },
        _ => {},
    }
    if printable(t, table) {
        lemma_render_valid(t, table);
    }
}

/// The printed text is a fixed point of reading and printing, as the
/// executable functions see it. For a text whose value has no map in it:
/// the canonical text of the value is well-formed UTF-8, so `to_string`
/// gives the string of exactly those bytes; `parse` of that string succeeds
/// on the table that the first reading left, the symbol table stays as it
/// is, and the value prints as the same text again.
pub proof fn lemma_printed_text_reads_back(code: Seq<u8>, file: bool, table: Seq<Seq<u8>>)
    requires
        crate::stab::distinct(table),
        table.len() <= 0x4000_0000,
        crate::roundtrip::quote_known(table),
        crate::grammar::spec_read(code, file, table) is Ok,
        crate::roundtrip::no_maps(crate::grammar::spec_read(code, file, table)->Ok_0.0),
    ensures
        ({
            let (tree, end, after) = crate::grammar::spec_read(code, file, table)->Ok_0;
            let text = render(tree, after);
            let again = vstd::utf8::encode_utf8(vstd::utf8::decode_utf8(text));
            &&& valid_utf8(text)
            &&& again == text
            &&& crate::grammar::spec_read(again, false, after) == Ok::<
                (Tree, int, Seq<Seq<u8>>),
                (crate::error::SlErrCode, Seq<Seq<u8>>),
            >((tree, text.len() as int, after))
        }),
{
    let s = crate::grammar::source_text(code, file);
    crate::roundtrip::lemma_value_printable(s, 0, table);
    let (tree, end, after) = crate::grammar::spec_read(code, file, table)->Ok_0;
    lemma_printable_utf8_ok(tree, after);
    let text = render(tree, after);
    vstd::utf8::decode_utf8_encode_utf8(text);
    crate::roundtrip::lemma_round_trip(tree, after);
}

} // verus!
