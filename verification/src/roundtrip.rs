//! Printing and reading are inverse: the canonical text of a value, read
//! again, is that value.

use vstd::prelude::*;
use crate::ascii::{LBRACE, RBRACE, QUOTE, PLUS, LPAREN, RPAREN, LBRACKET, RBRACKET, COLON, DOLLAR, AT, DQUOTE, HASH, MINUS, STAR, SLASH, LESS, EQUALS, GREATER, UNDERSCORE, SPACE, SEMICOLON};
use crate::env::{SP_QUOTE, spec_predefined_name, lemma_predefined_bytes};
use crate::error::SlErrCode;
use crate::form::Tree;
use crate::grammar::{TokenClass, is_space, is_delim, is_alpha, allowed, spec_token_end, spec_find, spec_skip_blank, list_from, list_of, spec_process_num, spec_special, spec_read_symbol, spec_read_spec_sym, spec_read_string, spec_read_number, spec_read_value, spec_read_items};
use crate::number::{is_digit, is_sign, nat_text, int_text, spec_parse_int, is_float_literal, lemma_nat_text_value, lemma_int_reads_back};
use crate::printer::{render, chain_text, joined, sym_text, sigil};
use crate::stab::{distinct, spec_intern, lemma_intern_keeps};
use crate::symbol::{SymbolMode, spec_demodes, spec_mode_of, spec_modeize, lemma_mode_round_trip};

verus! {

/// The bytes `txt` stand in `s` from position `pos` on.
pub open spec fn stands_at(s: Seq<u8>, pos: int, txt: Seq<u8>) -> bool {
    0 <= pos && pos + txt.len() <= s.len() && s.subrange(pos, pos + txt.len()) == txt
}

/// A token may end at `p`: the text ends there, or a delimiter stands there.
pub open spec fn ends_at(s: Seq<u8>, p: int) -> bool {
    p == s.len() || (0 <= p < s.len() && is_delim(s[p]))
}

/// Every byte of `txt` belongs to the alphabet of the class.
pub open spec fn token_bytes(txt: Seq<u8>, class: TokenClass) -> bool {
    forall|i: int| 0 <= i < txt.len() ==> allowed(class, #[trigger] txt[i])
}

/// A byte that can start a basic symbol whatever follows.
pub open spec fn symbol_start(c: u8) -> bool {
    is_alpha(c) || c == STAR || c == SLASH || c == LESS || c == EQUALS || c == GREATER || c
        == UNDERSCORE
}

/// A symbol that the reader can produce: its name is interned, not empty
/// and made of the bytes of its class; a basic symbol does not start like a
/// number or a form of another kind.
pub open spec fn printable_sym(id: u32, table: Seq<Seq<u8>>) -> bool {
    let idx = spec_demodes(id) as int;
    &&& idx < table.len()
    &&& table[idx].len() > 0
    &&& if spec_mode_of(id) == SymbolMode::Basic {
        &&& token_bytes(table[idx], TokenClass::Symbol)
        &&& (symbol_start(table[idx][0]) || (is_sign(table[idx][0]) && (table[idx].len() >= 2
            ==> !is_digit(table[idx][1]))))
    } else {
        token_bytes(table[idx], TokenClass::SpecSym)
    }
}

/// A float literal that the reader can produce.
pub open spec fn printable_float(x: Seq<u8>) -> bool {
    &&& x.len() > 0
    &&& token_bytes(x, TokenClass::Number)
    &&& is_float_literal(x)
    &&& spec_parse_int(x) is None
    &&& (is_digit(x[0]) || (is_sign(x[0]) && x.len() >= 2 && is_digit(x[1])))
}

/// A string that the reader can produce: well-formed, without a double quote.
pub open spec fn printable_str(b: Seq<u8>) -> bool {
    vstd::utf8::valid_utf8(b) && forall|i: int| 0 <= i < b.len() ==> #[trigger] b[i] != DQUOTE
}

/// Where `a` followed by `b` stands, `a` stands, and `b` stands after it.
pub proof fn lemma_stands_split(s: Seq<u8>, pos: int, a: Seq<u8>, b: Seq<u8>)
    requires
        stands_at(s, pos, a + b),
    ensures
        stands_at(s, pos, a),
        stands_at(s, pos + a.len(), b),
{
    let whole = s.subrange(pos, pos + (a + b).len());
    assert(s.subrange(pos, pos + a.len()) =~= a) by {
        assert forall|i: int| 0 <= i < a.len() implies s.subrange(pos, pos + a.len())[i]
            == a[i] by {
            assert(whole[i] == (a + b)[i]);
        }
    }
    assert(s.subrange(pos + a.len(), pos + a.len() + b.len()) =~= b) by {
        assert forall|i: int| 0 <= i < b.len() implies s.subrange(
            pos + a.len(),
            pos + a.len() + b.len(),
        )[i] == b[i] by {
            assert(whole[a.len() + i] == (a + b)[a.len() + i]);
        }
    }
}

/// Where `txt` stands, its bytes stand.
pub proof fn lemma_stands_index(s: Seq<u8>, pos: int, txt: Seq<u8>, i: int)
    requires
        stands_at(s, pos, txt),
        0 <= i < txt.len(),
    ensures
        s[pos + i] == txt[i],
{
    assert(s.subrange(pos, pos + txt.len())[i] == s[pos + i]);
}

/// A run of bytes of a class, followed by the end or a delimiter, is one token.
pub proof fn lemma_token_run(s: Seq<u8>, pos: int, txt: Seq<u8>, class: TokenClass)
    requires
        stands_at(s, pos, txt),
        token_bytes(txt, class),
        ends_at(s, pos + txt.len()),
    ensures
        spec_token_end(s, pos, class) == Ok::<int, SlErrCode>(pos + txt.len()),
    decreases txt.len(),
{
    if txt.len() > 0 {
        lemma_stands_index(s, pos, txt, 0);
        assert(allowed(class, txt[0]));
        assert(txt =~= txt.take(1) + txt.skip(1));
        lemma_stands_split(s, pos, txt.take(1), txt.skip(1));
        assert forall|i: int| 0 <= i < txt.skip(1).len() implies allowed(
            class,
            #[trigger] txt.skip(1)[i],
        ) by {
            assert(txt.skip(1)[i] == txt[i + 1]);
        }
        lemma_token_run(s, pos + 1, txt.skip(1), class);
    }
}

/// The first byte `c` after a run of bytes without it is found at its end.
pub proof fn lemma_find_run(s: Seq<u8>, pos: int, txt: Seq<u8>, c: u8)
    requires
        stands_at(s, pos, txt),
        forall|i: int| 0 <= i < txt.len() ==> #[trigger] txt[i] != c,
        pos + txt.len() < s.len(),
        s[pos + txt.len()] == c,
    ensures
        spec_find(s, pos, c) == pos + txt.len(),
    decreases txt.len(),
{
    if txt.len() > 0 {
        lemma_stands_index(s, pos, txt, 0);
        assert(txt[0] != c);
        assert(txt =~= txt.take(1) + txt.skip(1));
        lemma_stands_split(s, pos, txt.take(1), txt.skip(1));
        assert forall|i: int| 0 <= i < txt.skip(1).len() implies #[trigger] txt.skip(1)[i]
            != c by {
            assert(txt.skip(1)[i] == txt[i + 1]);
        }
        lemma_find_run(s, pos + 1, txt.skip(1), c);
    }
}

/// The name index and the mode of an id make up the id.
pub proof fn lemma_id_from_parts(id: u32)
    ensures
        spec_modeize(spec_demodes(id), spec_mode_of(id)) == id,
        spec_mode_of(id) == SymbolMode::Basic ==> spec_demodes(id) == id,
{
}

/// In a table without repetitions a name is found where it stands.
pub proof fn lemma_intern_known(table: Seq<Seq<u8>>, idx: int)
    requires
        distinct(table),
        0 <= idx < table.len(),
        table.len() <= 0x4000_0000,
    ensures
        spec_intern(table, table[idx]) == Some((idx as u32, table)),
{
    assert(table.contains(table[idx]));
    let j = table.index_of(table[idx]);
    assert(table[j] == table[idx]);
    if j < idx {
    } else if idx < j {
    }
}

/// A value of the literal subset, as the reader produces it: booleans,
/// integers, floats, symbols, strings, vectors and proper lists of such.
pub open spec fn printable(t: Tree, table: Seq<Seq<u8>>) -> bool
    decreases t,
{
    match t {
        Tree::Nil => true,
        Tree::Bool(_) => true,
        Tree::Int(_) => true,
        Tree::Float(x) => printable_float(x),
        Tree::Sym(id) => printable_sym(id, table),
        Tree::Str(b) => printable_str(b),
        Tree::Cell(v, n) => printable(*v, table) && printable_chain(*n, table),
        Tree::Vector(items) => forall|i: int|
            0 <= i < items.len() ==> printable(#[trigger] items[i], table),
        _ => false,
    }
}

/// The rest of a proper list: nil, or a cell with a printable value and such
/// a rest.
pub open spec fn printable_chain(t: Tree, table: Seq<Seq<u8>>) -> bool
    decreases t,
{
    match t {
        Tree::Nil => true,
        Tree::Cell(v, n) => printable(*v, table) && printable_chain(*n, table),
        _ => false,
    }
}

/// The values of the cells of a chain, in order.
pub open spec fn elems(t: Tree) -> Seq<Tree>
    decreases t,
{
    match t {
        Tree::Cell(v, n) => seq![*v] + elems(*n),
        _ => Seq::empty(),
    }
}

/// What is left of the text of a vector when `k` of its items are read: a
/// space before each item but the first, and the closing bracket.
pub open spec fn vec_tail(items: Seq<Tree>, table: Seq<Seq<u8>>, k: int) -> Seq<u8>
    decreases items.len() - k,
{
    if k < 0 || k >= items.len() {
        seq![RBRACKET]
    } else {
        (if k > 0 {
            seq![SPACE]
        } else {
            Seq::empty()
        }) + render(items[k], table) + vec_tail(items, table, k + 1)
    }
}

/// The text of a form starts with a byte that is no blank, no comment mark
/// and no closing bracket.
pub open spec fn form_start(c: u8) -> bool {
    !is_space(c) && c != SEMICOLON && c != RPAREN && c != RBRACKET
}

/// The canonical text of a printable value is not empty and starts like a form.
pub proof fn lemma_first_byte(t: Tree, table: Seq<Seq<u8>>)
    requires
        printable(t, table),
    ensures
        render(t, table).len() > 0,
        form_start(render(t, table)[0]),
{
    match t {
        Tree::Int(n) => {
            if n < 0 {
            } else {
                lemma_nat_text_value(n as nat);
                assert(is_digit(nat_text(n as nat)[0]));
            }
        },
        Tree::Float(x) => {},
        Tree::Sym(id) => {
            let idx = spec_demodes(id) as int;
            let name = table[idx];
            assert(allowed(TokenClass::Symbol, name[0]) || allowed(TokenClass::SpecSym, name[0]));
            if spec_mode_of(id) == SymbolMode::Basic {
                assert(render(t, table) =~= name);
            } else {
                assert(render(t, table)[0] == sigil(spec_mode_of(id))[0]);
            }
        },
        _ => {},
    }
}

/// The text of nil reads back as nil.
pub proof fn lemma_nil_reads_back(s: Seq<u8>, pos: int, table: Seq<Seq<u8>>)
    requires
        stands_at(s, pos, seq![LPAREN, RPAREN]),
    ensures
        spec_read_value(s, pos, table) == Ok::<(Tree, int, Seq<Seq<u8>>), (SlErrCode, Seq<Seq<u8>>)>(
            (Tree::Nil, pos + 2, table),
        ),
{
    let txt = seq![LPAREN, RPAREN];
    lemma_stands_index(s, pos, txt, 0);
    lemma_stands_index(s, pos, txt, 1);
    assert(spec_skip_blank(s, pos) == Ok::<int, SlErrCode>(pos));
    assert(spec_read_items(s, pos + 1, table, RPAREN, Seq::empty()) == Ok::<
        (Seq<Tree>, int, Seq<Seq<u8>>),
        (SlErrCode, Seq<Seq<u8>>),
    >((Seq::empty(), pos + 2, table)));
    assert(list_of(Seq::<Tree>::empty()) == Tree::Nil);
}

/// The text of a boolean reads back as that boolean.
pub proof fn lemma_bool_reads_back(s: Seq<u8>, pos: int, b: bool, table: Seq<Seq<u8>>)
    requires
        stands_at(s, pos, render(Tree::Bool(b), table)),
        ends_at(s, pos + 2),
    ensures
        spec_read_value(s, pos, table) == Ok::<(Tree, int, Seq<Seq<u8>>), (SlErrCode, Seq<Seq<u8>>)>(
            (Tree::Bool(b), pos + 2, table),
        ),
{
    let txt = render(Tree::Bool(b), table);
    lemma_stands_index(s, pos, txt, 0);
    lemma_stands_index(s, pos, txt, 1);
    assert(spec_skip_blank(s, pos) == Ok::<int, SlErrCode>(pos));
    assert(txt =~= txt.take(1) + txt.skip(1));
    lemma_stands_split(s, pos, txt.take(1), txt.skip(1));
    assert(allowed(TokenClass::Special, txt.skip(1)[0]));
    lemma_token_run(s, pos + 1, txt.skip(1), TokenClass::Special);
    assert(s.subrange(pos + 1, pos + 2) == txt.skip(1));
    assert(spec_special(txt.skip(1)) == Ok::<Tree, SlErrCode>(Tree::Bool(b)));
}

/// A number token, which starts with a digit or with a sign and a digit,
/// is read as a number.
pub proof fn lemma_number_reads_back(s: Seq<u8>, pos: int, txt: Seq<u8>, table: Seq<Seq<u8>>)
    requires
        stands_at(s, pos, txt),
        ends_at(s, pos + txt.len()),
        txt.len() > 0,
        token_bytes(txt, TokenClass::Number),
        is_digit(txt[0]) || (is_sign(txt[0]) && txt.len() >= 2 && is_digit(txt[1])),
    ensures
        spec_read_value(s, pos, table) == (match spec_process_num(txt) {
            Ok(tree) => Ok::<(Tree, int, Seq<Seq<u8>>), (SlErrCode, Seq<Seq<u8>>)>(
                (tree, pos + txt.len(), table),
            ),
            Err(e) => Err((e, table)),
        }),
{
    lemma_stands_index(s, pos, txt, 0);
    if txt.len() >= 2 {
        lemma_stands_index(s, pos, txt, 1);
    }
    assert(spec_skip_blank(s, pos) == Ok::<int, SlErrCode>(pos));
    lemma_token_run(s, pos, txt, TokenClass::Number);
    assert(spec_read_value(s, pos, table) == spec_read_number(s, pos, table));
}

/// The text of a printable symbol reads back as that symbol, and interns
/// nothing new.
pub proof fn lemma_sym_reads_back(s: Seq<u8>, pos: int, id: u32, table: Seq<Seq<u8>>)
    requires
        distinct(table),
        table.len() <= 0x4000_0000,
        printable_sym(id, table),
        stands_at(s, pos, sym_text(id, table)),
        ends_at(s, pos + sym_text(id, table).len()),
    ensures
        spec_read_value(s, pos, table) == Ok::<(Tree, int, Seq<Seq<u8>>), (SlErrCode, Seq<Seq<u8>>)>(
            (Tree::Sym(id), pos + sym_text(id, table).len(), table),
        ),
{
    let idx = spec_demodes(id) as int;
    let name = table[idx];
    let txt = sym_text(id, table);
    lemma_id_from_parts(id);
    lemma_intern_known(table, idx);
    lemma_stands_index(s, pos, txt, 0);
    if spec_mode_of(id) == SymbolMode::Basic {
        assert(txt =~= name);
        assert(allowed(TokenClass::Symbol, name[0]));
        assert(spec_skip_blank(s, pos) == Ok::<int, SlErrCode>(pos));
        lemma_token_run(s, pos, name, TokenClass::Symbol);
        if name.len() >= 2 {
            lemma_stands_index(s, pos, txt, 1);
        }
        assert(spec_read_value(s, pos, table) == spec_read_symbol(s, pos, table));
    } else {
        let sg = sigil(spec_mode_of(id));
        assert(sg.len() == 1);
        assert(txt == sg + name);
        lemma_stands_split(s, pos, sg, name);
        assert(txt[0] == sg[0]);
        assert(spec_skip_blank(s, pos) == Ok::<int, SlErrCode>(pos));
        lemma_token_run(s, pos + 1, name, TokenClass::SpecSym);
        assert(spec_read_value(s, pos, table) == spec_read_spec_sym(
            s,
            pos + 1,
            table,
            spec_mode_of(id),
        ));
    }
}

/// The text of a printable string reads back as that string.
pub proof fn lemma_str_reads_back(s: Seq<u8>, pos: int, b: Seq<u8>, table: Seq<Seq<u8>>)
    requires
        printable_str(b),
        stands_at(s, pos, render(Tree::Str(b), table)),
    ensures
        spec_read_value(s, pos, table) == Ok::<(Tree, int, Seq<Seq<u8>>), (SlErrCode, Seq<Seq<u8>>)>(
            (Tree::Str(b), pos + b.len() + 2, table),
        ),
{
    let txt = render(Tree::Str(b), table);
    assert(txt == (seq![DQUOTE] + b) + seq![DQUOTE]);
    lemma_stands_index(s, pos, txt, 0);
    lemma_stands_index(s, pos, txt, 1 + b.len() as int);
    lemma_stands_split(s, pos, seq![DQUOTE] + b, seq![DQUOTE]);
    lemma_stands_split(s, pos, seq![DQUOTE], b);
    assert(spec_skip_blank(s, pos) == Ok::<int, SlErrCode>(pos));
    lemma_find_run(s, pos + 1, b, DQUOTE);
    assert(s.subrange(pos + 1, pos + 1 + b.len()) == b);
    assert(spec_read_value(s, pos, table) == spec_read_string(s, pos + 1, table));
}

/// The text of a chain from its first value on: the values with a space
/// between neighbours, and the closing parenthesis.
pub open spec fn chain_tail(c: Tree, table: Seq<Seq<u8>>) -> Seq<u8> {
    match c {
        Tree::Cell(v, n) => render(*v, table) + chain_text(*n, table) + seq![RPAREN],
        _ => seq![RPAREN],
    }
}

/// The list of the values of a proper chain, from index `k` on, is the chain
/// from its cell `k` on; so the list of all of them is the chain.
pub proof fn lemma_list_of_elems(c: Tree, table: Seq<Seq<u8>>)
    requires
        printable_chain(c, table),
    ensures
        list_of(elems(c)) == c,
    decreases c,
{
    match c {
        Tree::Cell(v, n) => {
            lemma_list_of_elems(*n, table);
            lemma_list_shift(*v, elems(*n), 0);
            assert(elems(c)[0] == *v);
        },
        _ => {},
    }
}

/// A list behind one more item is the list, one index later.
pub proof fn lemma_list_shift(v: Tree, rest: Seq<Tree>, k: int)
    requires
        0 <= k,
    ensures
        list_from(seq![v] + rest, k + 1) == list_from(rest, k),
    decreases rest.len() - k,
{
    if k < rest.len() {
        lemma_list_shift(v, rest, k + 1);
        assert((seq![v] + rest)[k + 1] == rest[k]);
    }
}

/// The decimal text of an integer, wherever it stands, reads back as that
/// integer.
pub proof fn lemma_int_reads_back_at(s: Seq<u8>, pos: int, n: i64, table: Seq<Seq<u8>>)
    requires
        stands_at(s, pos, int_text(n as int)),
        ends_at(s, pos + int_text(n as int).len()),
    ensures
        spec_read_value(s, pos, table) == Ok::<(Tree, int, Seq<Seq<u8>>), (SlErrCode, Seq<Seq<u8>>)>(
            (Tree::Int(n), pos + int_text(n as int).len(), table),
        ),
{
    let txt = int_text(n as int);
    lemma_int_reads_back(n);
    if n < 0 {
        lemma_nat_text_value((-(n as int)) as nat);
        assert(txt[1] == nat_text((-(n as int)) as nat)[0]);
        assert forall|i: int| 0 <= i < txt.len() implies allowed(
            TokenClass::Number,
            #[trigger] txt[i],
        ) by {
            if i > 0 {
                assert(txt[i] == nat_text((-(n as int)) as nat)[i - 1]);
            }
        }
    } else {
        lemma_nat_text_value(n as nat);
    }
    lemma_number_reads_back(s, pos, txt, table);
}

/// The canonical text of a printable value, wherever it stands, reads back
/// as that value; the reader stops right after it and interns nothing new.
pub proof fn lemma_reads_back(s: Seq<u8>, pos: int, t: Tree, table: Seq<Seq<u8>>)
    requires
        distinct(table),
        table.len() <= 0x4000_0000,
        printable(t, table),
        stands_at(s, pos, render(t, table)),
        ends_at(s, pos + render(t, table).len()),
    ensures
        spec_read_value(s, pos, table) == Ok::<(Tree, int, Seq<Seq<u8>>), (SlErrCode, Seq<Seq<u8>>)>(
            (t, pos + render(t, table).len(), table),
        ),
    decreases t, 2int, 0int,
{
    match t {
        Tree::Nil => {
            lemma_nil_reads_back(s, pos, table);
        },
        Tree::Bool(b) => {
            lemma_bool_reads_back(s, pos, b, table);
        },
        Tree::Int(n) => {
            lemma_int_reads_back_at(s, pos, n, table);
        },
        Tree::Float(x) => {
            lemma_number_reads_back(s, pos, x, table);
        },
        Tree::Sym(id) => {
            lemma_sym_reads_back(s, pos, id, table);
        },
        Tree::Str(b) => {
            lemma_str_reads_back(s, pos, b, table);
        },
        Tree::Cell(v, n) => {
            lemma_cell_reads_back(s, pos, t, table);
        },
        Tree::Vector(items) => {
            lemma_vector_reads_back(s, pos, t, table);
        },
        _ => {},
    }
}

/// The text of a proper list reads back as that list.
pub proof fn lemma_cell_reads_back(s: Seq<u8>, pos: int, t: Tree, table: Seq<Seq<u8>>)
    requires
        distinct(table),
        table.len() <= 0x4000_0000,
        t is Cell,
        printable(t, table),
        stands_at(s, pos, render(t, table)),
    ensures
        spec_read_value(s, pos, table) == Ok::<(Tree, int, Seq<Seq<u8>>), (SlErrCode, Seq<Seq<u8>>)>(
            (t, pos + render(t, table).len(), table),
        ),
    decreases t, 1int, 0int,
{
    let body = chain_tail(t, table);
    assert(render(t, table) =~= seq![LPAREN] + body);
    lemma_stands_split(s, pos, seq![LPAREN], body);
    lemma_stands_index(s, pos, render(t, table), 0);
    assert(spec_skip_blank(s, pos) == Ok::<int, SlErrCode>(pos));
    lemma_chain_reads(s, pos + 1, t, table, Seq::empty());
    lemma_list_of_elems(t, table);
    assert(Seq::<Tree>::empty() + elems(t) =~= elems(t));
}

/// The text of a vector of printable values reads back as that vector.
pub proof fn lemma_vector_reads_back(s: Seq<u8>, pos: int, t: Tree, table: Seq<Seq<u8>>)
    requires
        distinct(table),
        table.len() <= 0x4000_0000,
        t is Vector,
        printable(t, table),
        stands_at(s, pos, render(t, table)),
    ensures
        spec_read_value(s, pos, table) == Ok::<(Tree, int, Seq<Seq<u8>>), (SlErrCode, Seq<Seq<u8>>)>(
            (t, pos + render(t, table).len(), table),
        ),
    decreases t, 1int, 0int,
{
    let items = t->Vector_0;
    lemma_joined_tail(items, table, 0);
    let body = vec_tail(items, table, 0);
    assert(joined(items, table, 0) + body =~= body);
    assert(render(t, table) =~= seq![LBRACKET] + body);
    lemma_stands_split(s, pos, seq![LBRACKET], body);
    lemma_stands_index(s, pos, render(t, table), 0);
    assert(spec_skip_blank(s, pos) == Ok::<int, SlErrCode>(pos));
    assert(items.take(0) =~= Seq::<Tree>::empty());
    lemma_vec_reads(s, pos + 1, t, table, 0);
}

/// The values of a proper chain, whose text stands at `pos` with the closing
/// parenthesis after it, are read one after the other onto `acc`.
pub proof fn lemma_chain_reads(s: Seq<u8>, pos: int, c: Tree, table: Seq<Seq<u8>>, acc: Seq<Tree>)
    requires
        distinct(table),
        table.len() <= 0x4000_0000,
        c is Cell,
        printable_chain(c, table),
        stands_at(s, pos, chain_tail(c, table)),
    ensures
        spec_read_items(s, pos, table, RPAREN, acc) == Ok::<
            (Seq<Tree>, int, Seq<Seq<u8>>),
            (SlErrCode, Seq<Seq<u8>>),
        >((acc + elems(c), pos + chain_tail(c, table).len(), table)),
    decreases c, 0int, 0int,
{
    match c {
        Tree::Cell(v, n) => {
            let tv = render(*v, table);
            let rest = chain_text(*n, table) + seq![RPAREN];
            assert(chain_tail(c, table) =~= tv + rest);
            lemma_stands_split(s, pos, tv, rest);
            lemma_first_byte(*v, table);
            lemma_stands_index(s, pos, tv, 0);
            let q = pos + tv.len();
            match *n {
                Tree::Cell(v2, n2) => {
                    let next = chain_tail(*n, table);
                    assert(rest =~= seq![SPACE] + next);
                    lemma_stands_index(s, q, rest, 0);
                    lemma_stands_split(s, q, seq![SPACE], next);
                    lemma_reads_back(s, pos, *v, table);
                    lemma_chain_reads(s, q + 1, *n, table, acc.push(*v));
                    assert(acc.push(*v) + elems(*n) =~= acc + elems(c));
                    assert(spec_read_items(s, q, table, RPAREN, acc.push(*v)) == spec_read_items(
                        s,
                        q + 1,
                        table,
                        RPAREN,
                        acc.push(*v),
                    ));
                    assert(spec_read_items(s, pos, table, RPAREN, acc) == spec_read_items(
                        s,
                        q,
                        table,
                        RPAREN,
                        acc.push(*v),
                    ));
                },
                _ => {
                    assert(rest =~= seq![RPAREN]);
                    lemma_stands_index(s, q, rest, 0);
                    lemma_reads_back(s, pos, *v, table);
                    assert(elems(*n) =~= Seq::<Tree>::empty());
                    assert(acc.push(*v) =~= acc + elems(c));
                    assert(spec_read_items(s, q, table, RPAREN, acc.push(*v)) == Ok::<
                        (Seq<Tree>, int, Seq<Seq<u8>>),
                        (SlErrCode, Seq<Seq<u8>>),
                    >((acc.push(*v), q + 1, table)));
                    assert(spec_read_items(s, pos, table, RPAREN, acc) == spec_read_items(
                        s,
                        q,
                        table,
                        RPAREN,
                        acc.push(*v),
                    ));
                },
            }
        },
        _ => {},
    }
}

/// The text of the first `k` items and what is left after them make up the
/// text of the vector's inside and its closing bracket.
pub proof fn lemma_joined_tail(items: Seq<Tree>, table: Seq<Seq<u8>>, k: int)
    requires
        0 <= k <= items.len(),
    ensures
        joined(items, table, k as nat) + vec_tail(items, table, k) == joined(
            items,
            table,
            items.len(),
        ) + seq![RBRACKET],
    decreases items.len() - k,
{
    if k < items.len() {
        lemma_joined_tail(items, table, k + 1);
        assert(joined(items, table, k as nat) + vec_tail(items, table, k) =~= joined(
            items,
            table,
            (k + 1) as nat,
        ) + vec_tail(items, table, k + 1));
    }
}

/// The items of a vector from item `k` on, whose text stands at `pos` with
/// the closing bracket after it, are read one after the other onto the
/// first `k`.
pub proof fn lemma_vec_reads(s: Seq<u8>, pos: int, t: Tree, table: Seq<Seq<u8>>, k: int)
    requires
        distinct(table),
        table.len() <= 0x4000_0000,
        t is Vector,
        printable(t, table),
        0 <= k <= t->Vector_0.len(),
        stands_at(s, pos, vec_tail(t->Vector_0, table, k)),
    ensures
        spec_read_items(s, pos, table, RBRACKET, t->Vector_0.take(k)) == Ok::<
            (Seq<Tree>, int, Seq<Seq<u8>>),
            (SlErrCode, Seq<Seq<u8>>),
        >((t->Vector_0, pos + vec_tail(t->Vector_0, table, k).len(), table)),
    decreases t, 0int, t->Vector_0.len() - k,
{
    match t {
        Tree::Vector(items) => {
            let tail = vec_tail(items, table, k);
            if k == items.len() {
                assert(tail =~= seq![RBRACKET]);
                lemma_stands_index(s, pos, tail, 0);
                assert(items.take(k) =~= items);
            } else {
                let item = items[k];
                assert(printable(item, table));
                let tv = render(item, table);
                let rest = vec_tail(items, table, k + 1);
                lemma_first_byte(item, table);
                assert(rest.len() > 0 && is_delim(rest[0])) by {
                    if k + 1 < items.len() {
                        assert(rest =~= seq![SPACE] + (render(items[k + 1], table) + vec_tail(
                            items,
                            table,
                            k + 2,
                        )));
                    } else {
                        assert(rest =~= seq![RBRACKET]);
                    }
                }
                let p: int = if k > 0 { pos + 1 } else { pos };
                if k > 0 {
                    assert(tail =~= seq![SPACE] + (tv + rest));
                    lemma_stands_index(s, pos, tail, 0);
                    lemma_stands_split(s, pos, seq![SPACE], tv + rest);
                    assert(spec_read_items(s, pos, table, RBRACKET, items.take(k))
                        == spec_read_items(s, p, table, RBRACKET, items.take(k)));
                } else {
                    assert(tail =~= tv + rest);
                }
                lemma_stands_split(s, p, tv, rest);
                lemma_stands_index(s, p, tv, 0);
                lemma_stands_index(s, p + tv.len(), rest, 0);
                lemma_reads_back(s, p, item, table);
                assert(items.take(k).push(item) =~= items.take(k + 1));
                lemma_vec_reads(s, p + tv.len(), t, table, k + 1);
                assert(spec_read_items(s, p, table, RBRACKET, items.take(k)) == spec_read_items(
                    s,
                    p + tv.len(),
                    table,
                    RBRACKET,
                    items.take(k + 1),
                ));
            }
        },
        _ => {},
    }
}

/// Round trip: the canonical text of a value of the literal subset reads
/// back as the same value, so printing what was read reproduces the text.
pub proof fn lemma_round_trip(t: Tree, table: Seq<Seq<u8>>)
    requires
        distinct(table),
        table.len() <= 0x4000_0000,
        printable(t, table),
    ensures
        spec_read_value(render(t, table), 0, table) == Ok::<
            (Tree, int, Seq<Seq<u8>>),
            (SlErrCode, Seq<Seq<u8>>),
        >((t, render(t, table).len() as int, table)),
        crate::grammar::spec_read(render(t, table), false, table) matches Ok((back, end, after))
            && render(back, after) == render(t, table),
{
    let s = render(t, table);
    assert(s.subrange(0, s.len() as int) =~= s);
    lemma_reads_back(s, 0, t, table);
}

/// The name `quote` stands in the table at the index that the reader gives
/// to the operator of a quoted form.
pub open spec fn quote_known(table: Seq<Seq<u8>>) -> bool {
    table.len() > SP_QUOTE && table[SP_QUOTE as int] == spec_predefined_name(SP_QUOTE as int)
}

/// No map stands in the value or in a value inside it.
pub open spec fn no_maps(t: Tree) -> bool
    decreases t,
{
    match t {
        Tree::Hash(_) => false,
        Tree::Cell(v, n) => no_maps(*v) && no_maps(*n),
        Tree::Vector(items) => forall|i: int| 0 <= i < items.len() ==> no_maps(#[trigger] items[i]),
        _ => true,
    }
}

/// A list without a map has no map among its items.
pub proof fn lemma_list_no_maps(items: Seq<Tree>, k: int)
    requires
        0 <= k,
        no_maps(list_from(items, k)),
    ensures
        forall|i: int| k <= i < items.len() ==> no_maps(#[trigger] items[i]),
    decreases items.len() - k,
{
    if k < items.len() {
        lemma_list_no_maps(items, k + 1);
    }
}

/// What holds of the table that a reader function leaves.
pub open spec fn table_kept(before: Seq<Seq<u8>>, after: Seq<Seq<u8>>) -> bool {
    before.is_prefix_of(after) && distinct(after) && after.len() <= 0x4000_0000
}

/// A token is made of bytes of its class and ends at a delimiter or at the
/// end of the text.
pub proof fn lemma_token_bytes_of(s: Seq<u8>, pos: int, class: TokenClass)
    requires
        0 <= pos <= s.len(),
        spec_token_end(s, pos, class) is Ok,
    ensures
        pos <= spec_token_end(s, pos, class)->Ok_0 <= s.len(),
        token_bytes(s.subrange(pos, spec_token_end(s, pos, class)->Ok_0), class),
        ends_at(s, spec_token_end(s, pos, class)->Ok_0),
    decreases s.len() - pos,
{
    let end = spec_token_end(s, pos, class)->Ok_0;
    if pos < s.len() && !is_delim(s[pos]) {
        lemma_token_bytes_of(s, pos + 1, class);
        let tok = s.subrange(pos, end);
        assert forall|i: int| 0 <= i < tok.len() implies allowed(class, #[trigger] tok[i]) by {
            if i > 0 {
                assert(tok[i] == s.subrange(pos + 1, end)[i - 1]);
            }
        }
    }
}

/// Before the place where a byte is first found it does not stand.
pub proof fn lemma_find_first(s: Seq<u8>, pos: int, c: u8)
    requires
        0 <= pos <= s.len(),
    ensures
        pos <= spec_find(s, pos, c) <= s.len(),
        forall|i: int| pos <= i < spec_find(s, pos, c) ==> #[trigger] s[i] != c,
    decreases s.len() - pos,
{
    if pos < s.len() && s[pos] != c {
        lemma_find_first(s, pos + 1, c);
    }
}

/// A printable value stays printable when more names are interned.
pub proof fn lemma_printable_grows(t: Tree, before: Seq<Seq<u8>>, after: Seq<Seq<u8>>)
    requires
        before.is_prefix_of(after),
    ensures
        printable(t, before) ==> printable(t, after),
        printable_chain(t, before) ==> printable_chain(t, after),
    decreases t,
{
    match t {
        Tree::Sym(id) => {
            if printable(t, before) {
                let idx = spec_demodes(id) as int;
                assert(after.subrange(0, before.len() as int)[idx] == after[idx]);
            }
        },
        Tree::Cell(v, n) => {
            lemma_printable_grows(*v, before, after);
            lemma_printable_grows(*n, before, after);
        },
        Tree::Vector(items) => {
            if printable(t, before) {
                assert forall|i: int| 0 <= i < items.len() implies printable(
                    #[trigger] items[i],
                    after,
                ) by {
                    lemma_printable_grows(items[i], before, after);
                }
            }
        },
        _ => {},
    }
}

/// A list of printable items is printable.
pub proof fn lemma_list_printable(items: Seq<Tree>, k: int, table: Seq<Seq<u8>>)
    requires
        0 <= k,
        forall|i: int| 0 <= i < items.len() ==> printable(#[trigger] items[i], table),
    ensures
        printable_chain(list_from(items, k), table),
        printable(list_from(items, k), table),
    decreases items.len() - k,
{
    if k < items.len() {
        lemma_list_printable(items, k + 1, table);
        assert(printable(items[k], table));
    }
}

/// What interning a token gives: the table grows by at most that name, and
/// the name stands at the index returned.
pub proof fn lemma_intern_token(table: Seq<Seq<u8>>, name: Seq<u8>)
    requires
        distinct(table),
        table.len() <= 0x4000_0000,
        spec_intern(table, name) is Some,
    ensures
        ({
            let (id, after) = spec_intern(table, name)->Some_0;
            &&& table_kept(table, after)
            &&& id < after.len()
            &&& after[id as int] == name
            &&& spec_demodes(id) == id
            &&& spec_mode_of(id) == SymbolMode::Basic
        }),
{
    lemma_intern_keeps(table, name);
}

/// The symbol of the operator `quote` is printable where its name is known.
pub proof fn lemma_quote_printable(table: Seq<Seq<u8>>)
    requires
        quote_known(table),
    ensures
        printable(Tree::Sym(SP_QUOTE), table),
{
    lemma_predefined_bytes(SP_QUOTE as int);
    let name = table[SP_QUOTE as int];
    assert(name.len() == 5);
    assert(name[0] == 113 && name[1] == 117 && name[2] == 111 && name[3] == 116 && name[4] == 101);
}

/// A value that the reader makes, if no map is in it, is a printable value:
/// so its canonical text reads back as the same value.
pub proof fn lemma_value_printable(s: Seq<u8>, pos: int, table: Seq<Seq<u8>>)
    requires
        0 <= pos <= s.len(),
        distinct(table),
        table.len() <= 0x4000_0000,
        quote_known(table),
        spec_read_value(s, pos, table) is Ok,
    ensures
        ({
            let (tree, end, after) = spec_read_value(s, pos, table)->Ok_0;
            &&& no_maps(tree) ==> printable(tree, after)
            &&& table_kept(table, after)
            &&& pos < end <= s.len()
        }),
    decreases s.len() - pos, 0int,
{
    let p = spec_skip_blank(s, pos)->Ok_0;
    let c = s[p];
    let (tree, end, after) = spec_read_value(s, pos, table)->Ok_0;
    assert(table.subrange(0, table.len() as int) =~= table);
    if c == QUOTE {
        lemma_value_printable(s, p + 1, table);
        let (inner, e2, t2) = spec_read_value(s, p + 1, table)->Ok_0;
        assert(t2.subrange(0, table.len() as int)[SP_QUOTE as int] == t2[SP_QUOTE as int]);
        lemma_quote_printable(t2);
        let rest = Tree::Cell(Box::new(inner), Box::new(Tree::Nil));
        assert(printable_chain(Tree::Nil, t2));
        assert(no_maps(rest) ==> no_maps(inner));
        assert(no_maps(crate::grammar::quoted(inner)) ==> no_maps(rest));
        if no_maps(inner) {
            assert(printable_chain(rest, t2));
            assert(printable(crate::grammar::quoted(inner), t2));
        }
    } else if c == LPAREN {
        lemma_items_printable(s, p + 1, table, RPAREN, Seq::empty());
        let (items, e2, t2) = spec_read_items(s, p + 1, table, RPAREN, Seq::empty())->Ok_0;
        if no_maps(list_from(items, 0)) {
            lemma_list_no_maps(items, 0);
            lemma_list_printable(items, 0, t2);
        }
    } else if c == LBRACKET {
        lemma_items_printable(s, p + 1, table, RBRACKET, Seq::empty());
    } else if c == LBRACE {
        lemma_items_printable(s, p + 1, table, RBRACE, Seq::empty());
    } else if c == COLON || c == DOLLAR || c == AT {
        lemma_spec_sym_printable(s, p + 1, table, if c == COLON {
            SymbolMode::Keyword
        } else if c == DOLLAR {
            SymbolMode::Type
        } else {
            SymbolMode::Module
        });
    } else if c == DQUOTE {
        lemma_find_first(s, p + 1, DQUOTE);
        let q = spec_find(s, p + 1, DQUOTE);
        let b = s.subrange(p + 1, q);
        assert forall|i: int| 0 <= i < b.len() implies #[trigger] b[i] != DQUOTE by {
            assert(b[i] == s[p + 1 + i]);
        }
    } else if c == HASH {
        lemma_token_bytes_of(s, p + 1, TokenClass::Special);
    } else if c == PLUS || c == MINUS {
        if p + 1 < s.len() && is_digit(s[p + 1]) {
            lemma_number_printable(s, p, table);
        } else {
            lemma_symbol_printable(s, p, table);
        }
    } else if c == STAR || c == SLASH || c == LESS || c == EQUALS || c == GREATER || c
        == UNDERSCORE || is_alpha(c) {
        lemma_symbol_printable(s, p, table);
    } else if is_digit(c) {
        lemma_number_printable(s, p, table);
    }
}

/// A basic symbol that the reader takes from the text is printable.
pub proof fn lemma_symbol_printable(s: Seq<u8>, p: int, table: Seq<Seq<u8>>)
    requires
        0 <= p < s.len(),
        distinct(table),
        table.len() <= 0x4000_0000,
        symbol_start(s[p]) || (is_sign(s[p]) && (p + 1 < s.len() ==> !is_digit(s[p + 1]))),
        spec_read_symbol(s, p, table) is Ok,
    ensures
        ({
            let (tree, end, after) = spec_read_symbol(s, p, table)->Ok_0;
            &&& printable(tree, after)
            &&& table_kept(table, after)
            &&& p < end <= s.len()
        }),
{
    lemma_token_bytes_of(s, p, TokenClass::Symbol);
    crate::parser::lemma_token_nonempty(s, p, TokenClass::Symbol);
    let end = spec_token_end(s, p, TokenClass::Symbol)->Ok_0;
    let name = s.subrange(p, end);
    lemma_intern_token(table, name);
    assert(name[0] == s[p]);
    if name.len() >= 2 {
        assert(name[1] == s[p + 1]);
    }
}

/// A symbol with a sigil that the reader takes from the text is printable.
pub proof fn lemma_spec_sym_printable(s: Seq<u8>, p: int, table: Seq<Seq<u8>>, mode: SymbolMode)
    requires
        0 <= p <= s.len(),
        distinct(table),
        table.len() <= 0x4000_0000,
        mode != SymbolMode::Basic,
        spec_read_spec_sym(s, p, table, mode) is Ok,
    ensures
        ({
            let (tree, end, after) = spec_read_spec_sym(s, p, table, mode)->Ok_0;
            &&& printable(tree, after)
            &&& table_kept(table, after)
            &&& p < end <= s.len()
        }),
{
    lemma_token_bytes_of(s, p, TokenClass::SpecSym);
    let end = spec_token_end(s, p, TokenClass::SpecSym)->Ok_0;
    let name = s.subrange(p, end);
    lemma_intern_token(table, name);
    let id = spec_intern(table, name)->Some_0.0;
    lemma_mode_round_trip(id, mode);
}

/// A number that the reader takes from the text is printable.
pub proof fn lemma_number_printable(s: Seq<u8>, p: int, table: Seq<Seq<u8>>)
    requires
        0 <= p < s.len(),
        distinct(table),
        table.len() <= 0x4000_0000,
        is_digit(s[p]) || (is_sign(s[p]) && p + 1 < s.len() && is_digit(s[p + 1])),
        spec_read_number(s, p, table) is Ok,
    ensures
        ({
            let (tree, end, after) = spec_read_number(s, p, table)->Ok_0;
            &&& printable(tree, after)
            &&& table_kept(table, after)
            &&& p < end <= s.len()
        }),
{
    lemma_token_bytes_of(s, p, TokenClass::Number);
    crate::parser::lemma_token_nonempty(s, p, TokenClass::Number);
    let end = spec_token_end(s, p, TokenClass::Number)->Ok_0;
    let x = s.subrange(p, end);
    assert(x[0] == s[p]);
    assert(table.subrange(0, table.len() as int) =~= table);
    if is_sign(s[p]) {
        crate::parser::lemma_token_nonempty(s, p + 1, TokenClass::Number);
        assert(x[1] == s[p + 1]);
    }
}

/// The items that the reader takes from a bracketed text are printable
/// values, but for those with a map in them.
pub proof fn lemma_items_printable(
    s: Seq<u8>,
    pos: int,
    table: Seq<Seq<u8>>,
    close: u8,
    acc: Seq<Tree>,
)
    requires
        0 <= pos <= s.len(),
        distinct(table),
        table.len() <= 0x4000_0000,
        quote_known(table),
        forall|i: int|
            0 <= i < acc.len() && no_maps(#[trigger] acc[i]) ==> printable(acc[i], table),
        spec_read_items(s, pos, table, close, acc) is Ok,
    ensures
        ({
            let (items, end, after) = spec_read_items(s, pos, table, close, acc)->Ok_0;
            &&& forall|i: int|
                0 <= i < items.len() && no_maps(#[trigger] items[i]) ==> printable(items[i], after)
            &&& table_kept(table, after)
            &&& pos < end <= s.len()
        }),
    decreases s.len() - pos, 1int,
{
    assert(table.subrange(0, table.len() as int) =~= table);
    if s[pos] == close {
    } else if s[pos] == SEMICOLON {
        let q = spec_find(s, pos, crate::ascii::NEWLINE);
        lemma_items_printable(s, q + 1, table, close, acc);
    } else if is_space(s[pos]) {
        lemma_items_printable(s, pos + 1, table, close, acc);
    } else {
        lemma_value_printable(s, pos, table);
        let (tree, end, t2) = spec_read_value(s, pos, table)->Ok_0;
        let acc2 = acc.push(tree);
        assert(t2.subrange(0, table.len() as int)[SP_QUOTE as int] == t2[SP_QUOTE as int]);
        assert forall|i: int| 0 <= i < acc2.len() && no_maps(#[trigger] acc2[i]) implies printable(
            acc2[i],
            t2,
        ) by {
            if i < acc.len() {
                assert(acc2[i] == acc[i]);
                lemma_printable_grows(acc[i], table, t2);
            }
        }
        lemma_items_printable(s, end, t2, close, acc2);
        let after = spec_read_items(s, end, t2, close, acc2)->Ok_0.2;
        crate::stab::lemma_prefix_trans(table, t2, after);
    }
}

/// Reading a text, printing the value and reading the print again
/// reproduces the print, for every text whose value has no map in it.
pub proof fn lemma_print_is_fixed_point(code: Seq<u8>, table: Seq<Seq<u8>>)
    requires
        no_maps(crate::grammar::spec_read(code, false, table)->Ok_0.0),
        distinct(table),
        table.len() <= 0x4000_0000,
        quote_known(table),
        crate::grammar::spec_read(code, false, table) is Ok,
    ensures
        ({
            let (tree, end, after) = crate::grammar::spec_read(code, false, table)->Ok_0;
            let text = render(tree, after);
            &&& crate::grammar::spec_read(text, false, after) is Ok
            &&& render(
                crate::grammar::spec_read(text, false, after)->Ok_0.0,
                crate::grammar::spec_read(text, false, after)->Ok_0.2,
            ) == text
        }),
{
    lemma_value_printable(code, 0, table);
    let (tree, end, after) = crate::grammar::spec_read(code, false, table)->Ok_0;
    lemma_round_trip(tree, after);
}

} // verus!
