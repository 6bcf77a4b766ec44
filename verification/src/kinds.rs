//! Which errors the reader can give: of a text that is well-formed UTF-8 it
//! never says that a string is not.

use vstd::prelude::*;
use vstd::utf8::{valid_utf8, pop_first_scalar, valid_utf8_split, valid_utf8_concat, is_char_boundary_iff_not_is_continuation_byte};
use crate::ascii::{DQUOTE, LPAREN, RPAREN, LBRACKET, RBRACKET, LBRACE, RBRACE, QUOTE, SEMICOLON, NEWLINE, LOWER_D, LOWER_O, SPACE};
use crate::error::SlErrCode;
use crate::form::Tree;
use crate::grammar::{TokenClass, is_space, spec_token_end, spec_find, spec_skip_blank, spec_read_value, spec_read_items, source_text, spec_read};

verus! {

/// An error of the grammar itself: neither a string that is not UTF-8 nor a
/// file that could not be read.
pub open spec fn plain_error(e: SlErrCode) -> bool {
    e != SlErrCode::ParseInvalidString && e != SlErrCode::FileCouldNotRead
}

/// What follows an ASCII byte of well-formed text is well-formed.
pub proof fn lemma_valid_after_ascii(s: Seq<u8>, p: int)
    requires
        valid_utf8(s),
        0 <= p < s.len(),
        s[p] < 128,
    ensures
        valid_utf8(s.subrange(p + 1, s.len() as int)),
{
    is_char_boundary_iff_not_is_continuation_byte(s, p);
    valid_utf8_split(s, p);
    let rest = s.subrange(p, s.len() as int);
    assert(rest[0] == s[p]);
    assert(pop_first_scalar(rest) =~= s.subrange(p + 1, s.len() as int));
}

/// In well-formed text, the bytes between an ASCII byte and the next ASCII
/// byte after it, such as two double quotes, are well-formed.
pub proof fn lemma_valid_between(s: Seq<u8>, p: int, q: int)
    requires
        valid_utf8(s),
        0 <= p < q < s.len(),
        s[p] < 128,
        s[q] < 128,
    ensures
        valid_utf8(s.subrange(p + 1, q)),
{
    lemma_valid_after_ascii(s, p);
    let rest = s.subrange(p + 1, s.len() as int);
    let k = q - (p + 1);
    assert(rest[k] == s[q]);
    is_char_boundary_iff_not_is_continuation_byte(rest, k);
    valid_utf8_split(rest, k);
    assert(rest.subrange(0, k) =~= s.subrange(p + 1, q));
}

/// One ASCII byte is well-formed text.
pub proof fn lemma_valid_ascii_byte(c: u8)
    requires
        c < 128,
    ensures
        valid_utf8(seq![c]),
{
    let s = seq![c];
    assert(pop_first_scalar(s) =~= Seq::<u8>::empty());
    assert(valid_utf8(Seq::<u8>::empty()));
}

/// Well-formed code wrapped for file mode is well-formed.
pub proof fn lemma_source_text_valid(code: Seq<u8>, file: bool)
    requires
        valid_utf8(code),
    ensures
        valid_utf8(source_text(code, file)),
{
    if file {
        lemma_valid_ascii_byte(LPAREN);
        lemma_valid_ascii_byte(LOWER_D);
        lemma_valid_ascii_byte(LOWER_O);
        lemma_valid_ascii_byte(SPACE);
        lemma_valid_ascii_byte(RPAREN);
        valid_utf8_concat(seq![LPAREN], seq![LOWER_D]);
        valid_utf8_concat(seq![LPAREN] + seq![LOWER_D], seq![LOWER_O]);
        valid_utf8_concat(seq![LPAREN] + seq![LOWER_D] + seq![LOWER_O], seq![SPACE]);
        let head = seq![LPAREN] + seq![LOWER_D] + seq![LOWER_O] + seq![SPACE];
        assert(head =~= seq![LPAREN, LOWER_D, LOWER_O, SPACE]);
        valid_utf8_concat(head, code);
        valid_utf8_concat(head + code, seq![RPAREN]);
    }
}

/// A token fails only on a byte outside its class.
pub proof fn lemma_token_error(s: Seq<u8>, pos: int, class: TokenClass)
    ensures
        spec_token_end(s, pos, class) is Err ==> spec_token_end(s, pos, class)->Err_0
            == SlErrCode::ParseInvalidChar,
    decreases s.len() - pos,
{
    if 0 <= pos < s.len() {
        lemma_token_error(s, pos + 1, class);
    }
}

/// Skipping blanks fails only at the end of the text, and stops inside it.
pub proof fn lemma_skip_error(s: Seq<u8>, pos: int)
    ensures
        match spec_skip_blank(s, pos) {
            Ok(p) => pos <= p < s.len(),
            Err(e) => e == SlErrCode::ParseUnexpectedEnd,
        },
    decreases s.len() - pos,
{
    if 0 <= pos < s.len() {
        if s[pos] == SEMICOLON {
            let q = spec_find(s, pos, NEWLINE);
            if pos <= q < s.len() {
                lemma_skip_error(s, q + 1);
            }
        } else if is_space(s[pos]) {
            lemma_skip_error(s, pos + 1);
        }
    }
}

/// What an error of the reader tells: it is an error of the grammar, and
/// the unknown error comes only with a symbol table that is full.
pub open spec fn error_told(e: (SlErrCode, Seq<Seq<u8>>)) -> bool {
    plain_error(e.0) && (e.0 == SlErrCode::ErrorUnknown ==> e.1.len() >= 0x4000_0000)
}

/// Reading one form of well-formed text never fails on a string, fails
/// with the unknown error only where the table is full, and where it
/// succeeds it has moved on.
pub proof fn lemma_value_error(s: Seq<u8>, pos: int, table: Seq<Seq<u8>>)
    requires
        valid_utf8(s),
        0 <= pos <= s.len(),
    ensures
        match spec_read_value(s, pos, table) {
            Ok((tree, end, after)) => pos < end <= s.len(),
            Err(e) => error_told(e),
        },
    decreases s.len() - pos, 0int,
{
    lemma_skip_error(s, pos);
    if spec_skip_blank(s, pos) is Ok {
        let p = spec_skip_blank(s, pos)->Ok_0;
        let c = s[p];
        lemma_token_error(s, p, TokenClass::Symbol);
        lemma_token_error(s, p, TokenClass::Number);
        lemma_token_error(s, p + 1, TokenClass::SpecSym);
        lemma_token_error(s, p + 1, TokenClass::Special);
        crate::parser::lemma_token_end_bounds(s, p, TokenClass::Symbol);
        crate::parser::lemma_token_end_bounds(s, p, TokenClass::Number);
        crate::parser::lemma_token_end_bounds(s, p + 1, TokenClass::SpecSym);
        crate::parser::lemma_token_end_bounds(s, p + 1, TokenClass::Special);
        if !crate::grammar::is_delim(c) {
            if crate::grammar::allowed(TokenClass::Symbol, c) {
                crate::parser::lemma_token_nonempty(s, p, TokenClass::Symbol);
            }
            if crate::grammar::allowed(TokenClass::Number, c) {
                crate::parser::lemma_token_nonempty(s, p, TokenClass::Number);
            }
        }
        if c == QUOTE {
            lemma_value_error(s, p + 1, table);
        } else if c == LPAREN {
            lemma_items_error(s, p + 1, table, RPAREN, Seq::empty());
        } else if c == LBRACKET {
            lemma_items_error(s, p + 1, table, RBRACKET, Seq::empty());
        } else if c == LBRACE {
            lemma_items_error(s, p + 1, table, RBRACE, Seq::empty());
        } else if c == DQUOTE {
            crate::roundtrip::lemma_find_first(s, p + 1, DQUOTE);
            let q = spec_find(s, p + 1, DQUOTE);
            if q < s.len() {
                lemma_find_hit(s, p + 1, DQUOTE);
                lemma_valid_between(s, p, q);
            }
        }
    }
}

/// Where a byte is found, it stands.
pub proof fn lemma_find_hit(s: Seq<u8>, pos: int, c: u8)
    requires
        0 <= pos <= s.len(),
    ensures
        spec_find(s, pos, c) < s.len() ==> s[spec_find(s, pos, c)] == c,
    decreases s.len() - pos,
{
    if pos < s.len() && s[pos] != c {
        lemma_find_hit(s, pos + 1, c);
    }
}

/// Reading the inside of a bracketed sequence of well-formed text never
/// fails on a string.
pub proof fn lemma_items_error(
    s: Seq<u8>,
    pos: int,
    table: Seq<Seq<u8>>,
    close: u8,
    acc: Seq<Tree>,
)
    requires
        valid_utf8(s),
        0 <= pos <= s.len(),
    ensures
        match spec_read_items(s, pos, table, close, acc) {
            Ok((items, end, after)) => pos < end <= s.len(),
            Err(e) => error_told(e),
        },
    decreases s.len() - pos, 1int,
{
    if pos < s.len() {
        if s[pos] == close {
        } else if s[pos] == SEMICOLON {
            let q = spec_find(s, pos, NEWLINE);
            if pos <= q < s.len() {
                lemma_items_error(s, q + 1, table, close, acc);
            }
        } else if is_space(s[pos]) {
            lemma_items_error(s, pos + 1, table, close, acc);
        } else {
            lemma_value_error(s, pos, table);
            match spec_read_value(s, pos, table) {
                Ok((tree, end, t2)) => {
                    lemma_items_error(s, end, t2, close, acc.push(tree));
                },
                Err(e) => {},
            }
        }
    }
}

/// Reading a text that is well-formed UTF-8, as every `str` is, gives a
/// value or one of the errors of the grammar; never the error of a string
/// that is not UTF-8, and the unknown error only where the symbol table is
/// full.
pub proof fn lemma_read_error(code: Seq<u8>, file: bool, table: Seq<Seq<u8>>)
    requires
        valid_utf8(code),
    ensures
        spec_read(code, file, table) is Err ==> error_told(spec_read(code, file, table)->Err_0),
{
    lemma_source_text_valid(code, file);
    lemma_value_error(source_text(code, file), 0, table);
}

} // verus!
