//! The grammar of the source text, written down once as spec functions on
//! bytes. The reader is proved to return what they say.

use vstd::prelude::*;
use crate::env::SP_QUOTE;
use crate::error::SlErrCode;
use crate::form::Tree;
use crate::number::{spec_parse_int, is_float_literal, is_digit};
use crate::stab::spec_intern;
use crate::symbol::{SymbolMode, spec_modeize};
use crate::ascii::{AT, BANG, COLON, DOLLAR, DOT, DQUOTE, EQUALS, GREATER, HASH, LBRACE, LBRACKET, LESS, LOWER_D, LOWER_F, LOWER_O, LOWER_T, LPAREN, MINUS, PLUS, QUESTION, QUOTE, RBRACE, RBRACKET, RPAREN, SEMICOLON, SLASH, SPACE, STAR, UNDERSCORE, UPPER_F, UPPER_T, NEWLINE};

verus! {

/// Number of buckets of a map literal.
pub const MAP_BUCKETS: usize = 16;

/// What a reader function yields in the model: the tree read and the
/// position after it, or the error; either way with the symbol table as
/// interning left it.
pub type SpecRead = Result<(Tree, int, Seq<Seq<u8>>), (SlErrCode, Seq<Seq<u8>>)>;

/// What the reader of a bracketed sequence yields in the model.
pub type SpecItems = Result<(Seq<Tree>, int, Seq<Seq<u8>>), (SlErrCode, Seq<Seq<u8>>)>;

/// The four alphabets of bare tokens.
#[derive(Debug, Clone, Copy, PartialEq, Eq, Structural)]
pub enum TokenClass {
    Symbol,
    SpecSym,
    Number,
    Special,
}

pub open spec fn is_space(c: u8) -> bool {
    c == 32 || c == 9 || c == 10 || c == 12 || c == 13
}

/// Whether `c` ends a bare token: a closing bracket or whitespace.
pub open spec fn is_delim(c: u8) -> bool {
    c == RPAREN || c == RBRACKET || c == RBRACE || is_space(c)
}

pub open spec fn is_alpha(c: u8) -> bool {
    (65 <= c <= 90) || (97 <= c <= 122)
}

pub open spec fn is_alnum(c: u8) -> bool {
    is_alpha(c) || is_digit(c)
}

/// Whether `c` may stand in a token of the class.
pub open spec fn allowed(class: TokenClass, c: u8) -> bool {
    match class {
        TokenClass::Symbol => is_alnum(c) || c == BANG || c == STAR || c == PLUS || c == MINUS
            || c == SLASH || c == LESS || c == EQUALS || c == GREATER || c == QUESTION || c == UNDERSCORE,
        TokenClass::SpecSym => is_alnum(c) || c == MINUS || c == UNDERSCORE,
        TokenClass::Number => is_alnum(c) || c == PLUS || c == MINUS || c == UNDERSCORE || c == DOT,
        TokenClass::Special => is_alnum(c) || c == UNDERSCORE,
    }
}

/// Where the bare token that starts at `pos` ends: at the end of input or at
/// the first delimiter. A byte outside the class before that is an error.
pub open spec fn spec_token_end(s: Seq<u8>, pos: int, class: TokenClass) -> Result<int, SlErrCode>
    decreases s.len() - pos,
{
    if pos < 0 || pos >= s.len() || is_delim(s[pos]) {
        Ok(pos)
    } else if allowed(class, s[pos]) {
        spec_token_end(s, pos + 1, class)
    } else {
        Err(SlErrCode::ParseInvalidChar)
    }
}

/// Position of the first byte `c` at or after `pos`; the length of `s` if
/// there is none.
pub open spec fn spec_find(s: Seq<u8>, pos: int, c: u8) -> int
    decreases s.len() - pos,
{
    if pos < 0 || pos >= s.len() {
        s.len() as int
    } else if s[pos] == c {
        pos
    } else {
        spec_find(s, pos + 1, c)
    }
}

/// Position of the first byte at or after `pos` that starts a form, past
/// whitespace and comments. A comment runs from `;` to the end of its line;
/// input that ends before a form starts, or inside a comment, ends unexpectedly.
pub open spec fn spec_skip_blank(s: Seq<u8>, pos: int) -> Result<int, SlErrCode>
    decreases s.len() - pos,
{
    if pos < 0 || pos >= s.len() {
        Err(SlErrCode::ParseUnexpectedEnd)
    } else if s[pos] == SEMICOLON {
        let q = spec_find(s, pos, NEWLINE);
        if q < pos || q >= s.len() {
            Err(SlErrCode::ParseUnexpectedEnd)
        } else {
            spec_skip_blank(s, q + 1)
        }
    } else if is_space(s[pos]) {
        spec_skip_blank(s, pos + 1)
    } else {
        Ok(pos)
    }
}

/// The list of the items from index `i` on: one reference cell for each,
/// chained by their "next" links and ended by nil.
pub open spec fn list_from(items: Seq<Tree>, i: int) -> Tree
    decreases items.len() - i,
{
    if i < 0 || i >= items.len() {
        Tree::Nil
    } else {
        Tree::Cell(Box::new(items[i]), Box::new(list_from(items, i + 1)))
    }
}

/// The list of all the items; the empty list is nil.
pub open spec fn list_of(items: Seq<Tree>) -> Tree {
    list_from(items, 0)
}

/// The bucket that a key falls into.
pub open spec fn spec_bucket_of(key: Tree) -> int {
    match key {
        Tree::Sym(id) => (id as int) % 16,
        Tree::Int(n) => (n as int) % 16,
        Tree::Bool(b) => if b { 1 } else { 0 },
        Tree::Str(b) => (b.len() as int) % 16,
        Tree::Float(t) => (t.len() as int) % 16,
        _ => 0,
    }
}

/// A map entry: the two-element list of key and value.
pub open spec fn entry_of(key: Tree, val: Tree) -> Tree {
    Tree::Cell(Box::new(key), Box::new(Tree::Cell(Box::new(val), Box::new(Tree::Nil))))
}

/// The chain of bucket `b`: the entries of the pairs from pair `k` on whose
/// key falls into `b`, in source order. The items alternate key and value; a
/// last key without a value belongs to no pair.
pub open spec fn bucket_chain(items: Seq<Tree>, b: int, k: int) -> Tree
    decreases items.len() - 2 * k,
{
    if k < 0 || 2 * k + 1 >= items.len() {
        Tree::Nil
    } else {
        let rest = bucket_chain(items, b, k + 1);
        if spec_bucket_of(items[2 * k]) == b {
            Tree::Cell(Box::new(entry_of(items[2 * k], items[2 * k + 1])), Box::new(rest))
        } else {
            rest
        }
    }
}

/// The map of alternating keys and values: sixteen bucket chains.
pub open spec fn map_of(items: Seq<Tree>) -> Tree {
    Tree::Hash(Seq::new(16, |b: int| bucket_chain(items, b, 0)))
}

/// The value that a number token denotes: a signed 64-bit integer if it is
/// one, else a float if it has the shape of one.
pub open spec fn spec_process_num(token: Seq<u8>) -> Result<Tree, SlErrCode> {
    match spec_parse_int(token) {
        Some(n) => Ok(Tree::Int(n)),
        None => if is_float_literal(token) {
            Ok(Tree::Float(token))
        } else {
            Err(SlErrCode::ParseInvalidNum)
        },
    }
}

/// The boolean that the token after `#` denotes.
pub open spec fn spec_special(token: Seq<u8>) -> Result<Tree, SlErrCode> {
    if token.len() == 0 {
        Err(SlErrCode::ParseUnexpectedEnd)
    } else if token.len() == 1 && (token[0] == LOWER_T || token[0] == UPPER_T) {
        Ok(Tree::Bool(true))
    } else if token.len() == 1 && (token[0] == LOWER_F || token[0] == UPPER_F) {
        Ok(Tree::Bool(false))
    } else {
        Err(SlErrCode::ParseBadSpecial)
    }
}

/// Reading a bare symbol that starts at `pos`.
pub open spec fn spec_read_symbol(s: Seq<u8>, pos: int, t: Seq<Seq<u8>>) -> SpecRead {
    match spec_token_end(s, pos, TokenClass::Symbol) {
        Err(e) => Err((e, t)),
        Ok(end) => match spec_intern(t, s.subrange(pos, end)) {
            None => Err((SlErrCode::ErrorUnknown, t)),
            Some((id, t2)) => Ok((Tree::Sym(id), end, t2)),
        },
    }
}

/// Reading the word after a mode sigil; `pos` is just past the sigil.
pub open spec fn spec_read_spec_sym(s: Seq<u8>, pos: int, t: Seq<Seq<u8>>, mode: SymbolMode) -> SpecRead {
    match spec_token_end(s, pos, TokenClass::SpecSym) {
        Err(e) => Err((e, t)),
        Ok(end) => if end == pos {
            Err((SlErrCode::ParseUnexpectedEnd, t))
        } else {
            match spec_intern(t, s.subrange(pos, end)) {
                None => Err((SlErrCode::ErrorUnknown, t)),
                Some((id, t2)) => Ok((Tree::Sym(spec_modeize(id, mode)), end, t2)),
            }
        },
    }
}

/// Reading a string; `pos` is just past the opening quote.
pub open spec fn spec_read_string(s: Seq<u8>, pos: int, t: Seq<Seq<u8>>) -> SpecRead {
    let q = spec_find(s, pos, DQUOTE);
    if q < pos || q >= s.len() {
        Err((SlErrCode::ParseUnexpectedEnd, t))
    } else if !vstd::utf8::valid_utf8(s.subrange(pos, q)) {
        Err((SlErrCode::ParseInvalidString, t))
    } else {
        Ok((Tree::Str(s.subrange(pos, q)), q + 1, t))
    }
}

/// Reading a number token that starts at `pos`.
pub open spec fn spec_read_number(s: Seq<u8>, pos: int, t: Seq<Seq<u8>>) -> SpecRead {
    match spec_token_end(s, pos, TokenClass::Number) {
        Err(e) => Err((e, t)),
        Ok(end) => match spec_process_num(s.subrange(pos, end)) {
            Err(e) => Err((e, t)),
            Ok(tree) => Ok((tree, end, t)),
        },
    }
}

/// Reading the token after `#`; `pos` is just past the `#`.
pub open spec fn spec_read_special(s: Seq<u8>, pos: int, t: Seq<Seq<u8>>) -> SpecRead {
    match spec_token_end(s, pos, TokenClass::Special) {
        Err(e) => Err((e, t)),
        Ok(end) => match spec_special(s.subrange(pos, end)) {
            Err(e) => Err((e, t)),
            Ok(tree) => Ok((tree, end, t)),
        },
    }
}

/// The two-cell application of `quote` to a form.
pub open spec fn quoted(tree: Tree) -> Tree {
    Tree::Cell(
        Box::new(Tree::Sym(SP_QUOTE)),
        Box::new(Tree::Cell(Box::new(tree), Box::new(Tree::Nil))),
    )
}

/// The grammar of one form, read from `pos` on with the symbol table `t`.
pub open spec fn spec_read_value(s: Seq<u8>, pos: int, t: Seq<Seq<u8>>) -> SpecRead
    decreases s.len() - pos, 0int,
{
    match spec_skip_blank(s, pos) {
        Err(e) => Err((e, t)),
        Ok(p) => if p < pos || p >= s.len() {
            Err((SlErrCode::ParseUnexpectedEnd, t))
        } else {
            let c = s[p];
            if c == QUOTE {
                match spec_read_value(s, p + 1, t) {
                    Err(e) => Err(e),
                    Ok((tree, end, t2)) => Ok((quoted(tree), end, t2)),
                }
            } else if c == LPAREN {
                match spec_read_items(s, p + 1, t, RPAREN, Seq::empty()) {
                    Err(e) => Err(e),
                    Ok((items, end, t2)) => Ok((list_of(items), end, t2)),
                }
            } else if c == LBRACKET {
                match spec_read_items(s, p + 1, t, RBRACKET, Seq::empty()) {
                    Err(e) => Err(e),
                    Ok((items, end, t2)) => Ok((Tree::Vector(items), end, t2)),
                }
            } else if c == LBRACE {
                match spec_read_items(s, p + 1, t, RBRACE, Seq::empty()) {
                    Err(e) => Err(e),
                    Ok((items, end, t2)) => Ok((map_of(items), end, t2)),
                }
            } else if c == COLON {
                spec_read_spec_sym(s, p + 1, t, SymbolMode::Keyword)
            } else if c == DOLLAR {
                spec_read_spec_sym(s, p + 1, t, SymbolMode::Type)
            } else if c == AT {
                spec_read_spec_sym(s, p + 1, t, SymbolMode::Module)
            } else if c == DQUOTE {
                spec_read_string(s, p + 1, t)
            } else if c == HASH {
                spec_read_special(s, p + 1, t)
            } else if c == PLUS || c == MINUS {
                if p + 1 < s.len() && is_digit(s[p + 1]) {
                    spec_read_number(s, p, t)
                } else {
                    spec_read_symbol(s, p, t)
                }
            } else if c == STAR || c == SLASH || c == LESS || c == EQUALS || c == GREATER || c == UNDERSCORE
                || is_alpha(c) {
                spec_read_symbol(s, p, t)
            } else if is_digit(c) {
                spec_read_number(s, p, t)
            } else {
                Err((SlErrCode::ParseInvalidChar, t))
            }
        },
    }
}

/// The grammar of the inside of a bracketed sequence: forms, set apart by
/// whitespace and comments, up to the closing byte `close`. `acc` holds the
/// items read so far. A form always takes at least one byte, so the branch
/// that guards against a reader that stands still is never taken.
pub open spec fn spec_read_items(s: Seq<u8>, pos: int, t: Seq<Seq<u8>>, close: u8, acc: Seq<Tree>) -> SpecItems
    decreases s.len() - pos, 1int,
{
    if pos < 0 || pos >= s.len() {
        Err((SlErrCode::ParseUnexpectedEnd, t))
    } else if s[pos] == close {
        Ok((acc, pos + 1, t))
    } else if s[pos] == SEMICOLON {
        let q = spec_find(s, pos, NEWLINE);
        if q < pos || q >= s.len() {
            Err((SlErrCode::ParseUnexpectedEnd, t))
        } else {
            spec_read_items(s, q + 1, t, close, acc)
        }
    } else if is_space(s[pos]) {
        spec_read_items(s, pos + 1, t, close, acc)
    } else {
        match spec_read_value(s, pos, t) {
            Err(e) => Err(e),
            Ok((tree, end, t2)) => if end <= pos || end > s.len() {
                Err((SlErrCode::ErrorUnknown, t2))
            } else {
                spec_read_items(s, end, t2, close, acc.push(tree))
            },
        }
    }
}

/// The text that is read: the code itself, or in file mode the code wrapped
/// as the one form `(do ...)`.
pub open spec fn source_text(code: Seq<u8>, file: bool) -> Seq<u8> {
    if file {
        seq![LPAREN, LOWER_D, LOWER_O, SPACE] + code + seq![RPAREN]
    } else {
        code
    }
}

/// What reading one form from `code` gives, started with the table `t`.
pub open spec fn spec_read(code: Seq<u8>, file: bool, t: Seq<Seq<u8>>) -> SpecRead {
    spec_read_value(source_text(code, file), 0, t)
}

} // verus!
