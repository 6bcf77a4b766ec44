//! The reader: a recursive-descent parser from source bytes to forms. Each
//! function returns what the grammar says of the same bytes and position.

use vstd::prelude::*;
use vstd::string::StringSliceAdditionalSpecFns;
use crate::ascii::{LPAREN, RPAREN, LBRACKET, RBRACKET, LBRACE, RBRACE, QUOTE, COLON, DOLLAR, AT, DQUOTE, HASH, PLUS, MINUS, STAR, SLASH, LESS, EQUALS, GREATER, UNDERSCORE, BANG, QUESTION, DOT, SEMICOLON, SPACE, NEWLINE, LOWER_T, UPPER_T, LOWER_F, UPPER_F, LOWER_D, LOWER_O};
use crate::error::SlErrCode;
use crate::form::{Form, Tree, views, lemma_views, lemma_views_push};
use crate::env::SP_QUOTE;
use crate::grammar::{SpecRead, TokenClass, MAP_BUCKETS, is_space, is_delim, allowed, spec_token_end, spec_find, spec_skip_blank, list_from, list_of, spec_bucket_of, bucket_chain, map_of, spec_process_num, spec_read_symbol, spec_read_spec_sym, spec_read_string, spec_read_number, spec_read_special, quoted, spec_read_value, spec_read_items, source_text, spec_read};
use crate::number::{parse_int, float_literal_p};
use crate::region::{Region, SlHndl};
use crate::stab::Stab;
use crate::store::{store, spec_size};
use crate::symbol::{SymbolMode, modeize_sym};

verus! {

/// Whether what a reader function returned, and the table it left, are what
/// the grammar says.
pub open spec fn agrees(r: Result<(Form, usize), SlErrCode>, want: SpecRead, table: Seq<Seq<u8>>) -> bool {
    match want {
        Ok((tree, end, t)) => r is Ok && r->Ok_0.0@ == tree && r->Ok_0.1 == end && table == t,
        Err(e) => r is Err && r->Err_0 == e.0 && table == e.1,
    }
}

fn space_p(c: u8) -> (r: bool)
    ensures
        r == is_space(c),
{
    c == 32 || c == 9 || c == 10 || c == 12 || c == 13
}

fn delim_p(c: u8) -> (r: bool)
    ensures
        r == is_delim(c),
{
    c == RPAREN || c == RBRACKET || c == RBRACE || space_p(c)
}

fn alpha_p(c: u8) -> (r: bool)
    ensures
        r == crate::grammar::is_alpha(c),
{
    (65 <= c && c <= 90) || (97 <= c && c <= 122)
}

fn digit_p(c: u8) -> (r: bool)
    ensures
        r == crate::number::is_digit(c),
{
    48 <= c && c <= 57
}

fn allowed_p(class: TokenClass, c: u8) -> (r: bool)
    ensures
        r == allowed(class, c),
{
    let alnum = alpha_p(c) || digit_p(c);
    match class {
        TokenClass::Symbol => alnum || c == BANG || c == STAR || c == PLUS || c == MINUS || c
            == SLASH || c == LESS || c == EQUALS || c == GREATER || c == QUESTION || c
            == UNDERSCORE,
        TokenClass::SpecSym => alnum || c == MINUS || c == UNDERSCORE,
        TokenClass::Number => alnum || c == PLUS || c == MINUS || c == UNDERSCORE || c == DOT,
        TokenClass::Special => alnum || c == UNDERSCORE,
    }
}

/// Finds where the bare token that starts at `pos` ends.
pub fn token_end(s: &[u8], pos: usize, class: TokenClass) -> (r: Result<usize, SlErrCode>)
    requires
        pos <= s.len(),
    ensures
        match r {
            Ok(end) => spec_token_end(s@, pos as int, class) == Ok::<int, SlErrCode>(end as int)
                && pos <= end <= s.len(),
            Err(e) => spec_token_end(s@, pos as int, class) == Err::<int, SlErrCode>(e),
        },
{
    let mut i: usize = pos;
    while i < s.len()
        invariant
            pos <= i <= s.len(),
            spec_token_end(s@, i as int, class) == spec_token_end(s@, pos as int, class),
        decreases s.len() - i,
    {
        let c: u8 = s[i];
        if delim_p(c) {
            return Ok(i);
        }
        if !allowed_p(class, c) {
            return Err(SlErrCode::ParseInvalidChar);
        }
        i += 1;
    }
    Ok(i)
}

/// Finds the first byte `c` at or after `pos`.
pub fn find_byte(s: &[u8], pos: usize, c: u8) -> (r: usize)
    requires
        pos <= s.len(),
    ensures
        r == spec_find(s@, pos as int, c),
        pos <= r <= s.len(),
        r < s.len() ==> s@[r as int] == c,
{
    let mut i: usize = pos;
    while i < s.len()
        invariant
            pos <= i <= s.len(),
            spec_find(s@, i as int, c) == spec_find(s@, pos as int, c),
        decreases s.len() - i,
    {
        if s[i] == c {
            return i;
        }
        i += 1;
    }
    i
}

/// Skips whitespace and comments up to the start of a form.
pub fn skip_blank(s: &[u8], pos: usize) -> (r: Result<usize, SlErrCode>)
    requires
        pos <= s.len(),
    ensures
        match r {
            Ok(p) => spec_skip_blank(s@, pos as int) == Ok::<int, SlErrCode>(p as int) && pos <= p
                < s.len(),
            Err(e) => spec_skip_blank(s@, pos as int) == Err::<int, SlErrCode>(e),
        },
{
    let mut i: usize = pos;
    loop
        invariant
            pos <= i <= s.len(),
            spec_skip_blank(s@, i as int) == spec_skip_blank(s@, pos as int),
        decreases s.len() - i,
    {
        if i >= s.len() {
            return Err(SlErrCode::ParseUnexpectedEnd);
        }
        let c: u8 = s[i];
        if c == SEMICOLON {
            let q: usize = find_byte(s, i, NEWLINE);
            if q >= s.len() {
                return Err(SlErrCode::ParseUnexpectedEnd);
            }
            i = q + 1;
        } else if space_p(c) {
            i += 1;
        } else {
            return Ok(i);
        }
    }
}

/// A copy of the bytes of `s` from `a` up to `b`.
pub fn slice_copy(s: &[u8], a: usize, b: usize) -> (r: Vec<u8>)
    requires
        a <= b <= s.len(),
    ensures
        r@ == s@.subrange(a as int, b as int),
{
    let mut r: Vec<u8> = Vec::new();
    let mut i: usize = a;
    while i < b
        invariant
            a <= i <= b <= s.len(),
            r@ == s@.subrange(a as int, i as int),
        decreases b - i,
    {
        r.push(s[i]);
        assert(s@.subrange(a as int, i + 1) =~= s@.subrange(a as int, i as int).push(s@[i as int]));
        i += 1;
    }
    r
}

/// `core::str::from_utf8` accepts a byte string exactly when it is
/// well-formed UTF-8; this tells whether it does.
#[verifier::external_body]
fn utf8_p(bytes: &[u8]) -> (r: bool)
    ensures
        r == vstd::utf8::valid_utf8(bytes@),
{
    core::str::from_utf8(bytes).is_ok()
}

/// Parses a number token: a signed 64-bit integer first, a float second.
pub fn process_num(token: &[u8]) -> (r: Result<Form, SlErrCode>)
    ensures
        match spec_process_num(token@) {
            Ok(tree) => r is Ok && r->Ok_0@ == tree,
            Err(e) => r is Err && r->Err_0 == e,
        },
{
    match parse_int(token) {
        Some(n) => Ok(Form::Int(n)),
        None => {
            if float_literal_p(token) {
                assert(token@.subrange(0, token@.len() as int) =~= token@);
                Ok(Form::Float(slice_copy(token, 0, token.len())))
            } else {
                Err(SlErrCode::ParseInvalidNum)
            }
        },
    }
}

/// Reads a basic symbol that starts at `pos` and interns its name.
pub fn read_symbol(s: &[u8], pos: usize, tbl: &mut Stab) -> (r: Result<(Form, usize), SlErrCode>)
    requires
        pos <= s.len(),
        old(tbl).wf(),
    ensures
        final(tbl).wf(),
        old(tbl)@.is_prefix_of(final(tbl)@),
        agrees(r, spec_read_symbol(s@, pos as int, old(tbl)@), final(tbl)@),
        r is Ok ==> pos <= r->Ok_0.1 <= s.len(),
{
    let end: usize = match token_end(s, pos, TokenClass::Symbol) {
        Ok(end) => end,
        Err(e) => {
            return Err(e);
        },
    };
    let name: Vec<u8> = slice_copy(s, pos, end);
    match tbl.try_get_id(name.as_slice()) {
        Some(id) => Ok((Form::Sym(id), end)),
        None => Err(SlErrCode::ErrorUnknown),
    }
}

/// Reads the word after a mode sigil and makes the symbol of that mode.
pub fn read_spec_sym(s: &[u8], pos: usize, tbl: &mut Stab, mode: SymbolMode) -> (r: Result<
    (Form, usize),
    SlErrCode,
>)
    requires
        pos <= s.len(),
        old(tbl).wf(),
    ensures
        final(tbl).wf(),
        old(tbl)@.is_prefix_of(final(tbl)@),
        agrees(r, spec_read_spec_sym(s@, pos as int, old(tbl)@, mode), final(tbl)@),
        r is Ok ==> pos <= r->Ok_0.1 <= s.len(),
{
    let end: usize = match token_end(s, pos, TokenClass::SpecSym) {
        Ok(end) => end,
        Err(e) => {
            return Err(e);
        },
    };
    if end == pos {
        return Err(SlErrCode::ParseUnexpectedEnd);
    }
    let name: Vec<u8> = slice_copy(s, pos, end);
    match tbl.try_get_id(name.as_slice()) {
        Some(id) => Ok((Form::Sym(modeize_sym(id, mode)), end)),
        None => Err(SlErrCode::ErrorUnknown),
    }
}

/// Reads a string up to the next double quote; no escapes.
pub fn read_string(s: &[u8], pos: usize, tbl: &Stab) -> (r: Result<(Form, usize), SlErrCode>)
    requires
        pos <= s.len(),
    ensures
        agrees(r, spec_read_string(s@, pos as int, tbl@), tbl@),
        r is Ok ==> pos < r->Ok_0.1 <= s.len(),
{
    let q: usize = find_byte(s, pos, DQUOTE);
    if q >= s.len() {
        return Err(SlErrCode::ParseUnexpectedEnd);
    }
    let bytes: Vec<u8> = slice_copy(s, pos, q);
    if !utf8_p(bytes.as_slice()) {
        return Err(SlErrCode::ParseInvalidString);
    }
    Ok((Form::Str(bytes), q + 1))
}

/// Reads a number token that starts at `pos`.
pub fn read_number(s: &[u8], pos: usize, tbl: &Stab) -> (r: Result<(Form, usize), SlErrCode>)
    requires
        pos <= s.len(),
    ensures
        agrees(r, spec_read_number(s@, pos as int, tbl@), tbl@),
        r is Ok ==> pos <= r->Ok_0.1 <= s.len(),
{
    let end: usize = match token_end(s, pos, TokenClass::Number) {
        Ok(end) => end,
        Err(e) => {
            return Err(e);
        },
    };
    let token: Vec<u8> = slice_copy(s, pos, end);
    match process_num(token.as_slice()) {
        Ok(f) => Ok((f, end)),
        Err(e) => Err(e),
    }
}

/// Reads the token after `#`: `T` or `F` in either case, and nothing else.
pub fn read_special(s: &[u8], pos: usize, tbl: &Stab) -> (r: Result<(Form, usize), SlErrCode>)
    requires
        pos <= s.len(),
    ensures
        agrees(r, spec_read_special(s@, pos as int, tbl@), tbl@),
        r is Ok ==> pos < r->Ok_0.1 <= s.len(),
{
    let end: usize = match token_end(s, pos, TokenClass::Special) {
        Ok(end) => end,
        Err(e) => {
            return Err(e);
        },
    };
    assert(s@.subrange(pos as int, end as int).len() == end - pos);
    if end == pos {
        return Err(SlErrCode::ParseUnexpectedEnd);
    }
    assert(s@.subrange(pos as int, end as int)[0] == s@[pos as int]);
    if end - pos == 1 && (s[pos] == LOWER_T || s[pos] == UPPER_T) {
        Ok((Form::Bool(true), end))
    } else if end - pos == 1 && (s[pos] == LOWER_F || s[pos] == UPPER_F) {
        Ok((Form::Bool(false), end))
    } else {
        Err(SlErrCode::ParseBadSpecial)
    }
}

/// Chains the items into a list, one reference cell for each.
pub fn list_build(items: Vec<Form>) -> (r: Form)
    ensures
        r@ == list_of(views(items@)),
{
    let ghost trees = views(items@);
    proof {
        lemma_views(items@, items@.len());
    }
    let mut rest: Vec<Form> = items;
    let mut tail: Form = Form::Nil;
    while rest.len() > 0
        invariant
            rest@.len() <= trees.len(),
            forall|i: int| 0 <= i < rest@.len() ==> (#[trigger] rest@[i])@ == trees[i],
            tail@ == list_from(trees, rest@.len() as int),
        decreases rest@.len(),
    {
        let last = rest.pop();
        match last {
            Some(f) => {
                tail = Form::Cell(Box::new(f), Box::new(tail));
            },
            None => {},
        }
    }
    tail
}

/// The bucket that a key falls into.
pub fn bucket_of(key: &Form) -> (r: usize)
    ensures
        r == spec_bucket_of(key@),
        r < MAP_BUCKETS,
{
    match key {
        Form::Sym(id) => (*id % 16) as usize,
        Form::Int(n) => {
            if *n >= 0 {
                (*n % 16) as usize
            } else {
                let m: i64 = (-(*n + 1)) % 16;
                (15 - m) as usize
            }
        },
        Form::Bool(b) => if *b {
            1
        } else {
            0
        },
        Form::Str(b) => b.len() % 16,
        Form::Float(t) => t.len() % 16,
        _ => 0,
    }
}

/// Builds the map of alternating keys and values: each pair goes to the end
/// of the chain of its key's bucket; a last key without a value is dropped.
pub fn map_build(items: &Vec<Form>) -> (r: Form)
    ensures
        r@ == map_of(views(items@)),
{
    let ghost trees = views(items@);
    proof {
        lemma_views(items@, items@.len());
    }
    let pairs: usize = items.len() / 2;
    let mut buckets: Vec<Form> = Vec::new();
    let mut b: usize = 0;
    while b < MAP_BUCKETS
        invariant
            b <= MAP_BUCKETS,
            pairs == items@.len() / 2,
            trees == views(items@),
            trees.len() == items@.len(),
            forall|i: int| 0 <= i < items@.len() ==> (#[trigger] items@[i])@ == trees[i],
            buckets@.len() == b,
            forall|j: int| 0 <= j < b ==> (#[trigger] buckets@[j])@ == bucket_chain(trees, j, 0),
        decreases MAP_BUCKETS - b,
    {
        let mut chain: Form = Form::Nil;
        let mut k: usize = pairs;
        while k > 0
            invariant
                k <= pairs,
                pairs == items@.len() / 2,
                trees.len() == items@.len(),
                forall|i: int| 0 <= i < items@.len() ==> (#[trigger] items@[i])@ == trees[i],
                chain@ == bucket_chain(trees, b as int, k as int),
            decreases k,
        {
            k -= 1;
            assert(2 * k + 1 < items.len());
            proof {
                reveal_with_fuel(crate::form::tree_of, 4);
            }
            let key: &Form = &items[2 * k];
            if bucket_of(key) == b {
                let entry = Form::Cell(
                    Box::new(key.copy()),
                    Box::new(Form::Cell(Box::new(items[2 * k + 1].copy()), Box::new(Form::Nil))),
                );
                chain = Form::Cell(Box::new(entry), Box::new(chain));
            }
        }
        buckets.push(chain);
        b += 1;
    }
    proof {
        lemma_views(buckets@, buckets@.len());
        assert(views(buckets@) =~= Seq::new(16, |b: int| bucket_chain(trees, b, 0)));
    }
    Form::Hash(buckets)
}

/// Reads one form from `pos` on: the reader can tell from the first byte
/// after blanks and comments which kind of form follows.
pub fn read_value(s: &[u8], pos: usize, tbl: &mut Stab) -> (r: Result<(Form, usize), SlErrCode>)
    requires
        pos <= s.len(),
        old(tbl).wf(),
    ensures
        final(tbl).wf(),
        old(tbl)@.is_prefix_of(final(tbl)@),
        agrees(r, spec_read_value(s@, pos as int, old(tbl)@), final(tbl)@),
        r is Ok ==> pos < r->Ok_0.1 <= s.len(),
    decreases s.len() - pos, 0int,
{
    let p: usize = match skip_blank(s, pos) {
        Ok(p) => p,
        Err(e) => {
            return Err(e);
        },
    };
    let c: u8 = s[p];
    if c == QUOTE {
        read_quote(s, p + 1, tbl)
    } else if c == LPAREN {
        read_list(s, p + 1, tbl)
    } else if c == LBRACKET {
        read_vec(s, p + 1, tbl)
    } else if c == LBRACE {
        read_map(s, p + 1, tbl)
    } else if c == COLON {
        read_spec_sym(s, p + 1, tbl, SymbolMode::Keyword)
    } else if c == DOLLAR {
        read_spec_sym(s, p + 1, tbl, SymbolMode::Type)
    } else if c == AT {
        read_spec_sym(s, p + 1, tbl, SymbolMode::Module)
    } else if c == DQUOTE {
        read_string(s, p + 1, tbl)
    } else if c == HASH {
        read_special(s, p + 1, tbl)
    } else if c == PLUS || c == MINUS {
        if p + 1 < s.len() && digit_p(s[p + 1]) {
            let r = read_number(s, p, tbl);
            proof {
                lemma_token_nonempty(s@, p as int, TokenClass::Number);
            }
            r
        } else {
            let r = read_symbol(s, p, tbl);
            proof {
                lemma_token_nonempty(s@, p as int, TokenClass::Symbol);
            }
            r
        }
    } else if c == STAR || c == SLASH || c == LESS || c == EQUALS || c == GREATER || c
        == UNDERSCORE || alpha_p(c) {
        let r = read_symbol(s, p, tbl);
        proof {
            lemma_token_nonempty(s@, p as int, TokenClass::Symbol);
        }
        r
    } else if digit_p(c) {
        let r = read_number(s, p, tbl);
        proof {
            lemma_token_nonempty(s@, p as int, TokenClass::Number);
        }
        r
    } else {
        Err(SlErrCode::ParseInvalidChar)
    }
}

/// A token that starts with a byte of its class, no delimiter, is not empty.
pub proof fn lemma_token_nonempty(s: Seq<u8>, pos: int, class: TokenClass)
    requires
        0 <= pos < s.len(),
        !is_delim(s[pos]),
        allowed(class, s[pos]),
    ensures
        spec_token_end(s, pos, class) is Ok ==> spec_token_end(s, pos, class)->Ok_0 > pos,
{
    lemma_token_end_bounds(s, pos + 1, class);
}

/// A token ends at or after the position where it starts.
pub proof fn lemma_token_end_bounds(s: Seq<u8>, pos: int, class: TokenClass)
    requires
        0 <= pos <= s.len(),
    ensures
        spec_token_end(s, pos, class) is Ok ==> pos <= spec_token_end(s, pos, class)->Ok_0
            <= s.len(),
    decreases s.len() - pos,
{
    if pos < s.len() && !is_delim(s[pos]) && allowed(class, s[pos]) {
        lemma_token_end_bounds(s, pos + 1, class);
    }
}

/// Reads the form after a quote mark and wraps it in an application of `quote`.
pub fn read_quote(s: &[u8], pos: usize, tbl: &mut Stab) -> (r: Result<(Form, usize), SlErrCode>)
    requires
        pos <= s.len(),
        old(tbl).wf(),
    ensures
        final(tbl).wf(),
        old(tbl)@.is_prefix_of(final(tbl)@),
        match spec_read_value(s@, pos as int, old(tbl)@) {
            Ok((tree, end, t)) => r is Ok && r->Ok_0.0@ == quoted(tree) && r->Ok_0.1 == end
                && final(tbl)@ == t,
            Err(e) => r is Err && r->Err_0 == e.0 && final(tbl)@ == e.1,
        },
        r is Ok ==> pos < r->Ok_0.1 <= s.len(),
    decreases s.len() - pos, 1int,
{
    proof {
        reveal_with_fuel(crate::form::tree_of, 4);
    }
    match read_value(s, pos, tbl) {
        Ok((f, end)) => {
            let inner = Form::Cell(Box::new(f), Box::new(Form::Nil));
            Ok((Form::Cell(Box::new(Form::Sym(SP_QUOTE)), Box::new(inner)), end))
        },
        Err(e) => Err(e),
    }
}

/// Reads forms up to the closing byte `close`; `pos` is just past the
/// opening bracket.
pub fn read_items(s: &[u8], pos: usize, tbl: &mut Stab, close: u8) -> (r: Result<
    (Vec<Form>, usize),
    SlErrCode,
>)
    requires
        pos <= s.len(),
        old(tbl).wf(),
    ensures
        final(tbl).wf(),
        old(tbl)@.is_prefix_of(final(tbl)@),
        match spec_read_items(s@, pos as int, old(tbl)@, close, Seq::empty()) {
            Ok((items, end, t)) => r is Ok && views(r->Ok_0.0@) == items && r->Ok_0.1 == end
                && final(tbl)@ == t,
            Err(e) => r is Err && r->Err_0 == e.0 && final(tbl)@ == e.1,
        },
        r is Ok ==> pos < r->Ok_0.1 <= s.len(),
    decreases s.len() - pos, 1int,
{
    let mut items: Vec<Form> = Vec::new();
    let mut i: usize = pos;
    let ghost want = spec_read_items(s@, pos as int, old(tbl)@, close, Seq::empty());
    proof {
        lemma_views(items@, 0);
        assert(views(items@) =~= Seq::<Tree>::empty());
    }
    loop
        invariant
            pos <= i <= s.len(),
            tbl.wf(),
            old(tbl)@.is_prefix_of(tbl@),
            spec_read_items(s@, i as int, tbl@, close, views(items@)) == want,
            want == spec_read_items(s@, pos as int, old(tbl)@, close, Seq::empty()),
        decreases s.len() - i,
    {
        if i >= s.len() {
            return Err(SlErrCode::ParseUnexpectedEnd);
        }
        let c: u8 = s[i];
        if c == close {
            return Ok((items, i + 1));
        } else if c == SEMICOLON {
            let q: usize = find_byte(s, i, NEWLINE);
            if q >= s.len() {
                return Err(SlErrCode::ParseUnexpectedEnd);
            }
            i = q + 1;
        } else if space_p(c) {
            i += 1;
        } else {
            let ghost before = tbl@;
            let r = read_value(s, i, tbl);
            proof {
                crate::stab::lemma_prefix_trans(old(tbl)@, before, tbl@);
            }
            match r {
                Ok((f, end)) => {
                    proof {
                        lemma_views_push(items@, f);
                    }
                    items.push(f);
                    i = end;
                },
                Err(e) => {
                    return Err(e);
                },
            }
        }
    }
}

/// Reads a list; the empty list is nil.
pub fn read_list(s: &[u8], pos: usize, tbl: &mut Stab) -> (r: Result<(Form, usize), SlErrCode>)
    requires
        pos <= s.len(),
        old(tbl).wf(),
    ensures
        final(tbl).wf(),
        old(tbl)@.is_prefix_of(final(tbl)@),
        match spec_read_items(s@, pos as int, old(tbl)@, RPAREN, Seq::empty()) {
            Ok((items, end, t)) => r is Ok && r->Ok_0.0@ == list_of(items) && r->Ok_0.1 == end
                && final(tbl)@ == t,
            Err(e) => r is Err && r->Err_0 == e.0 && final(tbl)@ == e.1,
        },
        r is Ok ==> pos < r->Ok_0.1 <= s.len(),
    decreases s.len() - pos, 2int,
{
    match read_items(s, pos, tbl, RPAREN) {
        Ok((items, end)) => Ok((list_build(items), end)),
        Err(e) => Err(e),
    }
}

/// Reads a vector of forms.
pub fn read_vec(s: &[u8], pos: usize, tbl: &mut Stab) -> (r: Result<(Form, usize), SlErrCode>)
    requires
        pos <= s.len(),
        old(tbl).wf(),
    ensures
        final(tbl).wf(),
        old(tbl)@.is_prefix_of(final(tbl)@),
        match spec_read_items(s@, pos as int, old(tbl)@, RBRACKET, Seq::empty()) {
            Ok((items, end, t)) => r is Ok && r->Ok_0.0@ == Tree::Vector(items) && r->Ok_0.1
                == end && final(tbl)@ == t,
            Err(e) => r is Err && r->Err_0 == e.0 && final(tbl)@ == e.1,
        },
        r is Ok ==> pos < r->Ok_0.1 <= s.len(),
    decreases s.len() - pos, 2int,
{
    match read_items(s, pos, tbl, RBRACKET) {
        Ok((items, end)) => Ok((Form::Vector(items), end)),
        Err(e) => Err(e),
    }
}

/// Reads a map from alternating keys and values.
pub fn read_map(s: &[u8], pos: usize, tbl: &mut Stab) -> (r: Result<(Form, usize), SlErrCode>)
    requires
        pos <= s.len(),
        old(tbl).wf(),
    ensures
        final(tbl).wf(),
        old(tbl)@.is_prefix_of(final(tbl)@),
        match spec_read_items(s@, pos as int, old(tbl)@, RBRACE, Seq::empty()) {
            Ok((items, end, t)) => r is Ok && r->Ok_0.0@ == map_of(items) && r->Ok_0.1 == end
                && final(tbl)@ == t,
            Err(e) => r is Err && r->Err_0 == e.0 && final(tbl)@ == e.1,
        },
        r is Ok ==> pos < r->Ok_0.1 <= s.len(),
    decreases s.len() - pos, 2int,
{
    match read_items(s, pos, tbl, RBRACE) {
        Ok((items, end)) => Ok((map_build(&items), end)),
        Err(e) => Err(e),
    }
}

/// Reads the first form of `code`; in file mode, the whole of `code` as the
/// body of one `(do ...)` form. What follows the first form is not looked at.
pub fn read(tbl: &mut Stab, code: &[u8], file: bool) -> (r: Result<Form, SlErrCode>)
    requires
        old(tbl).wf(),
    ensures
        final(tbl).wf(),
        old(tbl)@.is_prefix_of(final(tbl)@),
        match spec_read(code@, file, old(tbl)@) {
            Ok((tree, end, t)) => r is Ok && r->Ok_0@ == tree && final(tbl)@ == t,
            Err(e) => r is Err && r->Err_0 == e.0 && final(tbl)@ == e.1,
        },
{
    if file {
        let mut text: Vec<u8> = Vec::new();
        text.push(LPAREN);
        text.push(LOWER_D);
        text.push(LOWER_O);
        text.push(SPACE);
        let mut i: usize = 0;
        while i < code.len()
            invariant
                i <= code.len(),
                text@ == seq![LPAREN, LOWER_D, LOWER_O, SPACE] + code@.take(i as int),
            decreases code.len() - i,
        {
            text.push(code[i]);
            assert(code@.take(i + 1) =~= code@.take(i as int).push(code@[i as int]));
            assert(text@ =~= seq![LPAREN, LOWER_D, LOWER_O, SPACE] + code@.take(i + 1));
            i += 1;
        }
        text.push(RPAREN);
        assert(code@.take(code.len() as int) =~= code@);
        assert(text@ =~= source_text(code@, file));
        match read_value(text.as_slice(), 0, tbl) {
            Ok((f, end)) => Ok(f),
            Err(e) => Err(e),
        }
    } else {
        match read_value(code, 0, tbl) {
            Ok((f, end)) => Ok(f),
            Err(e) => Err(e),
        }
    }
}

/// Parses the text of one expression into a structure of values in the
/// region, interning its symbols in the table, and returns its handle.
///
/// A text that the grammar rejects gives the grammar's error and leaves the
/// region as it was. A `str` is well-formed UTF-8, so the error is never
/// that of a string that is not. A text that it accepts is written into the region; if
/// the region has too little room for it, the error is `ErrorUnknown`, and
/// the blocks made so far stay.
pub fn parse(reg: &mut Region, tbl: &mut Stab, code: &str, file: bool) -> (r: Result<
    SlHndl,
    SlErrCode,
>)
    requires
        old(reg).wf(),
        old(tbl).wf(),
    ensures
        final(reg).wf(),
        final(tbl).wf(),
        old(tbl)@.is_prefix_of(final(tbl)@),
        old(reg).extended_by(*final(reg)),
        old(reg).heads_kept(*final(reg)),
        r is Err ==> crate::kinds::plain_error(r->Err_0),
        r is Err && r->Err_0 == SlErrCode::ErrorUnknown ==> final(tbl)@.len()
            >= crate::symbol::NAME_SPACE || (spec_read(code.spec_bytes(), file, old(tbl)@) is Ok
            && old(reg).spec_free() < spec_size(
            spec_read(code.spec_bytes(), file, old(tbl)@)->Ok_0.0,
        )),
        match spec_read(code.spec_bytes(), file, old(tbl)@) {
            Err(e) => r is Err && r->Err_0 == e.0 && final(tbl)@ == e.1 && *final(reg) == *old(
                reg,
            ),
            Ok((tree, end, t)) => {
                &&& final(tbl)@ == t
                &&& if old(reg).spec_free() >= spec_size(tree) {
                    &&& r is Ok
                    &&& r->Ok_0.idx < final(reg).len()
                    &&& final(reg).tree_at(r->Ok_0.idx as int) == tree
                    &&& final(reg).used == old(reg).used + spec_size(tree)
                    &&& final(reg).fresh_counts(old(reg).len(), r->Ok_0)
                } else {
                    r is Err && r->Err_0 == SlErrCode::ErrorUnknown
                }
            },
        },
{
    proof {
        vstd::utf8::encode_utf8_valid_utf8(code@);
        crate::kinds::lemma_read_error(code.spec_bytes(), file, old(tbl)@);
    }
    match read(tbl, code.as_bytes(), file) {
        Err(e) => Err(e),
        Ok(f) => match store(reg, &f) {
            Some(h) => Ok(h),
            None => Err(SlErrCode::ErrorUnknown),
        },
    }
}

} // verus!
