//! Lexer for the assembler source language.
//!
//! `spec_lex` defines, over the character sequence of the input, the exact
//! list of located tokens the language assigns to it; [`Lexer`] computes
//! that list and hands the tokens out one by one.
//!
//! In the initial state whitespace is skipped and `#` starts a comment that
//! runs to the end of the line. Keywords (mnemonics, register aliases,
//! segment directives) are recognised longest-match with a trailing
//! boundary check: a match counts only when the following character cannot
//! extend an identifier, so `add1` is an identifier, not `add` + `1`.

use vstd::prelude::*;

use crate::types::{Bl, Instr, Loc, Token, TokenV};
use vstd::std_specs::iter::IteratorSpec;

verus! {

/// One lexed item: a located token, or the location of a malformed lexeme.
pub type LexItem = Result<(Loc, Token), Loc>;

/// Spec-level value of a [`LexItem`].
pub type LexItemV = Result<(Loc, TokenV), Loc>;

/// Spec-level value of one lexed item.
pub open spec fn lex_item_view(it: LexItem) -> LexItemV {
    match it {
        Ok((l, t)) => Ok((l, t@)),
        Err(l) => Err(l),
    }
}

/// Lexer position: index into the input and the source row and column of
/// that index.
pub ghost struct LexState {
    pub i: int,
    pub row: int,
    pub col: int,
}

/// Advance `n` characters within the current line.
pub open spec fn lex_adv(st: LexState, n: int) -> LexState {
    LexState { i: st.i + n, row: st.row, col: st.col + n }
}

/// The source location of a lexer position.
pub open spec fn loc_of(st: LexState) -> Loc {
    Loc { row: st.row as u32, col: st.col as u32 }
}

pub open spec fn is_digit(c: char) -> bool {
    '0' <= c <= '9'
}

pub open spec fn is_id_start(c: char) -> bool {
    ('a' <= c <= 'z') || ('A' <= c <= 'Z') || c == '_'
}

pub open spec fn is_id_char(c: char) -> bool {
    is_id_start(c) || is_digit(c)
}

pub open spec fn is_hex_digit(c: char) -> bool {
    is_digit(c) || ('a' <= c <= 'f') || ('A' <= c <= 'F')
}

/// A character that may not directly follow a hexadecimal immediate:
/// an identifier character that is not itself a hexadecimal digit.
pub open spec fn is_hex_boundary_violation(c: char) -> bool {
    is_id_char(c) && !is_hex_digit(c)
}

/// End of the run of identifier characters starting at `i`.
pub open spec fn ident_end(s: Seq<char>, i: int) -> int
    decreases s.len() - i,
{
    if 0 <= i < s.len() && is_id_char(s[i]) {
        ident_end(s, i + 1)
    } else {
        i
    }
}

/// End of the run of decimal digits starting at `i`.
pub open spec fn digits_end(s: Seq<char>, i: int) -> int
    decreases s.len() - i,
{
    if 0 <= i < s.len() && is_digit(s[i]) {
        digits_end(s, i + 1)
    } else {
        i
    }
}

/// End of the run of hexadecimal digits starting at `i`.
pub open spec fn hex_end(s: Seq<char>, i: int) -> int
    decreases s.len() - i,
{
    if 0 <= i < s.len() && is_hex_digit(s[i]) {
        hex_end(s, i + 1)
    } else {
        i
    }
}

/// Index of the first `'\n'` at or after `i`, or the input length.
pub open spec fn line_end(s: Seq<char>, i: int) -> int
    decreases s.len() - i,
{
    if 0 <= i < s.len() {
        if s[i] == '\n' {
            i
        } else {
            line_end(s, i + 1)
        }
    } else {
        i
    }
}

proof fn lemma_ident_end(s: Seq<char>, i: int)
    requires
        0 <= i <= s.len(),
    ensures
        i <= ident_end(s, i) <= s.len(),
        forall|j: int| i <= j < ident_end(s, i) ==> is_id_char(s[j]),
        ident_end(s, i) < s.len() ==> !is_id_char(s[ident_end(s, i)]),
    decreases s.len() - i,
{
    if i < s.len() && is_id_char(s[i]) {
        lemma_ident_end(s, i + 1);
    }
}

proof fn lemma_digits_end(s: Seq<char>, i: int)
    requires
        0 <= i <= s.len(),
    ensures
        i <= digits_end(s, i) <= s.len(),
        forall|j: int| i <= j < digits_end(s, i) ==> is_digit(s[j]),
        digits_end(s, i) < s.len() ==> !is_digit(s[digits_end(s, i)]),
    decreases s.len() - i,
{
    if i < s.len() && is_digit(s[i]) {
        lemma_digits_end(s, i + 1);
    }
}

proof fn lemma_hex_end(s: Seq<char>, i: int)
    requires
        0 <= i <= s.len(),
    ensures
        i <= hex_end(s, i) <= s.len(),
        forall|j: int| i <= j < hex_end(s, i) ==> is_hex_digit(s[j]),
        hex_end(s, i) < s.len() ==> !is_hex_digit(s[hex_end(s, i)]),
    decreases s.len() - i,
{
    if i < s.len() && is_hex_digit(s[i]) {
        lemma_hex_end(s, i + 1);
    }
}

proof fn lemma_line_end(s: Seq<char>, i: int)
    requires
        0 <= i <= s.len(),
    ensures
        i <= line_end(s, i) <= s.len(),
        line_end(s, i) < s.len() ==> s[line_end(s, i)] == '\n',
        forall|j: int| i <= j < line_end(s, i) ==> s[j] != '\n',
    decreases s.len() - i,
{
    if i < s.len() && s[i] != '\n' {
        lemma_line_end(s, i + 1);
    }
}

/// Position after skipping whitespace and comments from `st`.
pub open spec fn skip_trivia(s: Seq<char>, st: LexState) -> LexState
    decreases s.len() - st.i,
        via skip_trivia_dec
{
    if !(0 <= st.i < s.len()) {
        st
    } else if s[st.i] == ' ' || s[st.i] == '\t' {
        skip_trivia(s, lex_adv(st, 1))
    } else if s[st.i] == '\n' {
        skip_trivia(s, LexState { i: st.i + 1, row: st.row + 1, col: 0 })
    } else if s[st.i] == '\r' && st.i + 1 < s.len() && s[st.i + 1] == '\n' {
        skip_trivia(s, LexState { i: st.i + 2, row: st.row + 1, col: 0 })
    } else if s[st.i] == '#' {
        let e = line_end(s, st.i);
        if e >= s.len() {
            LexState { i: s.len() as int, row: st.row, col: st.col }
        } else {
            skip_trivia(s, LexState { i: e + 1, row: st.row + 1, col: 0 })
        }
    } else {
        st
    }
}

#[via_fn]
proof fn skip_trivia_dec(s: Seq<char>, st: LexState) {
    if 0 <= st.i < s.len() && s[st.i] == '#' {
        lemma_line_end(s, st.i);
    }
}

/// The instruction mnemonic spelled by `w`, if any.
pub open spec fn instr_of(w: Seq<char>) -> Option<Instr> {
    if w.len() == 1 {
        if w[0] == 'j' {
            Some(Instr::J)
        } else {
            None
        }
    } else if w.len() == 2 {
        if w[0] == 'o' && w[1] == 'r' {
            Some(Instr::Or)
        } else if w[0] == 's' && w[1] == 'l' {
            Some(Instr::Sl)
        } else if w[0] == 's' && w[1] == 'r' {
            Some(Instr::Sr)
        } else if w[0] == 'l' && w[1] == 'w' {
            Some(Instr::Lw)
        } else if w[0] == 's' && w[1] == 'w' {
            Some(Instr::Sw)
        } else if w[0] == 'l' && w[1] == 'a' {
            Some(Instr::La)
        } else if w[0] == 'j' && w[1] == 'a' {
            Some(Instr::Ja)
        } else {
            None
        }
    } else if w.len() == 3 {
        if w[0] == 'a' && w[1] == 'n' && w[2] == 'd' {
            Some(Instr::And)
        } else if w[0] == 'x' && w[1] == 'o' && w[2] == 'r' {
            Some(Instr::Xor)
        } else if w[0] == 'n' && w[1] == 'o' && w[2] == 't' {
            Some(Instr::Not)
        } else if w[0] == 'a' && w[1] == 'd' && w[2] == 'd' {
            Some(Instr::Add)
        } else if w[0] == 's' && w[1] == 'u' && w[2] == 'b' {
            Some(Instr::Sub)
        } else if w[0] == 'c' && w[1] == 'm' && w[2] == 'p' {
            Some(Instr::Cmp)
        } else if w[0] == 'b' && w[1] == 'e' && w[2] == 'q' {
            Some(Instr::Beq)
        } else if w[0] == 'b' && w[1] == 'n' && w[2] == 'e' {
            Some(Instr::Bne)
        } else if w[0] == 'l' && w[1] == 'u' && w[2] == 'i' {
            Some(Instr::Lui)
        } else if w[0] == 'p' && w[1] == 'o' && w[2] == 'p' {
            Some(Instr::Pop)
        } else {
            None
        }
    } else if w.len() == 4 {
        if w[0] == 'a' && w[1] == 'd' && w[2] == 'd' && w[3] == 'i' {
            Some(Instr::Addi)
        } else if w[0] == 'p' && w[1] == 'u' && w[2] == 's' && w[3] == 'h' {
            Some(Instr::Push)
        } else {
            None
        }
    } else {
        None
    }
}

/// The register id named by `w`, the alias text after `$`, if any.
/// Each id 0..=15 has a numeric and a mnemonic alias.
pub open spec fn reg_of(w: Seq<char>) -> Option<u8> {
    if w.len() == 1 {
        if is_digit(w[0]) {
            Some((w[0] as int - '0' as int) as u8)
        } else if w[0] == 'v' {
            Some(2u8)
        } else {
            None
        }
    } else if w.len() == 2 {
        if w[0] == '1' && '0' <= w[1] <= '5' {
            Some((10 + (w[1] as int - '0' as int)) as u8)
        } else if w[0] == 'a' && w[1] == 't' {
            Some(1u8)
        } else if w[0] == 'a' && '0' <= w[1] <= '2' {
            Some((3 + (w[1] as int - '0' as int)) as u8)
        } else if w[0] == 's' && '0' <= w[1] <= '2' {
            Some((6 + (w[1] as int - '0' as int)) as u8)
        } else if w[0] == 't' && '0' <= w[1] <= '3' {
            Some((9 + (w[1] as int - '0' as int)) as u8)
        } else if w[0] == 'g' && w[1] == 'v' {
            Some(13u8)
        } else if w[0] == 'r' && w[1] == 'a' {
            Some(14u8)
        } else if w[0] == 's' && w[1] == 'p' {
            Some(15u8)
        } else {
            None
        }
    } else if w.len() == 4 {
        if w[0] == 'z' && w[1] == 'e' && w[2] == 'r' && w[3] == 'o' {
            Some(0u8)
        } else {
            None
        }
    } else {
        None
    }
}

/// Every register id 0 through 15 is named by two aliases, its numeric
/// spelling and its mnemonic, and both map to the same id.
pub proof fn lemma_register_aliases()
    ensures
        reg_of("0"@) == Some(0u8) && reg_of("zero"@) == Some(0u8),
        reg_of("1"@) == Some(1u8) && reg_of("at"@) == Some(1u8),
        reg_of("2"@) == Some(2u8) && reg_of("v"@) == Some(2u8),
        reg_of("3"@) == Some(3u8) && reg_of("a0"@) == Some(3u8),
        reg_of("4"@) == Some(4u8) && reg_of("a1"@) == Some(4u8),
        reg_of("5"@) == Some(5u8) && reg_of("a2"@) == Some(5u8),
        reg_of("6"@) == Some(6u8) && reg_of("s0"@) == Some(6u8),
        reg_of("7"@) == Some(7u8) && reg_of("s1"@) == Some(7u8),
        reg_of("8"@) == Some(8u8) && reg_of("s2"@) == Some(8u8),
        reg_of("9"@) == Some(9u8) && reg_of("t0"@) == Some(9u8),
        reg_of("10"@) == Some(10u8) && reg_of("t1"@) == Some(10u8),
        reg_of("11"@) == Some(11u8) && reg_of("t2"@) == Some(11u8),
        reg_of("12"@) == Some(12u8) && reg_of("t3"@) == Some(12u8),
        reg_of("13"@) == Some(13u8) && reg_of("gv"@) == Some(13u8),
        reg_of("14"@) == Some(14u8) && reg_of("ra"@) == Some(14u8),
        reg_of("15"@) == Some(15u8) && reg_of("sp"@) == Some(15u8),
{
    reveal_strlit("0");
    reveal_strlit("zero");
    reveal_strlit("1");
    reveal_strlit("at");
    reveal_strlit("2");
    reveal_strlit("v");
    reveal_strlit("3");
    reveal_strlit("a0");
    reveal_strlit("4");
    reveal_strlit("a1");
    reveal_strlit("5");
    reveal_strlit("a2");
    reveal_strlit("6");
    reveal_strlit("s0");
    reveal_strlit("7");
    reveal_strlit("s1");
    reveal_strlit("8");
    reveal_strlit("s2");
    reveal_strlit("9");
    reveal_strlit("t0");
    reveal_strlit("10");
    reveal_strlit("t1");
    reveal_strlit("11");
    reveal_strlit("t2");
    reveal_strlit("12");
    reveal_strlit("t3");
    reveal_strlit("13");
    reveal_strlit("gv");
    reveal_strlit("14");
    reveal_strlit("ra");
    reveal_strlit("15");
    reveal_strlit("sp");
}

/// The directive named by `w`, the word after `.`, if any.
pub open spec fn block_of(w: Seq<char>) -> Option<Bl> {
    if w.len() == 4 {
        if w[0] == 'd' && w[1] == 'a' && w[2] == 't' && w[3] == 'a' {
            Some(Bl::Data)
        } else if w[0] == 't' && w[1] == 'e' && w[2] == 'x' && w[3] == 't' {
            Some(Bl::Text)
        } else if w[0] == 'w' && w[1] == 'o' && w[2] == 'r' && w[3] == 'd' {
            Some(Bl::Word)
        } else if w[0] == 'a' && w[1] == 'd' && w[2] == 'd' && w[3] == 'r' {
            Some(Bl::Addr)
        } else {
            None
        }
    } else if w.len() == 5 {
        if w[0] == 's' && w[1] == 'p' && w[2] == 'a' && w[3] == 'c' && w[4] == 'e' {
            Some(Bl::Space)
        } else {
            None
        }
    } else {
        None
    }
}

pub open spec fn digit_val(c: char) -> nat {
    (c as nat - '0' as nat) as nat
}

pub open spec fn hex_digit_val(c: char) -> nat {
    if is_digit(c) {
        digit_val(c)
    } else if 'a' <= c <= 'f' {
        (c as nat - 'a' as nat + 10) as nat
    } else {
        (c as nat - 'A' as nat + 10) as nat
    }
}

/// Value of a run of decimal digits, most significant first.
pub open spec fn dec_val(s: Seq<char>) -> nat
    decreases s.len(),
{
    if s.len() == 0 {
        0
    } else {
        dec_val(s.drop_last()) * 10 + digit_val(s.last())
    }
}

/// Value of a run of hexadecimal digits, most significant first.
pub open spec fn hex_val(s: Seq<char>) -> nat
    decreases s.len(),
{
    if s.len() == 0 {
        0
    } else {
        hex_val(s.drop_last()) * 16 + hex_digit_val(s.last())
    }
}

/// Magnitude bound of a negative decimal immediate: `2^63`.
pub open spec fn neg_limit() -> nat {
    0x8000_0000_0000_0000
}

/// The token starting at the non-trivia position `st`, with the position
/// after it, or the location of the malformed lexeme at `st`.
pub open spec fn scan_token(s: Seq<char>, st: LexState) -> (LexItemV, LexState) {
    let loc = loc_of(st);
    let c = s[st.i];
    if c == ',' {
        (Ok((loc, TokenV::Comma)), lex_adv(st, 1))
    } else if c == ':' {
        (Ok((loc, TokenV::Colon)), lex_adv(st, 1))
    } else if c == '$' {
        let e = ident_end(s, st.i + 1);
        match reg_of(s.subrange(st.i + 1, e)) {
            Some(r) => (Ok((loc, TokenV::Register(r))), lex_adv(st, e - st.i)),
            None => (Err(loc), st),
        }
    } else if is_id_start(c) {
        let e = ident_end(s, st.i);
        let w = s.subrange(st.i, e);
        match instr_of(w) {
            Some(op) => (Ok((loc, TokenV::Instruction(op))), lex_adv(st, e - st.i)),
            None => (Ok((loc, TokenV::Identifier(w))), lex_adv(st, e - st.i)),
        }
    } else if c == '.' {
        let e = ident_end(s, st.i + 1);
        match block_of(s.subrange(st.i + 1, e)) {
            Some(b) => (Ok((loc, TokenV::Block(b))), lex_adv(st, e - st.i)),
            None => (Err(loc), st),
        }
    } else if c == '0' && st.i + 2 < s.len() && s[st.i + 1] == 'x' && is_hex_digit(s[st.i + 2]) {
        let e = hex_end(s, st.i + 2);
        if e < s.len() && is_hex_boundary_violation(s[e]) {
            (Err(loc), st)
        } else {
            let m = hex_val(s.subrange(st.i + 2, e));
            if m > i64::MAX as nat {
                (Err(loc), st)
            } else {
                (Ok((loc, TokenV::Immediate(m as i64))), lex_adv(st, e - st.i))
            }
        }
    } else if is_digit(c) || c == '+' || c == '-' {
        let j = if c == '+' || c == '-' {
            st.i + 1
        } else {
            st.i
        };
        let e = digits_end(s, j);
        if e == j {
            (Err(loc), st)
        } else if e < s.len() && is_id_start(s[e]) {
            (Err(loc), st)
        } else {
            let m = dec_val(s.subrange(j, e));
            if c == '-' {
                if m > neg_limit() {
                    (Err(loc), st)
                } else {
                    (Ok((loc, TokenV::Immediate((-(m as int)) as i64))), lex_adv(st, e - st.i))
                }
            } else {
                if m > i64::MAX as nat {
                    (Err(loc), st)
                } else {
                    (Ok((loc, TokenV::Immediate(m as i64))), lex_adv(st, e - st.i))
                }
            }
        }
    } else {
        (Err(loc), st)
    }
}

proof fn lemma_scan_token_advances(s: Seq<char>, st: LexState)
    requires
        0 <= st.i < s.len(),
    ensures
        scan_token(s, st).0 is Ok ==> st.i < scan_token(s, st).1.i <= s.len(),
{
    let c = s[st.i];
    if c == ',' || c == ':' {
    } else if c == '$' || c == '.' {
        lemma_ident_end(s, st.i + 1);
    } else if is_id_start(c) {
        lemma_ident_end(s, st.i);
    } else if c == '0' && st.i + 2 < s.len() && s[st.i + 1] == 'x' && is_hex_digit(s[st.i + 2]) {
        lemma_hex_end(s, st.i + 2);
    } else if is_digit(c) || c == '+' || c == '-' {
        let j = if c == '+' || c == '-' {
            st.i + 1
        } else {
            st.i
        };
        lemma_digits_end(s, j);
    }
}

/// All items lexed from position `st` to the end of the input; lexing
/// stops after the first malformed lexeme.
pub open spec fn lex_from(s: Seq<char>, st: LexState) -> Seq<LexItemV>
    decreases s.len() - st.i,
        via lex_from_dec
{
    let st1 = skip_trivia(s, st);
    if !(0 <= st.i <= st1.i <= s.len()) {
        Seq::empty()
    } else if st1.i >= s.len() {
        Seq::empty()
    } else {
        let (item, st2) = scan_token(s, st1);
        match item {
            Ok(_) => seq![item] + lex_from(s, st2),
            Err(_) => seq![item],
        }
    }
}

#[via_fn]
proof fn lex_from_dec(s: Seq<char>, st: LexState) {
    let st1 = skip_trivia(s, st);
    if 0 <= st.i <= st1.i < s.len() {
        lemma_scan_token_advances(s, st1);
    }
}

/// The list of items the language assigns to input `s`: tokens in source
/// order, each with the location of its first character; a malformed
/// lexeme contributes its location as a final error item.
pub open spec fn spec_lex(s: Seq<char>) -> Seq<LexItemV> {
    lex_from(s, LexState { i: 0, row: 0, col: 0 })
}

proof fn lemma_skip_trivia_bounds(s: Seq<char>, st: LexState)
    requires
        0 <= st.i <= s.len(),
        0 <= st.col <= st.i,
        0 <= st.row <= st.i,
    ensures
        st.i <= skip_trivia(s, st).i <= s.len(),
        0 <= skip_trivia(s, st).col <= skip_trivia(s, st).i,
        0 <= skip_trivia(s, st).row <= skip_trivia(s, st).i,
        skip_trivia(s, skip_trivia(s, st)) == skip_trivia(s, st),
    decreases s.len() - st.i,
{
    if 0 <= st.i < s.len() {
        let c = s[st.i];
        if c == ' ' || c == '\t' {
            lemma_skip_trivia_bounds(s, lex_adv(st, 1));
        } else if c == '\n' {
            lemma_skip_trivia_bounds(s, LexState { i: st.i + 1, row: st.row + 1, col: 0 });
        } else if c == '\r' && st.i + 1 < s.len() && s[st.i + 1] == '\n' {
            lemma_skip_trivia_bounds(s, LexState { i: st.i + 2, row: st.row + 1, col: 0 });
        } else if c == '#' {
            lemma_line_end(s, st.i);
            let e = line_end(s, st.i);
            if e < s.len() {
                lemma_skip_trivia_bounds(s, LexState { i: e + 1, row: st.row + 1, col: 0 });
            }
        }
    }
}

/// Spec-level values of a list of lexed items.
pub open spec fn items_view(s: Seq<LexItem>) -> Seq<LexItemV> {
    s.map_values(|it: LexItem| lex_item_view(it))
}

fn ch_is_digit(c: char) -> (r: bool)
    ensures
        r == is_digit(c),
{
    '0' <= c && c <= '9'
}

fn ch_is_id_start(c: char) -> (r: bool)
    ensures
        r == is_id_start(c),
{
    ('a' <= c && c <= 'z') || ('A' <= c && c <= 'Z') || c == '_'
}

fn ch_is_id_char(c: char) -> (r: bool)
    ensures
        r == is_id_char(c),
{
    ch_is_id_start(c) || ch_is_digit(c)
}

fn ch_is_hex_digit(c: char) -> (r: bool)
    ensures
        r == is_hex_digit(c),
{
    ch_is_digit(c) || ('a' <= c && c <= 'f') || ('A' <= c && c <= 'F')
}

fn ident_run_end(s: &Vec<char>, i: usize) -> (e: usize)
    requires
        i <= s@.len(),
    ensures
        e as int == ident_end(s@, i as int),
        i <= e <= s@.len(),
        forall|j: int| i <= j < e ==> is_id_char(s@[j]),
        e < s@.len() ==> !is_id_char(s@[e as int]),
    decreases s@.len() - i,
{
    let mut k = i;
    loop
        invariant
            i <= k <= s@.len(),
            ident_end(s@, i as int) == ident_end(s@, k as int),
        ensures
            k as int == ident_end(s@, i as int),
        decreases s@.len() - k,
    {
        if k < s.len() && ch_is_id_char(s[k]) {
            k = k + 1;
        } else {
            break ;
        }
    }
    proof {
        lemma_ident_end(s@, i as int);
    }
    k
}

fn digits_run_end(s: &Vec<char>, i: usize) -> (e: usize)
    requires
        i <= s@.len(),
    ensures
        e as int == digits_end(s@, i as int),
        i <= e <= s@.len(),
        forall|j: int| i <= j < e ==> is_digit(s@[j]),
        e < s@.len() ==> !is_digit(s@[e as int]),
    decreases s@.len() - i,
{
    let mut k = i;
    loop
        invariant
            i <= k <= s@.len(),
            digits_end(s@, i as int) == digits_end(s@, k as int),
        ensures
            k as int == digits_end(s@, i as int),
        decreases s@.len() - k,
    {
        if k < s.len() && ch_is_digit(s[k]) {
            k = k + 1;
        } else {
            break ;
        }
    }
    proof {
        lemma_digits_end(s@, i as int);
    }
    k
}

fn hex_run_end(s: &Vec<char>, i: usize) -> (e: usize)
    requires
        i <= s@.len(),
    ensures
        e as int == hex_end(s@, i as int),
        i <= e <= s@.len(),
        forall|j: int| i <= j < e ==> is_hex_digit(s@[j]),
        e < s@.len() ==> !is_hex_digit(s@[e as int]),
    decreases s@.len() - i,
{
    let mut k = i;
    loop
        invariant
            i <= k <= s@.len(),
            hex_end(s@, i as int) == hex_end(s@, k as int),
        ensures
            k as int == hex_end(s@, i as int),
        decreases s@.len() - k,
    {
        if k < s.len() && ch_is_hex_digit(s[k]) {
            k = k + 1;
        } else {
            break ;
        }
    }
    proof {
        lemma_hex_end(s@, i as int);
    }
    k
}

fn instr_lookup(s: &Vec<char>, start: usize, end: usize) -> (r: Option<Instr>)
    requires
        start <= end <= s@.len(),
    ensures
        r == instr_of(s@.subrange(start as int, end as int)),
{
    let n = end - start;
    if n == 1 {
        if s[start] == 'j' {
            Some(Instr::J)
        } else {
            None
        }
    } else if n == 2 {
        let c0 = s[start];
        let c1 = s[start + 1];
        if c0 == 'o' && c1 == 'r' {
            Some(Instr::Or)
        } else if c0 == 's' && c1 == 'l' {
            Some(Instr::Sl)
        } else if c0 == 's' && c1 == 'r' {
            Some(Instr::Sr)
        } else if c0 == 'l' && c1 == 'w' {
            Some(Instr::Lw)
        } else if c0 == 's' && c1 == 'w' {
            Some(Instr::Sw)
        } else if c0 == 'l' && c1 == 'a' {
            Some(Instr::La)
        } else if c0 == 'j' && c1 == 'a' {
            Some(Instr::Ja)
        } else {
            None
        }
    } else if n == 3 {
        let c0 = s[start];
        let c1 = s[start + 1];
        let c2 = s[start + 2];
        if c0 == 'a' && c1 == 'n' && c2 == 'd' {
            Some(Instr::And)
        } else if c0 == 'x' && c1 == 'o' && c2 == 'r' {
            Some(Instr::Xor)
        } else if c0 == 'n' && c1 == 'o' && c2 == 't' {
            Some(Instr::Not)
        } else if c0 == 'a' && c1 == 'd' && c2 == 'd' {
            Some(Instr::Add)
        } else if c0 == 's' && c1 == 'u' && c2 == 'b' {
            Some(Instr::Sub)
        } else if c0 == 'c' && c1 == 'm' && c2 == 'p' {
            Some(Instr::Cmp)
        } else if c0 == 'b' && c1 == 'e' && c2 == 'q' {
            Some(Instr::Beq)
        } else if c0 == 'b' && c1 == 'n' && c2 == 'e' {
            Some(Instr::Bne)
        } else if c0 == 'l' && c1 == 'u' && c2 == 'i' {
            Some(Instr::Lui)
        } else if c0 == 'p' && c1 == 'o' && c2 == 'p' {
            Some(Instr::Pop)
        } else {
            None
        }
    } else if n == 4 {
        let c0 = s[start];
        let c1 = s[start + 1];
        let c2 = s[start + 2];
        let c3 = s[start + 3];
        if c0 == 'a' && c1 == 'd' && c2 == 'd' && c3 == 'i' {
            Some(Instr::Addi)
        } else if c0 == 'p' && c1 == 'u' && c2 == 's' && c3 == 'h' {
            Some(Instr::Push)
        } else {
            None
        }
    } else {
        None
    }
}

fn reg_lookup(s: &Vec<char>, start: usize, end: usize) -> (r: Option<u8>)
    requires
        start <= end <= s@.len(),
    ensures
        r == reg_of(s@.subrange(start as int, end as int)),
{
    let n = end - start;
    if n == 1 {
        let c0 = s[start];
        if ch_is_digit(c0) {
            Some((c0 as u32 - '0' as u32) as u8)
        } else if c0 == 'v' {
            Some(2)
        } else {
            None
        }
    } else if n == 2 {
        let c0 = s[start];
        let c1 = s[start + 1];
        if c0 == '1' && '0' <= c1 && c1 <= '5' {
            Some(10 + (c1 as u32 - '0' as u32) as u8)
        } else if c0 == 'a' && c1 == 't' {
            Some(1)
        } else if c0 == 'a' && '0' <= c1 && c1 <= '2' {
            Some(3 + (c1 as u32 - '0' as u32) as u8)
        } else if c0 == 's' && '0' <= c1 && c1 <= '2' {
            Some(6 + (c1 as u32 - '0' as u32) as u8)
        } else if c0 == 't' && '0' <= c1 && c1 <= '3' {
            Some(9 + (c1 as u32 - '0' as u32) as u8)
        } else if c0 == 'g' && c1 == 'v' {
            Some(13)
        } else if c0 == 'r' && c1 == 'a' {
            Some(14)
        } else if c0 == 's' && c1 == 'p' {
            Some(15)
        } else {
            None
        }
    } else if n == 4 {
        let c0 = s[start];
        let c1 = s[start + 1];
        let c2 = s[start + 2];
        let c3 = s[start + 3];
        if c0 == 'z' && c1 == 'e' && c2 == 'r' && c3 == 'o' {
            Some(0)
        } else {
            None
        }
    } else {
        None
    }
}

fn block_lookup(s: &Vec<char>, start: usize, end: usize) -> (r: Option<Bl>)
    requires
        start <= end <= s@.len(),
    ensures
        r == block_of(s@.subrange(start as int, end as int)),
{
    let n = end - start;
    if n == 4 {
        let c0 = s[start];
        let c1 = s[start + 1];
        let c2 = s[start + 2];
        let c3 = s[start + 3];
        if c0 == 'd' && c1 == 'a' && c2 == 't' && c3 == 'a' {
            Some(Bl::Data)
        } else if c0 == 't' && c1 == 'e' && c2 == 'x' && c3 == 't' {
            Some(Bl::Text)
        } else if c0 == 'w' && c1 == 'o' && c2 == 'r' && c3 == 'd' {
            Some(Bl::Word)
        } else if c0 == 'a' && c1 == 'd' && c2 == 'd' && c3 == 'r' {
            Some(Bl::Addr)
        } else {
            None
        }
    } else if n == 5 {
        let c0 = s[start];
        let c1 = s[start + 1];
        let c2 = s[start + 2];
        let c3 = s[start + 3];
        let c4 = s[start + 4];
        if c0 == 's' && c1 == 'p' && c2 == 'a' && c3 == 'c' && c4 == 'e' {
            Some(Bl::Space)
        } else {
            None
        }
    } else {
        None
    }
}

/// Relies on `String::push`: appends one character to the string.
#[verifier::external_body]
pub(crate) fn push_char(s: &mut String, c: char)
    ensures
        final(s)@ == old(s)@.push(c),
{
    s.push(c);
}

fn string_of_range(s: &Vec<char>, start: usize, end: usize) -> (r: String)
    requires
        start <= end <= s@.len(),
    ensures
        r@ == s@.subrange(start as int, end as int),
{
    let mut r = String::new();
    let mut k = start;
    while k < end
        invariant
            start <= k <= end <= s@.len(),
            r@ == s@.subrange(start as int, k as int),
        decreases end - k,
    {
        push_char(&mut r, s[k]);
        proof {
            assert(s@.subrange(start as int, k + 1).drop_last() =~= s@.subrange(
                start as int,
                k as int,
            ));
            assert(r@ =~= s@.subrange(start as int, k + 1));
        }
        k = k + 1;
    }
    r
}

fn digit_val_u64(c: char) -> (d: u64)
    requires
        is_digit(c),
    ensures
        d as nat == digit_val(c),
        d <= 9,
{
    (c as u32 - '0' as u32) as u64
}

fn hex_digit_val_u64(c: char) -> (d: u64)
    requires
        is_hex_digit(c),
    ensures
        d as nat == hex_digit_val(c),
        d <= 15,
{
    if ch_is_digit(c) {
        (c as u32 - '0' as u32) as u64
    } else if 'a' <= c && c <= 'f' {
        (c as u32 - 'a' as u32 + 10) as u64
    } else {
        (c as u32 - 'A' as u32 + 10) as u64
    }
}

/// Value of the decimal digit run `s[start..end)`, or `None` when it
/// exceeds `2^63`, the largest magnitude any immediate may take.
fn scan_dec_val(s: &Vec<char>, start: usize, end: usize) -> (r: Option<u64>)
    requires
        start <= end <= s@.len(),
        forall|j: int| start <= j < end ==> is_digit(s@[j]),
    ensures
        ({
            let m = dec_val(s@.subrange(start as int, end as int));
            match r {
                Some(v) => m <= neg_limit() && v as nat == m,
                None => m > neg_limit(),
            }
        }),
{
    let mut acc: u64 = 0;
    let mut over = false;
    let mut k = start;
    while k < end
        invariant
            start <= k <= end <= s@.len(),
            forall|j: int| start <= j < end ==> is_digit(s@[j]),
            !over ==> acc as nat == dec_val(s@.subrange(start as int, k as int)) && acc as nat
                <= neg_limit(),
            over ==> dec_val(s@.subrange(start as int, k as int)) > neg_limit(),
        decreases end - k,
    {
        let d = digit_val_u64(s[k]);
        proof {
            assert(s@.subrange(start as int, k + 1).drop_last() =~= s@.subrange(
                start as int,
                k as int,
            ));
        }
        let ghost m0 = dec_val(s@.subrange(start as int, k as int));
        let ghost m1 = dec_val(s@.subrange(start as int, k + 1));
        proof {
            assert(m1 == m0 * 10 + digit_val(s@[k as int]));
        }
        if over {
            proof {
                assert(m0 * 10 >= m0) by (nonlinear_arith)
                    requires
                        m0 >= 0,
                ;
            }
        } else if acc > (0x8000_0000_0000_0000u64 - d) / 10 {
            proof {
                assert(acc * 10 + d > 0x8000_0000_0000_0000) by (nonlinear_arith)
                    requires
                        acc > (0x8000_0000_0000_0000u64 - d) / 10,
                        d <= 9,
                ;
            }
            over = true;
        } else {
            proof {
                assert(acc * 10 + d <= 0x8000_0000_0000_0000) by (nonlinear_arith)
                    requires
                        acc <= (0x8000_0000_0000_0000u64 - d) / 10,
                        d <= 9,
                ;
            }
            acc = acc * 10 + d;
        }
        k = k + 1;
    }
    if over {
        None
    } else {
        Some(acc)
    }
}

/// Value of the hexadecimal digit run `s[start..end)`, or `None` when it
/// exceeds `i64::MAX`.
fn scan_hex_val(s: &Vec<char>, start: usize, end: usize) -> (r: Option<u64>)
    requires
        start <= end <= s@.len(),
        forall|j: int| start <= j < end ==> is_hex_digit(s@[j]),
    ensures
        ({
            let m = hex_val(s@.subrange(start as int, end as int));
            match r {
                Some(v) => m <= i64::MAX as nat && v as nat == m,
                None => m > i64::MAX as nat,
            }
        }),
{
    let mut acc: u64 = 0;
    let mut over = false;
    let mut k = start;
    while k < end
        invariant
            start <= k <= end <= s@.len(),
            forall|j: int| start <= j < end ==> is_hex_digit(s@[j]),
            !over ==> acc as nat == hex_val(s@.subrange(start as int, k as int)) && acc as nat
                <= i64::MAX as nat,
            over ==> hex_val(s@.subrange(start as int, k as int)) > i64::MAX as nat,
        decreases end - k,
    {
        let d = hex_digit_val_u64(s[k]);
        proof {
            assert(s@.subrange(start as int, k + 1).drop_last() =~= s@.subrange(
                start as int,
                k as int,
            ));
        }
        let ghost m0 = hex_val(s@.subrange(start as int, k as int));
        let ghost m1 = hex_val(s@.subrange(start as int, k + 1));
        proof {
            assert(m1 == m0 * 16 + hex_digit_val(s@[k as int]));
        }
        if over {
            proof {
                assert(m0 * 16 >= m0) by (nonlinear_arith)
                    requires
                        m0 >= 0,
                ;
            }
        } else if acc > (0x7fff_ffff_ffff_ffffu64 - d) / 16 {
            proof {
                assert(acc * 16 + d > 0x7fff_ffff_ffff_ffff) by (nonlinear_arith)
                    requires
                        acc > (0x7fff_ffff_ffff_ffffu64 - d) / 16,
                        d <= 15,
                ;
            }
            over = true;
        } else {
            proof {
                assert(acc * 16 + d <= 0x7fff_ffff_ffff_ffff) by (nonlinear_arith)
                    requires
                        acc <= (0x7fff_ffff_ffff_ffffu64 - d) / 16,
                        d <= 15,
                ;
            }
            acc = acc * 16 + d;
        }
        k = k + 1;
    }
    if over {
        None
    } else {
        Some(acc)
    }
}

fn skip_trivia_exec(s: &Vec<char>, i: &mut usize, row: &mut u32, col: &mut u32)
    requires
        s@.len() <= 0xffff_ffff,
        *old(i) <= s@.len(),
        *old(col) as int <= *old(i) as int,
        *old(row) as int <= *old(i) as int,
    ensures
        ({
            let st2 = skip_trivia(
                s@,
                LexState { i: *old(i) as int, row: *old(row) as int, col: *old(col) as int },
            );
            &&& *final(i) as int == st2.i
            &&& *final(row) as int == st2.row
            &&& *final(col) as int == st2.col
        }),
        *final(i) <= s@.len(),
        *final(col) as int <= *final(i) as int,
        *final(row) as int <= *final(i) as int,
{
    let ghost st0 = LexState { i: *i as int, row: *row as int, col: *col as int };
    loop
        invariant
            s@.len() <= 0xffff_ffff,
            *i <= s@.len(),
            *col as int <= *i as int,
            *row as int <= *i as int,
            skip_trivia(s@, LexState { i: *i as int, row: *row as int, col: *col as int })
                == skip_trivia(s@, st0),
        ensures
            (LexState { i: *i as int, row: *row as int, col: *col as int }) == skip_trivia(s@, st0),
        decreases s@.len() - *i,
    {
        if *i >= s.len() {
            break ;
        }
        let c = s[*i];
        if c == ' ' || c == '\t' {
            *i = *i + 1;
            *col = *col + 1;
        } else if c == '\n' {
            *i = *i + 1;
            *row = *row + 1;
            *col = 0;
        } else if c == '\r' && *i + 1 < s.len() && s[*i + 1] == '\n' {
            *i = *i + 2;
            *row = *row + 1;
            *col = 0;
        } else if c == '#' {
            let ghost hash = LexState { i: *i as int, row: *row as int, col: *col as int };
            proof {
                lemma_line_end(s@, *i as int);
            }
            loop
                invariant
                    hash.i <= *i as int <= s@.len(),
                    line_end(s@, hash.i) == line_end(s@, *i as int),
                ensures
                    *i as int == line_end(s@, hash.i),
                decreases s@.len() - *i,
            {
                if *i < s.len() && s[*i] != '\n' {
                    *i = *i + 1;
                } else {
                    break ;
                }
            }
            if *i < s.len() {
                *i = *i + 1;
                *row = *row + 1;
                *col = 0;
            }
            proof {
                lemma_line_end(s@, hash.i);
            }
        } else {
            break ;
        }
    }
    proof {
        lemma_skip_trivia_bounds(s@, st0);
    }
}

/// The token starting at the non-trivia position `(i, row, col)`, with the
/// position after it.
fn scan_token_exec(s: &Vec<char>, i: usize, row: u32, col: u32) -> (r: (LexItem, usize, u32, u32))
    requires
        s@.len() <= 0xffff_ffff,
        i < s@.len(),
        col as int <= i as int,
    ensures
        ({
            let st = LexState { i: i as int, row: row as int, col: col as int };
            let (item, st2) = scan_token(s@, st);
            &&& lex_item_view(r.0) == item
            &&& r.0 is Ok ==> {
                &&& r.1 as int == st2.i
                &&& r.2 as int == st2.row
                &&& r.3 as int == st2.col
                &&& i < r.1 <= s@.len()
            }
        }),
{
    let loc = Loc { row, col };
    let c = s[i];
    if c == ',' {
        (Ok((loc, Token::Comma)), i + 1, row, col + 1)
    } else if c == ':' {
        (Ok((loc, Token::Colon)), i + 1, row, col + 1)
    } else if c == '$' {
        let e = ident_run_end(s, i + 1);
        match reg_lookup(s, i + 1, e) {
            Some(r0) => (Ok((loc, Token::Register(r0))), e, row, col + (e - i) as u32),
            None => (Err(loc), i, row, col),
        }
    } else if ch_is_id_start(c) {
        let e = ident_run_end(s, i);
        match instr_lookup(s, i, e) {
            Some(op) => (Ok((loc, Token::Instruction(op))), e, row, col + (e - i) as u32),
            None => {
                let id = string_of_range(s, i, e);
                (Ok((loc, Token::Identifier(id))), e, row, col + (e - i) as u32)
            },
        }
    } else if c == '.' {
        let e = ident_run_end(s, i + 1);
        match block_lookup(s, i + 1, e) {
            Some(b) => (Ok((loc, Token::Block(b))), e, row, col + (e - i) as u32),
            None => (Err(loc), i, row, col),
        }
    } else if c == '0' && s.len() - i > 2 && s[i + 1] == 'x' && ch_is_hex_digit(s[i + 2]) {
        let e = hex_run_end(s, i + 2);
        if e < s.len() && ch_is_id_char(s[e]) && !ch_is_hex_digit(s[e]) {
            (Err(loc), i, row, col)
        } else {
            match scan_hex_val(s, i + 2, e) {
                None => (Err(loc), i, row, col),
                Some(v) => (Ok((loc, Token::Immediate(v as i64))), e, row, col + (e - i) as u32),
            }
        }
    } else if ch_is_digit(c) || c == '+' || c == '-' {
        let j = if c == '+' || c == '-' {
            i + 1
        } else {
            i
        };
        let e = digits_run_end(s, j);
        if e == j {
            (Err(loc), i, row, col)
        } else if e < s.len() && ch_is_id_start(s[e]) {
            (Err(loc), i, row, col)
        } else {
            match scan_dec_val(s, j, e) {
                None => (Err(loc), i, row, col),
                Some(v) => {
                    if c == '-' {
                        let imm = if v == 0x8000_0000_0000_0000u64 {
                            i64::MIN
                        } else {
                            -(v as i64)
                        };
                        (Ok((loc, Token::Immediate(imm))), e, row, col + (e - i) as u32)
                    } else {
                        if v > i64::MAX as u64 {
                            (Err(loc), i, row, col)
                        } else {
                            (Ok((loc, Token::Immediate(v as i64))), e, row, col + (e - i) as u32)
                        }
                    }
                },
            }
        }
    } else {
        (Err(loc), i, row, col)
    }
}

/// All items of `s`, in order, as [`spec_lex`] assigns them.
fn lex_all(s: &Vec<char>) -> (out: Vec<LexItem>)
    requires
        s@.len() <= 0xffff_ffff,
    ensures
        items_view(out@) == spec_lex(s@),
{
    let ghost full = spec_lex(s@);
    let mut out: Vec<LexItem> = Vec::new();
    let mut i: usize = 0;
    let mut row: u32 = 0;
    let mut col: u32 = 0;
    proof {
        assert(items_view(out@) =~= Seq::<LexItemV>::empty());
    }
    loop
        invariant_except_break
            full == items_view(out@) + lex_from(
                s@,
                LexState { i: i as int, row: row as int, col: col as int },
            ),
        invariant
            s@.len() <= 0xffff_ffff,
            i <= s@.len(),
            col as int <= i as int,
            row as int <= i as int,
        ensures
            full == items_view(out@),
        decreases s@.len() - i,
    {
        let ghost st_pre = LexState { i: i as int, row: row as int, col: col as int };
        skip_trivia_exec(s, &mut i, &mut row, &mut col);
        let ghost st = LexState { i: i as int, row: row as int, col: col as int };
        proof {
            lemma_skip_trivia_bounds(s@, st_pre);
            assert(lex_from(s@, st) == lex_from(s@, st_pre));
        }
        if i >= s.len() {
            proof {
                assert(lex_from(s@, st) =~= Seq::<LexItemV>::empty());
                assert(items_view(out@) + lex_from(s@, st) =~= items_view(out@));
            }
            break ;
        }
        let (item, i2, row2, col2) = scan_token_exec(s, i, row, col);
        let ghost itemv = lex_item_view(item);
        let ghost out0 = out@;
        if item.is_ok() {
            out.push(item);
            proof {
                let st2 = scan_token(s@, st).1;
                assert(lex_from(s@, st) == seq![itemv] + lex_from(s@, st2));
                assert(items_view(out@) =~= items_view(out0).push(itemv));
                assert(items_view(out@) + lex_from(s@, st2) =~= items_view(out0) + lex_from(
                    s@,
                    st,
                ));
            }
            i = i2;
            row = row2;
            col = col2;
        } else {
            out.push(item);
            proof {
                assert(lex_from(s@, st) == seq![itemv]);
                assert(items_view(out@) =~= items_view(out0).push(itemv));
                assert(items_view(out@) =~= items_view(out0) + lex_from(s@, st));
            }
            break ;
        }
    }
    out
}

/// The characters of `input`, in order.
fn chars_of(input: &str) -> (v: Vec<char>)
    ensures
        v@ == input@,
{
    broadcast use vstd::string::group_string_axioms;

    let mut it = input.chars();
    let mut v: Vec<char> = Vec::new();
    proof {
        assert(it.remaining() == input@);
    }
    loop
        invariant
            v@ + it.remaining() == input@,
            vstd::std_specs::iter::IteratorSpec::decrease(&it) is Some,
        ensures
            v@ == input@,
        decreases vstd::std_specs::iter::IteratorSpec::decrease(&it)->0,
    {
        match it.next() {
            Some(c) => {
                v.push(c);
            },
            None => {
                proof {
                    assert(v@ =~= input@);
                }
                break ;
            },
        }
    }
    v
}

/// Token stream over one source listing.
///
/// `Lexer::new` lexes the whole input; `next` then yields the items of
/// [`spec_lex`] in order, `None` once they are exhausted. The view of a
/// `Lexer` is the sequence of items it has still to yield.
pub struct Lexer {
    items: Vec<LexItem>,
}

impl View for Lexer {
    type V = Seq<LexItemV>;

    closed spec fn view(&self) -> Seq<LexItemV> {
        Seq::new(
            self.items@.len(),
            |k: int| lex_item_view(self.items@[self.items@.len() - 1 - k]),
        )
    }
}

impl Lexer {
    /// Lex `input` whole; the resulting stream holds exactly
    /// `spec_lex(input@)`.
    pub fn new(input: &str) -> (l: Lexer)
        requires
            input@.len() <= 0xffff_ffff,
        ensures
            l@ == spec_lex(input@),
    {
        let chars = chars_of(input);
        let mut fwd = lex_all(&chars);
        let ghost full = spec_lex(input@);
        proof {
            assert(forall|k: int|
                0 <= k < fwd@.len() ==> lex_item_view(#[trigger] fwd@[k]) == full[k]);
        }
        let mut items: Vec<LexItem> = Vec::new();
        loop
            invariant
                fwd@.len() + items@.len() == full.len(),
                forall|k: int| 0 <= k < fwd@.len() ==> lex_item_view(#[trigger] fwd@[k]) == full[k],
                forall|k: int|
                    0 <= k < items@.len() ==> lex_item_view(#[trigger] items@[k]) == full[full.len()
                        - 1 - k],
            ensures
                fwd@.len() == 0,
                items@.len() == full.len(),
                forall|k: int|
                    0 <= k < items@.len() ==> lex_item_view(#[trigger] items@[k]) == full[full.len()
                        - 1 - k],
            decreases fwd@.len(),
        {
            match fwd.pop() {
                Some(x) => {
                    items.push(x);
                },
                None => {
                    break ;
                },
            }
        }
        let l = Lexer { items };
        proof {
            assert(l@ =~= spec_lex(input@));
        }
        l
    }

    /// Yield the next lexed item: the head of the view, or `None` when the
    /// stream is exhausted.
    pub fn next(&mut self) -> (r: Option<LexItem>)
        ensures
            match r {
                None => old(self)@.len() == 0 && final(self)@ == old(self)@,
                Some(it) => {
                    &&& old(self)@.len() > 0
                    &&& lex_item_view(it) == old(self)@[0]
                    &&& final(self)@ == old(self)@.drop_first()
                },
            },
    {
        let r = self.items.pop();
        proof {
            if old(self)@.len() > 0 {
                assert(self@ =~= old(self)@.drop_first());
            } else {
                assert(self@ =~= old(self)@);
            }
        }
        r
    }
}

} // verus!
