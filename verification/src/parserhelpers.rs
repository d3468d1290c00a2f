//! Helper functions shared by the sub-parsers: they turn one lexed item
//! into the parser's view of it, converting lexer failures and end of
//! input into [`ParserError`] values.

use vstd::prelude::*;

use crate::mylexer::{lex_item_view, LexItem, LexItemV};
use crate::parser::ParserError;
use crate::types::{Loc, Token, TokenV};

verus! {

/// Spec-level value of a located-token result.
pub open spec fn token_result_view(r: Result<(Loc, Token), ParserError>) -> Result<
    (Loc, TokenV),
    ParserError,
> {
    match r {
        Ok((l, t)) => Ok((l, t@)),
        Err(e) => Err(e),
    }
}

/// Spec-level value of an optional lexed item.
pub open spec fn opt_item_view(o: Option<LexItem>) -> Option<LexItemV> {
    match o {
        Some(it) => Some(lex_item_view(it)),
        None => None,
    }
}

/// What [`parse_token`] yields for one item.
pub open spec fn spec_parse_token(it: LexItemV) -> Result<(Loc, TokenV), ParserError> {
    match it {
        Ok(p) => Ok(p),
        Err(l) => Err(ParserError::InvalidToken(l)),
    }
}

/// What [`read_token`] yields: end of input becomes [`ParserError::End`].
pub open spec fn spec_read_token(o: Option<LexItemV>) -> Result<(Loc, TokenV), ParserError> {
    match o {
        None => Err(ParserError::End),
        Some(it) => spec_parse_token(it),
    }
}

/// What [`sel_token`] yields: any token other than `sel` is
/// [`ParserError::Incomplete`] at its location.
pub open spec fn spec_sel_token(o: Option<LexItemV>, sel: TokenV) -> Result<
    (Loc, TokenV),
    ParserError,
> {
    match spec_read_token(o) {
        Err(e) => Err(e),
        Ok((loc, tok)) => if tok == sel {
            Ok((loc, tok))
        } else {
            Err(ParserError::Incomplete(loc))
        },
    }
}

/// What [`get_register`] yields: the register id, or
/// [`ParserError::Incomplete`] at the token's location.
pub open spec fn spec_get_register(o: Option<LexItemV>) -> Result<u8, ParserError> {
    match spec_read_token(o) {
        Err(e) => Err(e),
        Ok((loc, tok)) => match tok {
            TokenV::Register(x) => Ok(x),
            _ => Err(ParserError::Incomplete(loc)),
        },
    }
}

/// What [`get_immediate`] yields.
pub open spec fn spec_get_immediate(o: Option<LexItemV>) -> Result<i64, ParserError> {
    match spec_read_token(o) {
        Err(e) => Err(e),
        Ok((loc, tok)) => match tok {
            TokenV::Immediate(x) => Ok(x),
            _ => Err(ParserError::Incomplete(loc)),
        },
    }
}

/// What [`get_identifier_or_imm`] yields: an identifier with immediate 0,
/// or an immediate with the empty identifier.
pub open spec fn spec_get_identifier_or_imm(o: Option<LexItemV>) -> Result<
    (Seq<char>, i64),
    ParserError,
> {
    match spec_read_token(o) {
        Err(e) => Err(e),
        Ok((loc, tok)) => match tok {
            TokenV::Identifier(s) => Ok((s, 0)),
            TokenV::Immediate(x) => Ok((Seq::empty(), x)),
            _ => Err(ParserError::Incomplete(loc)),
        },
    }
}

/// Whether two tokens hold the same value.
fn token_eq(a: &Token, b: &Token) -> (r: bool)
    ensures
        r == (a@ == b@),
{
    match (a, b) {
        (Token::Comma, Token::Comma) => true,
        (Token::Colon, Token::Colon) => true,
        (Token::Instruction(x), Token::Instruction(y)) => *x == *y,
        (Token::Register(x), Token::Register(y)) => *x == *y,
        (Token::Identifier(x), Token::Identifier(y)) => *x == *y,
        (Token::Immediate(x), Token::Immediate(y)) => *x == *y,
        (Token::Block(x), Token::Block(y)) => *x == *y,
        (Token::Invalid, Token::Invalid) => true,
        _ => false,
    }
}

/// Convert one lexed item, turning a lexer failure into
/// [`ParserError::InvalidToken`] at its location.
pub fn parse_token(ret: LexItem) -> (r: Result<(Loc, Token), ParserError>)
    ensures
        token_result_view(r) == spec_parse_token(lex_item_view(ret)),
{
    match ret {
        Ok((l, t)) => Ok((l, t)),
        Err(l) => Err(ParserError::InvalidToken(l)),
    }
}

/// Read one item, failing with [`ParserError::End`] at end of input.
pub fn read_token(ret: Option<LexItem>) -> (r: Result<(Loc, Token), ParserError>)
    ensures
        token_result_view(r) == spec_read_token(opt_item_view(ret)),
{
    match ret {
        Some(x) => parse_token(x),
        None => Err(ParserError::End),
    }
}

/// Read one item and demand the token `selection`, else fail with
/// [`ParserError::Incomplete`] at its location.
pub fn sel_token(ret: Option<LexItem>, selection: Token) -> (r: Result<(Loc, Token), ParserError>)
    ensures
        token_result_view(r) == spec_sel_token(opt_item_view(ret), selection@),
{
    match read_token(ret) {
        Err(e) => Err(e),
        Ok((loc, token)) => if token_eq(&token, &selection) {
            Ok((loc, token))
        } else {
            Err(ParserError::Incomplete(loc))
        },
    }
}

/// Read one item and demand a register token, returning its id.
pub fn get_register(ret: Option<LexItem>) -> (r: Result<u8, ParserError>)
    ensures
        r == spec_get_register(opt_item_view(ret)),
{
    match read_token(ret) {
        Err(e) => Err(e),
        Ok((loc, token)) => match token {
            Token::Register(x) => Ok(x),
            _ => Err(ParserError::Incomplete(loc)),
        },
    }
}

/// Read one item and demand an immediate token, returning its value.
pub fn get_immediate(ret: Option<LexItem>) -> (r: Result<i64, ParserError>)
    ensures
        r == spec_get_immediate(opt_item_view(ret)),
{
    match read_token(ret) {
        Err(e) => Err(e),
        Ok((loc, token)) => match token {
            Token::Immediate(x) => Ok(x),
            _ => Err(ParserError::Incomplete(loc)),
        },
    }
}

/// Read one item and take an identifier or an immediate, as a branch
/// target or address operand allows both.
pub fn get_identifier_or_imm(ret: Option<LexItem>) -> (r: Result<(String, i64), ParserError>)
    ensures
        ({
            match r {
                Ok((s, x)) => spec_get_identifier_or_imm(opt_item_view(ret)) == Ok::<
                    (Seq<char>, i64),
                    ParserError,
                >((s@, x)),
                Err(e) => spec_get_identifier_or_imm(opt_item_view(ret)) == Err::<
                    (Seq<char>, i64),
                    ParserError,
                >(e),
            }
        }),
{
    match read_token(ret) {
        Err(e) => Err(e),
        Ok((loc, token)) => match token {
            Token::Identifier(s) => Ok((s, 0)),
            Token::Immediate(x) => Ok((String::new(), x)),
            _ => Err(ParserError::Incomplete(loc)),
        },
    }
}

} // verus!
