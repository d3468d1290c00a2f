//! Parser for one data directive: `.word`, `.space` or `.addr` followed
//! by one immediate.

use vstd::prelude::*;

use crate::mylexer::{LexItemV, Lexer};
use crate::parser::{head_item, tail_items, ParserError};
use crate::parserhelpers::{read_token, spec_read_token};
use crate::printer::data_node_count;
use crate::types::{
    lemma_mod_shift_add, lemma_wrapping_add_is_mod, lemma_wrapping_add_mul4_is_mod, Bl, DataNode,
    DataNodeV, Token, TokenV,
};
use vstd::arithmetic::div_mod::lemma_small_mod;
use vstd::wrapping::u32_specs;

verus! {

/// What parsing one data directive yields: the node or the error, the
/// items left over, and the new data-address cursor.
///
/// `.word` stores its literal and advances the cursor one word. `.space`
/// takes a non-negative word count and advances the cursor by it, storing
/// nothing. `.addr` takes a non-negative absolute address as the node's
/// own address and leaves the cursor alone. A negative literal fails with
/// [`ParserError::NegativeSpace`] at the literal's location; any other
/// token in the literal's slot fails with [`ParserError::Incomplete`].
/// Address arithmetic wraps modulo `2^32`.
pub open spec fn spec_parse_data(block: Bl, id: Seq<char>, items: Seq<LexItemV>, addr: u32) -> (
    Result<DataNodeV, ParserError>,
    Seq<LexItemV>,
    u32,
) {
    let rest = tail_items(items);
    match spec_read_token(head_item(items)) {
        Err(e) => (Err(e), rest, addr),
        Ok((loc, tok)) => match tok {
            TokenV::Immediate(i) => match block {
                Bl::Word => (
                    Ok(
                        DataNodeV {
                            identifier: id,
                            address: addr,
                            block: Bl::Word,
                            data: i,
                            num: 1,
                        },
                    ),
                    rest,
                    u32_specs::wrapping_add(addr, 4),
                ),
                Bl::Space => if i >= 0 {
                    let num = (i % 0x1_0000_0000) as u32;
                    (
                        Ok(
                            DataNodeV {
                                identifier: id,
                                address: addr,
                                block: Bl::Space,
                                data: 0,
                                num: num,
                            },
                        ),
                        rest,
                        u32_specs::wrapping_add(addr, u32_specs::wrapping_mul(num, 4)),
                    )
                } else {
                    (Err(ParserError::NegativeSpace(loc)), rest, addr)
                },
                Bl::Addr => if i >= 0 {
                    (
                        Ok(
                            DataNodeV {
                                identifier: id,
                                address: (i % 0x1_0000_0000) as u32,
                                block: Bl::Addr,
                                data: 0,
                                num: 1,
                            },
                        ),
                        rest,
                        addr,
                    )
                } else {
                    (Err(ParserError::NegativeSpace(loc)), rest, addr)
                },
                _ => (Err(ParserError::Incomplete(loc)), rest, addr),
            },
            _ => (Err(ParserError::Incomplete(loc)), rest, addr),
        },
    }
}

/// A node [`spec_parse_data`] yields is one of the three data
/// directives.
pub proof fn lemma_spec_parse_data_block(block: Bl, id: Seq<char>, items: Seq<LexItemV>, addr: u32)
    ensures
        spec_parse_data(block, id, items, addr).0 matches Ok(node) ==> (node.block == Bl::Word
            || node.block == Bl::Space || node.block == Bl::Addr),
{
}

/// A parsed data node sits at the cursor (but for `.addr`, which takes
/// its literal address) and the cursor advances four bytes for each word
/// it stores, modulo `2^32`.
pub proof fn lemma_spec_parse_data_cursor(block: Bl, id: Seq<char>, items: Seq<LexItemV>, addr: u32)
    ensures
        spec_parse_data(block, id, items, addr).0 matches Ok(node) ==> {
            &&& node.block != Bl::Addr ==> node.address == addr
            &&& node.block == Bl::Addr ==> spec_parse_data(block, id, items, addr).2 == addr
            &&& spec_parse_data(block, id, items, addr).2 == ((addr + 4 * data_node_count(node))
                % 0x1_0000_0000) as u32
        },
{
    lemma_small_mod(addr as nat, 0x1_0000_0000);
    lemma_wrapping_add_is_mod(addr, 4);
    match spec_parse_data(block, id, items, addr).0 {
        Err(_) => {},
        Ok(node) => {
            if node.block == Bl::Space {
                lemma_wrapping_add_mul4_is_mod(addr, node.num);
            }
        },
    }
}

/// A negative literal after `.space` or `.addr` always fails with
/// [`ParserError::NegativeSpace`] at that literal's location.
pub proof fn lemma_negative_space(block: Bl, id: Seq<char>, items: Seq<LexItemV>, addr: u32)
    requires
        block == Bl::Space || block == Bl::Addr,
    ensures
        spec_read_token(head_item(items)) matches Ok((loc, tok)) ==> (tok matches
            TokenV::Immediate(i) && i < 0 ==> spec_parse_data(block, id, items, addr).0 == Err::<
            DataNodeV,
            ParserError,
        >(ParserError::NegativeSpace(loc))),
{
}

/// Parse the rest of one data directive of kind `block`, labelled
/// `identifier`, advancing the address cursor; yields exactly what
/// [`spec_parse_data`] assigns to the lexer's remaining items.
pub fn parse_data(block: Bl, identifier: String, lexer: &mut Lexer, address: &mut u32) -> (r:
    Result<DataNode, ParserError>)
    ensures
        ({
            let (res, rest, addr2) = spec_parse_data(
                block,
                identifier@,
                old(lexer)@,
                *old(address),
            );
            &&& final(lexer)@ == rest
            &&& *final(address) == addr2
            &&& match r {
                Ok(node) => res == Ok::<DataNodeV, ParserError>(node@),
                Err(e) => res == Err::<DataNodeV, ParserError>(e),
            }
        }),
{
    match read_token(lexer.next()) {
        Err(e) => Err(e),
        Ok((loc, token)) => match token {
            Token::Immediate(i) => match block {
                Bl::Word => {
                    let node = DataNode {
                        identifier,
                        address: *address,
                        block: Bl::Word,
                        data: i,
                        num: 1,
                    };
                    *address = address.wrapping_add(4);
                    Ok(node)
                },
                Bl::Space => {
                    if i >= 0 {
                        let num = (i % 0x1_0000_0000) as u32;
                        let node = DataNode {
                            identifier,
                            address: *address,
                            block: Bl::Space,
                            data: 0,
                            num,
                        };
                        *address = address.wrapping_add(num.wrapping_mul(4));
                        Ok(node)
                    } else {
                        Err(ParserError::NegativeSpace(loc))
                    }
                },
                Bl::Addr => {
                    if i >= 0 {
                        Ok(
                            DataNode {
                                identifier,
                                address: (i % 0x1_0000_0000) as u32,
                                block: Bl::Addr,
                                data: 0,
                                num: 1,
                            },
                        )
                    } else {
                        Err(ParserError::NegativeSpace(loc))
                    }
                },
                _ => Err(ParserError::Incomplete(loc)),
            },
            _ => Err(ParserError::Incomplete(loc)),
        },
    }
}

} // verus!
