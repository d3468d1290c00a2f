//! Segment-driving parser: turns a source listing into a [`ProgramTree`].
//!
//! `spec_parse` defines the parse result over the lexed item list; `parse`
//! computes it. The parser is a state machine over the two segments: the
//! first token must open a segment (`.data` or `.text`); labels are
//! `identifier:`; each further statement is routed to the data or the
//! instruction sub-parser according to the current segment.

use vstd::prelude::*;

use crate::mylexer::{spec_lex, LexItemV, Lexer};
use crate::parsedata::{
    lemma_spec_parse_data_block, lemma_spec_parse_data_cursor, parse_data, spec_parse_data,
};
use crate::parseinstruction::{
    lemma_spec_parse_instruction_addresses, lemma_spec_parse_instruction_concrete,
    parse_instruction, spec_parse_instruction,
};
use crate::parserhelpers::{read_token, sel_token, spec_read_token, spec_sel_token};
use crate::printer::{data_node_count, encodable, lemma_words_before_push, words_before};
use crate::types::{
    is_concrete, lemma_mod_shift_add, Bl, DataNodeV, InstructionNodeV, Loc, ProgramTree,
    ProgramTreeV, Token, TokenV,
};
use vstd::arithmetic::div_mod::lemma_small_mod;
use crate::{DATA_ADDRESS_OFFSET, TEXT_ADDRESS_OFFSET};

verus! {

/// Parse failure kinds, each with the location it was detected at.
#[derive(Debug, PartialEq, Eq, Structural, Clone, Copy)]
pub enum ParserError {
    /// A directive or instruction stands where the segment rules forbid it.
    CodeOutsideSegment(Loc),
    /// The lexer found a malformed lexeme.
    InvalidToken(Loc),
    /// A token is grammatically wrong for its slot.
    Incomplete(Loc),
    /// The token stream ended in the middle of a statement.
    End,
    /// The listing holds no token at all.
    Empty,
    /// `.space` or `.addr` was given a negative literal.
    NegativeSpace(Loc),
}

/// First item of an item list, if any.
pub open spec fn head_item(items: Seq<LexItemV>) -> Option<LexItemV> {
    if items.len() > 0 {
        Some(items[0])
    } else {
        None
    }
}

/// The item list without its first item; the empty list stays empty.
pub open spec fn tail_items(items: Seq<LexItemV>) -> Seq<LexItemV> {
    if items.len() > 0 {
        items.drop_first()
    } else {
        items
    }
}

/// One statement step of the parser loop: the pending label (empty when
/// none), the statement's first token, and the items after both.
pub open spec fn spec_statement_head(items: Seq<LexItemV>) -> Result<
    (Seq<char>, Loc, TokenV, Seq<LexItemV>),
    ParserError,
> {
    match spec_read_token(head_item(items)) {
        Err(e) => Err(e),
        Ok((loc, tok)) => match tok {
            TokenV::Identifier(name) => {
                let items1 = tail_items(items);
                match spec_sel_token(head_item(items1), TokenV::Colon) {
                    Err(e) => Err(e),
                    Ok(_) => {
                        let items2 = tail_items(items1);
                        match spec_read_token(head_item(items2)) {
                            Err(e) => Err(e),
                            Ok((loc2, tok2)) => Ok((name, loc2, tok2, tail_items(items2))),
                        }
                    },
                }
            },
            _ => Ok((Seq::empty(), loc, tok, tail_items(items))),
        },
    }
}

/// The parser main loop over the remaining items, in segment `seg` with
/// address cursors `daddr` and `iaddr`, having already collected `instrs`
/// and `data`.
pub open spec fn spec_parse_loop(
    items: Seq<LexItemV>,
    seg: Bl,
    daddr: u32,
    iaddr: u32,
    instrs: Seq<InstructionNodeV>,
    data: Seq<DataNodeV>,
) -> Result<ProgramTreeV, ParserError>
    decreases items.len(),
{
    if items.len() == 0 {
        Ok(ProgramTreeV { instructions: instrs, data: data })
    } else {
        match spec_statement_head(items) {
            Err(e) => Err(e),
            Ok((label, loc, tok, rest)) => match seg {
                Bl::Data => match tok {
                    TokenV::Block(Bl::Text) => spec_parse_loop(
                        rest,
                        Bl::Text,
                        daddr,
                        iaddr,
                        instrs,
                        data,
                    ),
                    TokenV::Block(Bl::Data) => spec_parse_loop(
                        rest,
                        Bl::Data,
                        daddr,
                        iaddr,
                        instrs,
                        data,
                    ),
                    TokenV::Block(b) => {
                        let (res, rest2, daddr2) = spec_parse_data(b, label, rest, daddr);
                        match res {
                            Err(e) => Err(e),
                            Ok(node) => spec_parse_loop(
                                rest2,
                                seg,
                                daddr2,
                                iaddr,
                                instrs,
                                data.push(node),
                            ),
                        }
                    },
                    _ => Err(ParserError::Incomplete(loc)),
                },
                Bl::Text => match tok {
                    TokenV::Block(Bl::Data) => spec_parse_loop(
                        rest,
                        Bl::Data,
                        daddr,
                        iaddr,
                        instrs,
                        data,
                    ),
                    TokenV::Block(Bl::Text) => spec_parse_loop(
                        rest,
                        Bl::Text,
                        daddr,
                        iaddr,
                        instrs,
                        data,
                    ),
                    TokenV::Instruction(op) => {
                        let (res, rest2, iaddr2) = spec_parse_instruction(op, label, rest, iaddr);
                        match res {
                            Err(e) => Err(e),
                            Ok(nodes) => spec_parse_loop(
                                rest2,
                                seg,
                                daddr,
                                iaddr2,
                                instrs + nodes,
                                data,
                            ),
                        }
                    },
                    _ => Err(ParserError::Incomplete(loc)),
                },
                _ => Err(ParserError::CodeOutsideSegment(loc)),
            },
        }
    }
}

/// The parse result the language assigns to a lexed item list: the very
/// first token must open a segment, then the main loop runs to the end of
/// the stream.
pub open spec fn spec_parse_items(items: Seq<LexItemV>) -> Result<ProgramTreeV, ParserError> {
    match head_item(items) {
        None => Err(ParserError::Empty),
        Some(Err(l)) => Err(ParserError::InvalidToken(l)),
        Some(Ok((l, t))) => match t {
            TokenV::Block(Bl::Data) => spec_parse_loop(
                tail_items(items),
                Bl::Data,
                DATA_ADDRESS_OFFSET,
                TEXT_ADDRESS_OFFSET,
                Seq::empty(),
                Seq::empty(),
            ),
            TokenV::Block(Bl::Text) => spec_parse_loop(
                tail_items(items),
                Bl::Text,
                DATA_ADDRESS_OFFSET,
                TEXT_ADDRESS_OFFSET,
                Seq::empty(),
                Seq::empty(),
            ),
            _ => Err(ParserError::CodeOutsideSegment(l)),
        },
    }
}

/// The parse result of a source listing.
pub open spec fn spec_parse(s: Seq<char>) -> Result<ProgramTreeV, ParserError> {
    spec_parse_items(spec_lex(s))
}

/// Parse a program listing into a program tree with two branches, data
/// and instructions; yields exactly what [`spec_parse`] assigns to the
/// listing. Data addresses start at [`DATA_ADDRESS_OFFSET`], instruction
/// addresses at [`TEXT_ADDRESS_OFFSET`].
pub fn parse(input_buffer: &str) -> (r: Result<ProgramTree, ParserError>)
    requires
        input_buffer@.len() <= 0xffff_ffff,
    ensures
        match r {
            Ok(tree) => spec_parse(input_buffer@) == Ok::<ProgramTreeV, ParserError>(tree@),
            Err(e) => spec_parse(input_buffer@) == Err::<ProgramTreeV, ParserError>(e),
        },
{
    let mut tree = ProgramTree { instructions: Vec::new(), data: Vec::new() };
    let mut lexer = Lexer::new(input_buffer);
    let ghost items0 = lexer@;
    let mut current_segment: Bl = match lexer.next() {
        None => {
            return Err(ParserError::Empty);
        },
        Some(Ok((_, Token::Block(Bl::Data)))) => Bl::Data,
        Some(Ok((_, Token::Block(Bl::Text)))) => Bl::Text,
        Some(Ok((l, _))) => {
            return Err(ParserError::CodeOutsideSegment(l));
        },
        Some(Err(l)) => {
            return Err(ParserError::InvalidToken(l));
        },
    };
    let mut data_address: u32 = DATA_ADDRESS_OFFSET;
    let mut instr_address: u32 = TEXT_ADDRESS_OFFSET;
    proof {
        assert(tree.instructions.deep_view() =~= Seq::<InstructionNodeV>::empty());
        assert(tree.data.deep_view() =~= Seq::<DataNodeV>::empty());
    }
    loop
        invariant_except_break
            spec_parse_items(items0) == spec_parse_loop(
                lexer@,
                current_segment,
                data_address,
                instr_address,
                tree.instructions.deep_view(),
                tree.data.deep_view(),
            ),
        invariant
            items0 == spec_lex(input_buffer@),
            current_segment == Bl::Data || current_segment == Bl::Text,
        ensures
            spec_parse_items(items0) == Ok::<ProgramTreeV, ParserError>(
                ProgramTreeV {
                    instructions: tree.instructions.deep_view(),
                    data: tree.data.deep_view(),
                },
            ),
        decreases lexer@.len(),
    {
        let ghost items_pre = lexer@;
        let (loc, token) = match read_token(lexer.next()) {
            Err(ParserError::End) => {
                break ;
            },
            Ok(t) => t,
            Err(e) => {
                return Err(e);
            },
        };
        let (label, loc2, tok2) = match token {
            Token::Identifier(s) => {
                match sel_token(lexer.next(), Token::Colon) {
                    Ok(_) => (),
                    Err(e) => {
                        return Err(e);
                    },
                };
                match read_token(lexer.next()) {
                    Ok((l2, t2)) => (s, l2, t2),
                    Err(e) => {
                        return Err(e);
                    },
                }
            },
            t => (String::new(), loc, t),
        };
        proof {
            assert(spec_statement_head(items_pre) == Ok::<
                (Seq<char>, Loc, TokenV, Seq<LexItemV>),
                ParserError,
            >((label@, loc2, tok2@, lexer@)));
        }
        match current_segment {
            Bl::Data => match tok2 {
                Token::Block(Bl::Text) => {
                    current_segment = Bl::Text;
                },
                Token::Block(Bl::Data) => {},
                Token::Block(b) => {
                    let ghost data0 = tree.data.deep_view();
                    let node = match parse_data(b, label, &mut lexer, &mut data_address) {
                        Ok(n) => n,
                        Err(e) => {
                            return Err(e);
                        },
                    };
                    tree.data.push(node);
                    proof {
                        assert(tree.data.deep_view() =~= data0.push(node@));
                    }
                },
                _ => {
                    return Err(ParserError::Incomplete(loc2));
                },
            },
            Bl::Text => match tok2 {
                Token::Block(Bl::Data) => {
                    current_segment = Bl::Data;
                },
                Token::Block(Bl::Text) => {},
                Token::Instruction(op) => {
                    let ghost instrs0 = tree.instructions.deep_view();
                    let mut nodes = match parse_instruction(
                        op,
                        label,
                        &mut lexer,
                        &mut instr_address,
                    ) {
                        Ok(n) => n,
                        Err(e) => {
                            return Err(e);
                        },
                    };
                    let ghost new_nodes = nodes.deep_view();
                    tree.instructions.append(&mut nodes);
                    proof {
                        assert(tree.instructions.deep_view() =~= instrs0 + new_nodes);
                    }
                },
                _ => {
                    return Err(ParserError::Incomplete(loc2));
                },
            },
            _ => {
                return Err(ParserError::CodeOutsideSegment(loc2));
            },
        }
    }
    Ok(tree)
}

/// The main loop only grows well-formed trees: starting from concrete
/// instruction nodes and data-directive nodes, a tree it returns is
/// encodable.
pub proof fn lemma_spec_parse_loop_encodable(
    items: Seq<LexItemV>,
    seg: Bl,
    daddr: u32,
    iaddr: u32,
    instrs: Seq<InstructionNodeV>,
    data: Seq<DataNodeV>,
)
    requires
        forall|i: int| 0 <= i < instrs.len() ==> is_concrete(#[trigger] instrs[i].op),
        forall|i: int|
            0 <= i < data.len() ==> ((#[trigger] data[i].block) == Bl::Word || data[i].block
                == Bl::Space || data[i].block == Bl::Addr),
    ensures
        spec_parse_loop(items, seg, daddr, iaddr, instrs, data) matches Ok(t) ==> encodable(t),
    decreases items.len(),
{
    if items.len() == 0 {
    } else {
        match spec_statement_head(items) {
            Err(_) => {},
            Ok((label, loc, tok, rest)) => match seg {
                Bl::Data => match tok {
                    TokenV::Block(Bl::Text) => {
                        lemma_spec_parse_loop_encodable(rest, Bl::Text, daddr, iaddr, instrs, data);
                    },
                    TokenV::Block(Bl::Data) => {
                        lemma_spec_parse_loop_encodable(rest, Bl::Data, daddr, iaddr, instrs, data);
                    },
                    TokenV::Block(b) => {
                        let (res, rest2, daddr2) = spec_parse_data(b, label, rest, daddr);
                        match res {
                            Err(_) => {},
                            Ok(node) => {
                                lemma_spec_parse_data_block(b, label, rest, daddr);
                                let data2 = data.push(node);
                                assert(forall|i: int|
                                    0 <= i < data2.len() ==> ((#[trigger] data2[i].block)
                                        == Bl::Word || data2[i].block == Bl::Space
                                        || data2[i].block == Bl::Addr));
                                lemma_spec_parse_loop_encodable(
                                    rest2,
                                    seg,
                                    daddr2,
                                    iaddr,
                                    instrs,
                                    data2,
                                );
                            },
                        }
                    },
                    _ => {},
                },
                Bl::Text => match tok {
                    TokenV::Block(Bl::Data) => {
                        lemma_spec_parse_loop_encodable(rest, Bl::Data, daddr, iaddr, instrs, data);
                    },
                    TokenV::Block(Bl::Text) => {
                        lemma_spec_parse_loop_encodable(rest, Bl::Text, daddr, iaddr, instrs, data);
                    },
                    TokenV::Instruction(op) => {
                        let (res, rest2, iaddr2) = spec_parse_instruction(op, label, rest, iaddr);
                        match res {
                            Err(_) => {},
                            Ok(nodes) => {
                                lemma_spec_parse_instruction_concrete(op, label, rest, iaddr);
                                let instrs2 = instrs + nodes;
                                assert(forall|i: int|
                                    0 <= i < instrs2.len() ==> is_concrete(
                                        #[trigger] instrs2[i].op,
                                    ));
                                lemma_spec_parse_loop_encodable(
                                    rest2,
                                    seg,
                                    daddr,
                                    iaddr2,
                                    instrs2,
                                    data,
                                );
                            },
                        }
                    },
                    _ => {},
                },
                _ => {},
            },
        }
    }
}

/// A listing whose first token is anything but a segment directive
/// fails with [`ParserError::CodeOutsideSegment`] at that token, and an
/// empty token stream fails with [`ParserError::Empty`].
pub proof fn lemma_code_outside_segment(s: Seq<char>)
    ensures
        spec_lex(s).len() == 0 ==> spec_parse(s) == Err::<ProgramTreeV, ParserError>(
            ParserError::Empty,
        ),
        spec_lex(s).len() > 0 ==> (spec_lex(s)[0] matches Ok((l, t)) ==> (!(t == TokenV::Block(
            Bl::Data,
        ) || t == TokenV::Block(Bl::Text)) ==> spec_parse(s) == Err::<ProgramTreeV, ParserError>(
            ParserError::CodeOutsideSegment(l),
        ))),
{
}

/// A tree the parser returns is encodable: every instruction concrete,
/// every data node a data directive.
pub proof fn lemma_spec_parse_encodable(s: Seq<char>)
    ensures
        spec_parse(s) matches Ok(t) ==> encodable(t),
{
    let items = spec_lex(s);
    match head_item(items) {
        None => {},
        Some(Err(_)) => {},
        Some(Ok((l, t))) => {
            if t == TokenV::Block(Bl::Data) || t == TokenV::Block(Bl::Text) {
                let seg = if t == TokenV::Block(Bl::Data) {
                    Bl::Data
                } else {
                    Bl::Text
                };
                lemma_spec_parse_loop_encodable(
                    tail_items(items),
                    seg,
                    DATA_ADDRESS_OFFSET,
                    TEXT_ADDRESS_OFFSET,
                    Seq::empty(),
                    Seq::empty(),
                );
            }
        },
    }
}

/// The address layout a tree parsed from any listing obeys: the `i`-th
/// emitted instruction sits at `TEXT_ADDRESS_OFFSET + 4*i`, and each
/// data node other than `.addr` sits at `DATA_ADDRESS_OFFSET` plus four
/// bytes for every word stored before it, all modulo `2^32`.
pub open spec fn addresses_ok(t: ProgramTreeV) -> bool {
    &&& forall|i: int|
        0 <= i < t.instructions.len() ==> (#[trigger] t.instructions[i]).address == ((
        TEXT_ADDRESS_OFFSET + 4 * i) % 0x1_0000_0000) as u32
    &&& forall|k: int|
        0 <= k < t.data.len() ==> ((#[trigger] t.data[k]).block != Bl::Addr ==> t.data[k].address
            == ((DATA_ADDRESS_OFFSET + 4 * words_before(t.data, k)) % 0x1_0000_0000) as u32)
}

proof fn lemma_parse_loop_addresses(
    items: Seq<LexItemV>,
    seg: Bl,
    daddr: u32,
    iaddr: u32,
    instrs: Seq<InstructionNodeV>,
    data: Seq<DataNodeV>,
)
    requires
        forall|i: int|
            0 <= i < instrs.len() ==> (#[trigger] instrs[i]).address == ((TEXT_ADDRESS_OFFSET + 4
                * i) % 0x1_0000_0000) as u32,
        iaddr as int == (TEXT_ADDRESS_OFFSET + 4 * instrs.len()) % 0x1_0000_0000,
        forall|k: int|
            0 <= k < data.len() ==> ((#[trigger] data[k]).block != Bl::Addr ==> data[k].address
                == ((DATA_ADDRESS_OFFSET + 4 * words_before(data, k)) % 0x1_0000_0000) as u32),
        daddr as int == (DATA_ADDRESS_OFFSET + 4 * words_before(data, data.len() as int))
            % 0x1_0000_0000,
    ensures
        spec_parse_loop(items, seg, daddr, iaddr, instrs, data) matches Ok(t) ==> addresses_ok(t),
    decreases items.len(),
{
    if items.len() == 0 {
    } else {
        match spec_statement_head(items) {
            Err(_) => {},
            Ok((label, loc, tok, rest)) => match seg {
                Bl::Data => match tok {
                    TokenV::Block(Bl::Text) => {
                        lemma_parse_loop_addresses(rest, Bl::Text, daddr, iaddr, instrs, data);
                    },
                    TokenV::Block(Bl::Data) => {
                        lemma_parse_loop_addresses(rest, Bl::Data, daddr, iaddr, instrs, data);
                    },
                    TokenV::Block(b) => {
                        let (res, rest2, daddr2) = spec_parse_data(b, label, rest, daddr);
                        match res {
                            Err(_) => {},
                            Ok(node) => {
                                lemma_spec_parse_data_cursor(b, label, rest, daddr);
                                let data2 = data.push(node);
                                assert forall|k: int|
                                    0 <= k < data2.len() implies ((#[trigger] data2[k]).block
                                    != Bl::Addr ==> data2[k].address == ((DATA_ADDRESS_OFFSET + 4
                                    * words_before(data2, k)) % 0x1_0000_0000) as u32) by {
                                    lemma_words_before_push(data, node, k);
                                    if k < data.len() {
                                        assert(data2[k] == data[k]);
                                    } else {
                                        assert(data2[k] == node);
                                    }
                                }
                                assert(words_before(data2, data2.len() as int) == words_before(
                                    data,
                                    data.len() as int,
                                ) + data_node_count(node)) by {
                                    lemma_words_before_push(data, node, data.len() as int);
                                }
                                assert(daddr2 as int == (DATA_ADDRESS_OFFSET + 4 * words_before(
                                    data2,
                                    data2.len() as int,
                                )) % 0x1_0000_0000) by {
                                    lemma_mod_shift_add(
                                        DATA_ADDRESS_OFFSET + 4 * words_before(
                                            data,
                                            data.len() as int,
                                        ),
                                        4 * data_node_count(node),
                                    );
                                }
                                lemma_parse_loop_addresses(
                                    rest2,
                                    seg,
                                    daddr2,
                                    iaddr,
                                    instrs,
                                    data2,
                                );
                            },
                        }
                    },
                    _ => {},
                },
                Bl::Text => match tok {
                    TokenV::Block(Bl::Data) => {
                        lemma_parse_loop_addresses(rest, Bl::Data, daddr, iaddr, instrs, data);
                    },
                    TokenV::Block(Bl::Text) => {
                        lemma_parse_loop_addresses(rest, Bl::Text, daddr, iaddr, instrs, data);
                    },
                    TokenV::Instruction(op) => {
                        let (res, rest2, iaddr2) = spec_parse_instruction(op, label, rest, iaddr);
                        match res {
                            Err(_) => {},
                            Ok(nodes) => {
                                lemma_spec_parse_instruction_addresses(op, label, rest, iaddr);
                                let instrs2 = instrs + nodes;
                                assert forall|i: int|
                                    0 <= i < instrs2.len() implies (#[trigger] instrs2[i]).address
                                    == ((TEXT_ADDRESS_OFFSET + 4 * i)
                                    % 0x1_0000_0000) as u32 by {
                                    if i < instrs.len() {
                                        assert(instrs2[i] == instrs[i]);
                                    } else {
                                        assert(instrs2[i] == nodes[i - instrs.len()]);
                                        lemma_mod_shift_add(
                                            TEXT_ADDRESS_OFFSET + 4 * instrs.len(),
                                            4 * (i - instrs.len()),
                                        );
                                    }
                                }
                                assert(iaddr2 as int == (TEXT_ADDRESS_OFFSET + 4 * instrs2.len())
                                    % 0x1_0000_0000) by {
                                    lemma_mod_shift_add(
                                        TEXT_ADDRESS_OFFSET + 4 * instrs.len(),
                                        4 * nodes.len() as int,
                                    );
                                }
                                lemma_parse_loop_addresses(
                                    rest2,
                                    seg,
                                    daddr,
                                    iaddr2,
                                    instrs2,
                                    data,
                                );
                            },
                        }
                    },
                    _ => {},
                },
                _ => {},
            },
        }
    }
}

/// Any tree the parser returns lays its addresses out as
/// [`addresses_ok`] states: instructions at `TEXT_ADDRESS_OFFSET + 4*i`
/// in program order, data nodes at `DATA_ADDRESS_OFFSET` plus four bytes
/// per word stored before them, `.addr` nodes excepted.
pub proof fn lemma_spec_parse_addresses(s: Seq<char>)
    ensures
        spec_parse(s) matches Ok(t) ==> addresses_ok(t),
{
    let items = spec_lex(s);
    match head_item(items) {
        None => {},
        Some(Err(_)) => {},
        Some(Ok((l, t))) => {
            if t == TokenV::Block(Bl::Data) || t == TokenV::Block(Bl::Text) {
                let seg = if t == TokenV::Block(Bl::Data) {
                    Bl::Data
                } else {
                    Bl::Text
                };
                lemma_small_mod(TEXT_ADDRESS_OFFSET as nat, 0x1_0000_0000);
                lemma_small_mod(DATA_ADDRESS_OFFSET as nat, 0x1_0000_0000);
                lemma_parse_loop_addresses(
                    tail_items(items),
                    seg,
                    DATA_ADDRESS_OFFSET,
                    TEXT_ADDRESS_OFFSET,
                    Seq::empty(),
                    Seq::empty(),
                );
            }
        },
    }
}

} // verus!
