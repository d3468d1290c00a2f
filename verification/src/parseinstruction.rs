//! Parser for one instruction statement: the opcode's operand schema is
//! read and one node is built — or, for the pseudo-instructions `la`,
//! `ja`, `push` and `pop`, the fixed expansion of two or three concrete
//! nodes, of which only the first carries the caller's label.

use vstd::prelude::*;

use crate::mylexer::{LexItemV, Lexer};
use crate::parser::{head_item, tail_items, ParserError};
use crate::parserhelpers::{
    get_identifier_or_imm, get_register, sel_token, spec_get_identifier_or_imm, spec_get_immediate,
    spec_get_register, spec_sel_token, get_immediate,
};
use crate::types::{
    is_concrete, lemma_mod_shift_add, lemma_wrapping_add_is_mod, Instr, InstructionNode,
    InstructionNodeV, Token, TokenV,
};
use vstd::arithmetic::div_mod::lemma_small_mod;
use vstd::wrapping::u32_specs;

verus! {

/// Shorthand for one spec-level instruction node.
pub open spec fn inode(
    op: Instr,
    rd: u8,
    ra: u8,
    rb: u8,
    imm: i64,
    identifier: Seq<char>,
    imm_identifier: Seq<char>,
    address: u32,
) -> InstructionNodeV {
    InstructionNodeV { op, rd, ra, rb, imm, identifier, imm_identifier, address }
}

/// Operand list `reg, reg, reg`.
pub open spec fn spec_args_rrr(items: Seq<LexItemV>) -> (
    Result<(u8, u8, u8), ParserError>,
    Seq<LexItemV>,
) {
    let it1 = tail_items(items);
    match spec_get_register(head_item(items)) {
        Err(e) => (Err(e), it1),
        Ok(x) => {
            let it2 = tail_items(it1);
            match spec_sel_token(head_item(it1), TokenV::Comma) {
                Err(e) => (Err(e), it2),
                Ok(_) => {
                    let it3 = tail_items(it2);
                    match spec_get_register(head_item(it2)) {
                        Err(e) => (Err(e), it3),
                        Ok(y) => {
                            let it4 = tail_items(it3);
                            match spec_sel_token(head_item(it3), TokenV::Comma) {
                                Err(e) => (Err(e), it4),
                                Ok(_) => {
                                    let it5 = tail_items(it4);
                                    match spec_get_register(head_item(it4)) {
                                        Err(e) => (Err(e), it5),
                                        Ok(z) => (Ok((x, y, z)), it5),
                                    }
                                },
                            }
                        },
                    }
                },
            }
        },
    }
}

/// Operand list `reg, reg`.
pub open spec fn spec_args_rr(items: Seq<LexItemV>) -> (
    Result<(u8, u8), ParserError>,
    Seq<LexItemV>,
) {
    let it1 = tail_items(items);
    match spec_get_register(head_item(items)) {
        Err(e) => (Err(e), it1),
        Ok(x) => {
            let it2 = tail_items(it1);
            match spec_sel_token(head_item(it1), TokenV::Comma) {
                Err(e) => (Err(e), it2),
                Ok(_) => {
                    let it3 = tail_items(it2);
                    match spec_get_register(head_item(it2)) {
                        Err(e) => (Err(e), it3),
                        Ok(y) => (Ok((x, y)), it3),
                    }
                },
            }
        },
    }
}

/// Operand list `reg, reg, immediate`.
pub open spec fn spec_args_rri(items: Seq<LexItemV>) -> (
    Result<(u8, u8, i64), ParserError>,
    Seq<LexItemV>,
) {
    let it1 = tail_items(items);
    match spec_get_register(head_item(items)) {
        Err(e) => (Err(e), it1),
        Ok(x) => {
            let it2 = tail_items(it1);
            match spec_sel_token(head_item(it1), TokenV::Comma) {
                Err(e) => (Err(e), it2),
                Ok(_) => {
                    let it3 = tail_items(it2);
                    match spec_get_register(head_item(it2)) {
                        Err(e) => (Err(e), it3),
                        Ok(y) => {
                            let it4 = tail_items(it3);
                            match spec_sel_token(head_item(it3), TokenV::Comma) {
                                Err(e) => (Err(e), it4),
                                Ok(_) => {
                                    let it5 = tail_items(it4);
                                    match spec_get_immediate(head_item(it4)) {
                                        Err(e) => (Err(e), it5),
                                        Ok(i) => (Ok((x, y, i)), it5),
                                    }
                                },
                            }
                        },
                    }
                },
            }
        },
    }
}

/// Operand list `reg, reg, identifier-or-immediate`.
pub open spec fn spec_args_rrt(items: Seq<LexItemV>) -> (
    Result<(u8, u8, Seq<char>, i64), ParserError>,
    Seq<LexItemV>,
) {
    let it1 = tail_items(items);
    match spec_get_register(head_item(items)) {
        Err(e) => (Err(e), it1),
        Ok(x) => {
            let it2 = tail_items(it1);
            match spec_sel_token(head_item(it1), TokenV::Comma) {
                Err(e) => (Err(e), it2),
                Ok(_) => {
                    let it3 = tail_items(it2);
                    match spec_get_register(head_item(it2)) {
                        Err(e) => (Err(e), it3),
                        Ok(y) => {
                            let it4 = tail_items(it3);
                            match spec_sel_token(head_item(it3), TokenV::Comma) {
                                Err(e) => (Err(e), it4),
                                Ok(_) => {
                                    let it5 = tail_items(it4);
                                    match spec_get_identifier_or_imm(head_item(it4)) {
                                        Err(e) => (Err(e), it5),
                                        Ok((t, i)) => (Ok((x, y, t, i)), it5),
                                    }
                                },
                            }
                        },
                    }
                },
            }
        },
    }
}

/// Operand list `reg, immediate`.
pub open spec fn spec_args_ri(items: Seq<LexItemV>) -> (
    Result<(u8, i64), ParserError>,
    Seq<LexItemV>,
) {
    let it1 = tail_items(items);
    match spec_get_register(head_item(items)) {
        Err(e) => (Err(e), it1),
        Ok(x) => {
            let it2 = tail_items(it1);
            match spec_sel_token(head_item(it1), TokenV::Comma) {
                Err(e) => (Err(e), it2),
                Ok(_) => {
                    let it3 = tail_items(it2);
                    match spec_get_immediate(head_item(it2)) {
                        Err(e) => (Err(e), it3),
                        Ok(i) => (Ok((x, i)), it3),
                    }
                },
            }
        },
    }
}

/// Operand list `reg, identifier-or-immediate`.
pub open spec fn spec_args_rt(items: Seq<LexItemV>) -> (
    Result<(u8, Seq<char>, i64), ParserError>,
    Seq<LexItemV>,
) {
    let it1 = tail_items(items);
    match spec_get_register(head_item(items)) {
        Err(e) => (Err(e), it1),
        Ok(x) => {
            let it2 = tail_items(it1);
            match spec_sel_token(head_item(it1), TokenV::Comma) {
                Err(e) => (Err(e), it2),
                Ok(_) => {
                    let it3 = tail_items(it2);
                    match spec_get_identifier_or_imm(head_item(it2)) {
                        Err(e) => (Err(e), it3),
                        Ok((t, i)) => (Ok((x, t, i)), it3),
                    }
                },
            }
        },
    }
}

/// What parsing one instruction yields: the emitted nodes or the error,
/// the items left over, and the new text-address cursor. Every emitted
/// node takes four bytes of address space; address arithmetic wraps
/// modulo `2^32`.
pub open spec fn spec_parse_instruction(
    op: Instr,
    id: Seq<char>,
    items: Seq<LexItemV>,
    addr: u32,
) -> (Result<Seq<InstructionNodeV>, ParserError>, Seq<LexItemV>, u32) {
    let none = Seq::<char>::empty();
    match op {
        Instr::And | Instr::Or | Instr::Xor | Instr::Add | Instr::Sub | Instr::Cmp => {
            match spec_args_rrr(items) {
                (Err(e), rest) => (Err(e), rest, addr),
                (Ok((rd, ra, rb)), rest) => (
                    Ok(seq![inode(op, rd, ra, rb, 0, id, none, addr)]),
                    rest,
                    u32_specs::wrapping_add(addr, 4),
                ),
            }
        },
        Instr::Not | Instr::J => match spec_args_rr(items) {
            (Err(e), rest) => (Err(e), rest, addr),
            (Ok((rd, ra)), rest) => (
                Ok(seq![inode(op, rd, ra, 0, 0, id, none, addr)]),
                rest,
                u32_specs::wrapping_add(addr, 4),
            ),
        },
        Instr::Sl | Instr::Sr | Instr::Addi => match spec_args_rri(items) {
            (Err(e), rest) => (Err(e), rest, addr),
            (Ok((rd, ra, imm)), rest) => (
                Ok(seq![inode(op, rd, ra, 0, imm, id, none, addr)]),
                rest,
                u32_specs::wrapping_add(addr, 4),
            ),
        },
        Instr::Beq | Instr::Bne => match spec_args_rrt(items) {
            (Err(e), rest) => (Err(e), rest, addr),
            (Ok((ra, rb, target, imm)), rest) => (
                Ok(seq![inode(op, 0, ra, rb, imm, id, target, addr)]),
                rest,
                u32_specs::wrapping_add(addr, 4),
            ),
        },
        Instr::Lui => match spec_args_ri(items) {
            (Err(e), rest) => (Err(e), rest, addr),
            (Ok((rd, imm)), rest) => (
                Ok(seq![inode(op, rd, 0, 0, imm, id, none, addr)]),
                rest,
                u32_specs::wrapping_add(addr, 4),
            ),
        },
        Instr::Lw => match spec_args_rr(items) {
            (Err(e), rest) => (Err(e), rest, addr),
            (Ok((rd, rb)), rest) => (
                Ok(seq![inode(op, rd, 0, rb, 0, id, none, addr)]),
                rest,
                u32_specs::wrapping_add(addr, 4),
            ),
        },
        Instr::Sw => match spec_args_rr(items) {
            (Err(e), rest) => (Err(e), rest, addr),
            (Ok((ra, rb)), rest) => (
                Ok(seq![inode(op, 0, ra, rb, 0, id, none, addr)]),
                rest,
                u32_specs::wrapping_add(addr, 4),
            ),
        },
        Instr::La => match spec_args_rt(items) {
            (Err(e), rest) => (Err(e), rest, addr),
            (Ok((rd, target, imm)), rest) => (
                Ok(
                    seq![
                        inode(Instr::Lui, 1, 0, 0, imm >> 16, id, target, addr),
                        inode(
                            Instr::Addi,
                            rd,
                            1,
                            0,
                            imm & 0xffff,
                            none,
                            target,
                            u32_specs::wrapping_add(addr, 4),
                        ),
                    ],
                ),
                rest,
                u32_specs::wrapping_add(u32_specs::wrapping_add(addr, 4), 4),
            ),
        },
        Instr::Ja => match spec_args_rt(items) {
            (Err(e), rest) => (Err(e), rest, addr),
            (Ok((rd, target, imm)), rest) => (
                Ok(
                    seq![
                        inode(Instr::Lui, 1, 0, 0, imm >> 16, id, target, addr),
                        inode(
                            Instr::Addi,
                            1,
                            1,
                            0,
                            imm & 0xffff,
                            none,
                            target,
                            u32_specs::wrapping_add(addr, 4),
                        ),
                        inode(
                            Instr::J,
                            rd,
                            1,
                            0,
                            0,
                            none,
                            none,
                            u32_specs::wrapping_add(u32_specs::wrapping_add(addr, 4), 4),
                        ),
                    ],
                ),
                rest,
                u32_specs::wrapping_add(
                    u32_specs::wrapping_add(u32_specs::wrapping_add(addr, 4), 4),
                    4,
                ),
            ),
        },
        Instr::Push => {
            let rest = tail_items(items);
            match spec_get_register(head_item(items)) {
                Err(e) => (Err(e), rest, addr),
                Ok(ra) => (
                    Ok(
                        seq![
                            inode(Instr::Addi, 15, 15, 0, -4i64, id, none, addr),
                            inode(
                                Instr::Sw,
                                0,
                                ra,
                                15,
                                0,
                                none,
                                none,
                                u32_specs::wrapping_add(addr, 4),
                            ),
                        ],
                    ),
                    rest,
                    u32_specs::wrapping_add(u32_specs::wrapping_add(addr, 4), 4),
                ),
            }
        },
        Instr::Pop => {
            let rest = tail_items(items);
            match spec_get_register(head_item(items)) {
                Err(e) => (Err(e), rest, addr),
                Ok(rd) => (
                    Ok(
                        seq![
                            inode(Instr::Lw, rd, 0, 15, 0, id, none, addr),
                            inode(
                                Instr::Addi,
                                15,
                                15,
                                0,
                                4,
                                none,
                                none,
                                u32_specs::wrapping_add(addr, 4),
                            ),
                        ],
                    ),
                    rest,
                    u32_specs::wrapping_add(u32_specs::wrapping_add(addr, 4), 4),
                ),
            }
        },
    }
}

/// Every node [`spec_parse_instruction`] yields carries a concrete
/// opcode: the pseudo-instructions expand into concrete ones.
pub proof fn lemma_spec_parse_instruction_concrete(
    op: Instr,
    id: Seq<char>,
    items: Seq<LexItemV>,
    addr: u32,
)
    ensures
        spec_parse_instruction(op, id, items, addr).0 matches Ok(nodes) ==> forall|i: int|
            0 <= i < nodes.len() ==> is_concrete(#[trigger] nodes[i].op),
{
}

/// Every emitted node takes four bytes of address space, in program
/// order: the `j`-th node of one statement sits at `addr + 4*j` (modulo
/// `2^32`) and the cursor moves past the last one.
pub proof fn lemma_spec_parse_instruction_addresses(
    op: Instr,
    id: Seq<char>,
    items: Seq<LexItemV>,
    addr: u32,
)
    ensures
        spec_parse_instruction(op, id, items, addr).0 matches Ok(nodes) ==> {
            &&& 1 <= nodes.len()
            &&& forall|j: int|
                0 <= j < nodes.len() ==> (#[trigger] nodes[j]).address == ((addr + 4 * j)
                    % 0x1_0000_0000) as u32
            &&& spec_parse_instruction(op, id, items, addr).2 == ((addr + 4 * nodes.len())
                % 0x1_0000_0000) as u32
        },
{
    let a1 = u32_specs::wrapping_add(addr, 4);
    let a2 = u32_specs::wrapping_add(a1, 4);
    let a3 = u32_specs::wrapping_add(a2, 4);
    lemma_small_mod(addr as nat, 0x1_0000_0000);
    lemma_wrapping_add_is_mod(addr, 4);
    lemma_wrapping_add_is_mod(a1, 4);
    lemma_wrapping_add_is_mod(a2, 4);
    lemma_mod_shift_add(addr as int + 4, 4);
    lemma_mod_shift_add(addr as int + 8, 4);
    assert(addr == ((addr + 4 * 0) % 0x1_0000_0000) as u32);
    assert(a1 == ((addr + 4 * 1) % 0x1_0000_0000) as u32);
    assert(a2 == ((addr + 4 * 2) % 0x1_0000_0000) as u32);
    assert(a3 == ((addr + 4 * 3) % 0x1_0000_0000) as u32);
}

/// Pseudo-instruction expansion is a fixed, pure function of its
/// operands: `la` emits two nodes, `ja` three, `push` and `pop` two
/// each; every concrete opcode emits exactly one.
pub proof fn lemma_expansion_counts(op: Instr, id: Seq<char>, items: Seq<LexItemV>, addr: u32)
    ensures
        spec_parse_instruction(op, id, items, addr).0 matches Ok(nodes) ==> nodes.len() == (
        match op {
            Instr::La => 2int,
            Instr::Ja => 3int,
            Instr::Push => 2int,
            Instr::Pop => 2int,
            _ => 1int,
        }),
{
}

/// Parse the rest of one instruction whose opcode is `instruction`,
/// labelled `identifier`, advancing the address cursor; yields exactly
/// the nodes [`spec_parse_instruction`] assigns to the lexer's remaining
/// items — one node, or the pseudo-instruction's expansion.
pub fn parse_instruction(
    instruction: Instr,
    identifier: String,
    lexer: &mut Lexer,
    address: &mut u32,
) -> (r: Result<Vec<InstructionNode>, ParserError>)
    ensures
        ({
            let (res, rest, addr2) = spec_parse_instruction(
                instruction,
                identifier@,
                old(lexer)@,
                *old(address),
            );
            &&& final(lexer)@ == rest
            &&& *final(address) == addr2
            &&& match r {
                Ok(nodes) => res == Ok::<Seq<InstructionNodeV>, ParserError>(nodes.deep_view()),
                Err(e) => res == Err::<Seq<InstructionNodeV>, ParserError>(e),
            }
        }),
{
    let ghost id0 = identifier@;
    let mut nodes: Vec<InstructionNode> = Vec::new();
    match instruction {
        Instr::And | Instr::Or | Instr::Xor | Instr::Add | Instr::Sub | Instr::Cmp => {
            let rd = match get_register(lexer.next()) {
                Ok(x) => x,
                Err(e) => return Err(e),
            };
            match sel_token(lexer.next(), Token::Comma) {
                Ok(_) => (),
                Err(e) => return Err(e),
            };
            let ra = match get_register(lexer.next()) {
                Ok(x) => x,
                Err(e) => return Err(e),
            };
            match sel_token(lexer.next(), Token::Comma) {
                Ok(_) => (),
                Err(e) => return Err(e),
            };
            let rb = match get_register(lexer.next()) {
                Ok(x) => x,
                Err(e) => return Err(e),
            };
            nodes.push(
                InstructionNode {
                    op: instruction,
                    rd,
                    ra,
                    rb,
                    imm: 0,
                    identifier,
                    imm_identifier: String::new(),
                    address: *address,
                },
            );
            *address = address.wrapping_add(4);
        },
        Instr::Not | Instr::J => {
            let rd = match get_register(lexer.next()) {
                Ok(x) => x,
                Err(e) => return Err(e),
            };
            match sel_token(lexer.next(), Token::Comma) {
                Ok(_) => (),
                Err(e) => return Err(e),
            };
            let ra = match get_register(lexer.next()) {
                Ok(x) => x,
                Err(e) => return Err(e),
            };
            nodes.push(
                InstructionNode {
                    op: instruction,
                    rd,
                    ra,
                    rb: 0,
                    imm: 0,
                    identifier,
                    imm_identifier: String::new(),
                    address: *address,
                },
            );
            *address = address.wrapping_add(4);
        },
        Instr::Sl | Instr::Sr | Instr::Addi => {
            let rd = match get_register(lexer.next()) {
                Ok(x) => x,
                Err(e) => return Err(e),
            };
            match sel_token(lexer.next(), Token::Comma) {
                Ok(_) => (),
                Err(e) => return Err(e),
            };
            let ra = match get_register(lexer.next()) {
                Ok(x) => x,
                Err(e) => return Err(e),
            };
            match sel_token(lexer.next(), Token::Comma) {
                Ok(_) => (),
                Err(e) => return Err(e),
            };
            let imm = match get_immediate(lexer.next()) {
                Ok(x) => x,
                Err(e) => return Err(e),
            };
            nodes.push(
                InstructionNode {
                    op: instruction,
                    rd,
                    ra,
                    rb: 0,
                    imm,
                    identifier,
                    imm_identifier: String::new(),
                    address: *address,
                },
            );
            *address = address.wrapping_add(4);
        },
        Instr::Beq | Instr::Bne => {
            let ra = match get_register(lexer.next()) {
                Ok(x) => x,
                Err(e) => return Err(e),
            };
            match sel_token(lexer.next(), Token::Comma) {
                Ok(_) => (),
                Err(e) => return Err(e),
            };
            let rb = match get_register(lexer.next()) {
                Ok(x) => x,
                Err(e) => return Err(e),
            };
            match sel_token(lexer.next(), Token::Comma) {
                Ok(_) => (),
                Err(e) => return Err(e),
            };
            let (imm_identifier, imm) = match get_identifier_or_imm(lexer.next()) {
                Ok(x) => x,
                Err(e) => return Err(e),
            };
            nodes.push(
                InstructionNode {
                    op: instruction,
                    rd: 0,
                    ra,
                    rb,
                    imm,
                    identifier,
                    imm_identifier,
                    address: *address,
                },
            );
            *address = address.wrapping_add(4);
        },
        Instr::Lui => {
            let rd = match get_register(lexer.next()) {
                Ok(x) => x,
                Err(e) => return Err(e),
            };
            match sel_token(lexer.next(), Token::Comma) {
                Ok(_) => (),
                Err(e) => return Err(e),
            };
            let imm = match get_immediate(lexer.next()) {
                Ok(x) => x,
                Err(e) => return Err(e),
            };
            nodes.push(
                InstructionNode {
                    op: instruction,
                    rd,
                    ra: 0,
                    rb: 0,
                    imm,
                    identifier,
                    imm_identifier: String::new(),
                    address: *address,
                },
            );
            *address = address.wrapping_add(4);
        },
        Instr::Lw => {
            let rd = match get_register(lexer.next()) {
                Ok(x) => x,
                Err(e) => return Err(e),
            };
            match sel_token(lexer.next(), Token::Comma) {
                Ok(_) => (),
                Err(e) => return Err(e),
            };
            let rb = match get_register(lexer.next()) {
                Ok(x) => x,
                Err(e) => return Err(e),
            };
            nodes.push(
                InstructionNode {
                    op: instruction,
                    rd,
                    ra: 0,
                    rb,
                    imm: 0,
                    identifier,
                    imm_identifier: String::new(),
                    address: *address,
                },
            );
            *address = address.wrapping_add(4);
        },
        Instr::Sw => {
            let ra = match get_register(lexer.next()) {
                Ok(x) => x,
                Err(e) => return Err(e),
            };
            match sel_token(lexer.next(), Token::Comma) {
                Ok(_) => (),
                Err(e) => return Err(e),
            };
            let rb = match get_register(lexer.next()) {
                Ok(x) => x,
                Err(e) => return Err(e),
            };
            nodes.push(
                InstructionNode {
                    op: instruction,
                    rd: 0,
                    ra,
                    rb,
                    imm: 0,
                    identifier,
                    imm_identifier: String::new(),
                    address: *address,
                },
            );
            *address = address.wrapping_add(4);
        },
        Instr::La => {
            let rd = match get_register(lexer.next()) {
                Ok(x) => x,
                Err(e) => return Err(e),
            };
            match sel_token(lexer.next(), Token::Comma) {
                Ok(_) => (),
                Err(e) => return Err(e),
            };
            let (imm_identifier, imm) = match get_identifier_or_imm(lexer.next()) {
                Ok(x) => x,
                Err(e) => return Err(e),
            };
            nodes.push(
                InstructionNode {
                    op: Instr::Lui,
                    rd: 1,
                    ra: 0,
                    rb: 0,
                    imm: imm >> 16,
                    identifier,
                    imm_identifier: imm_identifier.clone(),
                    address: *address,
                },
            );
            *address = address.wrapping_add(4);
            nodes.push(
                InstructionNode {
                    op: Instr::Addi,
                    rd,
                    ra: 1,
                    rb: 0,
                    imm: imm & 0xffff,
                    identifier: String::new(),
                    imm_identifier,
                    address: *address,
                },
            );
            *address = address.wrapping_add(4);
        },
        Instr::Ja => {
            let rd = match get_register(lexer.next()) {
                Ok(x) => x,
                Err(e) => return Err(e),
            };
            match sel_token(lexer.next(), Token::Comma) {
                Ok(_) => (),
                Err(e) => return Err(e),
            };
            let (imm_identifier, imm) = match get_identifier_or_imm(lexer.next()) {
                Ok(x) => x,
                Err(e) => return Err(e),
            };
            nodes.push(
                InstructionNode {
                    op: Instr::Lui,
                    rd: 1,
                    ra: 0,
                    rb: 0,
                    imm: imm >> 16,
                    identifier,
                    imm_identifier: imm_identifier.clone(),
                    address: *address,
                },
            );
            *address = address.wrapping_add(4);
            nodes.push(
                InstructionNode {
                    op: Instr::Addi,
                    rd: 1,
                    ra: 1,
                    rb: 0,
                    imm: imm & 0xffff,
                    identifier: String::new(),
                    imm_identifier,
                    address: *address,
                },
            );
            *address = address.wrapping_add(4);
            nodes.push(
                InstructionNode {
                    op: Instr::J,
                    rd,
                    ra: 1,
                    rb: 0,
                    imm: 0,
                    identifier: String::new(),
                    imm_identifier: String::new(),
                    address: *address,
                },
            );
            *address = address.wrapping_add(4);
        },
        Instr::Push => {
            let ra = match get_register(lexer.next()) {
                Ok(x) => x,
                Err(e) => return Err(e),
            };
            nodes.push(
                InstructionNode {
                    op: Instr::Addi,
                    rd: 15,
                    ra: 15,
                    rb: 0,
                    imm: -4,
                    identifier,
                    imm_identifier: String::new(),
                    address: *address,
                },
            );
            *address = address.wrapping_add(4);
            nodes.push(
                InstructionNode {
                    op: Instr::Sw,
                    rd: 0,
                    ra,
                    rb: 15,
                    imm: 0,
                    identifier: String::new(),
                    imm_identifier: String::new(),
                    address: *address,
                },
            );
            *address = address.wrapping_add(4);
        },
        Instr::Pop => {
            let rd = match get_register(lexer.next()) {
                Ok(x) => x,
                Err(e) => return Err(e),
            };
            nodes.push(
                InstructionNode {
                    op: Instr::Lw,
                    rd,
                    ra: 0,
                    rb: 15,
                    imm: 0,
                    identifier,
                    imm_identifier: String::new(),
                    address: *address,
                },
            );
            *address = address.wrapping_add(4);
            nodes.push(
                InstructionNode {
                    op: Instr::Addi,
                    rd: 15,
                    ra: 15,
                    rb: 0,
                    imm: 4,
                    identifier: String::new(),
                    imm_identifier: String::new(),
                    address: *address,
                },
            );
            *address = address.wrapping_add(4);
        },
    };
    proof {
        assert(nodes.deep_view() =~= spec_parse_instruction(
            instruction,
            id0,
            old(lexer)@,
            *old(address),
        ).0->Ok_0);
    }
    Ok(nodes)
}

} // verus!
