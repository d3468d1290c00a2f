//! Core data model of the assembler: tokens, program-tree nodes and the
//! binary form, together with the spec-level views used in contracts.

use vstd::prelude::*;

use vstd::arithmetic::div_mod::{lemma_add_mod_noop, lemma_add_mod_noop_right, lemma_small_mod};
use vstd::wrapping::u32_specs;

verus! {

/// Source position of a token or error: zero-based line and column.
#[derive(Debug, PartialEq, Eq, Structural, Clone, Copy)]
pub struct Loc {
    pub row: u32,
    pub col: u32,
}

/// Segment and data directive kinds: `.data`, `.text`, `.addr`, `.space`, `.word`.
#[derive(Debug, PartialEq, Eq, Structural, Clone, Copy)]
pub enum Bl {
    Data,
    Text,
    Addr,
    Space,
    Word,
}

/// Instruction mnemonics. The first sixteen are concrete ISA operations;
/// `La`, `Ja`, `Push` and `Pop` are pseudo-instructions that the parser
/// expands and that never appear in a parsed tree.
#[derive(Debug, PartialEq, Eq, Structural, Clone, Copy)]
pub enum Instr {
    And,
    Or,
    Xor,
    Not,
    Add,
    Sub,
    Cmp,
    J,
    Beq,
    Bne,
    Sl,
    Sr,
    Addi,
    Lui,
    Lw,
    Sw,
    La,
    Ja,
    Push,
    Pop,
}

/// `u32` wrapping addition is addition modulo `2^32`.
pub proof fn lemma_wrapping_add_is_mod(a: u32, b: u32)
    ensures
        u32_specs::wrapping_add(a, b) == ((a + b) % 0x1_0000_0000) as u32,
{
    if a + b <= u32::MAX {
        lemma_small_mod((a + b) as nat, 0x1_0000_0000);
    } else {
        vstd::arithmetic::div_mod::lemma_mod_sub_multiples_vanish(
            a as int + b as int,
            0x1_0000_0000,
        );
        lemma_small_mod((a + b - 0x1_0000_0000) as nat, 0x1_0000_0000);
    }
}

/// Adding on top of a reduced value reduces the same as adding first:
/// `((x mod 2^32) + y) mod 2^32 == (x + y) mod 2^32`.
pub proof fn lemma_mod_shift_add(x: int, y: int)
    ensures
        ((x % 0x1_0000_0000) + y) % 0x1_0000_0000 == (x + y) % 0x1_0000_0000,
{
    lemma_add_mod_noop(x, y, 0x1_0000_0000);
    lemma_add_mod_noop_right(x % 0x1_0000_0000, y, 0x1_0000_0000);
}

/// `u32` wrapping `a + 4*n` is addition modulo `2^32`.
pub proof fn lemma_wrapping_add_mul4_is_mod(a: u32, n: u32)
    ensures
        u32_specs::wrapping_add(a, u32_specs::wrapping_mul(n, 4)) == ((a + 4 * n)
            % 0x1_0000_0000) as u32,
{
    lemma_wrapping_add_is_mod(a, u32_specs::wrapping_mul(n, 4));
    lemma_add_mod_noop_right(a as int, 4 * n as int, 0x1_0000_0000);
}

/// Whether an opcode is a concrete ISA operation; the four
/// pseudo-instructions are expanded away by the parser and never stand
/// in a parsed tree.
pub open spec fn is_concrete(op: Instr) -> bool {
    !(op == Instr::La || op == Instr::Ja || op == Instr::Push || op == Instr::Pop)
}

/// Lexical token kinds.
#[derive(Debug, PartialEq, Eq, Clone)]
pub enum Token {
    Comma,
    Colon,
    Instruction(Instr),
    Register(u8),
    Identifier(String),
    Immediate(i64),
    Block(Bl),
    /// A malformed lexeme. The lexer reports malformed input as a located
    /// stream error instead, so it never emits this token itself.
    Invalid,
}

/// Spec-level value of a [`Token`]: identifier text as a character sequence.
pub enum TokenV {
    Comma,
    Colon,
    Instruction(Instr),
    Register(u8),
    Identifier(Seq<char>),
    Immediate(i64),
    Block(Bl),
    Invalid,
}

impl View for Token {
    type V = TokenV;

    open spec fn view(&self) -> TokenV {
        match self {
            Token::Comma => TokenV::Comma,
            Token::Colon => TokenV::Colon,
            Token::Instruction(i) => TokenV::Instruction(*i),
            Token::Register(r) => TokenV::Register(*r),
            Token::Identifier(s) => TokenV::Identifier(s@),
            Token::Immediate(v) => TokenV::Immediate(*v),
            Token::Block(b) => TokenV::Block(*b),
            Token::Invalid => TokenV::Invalid,
        }
    }
}

/// One concrete instruction of the program tree.
///
/// `identifier` is the label bound to this node's address (empty when none);
/// `imm_identifier` is an unresolved symbolic operand that the linker turns
/// into `imm` (empty when the operand was literal or absent).
#[derive(Debug, PartialEq, Eq, Clone)]
pub struct InstructionNode {
    pub op: Instr,
    pub rd: u8,
    pub ra: u8,
    pub rb: u8,
    pub imm: i64,
    pub identifier: String,
    pub imm_identifier: String,
    pub address: u32,
}

/// Spec-level value of an [`InstructionNode`].
pub struct InstructionNodeV {
    pub op: Instr,
    pub rd: u8,
    pub ra: u8,
    pub rb: u8,
    pub imm: i64,
    pub identifier: Seq<char>,
    pub imm_identifier: Seq<char>,
    pub address: u32,
}

impl View for InstructionNode {
    type V = InstructionNodeV;

    open spec fn view(&self) -> InstructionNodeV {
        InstructionNodeV {
            op: self.op,
            rd: self.rd,
            ra: self.ra,
            rb: self.rb,
            imm: self.imm,
            identifier: self.identifier@,
            imm_identifier: self.imm_identifier@,
            address: self.address,
        }
    }
}

impl DeepView for InstructionNode {
    type V = InstructionNodeV;

    open spec fn deep_view(&self) -> InstructionNodeV {
        self.view()
    }
}

/// One data directive of the program tree.
///
/// `data` is the stored literal (`.word` only); `num` is the word count
/// (`.space` only, 1 otherwise).
#[derive(Debug, PartialEq, Eq, Clone)]
pub struct DataNode {
    pub identifier: String,
    pub address: u32,
    pub block: Bl,
    pub data: i64,
    pub num: u32,
}

/// Spec-level value of a [`DataNode`].
pub struct DataNodeV {
    pub identifier: Seq<char>,
    pub address: u32,
    pub block: Bl,
    pub data: i64,
    pub num: u32,
}

impl View for DataNode {
    type V = DataNodeV;

    open spec fn view(&self) -> DataNodeV {
        DataNodeV {
            identifier: self.identifier@,
            address: self.address,
            block: self.block,
            data: self.data,
            num: self.num,
        }
    }
}

impl DeepView for DataNode {
    type V = DataNodeV;

    open spec fn deep_view(&self) -> DataNodeV {
        self.view()
    }
}

/// The parsed program: instruction list and data list, each in source order.
#[derive(Debug, PartialEq, Eq, Clone)]
pub struct ProgramTree {
    pub instructions: Vec<InstructionNode>,
    pub data: Vec<DataNode>,
}

/// Spec-level value of a [`ProgramTree`].
pub struct ProgramTreeV {
    pub instructions: Seq<InstructionNodeV>,
    pub data: Seq<DataNodeV>,
}

impl View for ProgramTree {
    type V = ProgramTreeV;

    open spec fn view(&self) -> ProgramTreeV {
        ProgramTreeV { instructions: self.instructions.deep_view(), data: self.data.deep_view() }
    }
}

/// The encoded program: one `u32` machine word per instruction and per
/// stored data word.
#[derive(Debug, PartialEq, Eq, Clone)]
pub struct ProgramBinary {
    pub instructions: Vec<u32>,
    pub data: Vec<u32>,
}

/// Spec-level value of a [`ProgramBinary`].
pub struct ProgramBinaryV {
    pub instructions: Seq<u32>,
    pub data: Seq<u32>,
}

impl View for ProgramBinary {
    type V = ProgramBinaryV;

    open spec fn view(&self) -> ProgramBinaryV {
        ProgramBinaryV { instructions: self.instructions@, data: self.data@ }
    }
}

} // verus!
