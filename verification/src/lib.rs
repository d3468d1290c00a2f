//! An assembler for a small 16-register, 16-opcode load/store instruction
//! set. Source listings are lexed, parsed into a program tree (expanding
//! pseudo-instructions), linked against a symbol table, and encoded as
//! 32-bit machine words or Intel-HEX text.

use vstd::prelude::*;

mod types;
pub mod mylexer;
pub mod parser;
pub mod parserhelpers;
pub mod parsedata;
pub mod parseinstruction;
pub mod linker;
pub mod printer;

pub use types::{
    is_concrete, Bl, DataNode, DataNodeV, Instr, InstructionNode, InstructionNodeV, Loc,
    ProgramBinary, ProgramBinaryV, ProgramTree, ProgramTreeV, Token, TokenV,
};

use linker::{lemma_spec_link_encodable, link, spec_link};
use parser::{lemma_spec_parse_encodable, parse, spec_parse};

pub use linker::{LinkerError, LinkerErrorV};
pub use parser::ParserError;
use printer::{print_binary, print_hex, spec_print_binary, spec_print_hex};



verus! {

/// Static variable memory addresses start here.
pub const DATA_ADDRESS_OFFSET: u32 = 0x1000_0000;

/// Instruction memory addresses start here.
pub const TEXT_ADDRESS_OFFSET: u32 = 0x0000_0000;

/// Any failure of the assembly pipeline.
#[derive(Debug, PartialEq, Eq, Clone)]
pub enum AssemblerError {
    ParserError(ParserError),
    LinkerError(LinkerError),
}

/// Spec-level value of an [`AssemblerError`].
pub enum AssemblerErrorV {
    ParserError(ParserError),
    LinkerError(LinkerErrorV),
}

impl View for AssemblerError {
    type V = AssemblerErrorV;

    open spec fn view(&self) -> AssemblerErrorV {
        match self {
            AssemblerError::ParserError(e) => AssemblerErrorV::ParserError(*e),
            AssemblerError::LinkerError(e) => AssemblerErrorV::LinkerError(e@),
        }
    }
}

/// Whether some node of the tree is labelled `name`.
pub open spec fn spec_has_label(t: ProgramTreeV, name: Seq<char>) -> bool {
    (exists|i: int| 0 <= i < t.data.len() && (#[trigger] t.data[i]).identifier == name) || (
    exists|i: int|
        0 <= i < t.instructions.len() && (#[trigger] t.instructions[i]).identifier == name)
}

fn has_label(tree: &ProgramTree, name: &String) -> (r: bool)
    ensures
        r == spec_has_label(tree@, name@),
{
    let mut i: usize = 0;
    while i < tree.data.len()
        invariant
            i <= tree.data@.len(),
            forall|j: int| 0 <= j < i ==> (#[trigger] tree@.data[j]).identifier != name@,
        decreases tree.data@.len() - i,
    {
        if tree.data[i].identifier == *name {
            proof {
                assert(tree@.data[i as int].identifier == name@);
            }
            return true;
        }
        i = i + 1;
    }
    let mut k: usize = 0;
    while k < tree.instructions.len()
        invariant
            k <= tree.instructions@.len(),
            forall|j: int| 0 <= j < tree.data@.len() ==> (#[trigger] tree@.data[j]).identifier != name@,
            forall|j: int| 0 <= j < k ==> (#[trigger] tree@.instructions[j]).identifier != name@,
        decreases tree.instructions@.len() - k,
    {
        if tree.instructions[k].identifier == *name {
            proof {
                assert(tree@.instructions[k as int].identifier == name@);
            }
            return true;
        }
        k = k + 1;
    }
    false
}

/// The result the whole pipeline assigns to a listing: parse, link,
/// demand the entry label `main`, encode, serialize as Intel-HEX at the
/// given physical data offset. A missing entry label is reported as
/// `UnknownIdentifier` of `main`.
pub open spec fn spec_assemble(s: Seq<char>, offset: u32) -> Result<Seq<char>, AssemblerErrorV> {
    match spec_parse(s) {
        Err(e) => Err(AssemblerErrorV::ParserError(e)),
        Ok(t) => match spec_link(t) {
            Err(e) => Err(AssemblerErrorV::LinkerError(e)),
            Ok(linked) => if !spec_has_label(linked, "main"@) {
                Err(AssemblerErrorV::LinkerError(LinkerErrorV::UnknownIdentifier("main"@)))
            } else {
                Ok(spec_print_hex(spec_print_binary(linked), offset))
            },
        },
    }
}

/// Assemble a program listing into Intel-HEX text.
///
/// The listing should be all the files of the program concatenated
/// together, starting with the main function; `offset` is the physical
/// word address the data segment is remapped to. Yields exactly what
/// [`spec_assemble`] assigns to the listing.
pub fn assemble(listing: &str, offset: u32) -> (r: Result<String, AssemblerError>)
    requires
        listing@.len() <= 0xffff_ffff,
    ensures
        match r {
            Ok(hex) => spec_assemble(listing@, offset) == Ok::<Seq<char>, AssemblerErrorV>(hex@),
            Err(e) => spec_assemble(listing@, offset) == Err::<Seq<char>, AssemblerErrorV>(e@),
        },
{
    let parsed = match parse(listing) {
        Ok(t) => t,
        Err(e) => {
            return Err(AssemblerError::ParserError(e));
        },
    };
    let ghost parsed0 = parsed@;
    let linked = match link(parsed) {
        Ok(t) => t,
        Err(e) => {
            return Err(AssemblerError::LinkerError(e));
        },
    };
    let main_key = String::from_str("main");
    if !has_label(&linked, &main_key) {
        return Err(AssemblerError::LinkerError(LinkerError::UnknownIdentifier(main_key)));
    }
    proof {
        lemma_spec_parse_encodable(listing@);
        lemma_spec_link_encodable(parsed0);
    }
    let binary = print_binary(linked);
    let hex = print_hex(binary, offset);
    Ok(hex)
}

} // verus!

