use greg::linker::{link, LinkerError};
use greg::{Bl, DataNode, Instr, InstructionNode, ProgramTree};

#[test]
fn linktest() {
    let tree_in = ProgramTree {
        data: vec![DataNode {
            identifier: "number".to_string(),
            address: 0x1000_0004,
            block: Bl::Word,
            data: 5,
            num: 1,
        }],
        instructions: vec![
            InstructionNode {
                op: Instr::Lui,
                rd: 1,
                ra: 0,
                rb: 0,
                imm: 0,
                identifier: "beginning".to_string(),
                imm_identifier: "number".to_string(),
                address: 0,
            },
            InstructionNode {
                op: Instr::Addi,
                rd: 1,
                ra: 0,
                rb: 0,
                imm: 0,
                identifier: "".to_string(),
                imm_identifier: "number".to_string(),
                address: 4,
            },
            InstructionNode {
                op: Instr::Beq,
                rd: 0,
                ra: 1,
                rb: 0,
                imm: 0,
                identifier: "".to_string(),
                imm_identifier: "beginning".to_string(),
                address: 8,
            },
        ],
    };

    let tree_out = ProgramTree {
        data: vec![DataNode {
            identifier: "number".to_string(),
            address: 0x1000_0004,
            block: Bl::Word,
            data: 5,
            num: 1,
        }],
        instructions: vec![
            InstructionNode {
                op: Instr::Lui,
                rd: 1,
                ra: 0,
                rb: 0,
                imm: 0x1000,
                identifier: "beginning".to_string(),
                imm_identifier: "number".to_string(),
                address: 0,
            },
            InstructionNode {
                op: Instr::Addi,
                rd: 1,
                ra: 0,
                rb: 0,
                imm: 0x0004,
                identifier: "".to_string(),
                imm_identifier: "number".to_string(),
                address: 4,
            },
            InstructionNode {
                op: Instr::Beq,
                rd: 0,
                ra: 1,
                rb: 0,
                imm: -8,
                identifier: "".to_string(),
                imm_identifier: "beginning".to_string(),
                address: 8,
            },
        ],
    };

    let tree_linked = link(tree_in);

    assert_eq!(tree_linked.unwrap(), tree_out);
}

#[test]
fn linkerror() {
    let tree = ProgramTree {
        data: vec![DataNode {
            identifier: "number1".to_string(),
            address: 0x1000_0004,
            block: Bl::Word,
            data: 5,
            num: 1,
        }],
        instructions: vec![InstructionNode {
            op: Instr::Lui,
            rd: 1,
            ra: 0,
            rb: 0,
            imm: 0x1000,
            identifier: "".to_string(),
            imm_identifier: "number2".to_string(),
            address: 0,
        }],
    };

    assert_eq!(
        link(tree),
        Err(LinkerError::UnknownIdentifier("number2".to_string()))
    )
}

#[test]
fn redefined_label() {
    // The same label on a data node and an instruction node: the first
    // duplicate found is reported with its exact name.
    let tree = ProgramTree {
        data: vec![DataNode {
            identifier: "twice".to_string(),
            address: 0x1000_0000,
            block: Bl::Word,
            data: 1,
            num: 1,
        }],
        instructions: vec![InstructionNode {
            op: Instr::Add,
            rd: 0,
            ra: 0,
            rb: 0,
            imm: 0,
            identifier: "twice".to_string(),
            imm_identifier: "".to_string(),
            address: 0,
        }],
    };

    assert_eq!(
        link(tree),
        Err(LinkerError::RedefinedIdentifier("twice".to_string()))
    );
}
