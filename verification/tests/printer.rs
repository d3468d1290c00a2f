use greg::printer::{print_binary, print_hex, print_hex_line};
use greg::{Bl, DataNode, Instr, InstructionNode, ProgramBinary, ProgramTree};

#[test]
fn printer_test() {
    let tree = ProgramTree {
        data: vec![DataNode {
            identifier: "number".to_string(),
            address: 0x1000_0004,
            block: Bl::Word,
            data: 5,
            num: 1,
        }],
        instructions: vec![
            InstructionNode {
                op: Instr::Lui,
                rd: 1,
                ra: 0,
                rb: 0,
                imm: 0x1000,
                identifier: "beginning".to_string(),
                imm_identifier: "number".to_string(),
                address: 0,
            },
            InstructionNode {
                op: Instr::Addi,
                rd: 1,
                ra: 5,
                rb: 0,
                imm: 0x0004,
                identifier: "beginning".to_string(),
                imm_identifier: "number".to_string(),
                address: 4,
            },
            InstructionNode {
                op: Instr::Beq,
                rd: 0,
                ra: 1,
                rb: 6,
                imm: -4,
                identifier: "".to_string(),
                imm_identifier: "beginning".to_string(),
                address: 8,
            },
        ],
    };

    let bin = ProgramBinary {
        data: vec![5],
        instructions: vec![0xD100_1000, 0xC150_0004, 0x8016_FFFC],
    };

    assert_eq!(print_binary(tree), bin);
}

#[test]
fn hex_line_test() {
    assert_eq!(print_hex_line(4, 0xdeadbeef), *":04000400DEADBEEFC0\n");
    assert_eq!(print_hex_line(0x1234, 0x12345678), *":0412340012345678A2\n");
}

#[test]
fn hex_printer_test() {
    let bin = ProgramBinary {
        data: vec![5],
        instructions: vec![0xD100_1000, 0xC150_0004, 0x8016_FFFC],
    };

    let hex = ":04000000D10010001B\n:04000100C1500004E6\n:040002008016FFFC69\n:0404000000000005F3\n:00000001FF\n";

    assert_eq!(print_hex(bin, 0x400), hex);
}

#[test]
fn hex_stream_of_empty_binary() {
    // Even an empty binary ends with the fixed end-of-file record.
    let bin = ProgramBinary {
        data: vec![],
        instructions: vec![],
    };
    assert_eq!(print_hex(bin, 0x400), ":00000001FF\n");
}

#[test]
fn binary_space_and_addr() {
    // A .space node stores zero words; an .addr node stores nothing.
    let tree = ProgramTree {
        data: vec![
            DataNode {
                identifier: "a".to_string(),
                address: 0x1000_0000,
                block: Bl::Word,
                data: -1,
                num: 1,
            },
            DataNode {
                identifier: "b".to_string(),
                address: 0xffff_0000,
                block: Bl::Addr,
                data: 0,
                num: 1,
            },
            DataNode {
                identifier: "c".to_string(),
                address: 0x1000_0004,
                block: Bl::Space,
                data: 0,
                num: 3,
            },
        ],
        instructions: vec![],
    };
    let bin = print_binary(tree);
    assert_eq!(bin.data, vec![0xffff_ffff, 0, 0, 0]);
    assert_eq!(bin.instructions, Vec::<u32>::new());
}
