use greg::linker::{link, LinkerError};
use greg::parser::{parse, ParserError};
use greg::printer::{print_binary, print_hex};
use greg::{assemble, AssemblerError, Loc, ProgramBinary};

#[test]
fn integration_test_1() {
    let text = "
.data
    constant: .word 125
    buffer: .space 8
    display: .addr 0xffff0000

.text

main:
    la $t1, display
    la $t2, constant
    la $s1, buffer

    addi $t0, $zero, 7 #initialize t0
    loop_start:
        beq $t0, $zero, loop_end
            addi $t0, $t0, -1
            sw $t0, $t1
        beq $zero, $zero, loop_start
    loop_end:
    add $zero, $zero, $zero

    push $t0
    pop $t0

    ja $s0, loop_start
        ";
    let binary = ProgramBinary {
        data: vec![125, 0, 0, 0, 0, 0, 0, 0, 0],
        instructions: vec![
            0xd100_ffff,
            0xca10_0000,
            0xd100_1000,
            0xcb10_0000,
            0xd100_1000,
            0xc710_0004,
            0xc900_0007,
            0x8090_0010,
            0xc990_ffff,
            0xf09a_0000,
            0x8000_fff4,
            0x4000_0000,
            0xcff0_fffc,
            0xf09f_0000,
            0xe90f_0000,
            0xcff0_0004,
            0xd100_0000,
            0xc110_001c,
            0x7610_0000,
        ],
    };

    assert_eq!(
        assemble(text, 0x400).unwrap(),
        print_hex(binary, 0x400)
    );
}

#[test]
fn integration_test_errors() {
    assert_eq!(
        assemble("", 0x400),
        Err(AssemblerError::ParserError(ParserError::Empty))
    );

    assert_eq!(
        assemble("&", 0x400),
        Err(AssemblerError::ParserError(ParserError::InvalidToken(
            Loc { row: 0, col: 0 }
        )))
    );

    assert_eq!(
        assemble(".text\naddi $t1, 0", 0x400),
        Err(AssemblerError::ParserError(ParserError::Incomplete(Loc {
            row: 1,
            col: 10
        })))
    );

    assert_eq!(
        assemble(".text main:\nla $t1, id", 0x400),
        Err(AssemblerError::LinkerError(LinkerError::UnknownIdentifier(
            "id".to_string()
        )))
    );

    assert_eq!(
        assemble("la $t1, id", 0x400),
        Err(AssemblerError::ParserError(
            ParserError::CodeOutsideSegment(Loc { row: 0, col: 0 })
        ))
    );

    assert_eq!(
        assemble(".text add $t0, $zero, $zero", 0x400),
        Err(AssemblerError::LinkerError(LinkerError::UnknownIdentifier(
            "main".to_string()
        )))
    )
}

#[test]
fn end_to_end_words() {
    // Parse, link and encode one minimal program through each stage.
    let text = ".data\nx: .word 125\n.text\nmain:\nadd $zero,$zero,$zero";
    let tree = parse(text).unwrap();
    let linked = link(tree).unwrap();
    let binary = print_binary(linked);
    assert_eq!(binary.data, vec![125]);
    assert_eq!(binary.instructions, vec![0x4000_0000]);

    let hex = assemble(text, 0x400).unwrap();
    assert!(hex.ends_with(":00000001FF\n"));
}

#[test]
fn carriage_return_line_endings() {
    // \r\n counts as one line break for locations and assembles cleanly.
    let text = ".data\r\nx: .word 125\r\n.text\r\nmain:\r\nadd $zero,$zero,$zero";
    let tree = parse(text).unwrap();
    let binary = print_binary(link(tree).unwrap());
    assert_eq!(binary.data, vec![125]);
    assert_eq!(binary.instructions, vec![0x4000_0000]);

    assert_eq!(
        parse(".text\r\naddi $t1, 0"),
        Err(ParserError::Incomplete(Loc { row: 1, col: 10 }))
    );
}
