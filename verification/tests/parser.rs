use greg::mylexer::Lexer;
use greg::parsedata::parse_data;
use greg::parseinstruction::parse_instruction;
use greg::parser::{parse, ParserError};
use greg::parserhelpers::{
    get_identifier_or_imm, get_immediate, get_register, read_token, sel_token,
};
use greg::{
    Bl, DataNode, Instr, InstructionNode, Loc, ProgramTree, Token, DATA_ADDRESS_OFFSET,
    TEXT_ADDRESS_OFFSET,
};

#[test]
fn reading() {
    let input = ", : add $zero loop_start 1600 .word";
    let mut lexer = Lexer::new(input);

    assert_eq!(read_token(lexer.next()).unwrap().1, Token::Comma);
    assert_eq!(read_token(lexer.next()).unwrap().1, Token::Colon);
    assert_eq!(
        read_token(lexer.next()).unwrap().1,
        Token::Instruction(Instr::Add)
    );
    assert_eq!(read_token(lexer.next()).unwrap().1, Token::Register(0));
    assert_eq!(
        read_token(lexer.next()).unwrap().1,
        Token::Identifier("loop_start".to_string())
    );
    assert_eq!(read_token(lexer.next()).unwrap().1, Token::Immediate(1600));
    assert_eq!(read_token(lexer.next()).unwrap().1, Token::Block(Bl::Word));
    assert_eq!(read_token(lexer.next()), Err(ParserError::End));
}

#[test]
fn selecting() {
    let input = ", : add &";
    let mut lexer = Lexer::new(input);

    assert_eq!(
        sel_token(lexer.next(), Token::Comma).unwrap().1,
        Token::Comma
    );
    assert_eq!(
        sel_token(lexer.next(), Token::Colon).unwrap().1,
        Token::Colon
    );
    assert_eq!(
        sel_token(lexer.next(), Token::Colon),
        Err(ParserError::Incomplete(Loc { row: 0, col: 4 }))
    );
    assert_eq!(
        sel_token(lexer.next(), Token::Colon),
        Err(ParserError::InvalidToken(Loc { row: 0, col: 8 }))
    );
}

#[test]
fn register() {
    let input = "$zero \n 12 $one";
    let mut lexer = Lexer::new(input);

    assert_eq!(get_register(lexer.next()).unwrap(), 0);
    assert_eq!(
        get_register(lexer.next()),
        Err(ParserError::Incomplete(Loc { row: 1, col: 1 }))
    );
    assert_eq!(
        get_register(lexer.next()),
        Err(ParserError::InvalidToken(Loc { row: 1, col: 4 }))
    );
}

#[test]
fn parserhelpers_immediate() {
    let input = "-12 0xf $one";
    let mut lexer = Lexer::new(input);

    assert_eq!(get_immediate(lexer.next()).unwrap(), -12);
    assert_eq!(get_immediate(lexer.next()).unwrap(), 15);
    assert_eq!(
        get_register(lexer.next()),
        Err(ParserError::InvalidToken(Loc { row: 0, col: 8 }))
    );
}

#[test]
fn identifier_or_imm() {
    let input = "-12 greg +";
    let mut lexer = Lexer::new(input);

    assert_eq!(
        get_identifier_or_imm(lexer.next()).unwrap(),
        ("".to_owned(), -12)
    );
    assert_eq!(
        get_identifier_or_imm(lexer.next()).unwrap(),
        ("greg".to_owned(), 0)
    );
    assert_eq!(
        get_register(lexer.next()),
        Err(ParserError::InvalidToken(Loc { row: 0, col: 9 }))
    );
}

#[test]
fn parsetest() {
    let input = "
        .data
            buffer: .space 4
            number: .word 5
        .text
            beginning:
            add $1, $zero, $zero
            beq $1, $zero, beginning";

    let tree = parse(input).unwrap();

    assert_eq!(
        tree,
        ProgramTree {
            data: vec![
                DataNode {
                    identifier: "buffer".to_string(),
                    address: DATA_ADDRESS_OFFSET,
                    block: Bl::Space,
                    data: 0,
                    num: 4,
                },
                DataNode {
                    identifier: "number".to_string(),
                    address: DATA_ADDRESS_OFFSET + 16,
                    block: Bl::Word,
                    data: 5,
                    num: 1,
                }
            ],
            instructions: vec![
                InstructionNode {
                    op: Instr::Add,
                    rd: 1,
                    ra: 0,
                    rb: 0,
                    imm: 0,
                    identifier: "beginning".to_string(),
                    imm_identifier: "".to_string(),
                    address: TEXT_ADDRESS_OFFSET,
                },
                InstructionNode {
                    op: Instr::Beq,
                    rd: 0,
                    ra: 1,
                    rb: 0,
                    imm: 0,
                    identifier: "".to_string(),
                    imm_identifier: "beginning".to_string(),
                    address: TEXT_ADDRESS_OFFSET + 4,
                },
            ],
        }
    );
}

#[test]
fn instruction() {
    let input = "$1, $2, $3 ";
    let mut address: u32 = 0;
    let mut lexer = Lexer::new(input);

    assert_eq!(
        parse_instruction(Instr::Add, "loop".to_string(), &mut lexer, &mut address).unwrap(),
        vec![InstructionNode {
            op: Instr::Add,
            rd: 1,
            ra: 2,
            rb: 3,
            imm: 0,
            identifier: "loop".to_string(),
            imm_identifier: String::new(),
            address: 0,
        }]
    );

    let input = "$1, $2, 0xf";
    let mut address: u32 = 0;
    let mut lexer = Lexer::new(input);

    assert_eq!(
        parse_instruction(Instr::Addi, "loop".to_string(), &mut lexer, &mut address).unwrap(),
        vec![InstructionNode {
            op: Instr::Addi,
            rd: 1,
            ra: 2,
            rb: 0,
            imm: 15,
            identifier: "loop".to_string(),
            imm_identifier: String::new(),
            address: 0,
        }]
    );

    let input = "$1, $2, loop1";
    let mut address: u32 = 0;
    let mut lexer = Lexer::new(input);

    assert_eq!(
        parse_instruction(Instr::Beq, "loop".to_string(), &mut lexer, &mut address).unwrap(),
        vec![InstructionNode {
            op: Instr::Beq,
            rd: 0,
            ra: 1,
            rb: 2,
            imm: 0,
            identifier: "loop".to_string(),
            imm_identifier: "loop1".to_string(),
            address: 0,
        }]
    );

    let input = "$8, loop1";
    let mut address: u32 = 0;
    let mut lexer = Lexer::new(input);

    assert_eq!(
        parse_instruction(Instr::La, "loop".to_string(), &mut lexer, &mut address).unwrap(),
        vec![
            InstructionNode {
                op: Instr::Lui,
                rd: 1,
                ra: 0,
                rb: 0,
                imm: 0,
                identifier: "loop".to_string(),
                imm_identifier: "loop1".to_string(),
                address: 0,
            },
            InstructionNode {
                op: Instr::Addi,
                rd: 8,
                ra: 1,
                rb: 0,
                imm: 0,
                identifier: "".to_string(),
                imm_identifier: "loop1".to_string(),
                address: 4,
            }
        ]
    );

    let input = "$8, 0x12345678";
    let mut address: u32 = 0;
    let mut lexer = Lexer::new(input);

    assert_eq!(
        parse_instruction(Instr::La, "loop".to_string(), &mut lexer, &mut address).unwrap(),
        vec![
            InstructionNode {
                op: Instr::Lui,
                rd: 1,
                ra: 0,
                rb: 0,
                imm: 0x1234,
                identifier: "loop".to_string(),
                imm_identifier: "".to_string(),
                address: 0,
            },
            InstructionNode {
                op: Instr::Addi,
                rd: 8,
                ra: 1,
                rb: 0,
                imm: 0x5678,
                identifier: "".to_string(),
                imm_identifier: "".to_string(),
                address: 4,
            }
        ]
    );

    let input = "$8, loop1";
    let mut address: u32 = 0;
    let mut lexer = Lexer::new(input);

    assert_eq!(
        parse_instruction(Instr::Ja, "loop".to_string(), &mut lexer, &mut address).unwrap(),
        vec![
            InstructionNode {
                op: Instr::Lui,
                rd: 1,
                ra: 0,
                rb: 0,
                imm: 0,
                identifier: "loop".to_string(),
                imm_identifier: "loop1".to_string(),
                address: 0,
            },
            InstructionNode {
                op: Instr::Addi,
                rd: 1,
                ra: 1,
                rb: 0,
                imm: 0,
                identifier: "".to_string(),
                imm_identifier: "loop1".to_string(),
                address: 4,
            },
            InstructionNode {
                op: Instr::J,
                rd: 8,
                ra: 1,
                rb: 0,
                imm: 0,
                identifier: "".to_string(),
                imm_identifier: "".to_string(),
                address: 8,
            }
        ]
    );

    let input = "$8, 0x12345678";
    let mut address: u32 = 0;
    let mut lexer = Lexer::new(input);

    assert_eq!(
        parse_instruction(Instr::Ja, "loop".to_string(), &mut lexer, &mut address).unwrap(),
        vec![
            InstructionNode {
                op: Instr::Lui,
                rd: 1,
                ra: 0,
                rb: 0,
                imm: 0x1234,
                identifier: "loop".to_string(),
                imm_identifier: "".to_string(),
                address: 0,
            },
            InstructionNode {
                op: Instr::Addi,
                rd: 1,
                ra: 1,
                rb: 0,
                imm: 0x5678,
                identifier: "".to_string(),
                imm_identifier: "".to_string(),
                address: 4,
            },
            InstructionNode {
                op: Instr::J,
                rd: 8,
                ra: 1,
                rb: 0,
                imm: 0,
                identifier: "".to_string(),
                imm_identifier: "".to_string(),
                address: 8,
            }
        ]
    );
}

#[test]
fn parseinstruction_instruction() {
    let input = "$1, $2, $3 ";
    let mut address: u32 = 0;
    let mut lexer = Lexer::new(input);

    assert_eq!(
        parse_instruction(Instr::Add, "loop".to_string(), &mut lexer, &mut address).unwrap(),
        vec![InstructionNode {
            op: Instr::Add,
            rd: 1,
            ra: 2,
            rb: 3,
            imm: 0,
            identifier: "loop".to_string(),
            imm_identifier: String::new(),
            address: 0,
        }]
    );

    let input = "$1, $2, 0xf";
    let mut address: u32 = 0;
    let mut lexer = Lexer::new(input);

    assert_eq!(
        parse_instruction(Instr::Addi, "loop".to_string(), &mut lexer, &mut address).unwrap(),
        vec![InstructionNode {
            op: Instr::Addi,
            rd: 1,
            ra: 2,
            rb: 0,
            imm: 15,
            identifier: "loop".to_string(),
            imm_identifier: String::new(),
            address: 0,
        }]
    );

    let input = "$1, $2, loop1";
    let mut address: u32 = 0;
    let mut lexer = Lexer::new(input);

    assert_eq!(
        parse_instruction(Instr::Beq, "loop".to_string(), &mut lexer, &mut address).unwrap(),
        vec![InstructionNode {
            op: Instr::Beq,
            rd: 0,
            ra: 1,
            rb: 2,
            imm: 0,
            identifier: "loop".to_string(),
            imm_identifier: "loop1".to_string(),
            address: 0,
        }]
    );

    let input = "$8, loop1";
    let mut address: u32 = 0;
    let mut lexer = Lexer::new(input);

    assert_eq!(
        parse_instruction(Instr::La, "loop".to_string(), &mut lexer, &mut address).unwrap(),
        vec![
            InstructionNode {
                op: Instr::Lui,
                rd: 1,
                ra: 0,
                rb: 0,
                imm: 0,
                identifier: "loop".to_string(),
                imm_identifier: "loop1".to_string(),
                address: 0,
            },
            InstructionNode {
                op: Instr::Addi,
                rd: 8,
                ra: 1,
                rb: 0,
                imm: 0,
                identifier: "".to_string(),
                imm_identifier: "loop1".to_string(),
                address: 4,
            }
        ]
    );

    let input = "$8, 0x12345678";
    let mut address: u32 = 0;
    let mut lexer = Lexer::new(input);

    assert_eq!(
        parse_instruction(Instr::La, "loop".to_string(), &mut lexer, &mut address).unwrap(),
        vec![
            InstructionNode {
                op: Instr::Lui,
                rd: 1,
                ra: 0,
                rb: 0,
                imm: 0x1234,
                identifier: "loop".to_string(),
                imm_identifier: "".to_string(),
                address: 0,
            },
            InstructionNode {
                op: Instr::Addi,
                rd: 8,
                ra: 1,
                rb: 0,
                imm: 0x5678,
                identifier: "".to_string(),
                imm_identifier: "".to_string(),
                address: 4,
            }
        ]
    );

    let input = "$8, loop1";
    let mut address: u32 = 0;
    let mut lexer = Lexer::new(input);

    assert_eq!(
        parse_instruction(Instr::Ja, "loop".to_string(), &mut lexer, &mut address).unwrap(),
        vec![
            InstructionNode {
                op: Instr::Lui,
                rd: 1,
                ra: 0,
                rb: 0,
                imm: 0,
                identifier: "loop".to_string(),
                imm_identifier: "loop1".to_string(),
                address: 0,
            },
            InstructionNode {
                op: Instr::Addi,
                rd: 1,
                ra: 1,
                rb: 0,
                imm: 0,
                identifier: "".to_string(),
                imm_identifier: "loop1".to_string(),
                address: 4,
            },
            InstructionNode {
                op: Instr::J,
                rd: 8,
                ra: 1,
                rb: 0,
                imm: 0,
                identifier: "".to_string(),
                imm_identifier: "".to_string(),
                address: 8,
            }
        ]
    );

    let input = "$8, 0x12345678";
    let mut address: u32 = 0;
    let mut lexer = Lexer::new(input);

    assert_eq!(
        parse_instruction(Instr::Ja, "loop".to_string(), &mut lexer, &mut address).unwrap(),
        vec![
            InstructionNode {
                op: Instr::Lui,
                rd: 1,
                ra: 0,
                rb: 0,
                imm: 0x1234,
                identifier: "loop".to_string(),
                imm_identifier: "".to_string(),
                address: 0,
            },
            InstructionNode {
                op: Instr::Addi,
                rd: 1,
                ra: 1,
                rb: 0,
                imm: 0x5678,
                identifier: "".to_string(),
                imm_identifier: "".to_string(),
                address: 4,
            },
            InstructionNode {
                op: Instr::J,
                rd: 8,
                ra: 1,
                rb: 0,
                imm: 0,
                identifier: "".to_string(),
                imm_identifier: "".to_string(),
                address: 8,
            }
        ]
    );

    let input = "$t0";
    let mut address: u32 = 0;
    let mut lexer = Lexer::new(input);

    assert_eq!(
        parse_instruction(Instr::Push, "loop".to_string(), &mut lexer, &mut address).unwrap(),
        vec![
            InstructionNode {
                op: Instr::Addi,
                rd: 15,
                ra: 15,
                rb: 0,
                imm: -4,
                identifier: "loop".to_string(),
                imm_identifier: "".to_string(),
                address: 0,
            },
            InstructionNode {
                op: Instr::Sw,
                rd: 0,
                ra: 9,
                rb: 15,
                imm: 0,
                identifier: "".to_string(),
                imm_identifier: "".to_string(),
                address: 4,
            },
        ]
    );

    let input = "$t0";
    let mut address: u32 = 0;
    let mut lexer = Lexer::new(input);

    assert_eq!(
        parse_instruction(Instr::Pop, "loop".to_string(), &mut lexer, &mut address).unwrap(),
        vec![
            InstructionNode {
                op: Instr::Lw,
                rd: 9,
                ra: 0,
                rb: 15,
                imm: 0,
                identifier: "loop".to_string(),
                imm_identifier: "".to_string(),
                address: 0,
            },
            InstructionNode {
                op: Instr::Addi,
                rd: 15,
                ra: 15,
                rb: 0,
                imm: 4,
                identifier: "".to_string(),
                imm_identifier: "".to_string(),
                address: 4,
            },
        ]
    );
}

#[test]
fn data() {
    let input = "12";
    let mut address: u32 = 0;
    let mut lexer = Lexer::new(input);

    assert_eq!(
        parse_data(Bl::Word, "constant".to_string(), &mut lexer, &mut address).unwrap(),
        DataNode {
            identifier: "constant".to_string(),
            address: 0,
            block: Bl::Word,
            data: 12,
            num: 1,
        }
    );

    let input = "12";
    let mut lexer = Lexer::new(input);

    assert_eq!(
        parse_data(Bl::Space, "constant".to_string(), &mut lexer, &mut address).unwrap(),
        DataNode {
            identifier: "constant".to_string(),
            address: 4,
            block: Bl::Space,
            data: 0,
            num: 12,
        }
    );

    assert_eq!(address, 4 * 13);

    let input = "-12";
    let mut lexer = Lexer::new(input);

    assert_eq!(
        parse_data(Bl::Space, "constant".to_string(), &mut lexer, &mut address),
        Err(ParserError::NegativeSpace(Loc { row: 0, col: 0 }))
    );

    let input = "0xffff0000";
    address = 0;
    let mut lexer = Lexer::new(input);

    assert_eq!(
        parse_data(Bl::Addr, "io".to_string(), &mut lexer, &mut address).unwrap(),
        DataNode {
            identifier: "io".to_string(),
            address: 0xffff0000,
            block: Bl::Addr,
            data: 0,
            num: 1,
        }
    );

    assert_eq!(address, 0);

    let input = "-4";
    let mut lexer = Lexer::new(input);
    assert_eq!(
        parse_data(Bl::Addr, "constant".to_string(), &mut lexer, &mut address),
        Err(ParserError::NegativeSpace(Loc { row: 0, col: 0 }))
    );
}

#[test]
fn negative_space_location() {
    let listing = ".data\nx: .space -1";
    assert_eq!(
        parse(listing),
        Err(ParserError::NegativeSpace(Loc { row: 1, col: 10 }))
    );
}

#[test]
fn truncated_statement() {
    assert_eq!(parse(".text\nadd $1, $2"), Err(ParserError::End));
}

#[test]
fn data_addresses() {
    // An .addr node takes its literal address and does not move the cursor.
    let tree = parse(".data\na: .word 1\nb: .addr 0xffff0000\nc: .word 2").unwrap();
    assert_eq!(tree.data[0].address, DATA_ADDRESS_OFFSET);
    assert_eq!(tree.data[1].address, 0xffff0000);
    assert_eq!(tree.data[2].address, DATA_ADDRESS_OFFSET + 4);
}
