use greg::mylexer::{LexItem, Lexer};
use greg::{Bl, Instr, Token};

fn token_of(item: Option<LexItem>) -> Token {
    item.unwrap().unwrap().1
}

#[test]
fn lex_asm_basic_tokens() {
    let mut lexer = Lexer::new("addi $t0, $zero, -256 \n add $t0, $zero, $sp");
    assert_eq!(token_of(lexer.next()), Token::Instruction(Instr::Addi));
    assert_eq!(token_of(lexer.next()), Token::Register(9));
    assert_eq!(token_of(lexer.next()), Token::Comma);
    assert_eq!(token_of(lexer.next()), Token::Register(0));
    assert_eq!(token_of(lexer.next()), Token::Comma);
    assert_eq!(token_of(lexer.next()), Token::Immediate(-256));

    assert_eq!(token_of(lexer.next()), Token::Instruction(Instr::Add));
    assert_eq!(token_of(lexer.next()), Token::Register(9));
    assert_eq!(token_of(lexer.next()), Token::Comma);
    assert_eq!(token_of(lexer.next()), Token::Register(0));
    assert_eq!(token_of(lexer.next()), Token::Comma);
    assert_eq!(token_of(lexer.next()), Token::Register(15));
}

#[test]
fn lex_asm_comments() {
    let mut lexer =
        Lexer::new("#addi $t0, $zero, -256\n #addi $t0, $zero, -256\n #string\n #123465");
    assert!(lexer.next().is_none());
}

#[test]
fn token_types() {
    let input = ", : add $zero loop_start 1600 .word";
    let mut lexer = Lexer::new(input);

    assert_eq!(token_of(lexer.next()), Token::Comma);
    assert_eq!(token_of(lexer.next()), Token::Colon);
    assert_eq!(token_of(lexer.next()), Token::Instruction(Instr::Add));
    assert_eq!(token_of(lexer.next()), Token::Register(0));
    assert_eq!(
        token_of(lexer.next()),
        Token::Identifier("loop_start".to_string())
    );
    assert_eq!(token_of(lexer.next()), Token::Immediate(1600));
    assert_eq!(token_of(lexer.next()), Token::Block(Bl::Word));
    assert!(lexer.next().is_none());
}

#[test]
fn instructions() {
    let input = "and or xor not add sub cmp j beq bne sl sr addi lui lw sw la ja";
    let mut lexer = Lexer::new(input);

    assert_eq!(token_of(lexer.next()), Token::Instruction(Instr::And));
    assert_eq!(token_of(lexer.next()), Token::Instruction(Instr::Or));
    assert_eq!(token_of(lexer.next()), Token::Instruction(Instr::Xor));
    assert_eq!(token_of(lexer.next()), Token::Instruction(Instr::Not));
    assert_eq!(token_of(lexer.next()), Token::Instruction(Instr::Add));
    assert_eq!(token_of(lexer.next()), Token::Instruction(Instr::Sub));
    assert_eq!(token_of(lexer.next()), Token::Instruction(Instr::Cmp));
    assert_eq!(token_of(lexer.next()), Token::Instruction(Instr::J));
    assert_eq!(token_of(lexer.next()), Token::Instruction(Instr::Beq));
    assert_eq!(token_of(lexer.next()), Token::Instruction(Instr::Bne));
    assert_eq!(token_of(lexer.next()), Token::Instruction(Instr::Sl));
    assert_eq!(token_of(lexer.next()), Token::Instruction(Instr::Sr));
    assert_eq!(token_of(lexer.next()), Token::Instruction(Instr::Addi));
    assert_eq!(token_of(lexer.next()), Token::Instruction(Instr::Lui));
    assert_eq!(token_of(lexer.next()), Token::Instruction(Instr::Lw));
    assert_eq!(token_of(lexer.next()), Token::Instruction(Instr::Sw));
    assert_eq!(token_of(lexer.next()), Token::Instruction(Instr::La));
    assert_eq!(token_of(lexer.next()), Token::Instruction(Instr::Ja));
    assert!(lexer.next().is_none());
}

#[test]
fn registers() {
    let input1 = "$0 $1 $2 $3 $4 $5 $6 $7 $8 $9 $10 $11 $12 $13 $14 $15";
    let input2 = "$zero $at $v $a0 $a1 $a2 $s0 $s1 $s2 $t0 $t1 $t2 $t3 $gv $ra $sp";
    let output: Vec<u8> = (0..=15).collect();

    let mut vec1: Vec<u8> = Vec::new();
    let mut lexer = Lexer::new(input1);
    while let Some(res) = lexer.next() {
        match res {
            Ok((_, Token::Register(i))) => vec1.push(i),
            _ => vec1.push(255),
        }
    }

    let mut vec2: Vec<u8> = Vec::new();
    let mut lexer = Lexer::new(input2);
    while let Some(res) = lexer.next() {
        match res {
            Ok((_, Token::Register(i))) => vec2.push(i),
            _ => vec2.push(255),
        }
    }

    assert_eq!(vec1, vec2);
    assert_eq!(vec1, output);
}

#[test]
fn mylexer_immediate() {
    let input = "0 +0 -0 010 +010 -010 0xdeadbeef 0x7fffffffffffffff";
    let ovec: Vec<i64> = vec![0, 0, 0, 10, 10, -10, 0xdeadbeef, 0x7fffffffffffffff];

    let mut ivec: Vec<i64> = Vec::new();
    let mut lexer = Lexer::new(input);
    while let Some(res) = lexer.next() {
        match res {
            Ok((_, Token::Immediate(i))) => ivec.push(i),
            _ => ivec.push(255),
        }
    }
    assert_eq!(ovec, ivec);
}

#[test]
fn blocks() {
    let input = ".data .text .addr .space .word";
    let mut lexer = Lexer::new(input);

    assert_eq!(token_of(lexer.next()), Token::Block(Bl::Data));
    assert_eq!(token_of(lexer.next()), Token::Block(Bl::Text));
    assert_eq!(token_of(lexer.next()), Token::Block(Bl::Addr));
    assert_eq!(token_of(lexer.next()), Token::Block(Bl::Space));
    assert_eq!(token_of(lexer.next()), Token::Block(Bl::Word));
    assert!(lexer.next().is_none());
}

#[test]
fn comments() {
    let input = "#addi $t0, $zero, -256\n
         addi #$t0, $zero, -256\n
         #string\n
         #123465";
    let mut lexer = Lexer::new(input);
    assert_eq!(token_of(lexer.next()), Token::Instruction(Instr::Addi));
    assert!(lexer.next().is_none());
}

#[test]
fn garbled() {
    let malformed_strings = [
        "&t0", "+ƒõ≈°", "$t4", "$one", ".home", "[", "ùùÄ", ".data1", "$t255",
    ];

    for string in malformed_strings {
        let l = Lexer::new(string).next().unwrap();
        if let Err(_) = l {
        } else {
            panic!("String {string} not recognized as invalid. {:#?}", l);
        }
    }

    let valid_strings = ["add1", "addiu", "$t1"];
    for string in valid_strings {
        if let Err(_) = Lexer::new(string).next().unwrap() {
            panic!("String {string} recognized as invalid.");
        }
    }
}

#[test]
fn immediate_limits() {
    // The largest magnitudes that still fit a 64-bit signed immediate.
    let mut lexer = Lexer::new("-9223372036854775808 9223372036854775807 0x7fffffffffffffff");
    assert_eq!(token_of(lexer.next()), Token::Immediate(i64::MIN));
    assert_eq!(token_of(lexer.next()), Token::Immediate(i64::MAX));
    assert_eq!(token_of(lexer.next()), Token::Immediate(i64::MAX));
    assert!(lexer.next().is_none());

    // One past each limit is a malformed lexeme.
    assert!(Lexer::new("9223372036854775808").next().unwrap().is_err());
    assert!(Lexer::new("-9223372036854775809").next().unwrap().is_err());
    assert!(Lexer::new("0x8000000000000000").next().unwrap().is_err());
    assert!(Lexer::new("0xffffffffffffffff").next().unwrap().is_err());
}
