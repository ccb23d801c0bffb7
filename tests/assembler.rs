use zirc_asm::assemble;
use zirc_asm::codegen::CodeGen;
use zirc_asm::common::{AsmError, ErrorKind};
use zirc_asm::format::{instruction_set, InstructionFormat, InstructionPart};
use zirc_asm::lexer::{expect_lexem_type, Lexem, LexemType, Lexer};
use zirc_asm::number::parse_digits;
use zirc_asm::parser::{Parser, Token};

fn run(src: &str) -> Result<Vec<u8>, AsmError> {
    let table = instruction_set();
    assemble("test.asm", src, &table)
}

fn lex(src: &str) -> Result<Vec<Lexem>, AsmError> {
    let mut lexer = Lexer::new("test.asm", src);
    lexer.lex()?;
    Ok(lexer.lexems.clone())
}

fn parse(src: &str) -> Result<Vec<Token>, AsmError> {
    let ls = lex(src)?;
    let mut parser = Parser::new();
    parser.parse("test.asm", &ls)?;
    Ok(parser.tokens.clone())
}

fn err(kind: ErrorKind, row: usize, col: usize) -> AsmError {
    AsmError { kind, row, col }
}

#[test]
fn hex_literal_lexes_to_digits_and_value() {
    let ls = lex("0x1F").unwrap();
    assert_eq!(ls.len(), 1);
    assert_eq!(ls[0].value, "1F");
    assert_eq!(ls[0].ttype, LexemType::Number { radix: 16 });
    assert_eq!(parse_digits(&ls[0].value, 16), Ok(31));
}

#[test]
fn binary_literal_lexes_to_digits_and_value() {
    let ls = lex("0b101").unwrap();
    assert_eq!(ls[0].value, "101");
    assert_eq!(ls[0].ttype, LexemType::Number { radix: 2 });
    assert_eq!(parse_digits(&ls[0].value, 2), Ok(5));
}

#[test]
fn decimal_literal_lexes_to_digits_and_value() {
    let ls = lex("42").unwrap();
    assert_eq!(ls[0].value, "42");
    assert_eq!(ls[0].ttype, LexemType::Number { radix: 10 });
    assert_eq!(parse_digits(&ls[0].value, 10), Ok(42));
}

#[test]
fn lexer_positions_and_kinds() {
    let ls = lex("L1: add R1, r2\n  hlt").unwrap();
    let kinds: Vec<LexemType> = ls.iter().map(|l| l.ttype).collect();
    assert_eq!(
        kinds,
        vec![
            LexemType::Ident,
            LexemType::Single,
            LexemType::Ident,
            LexemType::Register,
            LexemType::Single,
            LexemType::Register,
            LexemType::NewLine,
            LexemType::Ident,
        ]
    );
    assert_eq!(ls[3].value, "r1");
    assert_eq!((ls[3].row, ls[3].col), (1, 9));
    assert_eq!((ls[7].row, ls[7].col), (2, 3));
}

#[test]
fn lexer_string_escapes() {
    let ls = lex("\"a\\n\\0\\\\\\\"\\'b\"").unwrap();
    assert_eq!(ls[0].ttype, LexemType::String);
    assert_eq!(ls[0].value, "a\n\0\\\"'b");
}

#[test]
fn lexer_errors() {
    assert_eq!(lex("0x1G").unwrap_err(), err(ErrorKind::InvalidHexDigit, 1, 4));
    assert_eq!(lex("0b102").unwrap_err(), err(ErrorKind::InvalidBinDigit, 1, 5));
    assert_eq!(lex("12a").unwrap_err(), err(ErrorKind::InvalidDecDigit, 1, 3));
    assert_eq!(lex("0x9").unwrap()[0].value, "9");
    assert_eq!(lex("1\u{663}").unwrap_err(), err(ErrorKind::InvalidDecDigit, 1, 2));
    assert_eq!(lex("\"abc").unwrap_err(), err(ErrorKind::UnterminatedString, 1, 5));
    assert_eq!(lex("\"a\\q\"").unwrap_err(), err(ErrorKind::UnknownEscape, 1, 4));
    assert_eq!(lex("hlt\n$").unwrap_err(), err(ErrorKind::UnexpectedCharacter, 2, 1));
}

#[test]
fn lexer_unicode_classes() {
    let ls = lex("zażółć\u{3000}x").unwrap();
    assert_eq!(ls.len(), 2);
    assert_eq!(ls[0].value, "zażółć");
    assert_eq!(ls[0].ttype, LexemType::Ident);
    assert_eq!(lex("\u{663}").unwrap_err(), err(ErrorKind::InvalidDecDigit, 1, 1));
}

#[test]
fn expect_lexem_type_matches_any_radix() {
    let l = Lexem::new("5".to_string(), LexemType::Number { radix: 10 }, 1, 1);
    assert!(expect_lexem_type(&l, &[LexemType::Number { radix: 0 }]));
    assert!(!expect_lexem_type(&l, &[LexemType::Ident, LexemType::Register]));
    assert!(!expect_lexem_type(&l, &[]));
}

#[test]
fn simple_instructions() {
    assert_eq!(run("hlt").unwrap(), vec![0x00, 0x00]);
    assert_eq!(run("ret").unwrap(), vec![0xD0, 0x00]);
    assert_eq!(run("add r1, r2").unwrap(), vec![0x08, 0x90]);
    assert_eq!(run("ssr sptr, r2").unwrap(), vec![0x88, 0x10]);
    assert_eq!(run("brc nz, 5").unwrap(), vec![0xB8, 0x8A]);
}

#[test]
fn extra_slot_optional() {
    assert_eq!(run("add r1, r2").unwrap(), vec![0x08, 0x90]);
    assert_eq!(run("add r1, r2, 0").unwrap(), vec![0x08, 0x90]);
    assert_eq!(run("add r1, r2, 1").unwrap(), vec![0x08, 0x91]);
    assert_eq!(run("add r1, r2, 1, 1").unwrap(), vec![0x08, 0x91]);
    assert_eq!(run("add r1, r2, 2").unwrap_err(), err(ErrorKind::NumberTooBig, 1, 13));
}

#[test]
fn immediate_width_limit() {
    assert_eq!(run("adi r1, 63").unwrap(), vec![0x10, 0xFE]);
    assert_eq!(run("adi r1, 64").unwrap_err(), err(ErrorKind::NumberTooBig, 1, 9));
}

#[test]
fn label_forward_reference() {
    assert_eq!(run("brc z, L\nL: hlt").unwrap(), vec![0xB8, 0x02, 0x00, 0x00]);
    let ts = parse("jmp L \n L: hlt").unwrap();
    match &ts[0] {
        Token::Instruction { name, args } => {
            assert_eq!(name.value, "jmp");
            assert_eq!(args[0].value, "1");
            assert_eq!(args[0].ttype, LexemType::Number { radix: 10 });
        }
        _ => panic!("expected an instruction"),
    }
}

#[test]
fn label_backward_reference() {
    assert_eq!(run("L: hlt\nbrc z, L").unwrap(), vec![0x00, 0x00, 0xB8, 0x00]);
    let ts = parse("L: hlt \n jmp L").unwrap();
    assert_eq!(ts.len(), 2);
    match &ts[1] {
        Token::Instruction { args, .. } => assert_eq!(args[0].value, "0"),
        _ => panic!("expected an instruction"),
    }
}

#[test]
fn directive_sizing() {
    let out = run("dw 1, 2, \"ab\"\nL2: hlt\nbrc z, L2").unwrap();
    assert_eq!(
        out,
        vec![0x00, 0x01, 0x00, 0x02, 0x00, 0x61, 0x00, 0x62, 0x00, 0x00, 0xB8, 0x08]
    );
}

#[test]
fn data_directive_widths() {
    assert_eq!(run("db 1, \"a\"").unwrap(), vec![0x01, 0x61]);
    assert_eq!(run("dd 258").unwrap(), vec![0x00, 0x00, 0x01, 0x02]);
    assert_eq!(run("dq 1").unwrap(), vec![0, 0, 0, 0, 0, 0, 0, 1]);
    assert_eq!(run("dw 65537").unwrap(), vec![0x00, 0x01]);
    assert_eq!(run("dw 0x1234").unwrap(), vec![0x12, 0x34]);
}

#[test]
fn undeclared_label() {
    assert_eq!(run("jmp NOPE").unwrap_err(), err(ErrorKind::UndeclaredLabel, 1, 5));
}

#[test]
fn pseudo_mov_matches_xor_pair() {
    let a = run("mov r1, r2").unwrap();
    let b = run("xor r1, r1\nxor r1, r2").unwrap();
    assert_eq!(a, b);
    assert_eq!(a, vec![0x48, 0x88, 0x48, 0x90]);
    assert_eq!(run("mov r1").unwrap_err(), err(ErrorKind::PseudoArity, 1, 1));
}

#[test]
fn org_sets_origin() {
    assert_eq!(run("org 16\nL: hlt\nbrc z, L").unwrap(), vec![0x00, 0x00, 0xB8, 0x20]);
    assert_eq!(run("org").unwrap_err(), err(ErrorKind::OrgArity, 1, 1));
    assert_eq!(run("org 1, 2").unwrap_err(), err(ErrorKind::OrgArity, 1, 1));
    assert_eq!(run("org r1").unwrap_err(), err(ErrorKind::OrgExpectsNumber, 1, 5));
}

#[test]
fn address_overflow() {
    assert_eq!(
        run("org 18446744073709551615\nhlt\nL: hlt").unwrap_err(),
        err(ErrorKind::AddressOverflow, 3, 1)
    );
}

#[test]
fn syntax_errors() {
    assert_eq!(run("add r1 r2").unwrap_err(), err(ErrorKind::UnexpectedToken, 1, 8));
    assert_eq!(run(", r1").unwrap_err(), err(ErrorKind::UnexpectedToken, 1, 1));
    assert_eq!(run("add r1, :").unwrap_err(), err(ErrorKind::ExpectedArgument, 1, 9));
    assert_eq!(run("add r1,").unwrap_err(), err(ErrorKind::ExpectedArgument, 1, 8));
    assert_eq!(run("add r1, \n").unwrap_err(), err(ErrorKind::ExpectedArgument, 1, 9));
    assert_eq!(run("add \"s\"").unwrap_err(), err(ErrorKind::WrongArgumentKind, 1, 5));
}

#[test]
fn semantic_errors() {
    assert_eq!(run("foo r1").unwrap_err(), err(ErrorKind::UnknownInstruction, 1, 1));
    assert_eq!(run("add 1, r2").unwrap_err(), err(ErrorKind::WrongArgumentKind, 1, 5));
    assert_eq!(run("add r1").unwrap_err(), err(ErrorKind::MissingArgument { bit: 9 }, 1, 1));
    assert_eq!(run("adi").unwrap_err(), err(ErrorKind::MissingArgument { bit: 5 }, 1, 1));
    assert_eq!(run("ssr r1, r2").unwrap_err(), err(ErrorKind::UnknownName, 1, 5));
    assert_eq!(run("dw r1").unwrap_err(), err(ErrorKind::BadDataArgument, 1, 4));
    assert_eq!(run("dw").unwrap_err(), err(ErrorKind::NoData, 1, 1));
    assert_eq!(
        run("dw 99999999999999999999999").unwrap_err(),
        err(ErrorKind::NumberTooBig, 1, 4)
    );
    assert_eq!(run("dw \u{663}").unwrap_err(), err(ErrorKind::InvalidDecDigit, 1, 4));
    assert_eq!(run("dw 0x").unwrap_err(), err(ErrorKind::InvalidNumber, 1, 4));
}

#[test]
fn codegen_rejects_unresolved_statements() {
    let table = instruction_set();
    let label = vec![Token::Label { name: Lexem::new("L".to_string(), LexemType::Ident, 2, 3) }];
    let mut g = CodeGen::new("t", &label, &table);
    assert_eq!(g.gen().unwrap_err(), err(ErrorKind::LabelInCodegen, 2, 3));
    let org = vec![Token::Instruction {
        name: Lexem::new("org".to_string(), LexemType::Ident, 1, 1),
        args: vec![Lexem::new("1".to_string(), LexemType::Number { radix: 10 }, 1, 5)],
    }];
    let mut g = CodeGen::new("t", &org, &table);
    assert_eq!(g.gen().unwrap_err(), err(ErrorKind::OrgInCodegen, 1, 1));
}

#[test]
fn codegen_rejects_bad_format() {
    let table = vec![InstructionFormat {
        name: "short".to_string(),
        parts: vec![InstructionPart::Const { val: 0, size: 15 }],
    }];
    assert_eq!(assemble("t", "short", &table).unwrap_err(), err(ErrorKind::BadFormat, 1, 1));
}

#[test]
fn str_to_bytes_packs_binary() {
    let table = instruction_set();
    let tokens: Vec<Token> = Vec::new();
    let g = CodeGen::new("t", &tokens, &table);
    assert_eq!(g.str_to_bytes(&"0000100010010000".to_string()), [0x08, 0x90]);
}

#[test]
fn token_kind_names() {
    let l = Token::Label { name: Lexem::new("L".to_string(), LexemType::Ident, 1, 1) };
    assert_eq!(l.kind_name(), "Label");
}

#[test]
fn pseudo_limb_splits_value() {
    assert_eq!(run("limb r1, 0x1FF").unwrap(), vec![0x80, 0x0E, 0x78, 0xFE]);
    assert_eq!(
        run("lui 7\nlim r1, 63").unwrap(),
        run("limb r1, 0x1FF").unwrap()
    );
}

#[test]
fn pseudo_limb_on_label_address() {
    assert_eq!(
        run("limb r2, L\nL: hlt").unwrap(),
        vec![0x80, 0x00, 0x79, 0x04, 0x00, 0x00]
    );
    assert_eq!(run("limb r2, r3").unwrap_err(), err(ErrorKind::WrongArgumentKind, 1, 10));
}

#[test]
fn empty_prefixed_literal_is_an_empty_number() {
    let ls = lex("0x 0b").unwrap();
    assert_eq!(ls[0].value, "");
    assert_eq!(ls[0].ttype, LexemType::Number { radix: 16 });
    assert_eq!(ls[1].value, "");
    assert_eq!(ls[1].ttype, LexemType::Number { radix: 2 });
}

#[test]
fn directives_in_any_case() {
    assert_eq!(run("ORG 16\nL: hlt\nbrc z, L").unwrap(), vec![0x00, 0x00, 0xB8, 0x20]);
    assert_eq!(run("Dw 1").unwrap(), vec![0x00, 0x01]);
}
