//! An assembler for a small 16-bit-word instruction set: lexer, parser
//! (with pseudo-instruction expansion and label resolution) and code
//! generator, each stated against a mathematical model of its input.
use vstd::prelude::*;

pub mod codegen;
pub mod common;
pub mod format;
pub mod lexer;
pub mod number;
pub mod parser;
pub mod pseudo;

use crate::codegen::{CodeGen, gen_all, lemma_gen_all_pair, lemma_gen_token_position_free};
use crate::common::AsmError;
use crate::format::{FormatV, InstructionFormat, table_view};
use crate::lexer::{LexemType, LexemV, Lexer, lex_spec};
use crate::parser::{Parser, TokenV, parse_spec};
use crate::pseudo::{expand_token, lemma_mov_expansion, pseudo_table};

verus! {

/// The image of a source text under a format table, or the first error.
pub open spec fn assemble_spec(text: Seq<char>, table: Seq<FormatV>) -> Result<Seq<u8>, AsmError> {
    match lex_spec(text) {
        Err(e) => Err(e),
        Ok(ls) => match parse_spec(ls) {
            Err(e) => Err(e),
            Ok(ts) => gen_all(ts, table),
        },
    }
}

/// Lexes, parses and emits a whole source text.
pub fn assemble(source_filename: &str, content: &str, instruction_set: &Vec<InstructionFormat>) -> (r: Result<Vec<u8>, AsmError>)
    requires
        content@.len() < usize::MAX,
    ensures
        match assemble_spec(content@, table_view(instruction_set@)) {
            Ok(b) => r matches Ok(v) && v@ == b,
            Err(e) => r == Err::<Vec<u8>, AsmError>(e),
        },
{
    let mut lexer = Lexer::new(source_filename, content);
    lexer.lex()?;
    let mut parser = Parser::new();
    parser.parse(source_filename, lexer.lexems())?;
    let mut codegen = CodeGen::new(source_filename, parser.tokens().as_slice(), instruction_set);
    codegen.gen()?;
    Ok(codegen.into_bytes())
}

/// Expanding `mov a, b` gives `xor a, a` then `xor a, b`, and emitting that
/// gives the bytes of the same two instructions written by hand, wherever
/// they stand in the source.
pub proof fn lemma_mov_same_bytes(name: LexemV, x1: LexemV, x2: LexemV, a: LexemV, b: LexemV, table: Seq<FormatV>)
    requires
        name.value == "mov"@,
        x1.value == "xor"@,
        x2.value == "xor"@,
    ensures
        ({
            let hand = seq![
                TokenV::Instruction { name: x1, args: seq![a, a] },
                TokenV::Instruction { name: x2, args: seq![a, b] },
            ];
            match expand_token(TokenV::Instruction { name, args: seq![a, b] }, pseudo_table()) {
                Ok(e) => {
                    &&& (gen_all(e, table) is Ok) == (gen_all(hand, table) is Ok)
                    &&& gen_all(e, table) is Ok ==> gen_all(e, table) == gen_all(hand, table)
                },
                Err(_) => false,
            }
        }),
{
    let xn = LexemV { value: "xor"@, ttype: LexemType::Ident, row: name.row, col: name.col };
    let e1 = TokenV::Instruction { name: xn, args: seq![a, a] };
    let e2 = TokenV::Instruction { name: xn, args: seq![a, b] };
    lemma_mov_expansion(name, a, b);
    lemma_gen_token_position_free(xn, x1, seq![a, a], table);
    lemma_gen_token_position_free(xn, x2, seq![a, b], table);
    lemma_gen_all_pair(e1, e2, table);
    lemma_gen_all_pair(
        TokenV::Instruction { name: x1, args: seq![a, a] },
        TokenV::Instruction { name: x2, args: seq![a, b] },
        table,
    );
}

} // verus!
