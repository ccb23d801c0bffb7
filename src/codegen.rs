//! The code generator: resolved instructions to bytes.
use vstd::prelude::*;
use crate::common::{AsmError, ErrorKind, ValueClass, class_value, lookup_class_value, mk_err};
use crate::format::{InstructionFormat, InstructionPart, find_format, lookup_format, table_view};
use crate::lexer::{Lexem, LexemType, LexemV, lexems_view, lowered_is};
use crate::number::{lemma_digits_positional, number_result, parse_digits, positional};
use crate::parser::{Token, TokenV, data_width, data_width_exec, err_at, is_org, tokens_view};

verus! {

/// The value of a number unit, or the error it gives at its position.
pub open spec fn number_of(l: LexemV) -> Result<u64, AsmError> {
    match l.ttype {
        LexemType::Number { radix } => {
            if radix == 2 || radix == 10 || radix == 16 {
                match number_result(l.value, radix as nat) {
                    Ok(v) => Ok(v),
                    Err(k) => Err(mk_err(k, l.row, l.col)),
                }
            } else {
                Err(mk_err(ErrorKind::InvalidNumber, l.row, l.col))
            }
        },
        _ => Err(mk_err(ErrorKind::WrongArgumentKind, l.row, l.col)),
    }
}

/// The value of a number unit.
pub fn get_value_from_number_token(lexem: &Lexem) -> (r: Result<u64, AsmError>)
    ensures
        r == number_of(lexem@),
{
    match lexem.ttype {
        LexemType::Number { radix } => {
            if radix == 2 || radix == 10 || radix == 16 {
                match parse_digits(lexem.value.as_str(), radix as u32) {
                    Ok(v) => Ok(v),
                    Err(k) => Err(AsmError { kind: k, row: lexem.row, col: lexem.col }),
                }
            } else {
                Err(AsmError { kind: ErrorKind::InvalidNumber, row: lexem.row, col: lexem.col })
            }
        },
        _ => Err(AsmError { kind: ErrorKind::WrongArgumentKind, row: lexem.row, col: lexem.col }),
    }
}


pub open spec fn two_pow(n: nat) -> nat
    decreases n,
{
    if n == 0 { 1 } else { 2 * two_pow((n - 1) as nat) }
}

pub proof fn lemma_two_pow_add(a: nat, b: nat)
    ensures
        two_pow(a + b) == two_pow(a) * two_pow(b),
        two_pow(a) >= 1,
    decreases b,
{
    if b == 0 {
        lemma_two_pow_pos(a);
    } else {
        lemma_two_pow_add(a, (b - 1) as nat);
        assert(two_pow(a + b) == 2 * two_pow((a + b - 1) as nat));
        assert((a + b - 1) as nat == a + (b - 1) as nat);
        assert(two_pow(a) * (2 * two_pow((b - 1) as nat)) == 2 * (two_pow(a) * two_pow((b - 1) as nat))) by (nonlinear_arith);
    }
}

proof fn lemma_two_pow_pos(a: nat)
    ensures
        two_pow(a) >= 1,
    decreases a,
{
    if a > 0 {
        lemma_two_pow_pos((a - 1) as nat);
    }
}

proof fn lemma_two_pow_mono(a: nat, b: nat)
    requires
        a <= b,
    ensures
        two_pow(a) <= two_pow(b),
    decreases b,
{
    if a < b {
        lemma_two_pow_mono(a, (b - 1) as nat);
        lemma_two_pow_pos((b - 1) as nat);
    }
}

proof fn lemma_two_pow_16()
    ensures
        two_pow(16) == 65536,
{
    reveal_with_fuel(two_pow, 17);
}

/// Appending a field of `s` bits keeps the word within its width.
proof fn lemma_pack_bound(acc: nat, v: nat, w: nat, s: nat)
    requires
        acc < two_pow(w),
        v < two_pow(s),
        w + s <= 16,
    ensures
        acc * two_pow(s) + v < two_pow(w + s),
        two_pow(w + s) <= 65536,
{
    lemma_two_pow_add(w, s);
    lemma_two_pow_mono(w + s, 16);
    lemma_two_pow_16();
    let a = two_pow(w);
    let b = two_pow(s);
    assert(acc * b + v < a * b) by (nonlinear_arith)
        requires acc < a, v < b;
}

fn two_pow_exec(n: u64) -> (r: u64)
    requires
        n <= 16,
    ensures
        r == two_pow(n as nat),
        r <= 65536,
{
    proof {
        lemma_two_pow_16();
    }
    let mut r: u64 = 1;
    let mut i: u64 = 0;
    while i < n
        invariant
            0 <= i <= n <= 16,
            r == two_pow(i as nat),
            two_pow(16) == 65536,
        decreases n - i,
    {
        proof {
            lemma_two_pow_mono((i + 1) as nat, 16);
        }
        r = r * 2;
        i = i + 1;
    }
    proof {
        lemma_two_pow_mono(n as nat, 16);
    }
    r
}

/// Bits a part takes.
pub open spec fn part_size(p: InstructionPart) -> nat {
    match p {
        InstructionPart::Const { size, .. } => size as nat,
        InstructionPart::Typed { size, .. } => size as nat,
        InstructionPart::Imm { size } => size as nat,
        InstructionPart::Extra { size } => size as nat,
    }
}

/// A numeric operand that must fit `size` bits.
pub open spec fn numeric_field(a: LexemV, size: nat) -> Result<(nat, nat), AsmError> {
    match number_of(a) {
        Err(e) => Err(e),
        Ok(v) => if v >= two_pow(size) { Err(err_at(ErrorKind::NumberTooBig, a)) } else { Ok((v as nat, 1)) },
    }
}

/// The value of one part and how many arguments it takes.
/// `width` is the number of bits already packed: the offset of this part.
pub open spec fn field_value(p: InstructionPart, args: Seq<LexemV>, name: LexemV, width: nat) -> Result<(nat, nat), AsmError> {
    match p {
        InstructionPart::Const { val, size } => {
            if val >= two_pow(size as nat) { Err(err_at(ErrorKind::BadFormat, name)) } else { Ok((val as nat, 0)) }
        },
        InstructionPart::Typed { class, size } => {
            if args.len() == 0 {
                Err(err_at(ErrorKind::MissingArgument { bit: width as u64 }, name))
            } else if args[0].ttype != (if class == ValueClass::Condition { LexemType::Ident } else { LexemType::Register }) {
                Err(err_at(ErrorKind::WrongArgumentKind, args[0]))
            } else {
                match class_value(class, args[0].value) {
                    None => Err(err_at(ErrorKind::UnknownName, args[0])),
                    Some(v) => if v >= two_pow(size as nat) { Err(err_at(ErrorKind::NumberTooBig, args[0])) } else { Ok((v as nat, 1)) },
                }
            }
        },
        InstructionPart::Imm { size } => {
            if args.len() == 0 { Err(err_at(ErrorKind::MissingArgument { bit: width as u64 }, name)) } else { numeric_field(args[0], size as nat) }
        },
        InstructionPart::Extra { size } => {
            if args.len() == 0 { Ok((0, 0)) } else { numeric_field(args[0], size as nat) }
        },
    }
}

/// Packs the parts left to right into `acc` (of `width` bits), taking
/// arguments from the front; a format over 16 bits is an error.
pub open spec fn encode_parts(parts: Seq<InstructionPart>, args: Seq<LexemV>, name: LexemV, acc: nat, width: nat) -> Result<(nat, nat), AsmError>
    decreases parts.len(),
{
    if parts.len() == 0 {
        Ok((acc, width))
    } else if width + part_size(parts[0]) > 16 {
        Err(err_at(ErrorKind::BadFormat, name))
    } else {
        match field_value(parts[0], args, name, width) {
            Err(e) => Err(e),
            Ok((v, used)) => encode_parts(
                parts.drop_first(),
                args.subrange(used as int, args.len() as int),
                name,
                acc * two_pow(part_size(parts[0])) + v,
                width + part_size(parts[0]),
            ),
        }
    }
}

/// The 16-bit word of an instruction; arguments beyond its parts are ignored.
pub open spec fn encode_word(parts: Seq<InstructionPart>, args: Seq<LexemV>, name: LexemV) -> Result<nat, AsmError> {
    match encode_parts(parts, args, name, 0, 0) {
        Err(e) => Err(e),
        Ok((v, w)) => if w == 16 { Ok(v) } else { Err(err_at(ErrorKind::BadFormat, name)) },
    }
}

/// The low `w` bytes of `v`, most significant first.
pub open spec fn be_bytes(v: nat, w: nat) -> Seq<u8>
    decreases w,
{
    if w == 0 { Seq::empty() } else { be_bytes(v / 256, (w - 1) as nat).push((v % 256) as u8) }
}

/// One `w`-byte value per character: its low byte, zero-padded.
pub open spec fn string_bytes(s: Seq<char>, w: nat) -> Seq<u8>
    decreases s.len(),
{
    if s.len() == 0 {
        Seq::empty()
    } else {
        string_bytes(s.drop_last(), w) + be_bytes(((s.last() as u32) % 256) as nat, w)
    }
}

/// The bytes of one data argument.
pub open spec fn data_arg(a: LexemV, w: nat) -> Result<Seq<u8>, AsmError> {
    match a.ttype {
        LexemType::Number { .. } => match number_of(a) {
            Ok(v) => Ok(be_bytes(v as nat, w)),
            Err(e) => Err(e),
        },
        LexemType::String => Ok(string_bytes(a.value, w)),
        _ => Err(err_at(ErrorKind::BadDataArgument, a)),
    }
}

pub open spec fn data_out(args: Seq<LexemV>, w: nat) -> Result<Seq<u8>, AsmError>
    decreases args.len(),
{
    if args.len() == 0 {
        Ok(Seq::empty())
    } else {
        match data_out(args.drop_last(), w) {
            Err(e) => Err(e),
            Ok(b) => match data_arg(args.last(), w) {
                Err(e) => Err(e),
                Ok(c) => Ok(b + c),
            },
        }
    }
}

/// The bytes of one resolved statement.
pub open spec fn gen_token(t: TokenV, table: Seq<crate::format::FormatV>) -> Result<Seq<u8>, AsmError> {
    match t {
        TokenV::Label { name } => Err(err_at(ErrorKind::LabelInCodegen, name)),
        TokenV::Instruction { name, args } => {
            if is_org(name.value) {
                Err(err_at(ErrorKind::OrgInCodegen, name))
            } else {
                match data_width(name.value) {
                    Some(w) => if args.len() == 0 { Err(err_at(ErrorKind::NoData, name)) } else { data_out(args, w) },
                    None => match find_format(table, name.value) {
                        None => Err(err_at(ErrorKind::UnknownInstruction, name)),
                        Some(parts) => match encode_word(parts, args, name) {
                            Ok(v) => Ok(seq![(v / 256) as u8, (v % 256) as u8]),
                            Err(e) => Err(e),
                        },
                    },
                }
            }
        },
    }
}

/// The image of a resolved program: each statement's bytes, in order.
pub open spec fn gen_all(ts: Seq<TokenV>, table: Seq<crate::format::FormatV>) -> Result<Seq<u8>, AsmError>
    decreases ts.len(),
{
    if ts.len() == 0 {
        Ok(Seq::empty())
    } else {
        match gen_all(ts.drop_last(), table) {
            Err(e) => Err(e),
            Ok(b) => match gen_token(ts.last(), table) {
                Err(e) => Err(e),
                Ok(c) => Ok(b + c),
            },
        }
    }
}


fn numeric_field_exec(a: &Lexem, size: u64) -> (r: Result<(u64, usize), AsmError>)
    requires
        size <= 16,
    ensures
        match numeric_field(a@, size as nat) {
            Ok((v, u)) => r == Ok::<(u64, usize), AsmError>((v as u64, u as usize)) && v < two_pow(size as nat),
            Err(e) => r == Err::<(u64, usize), AsmError>(e),
        },
{
    let v = get_value_from_number_token(a)?;
    if v >= two_pow_exec(size) {
        return Err(AsmError { kind: ErrorKind::NumberTooBig, row: a.row, col: a.col });
    }
    Ok((v, 1))
}

fn field_value_exec(p: &InstructionPart, args: &Vec<Lexem>, next: usize, name: &Lexem, width: u64) -> (r: Result<(u64, usize), AsmError>)
    requires
        next <= args@.len(),
        part_size(*p) <= 16,
    ensures
        match field_value(*p, lexems_view(args@).subrange(next as int, args@.len() as int), name@, width as nat) {
            Ok((v, u)) => {
                &&& r == Ok::<(u64, usize), AsmError>((v as u64, u as usize))
                &&& v < two_pow(part_size(*p))
                &&& u <= args@.len() - next
            },
            Err(e) => r == Err::<(u64, usize), AsmError>(e),
        },
        r matches Ok((_, y)) ==> y <= args@.len() - next,
{
    let ghost rest = lexems_view(args@).subrange(next as int, args@.len() as int);
    if next < args.len() {
        assert(rest[0] == args@[next as int]@);
    }
    match p {
        InstructionPart::Const { val, size } => {
            if *val >= two_pow_exec(*size) {
                return Err(AsmError { kind: ErrorKind::BadFormat, row: name.row, col: name.col });
            }
            Ok((*val, 0))
        },
        InstructionPart::Typed { class, size } => {
            if next >= args.len() {
                return Err(AsmError { kind: ErrorKind::MissingArgument { bit: width }, row: name.row, col: name.col });
            }
            let a = &args[next];
            let kind = match class {
                ValueClass::Condition => LexemType::Ident,
                _ => LexemType::Register,
            };
            if a.ttype != kind {
                return Err(AsmError { kind: ErrorKind::WrongArgumentKind, row: a.row, col: a.col });
            }
            match lookup_class_value(*class, &a.value) {
                None => Err(AsmError { kind: ErrorKind::UnknownName, row: a.row, col: a.col }),
                Some(v) => {
                    if v >= two_pow_exec(*size) {
                        return Err(AsmError { kind: ErrorKind::NumberTooBig, row: a.row, col: a.col });
                    }
                    Ok((v, 1))
                },
            }
        },
        InstructionPart::Imm { size } => {
            if next >= args.len() {
                return Err(AsmError { kind: ErrorKind::MissingArgument { bit: width }, row: name.row, col: name.col });
            }
            numeric_field_exec(&args[next], *size)
        },
        InstructionPart::Extra { size } => {
            if next >= args.len() {
                proof {
                    lemma_two_pow_pos(*size as nat);
                }
                return Ok((0, 0));
            }
            numeric_field_exec(&args[next], *size)
        },
    }
}

fn part_size_exec(p: &InstructionPart) -> (r: u64)
    ensures
        r == part_size(*p),
{
    match p {
        InstructionPart::Const { size, .. } => *size,
        InstructionPart::Typed { size, .. } => *size,
        InstructionPart::Imm { size } => *size,
        InstructionPart::Extra { size } => *size,
    }
}

/// Packs one instruction into its 16-bit word.
fn encode(parts: &Vec<InstructionPart>, args: &Vec<Lexem>, name: &Lexem) -> (r: Result<u64, AsmError>)
    ensures
        match encode_word(parts@, lexems_view(args@), name@) {
            Ok(v) => r == Ok::<u64, AsmError>(v as u64) && v < 65536,
            Err(e) => r == Err::<u64, AsmError>(e),
        },
{
    let ghost av = lexems_view(args@);
    let n = parts.len();
    let alen = args.len();
    let mut k: usize = 0;
    let mut next: usize = 0;
    let mut acc: u64 = 0;
    let mut width: u64 = 0;
    assert(parts@.subrange(0, n as int) =~= parts@);
    assert(av.subrange(0, av.len() as int) =~= av);
    while k < n
        invariant
            0 <= k <= n,
            n == parts@.len(),
            alen == args@.len(),
            next <= args@.len(),
            av == lexems_view(args@),
            width <= 16,
            acc < two_pow(width as nat),
            encode_parts(parts@, av, name@, 0, 0) == encode_parts(
                parts@.subrange(k as int, n as int),
                av.subrange(next as int, av.len() as int),
                name@,
                acc as nat,
                width as nat,
            ),
        decreases n - k,
    {
        let ghost ps = parts@.subrange(k as int, n as int);
        let ghost rest = av.subrange(next as int, av.len() as int);
        assert(ps[0] == parts@[k as int]);
        assert(ps.drop_first() =~= parts@.subrange(k + 1, n as int));
        let p = &parts[k];
        let size = part_size_exec(p);
        if size > 16 - width {
            return Err(AsmError { kind: ErrorKind::BadFormat, row: name.row, col: name.col });
        }
        let (v, used) = field_value_exec(p, args, next, name, width)?;
        assert(rest.subrange(used as int, rest.len() as int) =~= av.subrange(next + used, av.len() as int));
        let scale = two_pow_exec(size);
        proof {
            lemma_pack_bound(acc as nat, v as nat, width as nat, size as nat);
        }
        acc = acc * scale + v;
        width = width + size;
        next = next + used;
        k = k + 1;
    }
    if width != 16 {
        return Err(AsmError { kind: ErrorKind::BadFormat, row: name.row, col: name.col });
    }
    proof {
        lemma_two_pow_16();
    }
    Ok(acc)
}

fn push_be(v: u64, w: u64, out: &mut Vec<u8>)
    ensures
        final(out)@ == old(out)@ + be_bytes(v as nat, w as nat),
    decreases w,
{
    if w > 0 {
        push_be(v / 256, w - 1, out);
        out.push((v % 256) as u8);
    }
    assert(final(out)@ =~= old(out)@ + be_bytes(v as nat, w as nat));
}

fn push_string(s: &String, w: u64, out: &mut Vec<u8>)
    ensures
        final(out)@ == old(out)@ + string_bytes(s@, w as nat),
{
    let t = s.as_str();
    let n = t.unicode_len();
    let mut i: usize = 0;
    assert(old(out)@ + string_bytes(s@.subrange(0, 0), w as nat) =~= old(out)@);
    while i < n
        invariant
            0 <= i <= n,
            n == s@.len(),
            t@ == s@,
            out@ == old(out)@ + string_bytes(s@.subrange(0, i as int), w as nat),
        decreases n - i,
    {
        let c = t.get_char(i);
        let ghost pre = s@.subrange(0, i + 1);
        assert(pre.drop_last() =~= s@.subrange(0, i as int));
        assert(pre.last() == c);
        let ghost o = out@;
        push_be((c as u32 % 256) as u64, w, out);
        assert(out@ =~= old(out)@ + string_bytes(pre, w as nat));
        i = i + 1;
    }
    assert(s@.subrange(0, n as int) =~= s@);
}

proof fn lemma_data_out_prefix_err(args: Seq<LexemV>, w: nat, j: int)
    requires
        0 <= j <= args.len(),
        data_out(args.subrange(0, j), w) is Err,
    ensures
        data_out(args, w) == data_out(args.subrange(0, j), w),
    decreases args.len(),
{
    if j == args.len() {
        assert(args.subrange(0, j) =~= args);
    } else {
        assert(args.drop_last().subrange(0, j) =~= args.subrange(0, j));
        lemma_data_out_prefix_err(args.drop_last(), w, j);
    }
}

proof fn lemma_gen_prefix_err(ts: Seq<TokenV>, table: Seq<crate::format::FormatV>, j: int)
    requires
        0 <= j <= ts.len(),
        gen_all(ts.subrange(0, j), table) is Err,
    ensures
        gen_all(ts, table) == gen_all(ts.subrange(0, j), table),
    decreases ts.len(),
{
    if j == ts.len() {
        assert(ts.subrange(0, j) =~= ts);
    } else {
        assert(ts.drop_last().subrange(0, j) =~= ts.subrange(0, j));
        lemma_gen_prefix_err(ts.drop_last(), table, j);
    }
}

fn data_out_exec(args: &Vec<Lexem>, w: u64, out: &mut Vec<u8>) -> (r: Result<(), AsmError>)
    ensures
        match data_out(lexems_view(args@), w as nat) {
            Ok(b) => r is Ok && final(out)@ == old(out)@ + b,
            Err(e) => r == Err::<(), AsmError>(e),
        },
{
    let ghost av = lexems_view(args@);
    let mut i: usize = 0;
    assert(av.subrange(0, 0) =~= Seq::<LexemV>::empty());
    assert(old(out)@ + Seq::<u8>::empty() =~= old(out)@);
    while i < args.len()
        invariant
            0 <= i <= args@.len(),
            av == lexems_view(args@),
            data_out(av.subrange(0, i as int), w as nat) matches Ok(b) && out@ == old(out)@ + b,
        decreases args@.len() - i,
    {
        let ghost pre = av.subrange(0, i + 1);
        assert(pre.drop_last() =~= av.subrange(0, i as int));
        assert(pre.last() == args@[i as int]@);
        let ghost o = out@;
        let a = &args[i];
        match a.ttype {
            LexemType::Number { .. } => {
                match get_value_from_number_token(a) {
                    Ok(v) => push_be(v, w, out),
                    Err(e) => {
                        proof {
                            lemma_data_out_prefix_err(av, w as nat, i + 1);
                        }
                        return Err(e);
                    },
                }
            },
            LexemType::String => push_string(&a.value, w, out),
            _ => {
                proof {
                    lemma_data_out_prefix_err(av, w as nat, i + 1);
                }
                return Err(AsmError { kind: ErrorKind::BadDataArgument, row: a.row, col: a.col });
            },
        }
        proof {
            let b = data_out(av.subrange(0, i as int), w as nat)->Ok_0;
            let c = data_arg(args@[i as int]@, w as nat)->Ok_0;
            assert(out@ =~= old(out)@ + (b + c));
        }
        i = i + 1;
    }
    assert(av.subrange(0, args@.len() as int) =~= av);
    Ok(())
}

/// Turns resolved instructions into the bytes of the image.
pub struct CodeGen<'a> {
    source_filename: &'a str,
    tokens: &'a [Token],
    instruction_set: &'a Vec<InstructionFormat>,
    pub bytes: Vec<u8>,
}

impl<'a> CodeGen<'a> {
    /// The instructions to emit.
    pub closed spec fn program(&self) -> Seq<TokenV> {
        tokens_view(self.tokens@)
    }

    /// The format table in use.
    pub closed spec fn table(&self) -> Seq<crate::format::FormatV> {
        table_view(self.instruction_set@)
    }

    /// The bytes emitted so far.
    pub closed spec fn output(&self) -> Seq<u8> {
        self.bytes@
    }

    pub fn new(source_filename: &'a str, tokens: &'a [Token], instruction_set: &'a Vec<InstructionFormat>) -> (r: CodeGen<'a>)
        ensures
            r.program() == tokens_view(tokens@),
            r.table() == table_view(instruction_set@),
            r.file() == source_filename@,
            r.output().len() == 0,
    {
        CodeGen { source_filename, tokens, instruction_set, bytes: Vec::new() }
    }

    /// The bytes emitted.
    pub fn into_bytes(self) -> (r: Vec<u8>)
        ensures
            r@ == self.output(),
    {
        self.bytes
    }

    /// The name of the file the program came from.
    pub closed spec fn file(&self) -> Seq<char> {
        self.source_filename@
    }

    /// The name of the file the program came from.
    pub fn source_filename(&self) -> (r: &'a str)
        ensures
            r@ == self.file(),
    {
        self.source_filename
    }

    /// The big-endian bytes of a binary digit string, taken modulo 2^16.
    pub fn str_to_bytes(&self, str: &String) -> (r: [u8; 2])
        requires
            number_result(str@, 2) is Ok,
        ensures
            r@ == be_bytes((number_result(str@, 2)->Ok_0 as nat) % 65536, 2),
    {
        let v = match parse_digits(str.as_str(), 2) {
            Ok(v) => v,
            Err(_) => 0,
        };
        let w = v % 65536;
        let r = [(w / 256) as u8, (w % 256) as u8];
        proof {
            reveal_with_fuel(be_bytes, 3);
        }
        assert(r@ =~= be_bytes(w as nat, 2));
        r
    }

    /// Emits the whole program; on success `bytes` is its image.
    pub fn gen(&mut self) -> (r: Result<(), AsmError>)
        ensures
            final(self).program() == old(self).program(),
            final(self).file() == old(self).file(),
            match gen_all(old(self).program(), old(self).table()) {
                Ok(b) => r is Ok && final(self).output() == b,
                Err(e) => r == Err::<(), AsmError>(e),
            },
    {
        let ghost tv = tokens_view(self.tokens@);
        let ghost table = table_view(self.instruction_set@);
        self.bytes = Vec::new();
        let mut i: usize = 0;
        assert(tv.subrange(0, 0) =~= Seq::<TokenV>::empty());
        while i < self.tokens.len()
            invariant
                0 <= i <= self.tokens@.len(),
                tv == tokens_view(self.tokens@),
                table == table_view(self.instruction_set@),
                self.tokens == old(self).tokens,
                self.instruction_set == old(self).instruction_set,
                self.source_filename == old(self).source_filename,
                gen_all(tv.subrange(0, i as int), table) == Ok::<Seq<u8>, AsmError>(self.bytes@),
            decreases self.tokens@.len() - i,
        {
            let ghost pre = tv.subrange(0, i + 1);
            assert(pre.drop_last() =~= tv.subrange(0, i as int));
            assert(pre.last() == self.tokens@[i as int]@);
            let ghost before = self.bytes@;
            let mut out: Vec<u8> = Vec::new();
            let step = self.gen_one(&self.tokens[i], &mut out);
            match step {
                Ok(()) => {},
                Err(e) => {
                    proof {
                        lemma_gen_prefix_err(tv, table, i + 1);
                    }
                    return Err(e);
                },
            }
            self.bytes.append(&mut out);
            i = i + 1;
        }
        assert(tv.subrange(0, self.tokens@.len() as int) =~= tv);
        Ok(())
    }

    fn gen_one(&self, t: &Token, out: &mut Vec<u8>) -> (r: Result<(), AsmError>)
        requires
            old(out)@.len() == 0,
        ensures
            match gen_token(t@, self.table()) {
                Ok(b) => r is Ok && final(out)@ == b,
                Err(e) => r == Err::<(), AsmError>(e),
            },
    {
        match t {
            Token::Label { name } => Err(AsmError { kind: ErrorKind::LabelInCodegen, row: name.row, col: name.col }),
            Token::Instruction { name, args } => {
                if lowered_is(&name.value, "org") {
                    return Err(AsmError { kind: ErrorKind::OrgInCodegen, row: name.row, col: name.col });
                }
                let w = data_width_exec(&name.value);
                match w {
                    Some(w) => {
                        if args.len() == 0 {
                            return Err(AsmError { kind: ErrorKind::NoData, row: name.row, col: name.col });
                        }
                        let r = data_out_exec(args, w, out);
                        assert(old(out)@ + Seq::<u8>::empty() =~= old(out)@);
                        proof {
                            if let Ok(b) = data_out(lexems_view(args@), w as nat) {
                                assert(old(out)@ + b =~= b);
                            }
                        }
                        r
                    },
                    None => {
                        let parts = match lookup_format(self.instruction_set, &name.value) {
                            Some(p) => p,
                            None => {
                                return Err(AsmError { kind: ErrorKind::UnknownInstruction, row: name.row, col: name.col });
                            },
                        };
                        let v = encode(parts, args, name)?;
                        out.push((v / 256) as u8);
                        out.push((v % 256) as u8);
                        assert(out@ =~= seq![(v / 256) as u8, (v % 256) as u8]);
                        Ok(())
                    },
                }
            },
        }
    }
}


/// Parts that take an argument (all but constants).
pub open spec fn slots(parts: Seq<InstructionPart>) -> nat
    decreases parts.len(),
{
    if parts.len() == 0 {
        0
    } else if parts[0] is Const {
        slots(parts.drop_first())
    } else {
        1 + slots(parts.drop_first())
    }
}

/// Arguments beyond the slots of a format are ignored: appending any more
/// leaves the encoding as it is.
pub proof fn lemma_trailing_args_ignored(
    parts: Seq<InstructionPart>,
    args: Seq<LexemV>,
    extra: Seq<LexemV>,
    name: LexemV,
    acc: nat,
    width: nat,
)
    requires
        slots(parts) <= args.len(),
    ensures
        encode_parts(parts, args + extra, name, acc, width) == encode_parts(parts, args, name, acc, width),
    decreases parts.len(),
{
    if parts.len() > 0 && width + part_size(parts[0]) <= 16 {
        let p = parts[0];
        let all = args + extra;
        if !(p is Const) {
            assert(all[0] == args[0]);
        }
        assert(field_value(p, all, name, width) == field_value(p, args, name, width));
        match field_value(p, args, name, width) {
            Ok((v, used)) => {
                assert(all.subrange(used as int, all.len() as int) =~= args.subrange(used as int, args.len() as int) + extra);
                lemma_trailing_args_ignored(
                    parts.drop_first(),
                    args.subrange(used as int, args.len() as int),
                    extra,
                    name,
                    acc * two_pow(part_size(p)) + v,
                    width + part_size(p),
                );
            },
            Err(_) => {},
        }
    }
}

/// A zero-valued number unit.
pub open spec fn is_zero_number(z: LexemV) -> bool {
    number_of(z) == Ok::<u64, AsmError>(0)
}

/// An optional last field left out encodes as an explicit zero would.
pub proof fn lemma_omitted_extra_is_zero(
    parts: Seq<InstructionPart>,
    args: Seq<LexemV>,
    z: LexemV,
    name: LexemV,
    acc: nat,
    width: nat,
)
    requires
        parts.len() >= 1,
        parts.last() is Extra,
        slots(parts) == args.len() + 1,
        is_zero_number(z),
    ensures
        encode_parts(parts, args, name, acc, width) == encode_parts(parts, args.push(z), name, acc, width),
    decreases parts.len(),
{
    let p = parts[0];
    let rest = parts.drop_first();
    if width + part_size(p) <= 16 {
        if parts.len() == 1 {
            assert(p is Extra);
            assert(slots(rest) == 0);
            lemma_two_pow_pos(part_size(p));
            assert(args.len() == 0);
            assert(args.push(z)[0] == z);
            assert(field_value(p, args.push(z), name, width) == Ok::<(nat, nat), AsmError>((0, 1)));
            assert(field_value(p, args, name, width) == Ok::<(nat, nat), AsmError>((0, 0)));
            let nacc = acc * two_pow(part_size(p)) + 0;
            assert(encode_parts(rest, args, name, nacc, width + part_size(p)) == Ok::<(nat, nat), AsmError>((nacc, width + part_size(p))));
            assert(encode_parts(rest, args.push(z).subrange(1, 1), name, nacc, width + part_size(p)) == Ok::<(nat, nat), AsmError>((nacc, width + part_size(p))));
            assert(args.subrange(0, 0) =~= args);
            assert(encode_parts(parts, args, name, acc, width) == encode_parts(rest, args, name, nacc, width + part_size(p)));
        } else {
            assert(rest.last() == parts.last());
            lemma_slots_last_extra(rest);
            let all = args.push(z);
            if !(p is Const) {
                assert(args.len() >= 1);
                assert(all[0] == args[0]);
            }
            assert(field_value(p, all, name, width) == field_value(p, args, name, width));
            match field_value(p, args, name, width) {
                Ok((v, used)) => {
                    assert(all.subrange(used as int, all.len() as int) =~= args.subrange(used as int, args.len() as int).push(z));
                    lemma_omitted_extra_is_zero(
                        rest,
                        args.subrange(used as int, args.len() as int),
                        z,
                        name,
                        acc * two_pow(part_size(p)) + v,
                        width + part_size(p),
                    );
                },
                Err(_) => {},
            }
        }
    }
}

proof fn lemma_slots_last_extra(parts: Seq<InstructionPart>)
    requires
        parts.len() >= 1,
        parts.last() is Extra,
    ensures
        slots(parts) >= 1,
    decreases parts.len(),
{
    if parts.len() > 1 {
        assert(parts.drop_first().last() == parts.last());
        lemma_slots_last_extra(parts.drop_first());
    }
}


proof fn lemma_encode_parts_name(parts: Seq<InstructionPart>, args: Seq<LexemV>, n1: LexemV, n2: LexemV, acc: nat, width: nat)
    ensures
        (encode_parts(parts, args, n1, acc, width) is Ok) == (encode_parts(parts, args, n2, acc, width) is Ok),
        encode_parts(parts, args, n1, acc, width) is Ok ==> encode_parts(parts, args, n1, acc, width) == encode_parts(parts, args, n2, acc, width),
    decreases parts.len(),
{
    if parts.len() > 0 && width + part_size(parts[0]) <= 16 {
        let p = parts[0];
        assert((field_value(p, args, n1, width) is Ok) == (field_value(p, args, n2, width) is Ok));
        if let Ok((v, used)) = field_value(p, args, n1, width) {
            assert(field_value(p, args, n2, width) == Ok::<(nat, nat), AsmError>((v, used)));
            lemma_encode_parts_name(
                parts.drop_first(),
                args.subrange(used as int, args.len() as int),
                n1,
                n2,
                acc * two_pow(part_size(p)) + v,
                width + part_size(p),
            );
        }
    }
}

/// Where an instruction's name stands changes at most where an error is
/// reported: whether it encodes, and to which bytes, depends on the text.
pub proof fn lemma_gen_token_position_free(n1: LexemV, n2: LexemV, args: Seq<LexemV>, table: Seq<crate::format::FormatV>)
    requires
        n1.value == n2.value,
    ensures
        (gen_token(TokenV::Instruction { name: n1, args }, table) is Ok)
            == (gen_token(TokenV::Instruction { name: n2, args }, table) is Ok),
        gen_token(TokenV::Instruction { name: n1, args }, table) is Ok ==>
            gen_token(TokenV::Instruction { name: n1, args }, table) == gen_token(TokenV::Instruction { name: n2, args }, table),
{
    if let Some(parts) = find_format(table, n1.value) {
        lemma_encode_parts_name(parts, args, n1, n2, 0, 0);
    }
}

/// The image of two statements is the image of each, in order.
pub proof fn lemma_gen_all_pair(t1: TokenV, t2: TokenV, table: Seq<crate::format::FormatV>)
    ensures
        (gen_all(seq![t1, t2], table) is Ok) == (gen_token(t1, table) is Ok && gen_token(t2, table) is Ok),
        gen_all(seq![t1, t2], table) is Ok ==>
            gen_all(seq![t1, t2], table) == Ok::<Seq<u8>, AsmError>(gen_token(t1, table)->Ok_0 + gen_token(t2, table)->Ok_0),
{
    let ts = seq![t1, t2];
    let one = seq![t1];
    assert(ts.drop_last() =~= one);
    assert(ts.last() == t2);
    assert(one.drop_last() =~= Seq::<TokenV>::empty());
    assert(one.last() == t1);
    assert(gen_all(Seq::<TokenV>::empty(), table) == Ok::<Seq<u8>, AsmError>(Seq::empty()));
    if let Ok(b) = gen_token(t1, table) {
        assert(Seq::<u8>::empty() + b =~= b);
        assert(gen_all(one, table) == Ok::<Seq<u8>, AsmError>(b));
    } else {
        assert(gen_all(one, table) is Err);
    }
}


/// A number unit reads as the positional sum of its digits in its radix.
pub proof fn lemma_number_positional(l: LexemV)
    ensures
        number_of(l) matches Ok(v) ==> l.ttype matches LexemType::Number { radix }
            && v == positional(l.value, radix as nat),
{
    if let LexemType::Number { radix } = l.ttype {
        if number_of(l) is Ok {
            lemma_digits_positional(l.value, radix as nat);
        }
    }
}

/// An immediate field of `size` bits takes a number below 2^size and fails
/// with "number too big", at the argument, on any larger one; the value is
/// appended as the low `size` bits of the word packed so far.
pub proof fn lemma_immediate_width(size: u64, args: Seq<LexemV>, name: LexemV, width: nat, acc: nat)
    requires
        args.len() >= 1,
        number_of(args[0]) is Ok,
    ensures
        ({
            let v = number_of(args[0])->Ok_0 as nat;
            &&& v >= two_pow(size as nat) ==> field_value(InstructionPart::Imm { size }, args, name, width)
                    == Err::<(nat, nat), AsmError>(err_at(ErrorKind::NumberTooBig, args[0]))
            &&& v < two_pow(size as nat) ==> {
                &&& field_value(InstructionPart::Imm { size }, args, name, width) == Ok::<(nat, nat), AsmError>((v, 1))
                &&& (acc * two_pow(size as nat) + v) % two_pow(size as nat) == v
                &&& (acc * two_pow(size as nat) + v) / two_pow(size as nat) == acc
            }
        }),
{
    let v = number_of(args[0])->Ok_0 as nat;
    let p = two_pow(size as nat);
    lemma_two_pow_pos(size as nat);
    if v < p {
        vstd::arithmetic::div_mod::lemma_fundamental_div_mod_converse(
            (acc * p + v) as int, p as int, acc as int, v as int);
    }
}

} // verus!
