//! Pseudo instructions: mnemonics that stand for a fixed sequence of real
//! instructions, with the caller's arguments bound by position and simple
//! expressions (shift, mask) evaluated on numeric arguments.
use vstd::prelude::*;
use crate::codegen::{get_value_from_number_token, number_of};
use crate::common::{AsmError, ErrorKind};
use crate::lexer::{Lexem, LexemType, LexemV, lexems_view, lower, string_of};
use crate::number::{dec_digits, decimal_chars};
use crate::parser::{data_width, is_org};
use crate::parser::{Token, TokenV, err_at, tokens_view};

verus! {

/// An argument of a template line: a formal parameter (by position), a
/// literal unit, or an expression over a numeric parameter.
#[derive(Clone, Debug)]
pub enum TemplateArg {
    Param { index: usize },
    Literal { value: String, ttype: LexemType },
    /// `param >> amount`
    Shr { index: usize, amount: u64 },
    /// `param & mask`
    And { index: usize, mask: u64 },
}

pub enum TemplateArgV {
    Param { index: usize },
    Literal { value: Seq<char>, ttype: LexemType },
    Shr { index: usize, amount: u64 },
    And { index: usize, mask: u64 },
}

impl View for TemplateArg {
    type V = TemplateArgV;

    open spec fn view(&self) -> TemplateArgV {
        match self {
            TemplateArg::Param { index } => TemplateArgV::Param { index: *index },
            TemplateArg::Literal { value, ttype } => TemplateArgV::Literal { value: value@, ttype: *ttype },
            TemplateArg::Shr { index, amount } => TemplateArgV::Shr { index: *index, amount: *amount },
            TemplateArg::And { index, mask } => TemplateArgV::And { index: *index, mask: *mask },
        }
    }
}

/// One real instruction of a template.
#[derive(Clone, Debug)]
pub struct PseudoLine {
    pub mnemonic: String,
    pub args: Vec<TemplateArg>,
}

pub struct PseudoLineV {
    pub mnemonic: Seq<char>,
    pub args: Seq<TemplateArgV>,
}

impl View for PseudoLine {
    type V = PseudoLineV;

    open spec fn view(&self) -> PseudoLineV {
        PseudoLineV { mnemonic: self.mnemonic@, args: self.args@.map_values(|a: TemplateArg| a@) }
    }
}

/// A pseudo instruction: its name, its formal parameters and its template.
#[derive(Clone, Debug)]
pub struct PseudoInstruction {
    pub name: String,
    pub params: Vec<String>,
    pub body: Vec<PseudoLine>,
}

pub struct PseudoV {
    pub name: Seq<char>,
    pub arity: nat,
    pub body: Seq<PseudoLineV>,
}

impl View for PseudoInstruction {
    type V = PseudoV;

    open spec fn view(&self) -> PseudoV {
        PseudoV {
            name: self.name@,
            arity: self.params@.len(),
            body: self.body@.map_values(|l: PseudoLine| l@),
        }
    }
}

pub open spec fn pseudo_view(t: Seq<PseudoInstruction>) -> Seq<PseudoV> {
    t.map_values(|p: PseudoInstruction| p@)
}

pub open spec fn arg_wf(a: TemplateArgV, arity: nat) -> bool {
    match a {
        TemplateArgV::Param { index } => index < arity,
        TemplateArgV::Literal { .. } => true,
        TemplateArgV::Shr { index, amount } => index < arity && amount < 64,
        TemplateArgV::And { index, .. } => index < arity,
    }
}

/// A directive's name: such a name is no pseudo instruction, and a template
/// holds none (each template line is one instruction word).
pub open spec fn is_directive(name: Seq<char>) -> bool {
    is_org(name) || data_width(name) is Some
}

/// Every parameter a template names is one of its formal parameters, shifts
/// stay below 64, and templates hold real instructions only.
pub open spec fn pseudo_wf(p: PseudoV) -> bool {
    &&& !is_directive(p.name)
    &&& forall|i: int| 0 <= i < p.body.len() ==> !is_directive(#[trigger] p.body[i].mnemonic)
    &&& forall|i: int, k: int|
        0 <= i < p.body.len() && 0 <= k < p.body[i].args.len() ==> arg_wf(#[trigger] p.body[i].args[k], p.arity)
}

pub open spec fn pseudo_table_wf(t: Seq<PseudoV>) -> bool {
    forall|i: int| 0 <= i < t.len() ==> pseudo_wf(#[trigger] t[i])
}

/// The first pseudo instruction of the table named `name`.
pub open spec fn find_pseudo(t: Seq<PseudoV>, name: Seq<char>) -> Option<PseudoV>
    decreases t.len(),
{
    if t.len() == 0 {
        None
    } else if t[0].name == name {
        Some(t[0])
    } else {
        find_pseudo(t.drop_first(), name)
    }
}

/// A computed value as a decimal number unit at the position of `l`.
pub open spec fn number_unit(v: u64, l: LexemV) -> LexemV {
    LexemV { value: dec_digits(v as nat), ttype: LexemType::Number { radix: 10 }, row: l.row, col: l.col }
}

/// A template argument with the actual arguments bound. Literals take the
/// position of the pseudo instruction's name; an expression takes its
/// parameter's position and fails where the parameter is no number.
pub open spec fn subst(a: TemplateArgV, actual: Seq<LexemV>, at: LexemV) -> Result<LexemV, AsmError> {
    match a {
        TemplateArgV::Param { index } => Ok(actual[index as int]),
        TemplateArgV::Literal { value, ttype } => Ok(LexemV { value, ttype, row: at.row, col: at.col }),
        TemplateArgV::Shr { index, amount } => match number_of(actual[index as int]) {
            Ok(v) => Ok(number_unit(v >> amount, actual[index as int])),
            Err(e) => Err(e),
        },
        TemplateArgV::And { index, mask } => match number_of(actual[index as int]) {
            Ok(v) => Ok(number_unit(v & mask, actual[index as int])),
            Err(e) => Err(e),
        },
    }
}

pub open spec fn subst_args(args: Seq<TemplateArgV>, actual: Seq<LexemV>, at: LexemV) -> Result<Seq<LexemV>, AsmError>
    decreases args.len(),
{
    if args.len() == 0 {
        Ok(Seq::empty())
    } else {
        match subst_args(args.drop_last(), actual, at) {
            Err(e) => Err(e),
            Ok(v) => match subst(args.last(), actual, at) {
                Err(e) => Err(e),
                Ok(a) => Ok(v.push(a)),
            },
        }
    }
}

pub open spec fn instantiate_line(line: PseudoLineV, actual: Seq<LexemV>, at: LexemV) -> Result<TokenV, AsmError> {
    match subst_args(line.args, actual, at) {
        Ok(args) => Ok(TokenV::Instruction {
            name: LexemV { value: line.mnemonic, ttype: LexemType::Ident, row: at.row, col: at.col },
            args,
        }),
        Err(e) => Err(e),
    }
}

pub open spec fn instantiate_body(body: Seq<PseudoLineV>, actual: Seq<LexemV>, at: LexemV) -> Result<Seq<TokenV>, AsmError>
    decreases body.len(),
{
    if body.len() == 0 {
        Ok(Seq::empty())
    } else {
        match instantiate_body(body.drop_last(), actual, at) {
            Err(e) => Err(e),
            Ok(v) => match instantiate_line(body.last(), actual, at) {
                Err(e) => Err(e),
                Ok(t) => Ok(v.push(t)),
            },
        }
    }
}

/// The template of `p` with the actual arguments bound.
pub open spec fn instantiate(p: PseudoV, actual: Seq<LexemV>, at: LexemV) -> Result<Seq<TokenV>, AsmError> {
    instantiate_body(p.body, actual, at)
}

/// What one statement expands to.
pub open spec fn expand_token(t: TokenV, table: Seq<PseudoV>) -> Result<Seq<TokenV>, AsmError> {
    match t {
        TokenV::Label { .. } => Ok(seq![t]),
        TokenV::Instruction { name, args } => match find_pseudo(table, name.value) {
            None => Ok(seq![t]),
            Some(p) => {
                if args.len() != p.arity {
                    Err(err_at(ErrorKind::PseudoArity, name))
                } else {
                    instantiate(p, args, name)
                }
            },
        },
    }
}

/// Expansion: each statement replaced in place by its expansion (a single
/// pass: a template's lines are not expanded again).
pub open spec fn expand_all(ts: Seq<TokenV>, table: Seq<PseudoV>) -> Result<Seq<TokenV>, AsmError>
    decreases ts.len(),
{
    if ts.len() == 0 {
        Ok(Seq::empty())
    } else {
        match expand_all(ts.drop_last(), table) {
            Err(e) => Err(e),
            Ok(v) => match expand_token(ts.last(), table) {
                Err(e) => Err(e),
                Ok(w) => Ok(v + w),
            },
        }
    }
}

/// The pseudo instructions of the zirc16 instruction set. `mov rd, rs`
/// clears `rd` and then xors `rs` into it; `limb rd, a` loads a 16-bit
/// value: its upper ten bits with `lui`, its lower six with `lim`.
pub open spec fn pseudo_table() -> Seq<PseudoV> {
    seq![
        PseudoV {
            name: "mov"@,
            arity: 2,
            body: seq![
                PseudoLineV { mnemonic: "xor"@, args: seq![TemplateArgV::Param { index: 0 }, TemplateArgV::Param { index: 0 }] },
                PseudoLineV { mnemonic: "xor"@, args: seq![TemplateArgV::Param { index: 0 }, TemplateArgV::Param { index: 1 }] },
            ],
        },
        PseudoV {
            name: "limb"@,
            arity: 2,
            body: seq![
                PseudoLineV { mnemonic: "lui"@, args: seq![TemplateArgV::Shr { index: 1, amount: 6 }] },
                PseudoLineV { mnemonic: "lim"@, args: seq![TemplateArgV::Param { index: 0 }, TemplateArgV::And { index: 1, mask: 0x3F }] },
            ],
        },
    ]
}

fn line(mnemonic: &str, args: Vec<TemplateArg>) -> (r: PseudoLine)
    ensures
        r@ == (PseudoLineV { mnemonic: mnemonic@, args: args@.map_values(|a: TemplateArg| a@) }),
{
    PseudoLine { mnemonic: String::from_str(mnemonic), args }
}

fn pseudo(name: &str, p0: &str, p1: &str, body: Vec<PseudoLine>) -> (r: PseudoInstruction)
    ensures
        r@ == (PseudoV { name: name@, arity: 2, body: body@.map_values(|l: PseudoLine| l@) }),
{
    let mut params: Vec<String> = Vec::new();
    params.push(String::from_str(p0));
    params.push(String::from_str(p1));
    PseudoInstruction { name: String::from_str(name), params, body }
}

/// Builds the zirc16 pseudo instruction table.
pub fn pseudo_instructions() -> (r: Vec<PseudoInstruction>)
    ensures
        pseudo_view(r@) == pseudo_table(),
        pseudo_table_wf(pseudo_table()),
{
    let mov = pseudo("mov", "rd", "rs", vec![
        line("xor", vec![TemplateArg::Param { index: 0 }, TemplateArg::Param { index: 0 }]),
        line("xor", vec![TemplateArg::Param { index: 0 }, TemplateArg::Param { index: 1 }]),
    ]);
    let limb = pseudo("limb", "rd", "a", vec![
        line("lui", vec![TemplateArg::Shr { index: 1, amount: 6 }]),
        line("lim", vec![TemplateArg::Param { index: 0 }, TemplateArg::And { index: 1, mask: 0x3F }]),
    ]);
    let ghost t = pseudo_table();
    assert(mov@.body[0].args =~= t[0].body[0].args);
    assert(mov@.body[1].args =~= t[0].body[1].args);
    assert(mov@.body =~= t[0].body);
    assert(limb@.body[0].args =~= t[1].body[0].args);
    assert(limb@.body[1].args =~= t[1].body[1].args);
    assert(limb@.body =~= t[1].body);
    let mut r: Vec<PseudoInstruction> = Vec::new();
    r.push(mov);
    r.push(limb);
    assert(pseudo_view(r@) =~= t);
    proof {
        lemma_pseudo_table_wf();
    }
    r
}

pub(crate) fn find_pseudo_exec<'a>(t: &'a Vec<PseudoInstruction>, name: &String) -> (r: Option<&'a PseudoInstruction>)
    ensures
        r matches Some(p) ==> find_pseudo(pseudo_view(t@), name@) == Some(p@),
        r is None ==> find_pseudo(pseudo_view(t@), name@) is None,
{
    let mut i: usize = 0;
    assert(pseudo_view(t@).subrange(0, t@.len() as int) =~= pseudo_view(t@));
    while i < t.len()
        invariant
            0 <= i <= t@.len(),
            find_pseudo(pseudo_view(t@), name@) == find_pseudo(pseudo_view(t@).subrange(i as int, t@.len() as int), name@),
        decreases t@.len() - i,
    {
        let ghost rest = pseudo_view(t@).subrange(i as int, t@.len() as int);
        assert(rest.drop_first() =~= pseudo_view(t@).subrange(i + 1, t@.len() as int));
        if t[i].name == *name {
            return Some(&t[i]);
        }
        i = i + 1;
    }
    None
}

proof fn lemma_not_directive(s: Seq<char>)
    requires
        s.len() == 3 || s.len() == 4,
        'a' <= s[0] <= 'z',
        s[0] != 'o',
    ensures
        !is_directive(s),
{
    reveal_strlit("org");
    reveal_strlit("db");
    reveal_strlit("dw");
    reveal_strlit("dd");
    reveal_strlit("dq");
    let l = lower(s);
    assert(l.len() == s.len());
    assert(l[0] == s[0]);
    assert("org"@[0] == 'o');
    assert(l != "org"@);
}

proof fn lemma_pseudo_table_wf()
    ensures
        pseudo_table_wf(pseudo_table()),
{
    reveal_strlit("mov");
    reveal_strlit("limb");
    reveal_strlit("xor");
    reveal_strlit("lui");
    reveal_strlit("lim");
    let t = pseudo_table();
    lemma_not_directive("mov"@);
    lemma_not_directive("limb"@);
    lemma_not_directive("xor"@);
    lemma_not_directive("lui"@);
    lemma_not_directive("lim"@);
    assert forall|q: int| 0 <= q < t.len() implies pseudo_wf(#[trigger] t[q]) by {
        let p = t[q];
        assert forall|i: int| 0 <= i < p.body.len() implies !is_directive(#[trigger] p.body[i].mnemonic) by {
            if q == 0 {
                assert(p.body[i].mnemonic == "xor"@);
            } else if i == 0 {
                assert(p.body[i].mnemonic == "lui"@);
            } else {
                assert(p.body[i].mnemonic == "lim"@);
            }
        }
        assert forall|i: int, k: int| 0 <= i < p.body.len() && 0 <= k < p.body[i].args.len() implies arg_wf(#[trigger] p.body[i].args[k], p.arity) by {
        }
    }
}

fn subst_exec(a: &TemplateArg, actual: &Vec<Lexem>, at: &Lexem, Ghost(arity): Ghost<nat>) -> (r: Result<Lexem, AsmError>)
    requires
        arg_wf(a@, arity),
        actual@.len() == arity,
    ensures
        match subst(a@, lexems_view(actual@), at@) {
            Ok(l) => r matches Ok(x) && x@ == l,
            Err(e) => r == Err::<Lexem, AsmError>(e),
        },
{
    match a {
        TemplateArg::Param { index } => {
            assert(lexems_view(actual@)[*index as int] == actual@[*index as int]@);
            Ok(actual[*index].duplicate())
        },
        TemplateArg::Literal { value, ttype } => Ok(Lexem::new(value.clone(), *ttype, at.row, at.col)),
        TemplateArg::Shr { index, amount } => {
            let p = &actual[*index];
            assert(lexems_view(actual@)[*index as int] == p@);
            let v = get_value_from_number_token(p)?;
            let digits = decimal_chars(v >> *amount);
            Ok(Lexem::new(string_of(&digits), LexemType::Number { radix: 10 }, p.row, p.col))
        },
        TemplateArg::And { index, mask } => {
            let p = &actual[*index];
            assert(lexems_view(actual@)[*index as int] == p@);
            let v = get_value_from_number_token(p)?;
            let digits = decimal_chars(v & *mask);
            Ok(Lexem::new(string_of(&digits), LexemType::Number { radix: 10 }, p.row, p.col))
        },
    }
}

proof fn lemma_subst_args_prefix_err(args: Seq<TemplateArgV>, actual: Seq<LexemV>, at: LexemV, j: int)
    requires
        0 <= j <= args.len(),
        subst_args(args.subrange(0, j), actual, at) is Err,
    ensures
        subst_args(args, actual, at) == subst_args(args.subrange(0, j), actual, at),
    decreases args.len(),
{
    if j == args.len() {
        assert(args.subrange(0, j) =~= args);
    } else {
        assert(args.drop_last().subrange(0, j) =~= args.subrange(0, j));
        lemma_subst_args_prefix_err(args.drop_last(), actual, at, j);
    }
}

proof fn lemma_instantiate_prefix_err(body: Seq<PseudoLineV>, actual: Seq<LexemV>, at: LexemV, j: int)
    requires
        0 <= j <= body.len(),
        instantiate_body(body.subrange(0, j), actual, at) is Err,
    ensures
        instantiate_body(body, actual, at) == instantiate_body(body.subrange(0, j), actual, at),
    decreases body.len(),
{
    if j == body.len() {
        assert(body.subrange(0, j) =~= body);
    } else {
        assert(body.drop_last().subrange(0, j) =~= body.subrange(0, j));
        lemma_instantiate_prefix_err(body.drop_last(), actual, at, j);
    }
}

fn instantiate_line_exec(line: &PseudoLine, actual: &Vec<Lexem>, at: &Lexem, Ghost(arity): Ghost<nat>) -> (r: Result<Token, AsmError>)
    requires
        forall|k: int| 0 <= k < line@.args.len() ==> arg_wf(#[trigger] line@.args[k], arity),
        actual@.len() == arity,
    ensures
        match instantiate_line(line@, lexems_view(actual@), at@) {
            Ok(t) => r matches Ok(x) && x@ == t,
            Err(e) => r == Err::<Token, AsmError>(e),
        },
{
    let ghost av = lexems_view(actual@);
    let ghost la = line@.args;
    let mut args: Vec<Lexem> = Vec::new();
    let mut k: usize = 0;
    assert(la.subrange(0, 0) =~= Seq::<TemplateArgV>::empty());
    assert(lexems_view(args@) =~= Seq::<LexemV>::empty());
    while k < line.args.len()
        invariant
            0 <= k <= line.args@.len(),
            la == line@.args,
            av == lexems_view(actual@),
            actual@.len() == arity,
            forall|k: int| 0 <= k < la.len() ==> arg_wf(#[trigger] la[k], arity),
            subst_args(la.subrange(0, k as int), av, at@) == Ok::<Seq<LexemV>, AsmError>(lexems_view(args@)),
        decreases line.args@.len() - k,
    {
        let ghost pre = la.subrange(0, k + 1);
        assert(pre.drop_last() =~= la.subrange(0, k as int));
        assert(pre.last() == line.args@[k as int]@);
        assert(arg_wf(la[k as int], arity));
        let a = match subst_exec(&line.args[k], actual, at, Ghost(arity)) {
            Ok(a) => a,
            Err(e) => {
                proof {
                    lemma_subst_args_prefix_err(la, av, at@, k + 1);
                }
                return Err(e);
            },
        };
        let ghost before = args@;
        args.push(a);
        assert(lexems_view(args@) =~= lexems_view(before).push(a@));
        k = k + 1;
    }
    assert(la.subrange(0, la.len() as int) =~= la);
    let name = Lexem::new(line.mnemonic.clone(), LexemType::Ident, at.row, at.col);
    Ok(Token::Instruction { name, args })
}

fn instantiate_exec(p: &PseudoInstruction, actual: &Vec<Lexem>, at: &Lexem) -> (r: Result<Vec<Token>, AsmError>)
    requires
        pseudo_wf(p@),
        actual@.len() == p@.arity,
    ensures
        match instantiate(p@, lexems_view(actual@), at@) {
            Ok(v) => r matches Ok(x) && tokens_view(x@) == v,
            Err(e) => r == Err::<Vec<Token>, AsmError>(e),
        },
{
    let ghost av = lexems_view(actual@);
    let ghost body = p@.body;
    let mut out: Vec<Token> = Vec::new();
    let mut i: usize = 0;
    assert(body.subrange(0, 0) =~= Seq::<PseudoLineV>::empty());
    assert(tokens_view(out@) =~= Seq::<TokenV>::empty());
    while i < p.body.len()
        invariant
            0 <= i <= p.body@.len(),
            body == p@.body,
            pseudo_wf(p@),
            actual@.len() == p@.arity,
            av == lexems_view(actual@),
            instantiate_body(body.subrange(0, i as int), av, at@) == Ok::<Seq<TokenV>, AsmError>(tokens_view(out@)),
        decreases p.body@.len() - i,
    {
        let ghost pre = body.subrange(0, i + 1);
        assert(pre.drop_last() =~= body.subrange(0, i as int));
        assert(pre.last() == p.body@[i as int]@);
        assert forall|k: int| 0 <= k < p.body@[i as int]@.args.len() implies arg_wf(#[trigger] p.body@[i as int]@.args[k], p@.arity) by {
            assert(p.body@[i as int]@ == body[i as int]);
            assert(arg_wf(body[i as int].args[k], p@.arity));
        }
        let t = match instantiate_line_exec(&p.body[i], actual, at, Ghost(p@.arity)) {
            Ok(t) => t,
            Err(e) => {
                proof {
                    lemma_instantiate_prefix_err(body, av, at@, i + 1);
                }
                return Err(e);
            },
        };
        let ghost before = out@;
        out.push(t);
        assert(tokens_view(out@) =~= tokens_view(before).push(t@));
        i = i + 1;
    }
    assert(body.subrange(0, body.len() as int) =~= body);
    Ok(out)
}

/// Replaces each pseudo instruction by its template, with the actual
/// arguments bound; fails on a wrong number of arguments, or where an
/// expression's parameter is no number.
pub fn expand(tokens: &Vec<Token>, table: &Vec<PseudoInstruction>) -> (r: Result<Vec<Token>, AsmError>)
    requires
        pseudo_table_wf(pseudo_view(table@)),
    ensures
        match expand_all(tokens_view(tokens@), pseudo_view(table@)) {
            Ok(v) => r matches Ok(x) && tokens_view(x@) == v,
            Err(e) => r == Err::<Vec<Token>, AsmError>(e),
        },
{
    let ghost tv = tokens_view(tokens@);
    let ghost pt = pseudo_view(table@);
    let mut out: Vec<Token> = Vec::new();
    let mut i: usize = 0;
    assert(tokens_view(out@) =~= Seq::<TokenV>::empty());
    assert(tv.subrange(0, 0) =~= Seq::<TokenV>::empty());
    while i < tokens.len()
        invariant
            0 <= i <= tokens@.len(),
            tv == tokens_view(tokens@),
            pt == pseudo_view(table@),
            pseudo_table_wf(pt),
            expand_all(tv.subrange(0, i as int), pt) == Ok::<Seq<TokenV>, AsmError>(tokens_view(out@)),
        decreases tokens@.len() - i,
    {
        let ghost pre = tv.subrange(0, i + 1);
        assert(pre.drop_last() =~= tv.subrange(0, i as int));
        assert(pre.last() == tokens@[i as int]@);
        let ghost before = tokens_view(out@);
        let expansion: Vec<Token> = match &tokens[i] {
            Token::Label { name } => {
                let mut v: Vec<Token> = Vec::new();
                v.push(tokens[i].duplicate());
                v
            },
            Token::Instruction { name, args } => {
                match find_pseudo_exec(table, &name.value) {
                    None => {
                        let mut v: Vec<Token> = Vec::new();
                        v.push(tokens[i].duplicate());
                        v
                    },
                    Some(p) => {
                        proof {
                            lemma_find_pseudo_in(pt, name.value@);
                        }
                        if args.len() != p.params.len() {
                            proof {
                                let e = err_at(ErrorKind::PseudoArity, name@);
                                assert(expand_all(pre, pt) == Err::<Seq<TokenV>, AsmError>(e));
                                assert(tv.subrange(0, tv.len() as int) =~= tv);
                                lemma_expand_prefix_err(tv, pt, i + 1);
                            }
                            return Err(AsmError { kind: ErrorKind::PseudoArity, row: name.row, col: name.col });
                        }
                        match instantiate_exec(p, args, name) {
                            Ok(v) => v,
                            Err(e) => {
                                proof {
                                    assert(expand_all(pre, pt) == Err::<Seq<TokenV>, AsmError>(e));
                                    assert(tv.subrange(0, tv.len() as int) =~= tv);
                                    lemma_expand_prefix_err(tv, pt, i + 1);
                                }
                                return Err(e);
                            },
                        }
                    },
                }
            },
        };
        assert(expand_token(tv[i as int], pt) == Ok::<Seq<TokenV>, AsmError>(tokens_view(expansion@))) by {
            if tokens@[i as int] is Label {
                assert(tokens_view(expansion@) =~= seq![tv[i as int]]);
            } else if find_pseudo(pt, tokens@[i as int]->Instruction_name.value@) is None {
                assert(tokens_view(expansion@) =~= seq![tv[i as int]]);
            }
        }
        let mut k: usize = 0;
        while k < expansion.len()
            invariant
                0 <= k <= expansion@.len(),
                tokens_view(out@) == before + tokens_view(expansion@).subrange(0, k as int),
            decreases expansion@.len() - k,
        {
            let ghost o = out@;
            out.push(expansion[k].duplicate());
            assert(tokens_view(out@) =~= before + tokens_view(expansion@).subrange(0, k + 1)) by {
                assert(tokens_view(out@) =~= tokens_view(o).push(expansion@[k as int]@));
            }
            k = k + 1;
        }
        assert(tokens_view(expansion@).subrange(0, expansion@.len() as int) =~= tokens_view(expansion@));
        i = i + 1;
    }
    assert(tv.subrange(0, tokens@.len() as int) =~= tv);
    Ok(out)
}

/// An error in a prefix is the error of the whole.
proof fn lemma_expand_prefix_err(ts: Seq<TokenV>, table: Seq<PseudoV>, j: int)
    requires
        0 <= j <= ts.len(),
        expand_all(ts.subrange(0, j), table) is Err,
    ensures
        expand_all(ts, table) == expand_all(ts.subrange(0, j), table),
    decreases ts.len(),
{
    if j == ts.len() {
        assert(ts.subrange(0, j) =~= ts);
    } else {
        assert(ts.drop_last().subrange(0, j) =~= ts.subrange(0, j));
        lemma_expand_prefix_err(ts.drop_last(), table, j);
    }
}

proof fn lemma_find_pseudo_in(t: Seq<PseudoV>, name: Seq<char>)
    requires
        pseudo_table_wf(t),
    ensures
        find_pseudo(t, name) matches Some(p) ==> pseudo_wf(p),
    decreases t.len(),
{
    if t.len() > 0 && t[0].name != name {
        assert(pseudo_table_wf(t.drop_first())) by {
            assert forall|i: int| 0 <= i < t.drop_first().len() implies pseudo_wf(#[trigger] t.drop_first()[i]) by {
                assert(t.drop_first()[i] == t[i + 1]);
            }
        }
        lemma_find_pseudo_in(t.drop_first(), name);
    }
}


proof fn lemma_subst_two_params(i: usize, j: usize, actual: Seq<LexemV>, at: LexemV)
    requires
        i < actual.len(),
        j < actual.len(),
    ensures
        subst_args(seq![TemplateArgV::Param { index: i }, TemplateArgV::Param { index: j }], actual, at)
            == Ok::<Seq<LexemV>, AsmError>(seq![actual[i as int], actual[j as int]]),
{
    let pi = TemplateArgV::Param { index: i };
    let pj = TemplateArgV::Param { index: j };
    let s = seq![pi, pj];
    let one = seq![pi];
    assert(s.drop_last() =~= one);
    assert(s.last() == pj);
    assert(one.drop_last() =~= Seq::<TemplateArgV>::empty());
    assert(one.last() == pi);
    assert(subst_args(Seq::<TemplateArgV>::empty(), actual, at) == Ok::<Seq<LexemV>, AsmError>(Seq::empty()));
    assert(Seq::<LexemV>::empty().push(actual[i as int]) =~= seq![actual[i as int]]);
    assert(subst_args(one, actual, at) == Ok::<Seq<LexemV>, AsmError>(seq![actual[i as int]]));
    assert(seq![actual[i as int]].push(actual[j as int]) =~= seq![actual[i as int], actual[j as int]]);
}

proof fn lemma_instantiate_two(l0: PseudoLineV, l1: PseudoLineV, actual: Seq<LexemV>, at: LexemV)
    ensures
        (instantiate_line(l0, actual, at) is Ok && instantiate_line(l1, actual, at) is Ok) ==>
            instantiate_body(seq![l0, l1], actual, at) == Ok::<Seq<TokenV>, AsmError>(
                seq![instantiate_line(l0, actual, at)->Ok_0, instantiate_line(l1, actual, at)->Ok_0]),
{
    let b = seq![l0, l1];
    let one = seq![l0];
    assert(b.drop_last() =~= one);
    assert(b.last() == l1);
    assert(one.drop_last() =~= Seq::<PseudoLineV>::empty());
    assert(one.last() == l0);
    assert(instantiate_body(Seq::<PseudoLineV>::empty(), actual, at) == Ok::<Seq<TokenV>, AsmError>(Seq::empty()));
    if let (Ok(x), Ok(y)) = (instantiate_line(l0, actual, at), instantiate_line(l1, actual, at)) {
        assert(Seq::<TokenV>::empty().push(x) =~= seq![x]);
        assert(instantiate_body(one, actual, at) == Ok::<Seq<TokenV>, AsmError>(seq![x]));
        assert(seq![x].push(y) =~= seq![x, y]);
    }
}

/// `mov a, b` expands to `xor a, a` then `xor a, b`, both at the position
/// of `mov`.
pub proof fn lemma_mov_expansion(name: LexemV, a: LexemV, b: LexemV)
    requires
        name.value == "mov"@,
    ensures
        expand_token(TokenV::Instruction { name, args: seq![a, b] }, pseudo_table()) == Ok::<Seq<TokenV>, AsmError>(seq![
            TokenV::Instruction { name: LexemV { value: "xor"@, ttype: LexemType::Ident, row: name.row, col: name.col }, args: seq![a, a] },
            TokenV::Instruction { name: LexemV { value: "xor"@, ttype: LexemType::Ident, row: name.row, col: name.col }, args: seq![a, b] },
        ]),
{
    let t = pseudo_table();
    let p = t[0];
    let args = seq![a, b];
    assert(find_pseudo(t, name.value) == Some(p));
    lemma_subst_two_params(0, 0, args, name);
    lemma_subst_two_params(0, 1, args, name);
    lemma_instantiate_two(p.body[0], p.body[1], args, name);
    assert(p.body =~= seq![p.body[0], p.body[1]]);
}

} // verus!
