//! The parser: lexical units to resolved instructions. First it groups
//! units into labels and instructions; then it lays out addresses (a pseudo
//! instruction takes one word per line of its template), drops labels and
//! `org`, and replaces each label reference by its address; last it expands
//! pseudo instructions, so that template expressions see resolved values.
use vstd::prelude::*;
use crate::common::{AsmError, ErrorKind, condition_name, condition_value, mk_err};
use crate::lexer::{Lexem, LexemType, LexemV, copy_lexems, lexems_view, lower, lowered_is, string_of};
use crate::codegen::{get_value_from_number_token, number_of};
use crate::number::{dec_digits, decimal_chars};
use crate::pseudo::{PseudoInstruction, PseudoV, expand, expand_all, find_pseudo, find_pseudo_exec, pseudo_instructions, pseudo_table, pseudo_view};

verus! {

/// A line-level unit of the program.
#[derive(Clone, Debug)]
pub enum Token {
    Label { name: Lexem },
    Instruction { name: Lexem, args: Vec<Lexem> },
}

pub enum TokenV {
    Label { name: LexemV },
    Instruction { name: LexemV, args: Seq<LexemV> },
}

impl View for Token {
    type V = TokenV;

    open spec fn view(&self) -> TokenV {
        match self {
            Token::Label { name } => TokenV::Label { name: name@ },
            Token::Instruction { name, args } => TokenV::Instruction { name: name@, args: lexems_view(args@) },
        }
    }
}

impl Token {
    /// A copy of the statement.
    pub fn duplicate(&self) -> (r: Token)
        ensures
            r@ == self@,
    {
        match self {
            Token::Label { name } => Token::Label { name: name.duplicate() },
            Token::Instruction { name, args } => Token::Instruction { name: name.duplicate(), args: copy_lexems(args) },
        }
    }

    /// The kind of statement, in words.
    pub fn kind_name(&self) -> (r: &'static str)
        ensures
            r@ == (if self is Label { "Label"@ } else { "Instruction"@ }),
    {
        match self {
            Token::Label { .. } => "Label",
            Token::Instruction { .. } => "Instruction",
        }
    }
}

pub open spec fn tokens_view(ts: Seq<Token>) -> Seq<TokenV> {
    ts.map_values(|t: Token| t@)
}

pub open spec fn err_at(kind: ErrorKind, l: LexemV) -> AsmError {
    mk_err(kind, l.row, l.col)
}

// ---- stage one: statements ----

pub open spec fn is_single(l: LexemV, c: char) -> bool {
    l.ttype == LexemType::Single && l.value == seq![c]
}

/// An argument is a number, an identifier, a register or (for data
/// directives) a string.
pub open spec fn is_arg(l: LexemV) -> bool {
    l.ttype is Number || l.ttype == LexemType::Ident || l.ttype == LexemType::Register
        || l.ttype == LexemType::String
}

/// First index from `i` that is no line break.
pub open spec fn skip_nl(ls: Seq<LexemV>, i: int) -> int
    decreases ls.len() - i,
{
    if i < 0 || i >= ls.len() || ls[i].ttype != LexemType::NewLine {
        i
    } else {
        skip_nl(ls, i + 1)
    }
}

/// The column just after a one-character unit.
pub open spec fn next_col(col: usize) -> usize {
    if col < usize::MAX { (col + 1) as usize } else { col }
}

/// The arguments after the first: `, arg` repeated. A comma that ends the
/// input is reported just after it.
pub open spec fn args_from(ls: Seq<LexemV>, k: int, acc: Seq<LexemV>) -> Result<(Seq<LexemV>, int), AsmError>
    decreases ls.len() - k,
{
    if 0 <= k < ls.len() && is_single(ls[k], ',') {
        if k + 1 >= ls.len() {
            Err(mk_err(ErrorKind::ExpectedArgument, ls[k].row, next_col(ls[k].col)))
        } else if !is_arg(ls[k + 1]) {
            Err(err_at(ErrorKind::ExpectedArgument, ls[k + 1]))
        } else {
            args_from(ls, k + 2, acc.push(ls[k + 1]))
        }
    } else {
        Ok((acc, k))
    }
}

/// The argument list that starts at `k`, and the index after it.
pub open spec fn args_spec(ls: Seq<LexemV>, k: int) -> Result<(Seq<LexemV>, int), AsmError> {
    if k < 0 || k >= ls.len() || ls[k].ttype == LexemType::NewLine {
        Ok((Seq::empty(), k))
    } else if !is_arg(ls[k]) {
        Err(err_at(ErrorKind::ExpectedArgument, ls[k]))
    } else {
        args_from(ls, k + 1, seq![ls[k]])
    }
}

pub enum PStep {
    End,
    Emit(TokenV, int),
    Fail(AsmError),
}

/// A label `name :` at `j`.
pub open spec fn label_at(ls: Seq<LexemV>, j: int) -> bool {
    0 <= j && j + 1 < ls.len() && ls[j].ttype == LexemType::Ident && is_single(ls[j + 1], ':')
}

/// The statement that starts at or after `i`, after line breaks. An
/// instruction runs to the end of its line.
pub open spec fn stmt_step(ls: Seq<LexemV>, i: int) -> PStep {
    let j = skip_nl(ls, i);
    if j < 0 || j >= ls.len() {
        PStep::End
    } else if label_at(ls, j) {
        PStep::Emit(TokenV::Label { name: ls[j] }, j + 2)
    } else if ls[j].ttype == LexemType::Ident {
        match args_spec(ls, j + 1) {
            Err(e) => PStep::Fail(e),
            Ok((args, k)) => {
                if 0 <= k < ls.len() && ls[k].ttype != LexemType::NewLine {
                    PStep::Fail(err_at(ErrorKind::UnexpectedToken, ls[k]))
                } else {
                    PStep::Emit(TokenV::Instruction { name: ls[j], args }, k)
                }
            },
        }
    } else {
        PStep::Fail(err_at(ErrorKind::UnexpectedToken, ls[j]))
    }
}

pub open spec fn stmts_from(ls: Seq<LexemV>, i: int) -> Result<Seq<TokenV>, AsmError>
    decreases ls.len() - i,
{
    match stmt_step(ls, i) {
        PStep::End => Ok(Seq::empty()),
        PStep::Fail(e) => Err(e),
        PStep::Emit(t, n) => {
            if i < n && n <= ls.len() {
                match stmts_from(ls, n) {
                    Ok(rest) => Ok(seq![t] + rest),
                    Err(e) => Err(e),
                }
            } else {
                Ok(Seq::empty())
            }
        },
    }
}

/// Stage one: the statements of a unit sequence, or the first error.
pub open spec fn stage_one(ls: Seq<LexemV>) -> Result<Seq<TokenV>, AsmError> {
    stmts_from(ls, 0)
}


fn is_single_exec(l: &Lexem, c: char) -> (r: bool)
    ensures
        r == is_single(l@, c),
{
    if l.ttype != LexemType::Single {
        return false;
    }
    let t = l.value.as_str();
    let n = t.unicode_len();
    if n != 1 {
        return false;
    }
    let d = t.get_char(0);
    if d == c {
        assert(l.value@ =~= seq![c]);
        true
    } else {
        false
    }
}

fn is_arg_exec(l: &Lexem) -> (r: bool)
    ensures
        r == is_arg(l@),
{
    match l.ttype {
        LexemType::Number { .. } => true,
        LexemType::Ident => true,
        LexemType::Register => true,
        LexemType::String => true,
        _ => false,
    }
}

/// Turns lexical units into resolved instructions.
pub struct Parser {
    source_filename: String,
    cursor: usize,
    lexems: Vec<Lexem>,
    pub tokens: Vec<Token>,
}

impl Parser {
    /// The units being parsed.
    pub closed spec fn units(&self) -> Seq<LexemV> {
        lexems_view(self.lexems@)
    }

    /// The instructions produced so far.
    pub closed spec fn output(&self) -> Seq<TokenV> {
        tokens_view(self.tokens@)
    }

    spec fn inv(&self) -> bool {
        self.cursor <= self.lexems@.len()
    }

    pub fn new() -> (r: Parser)
        ensures
            r.output().len() == 0,
            r.file().len() == 0,
    {
        let r = Parser { source_filename: String::new(), cursor: 0, lexems: Vec::new(), tokens: Vec::new() };
        assert(tokens_view(r.tokens@) =~= Seq::<TokenV>::empty());
        r
    }

    /// The instructions produced.
    pub fn tokens(&self) -> (r: &Vec<Token>)
        ensures
            tokens_view(r@) == self.output(),
    {
        &self.tokens
    }

    /// The name of the file the units came from.
    pub closed spec fn file(&self) -> Seq<char> {
        self.source_filename@
    }

    /// The name of the file the units came from.
    pub fn source_filename(&self) -> (r: &String)
        ensures
            r@ == self.file(),
    {
        &self.source_filename
    }

    fn peek_lexem(&self) -> (r: Option<&Lexem>)
        ensures
            self.cursor < self.lexems@.len() ==> r == Some(&self.lexems@[self.cursor as int]),
            self.cursor >= self.lexems@.len() ==> r is None,
    {
        if self.cursor >= self.lexems.len() {
            return None;
        }
        Some(&self.lexems[self.cursor])
    }

    fn chop_newline(&mut self)
        requires
            old(self).inv(),
        ensures
            final(self).inv(),
            final(self).lexems == old(self).lexems,
            final(self).source_filename == old(self).source_filename,
            final(self).tokens == old(self).tokens,
            final(self).cursor == skip_nl(old(self).units(), old(self).cursor as int),
    {
        while self.cursor < self.lexems.len() && self.lexems[self.cursor].ttype == LexemType::NewLine
            invariant
                self.inv(),
                self.lexems == old(self).lexems,
                self.source_filename == old(self).source_filename,
                self.tokens == old(self).tokens,
                skip_nl(self.units(), self.cursor as int) == skip_nl(old(self).units(), old(self).cursor as int),
            decreases self.lexems@.len() - self.cursor,
        {
            self.cursor += 1;
        }
    }

    fn chop_lexem(&mut self) -> (r: Lexem)
        requires
            old(self).cursor < old(self).lexems@.len(),
        ensures
            final(self).inv(),
            final(self).lexems == old(self).lexems,
            final(self).source_filename == old(self).source_filename,
            final(self).tokens == old(self).tokens,
            final(self).cursor == old(self).cursor + 1,
            r@ == old(self).units()[old(self).cursor as int],
    {
        let n = self.lexems.len();
        let l = self.lexems[self.cursor].duplicate();
        self.cursor += 1;
        l
    }

    fn push_token(&mut self, t: Token)
        ensures
            final(self).lexems == old(self).lexems,
            final(self).source_filename == old(self).source_filename,
            final(self).cursor == old(self).cursor,
            final(self).output() == old(self).output().push(t@),
    {
        let ghost before = self.tokens@;
        self.tokens.push(t);
        assert(tokens_view(self.tokens@) =~= tokens_view(before).push(t@));
    }

    fn parse_lexem_label(&mut self) -> (r: bool)
        requires
            old(self).inv(),
        ensures
            final(self).inv(),
            final(self).lexems == old(self).lexems,
            final(self).source_filename == old(self).source_filename,
            ({
                let ls = old(self).units();
                let j = skip_nl(ls, old(self).cursor as int);
                if label_at(ls, j) {
                    &&& r
                    &&& final(self).cursor == j + 2
                    &&& final(self).output() == old(self).output().push(TokenV::Label { name: ls[j] })
                } else {
                    !r && final(self).cursor == old(self).cursor && final(self).tokens == old(self).tokens
                }
            }),
    {
        let initial_cursor = self.cursor;
        self.chop_newline();
        if self.lexems.len() - self.cursor < 2 {
            self.cursor = initial_cursor;
            return false;
        }
        if self.lexems[self.cursor].ttype != LexemType::Ident || !is_single_exec(&self.lexems[self.cursor + 1], ':') {
            self.cursor = initial_cursor;
            return false;
        }
        let label_name = self.chop_lexem();
        self.cursor += 1;
        self.push_token(Token::Label { name: label_name });
        true
    }

    fn parse_args(&mut self) -> (r: Result<Vec<Lexem>, AsmError>)
        requires
            old(self).inv(),
        ensures
            final(self).inv(),
            final(self).lexems == old(self).lexems,
            final(self).source_filename == old(self).source_filename,
            final(self).tokens == old(self).tokens,
            match args_spec(old(self).units(), old(self).cursor as int) {
                Ok((a, k)) => r matches Ok(v) && lexems_view(v@) == a && final(self).cursor == k,
                Err(e) => r == Err::<Vec<Lexem>, AsmError>(e),
            },
    {
        let ghost ls = self.units();
        let mut args: Vec<Lexem> = Vec::new();
        if self.cursor >= self.lexems.len() || self.lexems[self.cursor].ttype == LexemType::NewLine {
            assert(lexems_view(args@) =~= Seq::<LexemV>::empty());
            return Ok(args);
        }
        if !is_arg_exec(&self.lexems[self.cursor]) {
            let l = &self.lexems[self.cursor];
            return Err(AsmError { kind: ErrorKind::ExpectedArgument, row: l.row, col: l.col });
        }
        let first = self.chop_lexem();
        args.push(first);
        assert(lexems_view(args@) =~= seq![ls[self.cursor - 1]]);
        while self.cursor < self.lexems.len() && is_single_exec(&self.lexems[self.cursor], ',')
            invariant
                self.inv(),
                ls == self.units(),
                self.lexems == old(self).lexems,
                self.source_filename == old(self).source_filename,
                self.tokens == old(self).tokens,
                args_spec(ls, old(self).cursor as int) == args_from(ls, self.cursor as int, lexems_view(args@)),
            decreases self.lexems@.len() - self.cursor,
        {
            let comma = self.chop_lexem();
            if self.cursor >= self.lexems.len() {
                let col = if comma.col < usize::MAX { comma.col + 1 } else { comma.col };
                return Err(AsmError { kind: ErrorKind::ExpectedArgument, row: comma.row, col });
            }
            let arg = self.chop_lexem();
            if !is_arg_exec(&arg) {
                return Err(AsmError { kind: ErrorKind::ExpectedArgument, row: arg.row, col: arg.col });
            }
            let ghost before = args@;
            args.push(arg);
            assert(lexems_view(args@) =~= lexems_view(before).push(arg@));
        }
        Ok(args)
    }

    fn parse_lexem_instruction(&mut self) -> (r: Result<bool, AsmError>)
        requires
            old(self).inv(),
        ensures
            final(self).inv(),
            final(self).lexems == old(self).lexems,
            final(self).source_filename == old(self).source_filename,
            ({
                let ls = old(self).units();
                let j = skip_nl(ls, old(self).cursor as int);
                if 0 <= j < ls.len() && ls[j].ttype == LexemType::Ident {
                    match args_spec(ls, j + 1) {
                        Ok((a, k)) => {
                            &&& r == Ok::<bool, AsmError>(true)
                            &&& final(self).cursor == k
                            &&& final(self).output() == old(self).output().push(TokenV::Instruction { name: ls[j], args: a })
                        },
                        Err(e) => r == Err::<bool, AsmError>(e),
                    }
                } else {
                    r == Ok::<bool, AsmError>(false) && final(self).cursor == old(self).cursor && final(self).tokens == old(self).tokens
                }
            }),
    {
        let initial_cursor = self.cursor;
        self.chop_newline();
        if self.cursor >= self.lexems.len() || self.lexems[self.cursor].ttype != LexemType::Ident {
            self.cursor = initial_cursor;
            return Ok(false);
        }
        let name = self.chop_lexem();
        let args = self.parse_args()?;
        self.push_token(Token::Instruction { name, args });
        Ok(true)
    }

    fn parse_token(&mut self) -> (r: Result<(), AsmError>)
        requires
            old(self).inv(),
        ensures
            final(self).inv(),
            final(self).lexems == old(self).lexems,
            final(self).source_filename == old(self).source_filename,
            match stmt_step(old(self).units(), old(self).cursor as int) {
                PStep::End => {
                    &&& r is Ok
                    &&& final(self).cursor >= final(self).lexems@.len()
                    &&& final(self).tokens == old(self).tokens
                },
                PStep::Emit(t, n) => {
                    &&& r is Ok
                    &&& final(self).cursor == n
                    &&& old(self).cursor < n <= old(self).lexems@.len()
                    &&& final(self).output() == old(self).output().push(t)
                },
                PStep::Fail(e) => r == Err::<(), AsmError>(e),
            },
    {
        let ghost ls = self.units();
        let ghost i = self.cursor as int;
        proof {
            lemma_skip_nl_ge(ls, i);
            let j = skip_nl(ls, i);
            if 0 <= j < ls.len() {
                lemma_args_end(ls, j + 1);
            }
        }
        if self.parse_lexem_label() {
            return Ok(());
        }
        if self.parse_lexem_instruction()? {
            if let Some(l) = self.peek_lexem() {
                if l.ttype != LexemType::NewLine {
                    return Err(AsmError { kind: ErrorKind::UnexpectedToken, row: l.row, col: l.col });
                }
            }
            return Ok(());
        }
        self.chop_newline();
        if self.cursor >= self.lexems.len() {
            return Ok(());
        }
        let l = &self.lexems[self.cursor];
        Err(AsmError { kind: ErrorKind::UnexpectedToken, row: l.row, col: l.col })
    }

    /// Stage one alone: groups the units into labels and instructions.
    pub fn first_stage_parse(&mut self, source_filename: &str, lexems: &Vec<Lexem>) -> (r: Result<(), AsmError>)
        ensures
            final(self).units() == lexems_view(lexems@),
            final(self).file() == source_filename@,
            match stage_one(lexems_view(lexems@)) {
                Ok(ts) => r is Ok && final(self).output() == ts,
                Err(e) => r == Err::<(), AsmError>(e),
            },
    {
        self.source_filename = String::from_str(source_filename);
        self.lexems = copy_lexems(lexems);
        self.cursor = 0;
        self.tokens = Vec::new();
        let ghost ls = self.units();
        assert(tokens_view(self.tokens@) =~= Seq::<TokenV>::empty());
        assert(prepend_tokens(Seq::empty(), stmts_from(ls, 0)) =~= stmts_from(ls, 0)) by {
            match stmts_from(ls, 0) {
                Ok(v) => { assert(Seq::<TokenV>::empty() + v =~= v); },
                Err(_) => {},
            }
        }
        while self.cursor < self.lexems.len()
            invariant
                self.inv(),
                self.units() == ls,
                ls == lexems_view(lexems@),
                self.source_filename@ == source_filename@,
                stage_one(ls) == prepend_tokens(self.output(), stmts_from(ls, self.cursor as int)),
            decreases ls.len() - self.cursor,
        {
            let ghost i = self.cursor as int;
            let ghost before = self.output();
            self.parse_token()?;
            proof {
                match stmt_step(ls, i) {
                    PStep::Emit(t, n) => {
                        match stmts_from(ls, n) {
                            Ok(rest) => { assert(before.push(t) + rest =~= before + (seq![t] + rest)); },
                            Err(_) => {},
                        }
                    },
                    _ => {},
                }
            }
        }
        proof {
            assert(skip_nl(ls, self.cursor as int) == self.cursor as int);
            let v = self.output();
            assert(v + Seq::<TokenV>::empty() =~= v);
        }
        Ok(())
    }
}

pub open spec fn prepend_tokens(p: Seq<TokenV>, r: Result<Seq<TokenV>, AsmError>) -> Result<Seq<TokenV>, AsmError> {
    match r {
        Ok(v) => Ok(p + v),
        Err(e) => Err(e),
    }
}

proof fn lemma_skip_nl_ge(ls: Seq<LexemV>, i: int)
    requires
        0 <= i,
    ensures
        i <= skip_nl(ls, i),
        skip_nl(ls, i) <= ls.len() || skip_nl(ls, i) == i,
    decreases ls.len() - i,
{
    if i < ls.len() && ls[i].ttype == LexemType::NewLine {
        lemma_skip_nl_ge(ls, i + 1);
    }
}

proof fn lemma_args_from_end(ls: Seq<LexemV>, k: int, acc: Seq<LexemV>)
    requires
        0 <= k <= ls.len(),
    ensures
        args_from(ls, k, acc) matches Ok((_, n)) ==> k <= n <= ls.len(),
    decreases ls.len() - k,
{
    if k < ls.len() && is_single(ls[k], ',') && k + 1 < ls.len() && is_arg(ls[k + 1]) {
        lemma_args_from_end(ls, k + 2, acc.push(ls[k + 1]));
    }
}

proof fn lemma_args_end(ls: Seq<LexemV>, k: int)
    requires
        0 <= k <= ls.len(),
    ensures
        args_spec(ls, k) matches Ok((_, n)) ==> k <= n <= ls.len(),
{
    if k < ls.len() && ls[k].ttype != LexemType::NewLine && is_arg(ls[k]) {
        lemma_args_from_end(ls, k + 1, seq![ls[k]]);
    }
}


// ---- stage three: layout and resolution ----

/// The `org` directive, named in any case.
pub open spec fn is_org(name: Seq<char>) -> bool {
    lower(name) == "org"@
}

/// Bytes per value of a data directive (named in any case).
pub open spec fn data_width(name: Seq<char>) -> Option<nat> {
    let l = lower(name);
    if l == "db"@ { Some(1) }
    else if l == "dw"@ { Some(2) }
    else if l == "dd"@ { Some(4) }
    else if l == "dq"@ { Some(8) }
    else { None }
}

/// Bytes one argument of a data directive takes: one value for a number or
/// a label, one value per character for a string.
pub open spec fn arg_bytes(a: LexemV, w: nat) -> nat {
    match a.ttype {
        LexemType::Ident => w,
        LexemType::Number { .. } => w,
        LexemType::String => a.value.len() * w,
        _ => 0,
    }
}

pub open spec fn data_bytes(args: Seq<LexemV>, w: nat) -> nat
    decreases args.len(),
{
    if args.len() == 0 {
        0
    } else {
        data_bytes(args.drop_last(), w) + arg_bytes(args.last(), w)
    }
}

/// Words a statement advances the address by: one for an instruction, half
/// its byte count for a data directive; `None` past 64 bits.
pub open spec fn unit_words(name: Seq<char>, args: Seq<LexemV>) -> Option<nat> {
    match data_width(name) {
        Some(w) => if data_bytes(args, w) <= u64::MAX { Some(data_bytes(args, w) / 2) } else { None },
        None => Some(1),
    }
}

/// Address bookkeeping while laying out: `org` value, words since it, the
/// labels defined so far (later entries win), and the statements kept.
pub struct Layout {
    pub origin: nat,
    pub cursor: nat,
    pub labels: Seq<(Seq<char>, nat)>,
    pub kept: Seq<TokenV>,
}

pub open spec fn label_lookup(labels: Seq<(Seq<char>, nat)>, k: Seq<char>) -> Option<nat>
    decreases labels.len(),
{
    if labels.len() == 0 {
        None
    } else if labels.last().0 == k {
        Some(labels.last().1)
    } else {
        label_lookup(labels.drop_last(), k)
    }
}

pub open spec fn layout_step(st: Layout, t: TokenV, table: Seq<PseudoV>) -> Result<Layout, AsmError> {
    match t {
        TokenV::Label { name } => {
            if st.origin + st.cursor > u64::MAX {
                Err(err_at(ErrorKind::AddressOverflow, name))
            } else {
                Ok(Layout { labels: st.labels.push((name.value, st.origin + st.cursor)), ..st })
            }
        },
        TokenV::Instruction { name, args } => {
            if is_org(name.value) {
                if args.len() != 1 {
                    Err(err_at(ErrorKind::OrgArity, name))
                } else if !(args[0].ttype is Number) {
                    Err(err_at(ErrorKind::OrgExpectsNumber, args[0]))
                } else {
                    match number_of(args[0]) {
                        Ok(v) => Ok(Layout { origin: v as nat, cursor: 0, ..st }),
                        Err(e) => Err(e),
                    }
                }
            } else {
                match find_pseudo(table, name.value) {
                    Some(p) => {
                        if args.len() != p.arity {
                            Err(err_at(ErrorKind::PseudoArity, name))
                        } else if st.cursor + p.body.len() > u64::MAX {
                            Err(err_at(ErrorKind::AddressOverflow, name))
                        } else {
                            Ok(Layout { cursor: st.cursor + p.body.len(), kept: st.kept.push(t), ..st })
                        }
                    },
                    None => match unit_words(name.value, args) {
                        Some(n) => {
                            if st.cursor + n > u64::MAX {
                                Err(err_at(ErrorKind::AddressOverflow, name))
                            } else {
                                Ok(Layout { cursor: st.cursor + n, kept: st.kept.push(t), ..st })
                            }
                        },
                        None => Err(err_at(ErrorKind::AddressOverflow, name)),
                    },
                }
            }
        },
    }
}

/// The layout after the statements `ts`, from origin 0.
pub open spec fn layout(ts: Seq<TokenV>, table: Seq<PseudoV>) -> Result<Layout, AsmError>
    decreases ts.len(),
{
    if ts.len() == 0 {
        Ok(Layout { origin: 0, cursor: 0, labels: Seq::empty(), kept: Seq::empty() })
    } else {
        match layout(ts.drop_last(), table) {
            Ok(st) => layout_step(st, ts.last(), table),
            Err(e) => Err(e),
        }
    }
}

/// An argument with a label reference replaced by the label's address. An
/// identifier that is no label may still name a condition.
pub open spec fn resolve_arg(a: LexemV, labels: Seq<(Seq<char>, nat)>) -> Result<LexemV, AsmError> {
    if a.ttype == LexemType::Ident {
        match label_lookup(labels, a.value) {
            Some(v) => Ok(LexemV { value: dec_digits(v), ttype: LexemType::Number { radix: 10 }, row: a.row, col: a.col }),
            None => if condition_value(a.value) is Some { Ok(a) } else { Err(err_at(ErrorKind::UndeclaredLabel, a)) },
        }
    } else {
        Ok(a)
    }
}

pub open spec fn resolve_args(args: Seq<LexemV>, labels: Seq<(Seq<char>, nat)>) -> Result<Seq<LexemV>, AsmError>
    decreases args.len(),
{
    if args.len() == 0 {
        Ok(Seq::empty())
    } else {
        match resolve_args(args.drop_last(), labels) {
            Err(e) => Err(e),
            Ok(v) => match resolve_arg(args.last(), labels) {
                Err(e) => Err(e),
                Ok(a) => Ok(v.push(a)),
            },
        }
    }
}

pub open spec fn resolve_token(t: TokenV, labels: Seq<(Seq<char>, nat)>) -> Result<TokenV, AsmError> {
    match t {
        TokenV::Instruction { name, args } => match resolve_args(args, labels) {
            Ok(a) => Ok(TokenV::Instruction { name, args: a }),
            Err(e) => Err(e),
        },
        TokenV::Label { .. } => Ok(t),
    }
}

pub open spec fn resolve_all(ts: Seq<TokenV>, labels: Seq<(Seq<char>, nat)>) -> Result<Seq<TokenV>, AsmError>
    decreases ts.len(),
{
    if ts.len() == 0 {
        Ok(Seq::empty())
    } else {
        match resolve_all(ts.drop_last(), labels) {
            Err(e) => Err(e),
            Ok(v) => match resolve_token(ts.last(), labels) {
                Err(e) => Err(e),
                Ok(t) => Ok(v.push(t)),
            },
        }
    }
}

/// Lays out, then resolves every label reference.
pub open spec fn resolution(ts: Seq<TokenV>, table: Seq<PseudoV>) -> Result<Seq<TokenV>, AsmError> {
    match layout(ts, table) {
        Ok(st) => resolve_all(st.kept, st.labels),
        Err(e) => Err(e),
    }
}

/// The whole parse: statements, layout and resolution, then expansion.
pub open spec fn parse_spec(ls: Seq<LexemV>) -> Result<Seq<TokenV>, AsmError> {
    match stage_one(ls) {
        Err(e) => Err(e),
        Ok(ts) => match resolution(ts, pseudo_table()) {
            Err(e) => Err(e),
            Ok(rs) => expand_all(rs, pseudo_table()),
        },
    }
}


pub open spec fn labels_view(v: Seq<(String, u64)>) -> Seq<(Seq<char>, nat)> {
    v.map_values(|p: (String, u64)| (p.0@, p.1 as nat))
}

pub(crate) fn data_width_exec(name: &String) -> (r: Option<u64>)
    ensures
        r matches Some(w) ==> data_width(name@) == Some(w as nat) && 1 <= w <= 8,
        r is None ==> data_width(name@) is None,
{
    if lowered_is(name, "db") { Some(1) }
    else if lowered_is(name, "dw") { Some(2) }
    else if lowered_is(name, "dd") { Some(4) }
    else if lowered_is(name, "dq") { Some(8) }
    else { None }
}

proof fn lemma_data_bytes_monotone(args: Seq<LexemV>, w: nat, k: int)
    requires
        0 <= k <= args.len(),
    ensures
        data_bytes(args.subrange(0, k), w) <= data_bytes(args, w),
    decreases args.len(),
{
    if k == args.len() {
        assert(args.subrange(0, k) =~= args);
    } else {
        assert(args.drop_last().subrange(0, k) =~= args.subrange(0, k));
        lemma_data_bytes_monotone(args.drop_last(), w, k);
    }
}

fn data_bytes_exec(args: &Vec<Lexem>, w: u64) -> (r: Option<u64>)
    requires
        1 <= w <= 8,
    ensures
        r matches Some(b) ==> data_bytes(lexems_view(args@), w as nat) == b,
        r is None ==> data_bytes(lexems_view(args@), w as nat) > u64::MAX,
{
    let ghost av = lexems_view(args@);
    let mut total: u64 = 0;
    let mut i: usize = 0;
    while i < args.len()
        invariant
            0 <= i <= args@.len(),
            1 <= w <= 8,
            av == lexems_view(args@),
            data_bytes(av.subrange(0, i as int), w as nat) == total,
        decreases args@.len() - i,
    {
        let ghost pre = av.subrange(0, i + 1);
        assert(pre.drop_last() =~= av.subrange(0, i as int));
        let a = &args[i];
        let add: u64 = match a.ttype {
            LexemType::Ident => w,
            LexemType::Number { .. } => w,
            LexemType::String => {
                let n = a.value.as_str().unicode_len();
                if n as u64 > (u64::MAX - total) / w {
                    proof {
                        assert(n * w > u64::MAX - total) by (nonlinear_arith)
                            requires n as u64 > (u64::MAX - total) / (w as int), w >= 1;
                        lemma_data_bytes_monotone(av, w as nat, i + 1);
                    }
                    return None;
                }
                proof {
                    assert(n * w <= u64::MAX - total) by (nonlinear_arith)
                        requires n as u64 <= (u64::MAX - total) / (w as int), w >= 1;
                }
                n as u64 * w
            },
            _ => 0,
        };
        if add > u64::MAX - total {
            proof {
                lemma_data_bytes_monotone(av, w as nat, i + 1);
            }
            return None;
        }
        total = total + add;
        i = i + 1;
    }
    assert(av.subrange(0, args@.len() as int) =~= av);
    Some(total)
}

fn label_lookup_exec(labels: &Vec<(String, u64)>, k: &String) -> (r: Option<u64>)
    ensures
        r matches Some(v) ==> label_lookup(labels_view(labels@), k@) == Some(v as nat),
        r is None ==> label_lookup(labels_view(labels@), k@) is None,
{
    let ghost lv = labels_view(labels@);
    let mut i: usize = labels.len();
    assert(lv.subrange(0, i as int) =~= lv);
    while i > 0
        invariant
            0 <= i <= labels@.len(),
            lv == labels_view(labels@),
            label_lookup(lv, k@) == label_lookup(lv.subrange(0, i as int), k@),
        decreases i,
    {
        let ghost pre = lv.subrange(0, i as int);
        assert(pre.drop_last() =~= lv.subrange(0, i - 1));
        if labels[i - 1].0 == *k {
            return Some(labels[i - 1].1);
        }
        i = i - 1;
    }
    None
}

proof fn lemma_layout_prefix_err(ts: Seq<TokenV>, table: Seq<PseudoV>, j: int)
    requires
        0 <= j <= ts.len(),
        layout(ts.subrange(0, j), table) is Err,
    ensures
        layout(ts, table) == layout(ts.subrange(0, j), table),
    decreases ts.len(),
{
    if j == ts.len() {
        assert(ts.subrange(0, j) =~= ts);
    } else {
        assert(ts.drop_last().subrange(0, j) =~= ts.subrange(0, j));
        lemma_layout_prefix_err(ts.drop_last(), table, j);
    }
}

/// Lays the statements out: the labels with their addresses, and the
/// statements that stay (no label, no `org`).
fn lay_out(ts: &Vec<Token>, table: &Vec<PseudoInstruction>) -> (r: Result<(Vec<(String, u64)>, Vec<Token>), AsmError>)
    ensures
        match layout(tokens_view(ts@), pseudo_view(table@)) {
            Ok(st) => r matches Ok((l, k)) && labels_view(l@) == st.labels && tokens_view(k@) == st.kept,
            Err(e) => r == Err::<(Vec<(String, u64)>, Vec<Token>), AsmError>(e),
        },
{
    let ghost tv = tokens_view(ts@);
    let ghost pt = pseudo_view(table@);
    let mut origin: u64 = 0;
    let mut cursor: u64 = 0;
    let mut labels: Vec<(String, u64)> = Vec::new();
    let mut kept: Vec<Token> = Vec::new();
    let mut i: usize = 0;
    assert(tv.subrange(0, 0) =~= Seq::<TokenV>::empty());
    assert(labels_view(labels@) =~= Seq::<(Seq<char>, nat)>::empty());
    assert(tokens_view(kept@) =~= Seq::<TokenV>::empty());
    while i < ts.len()
        invariant
            0 <= i <= ts@.len(),
            tv == tokens_view(ts@),
            pt == pseudo_view(table@),
            layout(tv.subrange(0, i as int), pt) == Ok::<Layout, AsmError>(Layout {
                origin: origin as nat,
                cursor: cursor as nat,
                labels: labels_view(labels@),
                kept: tokens_view(kept@),
            }),
        decreases ts@.len() - i,
    {
        let ghost pre = tv.subrange(0, i + 1);
        assert(pre.drop_last() =~= tv.subrange(0, i as int));
        assert(pre.last() == ts@[i as int]@);
        let ghost st = layout(tv.subrange(0, i as int), pt)->Ok_0;
        match &ts[i] {
            Token::Label { name } => {
                if origin > u64::MAX - cursor {
                    proof {
                        lemma_layout_prefix_err(tv, pt, i + 1);
                    }
                    return Err(AsmError { kind: ErrorKind::AddressOverflow, row: name.row, col: name.col });
                }
                let ghost lb = labels@;
                labels.push((name.value.clone(), origin + cursor));
                assert(labels_view(labels@) =~= labels_view(lb).push((name.value@, (origin + cursor) as nat)));
            },
            Token::Instruction { name, args } => {
                if lowered_is(&name.value, "org") {
                    if args.len() != 1 {
                        proof {
                            lemma_layout_prefix_err(tv, pt, i + 1);
                        }
                        return Err(AsmError { kind: ErrorKind::OrgArity, row: name.row, col: name.col });
                    }
                    let arg = &args[0];
                    assert(lexems_view(args@)[0] == arg@);
                    if !matches!(arg.ttype, LexemType::Number { .. }) {
                        proof {
                            lemma_layout_prefix_err(tv, pt, i + 1);
                        }
                        return Err(AsmError { kind: ErrorKind::OrgExpectsNumber, row: arg.row, col: arg.col });
                    }
                    match get_value_from_number_token(arg) {
                        Ok(v) => {
                            origin = v;
                            cursor = 0;
                        },
                        Err(e) => {
                            proof {
                                lemma_layout_prefix_err(tv, pt, i + 1);
                            }
                            return Err(e);
                        },
                    }
                } else {
                    let words: u64 = match find_pseudo_exec(table, &name.value) {
                        Some(p) => {
                            if args.len() != p.params.len() {
                                proof {
                                    lemma_layout_prefix_err(tv, pt, i + 1);
                                }
                                return Err(AsmError { kind: ErrorKind::PseudoArity, row: name.row, col: name.col });
                            }
                            p.body.len() as u64
                        },
                        None => match data_width_exec(&name.value) {
                        Some(w) => match data_bytes_exec(args, w) {
                            Some(b) => b / 2,
                            None => {
                                proof {
                                    lemma_layout_prefix_err(tv, pt, i + 1);
                                }
                                return Err(AsmError { kind: ErrorKind::AddressOverflow, row: name.row, col: name.col });
                            },
                        },
                        None => 1,
                        },
                    };
                    if words > u64::MAX - cursor {
                        proof {
                            lemma_layout_prefix_err(tv, pt, i + 1);
                        }
                        return Err(AsmError { kind: ErrorKind::AddressOverflow, row: name.row, col: name.col });
                    }
                    cursor = cursor + words;
                    let ghost kb = kept@;
                    kept.push(ts[i].duplicate());
                    assert(tokens_view(kept@) =~= tokens_view(kb).push(ts@[i as int]@));
                }
            },
        }
        i = i + 1;
    }
    assert(tv.subrange(0, ts@.len() as int) =~= tv);
    Ok((labels, kept))
}


proof fn lemma_resolve_args_prefix_err(args: Seq<LexemV>, labels: Seq<(Seq<char>, nat)>, j: int)
    requires
        0 <= j <= args.len(),
        resolve_args(args.subrange(0, j), labels) is Err,
    ensures
        resolve_args(args, labels) == resolve_args(args.subrange(0, j), labels),
    decreases args.len(),
{
    if j == args.len() {
        assert(args.subrange(0, j) =~= args);
    } else {
        assert(args.drop_last().subrange(0, j) =~= args.subrange(0, j));
        lemma_resolve_args_prefix_err(args.drop_last(), labels, j);
    }
}

proof fn lemma_resolve_all_prefix_err(ts: Seq<TokenV>, labels: Seq<(Seq<char>, nat)>, j: int)
    requires
        0 <= j <= ts.len(),
        resolve_all(ts.subrange(0, j), labels) is Err,
    ensures
        resolve_all(ts, labels) == resolve_all(ts.subrange(0, j), labels),
    decreases ts.len(),
{
    if j == ts.len() {
        assert(ts.subrange(0, j) =~= ts);
    } else {
        assert(ts.drop_last().subrange(0, j) =~= ts.subrange(0, j));
        lemma_resolve_all_prefix_err(ts.drop_last(), labels, j);
    }
}

fn resolve_args_exec(args: &Vec<Lexem>, labels: &Vec<(String, u64)>) -> (r: Result<Vec<Lexem>, AsmError>)
    ensures
        match resolve_args(lexems_view(args@), labels_view(labels@)) {
            Ok(v) => r matches Ok(x) && lexems_view(x@) == v,
            Err(e) => r == Err::<Vec<Lexem>, AsmError>(e),
        },
{
    let ghost av = lexems_view(args@);
    let ghost lv = labels_view(labels@);
    let mut out: Vec<Lexem> = Vec::new();
    let mut i: usize = 0;
    assert(av.subrange(0, 0) =~= Seq::<LexemV>::empty());
    assert(lexems_view(out@) =~= Seq::<LexemV>::empty());
    while i < args.len()
        invariant
            0 <= i <= args@.len(),
            av == lexems_view(args@),
            lv == labels_view(labels@),
            resolve_args(av.subrange(0, i as int), lv) == Ok::<Seq<LexemV>, AsmError>(lexems_view(out@)),
        decreases args@.len() - i,
    {
        let ghost pre = av.subrange(0, i + 1);
        assert(pre.drop_last() =~= av.subrange(0, i as int));
        assert(pre.last() == args@[i as int]@);
        let a = &args[i];
        let resolved = if a.ttype == LexemType::Ident {
            match label_lookup_exec(labels, &a.value) {
                Some(v) => {
                    let digits = decimal_chars(v);
                    Lexem::new(string_of(&digits), LexemType::Number { radix: 10 }, a.row, a.col)
                },
                None => {
                    if condition_name(&a.value) {
                        a.duplicate()
                    } else {
                        proof {
                            lemma_resolve_args_prefix_err(av, lv, i + 1);
                        }
                        return Err(AsmError { kind: ErrorKind::UndeclaredLabel, row: a.row, col: a.col });
                    }
                },
            }
        } else {
            a.duplicate()
        };
        let ghost ob = out@;
        out.push(resolved);
        assert(lexems_view(out@) =~= lexems_view(ob).push(resolved@));
        i = i + 1;
    }
    assert(av.subrange(0, args@.len() as int) =~= av);
    Ok(out)
}

/// Replaces every label reference by the label's address.
fn resolve(ts: &Vec<Token>, labels: &Vec<(String, u64)>) -> (r: Result<Vec<Token>, AsmError>)
    ensures
        match resolve_all(tokens_view(ts@), labels_view(labels@)) {
            Ok(v) => r matches Ok(x) && tokens_view(x@) == v,
            Err(e) => r == Err::<Vec<Token>, AsmError>(e),
        },
{
    let ghost tv = tokens_view(ts@);
    let ghost lv = labels_view(labels@);
    let mut out: Vec<Token> = Vec::new();
    let mut i: usize = 0;
    assert(tv.subrange(0, 0) =~= Seq::<TokenV>::empty());
    assert(tokens_view(out@) =~= Seq::<TokenV>::empty());
    while i < ts.len()
        invariant
            0 <= i <= ts@.len(),
            tv == tokens_view(ts@),
            lv == labels_view(labels@),
            resolve_all(tv.subrange(0, i as int), lv) == Ok::<Seq<TokenV>, AsmError>(tokens_view(out@)),
        decreases ts@.len() - i,
    {
        let ghost pre = tv.subrange(0, i + 1);
        assert(pre.drop_last() =~= tv.subrange(0, i as int));
        assert(pre.last() == ts@[i as int]@);
        let t = match &ts[i] {
            Token::Instruction { name, args } => {
                match resolve_args_exec(args, labels) {
                    Ok(a) => Token::Instruction { name: name.duplicate(), args: a },
                    Err(e) => {
                        proof {
                            lemma_resolve_all_prefix_err(tv, lv, i + 1);
                        }
                        return Err(e);
                    },
                }
            },
            Token::Label { .. } => ts[i].duplicate(),
        };
        let ghost ob = out@;
        out.push(t);
        assert(tokens_view(out@) =~= tokens_view(ob).push(t@));
        i = i + 1;
    }
    assert(tv.subrange(0, ts@.len() as int) =~= tv);
    Ok(out)
}

impl Parser {
    /// Parses a unit sequence to resolved instructions: on success `tokens`
    /// holds them, with no label, no `org` and no label reference left.
    pub fn parse(&mut self, source_filename: &str, lexems: &Vec<Lexem>) -> (r: Result<(), AsmError>)
        ensures
            final(self).file() == source_filename@,
            match parse_spec(lexems_view(lexems@)) {
                Ok(ts) => r is Ok && final(self).output() == ts,
                Err(e) => r == Err::<(), AsmError>(e),
            },
    {
        self.first_stage_parse(source_filename, lexems)?;
        let table = pseudo_instructions();
        let (labels, kept) = lay_out(&self.tokens, &table)?;
        let resolved = resolve(&kept, &labels)?;
        let expanded = expand(&resolved, &table)?;
        self.tokens = expanded;
        Ok(())
    }
}

} // verus!
