//! The lexer: source text to positioned lexical units.
use vstd::prelude::*;
use crate::common::{AsmError, ErrorKind, is_register_name, mk_err, register_name};
use crate::number::{dec_digits, digit_exec, digit_of, digits_value, lemma_all_digits_some, lemma_decimal_round_trip};

verus! {

/// The kind of a lexical unit.
#[derive(Clone, Copy, Debug, PartialEq, Eq, Structural)]
pub enum LexemType {
    Ident,
    Register,
    Single,
    Number { radix: usize },
    String,
    NewLine,
}

/// A lexical unit: its text, its kind and where it starts.
#[derive(Clone, Debug)]
pub struct Lexem {
    pub value: String,
    pub ttype: LexemType,
    pub row: usize,
    pub col: usize,
}

/// The model of a lexical unit.
pub struct LexemV {
    pub value: Seq<char>,
    pub ttype: LexemType,
    pub row: usize,
    pub col: usize,
}

impl View for Lexem {
    type V = LexemV;

    open spec fn view(&self) -> LexemV {
        LexemV { value: self.value@, ttype: self.ttype, row: self.row, col: self.col }
    }
}

pub open spec fn lexems_view(ls: Seq<Lexem>) -> Seq<LexemV> {
    ls.map_values(|l: Lexem| l@)
}

impl Lexem {
    pub fn new(value: String, ttype: LexemType, row: usize, col: usize) -> (r: Lexem)
        ensures
            r@ == (LexemV { value: value@, ttype, row, col }),
    {
        Lexem { value, ttype, row, col }
    }

    /// A copy of the unit.
    pub fn duplicate(&self) -> (r: Lexem)
        ensures
            r@ == self@,
    {
        Lexem { value: self.value.clone(), ttype: self.ttype, row: self.row, col: self.col }
    }
}

/// A copy of a unit sequence.
pub fn copy_lexems(ls: &Vec<Lexem>) -> (r: Vec<Lexem>)
    ensures
        lexems_view(r@) == lexems_view(ls@),
{
    let mut r: Vec<Lexem> = Vec::new();
    let mut i: usize = 0;
    while i < ls.len()
        invariant
            0 <= i <= ls@.len(),
            lexems_view(r@) == lexems_view(ls@).subrange(0, i as int),
        decreases ls@.len() - i,
    {
        let ghost before = r@;
        r.push(ls[i].duplicate());
        assert(lexems_view(r@) =~= lexems_view(ls@).subrange(0, i + 1)) by {
            assert(lexems_view(r@) =~= lexems_view(before).push(ls@[i as int]@));
        }
        i = i + 1;
    }
    assert(lexems_view(ls@).subrange(0, ls@.len() as int) =~= lexems_view(ls@));
    r
}

/// Two kinds agree, a number of any radix matching a number of any other.
pub open spec fn same_kind(a: LexemType, b: LexemType) -> bool {
    match (a, b) {
        (LexemType::Number { .. }, LexemType::Number { .. }) => true,
        _ => a == b,
    }
}

/// Whether the unit is of one of the expected kinds.
pub fn expect_lexem_type(lexem: &Lexem, expected: &[LexemType]) -> (r: bool)
    ensures
        r == exists|i: int| 0 <= i < expected@.len() && same_kind(lexem.ttype, #[trigger] expected@[i]),
{
    let mut i: usize = 0;
    while i < expected.len()
        invariant
            0 <= i <= expected@.len(),
            forall|k: int| 0 <= k < i ==> !same_kind(lexem.ttype, #[trigger] expected@[k]),
        decreases expected@.len() - i,
    {
        let other = expected[i];
        let hit = match (lexem.ttype, other) {
            (LexemType::Number { .. }, LexemType::Number { .. }) => true,
            (a, b) => a == b,
        };
        if hit {
            return true;
        }
        i = i + 1;
    }
    false
}

// Character classes. For ASCII they are stated exactly; beyond ASCII they
// follow the Unicode tables that std consults.

pub open spec fn ascii_alnum(c: char) -> bool {
    ('0' <= c && c <= '9') || ('a' <= c && c <= 'z') || ('A' <= c && c <= 'Z')
}

pub open spec fn ascii_space(c: char) -> bool {
    c == ' ' || c == '\t' || c == '\n' || c == '\r' || c == '\x0B' || c == '\x0C'
}

/// What `char::is_alphanumeric` says of a character outside ASCII.
pub uninterp spec fn alphanumeric_of(c: char) -> bool;

/// What `char::is_whitespace` says of a character outside ASCII.
pub uninterp spec fn whitespace_of(c: char) -> bool;

/// What `char::is_numeric` says of a character outside ASCII.
pub uninterp spec fn numeric_of(c: char) -> bool;

pub open spec fn alnum(c: char) -> bool {
    if c <= '\x7f' { ascii_alnum(c) } else { alphanumeric_of(c) }
}

pub open spec fn space(c: char) -> bool {
    if c <= '\x7f' { ascii_space(c) } else { whitespace_of(c) }
}

pub open spec fn numeric(c: char) -> bool {
    if c <= '\x7f' { '0' <= c && c <= '9' } else { numeric_of(c) }
}

/// Relies on char::is_alphanumeric: on ASCII it holds of letters and digits.
#[verifier::external_body]
fn is_alnum(c: char) -> (r: bool)
    ensures
        r == (if c <= '\x7f' { ascii_alnum(c) } else { alphanumeric_of(c) }),
{
    c.is_alphanumeric()
}

/// Relies on char::is_whitespace: on ASCII it holds of space, tab, line
/// feed, vertical tab, form feed and carriage return.
#[verifier::external_body]
fn is_space(c: char) -> (r: bool)
    ensures
        r == (if c <= '\x7f' { ascii_space(c) } else { whitespace_of(c) }),
{
    c.is_whitespace()
}

/// Relies on char::is_numeric: on ASCII it holds of the decimal digits.
#[verifier::external_body]
fn is_numeric(c: char) -> (r: bool)
    ensures
        r == (if c <= '\x7f' { '0' <= c && c <= '9' } else { numeric_of(c) }),
{
    c.is_numeric()
}

/// Relies on `FromIterator<&char> for String`: the characters, in order.
#[verifier::external_body]
pub(crate) fn string_of(v: &Vec<char>) -> (r: String)
    ensures
        r@ == v@,
{
    v.iter().collect()
}

pub open spec fn ascii_lower(c: char) -> char {
    if 'A' <= c && c <= 'Z' { (((c as u32) + 32) as u8) as char } else { c }
}

pub open spec fn lower(w: Seq<char>) -> Seq<char> {
    w.map_values(|c: char| ascii_lower(c))
}

/// Whether a word, in ASCII lower case, is `lit`: directive names match in
/// any case.
pub fn lowered_is(s: &String, lit: &str) -> (r: bool)
    ensures
        r == (lower(s@) == lit@),
{
    let t = s.as_str();
    let n = t.unicode_len();
    let m = lit.unicode_len();
    if n != m {
        return false;
    }
    let mut i: usize = 0;
    while i < n
        invariant
            0 <= i <= n,
            n == s@.len(),
            m == lit@.len(),
            n == m,
            t@ == s@,
            forall|k: int| 0 <= k < i ==> lower(s@)[k] == lit@[k],
        decreases n - i,
    {
        let c = t.get_char(i);
        let lc = if 'A' <= c && c <= 'Z' { ((c as u8) + 32) as char } else { c };
        if lc != lit.get_char(i) {
            assert(lower(s@)[i as int] != lit@[i as int]);
            return false;
        }
        i = i + 1;
    }
    assert(lower(s@) =~= lit@);
    true
}

/// Row and column (from 1) of the character at index `i`.
pub open spec fn pos_at(s: Seq<char>, i: int) -> (int, int)
    decreases i,
{
    if i <= 0 {
        (1, 1)
    } else {
        let p = pos_at(s, i - 1);
        if s[i - 1] == '\n' { (p.0 + 1, 1) } else { (p.0, p.1 + 1) }
    }
}

pub proof fn lemma_pos_bounds(s: Seq<char>, i: int)
    requires
        0 <= i,
    ensures
        1 <= pos_at(s, i).0 <= i + 1,
        1 <= pos_at(s, i).1 <= i + 1,
    decreases i,
{
    if i > 0 {
        lemma_pos_bounds(s, i - 1);
    }
}

/// First index from `i` that is not blank within the line.
pub open spec fn skip_ws(s: Seq<char>, i: int) -> int
    decreases s.len() - i,
{
    if i < 0 || i >= s.len() || !space(s[i]) || s[i] == '\n' {
        i
    } else {
        skip_ws(s, i + 1)
    }
}

/// End of the run of alphanumeric characters from `i`.
pub open spec fn word_end(s: Seq<char>, i: int) -> int
    decreases s.len() - i,
{
    if i < 0 || i >= s.len() || !alnum(s[i]) {
        i
    } else {
        word_end(s, i + 1)
    }
}

/// Index of the first character of `w` that is no digit of `radix`.
pub open spec fn first_bad_digit(w: Seq<char>, radix: nat) -> int
    decreases w.len(),
{
    if w.len() == 0 {
        0
    } else if digit_of(w[0], radix) is None {
        0
    } else {
        1 + first_bad_digit(w.drop_first(), radix)
    }
}

/// The escape sequences a string may hold.
pub open spec fn escaped(e: char) -> Option<char> {
    if e == 'n' { Some('\n') }
    else if e == '0' { Some('\0') }
    else if e == '\\' { Some('\\') }
    else if e == '"' { Some('"') }
    else if e == '\'' { Some('\'') }
    else { None }
}

/// Reads the body of a string from index `m` on: its value and the index
/// after the closing quote.
pub open spec fn scan_string(s: Seq<char>, m: int, acc: Seq<char>) -> Result<(Seq<char>, int), AsmError>
    decreases s.len() - m,
{
    if m < 0 || m >= s.len() {
        Err(mk_err(ErrorKind::UnterminatedString, pos_at(s, m).0 as usize, pos_at(s, m).1 as usize))
    } else if s[m] == '"' || s[m] == '\'' {
        Ok((acc, m + 1))
    } else if s[m] == '\\' {
        if m + 1 >= s.len() {
            Err(mk_err(ErrorKind::UnterminatedString, pos_at(s, m + 1).0 as usize, pos_at(s, m + 1).1 as usize))
        } else {
            match escaped(s[m + 1]) {
                Some(x) => scan_string(s, m + 2, acc.push(x)),
                None => Err(mk_err(ErrorKind::UnknownEscape, pos_at(s, m + 1).0 as usize, pos_at(s, m + 1).1 as usize)),
            }
        }
    } else {
        scan_string(s, m + 1, acc.push(s[m]))
    }
}

proof fn lemma_skip_ws_ge(s: Seq<char>, i: int)
    requires
        0 <= i,
    ensures
        i <= skip_ws(s, i),
        skip_ws(s, i) <= s.len() || skip_ws(s, i) == i,
    decreases s.len() - i,
{
    if i < s.len() && space(s[i]) && s[i] != '\n' {
        lemma_skip_ws_ge(s, i + 1);
    }
}

proof fn lemma_word_end_ge(s: Seq<char>, i: int)
    requires
        0 <= i,
    ensures
        i <= word_end(s, i),
        word_end(s, i) <= s.len() || word_end(s, i) == i,
    decreases s.len() - i,
{
    if i < s.len() && alnum(s[i]) {
        lemma_word_end_ge(s, i + 1);
    }
}

proof fn lemma_scan_string_ends(s: Seq<char>, m: int, acc: Seq<char>)
    ensures
        scan_string(s, m, acc) matches Ok((_, n)) ==> m < n <= s.len(),
    decreases s.len() - m,
{
    if 0 <= m < s.len() && s[m] != '"' && s[m] != '\'' {
        if s[m] == '\\' {
            if m + 1 < s.len() {
                if let Some(x) = escaped(s[m + 1]) {
                    lemma_scan_string_ends(s, m + 2, acc.push(x));
                }
            }
        } else {
            lemma_scan_string_ends(s, m + 1, acc.push(s[m]));
        }
    }
}

/// One step of the lexer.
pub enum Step {
    End,
    Emit(LexemV, int),
    Fail(AsmError),
}

pub open spec fn unit(value: Seq<char>, ttype: LexemType, row: usize, col: usize) -> LexemV {
    LexemV { value, ttype, row, col }
}

/// A numeric literal after its radix prefix. With no digits after the
/// prefix it is a number unit with empty text, which fails where it is read.
pub open spec fn prefixed_literal(d: Seq<char>, radix: nat, bad: ErrorKind, row: usize, col: usize, next: int) -> Step {
    let m = first_bad_digit(d, radix);
    if m < d.len() {
        Step::Fail(mk_err(bad, row, (col + 2 + m) as usize))
    } else {
        Step::Emit(unit(d, LexemType::Number { radix: radix as usize }, row, col), next)
    }
}

/// How a word is classified: a hex or binary literal (prefix `0x`, `0b`), a
/// decimal literal (a word that starts with a numeric character, all of
/// whose characters must be decimal digits), a register name (any case;
/// kept in lower case), or an identifier.
pub open spec fn classify_word(w: Seq<char>, row: usize, col: usize, next: int) -> Step {
    if w.len() >= 2 && w[0] == '0' && w[1] == 'x' {
        prefixed_literal(w.subrange(2, w.len() as int), 16, ErrorKind::InvalidHexDigit, row, col, next)
    } else if w.len() >= 2 && w[0] == '0' && w[1] == 'b' {
        prefixed_literal(w.subrange(2, w.len() as int), 2, ErrorKind::InvalidBinDigit, row, col, next)
    } else if w.len() >= 1 && numeric(w[0]) {
        let m = first_bad_digit(w, 10);
        if m < w.len() {
            Step::Fail(mk_err(ErrorKind::InvalidDecDigit, row, (col + m) as usize))
        } else {
            Step::Emit(unit(w, LexemType::Number { radix: 10 }, row, col), next)
        }
    } else if is_register_name(lower(w)) {
        Step::Emit(unit(lower(w), LexemType::Register, row, col), next)
    } else {
        Step::Emit(unit(w, LexemType::Ident, row, col), next)
    }
}

/// The unit that starts at or after index `i`, after blanks.
pub open spec fn lex_step(s: Seq<char>, i: int) -> Step {
    let j = skip_ws(s, i);
    if j < 0 || j >= s.len() {
        Step::End
    } else {
        let c = s[j];
        let row = pos_at(s, j).0 as usize;
        let col = pos_at(s, j).1 as usize;
        if c == '\n' {
            Step::Emit(unit(seq!['\n'], LexemType::NewLine, row, col), j + 1)
        } else if c == ',' || c == ':' {
            Step::Emit(unit(seq![c], LexemType::Single, row, col), j + 1)
        } else if c == '"' || c == '\'' {
            match scan_string(s, j + 1, Seq::empty()) {
                Ok((v, n)) => Step::Emit(unit(v, LexemType::String, row, col), n),
                Err(e) => Step::Fail(e),
            }
        } else if alnum(c) {
            let k = word_end(s, j);
            classify_word(s.subrange(j, k), row, col, k)
        } else {
            Step::Fail(mk_err(ErrorKind::UnexpectedCharacter, row, col))
        }
    }
}

/// The units of `s` from index `i` on, or the first error.
pub open spec fn lex_from(s: Seq<char>, i: int) -> Result<Seq<LexemV>, AsmError>
    decreases s.len() - i,
{
    match lex_step(s, i) {
        Step::End => Ok(Seq::empty()),
        Step::Fail(e) => Err(e),
        Step::Emit(l, n) => {
            if i < n && n <= s.len() {
                match lex_from(s, n) {
                    Ok(rest) => Ok(seq![l] + rest),
                    Err(e) => Err(e),
                }
            } else {
                Ok(Seq::empty())
            }
        },
    }
}

/// The units of a whole source text, or the first error.
pub open spec fn lex_spec(s: Seq<char>) -> Result<Seq<LexemV>, AsmError> {
    lex_from(s, 0)
}


/// Prepends the units already read to the outcome of the rest.
pub open spec fn prepend(p: Seq<LexemV>, r: Result<Seq<LexemV>, AsmError>) -> Result<Seq<LexemV>, AsmError> {
    match r {
        Ok(v) => Ok(p + v),
        Err(e) => Err(e),
    }
}

fn char_string(c: char) -> (r: String)
    ensures
        r@ == seq![c],
{
    let mut v: Vec<char> = Vec::new();
    v.push(c);
    assert(v@ =~= seq![c]);
    string_of(&v)
}

/// The literal after a radix prefix: `w[2..]` checked digit by digit.
fn prefixed(w: &Vec<char>, radix: u32, bad: ErrorKind, row: usize, col: usize, Ghost(next): Ghost<int>) -> (r: Result<Lexem, AsmError>)
    requires
        radix == 2 || radix == 16,
        w@.len() >= 2,
        col + w@.len() <= usize::MAX,
    ensures
        match prefixed_literal(w@.subrange(2, w@.len() as int), radix as nat, bad, row, col, next) {
            Step::Emit(l, _) => r matches Ok(x) && x@ == l,
            Step::Fail(e) => r == Err::<Lexem, AsmError>(e),
            Step::End => false,
        },
{
    let n = w.len();
    let ghost d = w@.subrange(2, n as int);
    let mut digits: Vec<char> = Vec::new();
    let mut k: usize = 2;
    while k < n
        invariant
            2 <= k <= n,
            n == w@.len(),
            d == w@.subrange(2, n as int),
            radix == 2 || radix == 16,
            col + n <= usize::MAX,
            digits@ == w@.subrange(2, k as int),
            first_bad_digit(d, radix as nat) == (k - 2) + first_bad_digit(w@.subrange(k as int, n as int), radix as nat),
        decreases n - k,
    {
        let ghost rest = w@.subrange(k as int, n as int);
        assert(rest.drop_first() =~= w@.subrange(k + 1, n as int));
        let c = w[k];
        match digit_exec(c, radix) {
            Some(_) => {},
            None => {
                return Err(AsmError { kind: bad, row, col: col + k });
            },
        }
        digits.push(c);
        k = k + 1;
    }
    assert(digits@ =~= d);
    let value = string_of(&digits);
    Ok(Lexem::new(value, LexemType::Number { radix: radix as usize }, row, col))
}

/// Classifies a word that starts at `row`, `col`.
fn classify(w: &Vec<char>, row: usize, col: usize, Ghost(next): Ghost<int>) -> (r: Result<Lexem, AsmError>)
    requires
        col + w@.len() <= usize::MAX,
    ensures
        match classify_word(w@, row, col, next) {
            Step::Emit(l, _) => r matches Ok(x) && x@ == l,
            Step::Fail(e) => r == Err::<Lexem, AsmError>(e),
            Step::End => false,
        },
{
    let n = w.len();
    if n >= 2 && w[0] == '0' && w[1] == 'x' {
        return prefixed(w, 16, ErrorKind::InvalidHexDigit, row, col, Ghost(next));
    }
    if n >= 2 && w[0] == '0' && w[1] == 'b' {
        return prefixed(w, 2, ErrorKind::InvalidBinDigit, row, col, Ghost(next));
    }
    if n >= 1 && is_numeric(w[0]) {
        let mut k: usize = 0;
        assert(w@.subrange(0, n as int) =~= w@);
        while k < n
            invariant
                0 <= k <= n,
                n == w@.len(),
                col + n <= usize::MAX,
                !(w@.len() >= 2 && w@[0] == '0' && w@[1] == 'x'),
                !(w@.len() >= 2 && w@[0] == '0' && w@[1] == 'b'),
                n >= 1 && numeric(w@[0]),
                first_bad_digit(w@, 10) == k + first_bad_digit(w@.subrange(k as int, n as int), 10),
            decreases n - k,
        {
            let ghost rest = w@.subrange(k as int, n as int);
            assert(rest.drop_first() =~= w@.subrange(k + 1, n as int));
            assert(rest[0] == w@[k as int]);
            if digit_exec(w[k], 10).is_none() {
                assert(first_bad_digit(rest, 10) == 0);
                assert(first_bad_digit(w@, 10) == k);
                return Err(AsmError { kind: ErrorKind::InvalidDecDigit, row, col: col + k });
            }
            k = k + 1;
        }
        let value = string_of(w);
        return Ok(Lexem::new(value, LexemType::Number { radix: 10 }, row, col));
    }
    let mut low: Vec<char> = Vec::new();
    let mut k: usize = 0;
    while k < n
        invariant
            0 <= k <= n,
            n == w@.len(),
            low@ == lower(w@).subrange(0, k as int),
        decreases n - k,
    {
        let c = w[k];
        let lc = if 'A' <= c && c <= 'Z' { ((c as u8) + 32) as char } else { c };
        low.push(lc);
        assert(low@ =~= lower(w@).subrange(0, k + 1));
        k = k + 1;
    }
    assert(low@ =~= lower(w@));
    let low_text = string_of(&low);
    if register_name(&low_text) {
        Ok(Lexem::new(low_text, LexemType::Register, row, col))
    } else {
        Ok(Lexem::new(string_of(w), LexemType::Ident, row, col))
    }
}

/// Reads one source text into lexical units.
pub struct Lexer<'a> {
    source_filename: &'a str,
    chars: Vec<char>,
    cursor: usize,
    row: usize,
    col: usize,
    pub lexems: Vec<Lexem>,
}

impl<'a> Lexer<'a> {
    /// The source text being read.
    pub closed spec fn text(&self) -> Seq<char> {
        self.chars@
    }

    /// The units read so far.
    pub closed spec fn units(&self) -> Seq<LexemV> {
        lexems_view(self.lexems@)
    }

    /// The read position agrees with the row and column kept beside it.
    pub closed spec fn wf(&self) -> bool {
        &&& self.cursor <= self.chars@.len()
        &&& self.chars@.len() < usize::MAX
        &&& self.row as int == pos_at(self.chars@, self.cursor as int).0
        &&& self.col as int == pos_at(self.chars@, self.cursor as int).1
    }

    pub fn new(source_filename: &'a str, content: &'a str) -> (r: Lexer<'a>)
        requires
            content@.len() < usize::MAX,
        ensures
            r.wf(),
            r.text() == content@,
            r.file() == source_filename@,
            r.units().len() == 0,
    {
        let n = content.unicode_len();
        let mut chars: Vec<char> = Vec::new();
        let mut i: usize = 0;
        while i < n
            invariant
                0 <= i <= n,
                n == content@.len(),
                chars@ == content@.subrange(0, i as int),
            decreases n - i,
        {
            chars.push(content.get_char(i));
            assert(chars@ =~= content@.subrange(0, i + 1));
            i = i + 1;
        }
        assert(chars@ =~= content@);
        Lexer { source_filename, chars, cursor: 0, row: 1, col: 1, lexems: Vec::new() }
    }

    /// The units read.
    pub fn lexems(&self) -> (r: &Vec<Lexem>)
        ensures
            lexems_view(r@) == self.units(),
    {
        &self.lexems
    }

    /// The name of the file the text came from.
    pub closed spec fn file(&self) -> Seq<char> {
        self.source_filename@
    }

    /// The name of the file the text came from.
    pub fn source_filename(&self) -> (r: &'a str)
        ensures
            r@ == self.file(),
    {
        self.source_filename
    }

    fn peek(&self) -> (r: Option<char>)
        ensures
            r == (if self.cursor < self.chars@.len() { Some(self.chars@[self.cursor as int]) } else { None::<char> }),
    {
        if self.cursor < self.chars.len() { Some(self.chars[self.cursor]) } else { None }
    }

    fn chop(&mut self) -> (c: char)
        requires
            old(self).wf(),
            old(self).cursor < old(self).chars@.len(),
        ensures
            final(self).wf(),
            final(self).chars == old(self).chars,
            final(self).source_filename == old(self).source_filename,
            final(self).lexems == old(self).lexems,
            final(self).cursor == old(self).cursor + 1,
            c == old(self).chars@[old(self).cursor as int],
            c != '\n' ==> final(self).row == old(self).row && final(self).col == old(self).col + 1,
    {
        proof {
            lemma_pos_bounds(self.chars@, self.cursor as int);
        }
        let ch = self.chars[self.cursor];
        self.cursor += 1;
        self.col += 1;
        if ch == '\n' {
            self.row += 1;
            self.col = 1;
        }
        ch
    }

    fn seek_whitespace(&mut self)
        requires
            old(self).wf(),
        ensures
            final(self).wf(),
            final(self).chars == old(self).chars,
            final(self).source_filename == old(self).source_filename,
            final(self).lexems == old(self).lexems,
            final(self).cursor == skip_ws(old(self).chars@, old(self).cursor as int),
    {
        loop
            invariant
                self.wf(),
                self.chars == old(self).chars,
                self.source_filename == old(self).source_filename,
                self.lexems == old(self).lexems,
                skip_ws(self.chars@, self.cursor as int) == skip_ws(old(self).chars@, old(self).cursor as int),
            ensures
                skip_ws(self.chars@, self.cursor as int) == self.cursor as int,
            decreases self.chars@.len() - self.cursor,
        {
            match self.peek() {
                None => {
                    assert(skip_ws(self.chars@, self.cursor as int) == self.cursor as int);
                    break;
                },
                Some(c) => {
                    if !(is_space(c) && c != '\n') {
                        assert(skip_ws(self.chars@, self.cursor as int) == self.cursor as int);
                        break;
                    }
                },
            }
            self.chop();
        }
    }

    fn chop_single(&mut self) -> (r: bool)
        requires
            old(self).wf(),
            old(self).cursor < old(self).chars@.len(),
        ensures
            final(self).wf(),
            final(self).chars == old(self).chars,
            final(self).source_filename == old(self).source_filename,
            ({
                let c = old(self).chars@[old(self).cursor as int];
                if c == '\n' || c == ',' || c == ':' {
                    &&& r
                    &&& final(self).cursor == old(self).cursor + 1
                    &&& lexems_view(final(self).lexems@) == lexems_view(old(self).lexems@).push(unit(
                        seq![c],
                        if c == '\n' { LexemType::NewLine } else { LexemType::Single },
                        old(self).row,
                        old(self).col,
                    ))
                } else {
                    !r && *final(self) == *old(self)
                }
            }),
    {
        let c = self.chars[self.cursor];
        if c == '\n' || c == ',' || c == ':' {
            let row = self.row;
            let col = self.col;
            let ch = self.chop();
            let ttype = if ch == '\n' { LexemType::NewLine } else { LexemType::Single };
            let l = Lexem::new(char_string(ch), ttype, row, col);
            let ghost before = self.lexems@;
            self.lexems.push(l);
            assert(lexems_view(self.lexems@) =~= lexems_view(before).push(l@));
            return true;
        }
        false
    }

    fn chop_string(&mut self) -> (r: Result<bool, AsmError>)
        requires
            old(self).wf(),
            old(self).cursor < old(self).chars@.len(),
        ensures
            final(self).wf(),
            final(self).chars == old(self).chars,
            final(self).source_filename == old(self).source_filename,
            ({
                let s = old(self).chars@;
                let i = old(self).cursor as int;
                if s[i] == '"' || s[i] == '\'' {
                    match scan_string(s, i + 1, Seq::empty()) {
                        Ok((v, n)) => {
                            &&& r == Ok::<bool, AsmError>(true)
                            &&& final(self).cursor == n
                            &&& lexems_view(final(self).lexems@) == lexems_view(old(self).lexems@).push(
                                unit(v, LexemType::String, old(self).row, old(self).col))
                        },
                        Err(e) => r == Err::<bool, AsmError>(e),
                    }
                } else {
                    r == Ok::<bool, AsmError>(false) && *final(self) == *old(self)
                }
            }),
    {
        let c = self.chars[self.cursor];
        if c != '"' && c != '\'' {
            return Ok(false);
        }
        let row = self.row;
        let col = self.col;
        let ghost s = self.chars@;
        let ghost start = self.cursor as int;
        self.chop();
        let mut value: Vec<char> = Vec::new();
        loop
            invariant
                self.wf(),
                self.chars == old(self).chars,
                self.source_filename == old(self).source_filename,
                self.lexems == old(self).lexems,
                s == self.chars@,
                start == old(self).cursor as int,
                s[start] == '"' || s[start] == '\'',
                row == old(self).row,
                col == old(self).col,
                self.cursor > start,
                scan_string(s, start + 1, Seq::empty()) == scan_string(s, self.cursor as int, value@),
            decreases s.len() - self.cursor,
        {
            let c = match self.peek() {
                None => {
                    return Err(AsmError { kind: ErrorKind::UnterminatedString, row: self.row, col: self.col });
                },
                Some(c) => c,
            };
            if c == '"' || c == '\'' {
                self.chop();
                let l = Lexem::new(string_of(&value), LexemType::String, row, col);
                let ghost before = self.lexems@;
                self.lexems.push(l);
                assert(lexems_view(self.lexems@) =~= lexems_view(before).push(l@));
                return Ok(true);
            }
            if c == '\\' {
                self.chop();
                let e = match self.peek() {
                    None => {
                        return Err(AsmError { kind: ErrorKind::UnterminatedString, row: self.row, col: self.col });
                    },
                    Some(e) => e,
                };
                let x = if e == 'n' { '\n' } else if e == '0' { '\0' } else if e == '\\' { '\\' }
                    else if e == '"' { '"' } else if e == '\'' { '\'' } else {
                    return Err(AsmError { kind: ErrorKind::UnknownEscape, row: self.row, col: self.col });
                };
                self.chop();
                value.push(x);
            } else {
                self.chop();
                value.push(c);
            }
        }
    }

    fn chop_word(&mut self) -> (r: Result<bool, AsmError>)
        requires
            old(self).wf(),
            old(self).cursor < old(self).chars@.len(),
        ensures
            final(self).wf(),
            final(self).chars == old(self).chars,
            final(self).source_filename == old(self).source_filename,
            ({
                let s = old(self).chars@;
                let i = old(self).cursor as int;
                if alnum(s[i]) {
                    match classify_word(s.subrange(i, word_end(s, i)), old(self).row, old(self).col, word_end(s, i)) {
                        Step::Emit(l, n) => {
                            &&& r == Ok::<bool, AsmError>(true)
                            &&& final(self).cursor == n
                            &&& lexems_view(final(self).lexems@) == lexems_view(old(self).lexems@).push(l)
                        },
                        Step::Fail(e) => r == Err::<bool, AsmError>(e),
                        Step::End => false,
                    }
                } else {
                    r == Ok::<bool, AsmError>(false) && *final(self) == *old(self)
                }
            }),
    {
        let row = self.row;
        let col = self.col;
        let ghost s = self.chars@;
        let start = self.cursor;
        let mut w: Vec<char> = Vec::new();
        loop
            invariant
                self.wf(),
                self.chars == old(self).chars,
                self.source_filename == old(self).source_filename,
                self.lexems == old(self).lexems,
                s == self.chars@,
                start <= self.cursor,
                w@ == s.subrange(start as int, self.cursor as int),
                word_end(s, start as int) == word_end(s, self.cursor as int),
                self.cursor == start ==> *self == *old(self),
            ensures
                self.cursor >= s.len() || !alnum(s[self.cursor as int]),
            decreases s.len() - self.cursor,
        {
            let c = match self.peek() {
                None => break,
                Some(c) => c,
            };
            if !is_alnum(c) {
                break;
            }
            self.chop();
            w.push(c);
            assert(w@ =~= s.subrange(start as int, self.cursor as int));
        }
        if w.len() == 0 {
            return Ok(false);
        }
        proof {
            lemma_pos_bounds(s, start as int);
        }
        let l = classify(&w, row, col, Ghost(self.cursor as int))?;
        let ghost before = self.lexems@;
        self.lexems.push(l);
        assert(lexems_view(self.lexems@) =~= lexems_view(before).push(l@));
        Ok(true)
    }

    fn chop_lexem(&mut self) -> (r: Result<(), AsmError>)
        requires
            old(self).wf(),
        ensures
            final(self).wf(),
            final(self).chars == old(self).chars,
            final(self).source_filename == old(self).source_filename,
            match lex_step(old(self).chars@, old(self).cursor as int) {
                Step::End => {
                    &&& r is Ok
                    &&& final(self).cursor as int == skip_ws(old(self).chars@, old(self).cursor as int)
                    &&& final(self).cursor >= final(self).chars@.len()
                    &&& final(self).lexems == old(self).lexems
                },
                Step::Emit(l, n) => {
                    &&& r is Ok
                    &&& final(self).cursor == n
                    &&& old(self).cursor < n <= old(self).chars@.len()
                    &&& lexems_view(final(self).lexems@) == lexems_view(old(self).lexems@).push(l)
                },
                Step::Fail(e) => r == Err::<(), AsmError>(e),
            },
    {
        let ghost i = self.cursor as int;
        let ghost s = self.chars@;
        self.seek_whitespace();
        proof {
            lemma_skip_ws_ge(s, i);
            let j = self.cursor as int;
            if j < s.len() {
                lemma_word_end_ge(s, j + 1);
                lemma_scan_string_ends(s, j + 1, Seq::empty());
            }
        }
        if self.cursor >= self.chars.len() {
            return Ok(());
        }
        if self.chop_single() {
            return Ok(());
        }
        if self.chop_string()? {
            return Ok(());
        }
        if self.chop_word()? {
            return Ok(());
        }
        Err(AsmError { kind: ErrorKind::UnexpectedCharacter, row: self.row, col: self.col })
    }

    /// Reads the whole text; on success `lexems` holds its units in order.
    pub fn lex(&mut self) -> (r: Result<(), AsmError>)
        requires
            old(self).wf(),
        ensures
            final(self).wf(),
            final(self).text() == old(self).text(),
            final(self).file() == old(self).file(),
            match lex_spec(old(self).text()) {
                Ok(v) => r is Ok && final(self).units() == v,
                Err(e) => r == Err::<(), AsmError>(e),
            },
    {
        self.cursor = 0;
        self.row = 1;
        self.col = 1;
        self.lexems = Vec::new();
        let ghost s = self.chars@;
        assert(lexems_view(self.lexems@) =~= Seq::<LexemV>::empty());
        assert(prepend(Seq::empty(), lex_from(s, 0)) =~= lex_from(s, 0)) by {
            match lex_from(s, 0) {
                Ok(v) => { assert(Seq::<LexemV>::empty() + v =~= v); },
                Err(_) => {},
            }
        }
        while self.cursor < self.chars.len()
            invariant
                self.wf(),
                self.chars@ == s,
                s == old(self).chars@,
                self.source_filename == old(self).source_filename,
                lex_spec(s) == prepend(lexems_view(self.lexems@), lex_from(s, self.cursor as int)),
            decreases s.len() - self.cursor,
        {
            let ghost i = self.cursor as int;
            let ghost before = lexems_view(self.lexems@);
            self.chop_lexem()?;
            proof {
                match lex_step(s, i) {
                    Step::Emit(l, n) => {
                        match lex_from(s, n) {
                            Ok(rest) => { assert(before.push(l) + rest =~= before + (seq![l] + rest)); },
                            Err(_) => {},
                        }
                    },
                    _ => {},
                }
            }
        }
        proof {
            assert(skip_ws(s, self.cursor as int) == self.cursor as int);
            let v = lexems_view(self.lexems@);
            assert(v + Seq::<LexemV>::empty() =~= v);
        }
        Ok(())
    }
}


/// Every character of `w` is a digit of `radix`.
pub open spec fn all_digits(w: Seq<char>, radix: nat) -> bool {
    forall|i: int| 0 <= i < w.len() ==> digit_of(#[trigger] w[i], radix) is Some
}

/// The text of a literal in `radix`: `0x` or `0b` before hex or binary
/// digits, decimal digits bare.
pub open spec fn literal_text(d: Seq<char>, radix: nat) -> Seq<char> {
    if radix == 16 { seq!['0', 'x'] + d } else if radix == 2 { seq!['0', 'b'] + d } else { d }
}

proof fn lemma_word_end_all(s: Seq<char>, i: int)
    requires
        0 <= i <= s.len(),
        forall|k: int| i <= k < s.len() ==> alnum(#[trigger] s[k]),
    ensures
        word_end(s, i) == s.len(),
    decreases s.len() - i,
{
    if i < s.len() {
        lemma_word_end_all(s, i + 1);
    }
}

proof fn lemma_first_bad_digit_all(w: Seq<char>, radix: nat)
    requires
        all_digits(w, radix),
    ensures
        first_bad_digit(w, radix) == w.len(),
    decreases w.len(),
{
    if w.len() > 0 {
        assert(digit_of(w[0], radix) is Some);
        assert forall|i: int| 0 <= i < w.drop_first().len() implies digit_of(#[trigger] w.drop_first()[i], radix) is Some by {
            assert(w.drop_first()[i] == w[i + 1]);
        }
        lemma_first_bad_digit_all(w.drop_first(), radix);
    }
}

/// Lexing a literal gives one number unit that holds its digits and its
/// radix, and those digits read in that radix have a value.
pub proof fn lemma_literal_round_trip(d: Seq<char>, radix: nat)
    requires
        radix == 2 || radix == 10 || radix == 16,
        d.len() >= 1,
        all_digits(d, radix),
    ensures
        lex_spec(literal_text(d, radix)) == Ok::<Seq<LexemV>, AsmError>(seq![unit(d, LexemType::Number { radix: radix as usize }, 1, 1)]),
        digits_value(d, radix) is Some,
{
    let s = literal_text(d, radix);
    lemma_all_digits_some(d, radix);
    assert forall|k: int| 0 <= k < s.len() implies alnum(#[trigger] s[k]) by {
        if radix == 16 || radix == 2 {
            if k >= 2 {
                assert(s[k] == d[k - 2]);
                assert(digit_of(d[k - 2], radix) is Some);
            }
        } else {
            assert(digit_of(d[k], radix) is Some);
        }
    }
    lemma_word_end_all(s, 0);
    assert(s.subrange(0, s.len() as int) =~= s);
    assert(skip_ws(s, 0) == 0);
    assert(pos_at(s, 0) == (1int, 1int));
    if radix == 16 || radix == 2 {
        assert(s.subrange(2, s.len() as int) =~= d);
        lemma_first_bad_digit_all(d, radix);
    } else {
        assert(digit_of(d[0], 10) is Some);
        if d.len() >= 2 {
            assert(digit_of(d[1], 10) is Some);
        }
        lemma_first_bad_digit_all(d, 10);
    }
    let l = unit(d, LexemType::Number { radix: radix as usize }, 1, 1);
    assert(lex_step(s, 0) == Step::Emit(l, s.len() as int));
    assert(skip_ws(s, s.len() as int) == s.len());
    assert(lex_from(s, s.len() as int) == Ok::<Seq<LexemV>, AsmError>(Seq::empty()));
    assert(seq![l] + Seq::<LexemV>::empty() =~= seq![l]);
}

/// The decimal text of any value lexes to one number unit whose digits
/// read back as that value.
pub proof fn lemma_decimal_literal(n: nat)
    ensures
        lex_spec(dec_digits(n)) == Ok::<Seq<LexemV>, AsmError>(seq![unit(dec_digits(n), LexemType::Number { radix: 10 }, 1, 1)]),
        digits_value(dec_digits(n), 10) == Some(n),
{
    lemma_decimal_round_trip(n);
    lemma_dec_digits_valid(n);
    lemma_literal_round_trip(dec_digits(n), 10);
}

proof fn lemma_dec_digits_valid(n: nat)
    ensures
        all_digits(dec_digits(n), 10),
    decreases n,
{
    if n >= 10 {
        lemma_dec_digits_valid(n / 10);
        let s = dec_digits(n);
        assert forall|i: int| 0 <= i < s.len() implies digit_of(#[trigger] s[i], 10) is Some by {
            if i < s.len() - 1 {
                assert(s[i] == dec_digits(n / 10)[i]);
            }
        }
    }
}

} // verus!
