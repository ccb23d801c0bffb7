//! Shared data: diagnostics, the typed value tables, and the instruction
//! format table.
use vstd::prelude::*;

verus! {

/// What went wrong; the position travels beside it in `AsmError`.
#[derive(Clone, Copy, Debug, PartialEq, Eq, Structural)]
pub enum ErrorKind {
    UnexpectedCharacter,
    InvalidHexDigit,
    InvalidBinDigit,
    InvalidDecDigit,
    UnterminatedString,
    UnknownEscape,
    UnexpectedToken,
    ExpectedArgument,
    PseudoArity,
    OrgArity,
    OrgExpectsNumber,
    AddressOverflow,
    UndeclaredLabel,
    UnknownInstruction,
    WrongArgumentKind,
    UnknownName,
    /// A required field had no argument; `bit` is its offset in the word.
    MissingArgument { bit: u64 },
    NumberTooBig,
    InvalidNumber,
    OrgInCodegen,
    LabelInCodegen,
    NoData,
    BadDataArgument,
    BadFormat,
}

/// A diagnostic: its kind and the row and column it is reported at.
#[derive(Clone, Copy, Debug, PartialEq, Eq, Structural)]
pub struct AsmError {
    pub kind: ErrorKind,
    pub row: usize,
    pub col: usize,
}

pub open spec fn mk_err(kind: ErrorKind, row: usize, col: usize) -> AsmError {
    AsmError { kind, row, col }
}

/// Equality of a string with a literal.
pub fn text_is(s: &String, lit: &str) -> (r: bool)
    ensures
        r == (s@ == lit@),
{
    let t = String::from_str(lit);
    *s == t
}

/// The classes of named operands an instruction slot can take.
#[derive(Clone, Copy, Debug, PartialEq, Eq, Structural)]
pub enum ValueClass {
    Register,
    Condition,
    SpecialRegister,
}

pub open spec fn register_value(s: Seq<char>) -> Option<u64> {
    if s == "r0"@ { Some(0) }
    else if s == "r1"@ { Some(1) }
    else if s == "r2"@ { Some(2) }
    else if s == "r3"@ { Some(3) }
    else if s == "r4"@ { Some(4) }
    else if s == "r5"@ { Some(5) }
    else if s == "r6"@ { Some(6) }
    else if s == "r7"@ { Some(7) }
    else if s == "r8"@ { Some(8) }
    else if s == "r9"@ { Some(9) }
    else if s == "r10"@ { Some(10) }
    else if s == "r11"@ { Some(11) }
    else if s == "r12"@ { Some(12) }
    else if s == "r13"@ { Some(13) }
    else if s == "r14"@ { Some(14) }
    else if s == "r15"@ { Some(15) }
    else { None }
}

pub open spec fn condition_value(s: Seq<char>) -> Option<u64> {
    if s == "z"@ { Some(0) }
    else if s == "nz"@ { Some(1) }
    else if s == "c"@ { Some(2) }
    else if s == "nc"@ { Some(3) }
    else if s == "p"@ { Some(4) }
    else if s == "np"@ { Some(5) }
    else if s == "s"@ { Some(6) }
    else if s == "ns"@ { Some(7) }
    else if s == "o"@ { Some(8) }
    else if s == "no"@ { Some(9) }
    else if s == "e"@ { Some(10) }
    else if s == "ne"@ { Some(11) }
    else if s == "ge"@ { Some(12) }
    else if s == "l"@ { Some(13) }
    else if s == "t"@ { Some(14) }
    else { None }
}

pub open spec fn special_register_value(s: Seq<char>) -> Option<u64> {
    if s == "sptr"@ { Some(0) } else { None }
}

/// The value a name has in the table of its class.
pub open spec fn class_value(c: ValueClass, s: Seq<char>) -> Option<u64> {
    match c {
        ValueClass::Register => register_value(s),
        ValueClass::Condition => condition_value(s),
        ValueClass::SpecialRegister => special_register_value(s),
    }
}

/// A register or special register name: such a word lexes as a register
/// unit. Condition names stay identifiers.
pub open spec fn is_register_name(s: Seq<char>) -> bool {
    register_value(s).is_some() || special_register_value(s).is_some()
}


fn lookup_register(s: &String) -> (r: Option<u64>)
    ensures
        r == register_value(s@),
{
    if text_is(s, "r0") { Some(0) }
    else if text_is(s, "r1") { Some(1) }
    else if text_is(s, "r2") { Some(2) }
    else if text_is(s, "r3") { Some(3) }
    else if text_is(s, "r4") { Some(4) }
    else if text_is(s, "r5") { Some(5) }
    else if text_is(s, "r6") { Some(6) }
    else if text_is(s, "r7") { Some(7) }
    else if text_is(s, "r8") { Some(8) }
    else if text_is(s, "r9") { Some(9) }
    else if text_is(s, "r10") { Some(10) }
    else if text_is(s, "r11") { Some(11) }
    else if text_is(s, "r12") { Some(12) }
    else if text_is(s, "r13") { Some(13) }
    else if text_is(s, "r14") { Some(14) }
    else if text_is(s, "r15") { Some(15) }
    else { None }
}

fn lookup_condition(s: &String) -> (r: Option<u64>)
    ensures
        r == condition_value(s@),
{
    if text_is(s, "z") { Some(0) }
    else if text_is(s, "nz") { Some(1) }
    else if text_is(s, "c") { Some(2) }
    else if text_is(s, "nc") { Some(3) }
    else if text_is(s, "p") { Some(4) }
    else if text_is(s, "np") { Some(5) }
    else if text_is(s, "s") { Some(6) }
    else if text_is(s, "ns") { Some(7) }
    else if text_is(s, "o") { Some(8) }
    else if text_is(s, "no") { Some(9) }
    else if text_is(s, "e") { Some(10) }
    else if text_is(s, "ne") { Some(11) }
    else if text_is(s, "ge") { Some(12) }
    else if text_is(s, "l") { Some(13) }
    else if text_is(s, "t") { Some(14) }
    else { None }
}

/// Looks a name up in the value table of a class.
pub fn lookup_class_value(c: ValueClass, s: &String) -> (r: Option<u64>)
    ensures
        r == class_value(c, s@),
{
    match c {
        ValueClass::Register => lookup_register(s),
        ValueClass::Condition => lookup_condition(s),
        ValueClass::SpecialRegister => {
            if text_is(s, "sptr") { Some(0) } else { None }
        },
    }
}

/// Whether a (lower-case) word names a register or special register.
pub fn register_name(s: &String) -> (r: bool)
    ensures
        r == is_register_name(s@),
{
    lookup_register(s).is_some() || text_is(s, "sptr")
}

/// Whether a word names a condition.
pub fn condition_name(s: &String) -> (r: bool)
    ensures
        r == condition_value(s@).is_some(),
{
    lookup_condition(s).is_some()
}

} // verus!
