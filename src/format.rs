//! The instruction format table: for each mnemonic, the ordered bit fields
//! of its 16-bit encoding.
use vstd::prelude::*;
use crate::common::ValueClass;

verus! {

/// One bit field of an instruction word.
#[derive(Clone, Copy, Debug, PartialEq, Eq, Structural)]
pub enum InstructionPart {
    /// Fixed bits: `val` written in `size` bits.
    Const { val: u64, size: u64 },
    /// A named operand of a value class (register, condition, ...).
    Typed { class: ValueClass, size: u64 },
    /// A numeric operand.
    Imm { size: u64 },
    /// An optional numeric operand; zero when absent.
    Extra { size: u64 },
}

/// A mnemonic and the bit fields of its encoding.
#[derive(Debug)]
pub struct InstructionFormat {
    pub name: String,
    pub parts: Vec<InstructionPart>,
}

pub struct FormatV {
    pub name: Seq<char>,
    pub parts: Seq<InstructionPart>,
}

impl View for InstructionFormat {
    type V = FormatV;

    open spec fn view(&self) -> FormatV {
        FormatV { name: self.name@, parts: self.parts@ }
    }
}

pub open spec fn table_view(t: Seq<InstructionFormat>) -> Seq<FormatV> {
    t.map_values(|f: InstructionFormat| f@)
}

/// The parts of the first entry of the table named `name`.
pub open spec fn find_format(t: Seq<FormatV>, name: Seq<char>) -> Option<Seq<InstructionPart>>
    decreases t.len(),
{
    if t.len() == 0 {
        None
    } else if t[0].name == name {
        Some(t[0].parts)
    } else {
        find_format(t.drop_first(), name)
    }
}

/// Looks a mnemonic up in a format table.
pub fn lookup_format<'a>(t: &'a Vec<InstructionFormat>, name: &String) -> (r: Option<&'a Vec<InstructionPart>>)
    ensures
        r matches Some(p) ==> find_format(table_view(t@), name@) == Some(p@),
        r is None ==> find_format(table_view(t@), name@) is None,
{
    let mut i: usize = 0;
    assert(table_view(t@).subrange(0, t@.len() as int) =~= table_view(t@));
    while i < t.len()
        invariant
            0 <= i <= t.len(),
            find_format(table_view(t@), name@) == find_format(table_view(t@).subrange(i as int, t@.len() as int), name@),
        decreases t.len() - i,
    {
        let ghost rest = table_view(t@).subrange(i as int, t@.len() as int);
        assert(rest.drop_first() =~= table_view(t@).subrange(i + 1, t@.len() as int));
        if t[i].name == *name {
            return Some(&t[i].parts);
        }
        i = i + 1;
    }
    None
}

fn format(name: &str, parts: Vec<InstructionPart>) -> (r: InstructionFormat)
    ensures
        r@ == (FormatV { name: name@, parts: parts@ }),
{
    InstructionFormat { name: String::from_str(name), parts }
}

/// The zirc16 instruction set.
pub open spec fn isa_table() -> Seq<FormatV> {
    seq![
        FormatV { name: "hlt"@, parts: seq![InstructionPart::Const { val: 0, size: 16 }] },
        FormatV { name: "add"@, parts: seq![InstructionPart::Const { val: 1, size: 5 }, InstructionPart::Typed { class: ValueClass::Register, size: 4 }, InstructionPart::Typed { class: ValueClass::Register, size: 4 }, InstructionPart::Const { val: 0, size: 2 }, InstructionPart::Extra { size: 1 }] },
        FormatV { name: "adi"@, parts: seq![InstructionPart::Const { val: 2, size: 5 }, InstructionPart::Typed { class: ValueClass::Register, size: 4 }, InstructionPart::Imm { size: 6 }, InstructionPart::Const { val: 0, size: 1 }] },
        FormatV { name: "sub"@, parts: seq![InstructionPart::Const { val: 3, size: 5 }, InstructionPart::Typed { class: ValueClass::Register, size: 4 }, InstructionPart::Typed { class: ValueClass::Register, size: 4 }, InstructionPart::Const { val: 0, size: 2 }, InstructionPart::Extra { size: 1 }] },
        FormatV { name: "mul"@, parts: seq![InstructionPart::Const { val: 4, size: 5 }, InstructionPart::Typed { class: ValueClass::Register, size: 4 }, InstructionPart::Typed { class: ValueClass::Register, size: 4 }, InstructionPart::Const { val: 0, size: 2 }, InstructionPart::Extra { size: 1 }] },
        FormatV { name: "div"@, parts: seq![InstructionPart::Const { val: 5, size: 5 }, InstructionPart::Typed { class: ValueClass::Register, size: 4 }, InstructionPart::Typed { class: ValueClass::Register, size: 4 }, InstructionPart::Const { val: 0, size: 1 }, InstructionPart::Extra { size: 2 }] },
        FormatV { name: "fsg"@, parts: seq![InstructionPart::Const { val: 6, size: 5 }, InstructionPart::Typed { class: ValueClass::Register, size: 4 }, InstructionPart::Const { val: 0, size: 7 }] },
        FormatV { name: "and"@, parts: seq![InstructionPart::Const { val: 7, size: 5 }, InstructionPart::Typed { class: ValueClass::Register, size: 4 }, InstructionPart::Typed { class: ValueClass::Register, size: 4 }, InstructionPart::Const { val: 0, size: 3 }] },
        FormatV { name: "nor"@, parts: seq![InstructionPart::Const { val: 8, size: 5 }, InstructionPart::Typed { class: ValueClass::Register, size: 4 }, InstructionPart::Typed { class: ValueClass::Register, size: 4 }, InstructionPart::Const { val: 0, size: 3 }] },
        FormatV { name: "xor"@, parts: seq![InstructionPart::Const { val: 9, size: 5 }, InstructionPart::Typed { class: ValueClass::Register, size: 4 }, InstructionPart::Typed { class: ValueClass::Register, size: 4 }, InstructionPart::Const { val: 0, size: 3 }] },
        FormatV { name: "lsh"@, parts: seq![InstructionPart::Const { val: 10, size: 5 }, InstructionPart::Typed { class: ValueClass::Register, size: 4 }, InstructionPart::Imm { size: 4 }, InstructionPart::Const { val: 0, size: 2 }, InstructionPart::Extra { size: 1 }] },
        FormatV { name: "rot"@, parts: seq![InstructionPart::Const { val: 11, size: 5 }, InstructionPart::Typed { class: ValueClass::Register, size: 4 }, InstructionPart::Imm { size: 4 }, InstructionPart::Const { val: 0, size: 2 }, InstructionPart::Extra { size: 1 }] },
        FormatV { name: "mov"@, parts: seq![InstructionPart::Const { val: 12, size: 5 }, InstructionPart::Typed { class: ValueClass::Register, size: 4 }, InstructionPart::Typed { class: ValueClass::Register, size: 4 }, InstructionPart::Const { val: 0, size: 3 }] },
        FormatV { name: "cmp"@, parts: seq![InstructionPart::Const { val: 13, size: 5 }, InstructionPart::Typed { class: ValueClass::Register, size: 4 }, InstructionPart::Typed { class: ValueClass::Register, size: 4 }, InstructionPart::Const { val: 0, size: 1 }, InstructionPart::Extra { size: 2 }] },
        FormatV { name: "cmi"@, parts: seq![InstructionPart::Const { val: 14, size: 5 }, InstructionPart::Typed { class: ValueClass::Register, size: 4 }, InstructionPart::Imm { size: 6 }, InstructionPart::Extra { size: 1 }] },
        FormatV { name: "lim"@, parts: seq![InstructionPart::Const { val: 15, size: 5 }, InstructionPart::Typed { class: ValueClass::Register, size: 4 }, InstructionPart::Imm { size: 6 }, InstructionPart::Const { val: 0, size: 1 }] },
        FormatV { name: "lui"@, parts: seq![InstructionPart::Const { val: 16, size: 5 }, InstructionPart::Imm { size: 10 }, InstructionPart::Const { val: 0, size: 1 }] },
        FormatV { name: "ssr"@, parts: seq![InstructionPart::Const { val: 17, size: 5 }, InstructionPart::Typed { class: ValueClass::SpecialRegister, size: 4 }, InstructionPart::Typed { class: ValueClass::Register, size: 4 }, InstructionPart::Const { val: 0, size: 3 }] },
        FormatV { name: "lsr"@, parts: seq![InstructionPart::Const { val: 18, size: 5 }, InstructionPart::Typed { class: ValueClass::Register, size: 4 }, InstructionPart::Typed { class: ValueClass::SpecialRegister, size: 4 }, InstructionPart::Const { val: 0, size: 3 }] },
        FormatV { name: "psh"@, parts: seq![InstructionPart::Const { val: 19, size: 5 }, InstructionPart::Typed { class: ValueClass::Register, size: 4 }, InstructionPart::Const { val: 0, size: 7 }] },
        FormatV { name: "pop"@, parts: seq![InstructionPart::Const { val: 20, size: 5 }, InstructionPart::Typed { class: ValueClass::Register, size: 4 }, InstructionPart::Const { val: 0, size: 7 }] },
        FormatV { name: "str"@, parts: seq![InstructionPart::Const { val: 21, size: 5 }, InstructionPart::Typed { class: ValueClass::Register, size: 4 }, InstructionPart::Typed { class: ValueClass::Register, size: 4 }, InstructionPart::Const { val: 0, size: 3 }] },
        FormatV { name: "lod"@, parts: seq![InstructionPart::Const { val: 22, size: 5 }, InstructionPart::Typed { class: ValueClass::Register, size: 4 }, InstructionPart::Typed { class: ValueClass::Register, size: 4 }, InstructionPart::Const { val: 0, size: 3 }] },
        FormatV { name: "brc"@, parts: seq![InstructionPart::Const { val: 23, size: 5 }, InstructionPart::Typed { class: ValueClass::Condition, size: 4 }, InstructionPart::Imm { size: 6 }, InstructionPart::Extra { size: 1 }] },
        FormatV { name: "bri"@, parts: seq![InstructionPart::Const { val: 24, size: 5 }, InstructionPart::Typed { class: ValueClass::Condition, size: 4 }, InstructionPart::Typed { class: ValueClass::Register, size: 4 }, InstructionPart::Const { val: 0, size: 2 }, InstructionPart::Extra { size: 1 }] },
        FormatV { name: "cal"@, parts: seq![InstructionPart::Const { val: 25, size: 5 }, InstructionPart::Typed { class: ValueClass::Condition, size: 4 }, InstructionPart::Typed { class: ValueClass::Register, size: 4 }, InstructionPart::Const { val: 0, size: 2 }, InstructionPart::Extra { size: 1 }] },
        FormatV { name: "ret"@, parts: seq![InstructionPart::Const { val: 53248, size: 16 }] },    ]
}

/// Builds the zirc16 instruction set.
pub fn instruction_set() -> (r: Vec<InstructionFormat>)
    ensures
        table_view(r@) == isa_table(),
{
    let mut t: Vec<InstructionFormat> = Vec::new();
    let mut p: Vec<InstructionPart> = Vec::new();
    p.push(InstructionPart::Const { val: 0, size: 16 });
    t.push(format("hlt", p));
    assert(t@[0]@ == isa_table()[0]);
    assert(table_view(t@) =~= isa_table().subrange(0, 1));
    t.push(format("add", vec![InstructionPart::Const { val: 1, size: 5 }, InstructionPart::Typed { class: ValueClass::Register, size: 4 }, InstructionPart::Typed { class: ValueClass::Register, size: 4 }, InstructionPart::Const { val: 0, size: 2 }, InstructionPart::Extra { size: 1 }]));
    assert(t@[1]@ == isa_table()[1]);
    assert(table_view(t@) =~= isa_table().subrange(0, 2));
    t.push(format("adi", vec![InstructionPart::Const { val: 2, size: 5 }, InstructionPart::Typed { class: ValueClass::Register, size: 4 }, InstructionPart::Imm { size: 6 }, InstructionPart::Const { val: 0, size: 1 }]));
    assert(t@[2]@ == isa_table()[2]);
    assert(table_view(t@) =~= isa_table().subrange(0, 3));
    t.push(format("sub", vec![InstructionPart::Const { val: 3, size: 5 }, InstructionPart::Typed { class: ValueClass::Register, size: 4 }, InstructionPart::Typed { class: ValueClass::Register, size: 4 }, InstructionPart::Const { val: 0, size: 2 }, InstructionPart::Extra { size: 1 }]));
    assert(t@[3]@ == isa_table()[3]);
    assert(table_view(t@) =~= isa_table().subrange(0, 4));
    t.push(format("mul", vec![InstructionPart::Const { val: 4, size: 5 }, InstructionPart::Typed { class: ValueClass::Register, size: 4 }, InstructionPart::Typed { class: ValueClass::Register, size: 4 }, InstructionPart::Const { val: 0, size: 2 }, InstructionPart::Extra { size: 1 }]));
    assert(t@[4]@ == isa_table()[4]);
    assert(table_view(t@) =~= isa_table().subrange(0, 5));
    t.push(format("div", vec![InstructionPart::Const { val: 5, size: 5 }, InstructionPart::Typed { class: ValueClass::Register, size: 4 }, InstructionPart::Typed { class: ValueClass::Register, size: 4 }, InstructionPart::Const { val: 0, size: 1 }, InstructionPart::Extra { size: 2 }]));
    assert(t@[5]@ == isa_table()[5]);
    assert(table_view(t@) =~= isa_table().subrange(0, 6));
    t.push(format("fsg", vec![InstructionPart::Const { val: 6, size: 5 }, InstructionPart::Typed { class: ValueClass::Register, size: 4 }, InstructionPart::Const { val: 0, size: 7 }]));
    assert(t@[6]@ == isa_table()[6]);
    assert(table_view(t@) =~= isa_table().subrange(0, 7));
    t.push(format("and", vec![InstructionPart::Const { val: 7, size: 5 }, InstructionPart::Typed { class: ValueClass::Register, size: 4 }, InstructionPart::Typed { class: ValueClass::Register, size: 4 }, InstructionPart::Const { val: 0, size: 3 }]));
    assert(t@[7]@ == isa_table()[7]);
    assert(table_view(t@) =~= isa_table().subrange(0, 8));
    t.push(format("nor", vec![InstructionPart::Const { val: 8, size: 5 }, InstructionPart::Typed { class: ValueClass::Register, size: 4 }, InstructionPart::Typed { class: ValueClass::Register, size: 4 }, InstructionPart::Const { val: 0, size: 3 }]));
    assert(t@[8]@ == isa_table()[8]);
    assert(table_view(t@) =~= isa_table().subrange(0, 9));
    t.push(format("xor", vec![InstructionPart::Const { val: 9, size: 5 }, InstructionPart::Typed { class: ValueClass::Register, size: 4 }, InstructionPart::Typed { class: ValueClass::Register, size: 4 }, InstructionPart::Const { val: 0, size: 3 }]));
    assert(t@[9]@ == isa_table()[9]);
    assert(table_view(t@) =~= isa_table().subrange(0, 10));
    t.push(format("lsh", vec![InstructionPart::Const { val: 10, size: 5 }, InstructionPart::Typed { class: ValueClass::Register, size: 4 }, InstructionPart::Imm { size: 4 }, InstructionPart::Const { val: 0, size: 2 }, InstructionPart::Extra { size: 1 }]));
    assert(t@[10]@ == isa_table()[10]);
    assert(table_view(t@) =~= isa_table().subrange(0, 11));
    t.push(format("rot", vec![InstructionPart::Const { val: 11, size: 5 }, InstructionPart::Typed { class: ValueClass::Register, size: 4 }, InstructionPart::Imm { size: 4 }, InstructionPart::Const { val: 0, size: 2 }, InstructionPart::Extra { size: 1 }]));
    assert(t@[11]@ == isa_table()[11]);
    assert(table_view(t@) =~= isa_table().subrange(0, 12));
    t.push(format("mov", vec![InstructionPart::Const { val: 12, size: 5 }, InstructionPart::Typed { class: ValueClass::Register, size: 4 }, InstructionPart::Typed { class: ValueClass::Register, size: 4 }, InstructionPart::Const { val: 0, size: 3 }]));
    assert(t@[12]@ == isa_table()[12]);
    assert(table_view(t@) =~= isa_table().subrange(0, 13));
    t.push(format("cmp", vec![InstructionPart::Const { val: 13, size: 5 }, InstructionPart::Typed { class: ValueClass::Register, size: 4 }, InstructionPart::Typed { class: ValueClass::Register, size: 4 }, InstructionPart::Const { val: 0, size: 1 }, InstructionPart::Extra { size: 2 }]));
    assert(t@[13]@ == isa_table()[13]);
    assert(table_view(t@) =~= isa_table().subrange(0, 14));
    t.push(format("cmi", vec![InstructionPart::Const { val: 14, size: 5 }, InstructionPart::Typed { class: ValueClass::Register, size: 4 }, InstructionPart::Imm { size: 6 }, InstructionPart::Extra { size: 1 }]));
    assert(t@[14]@ == isa_table()[14]);
    assert(table_view(t@) =~= isa_table().subrange(0, 15));
    t.push(format("lim", vec![InstructionPart::Const { val: 15, size: 5 }, InstructionPart::Typed { class: ValueClass::Register, size: 4 }, InstructionPart::Imm { size: 6 }, InstructionPart::Const { val: 0, size: 1 }]));
    assert(t@[15]@ == isa_table()[15]);
    assert(table_view(t@) =~= isa_table().subrange(0, 16));
    t.push(format("lui", vec![InstructionPart::Const { val: 16, size: 5 }, InstructionPart::Imm { size: 10 }, InstructionPart::Const { val: 0, size: 1 }]));
    assert(t@[16]@ == isa_table()[16]);
    assert(table_view(t@) =~= isa_table().subrange(0, 17));
    t.push(format("ssr", vec![InstructionPart::Const { val: 17, size: 5 }, InstructionPart::Typed { class: ValueClass::SpecialRegister, size: 4 }, InstructionPart::Typed { class: ValueClass::Register, size: 4 }, InstructionPart::Const { val: 0, size: 3 }]));
    assert(t@[17]@ == isa_table()[17]);
    assert(table_view(t@) =~= isa_table().subrange(0, 18));
    t.push(format("lsr", vec![InstructionPart::Const { val: 18, size: 5 }, InstructionPart::Typed { class: ValueClass::Register, size: 4 }, InstructionPart::Typed { class: ValueClass::SpecialRegister, size: 4 }, InstructionPart::Const { val: 0, size: 3 }]));
    assert(t@[18]@ == isa_table()[18]);
    assert(table_view(t@) =~= isa_table().subrange(0, 19));
    t.push(format("psh", vec![InstructionPart::Const { val: 19, size: 5 }, InstructionPart::Typed { class: ValueClass::Register, size: 4 }, InstructionPart::Const { val: 0, size: 7 }]));
    assert(t@[19]@ == isa_table()[19]);
    assert(table_view(t@) =~= isa_table().subrange(0, 20));
    t.push(format("pop", vec![InstructionPart::Const { val: 20, size: 5 }, InstructionPart::Typed { class: ValueClass::Register, size: 4 }, InstructionPart::Const { val: 0, size: 7 }]));
    assert(t@[20]@ == isa_table()[20]);
    assert(table_view(t@) =~= isa_table().subrange(0, 21));
    t.push(format("str", vec![InstructionPart::Const { val: 21, size: 5 }, InstructionPart::Typed { class: ValueClass::Register, size: 4 }, InstructionPart::Typed { class: ValueClass::Register, size: 4 }, InstructionPart::Const { val: 0, size: 3 }]));
    assert(t@[21]@ == isa_table()[21]);
    assert(table_view(t@) =~= isa_table().subrange(0, 22));
    t.push(format("lod", vec![InstructionPart::Const { val: 22, size: 5 }, InstructionPart::Typed { class: ValueClass::Register, size: 4 }, InstructionPart::Typed { class: ValueClass::Register, size: 4 }, InstructionPart::Const { val: 0, size: 3 }]));
    assert(t@[22]@ == isa_table()[22]);
    assert(table_view(t@) =~= isa_table().subrange(0, 23));
    t.push(format("brc", vec![InstructionPart::Const { val: 23, size: 5 }, InstructionPart::Typed { class: ValueClass::Condition, size: 4 }, InstructionPart::Imm { size: 6 }, InstructionPart::Extra { size: 1 }]));
    assert(t@[23]@ == isa_table()[23]);
    assert(table_view(t@) =~= isa_table().subrange(0, 24));
    t.push(format("bri", vec![InstructionPart::Const { val: 24, size: 5 }, InstructionPart::Typed { class: ValueClass::Condition, size: 4 }, InstructionPart::Typed { class: ValueClass::Register, size: 4 }, InstructionPart::Const { val: 0, size: 2 }, InstructionPart::Extra { size: 1 }]));
    assert(t@[24]@ == isa_table()[24]);
    assert(table_view(t@) =~= isa_table().subrange(0, 25));
    t.push(format("cal", vec![InstructionPart::Const { val: 25, size: 5 }, InstructionPart::Typed { class: ValueClass::Condition, size: 4 }, InstructionPart::Typed { class: ValueClass::Register, size: 4 }, InstructionPart::Const { val: 0, size: 2 }, InstructionPart::Extra { size: 1 }]));
    assert(t@[25]@ == isa_table()[25]);
    assert(table_view(t@) =~= isa_table().subrange(0, 26));
    p = Vec::new();
    p.push(InstructionPart::Const { val: 53248, size: 16 });
    t.push(format("ret", p));
    assert(t@[26]@ == isa_table()[26]);
    assert(table_view(t@) =~= isa_table().subrange(0, 27));
    assert(isa_table().subrange(0, 27) =~= isa_table());
    t
}

} // verus!

