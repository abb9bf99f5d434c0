//! The structured form of one source line, and the architecture's opcode
//! table. A line carries an optional label definition and an optional
//! instruction; instructions are either pseudo-ops or opcode-bearing forms
//! with zero, one or two operands.

use vstd::prelude::*;

use crate::text::str_eq;

verus! {

/// A label name. A *major* label starts with an uppercase letter and opens a
/// scope; a *local* label starts with `.` and is qualified by the nearest
/// preceding major label.
pub type Label = String;

/// The numeric code of an opcode-bearing instruction.
pub type Opcode = u8;

/// A register index between 0 and 15.
#[derive(Debug, Clone, Copy)]
pub struct Register(pub u8);

impl Register {
    /// The only intended constructor: register indices above 15 are refused.
    pub fn new(n: u8) -> (r: Result<Register, &'static str>)
        ensures
            n <= 15 ==> (r matches Ok(reg) && reg.0 == n),
            n > 15 ==> (r matches Err(m) && m@ == "register index between 0 and 15"@),
    {
        if n <= 15 {
            Ok(Register(n))
        } else {
            Err("register index between 0 and 15")
        }
    }
}

/// A 16-bit address operand: a known immediate, or a label reference to be
/// resolved by relocation.
#[derive(Debug)]
pub enum Address {
    Label(Label),
    Immediate(u16),
}

/// One item of a `db` pseudo-op: a literal byte, or a string emitted as its
/// raw bytes with no terminator.
#[derive(Debug)]
pub enum Serializable {
    Byte(u8),
    String(String),
}

/// Which part of a resolved 16-bit address a relocation fills: both bytes,
/// only the high byte, or only the low byte.
#[derive(Debug, Clone, Copy)]
pub enum Nibble {
    Both,
    High,
    Low,
}

/// An operand for a 1-byte slot: a raw immediate byte, or half of an address
/// selected by a [`Nibble`].
#[derive(Debug)]
pub enum Value {
    Immediate(u8),
    Addr(Address, Nibble),
}

/// One parsed instruction: the pseudo-ops `Db`, `Ds`, `Org` and `Include`,
/// and the opcode-bearing forms.
#[derive(Debug)]
pub enum Instruction {
    Db(Vec<Serializable>),
    Ds(u16),
    Org(u16),
    Include(String),
    Nullary(Opcode),
    UnaryReg(Opcode, Register),
    UnaryAddr(Opcode, Address),
    BinaryRegIm(Opcode, Register, Value),
    BinaryRegReg(Opcode, Register, Register),
}

impl Instruction {
    /// The opcode this instruction carries, if any. Pseudo-ops carry none.
    pub open spec fn spec_opcode(&self) -> Option<Opcode> {
        match self {
            Instruction::Db(_) => None,
            Instruction::Ds(_) => None,
            Instruction::Org(_) => None,
            Instruction::Include(_) => None,
            Instruction::Nullary(op) => Some(*op),
            Instruction::UnaryReg(op, _) => Some(*op),
            Instruction::UnaryAddr(op, _) => Some(*op),
            Instruction::BinaryRegIm(op, _, _) => Some(*op),
            Instruction::BinaryRegReg(op, _, _) => Some(*op),
        }
    }

    /// The opcode this instruction carries, if any. Pseudo-ops carry none.
    pub fn opcode(&self) -> (r: Option<Opcode>)
        ensures
            r == self.spec_opcode(),
    {
        match self {
            Instruction::Db(_) | Instruction::Ds(_) | Instruction::Org(_)
            | Instruction::Include(_) => None,
            Instruction::Nullary(op)
            | Instruction::UnaryReg(op, _)
            | Instruction::UnaryAddr(op, _)
            | Instruction::BinaryRegIm(op, _, _)
            | Instruction::BinaryRegReg(op, _, _) => Some(*op),
        }
    }
}

/// One source line: an optional label definition plus an optional
/// instruction.
#[derive(Debug)]
pub struct Line {
    pub label: Option<Label>,
    pub instruction: Option<Instruction>,
}

/// The canonical mnemonic-to-opcode table of the architecture.
pub open spec fn spec_opcode_of(m: Seq<char>) -> Option<Opcode> {
    if m == "nop"@ { Some(0x00u8) }
    else if m == "sleep"@ { Some(0x02u8) }
    else if m == "break"@ { Some(0x03u8) }
    else if m == "sei"@ { Some(0x04u8) }
    else if m == "sec"@ { Some(0x05u8) }
    else if m == "sez"@ { Some(0x06u8) }
    else if m == "cli"@ { Some(0x07u8) }
    else if m == "clc"@ { Some(0x08u8) }
    else if m == "clz"@ { Some(0x09u8) }
    else if m == "add"@ { Some(0x10u8) }
    else if m == "adc"@ { Some(0x11u8) }
    else if m == "sub"@ { Some(0x12u8) }
    else if m == "sbc"@ { Some(0x13u8) }
    else if m == "inc"@ { Some(0x14u8) }
    else if m == "dec"@ { Some(0x15u8) }
    else if m == "and"@ { Some(0x16u8) }
    else if m == "or"@ { Some(0x17u8) }
    else if m == "xor"@ { Some(0x18u8) }
    else if m == "cp"@ { Some(0x19u8) }
    else if m == "cpi"@ { Some(0x1Au8) }
    else if m == "jmp"@ { Some(0x20u8) }
    else if m == "call"@ { Some(0x21u8) }
    else if m == "ret"@ { Some(0x22u8) }
    else if m == "reti"@ { Some(0x23u8) }
    else if m == "brc"@ { Some(0x24u8) }
    else if m == "brnc"@ { Some(0x25u8) }
    else if m == "brz"@ { Some(0x26u8) }
    else if m == "brnz"@ { Some(0x27u8) }
    else if m == "mov"@ { Some(0x30u8) }
    else if m == "ldi"@ { Some(0x31u8) }
    else if m == "ld"@ { Some(0x32u8) }
    else if m == "st"@ { Some(0x33u8) }
    else if m == "push"@ { Some(0x34u8) }
    else if m == "pop"@ { Some(0x35u8) }
    else if m == "lpm"@ { Some(0x36u8) }
    else if m == "in"@ { Some(0x3Au8) }
    else if m == "out"@ { Some(0x3Bu8) }
    else { None }
}

/// The canonical opcode-to-mnemonic table: the inverse of
/// [`spec_opcode_of`], keyed by the opcode byte.
pub open spec fn spec_mnemonic_of(op: Opcode) -> Option<Seq<char>> {
    if op == 0x00u8 { Some("nop"@) }
    else if op == 0x02u8 { Some("sleep"@) }
    else if op == 0x03u8 { Some("break"@) }
    else if op == 0x04u8 { Some("sei"@) }
    else if op == 0x05u8 { Some("sec"@) }
    else if op == 0x06u8 { Some("sez"@) }
    else if op == 0x07u8 { Some("cli"@) }
    else if op == 0x08u8 { Some("clc"@) }
    else if op == 0x09u8 { Some("clz"@) }
    else if op == 0x10u8 { Some("add"@) }
    else if op == 0x11u8 { Some("adc"@) }
    else if op == 0x12u8 { Some("sub"@) }
    else if op == 0x13u8 { Some("sbc"@) }
    else if op == 0x14u8 { Some("inc"@) }
    else if op == 0x15u8 { Some("dec"@) }
    else if op == 0x16u8 { Some("and"@) }
    else if op == 0x17u8 { Some("or"@) }
    else if op == 0x18u8 { Some("xor"@) }
    else if op == 0x19u8 { Some("cp"@) }
    else if op == 0x1Au8 { Some("cpi"@) }
    else if op == 0x20u8 { Some("jmp"@) }
    else if op == 0x21u8 { Some("call"@) }
    else if op == 0x22u8 { Some("ret"@) }
    else if op == 0x23u8 { Some("reti"@) }
    else if op == 0x24u8 { Some("brc"@) }
    else if op == 0x25u8 { Some("brnc"@) }
    else if op == 0x26u8 { Some("brz"@) }
    else if op == 0x27u8 { Some("brnz"@) }
    else if op == 0x30u8 { Some("mov"@) }
    else if op == 0x31u8 { Some("ldi"@) }
    else if op == 0x32u8 { Some("ld"@) }
    else if op == 0x33u8 { Some("st"@) }
    else if op == 0x34u8 { Some("push"@) }
    else if op == 0x35u8 { Some("pop"@) }
    else if op == 0x36u8 { Some("lpm"@) }
    else if op == 0x3Au8 { Some("in"@) }
    else if op == 0x3Bu8 { Some("out"@) }
    else { None }
}

/// Looks a mnemonic up in the canonical opcode table.
pub fn opcode_for(m: &str) -> (r: Option<Opcode>)
    ensures
        r == spec_opcode_of(m@),
{
    if str_eq(m, "nop") { Some(0x00) }
    else if str_eq(m, "sleep") { Some(0x02) }
    else if str_eq(m, "break") { Some(0x03) }
    else if str_eq(m, "sei") { Some(0x04) }
    else if str_eq(m, "sec") { Some(0x05) }
    else if str_eq(m, "sez") { Some(0x06) }
    else if str_eq(m, "cli") { Some(0x07) }
    else if str_eq(m, "clc") { Some(0x08) }
    else if str_eq(m, "clz") { Some(0x09) }
    else if str_eq(m, "add") { Some(0x10) }
    else if str_eq(m, "adc") { Some(0x11) }
    else if str_eq(m, "sub") { Some(0x12) }
    else if str_eq(m, "sbc") { Some(0x13) }
    else if str_eq(m, "inc") { Some(0x14) }
    else if str_eq(m, "dec") { Some(0x15) }
    else if str_eq(m, "and") { Some(0x16) }
    else if str_eq(m, "or") { Some(0x17) }
    else if str_eq(m, "xor") { Some(0x18) }
    else if str_eq(m, "cp") { Some(0x19) }
    else if str_eq(m, "cpi") { Some(0x1A) }
    else if str_eq(m, "jmp") { Some(0x20) }
    else if str_eq(m, "call") { Some(0x21) }
    else if str_eq(m, "ret") { Some(0x22) }
    else if str_eq(m, "reti") { Some(0x23) }
    else if str_eq(m, "brc") { Some(0x24) }
    else if str_eq(m, "brnc") { Some(0x25) }
    else if str_eq(m, "brz") { Some(0x26) }
    else if str_eq(m, "brnz") { Some(0x27) }
    else if str_eq(m, "mov") { Some(0x30) }
    else if str_eq(m, "ldi") { Some(0x31) }
    else if str_eq(m, "ld") { Some(0x32) }
    else if str_eq(m, "st") { Some(0x33) }
    else if str_eq(m, "push") { Some(0x34) }
    else if str_eq(m, "pop") { Some(0x35) }
    else if str_eq(m, "lpm") { Some(0x36) }
    else if str_eq(m, "in") { Some(0x3A) }
    else if str_eq(m, "out") { Some(0x3B) }
    else { None }
}

/// Looks an opcode's canonical mnemonic up, for diagnostics.
pub fn mnemonic_for(op: Opcode) -> (r: Option<&'static str>)
    ensures
        r is Some <==> spec_mnemonic_of(op) is Some,
        r matches Some(s) ==> Some(s@) == spec_mnemonic_of(op),
{
    match op {
        0x00 => Some("nop"),
        0x02 => Some("sleep"),
        0x03 => Some("break"),
        0x04 => Some("sei"),
        0x05 => Some("sec"),
        0x06 => Some("sez"),
        0x07 => Some("cli"),
        0x08 => Some("clc"),
        0x09 => Some("clz"),
        0x10 => Some("add"),
        0x11 => Some("adc"),
        0x12 => Some("sub"),
        0x13 => Some("sbc"),
        0x14 => Some("inc"),
        0x15 => Some("dec"),
        0x16 => Some("and"),
        0x17 => Some("or"),
        0x18 => Some("xor"),
        0x19 => Some("cp"),
        0x1A => Some("cpi"),
        0x20 => Some("jmp"),
        0x21 => Some("call"),
        0x22 => Some("ret"),
        0x23 => Some("reti"),
        0x24 => Some("brc"),
        0x25 => Some("brnc"),
        0x26 => Some("brz"),
        0x27 => Some("brnz"),
        0x30 => Some("mov"),
        0x31 => Some("ldi"),
        0x32 => Some("ld"),
        0x33 => Some("st"),
        0x34 => Some("push"),
        0x35 => Some("pop"),
        0x36 => Some("lpm"),
        0x3A => Some("in"),
        0x3B => Some("out"),
        _ => None,
    }
}

/// The two table views agree: a mnemonic that maps to an opcode is that
/// opcode's canonical spelling, so acceptance decisions and diagnostics can
/// never diverge.
pub proof fn lemma_opcode_table_consistent(m: Seq<char>, op: Opcode)
    requires
        spec_opcode_of(m) == Some(op),
    ensures
        spec_mnemonic_of(op) == Some(m),
{
}

} // verus!
