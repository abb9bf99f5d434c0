//! The line parser: one raw source line to a structured [`Line`], or a
//! parse failure carrying the column and the token descriptions that were
//! expected there. [`parse_line`] returns exactly what [`parse_line_spec`]
//! says for every input, and every line it accepts is well formed in the
//! sense of [`line_wf`]: opcodes come from the canonical table, register
//! indices fit in four bits, and narrow value slots never carry a
//! full-word selector.

use vstd::prelude::*;

use crate::grammar::{
    Address, Instruction, Label, Line, Register, Serializable, Value, Nibble, opcode_for,
    lemma_opcode_table_consistent, spec_opcode_of,
};
use crate::model::{
    AddrV, InstrV, LineV, SerV, ValueV, addr_view, instr_view, instr_wf, label_name_wf,
    line_view, line_wf, sers_view, value_view,
};
use crate::text::str_eq;

verus! {

/// A failure of the line parser: the 1-based column where it stopped and
/// the descriptions of what it would have accepted there.
pub struct LineError {
    pub column: usize,
    pub expected: Vec<String>,
}

/// The abstract form of a parse failure.
#[verifier::ext_equal]
pub ghost struct ParseFailV {
    pub column: int,
    pub expected: Seq<Seq<char>>,
}

impl View for LineError {
    type V = ParseFailV;

    open spec fn view(&self) -> ParseFailV {
        ParseFailV { column: self.column as int, expected: self.expected.deep_view() }
    }
}

/// A failure expecting one thing, at a 0-based position reported as a
/// 1-based column.
pub open spec fn spec_fail(at: int, what: Seq<char>) -> ParseFailV {
    ParseFailV {
        column: if at < usize::MAX as int {
            at + 1
        } else {
            at
        },
        expected: seq![what],
    }
}

/// Whether a character is horizontal whitespace.
pub open spec fn ws_char(c: char) -> bool {
    c == ' ' || c == '\t' || c == '\r'
}

/// Whether a character can open an identifier.
pub open spec fn id_start(c: char) -> bool {
    'A' <= c && c <= 'Z' || 'a' <= c && c <= 'z' || c == '_'
}

/// Whether a character can continue an identifier.
pub open spec fn id_cont(c: char) -> bool {
    id_start(c) || '0' <= c && c <= '9'
}

/// Whether a character is a decimal digit.
pub open spec fn dec_char(c: char) -> bool {
    '0' <= c && c <= '9'
}

/// Whether a character is a hexadecimal digit.
pub open spec fn hex_char(c: char) -> bool {
    dec_char(c) || 'a' <= c && c <= 'f' || 'A' <= c && c <= 'F'
}

/// The value of a hexadecimal digit.
pub open spec fn hex_digit(c: char) -> int {
    if dec_char(c) {
        c as int - 48
    } else if 'a' <= c && c <= 'f' {
        c as int - 87
    } else {
        c as int - 55
    }
}

/// The first position at or after `i` holding no whitespace.
pub open spec fn ws_end(s: Seq<char>, i: int) -> int
    decreases s.len() - i,
    when 0 <= i <= s.len()
{
    if i < s.len() && ws_char(s[i]) {
        ws_end(s, i + 1)
    } else {
        i
    }
}

/// The end of an identifier-continuation run starting at `i`.
pub open spec fn ident_end(s: Seq<char>, i: int) -> int
    decreases s.len() - i,
    when 0 <= i <= s.len()
{
    if i < s.len() && id_cont(s[i]) {
        ident_end(s, i + 1)
    } else {
        i
    }
}

/// The position of the closing quote at or after `i`, or the end.
pub open spec fn quote_end(s: Seq<char>, i: int) -> int
    decreases s.len() - i,
    when 0 <= i <= s.len()
{
    if i < s.len() && s[i] != '"' {
        quote_end(s, i + 1)
    } else {
        i
    }
}

/// `ws_end` stays inside the text and never moves backward.
pub proof fn lemma_ws_end_bounds(s: Seq<char>, i: int)
    requires
        0 <= i <= s.len(),
    ensures
        i <= ws_end(s, i) <= s.len(),
    decreases s.len() - i,
{
    if i < s.len() && ws_char(s[i]) {
        lemma_ws_end_bounds(s, i + 1);
    }
}

/// `ident_end` stays inside the text and never moves backward.
pub proof fn lemma_ident_end_bounds(s: Seq<char>, i: int)
    requires
        0 <= i <= s.len(),
    ensures
        i <= ident_end(s, i) <= s.len(),
    decreases s.len() - i,
{
    if i < s.len() && id_cont(s[i]) {
        lemma_ident_end_bounds(s, i + 1);
    }
}

/// `quote_end` stays inside the text and never moves backward.
pub proof fn lemma_quote_end_bounds(s: Seq<char>, i: int)
    requires
        0 <= i <= s.len(),
    ensures
        i <= quote_end(s, i) <= s.len(),
    decreases s.len() - i,
{
    if i < s.len() && s[i] != '"' {
        lemma_quote_end_bounds(s, i + 1);
    }
}

/// A label-shaped name at `from`: an identifier, or `.` followed by one.
pub open spec fn name_spec(s: Seq<char>, from: int) -> Result<(Seq<char>, int), ParseFailV> {
    if from < s.len() && s[from] == '.' {
        if from + 1 < s.len() && id_start(s[from + 1]) {
            let j = ident_end(s, from + 2);
            Ok((s.subrange(from, j), j))
        } else {
            Err(spec_fail(from + 1, "an identifier"@))
        }
    } else if from < s.len() && id_start(s[from]) {
        let j = ident_end(s, from + 1);
        Ok((s.subrange(from, j), j))
    } else {
        Err(spec_fail(from, "a label or mnemonic"@))
    }
}

/// A run of hexadecimal digits folded into a value; more than 16 bits is
/// an overflow.
pub open spec fn hex_scan(s: Seq<char>, j: int, val: int) -> Result<(u16, int), ()>
    decreases s.len() - j,
    when 0 <= j <= s.len() && 0 <= val <= 0xFFFF
{
    if j < s.len() && hex_char(s[j]) {
        let v2 = val * 16 + hex_digit(s[j]);
        if v2 > 0xFFFF {
            Err(())
        } else {
            hex_scan(s, j + 1, v2)
        }
    } else {
        Ok((val as u16, j))
    }
}

/// A run of decimal digits folded into a value; more than 16 bits is an
/// overflow.
pub open spec fn dec_scan(s: Seq<char>, j: int, val: int) -> Result<(u16, int), ()>
    decreases s.len() - j,
    when 0 <= j <= s.len() && 0 <= val <= 0xFFFF
{
    if j < s.len() && dec_char(s[j]) {
        let v2 = val * 10 + (s[j] as int - 48);
        if v2 > 0xFFFF {
            Err(())
        } else {
            dec_scan(s, j + 1, v2)
        }
    } else {
        Ok((val as u16, j))
    }
}

/// A scan that ends leaves the position inside the text and never moves it
/// backward.
pub proof fn lemma_hex_scan_bounds(s: Seq<char>, j: int, val: int)
    requires
        0 <= j <= s.len(),
        0 <= val <= 0xFFFF,
    ensures
        hex_scan(s, j, val) matches Ok(p) ==> j <= p.1 <= s.len(),
    decreases s.len() - j,
{
    if j < s.len() && hex_char(s[j]) {
        let v2 = val * 16 + hex_digit(s[j]);
        if v2 <= 0xFFFF {
            lemma_hex_scan_bounds(s, j + 1, v2);
        }
    }
}

/// As for the hexadecimal scan.
pub proof fn lemma_dec_scan_bounds(s: Seq<char>, j: int, val: int)
    requires
        0 <= j <= s.len(),
        0 <= val <= 0xFFFF,
    ensures
        dec_scan(s, j, val) matches Ok(p) ==> j <= p.1 <= s.len(),
    decreases s.len() - j,
{
    if j < s.len() && dec_char(s[j]) {
        let v2 = val * 10 + (s[j] as int - 48);
        if v2 <= 0xFFFF {
            lemma_dec_scan_bounds(s, j + 1, v2);
        }
    }
}

/// A numeric literal at `from`: `0x` hexadecimal or decimal, at most 16
/// bits.
pub open spec fn number_spec(s: Seq<char>, from: int) -> Result<(u16, int), ParseFailV> {
    if from < s.len() && from + 1 < s.len() && s[from] == '0' && (s[from + 1] == 'x' || s[from + 1]
        == 'X') {
        if from + 2 < s.len() && hex_char(s[from + 2]) {
            match hex_scan(s, from + 2, 0) {
                Ok(p) => Ok(p),
                Err(_) => Err(spec_fail(from, "a value of at most 16 bits"@)),
            }
        } else {
            Err(spec_fail(from + 2, "a hexadecimal digit"@))
        }
    } else if from < s.len() && dec_char(s[from]) {
        match dec_scan(s, from, 0) {
            Ok(p) => Ok(p),
            Err(_) => Err(spec_fail(from, "a value of at most 16 bits"@)),
        }
    } else {
        Err(spec_fail(from, "a number"@))
    }
}

/// A number that parses ends past where it began, inside the text.
pub proof fn lemma_number_progress(s: Seq<char>, from: int)
    requires
        0 <= from <= s.len(),
    ensures
        number_spec(s, from) matches Ok(p) ==> from < p.1 <= s.len(),
{
    if from < s.len() && from + 1 < s.len() && s[from] == '0' && (s[from + 1] == 'x' || s[from + 1]
        == 'X') {
        if from + 2 < s.len() && hex_char(s[from + 2]) {
            lemma_hex_scan_bounds(s, from + 2, 0);
        }
    } else if from < s.len() && dec_char(s[from]) {
        if dec_scan(s, from, 0) is Ok {
            let v2 = (s[from] as int - 48);
            assert(dec_scan(s, from, 0) == dec_scan(s, from + 1, v2));
            lemma_dec_scan_bounds(s, from + 1, v2);
        }
    }
}

/// A register operand at `from`: `R` then an index between 0 and 15.
pub open spec fn register_spec(s: Seq<char>, from: int) -> Result<(Register, int), ParseFailV> {
    if from < s.len() && s[from] == 'R' {
        match number_spec(s, from + 1) {
            Ok(p) => if p.0 <= 15 {
                Ok((Register(p.0 as u8), p.1))
            } else {
                Err(spec_fail(from, "a register index between 0 and 15"@))
            },
            Err(_) => Err(spec_fail(from, "a register"@)),
        }
    } else {
        Err(spec_fail(from, "a register"@))
    }
}

/// An address operand at `from`: a label reference or a 16-bit immediate.
pub open spec fn addr_spec(s: Seq<char>, from: int) -> Result<(AddrV, int), ParseFailV> {
    if from < s.len() && (s[from] == '.' || id_start(s[from])) {
        match name_spec(s, from) {
            Ok(p) => Ok((AddrV::Label(p.0), p.1)),
            Err(e) => Err(e),
        }
    } else {
        match number_spec(s, from) {
            Ok(p) => Ok((AddrV::Immediate(p.0), p.1)),
            Err(_) => Err(spec_fail(from, "a label or address"@)),
        }
    }
}

/// A narrow value operand at `from`: an immediate byte, or `hi(...)` /
/// `lo(...)` selecting half of an address.
pub open spec fn value_spec(s: Seq<char>, from: int) -> Result<(ValueV, int), ParseFailV> {
    if from < s.len() && from + 1 < s.len() && (s[from] == 'h' || s[from] == 'l') && (if s[from]
        == 'h' {
        s[from + 1] == 'i'
    } else {
        s[from + 1] == 'o'
    }) {
        if from + 2 < s.len() && s[from + 2] == '(' {
            match addr_spec(s, from + 3) {
                Ok(p) => if p.1 < s.len() && s[p.1] == ')' {
                    Ok(
                        (
                            ValueV::Addr(
                                p.0,
                                if s[from] == 'h' {
                                    Nibble::High
                                } else {
                                    Nibble::Low
                                },
                            ),
                            p.1 + 1,
                        ),
                    )
                } else {
                    Err(spec_fail(p.1, "')'"@))
                },
                Err(e) => Err(e),
            }
        } else {
            Err(spec_fail(from + 2, "'('"@))
        }
    } else {
        match number_spec(s, from) {
            Ok(p) => if p.0 <= 0xFF {
                Ok((ValueV::Immediate(p.0 as u8), p.1))
            } else {
                Err(spec_fail(from, "a value of at most 8 bits"@))
            },
            Err(_) => Err(spec_fail(from, "a value"@)),
        }
    }
}

/// A double-quoted string without escapes, opening at `from`.
pub open spec fn quoted_spec(s: Seq<char>, from: int) -> Result<(Seq<char>, int), ParseFailV> {
    let j = quote_end(s, from + 1);
    if j < s.len() {
        Ok((s.subrange(from + 1, j), j + 1))
    } else {
        Err(spec_fail(j, "'\"'"@))
    }
}

/// One `db` item at `i`: a byte or a string.
pub open spec fn db_item_spec(s: Seq<char>, i: int) -> Result<(SerV, int), ParseFailV> {
    if i < s.len() && s[i] == '"' {
        match quoted_spec(s, i) {
            Ok(p) => Ok((SerV::Str(p.0), p.1)),
            Err(e) => Err(e),
        }
    } else {
        match number_spec(s, i) {
            Ok(p) => if p.0 > 0xFF {
                Err(spec_fail(i, "a value of at most 8 bits"@))
            } else {
                Ok((SerV::Byte(p.0 as u8), p.1))
            },
            Err(_) => Err(spec_fail(i, "a byte or string"@)),
        }
    }
}

/// A `db` item that parses ends past where it began, inside the text.
pub proof fn lemma_db_item_progress(s: Seq<char>, i: int)
    requires
        0 <= i <= s.len(),
    ensures
        db_item_spec(s, i) matches Ok(p) ==> i < p.1 <= s.len(),
{
    if i < s.len() && s[i] == '"' {
        lemma_quote_end_bounds(s, i + 1);
    } else {
        lemma_number_progress(s, i);
    }
}

/// The comma-separated item list of a `db` pseudo-op, starting at an item.
pub open spec fn db_items_spec(s: Seq<char>, i: int, acc: Seq<SerV>) -> Result<
    (Seq<SerV>, int),
    ParseFailV,
>
    decreases s.len() - i,
    when 0 <= i <= s.len()
    via db_items_spec_dec
{
    match db_item_spec(s, i) {
        Err(e) => Err(e),
        Ok(p) => {
            let k = ws_end(s, p.1);
            if k < s.len() && s[k] == ',' {
                let m = ws_end(s, k + 1);
                if m >= s.len() {
                    Err(spec_fail(m, "a byte or string"@))
                } else {
                    db_items_spec(s, m, acc.push(p.0))
                }
            } else {
                Ok((acc.push(p.0), k))
            }
        },
    }
}

#[via_fn]
proof fn db_items_spec_dec(s: Seq<char>, i: int, acc: Seq<SerV>) {
    lemma_db_item_progress(s, i);
    if db_item_spec(s, i) is Ok {
        let p = db_item_spec(s, i)->Ok_0;
        lemma_ws_end_bounds(s, p.1);
        let k = ws_end(s, p.1);
        if k < s.len() && s[k] == ',' {
            lemma_ws_end_bounds(s, k + 1);
        }
    }
}

/// The operands an opcode's form asks for, starting at `from`.
pub open spec fn operands_spec(s: Seq<char>, op: u8, from: int) -> Result<
    (InstrV, int),
    ParseFailV,
> {
    if op <= 0x09 || op == 0x22 || op == 0x23 {
        Ok((InstrV::Nullary(op), from))
    } else if op == 0x14 || op == 0x15 || op == 0x34 || op == 0x35 {
        match register_spec(s, from) {
            Ok(p) => Ok((InstrV::UnaryReg(op, p.0), p.1)),
            Err(e) => Err(e),
        }
    } else if op >= 0x20 && op <= 0x27 {
        match addr_spec(s, from) {
            Ok(p) => Ok((InstrV::UnaryAddr(op, p.0), p.1)),
            Err(e) => Err(e),
        }
    } else if op == 0x1A || op == 0x31 || op == 0x3A || op == 0x3B {
        match register_spec(s, from) {
            Ok(p) => {
                let k = ws_end(s, p.1);
                if k < s.len() && s[k] == ',' {
                    let m = ws_end(s, k + 1);
                    match value_spec(s, m) {
                        Ok(q) => Ok((InstrV::BinaryRegIm(op, p.0, q.0), q.1)),
                        Err(e) => Err(e),
                    }
                } else {
                    Err(spec_fail(k, "','"@))
                }
            },
            Err(e) => Err(e),
        }
    } else {
        match register_spec(s, from) {
            Ok(p) => {
                let k = ws_end(s, p.1);
                if k < s.len() && s[k] == ',' {
                    let m = ws_end(s, k + 1);
                    match register_spec(s, m) {
                        Ok(q) => Ok((InstrV::BinaryRegReg(op, p.0, q.0), q.1)),
                        Err(e) => Err(e),
                    }
                } else {
                    Err(spec_fail(k, "','"@))
                }
            },
            Err(e) => Err(e),
        }
    }
}

/// What remains after an instruction must be whitespace only.
pub open spec fn end_check(s: Seq<char>, from: int) -> Option<ParseFailV> {
    let i = ws_end(s, from);
    if i < s.len() {
        Some(spec_fail(i, "end of line"@))
    } else {
        None
    }
}

/// The instruction a mnemonic opens, operands included.
pub open spec fn instruction_spec(s: Seq<char>, m: Seq<char>, after: int) -> Result<
    (InstrV, int),
    ParseFailV,
> {
    let i = ws_end(s, after);
    if m == "db"@ {
        match db_items_spec(s, ws_end(s, i), Seq::empty()) {
            Ok(p) => Ok((InstrV::Db(p.0), p.1)),
            Err(e) => Err(e),
        }
    } else if m == "ds"@ {
        match number_spec(s, i) {
            Ok(p) => Ok((InstrV::Ds(p.0), p.1)),
            Err(e) => Err(e),
        }
    } else if m == "org"@ {
        match number_spec(s, i) {
            Ok(p) => Ok((InstrV::Org(p.0), p.1)),
            Err(e) => Err(e),
        }
    } else {
        match spec_opcode_of(m) {
            None => Err(spec_fail(i, "a known mnemonic"@)),
            Some(op) => operands_spec(s, op, i),
        }
    }
}

/// The quoted path of a file-inclusion directive, then the end of the
/// line.
pub open spec fn include_path_spec(s: Seq<char>, after: int) -> Result<Seq<char>, ParseFailV> {
    let i = ws_end(s, after);
    if i < s.len() && s[i] == '"' {
        match quoted_spec(s, i) {
            Ok(p) => match end_check(s, p.1) {
                None => Ok(p.0),
                Some(e) => Err(e),
            },
            Err(e) => Err(e),
        }
    } else {
        Err(spec_fail(i, "'\"'"@))
    }
}

/// A line's tail once its leading name turned out to be a mnemonic or
/// directive.
pub open spec fn line_tail_spec(
    s: Seq<char>,
    label: Option<Seq<char>>,
    mnem: Seq<char>,
    after: int,
) -> Result<LineV, ParseFailV> {
    if mnem == "include"@ {
        match include_path_spec(s, after) {
            Ok(p) => Ok(LineV { label, instruction: Some(InstrV::Include(p)) }),
            Err(e) => Err(e),
        }
    } else {
        match instruction_spec(s, mnem, after) {
            Err(e) => Err(e),
            Ok(p) => match end_check(s, p.1) {
                None => Ok(LineV { label, instruction: Some(p.0) }),
                Some(e) => Err(e),
            },
        }
    }
}

/// What one raw source line parses to: an optional label definition, then
/// an optional instruction or directive.
pub open spec fn parse_line_spec(s: Seq<char>) -> Result<LineV, ParseFailV> {
    let i = ws_end(s, 0);
    if i >= s.len() {
        Ok(LineV { label: None, instruction: None })
    } else {
        match name_spec(s, i) {
            Err(e) => Err(e),
            Ok(p) => if p.1 < s.len() && s[p.1] == ':' {
                let k = ws_end(s, p.1 + 1);
                if k >= s.len() {
                    Ok(LineV { label: Some(p.0), instruction: None })
                } else {
                    match name_spec(s, k) {
                        Err(e) => Err(e),
                        Ok(q) => line_tail_spec(s, Some(p.0), q.0, q.1),
                    }
                }
            } else {
                line_tail_spec(s, None, p.0, p.1)
            },
        }
    }
}

/// A parse failure with one expected description, at a 0-based position
/// reported as a 1-based column.
fn fail(at: usize, what: &str) -> (r: LineError)
    ensures
        r.expected@.len() == 1,
        r@ == spec_fail(at as int, what@),
{
    let mut expected: Vec<String> = Vec::new();
    expected.push(what.to_owned());
    let column = if at < usize::MAX { at + 1 } else { at };
    let r = LineError { column, expected };
    proof {
        assert(r.expected.deep_view() =~= seq![what@]);
    }
    r
}

/// Whether a character can open an identifier.
fn is_ident_start(c: char) -> (r: bool)
    ensures
        r == id_start(c),
{
    c >= 'A' && c <= 'Z' || c >= 'a' && c <= 'z' || c == '_'
}

/// Whether a character can continue an identifier.
fn is_ident_cont(c: char) -> (r: bool)
    ensures
        r == id_cont(c),
{
    c >= 'A' && c <= 'Z' || c >= 'a' && c <= 'z' || c >= '0' && c <= '9' || c == '_'
}

/// Whether a character is horizontal whitespace.
fn is_ws(c: char) -> (r: bool)
    ensures
        r == ws_char(c),
{
    c == ' ' || c == '\t' || c == '\r'
}

/// Whether a character is a decimal digit.
fn is_digit(c: char) -> (r: bool)
    ensures
        r == dec_char(c),
{
    c >= '0' && c <= '9'
}

/// Whether a character is a hexadecimal digit, and its value.
fn hex_value(c: char) -> (r: Option<u8>)
    ensures
        r is Some == hex_char(c),
        r matches Some(d) ==> d == hex_digit(c),
{
    if c >= '0' && c <= '9' {
        Some((c as u8) - 0x30)
    } else if c >= 'a' && c <= 'f' {
        Some((c as u8) - 0x61 + 10)
    } else if c >= 'A' && c <= 'F' {
        Some((c as u8) - 0x41 + 10)
    } else {
        None
    }
}

/// The first position at or after `from` that holds no whitespace.
fn skip_ws(s: &str, from: usize) -> (r: usize)
    requires
        from <= s@.len(),
    ensures
        from <= r <= s@.len(),
        r == ws_end(s@, from as int),
{
    let n = s.unicode_len();
    let mut i = from;
    while i < n && is_ws(s.get_char(i))
        invariant
            from <= i <= n,
            n == s@.len(),
            ws_end(s@, from as int) == ws_end(s@, i as int),
        decreases n - i,
    {
        i = i + 1;
    }
    i
}

/// Reads an identifier starting at `from`.
fn parse_ident(s: &str, from: usize) -> (r: (String, usize))
    requires
        from < s@.len(),
        'A' <= s@[from as int] && s@[from as int] <= 'Z' || 'a' <= s@[from as int] && s@[from as int]
            <= 'z' || s@[from as int] == '_',
    ensures
        from < r.1 <= s@.len(),
        r.0@ == s@.subrange(from as int, r.1 as int),
        r.1 == ident_end(s@, from as int + 1),
{
    let n = s.unicode_len();
    let mut j = from + 1;
    while j < n && is_ident_cont(s.get_char(j))
        invariant
            from < j <= n,
            n == s@.len(),
            ident_end(s@, from as int + 1) == ident_end(s@, j as int),
        decreases n - j,
    {
        j = j + 1;
    }
    (s.substring_char(from, j).to_owned(), j)
}

/// Reads a label-shaped name: an identifier, or `.` followed by one.
fn parse_name(s: &str, from: usize) -> (r: Result<(Label, usize), LineError>)
    requires
        from <= s@.len(),
    ensures
        r matches Ok(p) ==> (from < p.1 <= s@.len() && label_name_wf(p.0@)),
        r matches Err(e) ==> e.expected@.len() >= 1,
        (r matches Ok(p) ==> name_spec(s@, from as int) == Ok::<(Seq<char>, int), ParseFailV>(
            (p.0@, p.1 as int),
        )),
        (r matches Err(e) ==> name_spec(s@, from as int) == Err::<(Seq<char>, int), ParseFailV>(
            e@,
        )),
{
    let n = s.unicode_len();
    if from < n && s.get_char(from) == '.' {
        if from + 1 < n && is_ident_start(s.get_char(from + 1)) {
            let mut j = from + 2;
            while j < n && is_ident_cont(s.get_char(j))
                invariant
                    from + 2 <= j <= n,
                    n == s@.len(),
                    ident_end(s@, from as int + 2) == ident_end(s@, j as int),
                decreases n - j,
            {
                j = j + 1;
            }
            let name = s.substring_char(from, j).to_owned();
            proof {
                assert(name@[0] == s@[from as int]);
            }
            Ok((name, j))
        } else {
            Err(fail(from + 1, "an identifier"))
        }
    } else if from < n && is_ident_start(s.get_char(from)) {
        let (name, j) = parse_ident(s, from);
        proof {
            assert(name@[0] == s@[from as int]);
        }
        Ok((name, j))
    } else {
        Err(fail(from, "a label or mnemonic"))
    }
}

/// Reads a numeric literal: `0x` hexadecimal or decimal, at most 16 bits.
fn parse_number(s: &str, from: usize) -> (r: Result<(u16, usize), LineError>)
    requires
        from <= s@.len(),
    ensures
        r matches Ok(p) ==> from < p.1 <= s@.len(),
        r matches Err(e) ==> e.expected@.len() >= 1,
        (r matches Ok(p) ==> number_spec(s@, from as int) == Ok::<(u16, int), ParseFailV>(
            (p.0, p.1 as int),
        )),
        (r matches Err(e) ==> number_spec(s@, from as int) == Err::<(u16, int), ParseFailV>(e@)),
{
    let n = s.unicode_len();
    if from < n && from + 1 < n && s.get_char(from) == '0' && (s.get_char(from + 1) == 'x'
        || s.get_char(from + 1) == 'X') {
        if !(from + 2 < n && hex_value(s.get_char(from + 2)).is_some()) {
            return Err(fail(from + 2, "a hexadecimal digit"));
        }
        let mut j = from + 2;
        let mut val: u32 = 0;
        #[verifier::loop_isolation(false)]
        while j < n && hex_value(s.get_char(j)).is_some()
            invariant
                from + 2 <= j <= n,
                val <= 0xFFFF,
                hex_scan(s@, from as int + 2, 0) == hex_scan(s@, j as int, val as int),
            decreases n - j,
        {
            let d = match hex_value(s.get_char(j)) {
                Some(d) => d,
                None => vstd::pervasive::unreached(),
            };
            let ghost val0 = val as int;
            val = val * 16 + d as u32;
            if val > 0xFFFF {
                proof {
                    assert(hex_scan(s@, j as int, val0) == Err::<(u16, int), ()>(()));
                }
                return Err(fail(from, "a value of at most 16 bits"));
            }
            j = j + 1;
        }
        Ok((val as u16, j))
    } else if from < n && is_digit(s.get_char(from)) {
        let mut j = from;
        let mut val: u32 = 0;
        #[verifier::loop_isolation(false)]
        while j < n && is_digit(s.get_char(j))
            invariant
                from <= j <= n,
                val <= 0xFFFF,
                dec_scan(s@, from as int, 0) == dec_scan(s@, j as int, val as int),
            decreases n - j,
        {
            let d = (s.get_char(j) as u32) - 0x30;
            proof {
                assert('0' <= s@[j as int] && s@[j as int] <= '9');
            }
            let ghost val0 = val as int;
            val = val * 10 + d;
            if val > 0xFFFF {
                proof {
                    assert(dec_scan(s@, j as int, val0) == Err::<(u16, int), ()>(()));
                }
                return Err(fail(from, "a value of at most 16 bits"));
            }
            j = j + 1;
        }
        proof {
            assert(j > from);
        }
        Ok((val as u16, j))
    } else {
        Err(fail(from, "a number"))
    }
}

/// Reads a register: `R` followed by an index between 0 and 15.
fn parse_register(s: &str, from: usize) -> (r: Result<(Register, usize), LineError>)
    requires
        from <= s@.len(),
    ensures
        r matches Ok(p) ==> (from < p.1 <= s@.len() && p.0.0 <= 15),
        r matches Err(e) ==> e.expected@.len() >= 1,
        (r matches Ok(p) ==> register_spec(s@, from as int) == Ok::<(Register, int), ParseFailV>(
            (p.0, p.1 as int),
        )),
        (r matches Err(e) ==> register_spec(s@, from as int) == Err::<(Register, int), ParseFailV>(
            e@,
        )),
{
    let n = s.unicode_len();
    if from < n && s.get_char(from) == 'R' {
        match parse_number(s, from + 1) {
            Ok((val, j)) => {
                if val <= 15 {
                    match Register::new(val as u8) {
                        Ok(reg) => Ok((reg, j)),
                        Err(_) => vstd::pervasive::unreached(),
                    }
                } else {
                    Err(fail(from, "a register index between 0 and 15"))
                }
            },
            Err(_) => Err(fail(from, "a register")),
        }
    } else {
        Err(fail(from, "a register"))
    }
}

/// Reads an address operand: a label reference or a 16-bit immediate.
fn parse_addr(s: &str, from: usize) -> (r: Result<(Address, usize), LineError>)
    requires
        from <= s@.len(),
    ensures
        r matches Ok(p) ==> from < p.1 <= s@.len(),
        r matches Err(e) ==> e.expected@.len() >= 1,
        (r matches Ok(p) ==> addr_spec(s@, from as int) == Ok::<(AddrV, int), ParseFailV>(
            (addr_view(p.0), p.1 as int),
        )),
        (r matches Err(e) ==> addr_spec(s@, from as int) == Err::<(AddrV, int), ParseFailV>(e@)),
{
    let n = s.unicode_len();
    if from < n && (s.get_char(from) == '.' || is_ident_start(s.get_char(from))) {
        match parse_name(s, from) {
            Ok((name, j)) => Ok((Address::Label(name), j)),
            Err(e) => Err(e),
        }
    } else {
        match parse_number(s, from) {
            Ok((val, j)) => Ok((Address::Immediate(val), j)),
            Err(_) => Err(fail(from, "a label or address")),
        }
    }
}

/// Reads a narrow value operand: an immediate byte, or `hi(...)`/`lo(...)`
/// selecting one half of an address.
fn parse_value(s: &str, from: usize) -> (r: Result<(Value, usize), LineError>)
    requires
        from <= s@.len(),
    ensures
        r matches Ok(p) ==> (from < p.1 <= s@.len() && (p.0 matches Value::Addr(_, nib) ==> !(
        nib is Both))),
        r matches Err(e) ==> e.expected@.len() >= 1,
        (r matches Ok(p) ==> value_spec(s@, from as int) == Ok::<(ValueV, int), ParseFailV>(
            (value_view(p.0), p.1 as int),
        )),
        (r matches Err(e) ==> value_spec(s@, from as int) == Err::<(ValueV, int), ParseFailV>(
            e@,
        )),
{
    let n = s.unicode_len();
    if from < n && from + 1 < n && (s.get_char(from) == 'h' || s.get_char(from) == 'l') {
        let want_hi = s.get_char(from) == 'h';
        let second_ok = if want_hi {
            s.get_char(from + 1) == 'i'
        } else {
            s.get_char(from + 1) == 'o'
        };
        if second_ok {
            if from + 2 < n && s.get_char(from + 2) == '(' {
                match parse_addr(s, from + 3) {
                    Ok((addr, j)) => {
                        if j < n && s.get_char(j) == ')' {
                            let nib = if want_hi {
                                Nibble::High
                            } else {
                                Nibble::Low
                            };
                            return Ok((Value::Addr(addr, nib), j + 1));
                        }
                        return Err(fail(j, "')'"));
                    },
                    Err(e) => {
                        return Err(e);
                    },
                }
            }
            return Err(fail(from + 2, "'('"));
        }
    }
    match parse_number(s, from) {
        Ok((val, j)) => {
            if val <= 0xFF {
                Ok((Value::Immediate(val as u8), j))
            } else {
                Err(fail(from, "a value of at most 8 bits"))
            }
        },
        Err(_) => Err(fail(from, "a value")),
    }
}

/// Reads a double-quoted string without escapes.
fn parse_quoted(s: &str, from: usize) -> (r: Result<(String, usize), LineError>)
    requires
        from < s@.len(),
        s@[from as int] == '"',
    ensures
        r matches Ok(p) ==> from < p.1 <= s@.len(),
        r matches Err(e) ==> e.expected@.len() >= 1,
        (r matches Ok(p) ==> quoted_spec(s@, from as int) == Ok::<(Seq<char>, int), ParseFailV>(
            (p.0@, p.1 as int),
        )),
        (r matches Err(e) ==> quoted_spec(s@, from as int) == Err::<(Seq<char>, int), ParseFailV>(
            e@,
        )),
{
    let n = s.unicode_len();
    let mut j = from + 1;
    while j < n && s.get_char(j) != '"'
        invariant
            from < j <= n,
            n == s@.len(),
            quote_end(s@, from as int + 1) == quote_end(s@, j as int),
        decreases n - j,
    {
        j = j + 1;
    }
    if j < n {
        Ok((s.substring_char(from + 1, j).to_owned(), j + 1))
    } else {
        Err(fail(j, "'\"'"))
    }
}

/// Reads the item list of a `db` pseudo-op: bytes and strings, separated
/// by commas.
fn parse_db_items(s: &str, from: usize) -> (r: Result<(Vec<Serializable>, usize), LineError>)
    requires
        from <= s@.len(),
    ensures
        r matches Ok(p) ==> p.1 <= s@.len(),
        r matches Err(e) ==> e.expected@.len() >= 1,
        (r matches Ok(p) ==> db_items_spec(s@, ws_end(s@, from as int), Seq::empty())
            == Ok::<(Seq<SerV>, int), ParseFailV>((sers_view(p.0@), p.1 as int))),
        (r matches Err(e) ==> db_items_spec(s@, ws_end(s@, from as int), Seq::empty())
            == Err::<(Seq<SerV>, int), ParseFailV>(e@)),
{
    let n = s.unicode_len();
    let mut items: Vec<Serializable> = Vec::new();
    let i0 = skip_ws(s, from);
    let mut i = i0;
    proof {
        assert(sers_view(items@) =~= Seq::<SerV>::empty());
    }
    #[verifier::loop_isolation(false)]
    loop
        invariant
            i <= n,
            db_items_spec(s@, i0 as int, Seq::empty()) == db_items_spec(
                s@,
                i as int,
                sers_view(items@),
            ),
        decreases n - i,
    {
        let ghost acc0 = sers_view(items@);
        let ghost item_res = db_item_spec(s@, i as int);
        if i < n && s.get_char(i) == '"' {
            match parse_quoted(s, i) {
                Ok((text, j)) => {
                    items.push(Serializable::String(text));
                    proof {
                        assert(sers_view(items@) =~= acc0.push(SerV::Str(text@)));
                        assert(item_res == Ok::<(SerV, int), ParseFailV>(
                            (SerV::Str(text@), j as int),
                        ));
                    }
                    i = skip_ws(s, j);
                },
                Err(e) => {
                    return Err(e);
                },
            }
        } else {
            match parse_number(s, i) {
                Ok((val, j)) => {
                    if val > 0xFF {
                        return Err(fail(i, "a value of at most 8 bits"));
                    }
                    items.push(Serializable::Byte(val as u8));
                    proof {
                        assert(sers_view(items@) =~= acc0.push(SerV::Byte(val as u8)));
                        assert(item_res == Ok::<(SerV, int), ParseFailV>(
                            (SerV::Byte(val as u8), j as int),
                        ));
                    }
                    i = skip_ws(s, j);
                },
                Err(_) => {
                    return Err(fail(i, "a byte or string"));
                },
            }
        }
        if i < n && s.get_char(i) == ',' {
            i = skip_ws(s, i + 1);
            if i >= n {
                return Err(fail(i, "a byte or string"));
            }
        } else {
            return Ok((items, i));
        }
    }
}

/// Checks that nothing but whitespace remains.
fn expect_end(s: &str, from: usize) -> (r: Result<(), LineError>)
    requires
        from <= s@.len(),
    ensures
        r matches Err(e) ==> e.expected@.len() >= 1,
        (r is Ok <==> end_check(s@, from as int) is None),
        (r matches Err(e) ==> end_check(s@, from as int) == Some(e@)),
{
    let n = s.unicode_len();
    let i = skip_ws(s, from);
    if i < n {
        Err(fail(i, "end of line"))
    } else {
        Ok(())
    }
}

/// Reads the instruction that a mnemonic opens, operands included, and
/// checks that the line ends after it.
fn parse_instruction(s: &str, mnemonic: &Label, after: usize) -> (r: Result<
    (Instruction, usize),
    LineError,
>)
    requires
        after <= s@.len(),
    ensures
        r matches Ok(p) ==> (p.1 <= s@.len() && instr_wf(instr_view(p.0)) && !(p.0 is Include)),
        r matches Err(e) ==> e.expected@.len() >= 1,
        (r matches Ok(p) ==> instruction_spec(s@, mnemonic@, after as int) == Ok::<
            (InstrV, int),
            ParseFailV,
        >((instr_view(p.0), p.1 as int))),
        (r matches Err(e) ==> instruction_spec(s@, mnemonic@, after as int) == Err::<
            (InstrV, int),
            ParseFailV,
        >(e@)),
{
    let i = skip_ws(s, after);
    if str_eq(mnemonic.as_str(), "db") {
        match parse_db_items(s, i) {
            Ok((items, j)) => Ok((Instruction::Db(items), j)),
            Err(e) => Err(e),
        }
    } else if str_eq(mnemonic.as_str(), "ds") {
        match parse_number(s, i) {
            Ok((val, j)) => Ok((Instruction::Ds(val), j)),
            Err(e) => Err(e),
        }
    } else if str_eq(mnemonic.as_str(), "org") {
        match parse_number(s, i) {
            Ok((val, j)) => Ok((Instruction::Org(val), j)),
            Err(e) => Err(e),
        }
    } else {
        match opcode_for(mnemonic.as_str()) {
            None => Err(fail(i, "a known mnemonic")),
            Some(op) => {
                proof {
                    lemma_opcode_table_consistent(mnemonic@, op);
                }
                parse_operands(s, op, i)
            },
        }
    }
}

/// Reads the operands an opcode's form asks for.
fn parse_operands(s: &str, op: u8, from: usize) -> (r: Result<(Instruction, usize), LineError>)
    requires
        from <= s@.len(),
        crate::grammar::spec_mnemonic_of(op) is Some,
    ensures
        r matches Ok(p) ==> (p.1 <= s@.len() && instr_wf(instr_view(p.0)) && !(p.0 is Include)),
        r matches Err(e) ==> e.expected@.len() >= 1,
        (r matches Ok(p) ==> operands_spec(s@, op, from as int) == Ok::<(InstrV, int), ParseFailV>(
            (instr_view(p.0), p.1 as int),
        )),
        (r matches Err(e) ==> operands_spec(s@, op, from as int) == Err::<
            (InstrV, int),
            ParseFailV,
        >(e@)),
{
    if op <= 0x09 || op == 0x22 || op == 0x23 {
        // nop, sleep, break, sei, sec, sez, cli, clc, clz, ret, reti
        Ok((Instruction::Nullary(op), from))
    } else if op == 0x14 || op == 0x15 || op == 0x34 || op == 0x35 {
        // inc, dec, push, pop
        match parse_register(s, from) {
            Ok((reg, j)) => Ok((Instruction::UnaryReg(op, reg), j)),
            Err(e) => Err(e),
        }
    } else if op >= 0x20 && op <= 0x27 {
        // jmp, call, brc, brnc, brz, brnz
        match parse_addr(s, from) {
            Ok((addr, j)) => Ok((Instruction::UnaryAddr(op, addr), j)),
            Err(e) => Err(e),
        }
    } else if op == 0x1A || op == 0x31 || op == 0x3A || op == 0x3B {
        // cpi, ldi, in, out
        match parse_register(s, from) {
            Ok((reg, j)) => {
                let k = skip_ws(s, j);
                let n = s.unicode_len();
                if k < n && s.get_char(k) == ',' {
                    let m = skip_ws(s, k + 1);
                    match parse_value(s, m) {
                        Ok((val, j2)) => Ok((Instruction::BinaryRegIm(op, reg, val), j2)),
                        Err(e) => Err(e),
                    }
                } else {
                    Err(fail(k, "','"))
                }
            },
            Err(e) => Err(e),
        }
    } else {
        // add, adc, sub, sbc, and, or, xor, cp, mov, ld, st, lpm
        match parse_register(s, from) {
            Ok((reg0, j)) => {
                let k = skip_ws(s, j);
                let n = s.unicode_len();
                if k < n && s.get_char(k) == ',' {
                    let m = skip_ws(s, k + 1);
                    match parse_register(s, m) {
                        Ok((reg1, j2)) => Ok((Instruction::BinaryRegReg(op, reg0, reg1), j2)),
                        Err(e) => Err(e),
                    }
                } else {
                    Err(fail(k, "','"))
                }
            },
            Err(e) => Err(e),
        }
    }
}

/// Parses one raw source line: an optional label definition, then an
/// optional instruction or directive. Every accepted line is well formed.
pub fn parse_line(text: &str) -> (r: Result<Line, LineError>)
    ensures
        r matches Ok(l) ==> line_wf(line_view(l)),
        r matches Err(e) ==> e.expected@.len() >= 1,
        (r matches Ok(l) ==> parse_line_spec(text@) == Ok::<LineV, ParseFailV>(line_view(l))),
        (r matches Err(e) ==> parse_line_spec(text@) == Err::<LineV, ParseFailV>(e@)),
{
    let n = text.unicode_len();
    let i = skip_ws(text, 0);
    if i >= n {
        return Ok(Line { label: None, instruction: None });
    }
    let (name, j) = match parse_name(text, i) {
        Ok(p) => p,
        Err(e) => {
            return Err(e);
        },
    };
    if j < n && text.get_char(j) == ':' {
        // a label definition, possibly followed by an instruction
        let k = skip_ws(text, j + 1);
        if k >= n {
            return Ok(Line { label: Some(name), instruction: None });
        }
        let (mnem, j2) = match parse_name(text, k) {
            Ok(p) => p,
            Err(e) => {
                return Err(e);
            },
        };
        if str_eq(mnem.as_str(), "include") {
            match parse_include_path(text, j2) {
                Ok(path) => Ok(Line { label: Some(name), instruction: Some(
                    Instruction::Include(path),
                ) }),
                Err(e) => Err(e),
            }
        } else {
            match parse_instruction(text, &mnem, j2) {
                Ok((instr, j3)) => match expect_end(text, j3) {
                    Ok(()) => Ok(Line { label: Some(name), instruction: Some(instr) }),
                    Err(e) => Err(e),
                },
                Err(e) => Err(e),
            }
        }
    } else {
        // no label: the name is a mnemonic or directive
        if str_eq(name.as_str(), "include") {
            match parse_include_path(text, j) {
                Ok(path) => Ok(Line { label: None, instruction: Some(
                    Instruction::Include(path),
                ) }),
                Err(e) => Err(e),
            }
        } else {
            match parse_instruction(text, &name, j) {
                Ok((instr, j3)) => match expect_end(text, j3) {
                    Ok(()) => Ok(Line { label: None, instruction: Some(instr) }),
                    Err(e) => Err(e),
                },
                Err(e) => Err(e),
            }
        }
    }
}

/// Reads the quoted path of a file-inclusion directive and checks that the
/// line ends after it.
fn parse_include_path(s: &str, after: usize) -> (r: Result<String, LineError>)
    requires
        after <= s@.len(),
    ensures
        r matches Err(e) ==> e.expected@.len() >= 1,
        (r matches Ok(p) ==> include_path_spec(s@, after as int) == Ok::<Seq<char>, ParseFailV>(
            p@,
        )),
        (r matches Err(e) ==> include_path_spec(s@, after as int) == Err::<Seq<char>, ParseFailV>(
            e@,
        )),
{
    let n = s.unicode_len();
    let i = skip_ws(s, after);
    if i < n && s.get_char(i) == '"' {
        match parse_quoted(s, i) {
            Ok((path, j)) => match expect_end(s, j) {
                Ok(()) => Ok(path),
                Err(e) => Err(e),
            },
            Err(e) => Err(e),
        }
    } else {
        Err(fail(i, "'\"'"))
    }
}

} // verus!
