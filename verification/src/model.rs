//! The mathematical model of the code generator: what each instruction
//! writes, which relocation entries it records, how labels scope, how the
//! second pass patches the image, and how trailing zeros are stripped.

use vstd::prelude::*;

use crate::errors::CompileErrorV;
use crate::grammar::{Address, Instruction, Line, Nibble, Register, Serializable, Value};
use crate::grammar::{spec_mnemonic_of};

verus! {

/// The number of bytes in the output image: the full 16-bit address space.
pub const IMAGE_SIZE: usize = 0x10000;

/// A recorded relocation: patch the byte(s) at `pos` with the selected part
/// of the resolved address of `name` once all input is consumed.
#[verifier::ext_equal]
pub ghost struct RelocV {
    pub pos: int,
    pub name: Seq<char>,
    pub nib: Nibble,
}

/// The abstract state of the emitter between two lines: write cursor, output
/// image, resolved label table, pending relocations, and the current major
/// label that scopes local names.
#[verifier::ext_equal]
pub ghost struct EmitState {
    pub cursor: int,
    pub image: Seq<u8>,
    pub labels: Map<Seq<char>, u16>,
    pub relocs: Seq<RelocV>,
    pub major: Seq<char>,
}

/// The abstract form of an address operand.
pub ghost enum AddrV {
    Label(Seq<char>),
    Immediate(u16),
}

/// The abstract form of one `db` item.
pub ghost enum SerV {
    Byte(u8),
    Str(Seq<char>),
}

/// The abstract form of a narrow value operand.
pub ghost enum ValueV {
    Immediate(u8),
    Addr(AddrV, Nibble),
}

/// The abstract form of one instruction.
pub ghost enum InstrV {
    Db(Seq<SerV>),
    Ds(u16),
    Org(u16),
    Include(Seq<char>),
    Nullary(u8),
    UnaryReg(u8, Register),
    UnaryAddr(u8, AddrV),
    BinaryRegIm(u8, Register, ValueV),
    BinaryRegReg(u8, Register, Register),
}

/// The abstract form of one source line.
#[verifier::ext_equal]
pub ghost struct LineV {
    pub label: Option<Seq<char>>,
    pub instruction: Option<InstrV>,
}

/// What an address operand denotes.
pub open spec fn addr_view(a: Address) -> AddrV {
    match a {
        Address::Label(l) => AddrV::Label(l@),
        Address::Immediate(i) => AddrV::Immediate(i),
    }
}

/// What one `db` item denotes.
pub open spec fn ser_view(x: Serializable) -> SerV {
    match x {
        Serializable::Byte(b) => SerV::Byte(b),
        Serializable::String(t) => SerV::Str(t@),
    }
}

/// What a `db` item list denotes.
pub open spec fn sers_view(v: Seq<Serializable>) -> Seq<SerV> {
    v.map_values(|x: Serializable| ser_view(x))
}

/// What a narrow value operand denotes.
pub open spec fn value_view(v: Value) -> ValueV {
    match v {
        Value::Immediate(b) => ValueV::Immediate(b),
        Value::Addr(a, nib) => ValueV::Addr(addr_view(a), nib),
    }
}

/// What an instruction denotes.
pub open spec fn instr_view(i: Instruction) -> InstrV {
    match i {
        Instruction::Db(vs) => InstrV::Db(sers_view(vs@)),
        Instruction::Ds(n) => InstrV::Ds(n),
        Instruction::Org(p) => InstrV::Org(p),
        Instruction::Include(p) => InstrV::Include(p@),
        Instruction::Nullary(op) => InstrV::Nullary(op),
        Instruction::UnaryReg(op, r) => InstrV::UnaryReg(op, r),
        Instruction::UnaryAddr(op, a) => InstrV::UnaryAddr(op, addr_view(a)),
        Instruction::BinaryRegIm(op, r, v) => InstrV::BinaryRegIm(op, r, value_view(v)),
        Instruction::BinaryRegReg(op, r0, r1) => InstrV::BinaryRegReg(op, r0, r1),
    }
}

/// What a source line denotes.
pub open spec fn line_view(l: Line) -> LineV {
    LineV {
        label: match l.label {
            Some(s) => Some(s@),
            None => None,
        },
        instruction: match l.instruction {
            Some(i) => Some(instr_view(i)),
            None => None,
        },
    }
}

/// The opcode an abstract instruction carries, if any.
pub open spec fn instrv_opcode(i: InstrV) -> Option<u8> {
    match i {
        InstrV::Db(_) => None,
        InstrV::Ds(_) => None,
        InstrV::Org(_) => None,
        InstrV::Include(_) => None,
        InstrV::Nullary(op) => Some(op),
        InstrV::UnaryReg(op, _) => Some(op),
        InstrV::UnaryAddr(op, _) => Some(op),
        InstrV::BinaryRegIm(op, _, _) => Some(op),
        InstrV::BinaryRegReg(op, _, _) => Some(op),
    }
}

/// The high byte of a 16-bit word.
pub open spec fn hi_byte(w: u16) -> u8 {
    (w / 256) as u8
}

/// The low byte of a 16-bit word.
pub open spec fn lo_byte(w: u16) -> u8 {
    (w % 256) as u8
}

/// The image with `bs` written at position `at`; bytes elsewhere unchanged.
pub open spec fn write_bytes(img: Seq<u8>, at: int, bs: Seq<u8>) -> Seq<u8> {
    Seq::new(img.len(), |i: int| if at <= i < at + bs.len() { bs[i - at] } else { img[i] })
}

/// How many image bytes a relocation with this selector spans.
pub open spec fn nib_width(nib: Nibble) -> int {
    match nib {
        Nibble::Both => 2,
        Nibble::High => 1,
        Nibble::Low => 1,
    }
}

/// The image with one relocation patched: `Both` writes the high byte then
/// the low byte; `High`/`Low` write the corresponding single byte.
pub open spec fn patch_bytes(img: Seq<u8>, pos: int, nib: Nibble, addr: u16) -> Seq<u8> {
    match nib {
        Nibble::Both => write_bytes(img, pos, seq![hi_byte(addr), lo_byte(addr)]),
        Nibble::High => write_bytes(img, pos, seq![hi_byte(addr)]),
        Nibble::Low => write_bytes(img, pos, seq![lo_byte(addr)]),
    }
}

/// Whether a label name is local: it begins with the scope marker `.`.
pub open spec fn is_local_name(l: Seq<char>) -> bool {
    l.len() > 0 && l[0] == '.'
}

/// Whether a character opens a major label: an uppercase ASCII letter.
pub open spec fn is_upper_char(c: char) -> bool {
    'A' <= c && c <= 'Z'
}

/// The effective name of a label reference or definition: a local name is
/// qualified by the current major label, any other name stands for itself.
pub open spec fn eff_name(major: Seq<char>, l: Seq<char>) -> Seq<char> {
    if is_local_name(l) {
        major + l
    } else {
        l
    }
}

/// The bytes one `db` item emits: a literal byte verbatim, a string as its
/// raw UTF-8 bytes with no terminator and no length prefix.
pub open spec fn serializable_bytes(s: SerV) -> Seq<u8> {
    match s {
        SerV::Byte(b) => seq![b],
        SerV::Str(t) => vstd::utf8::encode_utf8(t),
    }
}

/// The bytes a whole `db` item list emits, in order.
pub open spec fn db_bytes(items: Seq<SerV>) -> Seq<u8>
    decreases items.len(),
{
    if items.len() == 0 {
        seq![]
    } else {
        serializable_bytes(items[0]) + db_bytes(items.drop_first())
    }
}

/// The two bytes of a full-word address slot written at `at`, with the
/// relocation it records: an immediate is written high byte first; a label
/// reference writes a zero placeholder and records a `Both` relocation under
/// its effective name.
pub open spec fn addr_bytes(a: AddrV, at: int, major: Seq<char>) -> (Seq<u8>, Seq<RelocV>) {
    match a {
        AddrV::Immediate(i) => (seq![hi_byte(i), lo_byte(i)], seq![]),
        AddrV::Label(l) => (
            seq![0u8, 0u8],
            seq![RelocV { pos: at, name: eff_name(major, l), nib: Nibble::Both }],
        ),
    }
}

/// The one byte of a narrow value slot written at `at`, with the relocation
/// it records: a raw immediate verbatim; an immediate address reduced to the
/// selected half; a label reference as a zero placeholder plus a relocation
/// carrying the selector.
pub open spec fn value_bytes(v: ValueV, at: int, major: Seq<char>) -> (Seq<u8>, Seq<RelocV>) {
    match v {
        ValueV::Immediate(b) => (seq![b], seq![]),
        ValueV::Addr(a, nib) => match a {
            AddrV::Label(l) => (
                seq![0u8],
                seq![RelocV { pos: at, name: eff_name(major, l), nib: nib }],
            ),
            AddrV::Immediate(i) => match nib {
                Nibble::High => (seq![hi_byte(i)], seq![]),
                Nibble::Low => (seq![lo_byte(i)], seq![]),
                // unreachable under `instr_wf`, which keeps `Both` out of
                // narrow slots; any total value serves here
                Nibble::Both => (seq![hi_byte(i)], seq![]),
            },
        },
    }
}

/// The dispatch table: the bytes an instruction writes at cursor `at`
/// (placeholders written as zero) and the relocations it records. `Ds`,
/// `Org` and `Include` write nothing.
pub open spec fn instr_bytes_relocs(i: InstrV, at: int, major: Seq<char>) -> (
    Seq<u8>,
    Seq<RelocV>,
) {
    match i {
        InstrV::Db(vs) => (db_bytes(vs), seq![]),
        InstrV::Ds(_) => (seq![], seq![]),
        InstrV::Org(_) => (seq![], seq![]),
        InstrV::Include(_) => (seq![], seq![]),
        InstrV::Nullary(op) => (seq![op], seq![]),
        InstrV::UnaryReg(op, r) => (seq![op, r.0], seq![]),
        InstrV::UnaryAddr(op, a) => {
            let (bs, rs) = addr_bytes(a, at + 1, major);
            (seq![op] + bs, rs)
        },
        InstrV::BinaryRegIm(op, r, v) => {
            let (bs, rs) = value_bytes(v, at + 2, major);
            (seq![op, r.0] + bs, rs)
        },
        InstrV::BinaryRegReg(op, r0, r1) => (
            seq![op, (r0.0 * 16 + r1.0) as u8],
            seq![],
        ),
    }
}

/// Whether an instruction is rejected by the active whitelist: it carries an
/// opcode and the whitelist does not contain it. Pseudo-ops are never
/// rejected, and without a whitelist everything is permitted.
pub open spec fn wl_rejects(i: InstrV, wl: Option<Set<u8>>) -> bool {
    match (instrv_opcode(i), wl) {
        (Some(op), Some(w)) => !w.contains(op),
        _ => false,
    }
}

/// A well-formed label definition name: nonempty, opening with an ASCII
/// letter, underscore or the scope marker. The parser guarantees this.
pub open spec fn label_name_wf(l: Seq<char>) -> bool {
    l.len() > 0 && (is_upper_char(l[0]) || ('a' <= l[0] && l[0] <= 'z') || l[0] == '_' || l[0]
        == '.')
}

/// A well-formed instruction, as the parser guarantees it: opcodes come from
/// the canonical table, packed register pairs are 4-bit, and a narrow value
/// slot never carries a full-word selector.
pub open spec fn instr_wf(i: InstrV) -> bool {
    &&& (instrv_opcode(i) matches Some(op) ==> spec_mnemonic_of(op) is Some)
    &&& match i {
        InstrV::BinaryRegReg(_, r0, r1) => r0.0 <= 15 && r1.0 <= 15,
        InstrV::BinaryRegIm(_, _, v) => match v {
            ValueV::Addr(_, nib) => !(nib is Both),
            ValueV::Immediate(_) => true,
        },
        _ => true,
    }
}

/// A well-formed line, as the parser guarantees it.
pub open spec fn line_wf(line: LineV) -> bool {
    &&& (line.label matches Some(l) ==> label_name_wf(l))
    &&& (line.instruction matches Some(i) ==> instr_wf(i))
}

/// The label-definition step: an uppercase-initial name becomes the new
/// major label, then the definition's effective name is bound to the current
/// cursor, overwriting any prior binding.
pub open spec fn label_def_step(s: EmitState, l: Seq<char>) -> EmitState {
    let major2 = if is_upper_char(l[0]) {
        l
    } else {
        s.major
    };
    EmitState {
        major: major2,
        labels: s.labels.insert(eff_name(major2, l), s.cursor as u16),
        ..s
    }
}

/// The instruction step: the whitelist gate, then the dispatch-table write.
/// A write or cursor move beyond the address space is a fatal overflow.
pub open spec fn instr_step(s: EmitState, i: InstrV, wl: Option<Set<u8>>) -> Result<
    EmitState,
    CompileErrorV,
> {
    if wl_rejects(i, wl) {
        Err(
            CompileErrorV::DisallowedInstruction {
                mnemonic: spec_mnemonic_of(instrv_opcode(i).unwrap()).unwrap(),
            },
        )
    } else {
        match i {
            InstrV::Ds(n) => if s.cursor + n > IMAGE_SIZE as int {
                Err(CompileErrorV::Overflow)
            } else {
                Ok(EmitState { cursor: s.cursor + n, ..s })
            },
            InstrV::Org(p) => Ok(EmitState { cursor: p as int, ..s }),
            _ => {
                let (bs, rs) = instr_bytes_relocs(i, s.cursor, s.major);
                if s.cursor + bs.len() > IMAGE_SIZE as int {
                    Err(CompileErrorV::Overflow)
                } else {
                    Ok(
                        EmitState {
                            cursor: s.cursor + bs.len(),
                            image: write_bytes(s.image, s.cursor, bs),
                            relocs: s.relocs + rs,
                            ..s
                        },
                    )
                }
            },
        }
    }
}

/// One line's effect on the emitter: the label definition, if present, then
/// the instruction, if present. `Include` never reaches this step.
pub open spec fn process_spec(s: EmitState, line: LineV, wl: Option<Set<u8>>) -> Result<
    EmitState,
    CompileErrorV,
> {
    let after_label = match line.label {
        Some(l) => if s.cursor > 0xFFFF {
            Err(CompileErrorV::Overflow)
        } else {
            Ok(label_def_step(s, l))
        },
        None => Ok(s),
    };
    match after_label {
        Err(e) => Err(e),
        Ok(s1) => match line.instruction {
            None => Ok(s1),
            Some(i) => instr_step(s1, i, wl),
        },
    }
}

/// The state after a line's label definition alone, where the cursor still
/// fits an address: what the emitter holds when the whitelist then rejects
/// the line's instruction.
pub open spec fn label_phase(s: EmitState, line: LineV) -> EmitState {
    match line.label {
        Some(l) => label_def_step(s, l),
        None => s,
    }
}

/// The second pass: patch each relocation in order; the first entry whose
/// effective name is undefined fails the whole compile.
pub open spec fn resolve_spec(
    img: Seq<u8>,
    relocs: Seq<RelocV>,
    labels: Map<Seq<char>, u16>,
) -> Result<Seq<u8>, CompileErrorV>
    decreases relocs.len(),
{
    if relocs.len() == 0 {
        Ok(img)
    } else {
        let r0 = relocs[0];
        if !labels.contains_key(r0.name) {
            Err(CompileErrorV::UndefinedLabel { name: r0.name })
        } else {
            resolve_spec(patch_bytes(img, r0.pos, r0.nib, labels[r0.name]), relocs.drop_first(), labels)
        }
    }
}

/// The image without its trailing run of zero bytes.
pub open spec fn strip_spec(s: Seq<u8>) -> Seq<u8>
    decreases s.len(),
{
    if s.len() > 0 && s.last() == 0 {
        strip_spec(s.drop_last())
    } else {
        s
    }
}

/// Appending one `db` item appends its bytes.
pub proof fn lemma_db_bytes_push(items: Seq<SerV>, x: SerV)
    ensures
        db_bytes(items.push(x)) == db_bytes(items) + serializable_bytes(x),
    decreases items.len(),
{
    if items.len() == 0 {
        assert(items.push(x).drop_first() =~= Seq::<SerV>::empty());
        assert(items.push(x)[0] == x);
        assert(db_bytes(Seq::<SerV>::empty()) == Seq::<u8>::empty());
        assert(db_bytes(items.push(x)) == serializable_bytes(x) + Seq::<u8>::empty());
        assert(db_bytes(items.push(x)) =~= db_bytes(items) + serializable_bytes(x));
    } else {
        lemma_db_bytes_push(items.drop_first(), x);
        assert(items.push(x).drop_first() =~= items.drop_first().push(x));
        assert(items.push(x)[0] == items[0]);
        assert(db_bytes(items.push(x)) == serializable_bytes(items[0]) + (db_bytes(
            items.drop_first(),
        ) + serializable_bytes(x)));
        assert(db_bytes(items.push(x)) =~= db_bytes(items) + serializable_bytes(x));
    }
}

/// A `db` item list emits the bytes of any prefix followed by the bytes of
/// the corresponding suffix.
pub proof fn lemma_db_bytes_split(items: Seq<SerV>, i: int)
    requires
        0 <= i <= items.len(),
    ensures
        db_bytes(items) == db_bytes(items.take(i)) + db_bytes(items.skip(i)),
    decreases i,
{
    if i == 0 {
        assert(items.take(0) =~= Seq::<SerV>::empty());
        assert(items.skip(0) =~= items);
        assert(db_bytes(items) =~= db_bytes(items.take(0)) + db_bytes(items.skip(0)));
    } else {
        lemma_db_bytes_split(items, i - 1);
        assert(items.skip(i - 1).drop_first() =~= items.skip(i));
        assert(items.skip(i - 1)[0] == items[i - 1]);
        assert(items.take(i) =~= items.take(i - 1).push(items[i - 1]));
        lemma_db_bytes_push(items.take(i - 1), items[i - 1]);
        assert(db_bytes(items) =~= db_bytes(items.take(i)) + db_bytes(items.skip(i)));
    }
}

/// When the second pass succeeds, and when it fails: it succeeds exactly
/// when every relocation's effective name is defined, and otherwise the
/// whole compile fails with the first undefined name — never with a partial
/// image.
pub proof fn lemma_resolve_characterization(
    img: Seq<u8>,
    relocs: Seq<RelocV>,
    labels: Map<Seq<char>, u16>,
)
    ensures
        (resolve_spec(img, relocs, labels) is Ok) <==> (forall|i: int|
            0 <= i < relocs.len() ==> labels.contains_key((#[trigger] relocs[i]).name)),
        resolve_spec(img, relocs, labels) matches Err(e) ==> exists|i: int|
            #![auto]
            0 <= i < relocs.len() && !labels.contains_key(relocs[i].name) && e
                == (CompileErrorV::UndefinedLabel { name: relocs[i].name }) && (forall|j: int|
                0 <= j < i ==> labels.contains_key(relocs[j].name)),
    decreases relocs.len(),
{
    if relocs.len() == 0 {
    } else {
        let r0 = relocs[0];
        if !labels.contains_key(r0.name) {
        } else {
            lemma_resolve_characterization(
                patch_bytes(img, r0.pos, r0.nib, labels[r0.name]),
                relocs.drop_first(),
                labels,
            );
            assert(forall|i: int|
                1 <= i < relocs.len() ==> relocs[i] == relocs.drop_first()[i - 1]);
            if resolve_spec(img, relocs, labels) is Err {
                let e = resolve_spec(img, relocs, labels)->Err_0;
                let i = choose|i: int|
                    #![auto]
                    0 <= i < relocs.drop_first().len() && !labels.contains_key(
                        relocs.drop_first()[i].name,
                    ) && e == (CompileErrorV::UndefinedLabel { name: relocs.drop_first()[i].name })
                        && (forall|j: int|
                        0 <= j < i ==> labels.contains_key(relocs.drop_first()[j].name));
                assert(0 <= i + 1 < relocs.len() && !labels.contains_key(relocs[i + 1].name) && e
                    == (CompileErrorV::UndefinedLabel { name: relocs[i + 1].name }) && (forall|
                    j: int,
                |
                    0 <= j < i + 1 ==> labels.contains_key(relocs[j].name)));
            }
        }
    }
}

/// How trimming relates the output to the image: the output is the prefix
/// of the image up to and including its last nonzero byte, so the output's
/// length is that byte's index plus one, and an image of nothing but zeros
/// yields an empty output.
pub proof fn lemma_strip_characterization(s: Seq<u8>)
    ensures
        strip_spec(s).len() <= s.len(),
        strip_spec(s) == s.take(strip_spec(s).len() as int),
        forall|i: int| strip_spec(s).len() <= i < s.len() ==> s[i] == 0,
        strip_spec(s).len() > 0 ==> strip_spec(s).last() != 0,
        (forall|i: int| 0 <= i < s.len() ==> s[i] == 0) <==> strip_spec(s).len() == 0,
    decreases s.len(),
{
    if s.len() > 0 && s.last() == 0 {
        lemma_strip_characterization(s.drop_last());
        assert(s.drop_last().take(strip_spec(s).len() as int) =~= s.take(
            strip_spec(s).len() as int,
        ));
        assert(forall|i: int|
            strip_spec(s).len() <= i < s.len() - 1 ==> s.drop_last()[i] == s[i]);
    } else {
        assert(s.take(s.len() as int) =~= s);
        if s.len() > 0 {
            assert(s[s.len() - 1] != 0);
        }
    }
}

/// Two consecutive writes are one write of the concatenation.
pub proof fn lemma_write_bytes_concat(img: Seq<u8>, at: int, a: Seq<u8>, b: Seq<u8>)
    ensures
        write_bytes(write_bytes(img, at, a), at + a.len(), b) == write_bytes(img, at, a + b),
{
    assert(write_bytes(write_bytes(img, at, a), at + a.len(), b) =~= write_bytes(img, at, a + b));
}

} // verus!
