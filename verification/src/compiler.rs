//! The two-pass code generator. The first pass consumes lines, updates the
//! label table and writes bytes (zero placeholders for unresolved label
//! operands, recorded as relocation entries); the second pass patches every
//! relocation and trims the image.

use vstd::prelude::*;

use crate::errors::{CompileError, CompileErrorV};
use crate::filestack::{FileStack, FrameV, lines_view, pop_spec, total_lines, lemma_pop_spec_total};
use crate::parser::parse_line_spec;
use crate::grammar::{Address, Instruction, Label, Line, Nibble, Opcode, Register, Serializable, Value};
use crate::model::{
    EmitState, IMAGE_SIZE, InstrV, RelocV, addr_bytes, addr_view, db_bytes,
    eff_name, hi_byte, instr_bytes_relocs, instr_step, instr_view, instrv_opcode, label_def_step,
    label_phase, lemma_db_bytes_push, lemma_db_bytes_split, lemma_resolve_characterization,
    lemma_strip_characterization, lemma_write_bytes_concat, line_view, line_wf, lo_byte,
    nib_width, patch_bytes, process_spec, resolve_spec, ser_view, serializable_bytes, sers_view,
    strip_spec, value_bytes, value_view, wl_rejects, write_bytes,
};

verus! {

/// The state of one compile invocation.
pub struct Compiler {
    cursor: usize,
    output: Vec<u8>,
    label_map: Vec<(Label, u16)>,
    needs_label: Vec<(usize, Label, Nibble)>,
    last_major_label: Label,
    enabled_instructions: Option<Vec<Opcode>>,
    file_stack: FileStack,
}

/// The label table a definition list denotes: later bindings of the same
/// effective name overwrite earlier ones.
pub open spec fn label_map_of(entries: Seq<(Label, u16)>) -> Map<Seq<char>, u16>
    decreases entries.len(),
{
    if entries.len() == 0 {
        Map::empty()
    } else {
        label_map_of(entries.drop_last()).insert(entries.last().0@, entries.last().1)
    }
}

/// The abstract form of recorded relocation entries.
pub open spec fn relocs_view(rs: Seq<(usize, Label, Nibble)>) -> Seq<RelocV> {
    rs.map_values(|r: (usize, Label, Nibble)| RelocV { pos: r.0 as int, name: r.1@, nib: r.2 })
}

impl Compiler {
    /// The image is exactly the address space, the cursor never leaves it,
    /// and every relocation spans bytes inside it.
    pub closed spec fn wf(&self) -> bool {
        &&& self.output@.len() == IMAGE_SIZE
        &&& self.cursor <= IMAGE_SIZE
        &&& forall|i: int|
            0 <= i < self.needs_label@.len() ==> #[trigger] self.needs_label@[i].0
                + nib_width(self.needs_label@[i].2) <= IMAGE_SIZE
        &&& self.file_stack.wf()
    }

    /// The abstract emitter state this compiler is in.
    pub closed spec fn emit_state(&self) -> EmitState {
        EmitState {
            cursor: self.cursor as int,
            image: self.output@,
            labels: label_map_of(self.label_map@),
            relocs: relocs_view(self.needs_label@),
            major: self.last_major_label@,
        }
    }

    /// The set of permitted opcodes, if a whitelist is active.
    pub closed spec fn wl_view(&self) -> Option<Set<u8>> {
        match self.enabled_instructions {
            None => None,
            Some(v) => Some(Set::new(|op: u8| v@.contains(op))),
        }
    }

    /// The label-definition entries, in the order they were made.
    pub closed spec fn label_entries(&self) -> Seq<(Label, u16)> {
        self.label_map@
    }

    /// Writes raw bytes at the cursor and advances it; a write that would
    /// leave the address space is a fatal overflow and changes nothing.
    fn write(&mut self, bs: &[u8]) -> (r: Result<(), CompileError>)
        requires
            old(self).wf(),
        ensures
            final(self).wf(),
            final(self).label_map == old(self).label_map,
            final(self).needs_label == old(self).needs_label,
            final(self).last_major_label == old(self).last_major_label,
            final(self).enabled_instructions == old(self).enabled_instructions,
            final(self).file_stack == old(self).file_stack,
            if old(self).cursor + bs@.len() <= IMAGE_SIZE {
                &&& r is Ok
                &&& final(self).cursor == old(self).cursor + bs@.len()
                &&& final(self).output@ == write_bytes(old(self).output@, old(self).cursor as int, bs@)
            } else {
                &&& (r matches Err(e) && e@ == CompileErrorV::Overflow)
                &&& *final(self) == *old(self)
            },
    {
        if bs.len() > IMAGE_SIZE - self.cursor {
            return Err(CompileError::OverflowError);
        }
        let ghost img0 = self.output@;
        let ghost c0 = self.cursor as int;
        let mut i: usize = 0;
        while i < bs.len()
            invariant
                i <= bs@.len(),
                c0 == self.cursor as int,
                c0 + bs@.len() <= IMAGE_SIZE,
                self.output@.len() == img0.len() == IMAGE_SIZE,
                forall|j: int| 0 <= j < i ==> self.output@[c0 + j] == bs@[j],
                forall|j: int|
                    0 <= j < IMAGE_SIZE && !(c0 <= j < c0 + i) ==> self.output@[j] == img0[j],
                self.label_map == old(self).label_map,
                self.needs_label == old(self).needs_label,
                self.last_major_label == old(self).last_major_label,
                self.enabled_instructions == old(self).enabled_instructions,
                self.file_stack == old(self).file_stack,
            decreases bs@.len() - i,
        {
            let b = bs[i];
            self.output.set(self.cursor + i, b);
            i = i + 1;
        }
        proof {
            assert(self.output@ =~= write_bytes(img0, c0, bs@));
        }
        self.cursor = self.cursor + bs.len();
        Ok(())
    }

    /// Writes a 16-bit word, high byte first.
    fn write_word(&mut self, word: u16) -> (r: Result<(), CompileError>)
        requires
            old(self).wf(),
        ensures
            final(self).wf(),
            final(self).label_map == old(self).label_map,
            final(self).needs_label == old(self).needs_label,
            final(self).last_major_label == old(self).last_major_label,
            final(self).enabled_instructions == old(self).enabled_instructions,
            final(self).file_stack == old(self).file_stack,
            if old(self).cursor + 2 <= IMAGE_SIZE {
                &&& r is Ok
                &&& final(self).cursor == old(self).cursor + 2
                &&& final(self).output@ == write_bytes(
                    old(self).output@,
                    old(self).cursor as int,
                    seq![hi_byte(word), lo_byte(word)],
                )
            } else {
                &&& (r matches Err(e) && e@ == CompileErrorV::Overflow)
                &&& *final(self) == *old(self)
            },
    {
        let hi: u8 = ((word & 0xFF00) >> 8) as u8;
        let lo: u8 = (word & 0x00FF) as u8;
        proof {
            assert((word & 0xFF00) >> 8 == word / 256 && (word & 0x00FF) == word % 256)
                by (bit_vector);
        }
        let bs = vec![hi, lo];
        assert(bs@ =~= seq![hi_byte(word), lo_byte(word)]);
        self.write(bs.as_slice())
    }

    /// Records a relocation entry to be patched by the second pass.
    fn record_reloc(&mut self, pos: usize, name: Label, nib: Nibble)
        requires
            old(self).wf(),
            pos + nib_width(nib) <= IMAGE_SIZE,
        ensures
            final(self).wf(),
            final(self).cursor == old(self).cursor,
            final(self).output == old(self).output,
            final(self).label_map == old(self).label_map,
            final(self).last_major_label == old(self).last_major_label,
            final(self).enabled_instructions == old(self).enabled_instructions,
            final(self).file_stack == old(self).file_stack,
            relocs_view(final(self).needs_label@) == relocs_view(old(self).needs_label@).push(
                RelocV { pos: pos as int, name: name@, nib: nib },
            ),
    {
        let ghost nm = name@;
        self.needs_label.push((pos, name, nib));
        proof {
            assert(relocs_view(self.needs_label@) =~= relocs_view(old(self).needs_label@).push(
                RelocV { pos: pos as int, name: nm, nib: nib },
            ));
        }
    }

    /// Writes a full-word address slot: a known immediate as its two bytes,
    /// high byte first; a label reference as a zero placeholder with a
    /// `Both` relocation under its effective name.
    fn write_address(&mut self, addr: Address) -> (r: Result<(), CompileError>)
        requires
            old(self).wf(),
        ensures
            final(self).wf(),
            final(self).label_map == old(self).label_map,
            final(self).last_major_label == old(self).last_major_label,
            final(self).enabled_instructions == old(self).enabled_instructions,
            final(self).file_stack == old(self).file_stack,
            if old(self).cursor + 2 <= IMAGE_SIZE {
                {
                    let (bs, rs) = addr_bytes(
                        addr_view(addr),
                        old(self).cursor as int,
                        old(self).last_major_label@,
                    );
                    &&& r is Ok
                    &&& final(self).cursor == old(self).cursor + 2
                    &&& final(self).output@ == write_bytes(
                        old(self).output@,
                        old(self).cursor as int,
                        bs,
                    )
                    &&& relocs_view(final(self).needs_label@) == relocs_view(
                        old(self).needs_label@,
                    ) + rs
                }
            } else {
                &&& (r matches Err(e) && e@ == CompileErrorV::Overflow)
                &&& *final(self) == *old(self)
            },
    {
        if IMAGE_SIZE - self.cursor < 2 {
            return Err(CompileError::OverflowError);
        }
        match addr {
            Address::Label(label) => {
                let name = effective_name(&self.last_major_label, &label);
                let pos = self.cursor;
                self.record_reloc(pos, name, Nibble::Both);
                let res = self.write_word(0x0000);
                proof {
                    let (bs, rs) = addr_bytes(
                        addr_view(addr),
                        old(self).cursor as int,
                        old(self).last_major_label@,
                    );
                    assert(seq![hi_byte(0u16), lo_byte(0u16)] =~= bs);
                    assert(relocs_view(self.needs_label@) =~= relocs_view(old(self).needs_label@)
                        + rs);
                }
                res
            },
            Address::Immediate(i) => self.write_word(i),
        }
    }

    /// Writes a narrow value slot: a raw immediate verbatim; an immediate
    /// address reduced to the selected half; a label reference as a zero
    /// placeholder with a relocation carrying the selector.
    fn write_value(&mut self, value: Value) -> (r: Result<(), CompileError>)
        requires
            old(self).wf(),
            value matches Value::Addr(_, nib) ==> !(nib is Both),
        ensures
            final(self).wf(),
            final(self).label_map == old(self).label_map,
            final(self).last_major_label == old(self).last_major_label,
            final(self).enabled_instructions == old(self).enabled_instructions,
            final(self).file_stack == old(self).file_stack,
            if old(self).cursor + 1 <= IMAGE_SIZE {
                {
                    let (bs, rs) = value_bytes(
                        value_view(value),
                        old(self).cursor as int,
                        old(self).last_major_label@,
                    );
                    &&& r is Ok
                    &&& final(self).cursor == old(self).cursor + 1
                    &&& final(self).output@ == write_bytes(
                        old(self).output@,
                        old(self).cursor as int,
                        bs,
                    )
                    &&& relocs_view(final(self).needs_label@) == relocs_view(
                        old(self).needs_label@,
                    ) + rs
                }
            } else {
                &&& (r matches Err(e) && e@ == CompileErrorV::Overflow)
                &&& *final(self) == *old(self)
            },
    {
        if IMAGE_SIZE - self.cursor < 1 {
            return Err(CompileError::OverflowError);
        }
        match value {
            Value::Immediate(v) => {
                let bs1 = vec![v];
                let r = self.write(bs1.as_slice());
                proof {
                    assert(bs1@ =~= seq![v]);
                    assert(relocs_view(self.needs_label@) =~= relocs_view(old(self).needs_label@)
                        + Seq::<RelocV>::empty());
                }
                r
            },
            Value::Addr(addr, nib) => match addr {
                Address::Label(label) => {
                    let name = effective_name(&self.last_major_label, &label);
                    let pos = self.cursor;
                    self.record_reloc(pos, name, nib);
                    let zs = vec![0u8];
                    let res = self.write(zs.as_slice());
                    proof {
                        let (bs, rs) = value_bytes(
                            value_view(value),
                            old(self).cursor as int,
                            old(self).last_major_label@,
                        );
                        assert(zs@ =~= bs);
                        assert(relocs_view(self.needs_label@) =~= relocs_view(
                            old(self).needs_label@,
                        ) + rs);
                    }
                    res
                },
                Address::Immediate(i) => {
                    let b: u8 = match nib {
                        Nibble::High => hi_of(i),
                        Nibble::Low => lo_of(i),
                        Nibble::Both => vstd::pervasive::unreached(),
                    };
                    let bs1 = vec![b];
                    let r = self.write(bs1.as_slice());
                    proof {
                        assert(bs1@ =~= seq![b]);
                        assert(relocs_view(self.needs_label@) =~= relocs_view(
                            old(self).needs_label@,
                        ) + Seq::<RelocV>::empty());
                    }
                    r
                },
            },
        }
    }

    /// Writes a packed register pair: the first index in the high nibble,
    /// the second in the low nibble.
    fn write_registers(&mut self, r0: Register, r1: Register) -> (r: Result<(), CompileError>)
        requires
            old(self).wf(),
            r0.0 <= 15,
            r1.0 <= 15,
        ensures
            final(self).wf(),
            final(self).label_map == old(self).label_map,
            final(self).needs_label == old(self).needs_label,
            final(self).last_major_label == old(self).last_major_label,
            final(self).enabled_instructions == old(self).enabled_instructions,
            final(self).file_stack == old(self).file_stack,
            if old(self).cursor + 1 <= IMAGE_SIZE {
                &&& r is Ok
                &&& final(self).cursor == old(self).cursor + 1
                &&& final(self).output@ == write_bytes(
                    old(self).output@,
                    old(self).cursor as int,
                    seq![(r0.0 * 16 + r1.0) as u8],
                )
            } else {
                &&& (r matches Err(e) && e@ == CompileErrorV::Overflow)
                &&& *final(self) == *old(self)
            },
    {
        let a = r0.0;
        let b = r1.0;
        proof {
            assert(a <= 15 && b <= 15 ==> (a << 4 | b) == a * 16 + b) by (bit_vector);
        }
        let packed: u8 = a << 4 | b;
        let bs1 = vec![packed];
        let r = self.write(bs1.as_slice());
        proof {
            assert(bs1@ =~= seq![(r0.0 * 16 + r1.0) as u8]);
        }
        r
    }

    /// Writes one `db` item: a literal byte as itself, a string as its raw
    /// bytes without a terminator.
    fn write_serializable(&mut self, value: &Serializable) -> (r: Result<(), CompileError>)
        requires
            old(self).wf(),
        ensures
            final(self).wf(),
            final(self).label_map == old(self).label_map,
            final(self).needs_label == old(self).needs_label,
            final(self).last_major_label == old(self).last_major_label,
            final(self).enabled_instructions == old(self).enabled_instructions,
            final(self).file_stack == old(self).file_stack,
            if old(self).cursor + serializable_bytes(ser_view(*value)).len() <= IMAGE_SIZE {
                &&& r is Ok
                &&& final(self).cursor == old(self).cursor + serializable_bytes(
                    ser_view(*value),
                ).len()
                &&& final(self).output@ == write_bytes(
                    old(self).output@,
                    old(self).cursor as int,
                    serializable_bytes(ser_view(*value)),
                )
            } else {
                &&& (r matches Err(e) && e@ == CompileErrorV::Overflow)
                &&& *final(self) == *old(self)
            },
    {
        match value {
            Serializable::Byte(b) => {
                let bs1 = vec![*b];
                let r = self.write(bs1.as_slice());
                proof {
                    assert(bs1@ =~= seq![*b]);
                }
                r
            },
            Serializable::String(s) => self.write(s.as_str().as_bytes()),
        }
    }
}

impl Compiler {
    /// One line's effect: record the label definition, if any, then gate the
    /// instruction through the whitelist and write its bytes per the
    /// dispatch table. `Include` lines are routed to the file stack before
    /// this point. A write or cursor move beyond the address space, or a
    /// label defined past its end, is a fatal overflow.
    fn process(&mut self, line: Line) -> (r: Result<(), CompileError>)
        requires
            old(self).wf(),
            line_wf(line_view(line)),
            !(line.instruction matches Some(Instruction::Include(_))),
        ensures
            final(self).wf(),
            final(self).enabled_instructions == old(self).enabled_instructions,
            final(self).file_stack == old(self).file_stack,
            (process_spec(old(self).emit_state(), line_view(line), old(self).wl_view())
                matches Ok(s2) ==> (r is Ok && final(self).emit_state() == s2)),
            (process_spec(old(self).emit_state(), line_view(line), old(self).wl_view())
                matches Err(e) ==> (r matches Err(er) && er@ == e)),
            (r matches Err(er) ==> (er@ matches CompileErrorV::DisallowedInstruction { .. }
                ==> final(self).emit_state() == label_phase(
                old(self).emit_state(),
                line_view(line),
            ))),
    {
        let ghost s0 = old(self).emit_state();
        let ghost wl = old(self).wl_view();
        let Line { label, instruction } = line;

        if let Some(lab) = label {
            if self.cursor > 0xFFFF {
                return Err(CompileError::OverflowError);
            }
            let c0 = lab.as_str().get_char(0);
            if c0 >= 'A' && c0 <= 'Z' {
                self.last_major_label = lab.clone();
            }
            let eff = effective_name(&self.last_major_label, &lab);
            let cur16: u16 = self.cursor as u16;
            self.label_map.push((eff, cur16));
            proof {
                assert(self.label_map@.drop_last() =~= old(self).label_map@);
                assert(self.emit_state() =~~= label_def_step(s0, lab@));
            }
        }
        let ghost s1 = self.emit_state();
        proof {
            assert(s1 == label_phase(s0, line_view(line)));
            assert(process_spec(s0, line_view(line), wl) == (match line_view(line).instruction {
                None => Ok::<EmitState, CompileErrorV>(s1),
                Some(i) => instr_step(s1, i, wl),
            }));
        }

        if let Some(instr) = instruction {
            let opc = instr.opcode();
            if let Some(op) = opc {
                let rejected = match &self.enabled_instructions {
                    Some(wlv) => !contains_opcode(wlv, op),
                    None => false,
                };
                if rejected {
                    proof {
                        assert(instrv_opcode(instr_view(instr)) == instr.spec_opcode());
                        assert(wl_rejects(instr_view(instr), wl));
                    }
                    match crate::grammar::mnemonic_for(op) {
                        Some(m) => {
                            return Err(
                                CompileError::DisallowedInstruction { mnemonic: m.to_owned() },
                            );
                        },
                        None => {
                            proof {
                                assert(false);
                            }
                            return vstd::pervasive::unreached();
                        },
                    }
                }
            }
            proof {
                assert(instrv_opcode(instr_view(instr)) == instr.spec_opcode());
                assert(!wl_rejects(instr_view(instr), wl));
            }

            let ghost c1 = self.cursor as int;
            let ghost img1 = self.output@;
            match instr {
                Instruction::Db(vs) => {
                    let ghost pre = *self;
                    let mut idx: usize = 0;
                    #[verifier::loop_isolation(false)]
                    while idx < vs.len()
                        invariant
                            self.wf(),
                            idx <= vs@.len(),
                            self.label_map == pre.label_map,
                            self.needs_label == pre.needs_label,
                            self.last_major_label == pre.last_major_label,
                            self.enabled_instructions == pre.enabled_instructions,
                            self.file_stack == pre.file_stack,
                            c1 == pre.cursor as int,
                            img1 == pre.output@,
                            img1.len() == IMAGE_SIZE,
                            self.cursor as int == c1 + db_bytes(sers_view(vs@).take(idx as int)).len(),
                            self.output@ == write_bytes(
                                img1,
                                c1,
                                db_bytes(sers_view(vs@).take(idx as int)),
                            ),
                        decreases vs@.len() - idx,
                    {
                        let item = &vs[idx];
                        proof {
                            assert(sers_view(vs@)[idx as int] == ser_view(vs@[idx as int]));
                        }
                        let res = self.write_serializable(item);
                        match res {
                            Ok(()) => {},
                            Err(e) => {
                                proof {
                                    let items = sers_view(vs@);
                                    lemma_db_bytes_split(items, idx as int);
                                    assert(items.skip(idx as int)[0] == items[idx as int]);
                                    assert(items.skip(idx as int).drop_first() =~= items.skip(
                                        idx as int + 1,
                                    ));
                                    assert(db_bytes(items.skip(idx as int)) == serializable_bytes(
                                        items[idx as int],
                                    ) + db_bytes(items.skip(idx as int + 1)));
                                    assert(c1 + db_bytes(items).len() > IMAGE_SIZE);
                                }
                                return Err(e);
                            },
                        }
                        proof {
                            let items = sers_view(vs@);
                            lemma_db_bytes_push(items.take(idx as int), items[idx as int]);
                            assert(items.take(idx as int).push(items[idx as int]) =~= items.take(
                                idx as int + 1,
                            ));
                            lemma_write_bytes_concat(
                                img1,
                                c1,
                                db_bytes(items.take(idx as int)),
                                serializable_bytes(items[idx as int]),
                            );
                        }
                        idx = idx + 1;
                    }
                    proof {
                        let items = sers_view(vs@);
                        assert(items.take(items.len() as int) =~= items);
                        assert(self.emit_state().relocs =~= s1.relocs + Seq::<RelocV>::empty());
                        assert(instr_step(s1, line_view(line).instruction->Some_0, wl) matches Ok(s2) ==> self.emit_state()
                            =~~= s2);
                    }
                    Ok(())
                },
                Instruction::Ds(n) => {
                    if (n as usize) > IMAGE_SIZE - self.cursor {
                        return Err(CompileError::OverflowError);
                    }
                    self.cursor = self.cursor + n as usize;
                    proof {
                        assert(instr_step(s1, line_view(line).instruction->Some_0, wl) matches Ok(s2) ==> self.emit_state()
                            =~~= s2);
                    }
                    Ok(())
                },
                Instruction::Org(pos) => {
                    self.cursor = pos as usize;
                    proof {
                        assert(instr_step(s1, line_view(line).instruction->Some_0, wl) matches Ok(s2) ==> self.emit_state()
                            =~~= s2);
                    }
                    Ok(())
                },
                Instruction::Include(_) => {
                    proof {
                        assert(false);
                    }
                    vstd::pervasive::unreached()
                },
                Instruction::Nullary(op) => {
                    let bs1 = vec![op];
                    let res = self.write(bs1.as_slice());
                    proof {
                        assert(bs1@ =~= seq![op]);
                        assert(self.emit_state().relocs =~= s1.relocs + Seq::<RelocV>::empty());
                        assert(instr_step(s1, line_view(line).instruction->Some_0, wl) matches Ok(s2) ==> self.emit_state()
                            =~~= s2);
                    }
                    res
                },
                Instruction::UnaryReg(op, rg) => {
                    let bs1 = vec![op, rg.0];
                    let res = self.write(bs1.as_slice());
                    proof {
                        assert(bs1@ =~= seq![op, rg.0]);
                        assert(self.emit_state().relocs =~= s1.relocs + Seq::<RelocV>::empty());
                        assert(instr_step(s1, line_view(line).instruction->Some_0, wl) matches Ok(s2) ==> self.emit_state()
                            =~~= s2);
                    }
                    res
                },
                Instruction::UnaryAddr(op, a) => {
                    let ghost ab = addr_bytes(addr_view(a), c1 + 1, s1.major);
                    let bs1 = vec![op];
                    match self.write(bs1.as_slice()) {
                        Ok(()) => {},
                        Err(e) => {
                            return Err(e);
                        },
                    }
                    let res = self.write_address(a);
                    proof {
                        assert(bs1@ =~= seq![op]);
                        if c1 + 3 <= IMAGE_SIZE as int {
                            lemma_write_bytes_concat(img1, c1, seq![op], ab.0);
                            assert(seq![op] + ab.0 =~= instr_bytes_relocs(
                                line_view(line).instruction->Some_0,
                                c1,
                                s1.major,
                            ).0);
                            assert(instr_step(s1, line_view(line).instruction->Some_0, wl) matches Ok(s2)
                                ==> self.emit_state() =~~= s2);
                        }
                    }
                    res
                },
                Instruction::BinaryRegIm(op, rg, v) => {
                    let ghost vb = value_bytes(value_view(v), c1 + 2, s1.major);
                    let bs1 = vec![op, rg.0];
                    match self.write(bs1.as_slice()) {
                        Ok(()) => {},
                        Err(e) => {
                            return Err(e);
                        },
                    }
                    let res = self.write_value(v);
                    proof {
                        assert(bs1@ =~= seq![op, rg.0]);
                        if c1 + 3 <= IMAGE_SIZE as int {
                            lemma_write_bytes_concat(img1, c1, seq![op, rg.0], vb.0);
                            assert(seq![op, rg.0] + vb.0 =~= instr_bytes_relocs(
                                line_view(line).instruction->Some_0,
                                c1,
                                s1.major,
                            ).0);
                            assert(instr_step(s1, line_view(line).instruction->Some_0, wl) matches Ok(s2)
                                ==> self.emit_state() =~~= s2);
                        }
                    }
                    res
                },
                Instruction::BinaryRegReg(op, r0, r1) => {
                    let bs1 = vec![op];
                    match self.write(bs1.as_slice()) {
                        Ok(()) => {},
                        Err(e) => {
                            return Err(e);
                        },
                    }
                    let res = self.write_registers(r0, r1);
                    proof {
                        assert(bs1@ =~= seq![op]);
                        if c1 + 2 <= IMAGE_SIZE as int {
                            lemma_write_bytes_concat(
                                img1,
                                c1,
                                seq![op],
                                seq![(r0.0 * 16 + r1.0) as u8],
                            );
                            assert(seq![op] + seq![(r0.0 * 16 + r1.0) as u8] =~= instr_bytes_relocs(
                                line_view(line).instruction->Some_0,
                                c1,
                                s1.major,
                            ).0);
                            assert(self.emit_state().relocs =~= s1.relocs + Seq::<
                                RelocV,
                            >::empty());
                            assert(instr_step(s1, line_view(line).instruction->Some_0, wl) matches Ok(s2)
                                ==> self.emit_state() =~~= s2);
                        }
                    }
                    res
                },
            }
        } else {
            Ok(())
        }
    }
}

impl Compiler {
    /// The second pass: patches every relocation entry in order; the first
    /// entry whose effective name was never defined fails the compile with
    /// an undefined-label error.
    fn resolve_labels(&mut self) -> (r: Result<(), CompileError>)
        requires
            old(self).wf(),
        ensures
            final(self).wf(),
            final(self).cursor == old(self).cursor,
            final(self).label_map == old(self).label_map,
            final(self).needs_label == old(self).needs_label,
            final(self).last_major_label == old(self).last_major_label,
            final(self).enabled_instructions == old(self).enabled_instructions,
            final(self).file_stack == old(self).file_stack,
            (resolve_spec(
                old(self).emit_state().image,
                old(self).emit_state().relocs,
                old(self).emit_state().labels,
            ) matches Ok(m) ==> (r is Ok && final(self).output@ == m)),
            (resolve_spec(
                old(self).emit_state().image,
                old(self).emit_state().relocs,
                old(self).emit_state().labels,
            ) matches Err(e) ==> (r matches Err(er) && er@ == e)),
    {
        let ghost big_l = label_map_of(self.label_map@);
        let ghost big_r = relocs_view(self.needs_label@);
        let ghost img0 = self.output@;
        let mut i: usize = 0;
        proof {
            assert(big_r.skip(0) =~= big_r);
        }
        #[verifier::loop_isolation(false)]
        while i < self.needs_label.len()
            invariant
                self.wf(),
                i <= self.needs_label@.len(),
                self.cursor == old(self).cursor,
                self.label_map == old(self).label_map,
                self.needs_label == old(self).needs_label,
                self.last_major_label == old(self).last_major_label,
                self.enabled_instructions == old(self).enabled_instructions,
                self.file_stack == old(self).file_stack,
                resolve_spec(img0, big_r, big_l) == resolve_spec(
                    self.output@,
                    big_r.skip(i as int),
                    big_l,
                ),
            decreases self.needs_label@.len() - i,
        {
            proof {
                assert(big_r.skip(i as int)[0] == big_r[i as int]);
                assert(big_r.skip(i as int).drop_first() =~= big_r.skip(i as int + 1));
            }
            let addr_opt = label_lookup(&self.label_map, self.needs_label[i].1.as_str());
            match addr_opt {
                None => {
                    let name = self.needs_label[i].1.clone();
                    return Err(CompileError::UndefinedLabel { name });
                },
                Some(addr) => {
                    let pos = self.needs_label[i].0;
                    let nib = self.needs_label[i].2;
                    let ghost imgp = self.output@;
                    match nib {
                        Nibble::Both => {
                            let hi = hi_of(addr);
                            let lo = lo_of(addr);
                            self.output.set(pos, hi);
                            self.output.set(pos + 1, lo);
                        },
                        Nibble::High => {
                            let hi = hi_of(addr);
                            self.output.set(pos, hi);
                        },
                        Nibble::Low => {
                            let lo = lo_of(addr);
                            self.output.set(pos, lo);
                        },
                    }
                    proof {
                        assert(self.output@ =~= patch_bytes(imgp, pos as int, nib, addr));
                    }
                },
            }
            i = i + 1;
        }
        proof {
            assert(big_r.skip(big_r.len() as int) =~= Seq::<RelocV>::empty());
        }
        Ok(())
    }

    /// Ends a compile whose input is exhausted: patches every relocation,
    /// strips the image's trailing zeros, and serializes the label table.
    fn finalize(&mut self) -> (r: Result<(Vec<u8>, String), CompileError>)
        requires
            old(self).wf(),
        ensures
            final(self).wf(),
            (resolve_spec(
                old(self).emit_state().image,
                old(self).emit_state().relocs,
                old(self).emit_state().labels,
            ) matches Ok(m) ==> (r matches Ok(out) && out.0@ == strip_spec(m) && out.1@
                == crate::symbols::json_object_of(old(self).emit_state().labels)
                && final(self).output@ == m)),
            final(self).label_map == old(self).label_map,
            final(self).needs_label == old(self).needs_label,
            final(self).cursor == old(self).cursor,
            final(self).last_major_label == old(self).last_major_label,
            final(self).enabled_instructions == old(self).enabled_instructions,
            final(self).file_stack == old(self).file_stack,
            (resolve_spec(
                old(self).emit_state().image,
                old(self).emit_state().relocs,
                old(self).emit_state().labels,
            ) matches Err(e) ==> (r matches Err(er) && er@ == e)),
    {
        match self.resolve_labels() {
            Ok(()) => {},
            Err(e) => {
                return Err(e);
            },
        }
        let mut out = vstd::slice::slice_to_vec(self.output.as_slice());
        strip_trailing_zeros(&mut out);
        let sym = crate::symbols::symbols_to_json(&self.label_map);
        Ok((out, sym))
    }
}

/// Looks an effective name up in the label table: the last binding wins.
fn label_lookup(entries: &Vec<(Label, u16)>, name: &str) -> (r: Option<u16>)
    ensures
        match r {
            Some(a) => label_map_of(entries@).contains_key(name@) && label_map_of(entries@)[name@]
                == a,
            None => !label_map_of(entries@).contains_key(name@),
        },
{
    let mut i: usize = entries.len();
    #[verifier::loop_isolation(false)]
    while i > 0
        invariant
            i <= entries@.len(),
            forall|j: int| i <= j < entries@.len() ==> entries@[j].0@ != name@,
        decreases i,
    {
        i = i - 1;
        if crate::text::str_eq(entries[i].0.as_str(), name) {
            proof {
                lemma_label_map_of_absent_suffix(entries@, name@, i as int + 1);
                assert(entries@.take(i as int + 1).drop_last() =~= entries@.take(i as int));
                assert(entries@.take(i as int + 1).last() == entries@[i as int]);
            }
            return Some(entries[i].1);
        }
    }
    proof {
        lemma_label_map_of_absent_suffix(entries@, name@, 0);
        assert(entries@.take(0) =~= Seq::<(Label, u16)>::empty());
    }
    None
}

/// Bindings whose keys differ from `k` do not affect `k`'s lookup: the
/// table of the whole list agrees with the table of a prefix, provided no
/// later entry binds `k`.
proof fn lemma_label_map_of_absent_suffix(entries: Seq<(Label, u16)>, k: Seq<char>, n: int)
    requires
        0 <= n <= entries.len(),
        forall|j: int| n <= j < entries.len() ==> entries[j].0@ != k,
    ensures
        label_map_of(entries).contains_key(k) == label_map_of(entries.take(n)).contains_key(k),
        label_map_of(entries).contains_key(k) ==> label_map_of(entries)[k] == label_map_of(
            entries.take(n),
        )[k],
    decreases entries.len() - n,
{
    if n == entries.len() {
        assert(entries.take(n) =~= entries);
    } else {
        lemma_label_map_of_absent_suffix(entries, k, n + 1);
        assert(entries.take(n + 1).drop_last() =~= entries.take(n));
        assert(entries.take(n + 1).last() == entries[n]);
    }
}

/// Pops trailing zero bytes off the image copy, leaving everything up to
/// and including the last nonzero byte.
fn strip_trailing_zeros(bytes: &mut Vec<u8>)
    ensures
        final(bytes)@ == strip_spec(old(bytes)@),
{
    #[verifier::loop_isolation(false)]
    while bytes.len() > 0 && bytes[bytes.len() - 1] == 0
        invariant
            strip_spec(old(bytes)@) == strip_spec(bytes@),
        decreases bytes@.len(),
    {
        let _ = bytes.pop();
    }
}

/// What one stretch of processing ended in.
pub enum CompileStep {
    /// The compile finished: the trimmed binary image and the serialized
    /// symbol table.
    Done(Vec<u8>, String),
    /// An include needs the file at this resolved path: hand its contents
    /// to `supply_file` and call `advance` again.
    NeedFile(String),
    /// The compile failed; no output is produced.
    Failed(CompileError),
}

/// The opcodes a whitelist configuration names.
pub open spec fn wl_set_of(ms: Seq<String>) -> Set<u8> {
    Set::new(
        |op: u8| exists|i: int| 0 <= i < ms.len() && crate::grammar::spec_opcode_of(ms[i]@) == Some(
            op,
        ),
    )
}

/// The numbered lines of a source text as they seed a frame: in reverse,
/// 1-based, the file's first line last so that it pops first.
pub open spec fn entry_frame_lines(src: Seq<char>) -> Seq<(usize, Seq<char>)> {
    let parts = crate::text::split_lines_spec(src);
    Seq::new(parts.len(), |j: int| ((parts.len() - j) as usize, parts[parts.len() - 1 - j]))
}

/// What a run of the compile loop ends in, abstractly: the finished
/// artifacts, a request for an included file together with the state the
/// compile pauses in, or the first error.
pub ghost enum StepV {
    Done(Seq<u8>, Seq<char>),
    Need(Seq<char>, EmitState, Seq<FrameV>),
    Fail(CompileErrorV),
}

/// The emitter state a compile opens in: cursor at the origin, a zeroed
/// image, no labels, no relocations, no major label.
pub open spec fn init_emit() -> EmitState {
    EmitState {
        cursor: 0,
        image: Seq::new(IMAGE_SIZE as nat, |i: int| 0u8),
        labels: Map::empty(),
        relocs: Seq::empty(),
        major: Seq::empty(),
    }
}

/// The whole compile loop over an emitter state and an inclusion stack:
/// pull the next line, parse it, route an include (pausing with its
/// resolved path) or emit it, and, when the stack is drained, patch every
/// relocation, strip the image's trailing zeros and serialize the label
/// table. The first error ends everything.
pub open spec fn drive_spec(s: EmitState, fs: Seq<FrameV>, wl: Option<Set<u8>>) -> StepV
    decreases total_lines(fs),
    when total_lines(fs) >= 0
    via drive_spec_dec
{
    match pop_spec(fs) {
        None => match resolve_spec(s.image, s.relocs, s.labels) {
            Ok(m) => StepV::Done(strip_spec(m), crate::symbols::json_object_of(s.labels)),
            Err(e) => StepV::Fail(e),
        },
        Some(p) => match crate::parser::parse_line_spec(p.0.1.1) {
            Err(pe) => StepV::Fail(
                CompileErrorV::Parse {
                    file: p.0.0,
                    line: p.0.1.0 as int,
                    column: pe.column,
                    expected: pe.expected,
                },
            ),
            Ok(lv) => match lv.instruction {
                Some(InstrV::Include(path)) => StepV::Need(
                    crate::text::resolve_path_spec(p.0.0, path),
                    s,
                    p.1,
                ),
                _ => match process_spec(s, lv, wl) {
                    Err(e) => StepV::Fail(e),
                    Ok(s2) => drive_spec(s2, p.1, wl),
                },
            },
        },
    }
}

#[via_fn]
proof fn drive_spec_dec(s: EmitState, fs: Seq<FrameV>, wl: Option<Set<u8>>) {
    lemma_pop_spec_total(fs);
    if pop_spec(fs) is Some {
        lemma_pop_spec_total(pop_spec(fs)->Some_0.1);
    }
}

impl Compiler {
    /// The inclusion stack's abstract frames.
    pub closed spec fn stack_frames(&self) -> Seq<FrameV> {
        self.file_stack.frames()
    }

    /// A fresh compile: zeroed image, cursor at the origin, no labels, no
    /// relocations, no whitelist, an empty inclusion stack.
    fn new() -> (r: Compiler)
        ensures
            r.wf(),
            r.emit_state().cursor == 0,
            r.emit_state().image.len() == IMAGE_SIZE,
            forall|i: int| 0 <= i < IMAGE_SIZE ==> r.emit_state().image[i] == 0u8,
            r.emit_state().labels == Map::<Seq<char>, u16>::empty(),
            r.emit_state().relocs == Seq::<RelocV>::empty(),
            r.emit_state().major == Seq::<char>::empty(),
            r.wl_view() is None,
            r.stack_frames() == Seq::<FrameV>::empty(),
    {
        let mut output: Vec<u8> = Vec::new();
        while output.len() < IMAGE_SIZE
            invariant
                output@.len() <= IMAGE_SIZE,
                forall|i: int| 0 <= i < output@.len() ==> output@[i] == 0u8,
            decreases IMAGE_SIZE - output@.len(),
        {
            output.push(0u8);
        }
        let r = Compiler {
            cursor: 0,
            output,
            label_map: Vec::new(),
            needs_label: Vec::new(),
            last_major_label: String::new(),
            enabled_instructions: None,
            file_stack: FileStack::new(),
        };
        proof {
            assert(relocs_view(r.needs_label@) =~= Seq::<RelocV>::empty());
        }
        r
    }

    /// Opens a compile of an entry source: validates the whitelist, if one
    /// is configured, before any source is processed, and seeds the
    /// inclusion stack with the source's lines. Fails exactly when the
    /// whitelist names a mnemonic outside the canonical table, with the
    /// first such name.
    pub fn begin(filename: &str, source: &str, whitelist: Option<Vec<String>>) -> (r: Result<
        Compiler,
        CompileError,
    >)
        ensures
            (match whitelist {
                Some(ms) => exists|k: int|
                    0 <= k < ms@.len() && crate::grammar::spec_opcode_of(
                        (#[trigger] ms@[k])@,
                    ) is None,
                None => false,
            }) <==> r is Err,
            r matches Err(e) ==> (whitelist matches Some(ms) && exists|k: int|
                #![auto]
                0 <= k < ms@.len() && crate::grammar::spec_opcode_of(ms@[k]@) is None && (forall|
                    j: int,
                |
                    0 <= j < k ==> crate::grammar::spec_opcode_of(ms@[j]@) is Some) && e@
                    == (CompileErrorV::UnknownWhitelistMnemonic { name: ms@[k]@ })),
            r matches Ok(c) ==> ({
                &&& c.wf()
                &&& c.emit_state().cursor == 0
                &&& c.emit_state().image.len() == IMAGE_SIZE
                &&& (forall|i: int| 0 <= i < IMAGE_SIZE ==> c.emit_state().image[i] == 0u8)
                &&& c.emit_state().labels == Map::<Seq<char>, u16>::empty()
                &&& c.emit_state().relocs == Seq::<RelocV>::empty()
                &&& c.emit_state().major == Seq::<char>::empty()
                &&& c.stack_frames() =~= seq![
                    FrameV { name: filename@, lines: entry_frame_lines(source@) },
                ]
                &&& match whitelist {
                    None => c.wl_view() is None,
                    Some(ms) => c.wl_view() == Some(wl_set_of(ms@)),
                }
            }),
    {
        let mut c = Compiler::new();
        if let Some(ms) = whitelist {
            let mut ops: Vec<Opcode> = Vec::new();
            let mut k: usize = 0;
            #[verifier::loop_isolation(false)]
            while k < ms.len()
                invariant
                    k <= ms@.len(),
                    forall|j: int|
                        0 <= j < k ==> crate::grammar::spec_opcode_of((#[trigger] ms@[j])@) is Some,
                    forall|op: u8|
                        #![auto]
                        ops@.contains(op) <==> exists|i: int|
                            0 <= i < k && crate::grammar::spec_opcode_of(ms@[i]@) == Some(op),
                decreases ms@.len() - k,
            {
                let ghost ops0 = ops@;
                match crate::grammar::opcode_for(ms[k].as_str()) {
                    Some(op) => {
                        ops.push(op);
                        proof {
                            assert(crate::grammar::spec_opcode_of(ms@[k as int]@) == Some(op));
                            assert forall|o: u8| #![auto] ops@.contains(o) implies (exists|i: int|
                                0 <= i < k + 1 && crate::grammar::spec_opcode_of(ms@[i]@) == Some(
                                o,
                            )) by {
                                let x = choose|x: int| 0 <= x < ops@.len() && ops@[x] == o;
                                if x < ops0.len() {
                                    assert(ops0[x] == o);
                                    assert(ops0.contains(o));
                                } else {
                                    assert(o == op);
                                    assert(crate::grammar::spec_opcode_of(ms@[k as int]@) == Some(
                                        o,
                                    ));
                                }
                            };
                            assert forall|o: u8| #![auto] (exists|i: int|
                                0 <= i < k + 1 && crate::grammar::spec_opcode_of(ms@[i]@) == Some(
                                o,
                            )) implies ops@.contains(o) by {
                                let i = choose|i: int|
                                    0 <= i < k + 1 && crate::grammar::spec_opcode_of(ms@[i]@)
                                        == Some(o);
                                if i < k {
                                    assert(ops0.contains(o));
                                    let x = choose|x: int|
                                        0 <= x < ops0.len() && ops0[x] == o;
                                    assert(ops@[x] == o);
                                } else {
                                    assert(o == op);
                                    assert(ops@[ops0.len() as int] == o);
                                }
                            };
                        }
                    },
                    None => {
                        return Err(
                            CompileError::UnknownWhitelistMnemonic { name: ms[k].clone() },
                        );
                    },
                }
                k = k + 1;
            }
            c.enabled_instructions = Some(ops);
            proof {
                assert(Set::new(|op: u8| ops@.contains(op)) =~= wl_set_of(ms@));
            }
        }
        let ls = crate::text::split_numbered_lines(source);
        proof {
            assert(lines_view(ls@) =~= entry_frame_lines(source@));
        }
        c.file_stack.init(filename, ls);
        Ok(c)
    }

    /// Hands an included file's contents to the compile, after `advance`
    /// asked for them. Fails with a recursive-inclusion error, changing
    /// nothing, exactly when the resolved path is already anywhere on the
    /// active inclusion stack; otherwise the file's lines are pushed and
    /// will be drained before the including file resumes.
    pub fn supply_file(&mut self, path: &str, contents: &str) -> (r: Result<(), CompileError>)
        requires
            old(self).wf(),
        ensures
            final(self).wf(),
            (exists|i: int|
                0 <= i < old(self).stack_frames().len() && (#[trigger] old(self).stack_frames()[i]).name
                    == path@) <==> r is Err,
            r matches Err(e) ==> (e@ == (CompileErrorV::RecursiveInclusion { path: path@ })
                && *final(self) == *old(self)),
            r is Ok ==> ({
                &&& final(self).stack_frames() == old(self).stack_frames().push(
                    FrameV { name: path@, lines: entry_frame_lines(contents@) },
                )
                &&& final(self).emit_state() == old(self).emit_state()
                &&& final(self).wl_view() == old(self).wl_view()
            }),
    {
        proof {
            assert(self.stack_frames() == self.file_stack.frames());
        }
        if self.file_stack.contains_path(path) {
            proof {
                let i = choose|i: int|
                    0 <= i < self.file_stack.frames().len() && (
                    #[trigger] self.file_stack.frames()[i]).name == path@;
                assert((#[trigger] self.stack_frames()[i]).name == path@);
            }
            return Err(CompileError::RecursiveInclusion { path: path.to_owned() });
        }
        proof {
            assert forall|i: int|
                0 <= i < old(self).stack_frames().len() implies (
            #[trigger] old(self).stack_frames()[i]).name != path@ by {
                assert(old(self).file_stack.frames()[i].name == old(self).stack_frames()[i].name);
            };
        }
        let ls = crate::text::split_numbered_lines(contents);
        proof {
            assert(lines_view(ls@) =~= entry_frame_lines(contents@));
        }
        self.file_stack.push_frame(path.to_owned(), ls);
        Ok(())
    }

    /// Runs the compile until it finishes, fails, or needs an included
    /// file, returning exactly what [`drive_spec`] says of the state it
    /// started in. Lines are pulled in inclusion order, parsed, routed — an
    /// include resolves its path and pauses the compile — or emitted. When
    /// the stack is drained, the second pass patches every relocation (any
    /// undefined name fails the whole compile), the image's trailing zeros
    /// are stripped, and the symbol table is serialized.
    pub fn advance(&mut self) -> (r: CompileStep)
        requires
            old(self).wf(),
        ensures
            final(self).wf(),
            final(self).wl_view() == old(self).wl_view(),
            ({
                let d = drive_spec(
                    old(self).emit_state(),
                    old(self).stack_frames(),
                    old(self).wl_view(),
                );
                &&& (d matches StepV::Done(bin, sym) ==> (r matches CompileStep::Done(b, t) && b@
                    == bin && t@ == sym))
                &&& (d matches StepV::Need(path, st, fs) ==> (r matches CompileStep::NeedFile(p)
                    && p@ == path && final(self).emit_state() == st && final(self).stack_frames()
                    == fs))
                &&& (d matches StepV::Fail(err) ==> (r matches CompileStep::Failed(e) && e@
                    == err))
            }),
            r matches CompileStep::Done(bin, sym) ==> ({
                &&& bin@ == strip_spec(final(self).emit_state().image)
                &&& sym@ == crate::symbols::json_object_of(final(self).emit_state().labels)
                &&& (forall|i: int|
                    0 <= i < final(self).emit_state().relocs.len()
                        ==> final(self).emit_state().labels.contains_key(
                        (#[trigger] final(self).emit_state().relocs[i]).name,
                    ))
                &&& final(self).stack_frames().len() == 0
            }),
    {
        #[verifier::loop_isolation(false)]
        loop
            invariant
                self.wf(),
                self.wl_view() == old(self).wl_view(),
                drive_spec(
                    old(self).emit_state(),
                    old(self).stack_frames(),
                    old(self).wl_view(),
                ) == drive_spec(self.emit_state(), self.stack_frames(), self.wl_view()),
            decreases total_lines(self.stack_frames()),
        {
            proof {
                lemma_pop_spec_total(self.stack_frames());
            }
            let ghost cur_s = self.emit_state();
            let ghost cur_fs = self.stack_frames();
            let ghost wl = self.wl_view();
            match self.file_stack.pop() {
                None => {
                    let ghost at_end = *self;
                    let res = self.finalize();
                    match res {
                        Ok((bin, sym)) => {
                            proof {
                                lemma_resolve_characterization(
                                    at_end.emit_state().image,
                                    at_end.emit_state().relocs,
                                    at_end.emit_state().labels,
                                );
                            }
                            return CompileStep::Done(bin, sym);
                        },
                        Err(e) => {
                            return CompileStep::Failed(e);
                        },
                    }
                },
                Some((file, (ln, text))) => {
                    let ghost popped = pop_spec(cur_fs)->Some_0;
                    match crate::parser::parse_line(text.as_str()) {
                        Err(e) => {
                            proof {
                                assert(drive_spec(cur_s, cur_fs, wl) == StepV::Fail(
                                    CompileErrorV::Parse {
                                        file: popped.0.0,
                                        line: popped.0.1.0 as int,
                                        column: e@.column,
                                        expected: e@.expected,
                                    },
                                ));
                            }
                            return CompileStep::Failed(
                                CompileError::ParseError {
                                    file,
                                    line: ln,
                                    column: e.column,
                                    expected: e.expected,
                                },
                            );
                        },
                        Ok(l) => {
                            if let Some(Instruction::Include(path)) = l.instruction {
                                let resolved = crate::text::resolve_include_path(
                                    file.as_str(),
                                    path.as_str(),
                                );
                                proof {
                                    assert(line_view(l).instruction == Some(
                                        InstrV::Include(path@),
                                    ));
                                    assert(drive_spec(cur_s, cur_fs, wl) == StepV::Need(
                                        crate::text::resolve_path_spec(popped.0.0, path@),
                                        cur_s,
                                        popped.1,
                                    ));
                                }
                                return CompileStep::NeedFile(resolved);
                            } else {
                                proof {
                                    if l.instruction is Some {
                                        let ii = l.instruction->Some_0;
                                        match ii {
                                            Instruction::Db(..) => {},
                                            Instruction::Ds(..) => {},
                                            Instruction::Org(..) => {},
                                            Instruction::Include(..) => {
                                                assert(false);
                                            },
                                            Instruction::Nullary(..) => {},
                                            Instruction::UnaryReg(..) => {},
                                            Instruction::UnaryAddr(..) => {},
                                            Instruction::BinaryRegIm(..) => {},
                                            Instruction::BinaryRegReg(..) => {},
                                        }
                                        assert(!(instr_view(ii) is Include));
                                    }
                                }
                                match self.process(l) {
                                    Ok(()) => {
                                        proof {
                                            lemma_pop_spec_total(self.stack_frames());
                                        }
                                    },
                                    Err(e) => {
                                        proof {
                                            assert(drive_spec(cur_s, cur_fs, wl) == StepV::Fail(
                                                e@,
                                            ));
                                        }
                                        return CompileStep::Failed(e);
                                    },
                                }
                            }
                        },
                    }
                },
            }
        }
    }

    /// Compiles an entry source with no filesystem around it: a pure
    /// function of the source text and the optional whitelist, pinned to
    /// [`drive_spec`] of the fresh state. A program that never includes a
    /// file compiles exactly as through the stepwise interface; an include
    /// finds no file here and fails, so sources with includes are compiled
    /// through `begin`, `advance` and `supply_file`. On success the binary
    /// runs up to its last nonzero byte and the symbol text serializes the
    /// final label table.
    pub fn compile_source(source: &str, whitelist: Option<Vec<String>>) -> (r: Result<
        (Vec<u8>, String),
        CompileError,
    >)
        ensures
            r matches Ok(out) ==> (out.0@.len() == 0 || out.0@.last() != 0),
            (match whitelist {
                Some(ms) => exists|k: int|
                    0 <= k < ms@.len() && crate::grammar::spec_opcode_of(
                        (#[trigger] ms@[k])@,
                    ) is None,
                None => false,
            }) ==> (r matches Err(e) && e@ matches CompileErrorV::UnknownWhitelistMnemonic {
                ..
            }),
            (match whitelist {
                Some(ms) => forall|k: int|
                    0 <= k < ms@.len() ==> crate::grammar::spec_opcode_of(
                        (#[trigger] ms@[k])@,
                    ) is Some,
                None => true,
            }) ==> ({
                let wlv = match whitelist {
                    None => None,
                    Some(ms) => Some(wl_set_of(ms@)),
                };
                let d = drive_spec(
                    init_emit(),
                    seq![FrameV { name: "-"@, lines: entry_frame_lines(source@) }],
                    wlv,
                );
                &&& (d matches StepV::Done(bin, sym) ==> (r matches Ok(out) && out.0@ == bin
                    && out.1@ == sym))
                &&& (d matches StepV::Need(path, st, fs) ==> (r matches Err(e) && e@
                    == (CompileErrorV::NotAFile { path })))
                &&& (d matches StepV::Fail(err) ==> (r matches Err(e) && e@ == err))
            }),
    {
        let mut c = match Compiler::begin("-", source, whitelist) {
            Ok(c) => c,
            Err(e) => {
                return Err(e);
            },
        };
        proof {
            assert(c.emit_state() =~~= init_emit());
        }
        match c.advance() {
            CompileStep::Done(bin, sym) => {
                proof {
                    lemma_strip_characterization(c.emit_state().image);
                }
                Ok((bin, sym))
            },
            CompileStep::NeedFile(p) => Err(CompileError::NotAFile { path: p }),
            CompileStep::Failed(e) => Err(e),
        }
    }
}

/// Whether a whitelist holds an opcode.
fn contains_opcode(wl: &Vec<Opcode>, op: Opcode) -> (r: bool)
    ensures
        r == wl@.contains(op),
{
    let mut i: usize = 0;
    while i < wl.len()
        invariant
            i <= wl@.len(),
            forall|j: int| 0 <= j < i ==> wl@[j] != op,
        decreases wl@.len() - i,
    {
        if wl[i] == op {
            return true;
        }
        i = i + 1;
    }
    false
}

/// The high byte of a 16-bit word.
fn hi_of(word: u16) -> (r: u8)
    ensures
        r == hi_byte(word),
{
    proof {
        assert((word & 0xFF00) >> 8 == word / 256) by (bit_vector);
    }
    ((word & 0xFF00) >> 8) as u8
}

/// The low byte of a 16-bit word.
fn lo_of(word: u16) -> (r: u8)
    ensures
        r == lo_byte(word),
{
    proof {
        assert((word & 0x00FF) == word % 256) by (bit_vector);
    }
    (word & 0x00FF) as u8
}

/// The effective name of a label use or definition: a local name (leading
/// `.`) is prefixed by the current major label, anything else stands alone.
fn effective_name(major: &Label, l: &Label) -> (r: Label)
    ensures
        r@ == eff_name(major@, l@),
{
    if l.as_str().unicode_len() > 0 && l.as_str().get_char(0) == '.' {
        let mut s = major.clone();
        s.append(l.as_str());
        s
    } else {
        l.clone()
    }
}

} // verus!
