//! Properties of the code generator that hold for every program, proved
//! once and for all over the emitter's model.

use vstd::prelude::*;

use crate::errors::CompileErrorV;
use crate::grammar::{Nibble, spec_mnemonic_of};
use crate::compiler::drive_spec;
use crate::filestack::{FrameV, lemma_pop_spec_total, pop_spec, total_lines};
use crate::model::{
    EmitState, InstrV, LineV, RelocV, eff_name, hi_byte, instrv_opcode, is_local_name,
    lemma_resolve_characterization, lo_byte, nib_width, patch_bytes, process_spec, resolve_spec,
    wl_rejects,
};
use crate::parser::parse_line_spec;

verus! {

/// Local label scoping: a local name takes its identity from the major
/// label in effect where it appears, so the same local name under two
/// different major labels is two different names — and so resolves to two
/// independent table entries — while any other name stands for itself in
/// every scope.
pub proof fn lemma_local_label_scoping(m1: Seq<char>, m2: Seq<char>, l: Seq<char>)
    ensures
        is_local_name(l) ==> ((eff_name(m1, l) == eff_name(m2, l)) <==> m1 == m2),
        !is_local_name(l) ==> eff_name(m1, l) == l && eff_name(m2, l) == l,
{
    if is_local_name(l) && eff_name(m1, l) == eff_name(m2, l) {
        assert(m1 + l == m2 + l);
        assert((m1 + l).len() == m1.len() + l.len());
        assert((m2 + l).len() == m2.len() + l.len());
        assert forall|i: int| 0 <= i < m1.len() implies m1[i] == m2[i] by {
            assert((m1 + l)[i] == m1[i]);
            assert((m2 + l)[i] == m2[i]);
        };
        assert(m1 =~= m2);
    }
}

/// Whether one relocation's bytes lie entirely outside the span
/// `[lo, hi)`.
pub open spec fn reloc_outside(r: RelocV, lo: int, hi: int) -> bool {
    r.pos + nib_width(r.nib) <= lo || hi <= r.pos
}

/// The second pass leaves every byte outside all of its relocations'
/// spans as it was.
proof fn lemma_resolve_preserves_outside(
    img: Seq<u8>,
    relocs: Seq<RelocV>,
    labels: Map<Seq<char>, u16>,
    x: int,
)
    requires
        0 <= x < img.len(),
        forall|j: int|
            0 <= j < relocs.len() ==> reloc_outside(#[trigger] relocs[j], x, x + 1),
        resolve_spec(img, relocs, labels) is Ok,
    ensures
        resolve_spec(img, relocs, labels)->Ok_0[x] == img[x],
        resolve_spec(img, relocs, labels)->Ok_0.len() == img.len(),
    decreases relocs.len(),
{
    if relocs.len() == 0 {
    } else {
        let r0 = relocs[0];
        let img1 = patch_bytes(img, r0.pos, r0.nib, labels[r0.name]);
        assert(forall|j: int|
            0 <= j < relocs.drop_first().len() ==> reloc_outside(
                #[trigger] relocs.drop_first()[j],
                x,
                x + 1,
            ));
        lemma_resolve_preserves_outside(img1, relocs.drop_first(), labels, x);
        assert(img1[x] == img[x]);
    }
}

/// Forward reference resolution: once every name is defined, each
/// relocation whose bytes no later relocation overwrites ends up holding
/// the selected part of its label's final address — the address the label
/// eventually received, wherever in the input it was defined, not the zero
/// placeholder of the first pass.
pub proof fn lemma_forward_reference(
    img: Seq<u8>,
    relocs: Seq<RelocV>,
    labels: Map<Seq<char>, u16>,
    i: int,
)
    requires
        0 <= i < relocs.len(),
        forall|j: int| 0 <= j < relocs.len() ==> labels.contains_key((#[trigger] relocs[j]).name),
        forall|j: int|
            0 <= j < relocs.len() ==> 0 <= (#[trigger] relocs[j]).pos && relocs[j].pos + nib_width(
                relocs[j].nib,
            ) <= img.len(),
        forall|j: int|
            i < j < relocs.len() ==> reloc_outside(
                #[trigger] relocs[j],
                relocs[i].pos,
                relocs[i].pos + nib_width(relocs[i].nib),
            ),
    ensures
        resolve_spec(img, relocs, labels) is Ok,
        ({
            let m = resolve_spec(img, relocs, labels)->Ok_0;
            let addr = labels[relocs[i].name];
            &&& (relocs[i].nib is Both ==> m[relocs[i].pos] == hi_byte(addr) && m[relocs[i].pos
                + 1] == lo_byte(addr))
            &&& (relocs[i].nib is High ==> m[relocs[i].pos] == hi_byte(addr))
            &&& (relocs[i].nib is Low ==> m[relocs[i].pos] == lo_byte(addr))
        }),
    decreases relocs.len(),
{
    lemma_resolve_characterization(img, relocs, labels);
    let r0 = relocs[0];
    let img1 = patch_bytes(img, r0.pos, r0.nib, labels[r0.name]);
    let rest = relocs.drop_first();
    assert(forall|j: int| 0 <= j < rest.len() ==> rest[j] == relocs[j + 1]);
    if i == 0 {
        lemma_resolve_characterization(img1, rest, labels);
        let addr = labels[r0.name];
        assert(img1.len() == img.len());
        match r0.nib {
            Nibble::Both => {
                assert(img1[r0.pos] == hi_byte(addr) && img1[r0.pos + 1] == lo_byte(addr));
                lemma_resolve_preserves_outside(img1, rest, labels, r0.pos);
                lemma_resolve_preserves_outside(img1, rest, labels, r0.pos + 1);
            },
            Nibble::High => {
                assert(img1[r0.pos] == hi_byte(addr));
                lemma_resolve_preserves_outside(img1, rest, labels, r0.pos);
            },
            Nibble::Low => {
                assert(img1[r0.pos] == lo_byte(addr));
                lemma_resolve_preserves_outside(img1, rest, labels, r0.pos);
            },
        }
    } else {
        lemma_forward_reference(img1, rest, labels, i - 1);
        assert(rest[i - 1] == relocs[i]);
    }
}

/// Runs a sequence of already-parsed lines through the emitter's model,
/// stopping at the first error.
pub open spec fn run_lines(s: EmitState, lines: Seq<LineV>, wl: Option<Set<u8>>) -> Result<
    EmitState,
    CompileErrorV,
>
    decreases lines.len(),
{
    if lines.len() == 0 {
        Ok(s)
    } else {
        match process_spec(s, lines[0], wl) {
            Err(e) => Err(e),
            Ok(s2) => run_lines(s2, lines.drop_first(), wl),
        }
    }
}

/// Whether a whitelist permits everything a line carries: a line without
/// an opcode-bearing instruction is always permitted.
pub open spec fn line_permitted(line: LineV, w: Set<u8>) -> bool {
    line.instruction matches Some(i) ==> (instrv_opcode(i) matches Some(op) ==> w.contains(op))
}

/// A whitelist that permits a line's opcode does not change what the line
/// does.
pub proof fn lemma_whitelist_transparent_line(s: EmitState, line: LineV, w: Set<u8>)
    requires
        line_permitted(line, w),
    ensures
        process_spec(s, line, Some(w)) == process_spec(s, line, None),
{
}

/// Whitelist transparency: a program whose every opcode the whitelist
/// permits compiles to exactly the state it reaches with no whitelist at
/// all — the same bytes, labels and relocations, or the same failure.
pub proof fn lemma_whitelist_transparent(s: EmitState, lines: Seq<LineV>, w: Set<u8>)
    requires
        forall|k: int| 0 <= k < lines.len() ==> line_permitted(#[trigger] lines[k], w),
    ensures
        run_lines(s, lines, Some(w)) == run_lines(s, lines, None),
    decreases lines.len(),
{
    if lines.len() == 0 {
    } else {
        lemma_whitelist_transparent_line(s, lines[0], w);
        match process_spec(s, lines[0], None) {
            Err(_) => {},
            Ok(s2) => {
                assert(forall|k: int|
                    0 <= k < lines.drop_first().len() ==> line_permitted(
                        #[trigger] lines.drop_first()[k],
                        w,
                    ));
                lemma_whitelist_transparent(s2, lines.drop_first(), w);
            },
        }
    }
}

/// Whether every line on an inclusion stack that parses at all is
/// permitted by the whitelist `w`.
pub open spec fn stack_permitted(fs: Seq<FrameV>, w: Set<u8>) -> bool {
    forall|i: int, j: int|
        0 <= i < fs.len() && 0 <= j < fs[i].lines.len() ==> (parse_line_spec(
            (#[trigger] fs[i].lines[j]).1,
        ) matches Ok(lv) ==> line_permitted(lv, w))
}

/// Popping hands out a line of the stack, and leaves a stack whose lines
/// were all there before: permission is preserved.
proof fn lemma_pop_spec_permitted(fs: Seq<FrameV>, w: Set<u8>)
    requires
        stack_permitted(fs, w),
    ensures
        pop_spec(fs) matches Some(p) ==> ({
            &&& (parse_line_spec(p.0.1.1) matches Ok(lv) ==> line_permitted(lv, w))
            &&& stack_permitted(p.1, w)
        }),
    decreases fs.len(),
{
    if fs.len() == 0 {
    } else {
        let top = fs.last();
        if top.lines.len() > 0 {
            let p = pop_spec(fs)->Some_0;
            assert(p.0.1 == fs[fs.len() - 1].lines[top.lines.len() - 1]);
            assert(parse_line_spec((fs[fs.len() - 1].lines[top.lines.len() - 1]).1) matches Ok(
                lv,
            ) ==> line_permitted(lv, w));
            assert forall|i: int, j: int|
                0 <= i < p.1.len() && 0 <= j < p.1[i].lines.len() implies (parse_line_spec(
                (#[trigger] p.1[i].lines[j]).1,
            ) matches Ok(lv) ==> line_permitted(lv, w)) by {
                if i < p.1.len() - 1 {
                    assert(p.1[i] == fs[i]);
                    assert(p.1[i].lines[j] == fs[i].lines[j]);
                } else {
                    assert(p.1[i].lines[j] == fs[fs.len() - 1].lines[j]);
                }
            };
        } else {
            assert forall|i: int, j: int|
                0 <= i < fs.drop_last().len() && 0 <= j < fs.drop_last()[i].lines.len() implies (
            parse_line_spec((#[trigger] fs.drop_last()[i].lines[j]).1) matches Ok(lv)
                ==> line_permitted(lv, w)) by {
                assert(fs.drop_last()[i] == fs[i]);
            };
            lemma_pop_spec_permitted(fs.drop_last(), w);
        }
    }
}

/// Whitelist transparency for a whole compile: a run whose every parsed
/// line the whitelist permits ends exactly as the run with no whitelist at
/// all — the same artifacts, the same file requests, the same failures.
/// With `compile_source` pinned to `drive_spec`, compiling under a
/// covering whitelist returns what compiling without one returns.
pub proof fn lemma_drive_whitelist_transparent(s: EmitState, fs: Seq<FrameV>, w: Set<u8>)
    requires
        stack_permitted(fs, w),
    ensures
        drive_spec(s, fs, Some(w)) == drive_spec(s, fs, None),
    decreases total_lines(fs),
{
    lemma_pop_spec_total(fs);
    lemma_pop_spec_permitted(fs, w);
    match pop_spec(fs) {
        None => {},
        Some(p) => {
            match parse_line_spec(p.0.1.1) {
                Err(_) => {},
                Ok(lv) => match lv.instruction {
                    Some(InstrV::Include(_)) => {},
                    _ => {
                        lemma_whitelist_transparent_line(s, lv, w);
                        match process_spec(s, lv, None) {
                            Err(_) => {},
                            Ok(s2) => {
                                lemma_pop_spec_total(p.1);
                                lemma_drive_whitelist_transparent(s2, p.1, w);
                            },
                        }
                    },
                },
            }
        },
    }
}

/// Whitelist enforcement: a line whose instruction carries an opcode the
/// whitelist does not contain fails with exactly the disallowed-instruction
/// error, under the opcode's canonical mnemonic from the table.
pub proof fn lemma_whitelist_rejects(s: EmitState, line: LineV, w: Set<u8>)
    requires
        line.instruction matches Some(i) && instrv_opcode(i) matches Some(op) && !w.contains(op),
        line.label is Some ==> s.cursor <= 0xFFFF,
    ensures
        process_spec(s, line, Some(w)) matches Err(e) && e
            == (CompileErrorV::DisallowedInstruction {
            mnemonic: spec_mnemonic_of(instrv_opcode(line.instruction->Some_0)->Some_0).unwrap(),
        }),
{
    assert(wl_rejects(line.instruction->Some_0, Some(w)));
}

} // verus!
