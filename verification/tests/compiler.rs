use std::collections::HashMap;

use tinyasm::compiler::Compiler;
use tinyasm::errors::CompileError;

#[test]
fn it_produces_output() {
    let binary = Compiler::compile_source("add R0, R1", None).expect("Failed to compile code");

    assert_eq!(binary.0, vec![0x10, 0x01]);
}

#[test]
fn it_resolves_labels() {
    let binary = Compiler::compile_source(
        "
            nop
            nop
            foo:
                nop
                jmp foo
        ",
        None,
    )
    .expect("Failed to compile code");

    assert_eq!(binary.0, vec![0x00, 0x00, 0x00, 0x20, 0x00, 0x02]);
}

#[test]
fn it_resolves_local_labels() {
    let binary = Compiler::compile_source(
        "
            First:
            .loop:
                jmp .loop

            Second:
            .loop:
                jmp .loop
        ",
        None,
    )
    .expect("Failed to compile code");

    assert_eq!(binary.0, vec![0x20, 0x00, 0x00, 0x20, 0x00, 0x03]);
}

#[test]
fn string_literals_are_not_zero_terminated() {
    let binary = Compiler::compile_source(
        "
            db 0xAA, \"a\", 0xBB
        ",
        None,
    )
    .expect("Failed to compile code");

    assert_eq!(binary.0, vec![0xAA, 0x61, 0xBB]);
}

#[test]
fn it_produces_a_symfile() {
    let binary = Compiler::compile_source(
        "
            org 0x0
            A:
            org 0x100
            B:
            org 0x40
            C:
        ",
        None,
    )
    .expect("Failed to compile code");

    let syms: HashMap<String, u16> =
        serde_json::from_str(&binary.1).expect("Failed to read symfile as json");

    assert_eq!(syms["A"], 0x0);
    assert_eq!(syms["B"], 0x100);
    assert_eq!(syms["C"], 0x40);
}

#[test]
fn it_respects_whitelist() {
    let binary = Compiler::compile_source(
        "
            add R0, R1
            sub R0, R1
        ",
        Some(vec!["add".to_owned()]),
    );

    assert!(binary.is_err());
}

#[test]
fn it_resolves_high_low_addr() {
    let binary = Compiler::compile_source(
        "
            org 0x0
            ldi R0, hi(addr)
            ldi R1, lo(addr)
            org 0xABBA
            addr:
        ",
        None,
    )
    .expect("Failed to compile code");

    assert_eq!(binary.0, vec![0x31, 0x00, 0xAB, 0x31, 0x01, 0xBA]);
}

#[test]
fn forward_references_resolve_to_the_eventual_address() {
    let binary = Compiler::compile_source("jmp target\ntarget: nop", None)
        .expect("Failed to compile code");

    assert_eq!(binary.0, vec![0x20, 0x00, 0x03]);
}

#[test]
fn trailing_zeros_are_stripped() {
    let binary = Compiler::compile_source("db 0x01, 0x00, 0x00", None)
        .expect("Failed to compile code");

    assert_eq!(binary.0, vec![0x01]);
}

#[test]
fn an_all_zero_program_yields_empty_output() {
    let binary = Compiler::compile_source("nop\nnop", None).expect("Failed to compile code");

    assert_eq!(binary.0, Vec::<u8>::new());
}

#[test]
fn an_empty_program_yields_empty_output() {
    let binary = Compiler::compile_source("", None).expect("Failed to compile code");

    assert_eq!(binary.0, Vec::<u8>::new());
    let syms: HashMap<String, u16> =
        serde_json::from_str(&binary.1).expect("Failed to read symfile as json");
    assert!(syms.is_empty());
}

#[test]
fn whitelist_covering_all_opcodes_matches_plain_output() {
    let src = "add R0, R1\nsub R2, R3";
    let plain = Compiler::compile_source(src, None).expect("Failed to compile code");
    let listed = Compiler::compile_source(
        src,
        Some(vec!["add".to_owned(), "sub".to_owned()]),
    )
    .expect("Failed to compile code");

    assert_eq!(plain.0, listed.0);
    assert_eq!(plain.1, listed.1);
}

#[test]
fn a_disallowed_instruction_names_its_mnemonic() {
    let err = Compiler::compile_source("sub R0, R1", Some(vec!["add".to_owned()])).unwrap_err();

    match err {
        CompileError::DisallowedInstruction { mnemonic } => assert_eq!(mnemonic, "sub"),
        other => panic!("unexpected error: {:?}", other),
    }
}

#[test]
fn an_unknown_whitelist_mnemonic_is_rejected_before_any_source() {
    let err = Compiler::compile_source("nop", Some(vec!["frobnicate".to_owned()])).unwrap_err();

    match err {
        CompileError::UnknownWhitelistMnemonic { name } => assert_eq!(name, "frobnicate"),
        other => panic!("unexpected error: {:?}", other),
    }
}

#[test]
fn an_undefined_label_fails_the_whole_compile() {
    let err = Compiler::compile_source("jmp nowhere", None).unwrap_err();

    match err {
        CompileError::UndefinedLabel { name } => assert_eq!(name, "nowhere"),
        other => panic!("unexpected error: {:?}", other),
    }
}

#[test]
fn a_parse_error_reports_file_and_line() {
    let err = Compiler::compile_source("nop\n!!!", None).unwrap_err();

    match err {
        CompileError::ParseError { file, line, column, expected } => {
            assert_eq!(file, "-");
            assert_eq!(line, 2);
            assert_eq!(column, 1);
            assert!(!expected.is_empty());
        },
        other => panic!("unexpected error: {:?}", other),
    }
}

#[test]
fn a_write_past_the_address_space_overflows() {
    let err = Compiler::compile_source("org 0xFFFF\njmp 0x0000", None).unwrap_err();

    assert!(matches!(err, CompileError::OverflowError));
}

#[test]
fn high_and_low_halves_of_an_immediate_address() {
    let binary = Compiler::compile_source("ldi R0, hi(0xABBA)\nldi R1, lo(0xABBA)", None)
        .expect("Failed to compile code");

    assert_eq!(binary.0, vec![0x31, 0x00, 0xAB, 0x31, 0x01, 0xBA]);
}

#[test]
fn ds_reserves_zeroed_bytes() {
    let binary = Compiler::compile_source("db 0x01\nds 3\ndb 0x02", None)
        .expect("Failed to compile code");

    assert_eq!(binary.0, vec![0x01, 0x00, 0x00, 0x00, 0x02]);
}

#[test]
fn org_can_move_backward_and_overwrite() {
    let binary = Compiler::compile_source("org 0x0\ndb 0xAA\norg 0x0\ndb 0xBB", None)
        .expect("Failed to compile code");

    assert_eq!(binary.0, vec![0xBB]);
}

#[test]
fn a_local_label_without_a_major_label_stands_alone() {
    let binary = Compiler::compile_source("nop\n.loop:\njmp .loop", None)
        .expect("Failed to compile code");

    assert_eq!(binary.0, vec![0x00, 0x20, 0x00, 0x01]);
}

#[test]
fn label_redefinition_is_last_write_wins() {
    let binary = Compiler::compile_source("x:\nnop\nx:\njmp x", None)
        .expect("Failed to compile code");

    assert_eq!(binary.0, vec![0x00, 0x20, 0x00, 0x01]);
}

#[test]
fn register_pairs_pack_into_one_byte() {
    let binary = Compiler::compile_source("mov R1, R2", None).expect("Failed to compile code");

    assert_eq!(binary.0, vec![0x30, 0x12]);
}

#[test]
fn a_register_index_above_fifteen_is_rejected() {
    let res = Compiler::compile_source("mov R1, R16", None);

    assert!(matches!(res, Err(CompileError::ParseError { .. })));
}

#[test]
fn immediate_compare_takes_a_register_and_a_byte() {
    let binary = Compiler::compile_source("cpi R0, 5", None).expect("Failed to compile code");

    assert_eq!(binary.0, vec![0x1A, 0x00, 0x05]);
}

#[test]
fn push_and_pop_take_one_register() {
    let binary = Compiler::compile_source("push R3\npop R4", None).expect("Failed to compile code");

    assert_eq!(binary.0, vec![0x34, 0x03, 0x35, 0x04]);
}

#[test]
fn call_and_ret_encode_per_the_table() {
    let binary = Compiler::compile_source("call sub1\nsub1: ret", None)
        .expect("Failed to compile code");

    assert_eq!(binary.0, vec![0x21, 0x00, 0x03, 0x22]);
}

#[test]
fn pseudo_ops_pass_any_whitelist() {
    let binary = Compiler::compile_source("db 0x01\nds 1\norg 0x4\ndb 0x02", Some(vec![
        "add".to_owned(),
    ]))
    .expect("Failed to compile code");

    assert_eq!(binary.0, vec![0x01, 0x00, 0x00, 0x00, 0x02]);
}

#[test]
fn strings_emit_their_utf8_bytes() {
    let ascii = Compiler::compile_source("db \"ab\"", None).expect("Failed to compile code");
    assert_eq!(ascii.0, vec![0x61, 0x62]);

    let accented = Compiler::compile_source("db \"\u{e9}\"", None).expect("Failed to compile code");
    assert_eq!(accented.0, vec![0xC3, 0xA9]);
}

#[test]
fn decimal_and_hexadecimal_literals_agree() {
    let dec = Compiler::compile_source("db 171", None).expect("Failed to compile code");
    let hex = Compiler::compile_source("db 0xAB", None).expect("Failed to compile code");

    assert_eq!(dec.0, hex.0);
    assert_eq!(dec.0, vec![0xAB]);
}
