use tinyasm::compiler::{CompileStep, Compiler};
use tinyasm::errors::CompileError;

#[test]
fn an_include_pauses_the_compile_with_the_resolved_path() {
    let mut c = Compiler::begin("src/main.asm", "include \"util.asm\"", None).expect("begin");

    match c.advance() {
        CompileStep::NeedFile(path) => assert_eq!(path, "src/util.asm"),
        _ => panic!("expected a file request"),
    }
}

#[test]
fn an_absolute_include_path_stands_as_it_is() {
    let mut c = Compiler::begin("src/main.asm", "include \"/lib/util.asm\"", None).expect("begin");

    match c.advance() {
        CompileStep::NeedFile(path) => assert_eq!(path, "/lib/util.asm"),
        _ => panic!("expected a file request"),
    }
}

#[test]
fn included_lines_are_drained_before_the_parent_resumes() {
    let mut c = Compiler::begin("main.asm", "db 0x01\ninclude \"a.asm\"\ndb 0x03", None)
        .expect("begin");

    let path = match c.advance() {
        CompileStep::NeedFile(p) => p,
        _ => panic!("expected a file request"),
    };
    assert_eq!(path, "a.asm");
    c.supply_file(&path, "db 0x02").expect("inclusion");

    match c.advance() {
        CompileStep::Done(binary, _) => assert_eq!(binary, vec![0x01, 0x02, 0x03]),
        _ => panic!("expected the compile to finish"),
    }
}

#[test]
fn a_file_including_itself_is_rejected() {
    let mut c = Compiler::begin("main.asm", "include \"a.asm\"", None).expect("begin");

    let path = match c.advance() {
        CompileStep::NeedFile(p) => p,
        _ => panic!("expected a file request"),
    };
    c.supply_file(&path, "include \"a.asm\"").expect("first inclusion");

    let again = match c.advance() {
        CompileStep::NeedFile(p) => p,
        _ => panic!("expected a second file request"),
    };
    assert_eq!(again, "a.asm");

    let err = c.supply_file(&again, "db 0x01").unwrap_err();
    assert!(matches!(err, CompileError::RecursiveInclusion { .. }));
}

#[test]
fn a_transitive_inclusion_cycle_is_rejected() {
    let mut c = Compiler::begin("main.asm", "include \"a.asm\"", None).expect("begin");

    let a = match c.advance() {
        CompileStep::NeedFile(p) => p,
        _ => panic!("expected a file request"),
    };
    c.supply_file(&a, "include \"b.asm\"").expect("first inclusion");

    let b = match c.advance() {
        CompileStep::NeedFile(p) => p,
        _ => panic!("expected a second file request"),
    };
    assert_eq!(b, "b.asm");
    c.supply_file(&b, "include \"a.asm\"").expect("second inclusion");

    let back = match c.advance() {
        CompileStep::NeedFile(p) => p,
        _ => panic!("expected a third file request"),
    };
    let err = c.supply_file(&back, "nop").unwrap_err();
    assert!(matches!(err, CompileError::RecursiveInclusion { .. }));
}

#[test]
fn compiling_source_with_an_include_and_no_files_fails() {
    let err = Compiler::compile_source("include \"a.asm\"", None).unwrap_err();

    assert!(matches!(err, CompileError::NotAFile { .. }));
}
