use hexagn::compiler::{compile_program, parse_source, Args};
use hexagn::diag::{CompileError, ErrorKind};
use hexagn::emitter::{compile_ast, AstCompileArgs};
use hexagn::imports::{module_block, publish, ImportHelper};
use hexagn::lexer::{tokenize, TokenType};
use hexagn::linker::Linker;
use hexagn::nodes::{Expr, Node};
use hexagn::optimizer::optimize;

/// Parses a file's text the way the driver does: after a leading newline,
/// so that the file's first line is line 1.
fn parse(src: &str) -> Result<hexagn::nodes::Program, hexagn::diag::CompileError> {
    parse_source(&format!("\n{}", src))
}

fn args(no_main: bool, opt: u32) -> Args {
    Args { input_file: String::from("test.hxgn"), no_main, debug_symbols: false, opt_level: opt }
}

fn compile(src: &str, no_main: bool, opt: u32) -> Result<String, CompileError> {
    let mut prog = parse(src)?;
    let mut linker = Linker::new();
    compile_program(&mut prog, &args(no_main, opt), &mut linker)
}

const EXIT: &str = "MOV SP R1\nPOP R1\n\nRET\n";
const PROLOGUE: &str = "BITS == 32\nMINHEAP 4096\nMINSTACK 1024\nCAL .main\nHLT\n\n";

#[test]
fn folded_main_pushes_seven() {
    let out = compile("int8 main() { return 1 + 2 * 3; }", false, 1).unwrap();
    let code = format!("PSH 7\n\n{}", EXIT);
    let expected = format!("{}.main\nPSH R1\nMOV R1 SP\n\n{}\n{}", PROLOGUE, code, EXIT);
    assert_eq!(out, expected);
}

#[test]
fn unfolded_main_uses_registers() {
    let out = compile("int8 main() { return 1 + 2 * 3; }", true, 0).unwrap();
    assert_eq!(out, "");
    let mut prog = parse("int8 main() { return 1 + 2 * 3; }").unwrap();
    let mut linker = Linker::new();
    compile_program(&mut prog, &args(true, 0), &mut linker).unwrap();
    let f = &linker.get_funcs()[0];
    assert_eq!(f.get_signature(), "main");
    assert_eq!(
        f.code(),
        &format!("MLT R3 2 3\nADD R2 1 R3\nAND R2 R2 0xffffffff\nPSH R2\n\n{}", EXIT)
    );
}

#[test]
fn imported_add_is_called_by_mangled_label() {
    let mut inner = Linker::new();
    let mut module = parse("pub int32 add(int32 a, int32 b) { return a + b; }").unwrap();
    compile_program(&mut module, &args(true, 0), &mut inner).unwrap();
    let add = &inner.get_funcs()[0];
    assert_eq!(add.get_signature(), "_Hx3add_3i32_3i32_3i32");
    assert_eq!(
        add.code(),
        &format!("LLOD R3 R1 3\nLLOD R4 R1 2\nADD R2 R3 R4\nAND R2 R2 0xffffffff\nPSH R2\n\n{}", EXIT)
    );
    let mut outer = Linker::new();
    publish(&inner, &mut outer).unwrap();
    let mut prog = parse("int8 main() { add(1, 2); return 0; }").unwrap();
    compile_program(&mut prog, &args(true, 0), &mut outer).unwrap();
    let main = &outer.get_funcs()[1];
    assert_eq!(
        main.code(),
        &format!("PSH 1\n\nPSH 2\n\nCAL ._Hx3add_3i32_3i32_3i32\nADD SP SP 2\nPSH 0\n\n{}", EXIT)
    );
}

#[test]
fn return_type_overload_is_refused() {
    let err = compile("int8 f() { return 1; }\nint16 f() { return 1; }", false, 0).unwrap_err();
    assert_eq!(err.kind, ErrorKind::Overload);
    assert_eq!(err.message, "Cannot overload function f based on return types");
    assert_eq!(err.exit_code(), 1);
    assert_eq!(err.lineno, 2);
}

#[test]
fn duplicate_function_is_refused() {
    let err = compile("void f() { }\nvoid f() { }", false, 0).unwrap_err();
    assert_eq!(err.kind, ErrorKind::Overload);
    assert_eq!(err.message, "Duplicate function f");
}

#[test]
fn string_concatenation_folds() {
    let mut prog = parse("string s = \"hi\" + 5;").unwrap();
    optimize(&mut prog).unwrap();
    match &prog.statements[0].1 {
        Node::VarDefine { expr: Some(Expr::Str(s)), .. } => assert_eq!(s, "hi5"),
        other => panic!("unexpected statement {:?}", other),
    }
}

#[test]
fn string_concatenation_of_strings_folds() {
    let mut prog = parse("string s = \"a\" + \"b\";").unwrap();
    optimize(&mut prog).unwrap();
    match &prog.statements[0].1 {
        Node::VarDefine { expr: Some(Expr::Str(s)), .. } => assert_eq!(s, "ab"),
        other => panic!("unexpected statement {:?}", other),
    }
}

#[test]
fn string_concatenation_with_variable_fails() {
    let mut prog = parse("int32 x = 1;\nstring s = \"hi\" + x;").unwrap();
    let err = optimize(&mut prog).unwrap_err();
    assert_eq!(err.kind, ErrorKind::Fold);
    assert_eq!(err.message, "Cannot perform string concatenation");
    assert_eq!(err.lineno, 2);
}

#[test]
fn division_by_zero_is_reported_at_its_line() {
    let err = compile("int8 y = 1;\nint32 x = 10 / 0;", false, 1).unwrap_err();
    assert_eq!(err.kind, ErrorKind::Fold);
    assert_eq!(err.message, "Division by 0 after constant folding");
    assert_eq!(err.lineno, 2);
    assert_eq!(err.exit_code(), 1);
}

#[test]
fn modulo_by_zero_is_reported() {
    let err = compile("int32 x = 10 % 0;", false, 1).unwrap_err();
    assert_eq!(err.message, "Division by 0 after constant folding");
}

#[test]
fn folding_wraps_and_truncates() {
    let mut prog = parse("int64 a = 9223372036854775807 + 1;\nint64 b = 7 / 2;\nint64 c = 0 - 7 / 2;\nint64 d = 7 % 3;").unwrap();
    optimize(&mut prog).unwrap();
    let vals: Vec<i64> = prog
        .statements
        .iter()
        .map(|(_, n)| match n {
            Node::VarDefine { expr: Some(Expr::Number(v)), .. } => *v,
            other => panic!("unexpected statement {:?}", other),
        })
        .collect();
    assert_eq!(vals, vec![i64::MIN, 3, -3, 1]);
}

#[test]
fn inline_urcl_is_verbatim() {
    let out = compile("urcl \"HLT\";", true, 0).unwrap();
    assert_eq!(out, "HLT\n\n");
}

#[test]
fn inline_urcl_debug_comment() {
    let mut prog = parse("\nurcl \"HLT\";").unwrap();
    let mut linker = Linker::new();
    let a = Args { input_file: String::new(), no_main: true, debug_symbols: true, opt_level: 0 };
    let out = compile_program(&mut prog, &a, &mut linker).unwrap();
    assert_eq!(out, "// Inline URCL @ line 2\nHLT\n\n");
}

#[test]
fn empty_function_has_bare_block() {
    let out = compile("void f() { }", false, 0).unwrap();
    assert_eq!(out, format!("{}._Hx1f_1v\nPSH R1\nMOV R1 SP\n\n\n{}", PROLOGUE, EXIT));
}

#[test]
fn extern_declaration_has_no_block() {
    let out = compile("extern int32 put(int32 c);\nint8 main() { put(65); return 0; }", false, 0).unwrap();
    assert!(out.contains("CAL ._Hx3put_3i32_3i32\nADD SP SP 1\n"));
    assert!(!out.contains("._Hx3put_3i32_3i32\nPSH R1"));
}

#[test]
fn locals_and_assignment() {
    let out = compile("int32 x = 5;\nint32 y;\ny = x;", true, 0).unwrap();
    assert_eq!(out, "PSH 5\n\nDEC SP SP\n\nLLOD R2 R1 -1\nPSH R2\nPOP R2\nLSTR R1 -2 R2\n");
}

#[test]
fn debug_symbols_comment_statements() {
    let mut prog = parse("int32 x = 5;").unwrap();
    let mut linker = Linker::new();
    let a = Args { input_file: String::new(), no_main: true, debug_symbols: true, opt_level: 0 };
    let out = compile_program(&mut prog, &a, &mut linker).unwrap();
    assert_eq!(out, "// 1: int32 x = 5 ;\nPSH 5\n\n");
}

#[test]
fn if_and_while_blocks() {
    let out = compile("int32 x = 1;\nif (x < 2) { int32 y = 3; }\nwhile (x) { x = x - 1; }", true, 0).unwrap();
    let expected = [
        "PSH 1\n\n",
        "LLOD R3 R1 -1\nSETL R2 R3 2\nAND R2 R2 1\nAND R2 R2 0xffffffff\nPSH R2\n\n",
        "POP R2\nBRZ .if_end_0 R2\n",
        "PSH 3\n\n",
        "ADD SP SP 1\n",
        ".if_end_0\n",
        ".while_start_1\n",
        "LLOD R2 R1 -1\nPSH R2\n",
        "POP R2\nBRZ .while_end_1 R2\n",
        "LLOD R3 R1 -1\nSUB R2 R3 1\nAND R2 R2 0xffffffff\nPSH R2\n\nPOP R2\nLSTR R1 -1 R2\n",
        "JMP .while_start_1\n",
        ".while_end_1\n",
    ]
    .concat();
    assert_eq!(out, expected);
}

#[test]
fn negative_immediate_is_reduced() {
    let out = compile("int32 x = 0 - 1;", true, 1).unwrap();
    assert_eq!(out, "PSH 4294967295\n\n");
}

#[test]
fn undefined_variable_is_reported() {
    let err = compile("\nx = 1;", true, 0).unwrap_err();
    assert_eq!(err.kind, ErrorKind::Name);
    assert_eq!(err.message, "Undefined variable x");
    assert_eq!(err.lineno, 2);
    assert_eq!(err.exit_code(), 1);
}

#[test]
fn undefined_function_is_reported() {
    let err = compile("f(1);", true, 0).unwrap_err();
    assert_eq!(err.kind, ErrorKind::Name);
    assert_eq!(err.message, "Undefined function f");
}

#[test]
fn string_literal_is_not_lowered() {
    let err = compile("string s = \"hi\";", true, 0).unwrap_err();
    assert_eq!(err.kind, ErrorKind::Unsupported);
}

#[test]
fn void_variable_is_a_parse_error() {
    let err = parse("void x = 1;").unwrap_err();
    assert_eq!(err.kind, ErrorKind::Parse);
    assert_eq!(err.message, "Cannot have void for variable type");
    assert_eq!(err.exit_code(), 2);
}

#[test]
fn unexpected_token_is_a_parse_error() {
    let err = parse("+;").unwrap_err();
    assert_eq!(err.kind, ErrorKind::Parse);
    assert_eq!(err.message, "Unexpected token");
}

#[test]
fn unterminated_string_is_a_lex_error() {
    let err = tokenize("string s = \"abc\n\";").unwrap_err();
    assert_eq!(err.kind, ErrorKind::Lex);
    assert_eq!(err.message, "Unterminated string");
    assert_eq!(err.exit_code(), 1);
}

#[test]
fn invalid_escape_is_a_lex_error() {
    let err = tokenize("'\\q'").unwrap_err();
    assert_eq!(err.kind, ErrorKind::Lex);
    assert_eq!(err.message, "Invalid escape character");
}

#[test]
fn unexpected_character_is_a_lex_error() {
    let err = tokenize("\nint8 x = 1 @ 2;").unwrap_err();
    assert_eq!(err.kind, ErrorKind::Lex);
    assert_eq!(err.lineno, 1);
}

#[test]
fn standalone_module_block_keeps_private_functions() {
    let mut inner = Linker::new();
    let mut module = parse("int32 helper() { return 1; }\npub int32 api() { return 2; }").unwrap();
    compile_program(&mut module, &args(true, 0), &mut inner).unwrap();
    let block = module_block(&inner);
    assert_eq!(block, format!("._Hx6helper_3i32\nPSH R1\nMOV R1 SP\n\nPSH 1\n\n{}\n{}", EXIT, EXIT));
    let mut outer = Linker::new();
    publish(&inner, &mut outer).unwrap();
    assert_eq!(outer.get_funcs().len(), 1);
    assert_eq!(outer.get_funcs()[0].get_signature(), "_Hx3api_3i32");
}

#[test]
fn import_of_same_path_is_a_no_op() {
    let mut helper = ImportHelper::new();
    let p = String::from("./hexagn-stdlib/math.hxgn");
    assert!(!helper.is_imported(&p));
    assert!(helper.record_import(p.clone(), String::from(".a\n")));
    assert!(!helper.record_import(p.clone(), String::from(".b\n")));
    assert!(helper.is_imported(&p));
    assert_eq!(helper.output(), ".a\n");
}

#[test]
fn lib_paths_are_searched_in_order() {
    let mut helper = ImportHelper::new();
    helper.add_lib_path("/opt/lib");
    assert_eq!(
        helper.lib_paths(),
        vec![
            String::from("/usr/lib/hexagn/hexagn-stdlib/"),
            String::from("./hexagn-stdlib/"),
            String::from("/opt/lib")
        ]
    );
}

#[test]
fn collects_import_statements() {
    let prog = parse("import std.io;\nimport math:vec;").unwrap();
    let imports = hexagn::imports::collect_imports(&prog);
    assert_eq!(imports.len(), 2);
    assert_eq!(imports[0].0, vec![String::from("std"), String::from("io")]);
    assert_eq!(imports[0].1, 1);
    assert_eq!(imports[1].0, vec![String::from("math"), String::from("vec")]);
    assert_eq!(imports[1].1, 2);
}

#[test]
fn compile_ast_with_pop_frame_releases_locals() {
    let prog = parse("int32 x = 1;\nint32 y = 2;").unwrap();
    let mut linker = Linker::new();
    let a = AstCompileArgs { debug_symbols: false, standalone: true, pop_frame: true, opt_level: 0 };
    let out = compile_ast(&prog, a, &mut linker).unwrap();
    assert_eq!(out, "PSH 1\n\nPSH 2\n\nADD SP SP 2\n");
}

#[test]
fn token_kinds_for_keywords() {
    let toks = tokenize("pub extern import urcl return while if else uint8 float32 char string void").unwrap();
    let kinds: Vec<TokenType> = toks.iter().map(|t| t.tok_type).collect();
    assert_eq!(
        kinds,
        vec![
            TokenType::Pub,
            TokenType::Extern,
            TokenType::Import,
            TokenType::URCLBlock,
            TokenType::Return,
            TokenType::While,
            TokenType::If,
            TokenType::Else,
            TokenType::Uint,
            TokenType::Float,
            TokenType::Character,
            TokenType::String,
            TokenType::Void
        ]
    );
}

#[test]
fn lex_error_reports_message_and_line() {
    let err = parse("int8 x = 1;\nstring s = \"abc\n\";").unwrap_err();
    assert_eq!(err.kind, ErrorKind::Lex);
    assert_eq!(err.message, "Unterminated string");
    assert_eq!(err.lineno, 2);
}

#[test]
fn parse_error_reports_message_and_line() {
    let err = parse("\nvoid x = 1;").unwrap_err();
    assert_eq!(err.kind, ErrorKind::Parse);
    assert_eq!(err.message, "Cannot have void for variable type");
    assert_eq!(err.lineno, 2);
}

#[test]
fn missing_semicolon_is_reported_at_last_token() {
    let err = parse("int32 x = 1\n").unwrap_err();
    assert_eq!(err.message, "Expected ';' after expression");
    assert_eq!(err.lineno, 1);
}

#[test]
fn error_inside_a_body_keeps_its_line() {
    let err = parse("int8 main() {\n  x = ;\n}").unwrap_err();
    assert_eq!(err.message, "Expected number or identifier or string or open paren");
    assert_eq!(err.lineno, 2);
}

#[test]
fn void_variable_on_first_line_of_file() {
    let err = parse_source("\nvoid x = 1;").unwrap_err();
    assert_eq!(err.message, "Cannot have void for variable type");
    assert_eq!(err.lineno, 1);
    assert_eq!(err.exit_code(), 2);
}
