use hexagn::compiler::parse_source;
use hexagn::lexer::{tokenize, TokenType};
use hexagn::linker::{mangle, Linker, LinkerFunc};
use hexagn::nodes::{Linkage, Type};
use hexagn::optimizer::optimize;
use hexagn::parser::spell_tokens;
use hexagn::strings::StringsContainer;
use hexagn::util::{find_nth, get_line};
use hexagn::emitter::{compile_expr, VarStack};

/// Parses a file's text the way the driver does: after a leading newline,
/// so that the file's first line is line 1.
fn parse(src: &str) -> Result<hexagn::nodes::Program, hexagn::diag::CompileError> {
    parse_source(&format!("\n{}", src))
}

fn named(n: &str) -> Type {
    Type::Named(String::from(n))
}

#[test]
fn token_spans_are_ordered() {
    let src = "\nint8 main() {\n  return 1+22 <= x;\n}\nstring s = \"a b\";";
    let toks = tokenize(src).unwrap();
    assert!(!toks.is_empty());
    for t in &toks {
        assert!(t.start >= 1 && t.start < t.end && t.lineno >= 1);
    }
    for w in toks.windows(2) {
        let (a, b) = (&w[0], &w[1]);
        assert!(a.lineno < b.lineno || (a.lineno == b.lineno && a.end <= b.start));
    }
    let ret = toks.iter().find(|t| t.tok_type == TokenType::Return).unwrap();
    assert_eq!((ret.lineno, ret.start, ret.end), (2, 3, 9));
    let le = toks.iter().find(|t| t.tok_type == TokenType::LTE).unwrap();
    assert_eq!((le.start, le.end, le.val.as_str()), (15, 17, "<="));
}

#[test]
fn lexer_reads_literals() {
    let toks = tokenize("'A' '\\n' \"x\\ty\\\"\" 042 naïve a_1").unwrap();
    assert_eq!(toks[0].tok_type, TokenType::Num);
    assert_eq!(toks[0].val, "65");
    assert_eq!(toks[1].val, "10");
    assert_eq!(toks[2].tok_type, TokenType::Str);
    assert_eq!(toks[2].val, "x\ty\"");
    assert_eq!(toks[3].val, "042");
    assert_eq!(toks[4].tok_type, TokenType::Identifier);
    assert_eq!(toks[4].val, "naïve");
    assert_eq!(toks[5].val, "a_1");
    assert_eq!(toks.len(), 6);
}

#[test]
fn operators_take_longest_match() {
    let toks = tokenize("= == != < <= > >=").unwrap();
    let kinds: Vec<TokenType> = toks.iter().map(|t| t.tok_type).collect();
    assert_eq!(
        kinds,
        vec![TokenType::Assign, TokenType::EQ, TokenType::NEQ, TokenType::LT, TokenType::LTE, TokenType::GT, TokenType::GTE]
    );
}

#[test]
fn debug_text_respells_tokens() {
    let prog = parse("int32 x = 1 + (2 * 3);\nstring s = \"a\\\"b\";\nif (x) { x = 1; }").unwrap();
    assert_eq!(prog.statements[0].0.val, "int32 x = 1 + ( 2 * 3 ) ;");
    assert_eq!(prog.statements[0].0.lineno, 1);
    assert_eq!(prog.statements[1].0.val, "string s = \"a\\\"b\" ;");
    assert_eq!(prog.statements[2].0.val, "if ( x )");
    assert_eq!(prog.statements[2].0.lineno, 3);
    let toks = tokenize(&format!("\n{}", prog.statements[1].0.val)).unwrap();
    assert_eq!(toks[3].val, "a\"b");
}

#[test]
fn spell_tokens_joins_with_spaces() {
    let toks = tokenize("f(1,2);").unwrap();
    assert_eq!(spell_tokens(&toks, 0, toks.len()), "f ( 1 , 2 ) ;");
    assert_eq!(spell_tokens(&toks, 2, 2), "");
}

#[test]
fn folding_twice_changes_nothing() {
    let mut prog = parse("int32 x = 1 + 2 * 3;\nint32 y = x + (4 - 1) * 2;\nint8 main() { return 8 / 2 % 3; }").unwrap();
    optimize(&mut prog).unwrap();
    let once = format!("{:?}", prog);
    optimize(&mut prog).unwrap();
    assert_eq!(format!("{:?}", prog), once);
    assert!(once.contains("Number(7)"));
    assert!(once.contains("Number(6)"));
    assert!(once.contains("Number(1)"));
}

#[test]
fn main_keeps_its_name_only_for_int8() {
    let none: Vec<Type> = Vec::new();
    assert_eq!(mangle(&String::from("main"), &named("int8"), &none), "main");
    assert_eq!(mangle(&String::from("main"), &named("int16"), &none), "_Hx4main_3i16");
    assert_eq!(mangle(&String::from("main"), &named("int8"), &vec![named("int8")]), "_Hx4main_2i8_2i8");
}

#[test]
fn signatures_differ_by_argument_types() {
    let a = mangle(&String::from("f"), &named("void"), &vec![named("int8")]);
    let b = mangle(&String::from("f"), &named("void"), &vec![named("int16")]);
    assert_eq!(a, "_Hx1f_1v_2i8");
    assert_eq!(b, "_Hx1f_1v_3i16");
    assert_ne!(a, b);
    let p = mangle(&String::from("g"), &Type::Ptr(Box::new(named("char"))), &vec![named("point")]);
    assert_eq!(p, "_Hx1gP_1c_5point");
}

#[test]
fn lookup_matches_by_family() {
    let mut l = Linker::new();
    let f8 = LinkerFunc::new(&named("void"), "put", &vec![named("int8")], Linkage::Public, "A");
    let fs = LinkerFunc::new(&named("void"), "put", &vec![named("string")], Linkage::Public, "B");
    l.add_func(&f8, false).unwrap();
    l.add_func(&fs, false).unwrap();
    let hit = l.get_func(&String::from("put"), &vec![named("int")]).unwrap();
    assert_eq!(hit.code(), "A");
    assert_eq!(hit.get_signature(), "_Hx3put_1v_2i8");
    assert_eq!(l.get_func(&String::from("put"), &vec![named("string")]).unwrap().code(), "B");
    assert!(l.get_func(&String::from("put"), &vec![]).is_none());
}

#[test]
fn same_families_are_refused() {
    let mut l = Linker::new();
    l.add_func(&LinkerFunc::new(&named("void"), "f", &vec![named("int8")], Linkage::Private, ""), false).unwrap();
    let err = l
        .add_func(&LinkerFunc::new(&named("void"), "f", &vec![named("uint16")], Linkage::Private, ""), false)
        .unwrap_err();
    assert_eq!(err.message, "Conflicting overload of function f");
    assert_eq!(l.get_funcs().len(), 1);
}

#[test]
fn identical_label_is_reported_before_return_type() {
    // `i8` is spelled like the short code of int8, so both labels are equal.
    let mut l = Linker::new();
    l.add_func(&LinkerFunc::new(&named("int8"), "g", &vec![], Linkage::Private, ""), false).unwrap();
    let err = l.add_func(&LinkerFunc::new(&named("i8"), "g", &vec![], Linkage::Private, ""), false).unwrap_err();
    assert_eq!(err.message, "Duplicate function g");
}

#[test]
fn replace_is_allowed_when_asked() {
    let mut l = Linker::new();
    let a = LinkerFunc::new(&named("int32"), "f", &vec![], Linkage::Private, "old");
    let b = LinkerFunc::new(&named("int32"), "f", &vec![], Linkage::Private, "new");
    l.add_func(&a, false).unwrap();
    assert!(l.add_func(&b, false).is_err());
    l.add_func(&b, true).unwrap();
    assert_eq!(l.get_funcs().len(), 1);
    assert_eq!(l.get_funcs()[0].code(), "new");
}

#[test]
fn public_funcs_in_order() {
    let mut l = Linker::new();
    l.add_func(&LinkerFunc::new(&named("void"), "a", &vec![], Linkage::Public, ""), false).unwrap();
    l.add_func(&LinkerFunc::new(&named("void"), "b", &vec![], Linkage::Private, ""), false).unwrap();
    l.add_func(&LinkerFunc::new(&named("void"), "c", &vec![], Linkage::Public, ""), false).unwrap();
    let names: Vec<String> = l.get_public_funcs().iter().map(|f| f.name().clone()).collect();
    assert_eq!(names, vec![String::from("a"), String::from("c")]);
}

#[test]
fn family_collapses_integers() {
    assert_eq!(named("uint64").family(), named("int"));
    assert_eq!(named("float32").family(), named("f32"));
    assert_eq!(Type::Ptr(Box::new(named("int8"))).family(), Type::Ptr(Box::new(named("int"))));
    assert_eq!(named("string").family(), named("string"));
}

#[test]
fn deep_expression_queue_evaluates_in_order() {
    // x + (x + (x + ... (x + 1))) nested 20 deep, x = 3
    let mut e = String::from("1");
    for _ in 0..20 {
        e = format!("x + ({})", e);
    }
    let prog = parse(&format!("int32 x = 3;\nint32 y = {};", e)).unwrap();
    let mut vars = VarStack::new();
    vars.push(String::from("x"), &named("int32"));
    let init = match &prog.statements[1].1 {
        hexagn::nodes::Node::VarDefine { expr: Some(x), .. } => x,
        _ => panic!("no initialiser"),
    };
    let mut out = String::new();
    compile_expr(init, &vars, None, &mut out).unwrap();
    // evaluate the emitted instructions on a register file
    let mut regs = std::collections::HashMap::<String, i64>::new();
    let mut pushed = None;
    let val = |regs: &std::collections::HashMap<String, i64>, s: &str| -> i64 {
        if s.starts_with('R') { *regs.get(s).expect("register read before written") } else { s.parse().unwrap() }
    };
    for line in out.lines().filter(|l| !l.is_empty()) {
        let w: Vec<&str> = line.split(' ').collect();
        match w[0] {
            "LLOD" => {
                assert_eq!(&w[2..], &["R1", "-1"]);
                regs.insert(w[1].to_string(), 3);
            }
            "ADD" => {
                let v = val(&regs, w[2]) + val(&regs, w[3]);
                regs.insert(w[1].to_string(), v);
            }
            "AND" => {}
            "PSH" => pushed = Some(val(&regs, w[1])),
            other => panic!("unexpected instruction {}", other),
        }
    }
    assert_eq!(pushed, Some(61));
}

#[test]
fn strings_are_stored_once() {
    let mut c = StringsContainer::new();
    assert_eq!(c.register_string(String::from("a")), 0);
    assert_eq!(c.register_string(String::from("b")), 1);
    assert_eq!(c.register_string(String::from("a")), 0);
    assert_eq!(c.get_strings(), vec![String::from("a"), String::from("b")]);
}

#[test]
fn source_lines_for_diagnostics() {
    let src = "\nfirst\nsecond line\nthird";
    assert_eq!(get_line(src, 2), "second line");
    assert_eq!(get_line(src, 1), "first");
    assert_eq!(get_line(src, 3), "third");
    assert_eq!(get_line(src, 4), "");
    assert_eq!(get_line(src, 0), "");
    assert_eq!(get_line("\nab\ncd", 1), "ab");
    assert_eq!(get_line("\nab\ncd", 2), "cd");
    assert_eq!(find_nth(src, '\n', 2), Some(18));
    assert_eq!(find_nth(src, '\n', 3), None);
}

#[test]
fn var_stack_frames() {
    let mut v = VarStack::new();
    v.push_frame();
    v.push(String::from("a"), &named("int8"));
    v.push_frame();
    v.push(String::from("a"), &named("int16"));
    assert_eq!(v.get_offset(&String::from("a")), Some(2));
    assert_eq!(v.get_type(&String::from("a")), Some(named("int16")));
    assert_eq!(v.pop_frame(), 1);
    assert_eq!(v.get_offset(&String::from("a")), Some(1));
    assert_eq!(v.get_type(&String::from("a")), Some(named("int8")));
    assert_eq!(v.get_offset(&String::from("b")), None);
}

#[test]
fn comparison_binds_looser_than_arithmetic() {
    let prog = parse("int32 x = 1 + 2 * 3 < 4 - a % 2;").unwrap();
    let text = format!("{:?}", prog.statements[0].1);
    assert!(text.contains(
        "Comp { lhs: BiOp { lhs: Number(1), op: Add, rhs: BiOp { lhs: Number(2), op: Mult, rhs: Number(3) } }, comp: LT, rhs: BiOp { lhs: Number(4), op: Sub, rhs: BiOp { lhs: Ident(\"a\"), op: Mod, rhs: Number(2) } } }"
    ));
}

#[test]
fn calls_and_parentheses_in_expressions() {
    let prog = parse("int32 x = f(1, (2 - 3) - 4);").unwrap();
    let text = format!("{:?}", prog.statements[0].1);
    assert!(text.contains(
        "Call { name: \"f\", args: [Number(1), BiOp { lhs: BiOp { lhs: Number(2), op: Sub, rhs: Number(3) }, op: Sub, rhs: Number(4) }] }"
    ));
}

#[test]
fn number_out_of_range_is_a_parse_error() {
    let err = parse("int64 x = 9223372036854775808;").unwrap_err();
    assert_eq!(err.message, "Number literal out of range");
    assert_eq!(err.exit_code(), 2);
}

#[test]
fn first_line_of_a_file_is_line_one() {
    let toks = tokenize("\n'A'").unwrap();
    assert_eq!(toks.len(), 1);
    assert_eq!(toks[0].tok_type, TokenType::Num);
    assert_eq!(toks[0].val, "65");
    assert_eq!(toks[0].lineno, 1);
    assert_eq!((toks[0].start, toks[0].end), (1, 4));
}

#[test]
fn classified_lexer_takes_the_classes() {
    // with no character marked alphabetic, only `_` starts a word
    let none = vec![false; 3];
    let err = hexagn::lexer::tokenize_classified("a=b", &none, &none).unwrap_err();
    assert_eq!(err.message, "Unexpected character");
    let alpha = vec![true, false, true];
    let toks = hexagn::lexer::tokenize_classified("a=b", &alpha, &alpha).unwrap();
    let kinds: Vec<TokenType> = toks.iter().map(|t| t.tok_type).collect();
    assert_eq!(kinds, vec![TokenType::Identifier, TokenType::Assign, TokenType::Identifier]);
    let word = vec![true; 2];
    let toks = hexagn::lexer::tokenize_classified("if", &word, &word).unwrap();
    assert_eq!(toks[0].tok_type, TokenType::If);
    assert_eq!(toks[0].lineno, 0);
}
