use cel_syntax::ast::{Entry, EntryKey, Expr, IdedExpr};
use cel_syntax::error::{Expected, LexProblem, ParseError};
use cel_syntax::macros::MacroKind;
use cel_syntax::reference::Val;
use cel_syntax::references::Reference;
use cel_syntax::token::TokenKind;
use cel_syntax::{float_literals, parse};

fn tree(source: &str) -> IdedExpr {
    parse(source, &Vec::new()).unwrap().expr
}

fn failure(source: &str) -> ParseError {
    match parse(source, &Vec::new()) {
        Ok(_) => panic!("{} should not parse", source),
        Err(e) => e,
    }
}

fn ident(id: u64, name: &str) -> IdedExpr {
    IdedExpr { id, expr: Expr::Ident(name.to_string()) }
}

fn lit(id: u64, v: Val) -> IdedExpr {
    IdedExpr { id, expr: Expr::Literal(v) }
}

fn call(id: u64, function: &str, args: Vec<IdedExpr>) -> IdedExpr {
    IdedExpr { id, expr: Expr::Call { target: None, function: function.to_string(), args } }
}

fn method(id: u64, target: IdedExpr, function: &str, args: Vec<IdedExpr>) -> IdedExpr {
    IdedExpr {
        id,
        expr: Expr::Call { target: Some(Box::new(target)), function: function.to_string(), args },
    }
}

fn select(id: u64, operand: IdedExpr, field: &str, test_only: bool) -> IdedExpr {
    IdedExpr {
        id,
        expr: Expr::Select { operand: Box::new(operand), field: field.to_string(), test_only },
    }
}

fn list(id: u64, elements: Vec<IdedExpr>) -> IdedExpr {
    IdedExpr { id, expr: Expr::CreateList { elements } }
}

fn collect_ids(e: &IdedExpr, out: &mut Vec<u64>) {
    out.push(e.id);
    match &e.expr {
        Expr::Literal(_) | Expr::Ident(_) => {}
        Expr::Select { operand, .. } => collect_ids(operand, out),
        Expr::Call { target, args, .. } => {
            if let Some(t) = target {
                collect_ids(t, out);
            }
            for a in args {
                collect_ids(a, out);
            }
        }
        Expr::CreateList { elements } => {
            for a in elements {
                collect_ids(a, out);
            }
        }
        Expr::CreateStruct { entries, .. } => {
            for entry in entries {
                if let EntryKey::Expr(k) = &entry.key {
                    collect_ids(k, out);
                }
                collect_ids(&entry.value, out);
            }
        }
        Expr::Comprehension { iter_range, accu_init, loop_condition, loop_step, result, .. } => {
            collect_ids(iter_range, out);
            collect_ids(accu_init, out);
            collect_ids(loop_condition, out);
            collect_ids(loop_step, out);
            collect_ids(result, out);
        }
    }
}

fn assert_ids_distinct(source: &str) {
    let mut ids = Vec::new();
    collect_ids(&tree(source), &mut ids);
    let n = ids.len();
    ids.sort();
    ids.dedup();
    assert_eq!(ids.len(), n, "an identifier occurs twice in {}", source);
    assert!(ids[0] >= 1, "zero is an identifier in {}", source);
}

#[test]
fn a_name_is_one_node_with_the_first_id() {
    assert_eq!(tree("abc"), ident(1, "abc"));
    assert_eq!(tree("  _a1  "), ident(1, "_a1"));
}

#[test]
fn children_are_numbered_before_their_parent() {
    assert_eq!(
        tree("a + b * c"),
        call(5, "_+_", vec![ident(1, "a"), call(4, "_*_", vec![ident(2, "b"), ident(3, "c")])])
    );
    assert_eq!(
        tree("a * b + c"),
        call(5, "_+_", vec![call(3, "_*_", vec![ident(1, "a"), ident(2, "b")]), ident(4, "c")])
    );
}

#[test]
fn binary_operators_associate_to_the_left() {
    assert_eq!(
        tree("a - b - c"),
        call(5, "_-_", vec![call(3, "_-_", vec![ident(1, "a"), ident(2, "b")]), ident(4, "c")])
    );
    assert_eq!(
        tree("a || b || c"),
        call(5, "_||_", vec![call(3, "_||_", vec![ident(1, "a"), ident(2, "b")]), ident(4, "c")])
    );
}

#[test]
fn precedence_runs_from_or_down_to_multiplication() {
    assert_eq!(
        tree("a || b && c == d + e * f"),
        call(
            11,
            "_||_",
            vec![
                ident(1, "a"),
                call(
                    10,
                    "_&&_",
                    vec![
                        ident(2, "b"),
                        call(
                            9,
                            "_==_",
                            vec![
                                ident(3, "c"),
                                call(
                                    8,
                                    "_+_",
                                    vec![
                                        ident(4, "d"),
                                        call(7, "_*_", vec![ident(5, "e"), ident(6, "f")]),
                                    ]
                                ),
                            ]
                        ),
                    ]
                ),
            ]
        )
    );
}

#[test]
fn every_relation_has_its_function() {
    for (op, function) in [
        ("==", "_==_"),
        ("!=", "_!=_"),
        ("<", "_<_"),
        ("<=", "_<=_"),
        (">", "_>_"),
        (">=", "_>=_"),
        ("in", "@in"),
        ("%", "_%_"),
        ("/", "_/_"),
    ] {
        assert_eq!(
            tree(&format!("a {} b", op)),
            call(3, function, vec![ident(1, "a"), ident(2, "b")])
        );
    }
}

#[test]
fn the_conditional_associates_to_the_right() {
    assert_eq!(
        tree("a ? b : c ? d : e"),
        call(
            7,
            "_?_:_",
            vec![
                ident(1, "a"),
                ident(2, "b"),
                call(6, "_?_:_", vec![ident(3, "c"), ident(4, "d"), ident(5, "e")]),
            ]
        )
    );
}

#[test]
fn brackets_make_no_node() {
    assert_eq!(
        tree("(a + b) * c"),
        call(5, "_*_", vec![call(3, "_+_", vec![ident(1, "a"), ident(2, "b")]), ident(4, "c")])
    );
    assert_eq!(tree("((a))"), ident(1, "a"));
}

#[test]
fn negations_are_calls_and_a_sign_belongs_to_its_number() {
    assert_eq!(tree("!a"), call(2, "!_", vec![ident(1, "a")]));
    assert_eq!(tree("!!a"), call(3, "!_", vec![call(2, "!_", vec![ident(1, "a")])]));
    assert_eq!(tree("-a"), call(2, "-_", vec![ident(1, "a")]));
    assert_eq!(tree("-1"), lit(1, Val::Int(-1)));
    assert_eq!(tree("- 1"), lit(1, Val::Int(-1)));
    assert_eq!(tree("--1"), call(2, "-_", vec![lit(1, Val::Int(-1))]));
    assert_eq!(tree("a -1"), call(3, "_-_", vec![ident(1, "a"), lit(2, Val::Int(1))]));
    assert_eq!(tree("-1u"), call(2, "-_", vec![lit(1, Val::UInt(1))]));
}

#[test]
fn selection_index_and_calls() {
    assert_eq!(tree("a.b"), select(2, ident(1, "a"), "b", false));
    assert_eq!(tree("a.b.c"), select(3, select(2, ident(1, "a"), "b", false), "c", false));
    assert_eq!(tree("a[0]"), call(3, "_[_]", vec![ident(1, "a"), lit(2, Val::Int(0))]));
    assert_eq!(tree("f()"), call(1, "f", vec![]));
    assert_eq!(tree("f(a, 1)"), call(3, "f", vec![ident(1, "a"), lit(2, Val::Int(1))]));
    assert_eq!(tree("a.f()"), method(2, ident(1, "a"), "f", vec![]));
    assert_eq!(
        tree("a.f(b).g"),
        select(4, method(3, ident(1, "a"), "f", vec![ident(2, "b")]), "g", false)
    );
    assert_eq!(tree("1.f"), select(2, lit(1, Val::Int(1)), "f", false));
}

#[test]
fn list_literals() {
    assert_eq!(tree("[]"), list(1, vec![]));
    assert_eq!(tree("[a]"), list(2, vec![ident(1, "a")]));
    assert_eq!(tree("[a, b,]"), list(3, vec![ident(1, "a"), ident(2, "b")]));
    assert_eq!(tree("[[a], []]"), list(4, vec![list(2, vec![ident(1, "a")]), list(3, vec![])]));
}

#[test]
fn map_and_message_literals() {
    assert_eq!(
        tree("{}"),
        IdedExpr { id: 1, expr: Expr::CreateStruct { entries: vec![], message_name: None } }
    );
    assert_eq!(
        tree("{a: 1, \"k\": b,}"),
        IdedExpr {
            id: 5,
            expr: Expr::CreateStruct {
                entries: vec![
                    Entry { key: EntryKey::Expr(ident(1, "a")), value: lit(2, Val::Int(1)) },
                    Entry {
                        key: EntryKey::Expr(lit(3, Val::String("k".to_string()))),
                        value: ident(4, "b"),
                    },
                ],
                message_name: None,
            }
        }
    );
    assert_eq!(
        tree("pkg.sub.Msg{f: 1, g: x}"),
        IdedExpr {
            id: 3,
            expr: Expr::CreateStruct {
                entries: vec![
                    Entry { key: EntryKey::Field("f".to_string()), value: lit(1, Val::Int(1)) },
                    Entry { key: EntryKey::Field("g".to_string()), value: ident(2, "x") },
                ],
                message_name: Some("pkg.sub.Msg".to_string()),
            }
        }
    );
    assert_eq!(
        tree("Msg{}"),
        IdedExpr {
            id: 1,
            expr: Expr::CreateStruct { entries: vec![], message_name: Some("Msg".to_string()) }
        }
    );
    assert_eq!(
        tree("a . b { }"),
        IdedExpr {
            id: 1,
            expr: Expr::CreateStruct { entries: vec![], message_name: Some("a.b".to_string()) }
        }
    );
}

#[test]
fn integer_literals() {
    assert_eq!(tree("0"), lit(1, Val::Int(0)));
    assert_eq!(tree("42"), lit(1, Val::Int(42)));
    assert_eq!(tree("0x1F"), lit(1, Val::Int(31)));
    assert_eq!(tree("0Xff"), lit(1, Val::Int(255)));
    assert_eq!(tree("42u"), lit(1, Val::UInt(42)));
    assert_eq!(tree("0x10U"), lit(1, Val::UInt(16)));
    assert_eq!(tree("9223372036854775807"), lit(1, Val::Int(i64::MAX)));
    assert_eq!(tree("-9223372036854775808"), lit(1, Val::Int(i64::MIN)));
    assert_eq!(tree("18446744073709551615u"), lit(1, Val::UInt(u64::MAX)));
    assert_eq!(tree("0xFFFFFFFFFFFFFFFFu"), lit(1, Val::UInt(u64::MAX)));
}

#[test]
fn integer_literals_out_of_range() {
    let out = |position| ParseError::Lexical { position, problem: LexProblem::IntegerOutOfRange };
    assert_eq!(failure("9223372036854775808"), out(0));
    assert_eq!(failure("-9223372036854775809"), out(1));
    assert_eq!(failure("18446744073709551616u"), out(0));
    assert_eq!(failure("1 + 99999999999999999999999999"), out(4));
    assert_eq!(failure("0x10000000000000000"), out(0));
}

#[test]
fn keywords_are_literals() {
    assert_eq!(tree("true"), lit(1, Val::Boolean(true)));
    assert_eq!(tree("false"), lit(1, Val::Boolean(false)));
    assert_eq!(tree("null"), lit(1, Val::Null));
    assert_eq!(tree("truex"), ident(1, "truex"));
    assert_eq!(tree("inx"), ident(1, "inx"));
}

#[test]
fn string_literals_and_their_escapes() {
    let s = |text: &str| lit(1, Val::String(text.to_string()));
    assert_eq!(tree("\"\""), s(""));
    assert_eq!(tree("''"), s(""));
    assert_eq!(tree("\"hello\""), s("hello"));
    assert_eq!(tree("'it\\'s'"), s("it's"));
    assert_eq!(tree("\"a\\nb\\t\\\\\""), s("a\nb\t\\"));
    assert_eq!(tree("\"\\a\\b\\f\\r\\v\\?\\`\\\"\""), s("\x07\x08\x0c\r\x0b?`\""));
    assert_eq!(tree("'\\x41\\X42'"), s("AB"));
    assert_eq!(tree("'\\101\\377'"), s("A\u{ff}"));
    assert_eq!(tree("'\\u00e9\\U0001F600'"), s("\u{e9}\u{1F600}"));
    assert_eq!(tree("\"h\u{e9}\""), s("h\u{e9}"));
    assert_eq!(tree("r\"a\\nb\""), s("a\\nb"));
    assert_eq!(tree("R'\\'"), s("\\"));
    assert_eq!(tree("\"\"\"a\"b\nc\"\"\""), s("a\"b\nc"));
    assert_eq!(tree("'''x''y'''"), s("x''y"));
}

#[test]
fn bytes_literals_and_their_escapes() {
    let b = |bytes: Vec<u8>| lit(1, Val::Bytes(bytes));
    assert_eq!(tree("b\"\""), b(vec![]));
    assert_eq!(tree("b\"abc\""), b(vec![97, 98, 99]));
    assert_eq!(tree("B'\\xff\\000\\n'"), b(vec![255, 0, 10]));
    assert_eq!(tree("b\"\u{e9}\""), b(vec![0xC3, 0xA9]));
    assert_eq!(tree("b\"\u{20AC}\""), b(vec![0xE2, 0x82, 0xAC]));
    assert_eq!(tree("b\"\u{1F600}\""), b(vec![0xF0, 0x9F, 0x98, 0x80]));
    assert_eq!(tree("br\"\\x\""), b(vec![92, 120]));
}

#[test]
fn escapes_that_are_refused() {
    let bad = |position| ParseError::Lexical { position, problem: LexProblem::InvalidEscape };
    assert_eq!(failure("\"\\q\""), bad(1));
    assert_eq!(failure("\"ab\\x4\""), bad(3));
    assert_eq!(failure("\"\\ud800\""), bad(1));
    assert_eq!(failure("\"\\U00110000\""), bad(1));
    assert_eq!(failure("\"\\400\""), bad(1));
    assert_eq!(failure("\"\\18\""), bad(1));
    assert_eq!(failure("b\"\\u0041\""), bad(2));
}

#[test]
fn lexical_failures() {
    assert_eq!(
        failure("\"abc"),
        ParseError::Lexical { position: 0, problem: LexProblem::UnterminatedString }
    );
    assert_eq!(
        failure("a + 'x\ny'"),
        ParseError::Lexical { position: 4, problem: LexProblem::UnterminatedString }
    );
    assert_eq!(
        failure("\"abc\\"),
        ParseError::Lexical { position: 0, problem: LexProblem::UnterminatedString }
    );
    assert_eq!(
        failure("a @ b"),
        ParseError::Lexical { position: 2, problem: LexProblem::UnexpectedCharacter }
    );
    assert_eq!(
        failure("a = b"),
        ParseError::Lexical { position: 2, problem: LexProblem::UnexpectedCharacter }
    );
    assert_eq!(
        failure("a & b"),
        ParseError::Lexical { position: 2, problem: LexProblem::UnexpectedCharacter }
    );
}

#[test]
fn syntax_failures_name_position_expectation_and_token() {
    let syntax = |position, expected, found| ParseError::Syntax { position, expected, found };
    assert_eq!(failure(""), syntax(0, Expected::Expression, TokenKind::Eof));
    assert_eq!(failure("1 +"), syntax(3, Expected::Expression, TokenKind::Eof));
    assert_eq!(failure("1 + * 2"), syntax(4, Expected::Expression, TokenKind::Star));
    assert_eq!(failure("(1"), syntax(2, Expected::Token(TokenKind::RParen), TokenKind::Eof));
    assert_eq!(failure("a ? b"), syntax(5, Expected::Token(TokenKind::Colon), TokenKind::Eof));
    assert_eq!(failure("1 2"), syntax(2, Expected::Token(TokenKind::Eof), TokenKind::Int));
    assert_eq!(failure("a."), syntax(2, Expected::Token(TokenKind::Ident), TokenKind::Eof));
    assert_eq!(failure("a.1"), syntax(1, Expected::Token(TokenKind::Eof), TokenKind::Float));
    assert_eq!(failure("a[1"), syntax(3, Expected::Token(TokenKind::RBracket), TokenKind::Eof));
    assert_eq!(failure("[1 2]"), syntax(3, Expected::Token(TokenKind::RBracket), TokenKind::Int));
    assert_eq!(failure("f(1,)"), syntax(4, Expected::Expression, TokenKind::RParen));
    assert_eq!(failure("{1}"), syntax(2, Expected::Token(TokenKind::Colon), TokenKind::RBrace));
    assert_eq!(failure("{1: 2"), syntax(5, Expected::Token(TokenKind::RBrace), TokenKind::Eof));
    assert_eq!(failure("M{1: 2}"), syntax(2, Expected::Token(TokenKind::Ident), TokenKind::Int));
    assert_eq!(failure("- "), syntax(2, Expected::Expression, TokenKind::Eof));
}

#[test]
fn comments_and_white_space_separate_tokens() {
    assert_eq!(
        tree("a // the first\n\t+ b // the second"),
        call(3, "_+_", vec![ident(1, "a"), ident(2, "b")])
    );
    assert_eq!(tree("// only\na"), ident(1, "a"));
    assert_eq!(tree("a / b"), call(3, "_/_", vec![ident(1, "a"), ident(2, "b")]));
}

#[test]
fn double_literals_take_the_bits_handed_in() {
    assert_eq!(
        float_literals("1.5 + x * 2e3 - .25 + 1 + 1.0e-2").unwrap(),
        vec!["1.5".to_string(), "2e3".to_string(), ".25".to_string(), "1.0e-2".to_string()]
    );
    let doubles: Vec<u64> = vec![1.5f64.to_bits(), 2.0f64.to_bits()];
    let out = parse("1.5 + 2.0", &doubles).unwrap();
    assert_eq!(
        out.expr,
        call(
            3,
            "_+_",
            vec![lit(1, Val::Double(1.5f64.to_bits())), lit(2, Val::Double(2.0f64.to_bits()))]
        )
    );
    let out = parse("-3.14", &vec![3.14f64.to_bits()]).unwrap();
    assert_eq!(out.expr, lit(1, Val::Double((-3.14f64).to_bits())));
    let out = parse("-0.0", &vec![0.0f64.to_bits()]).unwrap();
    assert_eq!(out.expr, lit(1, Val::Double((-0.0f64).to_bits())));
}

#[test]
fn a_double_literal_without_bits_is_refused() {
    assert_eq!(
        failure("1 + 2.5"),
        ParseError::Syntax { position: 4, expected: Expected::DoubleBits, found: TokenKind::Float }
    );
    assert_eq!(
        parse("1.0 + 2.5", &vec![0]).err(),
        Some(ParseError::Syntax {
            position: 6,
            expected: Expected::DoubleBits,
            found: TokenKind::Float
        })
    );
}

#[test]
fn float_literal_forms() {
    assert_eq!(float_literals("1e5").unwrap(), vec!["1e5".to_string()]);
    assert_eq!(float_literals("1E+5").unwrap(), vec!["1E+5".to_string()]);
    assert_eq!(float_literals("1.e5").unwrap(), Vec::<String>::new());
    assert_eq!(float_literals("1e").unwrap(), Vec::<String>::new());
    assert_eq!(float_literals("12.5e-3").unwrap(), vec!["12.5e-3".to_string()]);
    assert_eq!(float_literals("\"1.5\"").unwrap(), Vec::<String>::new());
    assert_eq!(
        float_literals("'abc").err(),
        Some(ParseError::Lexical { position: 0, problem: LexProblem::UnterminatedString })
    );
}

#[test]
fn has_becomes_a_presence_test() {
    let out = parse("has(msg.field)", &Vec::new()).unwrap();
    assert_eq!(out.expr, select(3, ident(1, "msg"), "field", true));
    assert_eq!(out.references.len(), 0);
    assert!(out.references.get(3).is_none());
    assert!(out.references.macro_call(3).is_none());
}

#[test]
fn has_takes_one_field_selection() {
    assert_eq!(failure("has(x)"), ParseError::MacroBindingError { name: MacroKind::Has });
    assert_eq!(
        failure("has(a.b, c)"),
        ParseError::MacroArityError { name: MacroKind::Has, expected: 1, actual: 2 }
    );
    assert_eq!(
        failure("has()"),
        ParseError::MacroArityError { name: MacroKind::Has, expected: 1, actual: 0 }
    );
    assert_eq!(
        tree("x.has(a.b)"),
        method(4, ident(1, "x"), "has", vec![select(3, ident(2, "a"), "b", false)])
    );
}

#[test]
fn all_with_one_argument_is_an_arity_error() {
    let e = failure("r.all(x)");
    assert_eq!(e, ParseError::MacroArityError { name: MacroKind::All, expected: 2, actual: 1 });
    match e {
        ParseError::MacroArityError { name, .. } => assert_eq!(name.name(), "all"),
        _ => unreachable!(),
    }
}

#[test]
fn arity_errors_of_the_other_macros() {
    assert_eq!(
        failure("r.exists(x, p, q)"),
        ParseError::MacroArityError { name: MacroKind::Exists, expected: 2, actual: 3 }
    );
    assert_eq!(
        failure("r.exists_one()"),
        ParseError::MacroArityError { name: MacroKind::ExistsOne, expected: 2, actual: 0 }
    );
    assert_eq!(
        failure("r.filter(x)"),
        ParseError::MacroArityError { name: MacroKind::Filter, expected: 2, actual: 1 }
    );
    assert_eq!(
        failure("r.map(x)"),
        ParseError::MacroArityError { name: MacroKind::MapEach, expected: 2, actual: 1 }
    );
    assert_eq!(
        failure("r.map(a, b, c, d)"),
        ParseError::MacroArityError { name: MacroKind::MapEach, expected: 3, actual: 4 }
    );
}

#[test]
fn a_macro_binds_a_name() {
    assert_eq!(failure("r.all(1 + 1, p)"), ParseError::MacroBindingError { name: MacroKind::All });
    assert_eq!(failure("r.map(a.b, p)"), ParseError::MacroBindingError { name: MacroKind::MapEach });
    assert_eq!(
        failure("r.filter(\"x\", p)"),
        ParseError::MacroBindingError { name: MacroKind::Filter }
    );
}

#[test]
fn macro_names_without_a_receiver_are_plain_calls() {
    assert_eq!(tree("all(x, p)"), call(3, "all", vec![ident(1, "x"), ident(2, "p")]));
    assert_eq!(tree("filter(x)"), call(2, "filter", vec![ident(1, "x")]));
    let out = parse("exists(x, p)", &Vec::new()).unwrap();
    assert_eq!(out.references.len(), 0);
}

fn comprehension(
    id: u64,
    iter_var: &str,
    iter_range: IdedExpr,
    accu_init: IdedExpr,
    loop_condition: IdedExpr,
    loop_step: IdedExpr,
    result: IdedExpr,
) -> IdedExpr {
    IdedExpr {
        id,
        expr: Expr::Comprehension {
            iter_var: iter_var.to_string(),
            iter_range: Box::new(iter_range),
            accu_var: "@result".to_string(),
            accu_init: Box::new(accu_init),
            loop_condition: Box::new(loop_condition),
            loop_step: Box::new(loop_step),
            result: Box::new(result),
        },
    }
}

#[test]
fn exists_keeps_the_id_of_its_call() {
    // Written as a call of another name, the node at this place has id 4.
    assert_eq!(tree("r.other(x, p)").id, 4);
    let out = parse("r.exists(x, p)", &Vec::new()).unwrap();
    assert_eq!(
        out.expr,
        comprehension(
            4,
            "x",
            ident(1, "r"),
            lit(5, Val::Boolean(false)),
            call(7, "!_", vec![ident(6, "@result")]),
            call(9, "_||_", vec![ident(8, "@result"), ident(3, "p")]),
            ident(10, "@result"),
        )
    );
    assert_eq!(out.references.len(), 1);
    let record = out.references.macro_call(4).unwrap();
    assert_eq!(record.id, 4);
    assert_eq!(record.kind, MacroKind::Exists);
    assert_eq!(record.name(), "exists");
    assert_eq!(record.args, vec![ident(2, "x"), ident(3, "p")]);
    match out.references.get(4) {
        Some(Reference::Macro(call)) => assert_eq!(call.name(), "exists"),
        _ => panic!("no macro record"),
    }
}

#[test]
fn all_is_rewritten() {
    let out = parse("r.all(x, x > 0)", &Vec::new()).unwrap();
    let p = call(5, "_>_", vec![ident(3, "x"), lit(4, Val::Int(0))]);
    assert_eq!(
        out.expr,
        comprehension(
            6,
            "x",
            ident(1, "r"),
            lit(7, Val::Boolean(true)),
            ident(8, "@result"),
            call(10, "_&&_", vec![ident(9, "@result"), p]),
            ident(11, "@result"),
        )
    );
    assert_eq!(out.references.macro_call(6).unwrap().name(), "all");
}

#[test]
fn exists_one_counts() {
    let out = parse("r.exists_one(x, p)", &Vec::new()).unwrap();
    assert_eq!(
        out.expr,
        comprehension(
            4,
            "x",
            ident(1, "r"),
            lit(5, Val::Int(0)),
            lit(6, Val::Boolean(true)),
            call(
                11,
                "_+_",
                vec![
                    ident(7, "@result"),
                    call(
                        10,
                        "_?_:_",
                        vec![ident(3, "p"), lit(8, Val::Int(1)), lit(9, Val::Int(0))]
                    ),
                ]
            ),
            call(14, "_==_", vec![ident(12, "@result"), lit(13, Val::Int(1))]),
        )
    );
    assert_eq!(out.references.macro_call(4).unwrap().name(), "exists_one");
}

#[test]
fn map_with_two_and_three_arguments() {
    let out = parse("r.map(x, t)", &Vec::new()).unwrap();
    assert_eq!(
        out.expr,
        comprehension(
            4,
            "x",
            ident(1, "r"),
            list(5, vec![]),
            lit(6, Val::Boolean(true)),
            call(9, "_+_", vec![ident(7, "@result"), list(8, vec![ident(3, "t")])]),
            ident(10, "@result"),
        )
    );
    assert_eq!(out.references.macro_call(4).unwrap().name(), "map");
    let out = parse("r.map(x, p, t)", &Vec::new()).unwrap();
    assert_eq!(
        out.expr,
        comprehension(
            5,
            "x",
            ident(1, "r"),
            list(6, vec![]),
            lit(7, Val::Boolean(true)),
            call(
                12,
                "_?_:_",
                vec![
                    ident(3, "p"),
                    call(10, "_+_", vec![ident(8, "@result"), list(9, vec![ident(4, "t")])]),
                    ident(11, "@result"),
                ]
            ),
            ident(13, "@result"),
        )
    );
    assert_eq!(
        out.references.macro_call(5).unwrap().args,
        vec![ident(2, "x"), ident(3, "p"), ident(4, "t")]
    );
}

#[test]
fn filter_keeps_what_the_predicate_holds_of() {
    let out = parse("[1,2,3].filter(x, x > 1)", &Vec::new()).unwrap();
    let range = list(4, vec![lit(1, Val::Int(1)), lit(2, Val::Int(2)), lit(3, Val::Int(3))]);
    let p = call(8, "_>_", vec![ident(6, "x"), lit(7, Val::Int(1))]);
    assert_eq!(
        out.expr,
        comprehension(
            9,
            "x",
            range,
            list(10, vec![]),
            lit(11, Val::Boolean(true)),
            call(
                16,
                "_?_:_",
                vec![
                    p,
                    call(14, "_+_", vec![ident(12, "@result"), list(13, vec![ident(5, "x")])]),
                    ident(15, "@result"),
                ]
            ),
            ident(17, "@result"),
        )
    );
    let record = out.references.macro_call(9).unwrap();
    assert_eq!(record.name(), "filter");
    assert_eq!(record.kind, MacroKind::Filter);
    // Read as a loop over [1, 2, 3]: the step appends x where x > 1, so
    // the result is [2, 3].
    let mut kept = Vec::new();
    for x in [1i64, 2, 3] {
        if x > 1 {
            kept.push(x);
        }
    }
    assert_eq!(kept, vec![2, 3]);
}

#[test]
fn nested_macros_have_a_record_each() {
    let out = parse("a.all(x, x.exists(y, y == x))", &Vec::new()).unwrap();
    assert_eq!(out.references.len(), 2);
    let mut ids = Vec::new();
    collect_ids(&out.expr, &mut ids);
    assert_eq!(out.expr.id, 15);
    for id in [15, 8] {
        assert!(ids.contains(&id));
        assert!(out.references.contains(id));
    }
    assert!(!out.references.contains(9));
    assert_eq!(out.references.macro_call(8).unwrap().name(), "exists");
    assert_eq!(out.references.macro_call(out.expr.id).unwrap().name(), "all");
}

#[test]
fn ids_are_distinct_in_every_tree() {
    for source in [
        "a",
        "a + b * c - d / e % f",
        "a ? b : c",
        "f(a, b).g(c)[d].e",
        "[1, 2, [3, 4]]",
        "{a: b, c: {d: e}}",
        "M{f: N{g: 1}}",
        "has(a.b.c)",
        "r.all(x, x > 0)",
        "r.exists(x, p)",
        "r.exists_one(x, p)",
        "r.map(x, x * 2)",
        "r.map(x, x > 1, x * 2)",
        "[1,2,3].filter(x, x > 1)",
        "a.all(x, x.exists(y, y.filter(z, has(z.f)).map(w, w + 1) == x))",
        "r.filter(x, x).filter(y, y).all(z, z)",
    ] {
        assert_ids_distinct(source);
    }
}

#[test]
fn parsing_twice_gives_the_same_tree_and_ids() {
    for source in [
        "a + b * c",
        "[1,2,3].filter(x, x > 1)",
        "M{f: r.all(x, has(x.y))}.g(\"s\", b'b')",
    ] {
        let first = parse(source, &Vec::new()).unwrap();
        let second = parse(source, &Vec::new()).unwrap();
        assert_eq!(first.expr, second.expr);
        let mut ids = Vec::new();
        collect_ids(&first.expr, &mut ids);
        assert_eq!(first.references.len(), second.references.len());
        for id in ids {
            assert_eq!(first.references.get(id), second.references.get(id));
        }
    }
    assert_eq!(parse("a +", &Vec::new()).err(), parse("a +", &Vec::new()).err());
}

#[test]
fn the_first_error_ends_the_parse() {
    assert_eq!(
        failure("r.all(x) + )"),
        ParseError::MacroArityError { name: MacroKind::All, expected: 2, actual: 1 }
    );
    assert_eq!(
        failure(") + r.all(x)"),
        ParseError::Syntax { position: 0, expected: Expected::Expression, found: TokenKind::RParen }
    );
    assert_eq!(
        failure("r.all(x) + \"abc"),
        ParseError::Lexical { position: 11, problem: LexProblem::UnterminatedString }
    );
}

#[test]
fn with_a_bit_pattern_for_each_literal_none_is_missing() {
    for source in ["1.5", "-2.5e3 + x", "[.5, 1e1, 2.0].map(x, x * 3.0)", "1.0 +", "f(1.5, 'a", "1.5 2.5"] {
        match float_literals(source) {
            Ok(texts) => {
                let doubles: Vec<u64> = texts.iter().map(|t| t.parse::<f64>().unwrap().to_bits()).collect();
                match parse(source, &doubles) {
                    Err(ParseError::Syntax { expected: Expected::DoubleBits, .. }) => {
                        panic!("a bit pattern is missing for {}", source)
                    }
                    _ => {}
                }
                if !doubles.is_empty() {
                    let fewer = doubles[..doubles.len() - 1].to_vec();
                    if parse(source, &doubles).is_ok() {
                        assert!(matches!(
                            parse(source, &fewer),
                            Err(ParseError::Syntax { expected: Expected::DoubleBits, .. })
                        ));
                    }
                }
            }
            Err(e) => assert_eq!(parse(source, &Vec::new()).err(), Some(e)),
        }
    }
}

fn collect_loops(e: &IdedExpr, out: &mut Vec<u64>) {
    match &e.expr {
        Expr::Literal(_) | Expr::Ident(_) => {}
        Expr::Select { operand, .. } => collect_loops(operand, out),
        Expr::Call { target, args, .. } => {
            if let Some(t) = target {
                collect_loops(t, out);
            }
            for a in args {
                collect_loops(a, out);
            }
        }
        Expr::CreateList { elements } => {
            for a in elements {
                collect_loops(a, out);
            }
        }
        Expr::CreateStruct { entries, .. } => {
            for entry in entries {
                if let EntryKey::Expr(k) = &entry.key {
                    collect_loops(k, out);
                }
                collect_loops(&entry.value, out);
            }
        }
        Expr::Comprehension { iter_range, accu_init, loop_condition, loop_step, result, .. } => {
            out.push(e.id);
            collect_loops(iter_range, out);
            collect_loops(accu_init, out);
            collect_loops(loop_condition, out);
            collect_loops(loop_step, out);
            collect_loops(result, out);
        }
    }
}

#[test]
fn the_table_has_an_entry_for_each_comprehension_and_no_other() {
    for source in [
        "a + b",
        "has(a.b)",
        "has(r.all(x, p).f)",
        "r.all(x, x > 0)",
        "r.filter(x, x.map(y, y)).exists(z, has(z.w))",
        "[r.exists(x, x), {k: r.exists_one(y, y)}, M{f: r.map(z, z, z)}]",
        "r.map(x, r.map(x, r.map(x, x)))",
    ] {
        let out = parse(source, &Vec::new()).unwrap();
        let mut loops = Vec::new();
        collect_loops(&out.expr, &mut loops);
        assert_eq!(out.references.len(), loops.len(), "in {}", source);
        for id in loops {
            match out.references.get(id) {
                Some(Reference::Macro(call)) => assert_eq!(call.id, id),
                _ => panic!("no record for {} in {}", id, source),
            }
        }
    }
}

#[test]
fn a_macro_call_has_the_id_of_a_plain_call_in_its_place() {
    for (macro_call, plain) in [
        ("r.all(x, p)", "r.any(x, p)"),
        ("[a, b].filter(x, x) + 1", "[a, b].keep(x, x) + 1"),
        ("f(r.map(x, p, t), 2)", "f(r.pam(x, p, t), 2)"),
        ("has(a.b)", "had(a.b)"),
    ] {
        let rewritten = tree(macro_call);
        let written = tree(plain);
        let inner = |e: &IdedExpr| match &e.expr {
            Expr::Call { function, args, .. } if function == "_+_" || function == "f" => args[0].id,
            _ => e.id,
        };
        assert_eq!(inner(&rewritten), inner(&written), "{}", macro_call);
    }
}
