use cel_syntax::ast::{
    call_of, clone_entries, clone_expr, clone_node, clone_nodes, comprehension_of, field_entry,
    ident_of, list_of, literal_of, map_entry, node_of, select_of, struct_of, Entry, EntryKey, Expr,
    IdedExpr,
};
use cel_syntax::error::{LexProblem, ParseError};
use cel_syntax::ids::IdAllocator;
use cel_syntax::lexer::{same_text, shape_at, tokenize};
use cel_syntax::literal::{integer, quoted};
use cel_syntax::macros::{expand_macro, MacroKind};
use cel_syntax::reference::Val;
use cel_syntax::references::{ExpressionReferences, MacroCall, Reference};
use cel_syntax::text::{chars_of, decimal_string, string_of};
use cel_syntax::token::{Token, TokenKind};
use cel_syntax::Expression;

fn chars(s: &str) -> Vec<char> {
    s.chars().collect()
}

fn name(id: u64, text: &str) -> IdedExpr {
    IdedExpr { id, expr: Expr::Ident(text.to_string()) }
}

#[test]
fn ids_start_at_one_and_go_up_by_one() {
    let mut ids = IdAllocator::new();
    assert_eq!(ids.last_id(), 0);
    assert_eq!(ids.remaining(), u64::MAX);
    assert_eq!(ids.next_id(), 1);
    assert_eq!(ids.next_id(), 2);
    assert_eq!(ids.next_id(), 3);
    assert_eq!(ids.last_id(), 3);
    assert_eq!(ids.remaining(), u64::MAX - 3);
}

#[test]
fn two_allocators_do_not_share_their_count() {
    let mut first = IdAllocator::new();
    let mut second = IdAllocator::new();
    assert_eq!(first.next_id(), 1);
    assert_eq!(first.next_id(), 2);
    assert_eq!(second.next_id(), 1);
}

#[test]
fn the_table_holds_one_entry_per_id() {
    let mut table = ExpressionReferences::new();
    assert_eq!(table.len(), 0);
    assert!(!table.contains(7));
    assert!(table.get(7).is_none());
    assert!(table.reserve(7));
    assert!(!table.reserve(7));
    assert_eq!(table.len(), 1);
    assert_eq!(table.get(7), Some(&Reference::Reserved));
    assert!(table.macro_call(7).is_none());
    table.record_macro(MacroCall { id: 9, kind: MacroKind::All, args: vec![name(1, "x")] });
    assert_eq!(table.len(), 2);
    assert!(!table.reserve(9));
    let call = table.macro_call(9).unwrap();
    assert_eq!(call.name(), "all");
    assert_eq!(call.args, vec![name(1, "x")]);
    table.record_macro(MacroCall { id: 7, kind: MacroKind::Filter, args: vec![] });
    assert_eq!(table.len(), 2);
    assert_eq!(table.macro_call(7).unwrap().kind, MacroKind::Filter);
}

#[test]
fn macro_names() {
    assert_eq!(MacroKind::Has.name(), "has");
    assert_eq!(MacroKind::All.name(), "all");
    assert_eq!(MacroKind::Exists.name(), "exists");
    assert_eq!(MacroKind::ExistsOne.name(), "exists_one");
    assert_eq!(MacroKind::MapEach.name(), "map");
    assert_eq!(MacroKind::Filter.name(), "filter");
}

#[test]
fn tokens_carry_their_kind_and_span() {
    let t = |kind, start, end| Token { kind, start, end };
    assert_eq!(
        tokenize(&chars("a1 >= 0x1Fu")).unwrap(),
        vec![
            t(TokenKind::Ident, 0, 2),
            t(TokenKind::GreaterEq, 3, 5),
            t(TokenKind::UInt, 6, 11),
            t(TokenKind::Eof, 11, 11),
        ]
    );
    assert_eq!(tokenize(&chars("")).unwrap(), vec![t(TokenKind::Eof, 0, 0)]);
    assert_eq!(tokenize(&chars(" \t\r\n\x0c")).unwrap(), vec![t(TokenKind::Eof, 5, 5)]);
    assert_eq!(tokenize(&chars("// c")).unwrap(), vec![t(TokenKind::Eof, 4, 4)]);
    assert_eq!(
        tokenize(&chars("1.5e+3.x")).unwrap(),
        vec![
            t(TokenKind::Float, 0, 6),
            t(TokenKind::Dot, 6, 7),
            t(TokenKind::Ident, 7, 8),
            t(TokenKind::Eof, 8, 8),
        ]
    );
    assert_eq!(
        tokenize(&chars("0x 1u 2e")).unwrap(),
        vec![
            t(TokenKind::Int, 0, 1),
            t(TokenKind::Ident, 1, 2),
            t(TokenKind::UInt, 3, 5),
            t(TokenKind::Int, 6, 7),
            t(TokenKind::Ident, 7, 8),
            t(TokenKind::Eof, 8, 8),
        ]
    );
}

#[test]
fn every_operator_and_bracket_is_a_token() {
    let kinds: Vec<TokenKind> = tokenize(&chars("( ) [ ] { } . , : ? + - * / % ! == != < <= > >= && || in"))
        .unwrap()
        .into_iter()
        .map(|t| t.kind)
        .collect();
    assert_eq!(
        kinds,
        vec![
            TokenKind::LParen,
            TokenKind::RParen,
            TokenKind::LBracket,
            TokenKind::RBracket,
            TokenKind::LBrace,
            TokenKind::RBrace,
            TokenKind::Dot,
            TokenKind::Comma,
            TokenKind::Colon,
            TokenKind::Question,
            TokenKind::Plus,
            TokenKind::Minus,
            TokenKind::Star,
            TokenKind::Slash,
            TokenKind::Percent,
            TokenKind::Bang,
            TokenKind::EqEq,
            TokenKind::NotEq,
            TokenKind::Less,
            TokenKind::LessEq,
            TokenKind::Greater,
            TokenKind::GreaterEq,
            TokenKind::AndAnd,
            TokenKind::OrOr,
            TokenKind::In,
            TokenKind::Eof,
        ]
    );
}

#[test]
fn string_tokens_end_with_their_quotes() {
    let t = |kind, start, end| Token { kind, start, end };
    assert_eq!(
        tokenize(&chars("'a\\'b' b\"x\" r'\\' \"\"\"a\"\"b\"\"\" rx bx")).unwrap(),
        vec![
            t(TokenKind::Str, 0, 6),
            t(TokenKind::Bytes, 7, 11),
            t(TokenKind::Str, 12, 16),
            t(TokenKind::Str, 17, 27),
            t(TokenKind::Ident, 28, 30),
            t(TokenKind::Ident, 31, 33),
            t(TokenKind::Eof, 33, 33),
        ]
    );
    assert_eq!(
        tokenize(&chars("  \"\"\"abc\"\"")).err(),
        Some(ParseError::Lexical { position: 2, problem: LexProblem::UnterminatedString })
    );
}

#[test]
fn the_shape_of_a_literal_is_read_from_its_start() {
    let text = chars("bR'''x'''");
    let shape = shape_at(&text, 0).unwrap();
    assert_eq!(shape.prefix, 2);
    assert!(shape.raw);
    assert!(shape.bytes);
    assert_eq!(shape.quote, '\'');
    assert!(shape.triple);
    let text = chars("\"x\"");
    let shape = shape_at(&text, 0).unwrap();
    assert_eq!(shape.prefix, 0);
    assert!(!shape.raw && !shape.bytes && !shape.triple);
    assert!(shape_at(&chars("rb'x'"), 0).is_none());
    assert!(shape_at(&chars("x"), 0).is_none());
}

#[test]
fn texts_are_compared_character_by_character() {
    let text = chars("a true b");
    assert!(same_text(&text, 2, 6, "true"));
    assert!(!same_text(&text, 2, 5, "true"));
    assert!(!same_text(&text, 2, 6, "trux"));
    assert!(same_text(&text, 3, 3, ""));
}

#[test]
fn integer_and_quoted_values_of_tokens() {
    let text = chars("0x7f 'a\\tb'");
    let tokens = tokenize(&text).unwrap();
    assert_eq!(integer(&text, tokens[0], false), Ok(Val::Int(127)));
    assert_eq!(integer(&text, tokens[0], true), Ok(Val::Int(-127)));
    assert_eq!(quoted(&text, tokens[1]), Ok(Val::String("a\tb".to_string())));
    let text = chars("9223372036854775808");
    let tokens = tokenize(&text).unwrap();
    assert_eq!(integer(&text, tokens[0], true), Ok(Val::Int(i64::MIN)));
    assert_eq!(
        integer(&text, tokens[0], false),
        Err(ParseError::Lexical { position: 0, problem: LexProblem::IntegerOutOfRange })
    );
}

#[test]
fn strings_from_characters_and_numbers() {
    assert_eq!(chars_of("h\u{e9}llo"), vec!['h', '\u{e9}', 'l', 'l', 'o']);
    assert_eq!(chars_of(""), Vec::<char>::new());
    let text = chars("hello world");
    assert_eq!(string_of(&text, 6, 11), "world");
    assert_eq!(string_of(&text, 3, 3), "");
    assert_eq!(decimal_string(0), "0");
    assert_eq!(decimal_string(7), "7");
    assert_eq!(decimal_string(10), "10");
    assert_eq!(decimal_string(-1), "-1");
    assert_eq!(decimal_string(1234567890), "1234567890");
    assert_eq!(decimal_string(i64::MAX), "9223372036854775807");
    assert_eq!(decimal_string(i64::MIN), "-9223372036854775808");
}

#[test]
fn constructors_build_the_shapes() {
    assert_eq!(node_of(3, ident_of("x".to_string())), name(3, "x"));
    assert_eq!(literal_of(Val::Int(1)), Expr::Literal(Val::Int(1)));
    assert_eq!(
        select_of(name(1, "a"), "f".to_string(), true),
        Expr::Select { operand: Box::new(name(1, "a")), field: "f".to_string(), test_only: true }
    );
    assert_eq!(
        call_of(Some(name(1, "a")), "f".to_string(), vec![name(2, "b")]),
        Expr::Call {
            target: Some(Box::new(name(1, "a"))),
            function: "f".to_string(),
            args: vec![name(2, "b")]
        }
    );
    assert_eq!(list_of(vec![name(1, "a")]), Expr::CreateList { elements: vec![name(1, "a")] });
    assert_eq!(
        struct_of(
            vec![field_entry("f".to_string(), name(1, "a")), map_entry(name(2, "k"), name(3, "v"))],
            Some("M".to_string())
        ),
        Expr::CreateStruct {
            entries: vec![
                Entry { key: EntryKey::Field("f".to_string()), value: name(1, "a") },
                Entry { key: EntryKey::Expr(name(2, "k")), value: name(3, "v") },
            ],
            message_name: Some("M".to_string()),
        }
    );
    assert_eq!(
        comprehension_of(
            "x".to_string(),
            name(1, "r"),
            "acc".to_string(),
            name(2, "i"),
            name(3, "c"),
            name(4, "s"),
            name(5, "t")
        ),
        Expr::Comprehension {
            iter_var: "x".to_string(),
            iter_range: Box::new(name(1, "r")),
            accu_var: "acc".to_string(),
            accu_init: Box::new(name(2, "i")),
            loop_condition: Box::new(name(3, "c")),
            loop_step: Box::new(name(4, "s")),
            result: Box::new(name(5, "t")),
        }
    );
}

#[test]
fn copies_are_equal_to_what_they_copy() {
    let tree: Expression = cel_syntax::parse(
        "M{f: [1u, \"s\", b'b', null, true]}.g(a.b, {k: r.map(x, x)})[0] ? -1 : h()",
        &Vec::new(),
    )
    .unwrap()
    .expr;
    assert_eq!(clone_node(&tree), tree);
    assert_eq!(tree.clone(), tree);
    assert_eq!(clone_expr(&tree.expr), tree.expr);
    assert_eq!(tree.expr.clone(), tree.expr);
    let nodes = vec![name(1, "a"), tree];
    assert_eq!(clone_nodes(&nodes), nodes);
    let entries = vec![
        Entry { key: EntryKey::Field("f".to_string()), value: name(1, "a") },
        Entry { key: EntryKey::Expr(name(2, "k")), value: name(3, "v") },
    ];
    assert_eq!(clone_entries(&entries), entries);
    for v in [
        Val::Null,
        Val::Boolean(true),
        Val::Int(-3),
        Val::UInt(3),
        Val::Double(2.5f64.to_bits()),
        Val::String("s".to_string()),
        Val::Bytes(vec![1, 2, 3]),
    ] {
        assert_eq!(v.clone(), v);
    }
}

#[test]
fn rewriting_a_call_by_hand() {
    let mut ids = IdAllocator::new();
    let mut table = ExpressionReferences::new();
    let r = node_of(ids.next_id(), ident_of("r".to_string()));
    let x = node_of(ids.next_id(), ident_of("x".to_string()));
    let p = node_of(ids.next_id(), ident_of("p".to_string()));
    let call = node_of(ids.next_id(), call_of(Some(r), "all".to_string(), vec![x, p]));
    let out = expand_macro(call, &mut ids, &mut table).unwrap();
    assert_eq!(out.id, 4);
    assert!(matches!(out.expr, Expr::Comprehension { .. }));
    assert_eq!(ids.last_id(), 9);
    assert_eq!(table.macro_call(4).unwrap().args, vec![name(2, "x"), name(3, "p")]);
}

#[test]
fn what_is_no_macro_call_stays_as_it_is() {
    let mut ids = IdAllocator::new();
    let mut table = ExpressionReferences::new();
    let leaf = name(5, "x");
    assert_eq!(expand_macro(leaf.clone(), &mut ids, &mut table), Ok(leaf));
    let plain = node_of(6, call_of(Some(name(1, "r")), "size".to_string(), vec![]));
    assert_eq!(expand_macro(plain.clone(), &mut ids, &mut table), Ok(plain));
    assert_eq!(ids.last_id(), 0);
    assert_eq!(table.len(), 0);
}

#[test]
fn a_refused_macro_call_changes_nothing() {
    let mut ids = IdAllocator::new();
    let mut table = ExpressionReferences::new();
    ids.next_id();
    let call = node_of(2, call_of(Some(name(1, "r")), "filter".to_string(), vec![]));
    assert_eq!(
        expand_macro(call, &mut ids, &mut table),
        Err(ParseError::MacroArityError { name: MacroKind::Filter, expected: 2, actual: 0 })
    );
    assert_eq!(ids.last_id(), 1);
    assert_eq!(table.len(), 0);
}
