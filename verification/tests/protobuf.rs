use cel_syntax::ast::{Expr as AstExpr, IdedExpr};
use cel_syntax::protobuf::{constant, expr, types, Constant, ConversionError, ParsedExpr};
use cel_syntax::reference::Val;

#[test]
fn test_protobuf_types_accessible() {
    let _expr = types::Expr {
        id: 1,
        expr_kind: None,
    };

    let _constant = Constant {
        constant_kind: Some(constant::ConstantKind::BoolValue(true)),
    };

    let _parsed_expr = ParsedExpr {
        expr: None,
        source_info: None,
    };
}

#[test]
fn test_bidirectional_conversion() {
    let test_cases = vec![
        // Basic cases
        Val::Null,
        Val::Boolean(true),
        Val::Boolean(false),
        Val::Int(42),
        Val::Int(-123),
        Val::UInt(42),
        Val::Double(3.14f64.to_bits()),
        Val::Double((-2.5f64).to_bits()),
        Val::String("hello world".to_string()),
        Val::String("".to_string()),
        Val::Bytes(vec![0x01, 0x02, 0x03]),
        Val::Bytes(vec![]),
        // Edge cases
        Val::Int(i64::MAX),
        Val::Int(i64::MIN),
        Val::UInt(u64::MAX),
        Val::Double(f64::INFINITY.to_bits()),
        Val::Double(f64::NEG_INFINITY.to_bits()),
        Val::Double(f64::NAN.to_bits()),
    ];

    for val in test_cases {
        let constant = Constant::from(val.clone());
        let converted_back = Val::try_from(constant).unwrap();

        // Handle NaN
        if let (Val::Double(orig), Val::Double(conv)) = (&val, &converted_back) {
            if f64::from_bits(*orig).is_nan() && f64::from_bits(*conv).is_nan() {
                continue;
            }
        }

        assert_eq!(val, converted_back);
    }
}

#[test]
fn test_constant_to_val_error_cases() {
    // Missing constant_kind
    let constant = Constant {
        constant_kind: None,
    };
    let result = Val::try_from(constant);
    assert_eq!(
        result,
        Err(ConversionError::MissingField {
            field: "constant_kind".to_string()
        })
    );

    // Deprecated duration
    let constant = Constant {
        constant_kind: Some(constant::ConstantKind::DurationValue(
            ::prost_types::Duration {
                seconds: 60,
                nanos: 0,
            },
        )),
    };
    let result = Val::try_from(constant);
    assert_eq!(result, Err(ConversionError::InvalidConstantKind));

    // Deprecated timestamp
    let constant = Constant {
        constant_kind: Some(constant::ConstantKind::TimestampValue(
            ::prost_types::Timestamp {
                seconds: 1234567890,
                nanos: 0,
            },
        )),
    };
    let result = Val::try_from(constant);
    assert_eq!(result, Err(ConversionError::InvalidConstantKind));
}

#[test]
fn test_expr_ident_conversion() {
    let ident_expr = AstExpr::Ident("variable_name".to_string());
    let expr_kind = expr::ExprKind::try_from(ident_expr.clone()).unwrap();

    if let expr::ExprKind::IdentExpr(ident) = expr_kind {
        assert_eq!(ident.name, "variable_name");
    } else {
        panic!("Expected IdentExpr");
    }

    let expr_kind = expr::ExprKind::IdentExpr(expr::Ident {
        name: "test_var".to_string(),
    });
    let converted_expr = AstExpr::try_from(expr_kind).unwrap();
    assert_eq!(converted_expr, AstExpr::Ident("test_var".to_string()));
}

#[test]
fn test_expr_literal_conversion() {
    let literal_expr = AstExpr::Literal(Val::String("hello".to_string()));
    let expr_kind = expr::ExprKind::try_from(literal_expr.clone()).unwrap();

    if let expr::ExprKind::ConstExpr(constant) = expr_kind {
        assert_eq!(
            constant.constant_kind,
            Some(constant::ConstantKind::StringValue("hello".to_string()))
        );
    } else {
        panic!("Expected ConstExpr");
    }

    let expr_kind = expr::ExprKind::ConstExpr(Constant {
        constant_kind: Some(constant::ConstantKind::Int64Value(42)),
    });
    let converted_expr = AstExpr::try_from(expr_kind).unwrap();
    assert_eq!(converted_expr, AstExpr::Literal(Val::Int(42)));
}

#[test]
fn test_ided_expr_conversion() {
    let ided_expr = IdedExpr {
        id: 123,
        expr: AstExpr::Ident("my_var".to_string()),
    };
    let protobuf_expr = types::Expr::try_from(ided_expr.clone()).unwrap();

    assert_eq!(protobuf_expr.id, 123);
    if let Some(expr::ExprKind::IdentExpr(ident)) = protobuf_expr.expr_kind {
        assert_eq!(ident.name, "my_var");
    } else {
        panic!("Expected IdentExpr");
    }

    let protobuf_expr = types::Expr {
        id: 456,
        expr_kind: Some(expr::ExprKind::IdentExpr(expr::Ident {
            name: "another_var".to_string(),
        })),
    };
    let converted_ided = IdedExpr::try_from(protobuf_expr).unwrap();

    assert_eq!(converted_ided.id, 456);
    assert_eq!(
        converted_ided.expr,
        AstExpr::Ident("another_var".to_string())
    );
}

#[test]
fn test_expr_conversion_errors() {
    let protobuf_expr = types::Expr {
        id: 1,
        expr_kind: None,
    };
    let result = IdedExpr::try_from(protobuf_expr);
    assert_eq!(
        result,
        Err(ConversionError::MissingField {
            field: "expr_kind".to_string()
        })
    );

    let unsupported_expr_kind = expr::ExprKind::SelectExpr(Box::new(expr::Select {
        operand: Some(Box::new(types::Expr {
            id: 1,
            expr_kind: Some(expr::ExprKind::IdentExpr(expr::Ident {
                name: "test".to_string(),
            })),
        })),
        field: "field".to_string(),
        test_only: false,
    }));

    let result = AstExpr::try_from(unsupported_expr_kind);
    assert_eq!(result, Err(ConversionError::InvalidExpressionKind));
}

#[test]
fn negative_wire_id_is_rejected_with_its_decimal_text() {
    let wire = types::Expr {
        id: -17,
        expr_kind: Some(expr::ExprKind::IdentExpr(expr::Ident { name: "x".to_string() })),
    };
    assert_eq!(IdedExpr::try_from(wire), Err(ConversionError::InvalidId("-17".to_string())));
    let wire = types::Expr {
        id: i64::MIN,
        expr_kind: Some(expr::ExprKind::IdentExpr(expr::Ident { name: "x".to_string() })),
    };
    assert_eq!(
        IdedExpr::try_from(wire),
        Err(ConversionError::InvalidId("-9223372036854775808".to_string()))
    );
}

#[test]
fn large_id_keeps_its_bits_on_the_wire() {
    let node = IdedExpr { id: u64::MAX, expr: AstExpr::Ident("x".to_string()) };
    assert_eq!(types::Expr::try_from(node).unwrap().id, -1);
    let node = IdedExpr { id: 1u64 << 63, expr: AstExpr::Ident("x".to_string()) };
    assert_eq!(types::Expr::try_from(node).unwrap().id, i64::MIN);
    let node = IdedExpr { id: i64::MAX as u64, expr: AstExpr::Ident("x".to_string()) };
    assert_eq!(types::Expr::try_from(node).unwrap().id, i64::MAX);
}

#[test]
fn unsupported_node_shapes_have_no_wire_form() {
    let select = AstExpr::Select {
        operand: Box::new(IdedExpr { id: 1, expr: AstExpr::Ident("a".to_string()) }),
        field: "b".to_string(),
        test_only: false,
    };
    assert_eq!(expr::ExprKind::try_from(select), Err(ConversionError::InvalidExpressionKind));
    let list = IdedExpr { id: 3, expr: AstExpr::CreateList { elements: vec![] } };
    assert_eq!(types::Expr::try_from(list), Err(ConversionError::InvalidExpressionKind));
}

#[test]
fn conversion_error_messages() {
    assert_eq!(
        ConversionError::MissingField { field: "expr_kind".to_string() }.message(),
        "Missing required field: expr_kind"
    );
    assert_eq!(ConversionError::InvalidExpressionKind.message(), "Invalid expression kind");
    assert_eq!(ConversionError::InvalidConstantKind.message(), "Invalid constant kind");
    assert_eq!(ConversionError::InvalidId("-3".to_string()).message(), "Invalid ID: -3");
}
