use army_lang::ast::{
    AstNode, Expression, FieldDecl, FieldInit, LiteralValue, MethodDecl, Modifier, Param, Program,
    Statement, StructDecl, Type,
};

fn sample_struct(permits: Vec<String>) -> StructDecl {
    StructDecl {
        name: "Shape".to_string(),
        permits,
        modifiers: vec![Modifier::Final],
        fields: vec![FieldDecl {
            modifiers: vec![Modifier::Static, Modifier::Final],
            name: "count".to_string(),
            ty: Type::int_type(),
            init: Some(Box::new(Expression::Literal(LiteralValue::Int(0), Type::int_type()))),
        }],
        anonymous_fields: vec![],
        methods: vec![],
    }
}

#[test]
fn builtin_types() {
    assert_eq!(Type::int_type().name, "int");
    assert_eq!(Type::float().name, "float");
    assert_eq!(Type::string().name, "string");
    assert_eq!(Type::bool_type().name, "bool");
    assert_eq!(Type::void().name, "void");
    assert_eq!(Type::new("Point"), Type { name: "Point".to_string() });
    assert_eq!(Type::INT_STR, "int");
    assert_eq!(Type::VOID_STR, "void");
}

#[test]
fn type_as_text() {
    assert_eq!(Type::new("Rectangle").to_string(), "Rectangle");
}

#[test]
fn sealed_structs() {
    assert!(!sample_struct(vec![]).is_sealed());
    assert!(sample_struct(vec!["Circle".to_string()]).is_sealed());
}

#[test]
fn node_types() {
    let e = Expression::Ident("x".to_string());
    let s = Statement::Return(None);
    let f = FieldDecl {
        modifiers: vec![],
        name: "f".to_string(),
        ty: Type::bool_type(),
        init: None,
    };
    let m = MethodDecl {
        modifiers: vec![],
        name: "main".to_string(),
        params: vec![],
        return_type: None,
        body: Box::new(Statement::Block(vec![])),
    };
    let p = Program { package_name: "main".to_string(), structs: vec![], funcs: vec![] };
    assert_eq!(Type::void().node_type(), "Type");
    assert_eq!(e.node_type(), "Expression");
    assert_eq!(s.node_type(), "Statement");
    assert_eq!(p.node_type(), "Program");
    assert_eq!(sample_struct(vec![]).node_type(), "StructDecl");
    assert_eq!(f.node_type(), "FieldDecl");
    assert_eq!(m.node_type(), "MethodDecl");
}

#[test]
fn cloning_a_program_copies_it() {
    let call = Expression::Call {
        callee: Box::new(Expression::FieldAccess {
            object: Box::new(Expression::Ident("r".to_string())),
            field: "area".to_string(),
        }),
        args: vec![
            Expression::Binary {
                left: Box::new(Expression::Literal(LiteralValue::Float(2.5f64.to_bits()), Type::float())),
                op: "*".to_string(),
                right: Box::new(Expression::Unary {
                    op: "-".to_string(),
                    expr: Box::new(Expression::Literal(LiteralValue::Int(3), Type::int_type())),
                }),
            },
            Expression::Constructor {
                struct_name: "Point".to_string(),
                fields: vec![FieldInit {
                    name: "x".to_string(),
                    value: Box::new(Expression::Literal(LiteralValue::Null, Type::void())),
                }],
            },
        ],
    };
    let body = Statement::Block(vec![
        Statement::VarDecl {
            name: "s".to_string(),
            explicit_type: Some(Type::string()),
            init: Some(Box::new(Expression::Literal(
                LiteralValue::String("hi".to_string()),
                Type::string(),
            ))),
        },
        Statement::If {
            cond: Box::new(Expression::Literal(LiteralValue::Bool(true), Type::bool_type())),
            then_stmt: Box::new(Statement::ExprStmt(call)),
            else_stmt: Some(Box::new(Statement::Assign {
                target: Box::new(Expression::Ident("s".to_string())),
                value: Box::new(Expression::Ident("t".to_string())),
            })),
        },
        Statement::Return(None),
    ]);
    let mut shape = sample_struct(vec!["Circle".to_string()]);
    shape.anonymous_fields.push(sample_struct(vec![]));
    shape.methods.push(MethodDecl {
        modifiers: vec![Modifier::Static],
        name: "draw".to_string(),
        params: vec![Param { name: "r".to_string(), ty: Type::new("Rect") }],
        return_type: Some(Type::void()),
        body: Box::new(body.clone()),
    });
    let program = Program {
        package_name: "geo".to_string(),
        structs: vec![shape],
        funcs: vec![MethodDecl {
            modifiers: vec![],
            name: "main".to_string(),
            params: vec![],
            return_type: None,
            body: Box::new(body),
        }],
    };
    let copy = program.clone();
    assert_eq!(copy, program);
    assert_eq!(copy.structs[0].anonymous_fields[0], program.structs[0].anonymous_fields[0]);
}

#[test]
fn literal_values_as_text() {
    assert_eq!(LiteralValue::Int(-42).to_string_with_float(""), "-42");
    assert_eq!(LiteralValue::Int(i64::MIN).to_string_with_float(""), i64::MIN.to_string());
    assert_eq!(LiteralValue::Int(7).to_string_with_float(""), "7");
    assert_eq!(LiteralValue::String("hi".to_string()).to_string_with_float(""), "\"hi\"");
    assert_eq!(LiteralValue::Bool(true).to_string_with_float(""), "true");
    assert_eq!(LiteralValue::Bool(false).to_string_with_float(""), "false");
    assert_eq!(LiteralValue::Null.to_string_with_float(""), "nil");
    assert_eq!(LiteralValue::Float(2.5f64.to_bits()).to_string_with_float("2.5"), "2.5");
}
