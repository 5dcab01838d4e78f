//! Syntax-tree data types of the Army language.

use vstd::prelude::*;
use crate::text::{decimal, digits_value, lemma_decimal, push_char, push_decimal};

verus! {

/// A type name, such as `int` or a struct's name.
#[derive(Debug, PartialEq, Eq, Hash)]
pub struct Type {
    pub name: String,
}

impl Type {
    pub const INT_STR: &'static str = "int";
    pub const FLOAT_STR: &'static str = "float";
    pub const STRING_STR: &'static str = "string";
    pub const BOOL_STR: &'static str = "bool";
    pub const VOID_STR: &'static str = "void";

    /// The type as text: its name.
    pub fn to_string(&self) -> (s: String)
        ensures
            s@ == self.name@,
    {
        self.name.clone()
    }

    /// A type with the given name.
    pub fn new(name: &str) -> (t: Type)
        ensures
            t.name@ == name@,
    {
        Type { name: name.to_owned() }
    }

    /// The built-in type `int`.
    pub fn int_type() -> (t: Type)
        ensures
            t.name@ == "int"@,
    {
        Type::new(Self::INT_STR)
    }

    /// The built-in type `float`.
    pub fn float() -> (t: Type)
        ensures
            t.name@ == "float"@,
    {
        Type::new(Self::FLOAT_STR)
    }

    /// The built-in type `string`.
    pub fn string() -> (t: Type)
        ensures
            t.name@ == "string"@,
    {
        Type::new(Self::STRING_STR)
    }

    /// The built-in type `bool`.
    pub fn bool_type() -> (t: Type)
        ensures
            t.name@ == "bool"@,
    {
        Type::new(Self::BOOL_STR)
    }

    /// The built-in type `void`.
    pub fn void() -> (t: Type)
        ensures
            t.name@ == "void"@,
    {
        Type::new(Self::VOID_STR)
    }
}

/// A declaration modifier.
#[derive(Debug, Clone, Copy, PartialEq, Eq, Structural, Hash)]
pub enum Modifier {
    Static,
    Final,
}

/// One field of a struct literal: `name: value`.
#[derive(Debug, PartialEq)]
pub struct FieldInit {
    pub name: String,
    pub value: Box<Expression>,
}

/// An expression.
#[derive(Debug, PartialEq)]
pub enum Expression {
    Literal(LiteralValue, Type),
    Ident(String),
    Binary { left: Box<Expression>, op: String, right: Box<Expression> },
    Unary { op: String, expr: Box<Expression> },
    Call { callee: Box<Expression>, args: Vec<Expression> },
    FieldAccess { object: Box<Expression>, field: String },
    /// Struct literal construction: `Rectangle{width: 10.0, height: 20.0}`
    Constructor { struct_name: String, fields: Vec<FieldInit> },
}

/// A literal value. A float is held as the bit pattern of its IEEE 754 double
/// (`f64::to_bits`).
#[derive(Debug, PartialEq)]
pub enum LiteralValue {
    Int(i64),
    Float(u64),
    String(String),
    Bool(bool),
    Null,
}

/// The decimal text of an integer, with a leading `-` when it is negative.
pub open spec fn int_text(v: int) -> Seq<char> {
    if v < 0 {
        seq!['-'] + decimal((-v) as nat)
    } else {
        decimal(v as nat)
    }
}

/// The text of an integer is a `-` exactly when the integer is negative, followed by
/// decimal digits, without leading zeros, that stand for its magnitude.
pub proof fn lemma_int_text(v: int)
    ensures
        int_text(v).len() >= 1,
        (int_text(v)[0] == '-') == (v < 0),
        ({
            let d = if v < 0 {
                int_text(v).drop_first()
            } else {
                int_text(v)
            };
            &&& d.len() >= 1
            &&& forall|i: int| 0 <= i < d.len() ==> '0' <= #[trigger] d[i] <= '9'
            &&& digits_value(d) == if v < 0 {
                -v
            } else {
                v
            }
            &&& d.len() > 1 ==> d[0] != '0'
        }),
{
    if v < 0 {
        lemma_decimal((-v) as nat);
        assert(int_text(v).drop_first() =~= decimal((-v) as nat));
    } else {
        lemma_decimal(v as nat);
    }
}

impl LiteralValue {
    /// The text of the literal value as the language writes it: the decimal integer, the
    /// string between double quotes, `true` or `false`, `nil`. A float's text is given as
    /// `float_text` (it is the float's formatting, which is done outside this library).
    pub fn to_string_with_float(&self, float_text: &str) -> (r: String)
        ensures
            r@ == match *self {
                LiteralValue::Int(v) => int_text(v as int),
                LiteralValue::Float(_) => float_text@,
                LiteralValue::String(s) => seq!['"'] + s@ + seq!['"'],
                LiteralValue::Bool(b) => if b {
                    "true"@
                } else {
                    "false"@
                },
                LiteralValue::Null => "nil"@,
            },
    {
        match self {
            LiteralValue::Int(v) => {
                let mut s = String::new();
                if *v < 0 {
                    push_char(&mut s, '-');
                    let magnitude: u64 = (0i128 - (*v as i128)) as u64;
                    push_decimal(&mut s, magnitude);
                } else {
                    push_decimal(&mut s, *v as u64);
                }
                assert(s@ =~= int_text(*v as int));
                s
            },
            LiteralValue::Float(_) => float_text.to_owned(),
            LiteralValue::String(text) => {
                let mut s = String::new();
                push_char(&mut s, '"');
                s.append(text.as_str());
                push_char(&mut s, '"');
                assert(s@ =~= seq!['"'] + text@ + seq!['"']);
                s
            },
            LiteralValue::Bool(b) => {
                if *b {
                    "true".to_owned()
                } else {
                    "false".to_owned()
                }
            },
            LiteralValue::Null => "nil".to_owned(),
        }
    }
}

/// A statement.
#[derive(Debug, PartialEq)]
pub enum Statement {
    ExprStmt(Expression),
    VarDecl { name: String, explicit_type: Option<Type>, init: Option<Box<Expression>> },
    Assign { target: Box<Expression>, value: Box<Expression> },
    Block(Vec<Statement>),
    If {
        cond: Box<Expression>,
        then_stmt: Box<Statement>,
        else_stmt: Option<Box<Statement>>,
    },
    Return(Option<Box<Expression>>),
}

/// A parameter of a method or function.
#[derive(Debug, PartialEq)]
pub struct Param {
    pub name: String,
    pub ty: Type,
}

/// A method or function declaration.
#[derive(Debug, PartialEq)]
pub struct MethodDecl {
    pub modifiers: Vec<Modifier>,
    pub name: String,
    pub params: Vec<Param>,
    pub return_type: Option<Type>,
    pub body: Box<Statement>,
}

/// A field declaration.
#[derive(Debug, PartialEq)]
pub struct FieldDecl {
    pub modifiers: Vec<Modifier>,
    pub name: String,
    pub ty: Type,
    pub init: Option<Box<Expression>>,
}

/// A struct declaration.
#[derive(Debug, PartialEq)]
pub struct StructDecl {
    pub name: String,
    /// The subtypes a sealed struct permits; empty when the struct is not sealed.
    pub permits: Vec<String>,
    pub modifiers: Vec<Modifier>,
    pub fields: Vec<FieldDecl>,
    /// Anonymously embedded structs.
    pub anonymous_fields: Vec<StructDecl>,
    pub methods: Vec<MethodDecl>,
}

impl StructDecl {
    /// Whether the struct is sealed: it names at least one permitted subtype.
    pub fn is_sealed(&self) -> (r: bool)
        ensures
            r == (self.permits@.len() > 0),
    {
        !self.permits.is_empty()
    }
}

/// A whole program: its package name, structs and functions.
#[derive(Debug, PartialEq)]
pub struct Program {
    pub package_name: String,
    pub structs: Vec<StructDecl>,
    pub funcs: Vec<MethodDecl>,
}


/// `b` is a copy of `a`: the same tree, with equal names, operators and values.
pub open spec fn same_expression(a: Expression, b: Expression) -> bool
    decreases a,
{
    match a {
        Expression::Literal(v, t) => b == Expression::Literal(v, t),
        Expression::Ident(n) => b == Expression::Ident(n),
        Expression::Binary { left, op, right } => match b {
            Expression::Binary { left: left2, op: op2, right: right2 } => same_expression(*left, *left2)
                && op == op2 && same_expression(*right, *right2),
            _ => false,
        },
        Expression::Unary { op, expr } => match b {
            Expression::Unary { op: op2, expr: expr2 } => op == op2 && same_expression(*expr, *expr2),
            _ => false,
        },
        Expression::Call { callee, args } => match b {
            Expression::Call { callee: callee2, args: args2 } => same_expression(*callee, *callee2)
                && same_expressions(args, args2),
            _ => false,
        },
        Expression::FieldAccess { object, field } => match b {
            Expression::FieldAccess { object: object2, field: field2 } => same_expression(
                *object,
                *object2,
            ) && field == field2,
            _ => false,
        },
        Expression::Constructor { struct_name, fields } => match b {
            Expression::Constructor { struct_name: struct_name2, fields: fields2 } => struct_name
                == struct_name2 && same_field_inits(fields, fields2),
            _ => false,
        },
    }
}

/// `b` holds copies of the expressions of `a`, in the same order.
pub open spec fn same_expressions(a: Vec<Expression>, b: Vec<Expression>) -> bool
    decreases a,
{
    a.len() == b.len() && forall|i: int| 0 <= i < a.len() ==> same_expression(a[i], #[trigger] b[i])
}

/// `b` is a copy of the field initialiser `a`.
pub open spec fn same_field_init(a: FieldInit, b: FieldInit) -> bool
    decreases a,
{
    a.name == b.name && same_expression(*a.value, *b.value)
}

/// `b` holds copies of the field initialisers of `a`, in the same order.
pub open spec fn same_field_inits(a: Vec<FieldInit>, b: Vec<FieldInit>) -> bool
    decreases a,
{
    a.len() == b.len() && forall|i: int| 0 <= i < a.len() ==> same_field_init(a[i], #[trigger] b[i])
}

/// `b` is a copy of the optional expression `a`.
pub open spec fn same_optional_expression(a: Option<Box<Expression>>, b: Option<Box<Expression>>) -> bool {
    match a {
        Some(x) => b is Some && same_expression(*x, *b->0),
        None => b is None,
    }
}

/// `b` is a copy of the statement `a`.
pub open spec fn same_statement(a: Statement, b: Statement) -> bool
    decreases a,
{
    match a {
        Statement::ExprStmt(e) => match b {
            Statement::ExprStmt(e2) => same_expression(e, e2),
            _ => false,
        },
        Statement::VarDecl { name, explicit_type, init } => match b {
            Statement::VarDecl { name: name2, explicit_type: explicit_type2, init: init2 } => name
                == name2 && explicit_type == explicit_type2 && same_optional_expression(init, init2),
            _ => false,
        },
        Statement::Assign { target, value } => match b {
            Statement::Assign { target: target2, value: value2 } => same_expression(*target, *target2)
                && same_expression(*value, *value2),
            _ => false,
        },
        Statement::Block(body) => match b {
            Statement::Block(body2) => same_statements(body, body2),
            _ => false,
        },
        Statement::If { cond, then_stmt, else_stmt } => match b {
            Statement::If { cond: cond2, then_stmt: then_stmt2, else_stmt: else_stmt2 } => {
                &&& same_expression(*cond, *cond2)
                &&& same_statement(*then_stmt, *then_stmt2)
                &&& match else_stmt {
                    Some(x) => else_stmt2 is Some && same_statement(*x, *else_stmt2->0),
                    None => else_stmt2 is None,
                }
            },
            _ => false,
        },
        Statement::Return(value) => match b {
            Statement::Return(value2) => same_optional_expression(value, value2),
            _ => false,
        },
    }
}

/// `b` holds copies of the statements of `a`, in the same order.
pub open spec fn same_statements(a: Vec<Statement>, b: Vec<Statement>) -> bool
    decreases a,
{
    a.len() == b.len() && forall|i: int| 0 <= i < a.len() ==> same_statement(a[i], #[trigger] b[i])
}

/// `b` is a copy of the method declaration `a`.
pub open spec fn same_method_decl(a: MethodDecl, b: MethodDecl) -> bool {
    &&& a.modifiers@ == b.modifiers@
    &&& a.name == b.name
    &&& a.params@ == b.params@
    &&& a.return_type == b.return_type
    &&& same_statement(*a.body, *b.body)
}

/// `b` holds copies of the method declarations of `a`, in the same order.
pub open spec fn same_method_decls(a: Vec<MethodDecl>, b: Vec<MethodDecl>) -> bool {
    a.len() == b.len() && forall|i: int| 0 <= i < a.len() ==> same_method_decl(a[i], #[trigger] b[i])
}

/// `b` is a copy of the field declaration `a`.
pub open spec fn same_field_decl(a: FieldDecl, b: FieldDecl) -> bool {
    &&& a.modifiers@ == b.modifiers@
    &&& a.name == b.name
    &&& a.ty == b.ty
    &&& same_optional_expression(a.init, b.init)
}

/// `b` holds copies of the field declarations of `a`, in the same order.
pub open spec fn same_field_decls(a: Vec<FieldDecl>, b: Vec<FieldDecl>) -> bool {
    a.len() == b.len() && forall|i: int| 0 <= i < a.len() ==> same_field_decl(a[i], #[trigger] b[i])
}

/// `b` is a copy of the struct declaration `a`.
pub open spec fn same_struct_decl(a: StructDecl, b: StructDecl) -> bool
    decreases a,
{
    &&& a.name == b.name
    &&& a.permits@ == b.permits@
    &&& a.modifiers@ == b.modifiers@
    &&& same_field_decls(a.fields, b.fields)
    &&& same_struct_decls(a.anonymous_fields, b.anonymous_fields)
    &&& same_method_decls(a.methods, b.methods)
}

/// `b` holds copies of the struct declarations of `a`, in the same order.
pub open spec fn same_struct_decls(a: Vec<StructDecl>, b: Vec<StructDecl>) -> bool
    decreases a,
{
    a.len() == b.len() && forall|i: int| 0 <= i < a.len() ==> same_struct_decl(a[i], #[trigger] b[i])
}

/// `b` is a copy of the program `a`.
pub open spec fn same_program(a: Program, b: Program) -> bool {
    &&& a.package_name == b.package_name
    &&& same_struct_decls(a.structs, b.structs)
    &&& same_method_decls(a.funcs, b.funcs)
}

impl Clone for Type {
    fn clone(&self) -> (r: Self)
        ensures
            r == *self,
    {
        clone_type(self)
    }
}

impl Clone for LiteralValue {
    fn clone(&self) -> (r: Self)
        ensures
            r == *self,
    {
        clone_literal(self)
    }
}

fn clone_type(t: &Type) -> (r: Type)
    ensures
        r == *t,
{
    Type { name: t.name.clone() }
}

fn clone_literal(v: &LiteralValue) -> (r: LiteralValue)
    ensures
        r == *v,
{
    match v {
        LiteralValue::Int(i) => LiteralValue::Int(*i),
        LiteralValue::Float(bits) => LiteralValue::Float(*bits),
        LiteralValue::String(s) => LiteralValue::String(s.clone()),
        LiteralValue::Bool(b) => LiteralValue::Bool(*b),
        LiteralValue::Null => LiteralValue::Null,
    }
}

impl Clone for Expression {
    fn clone(&self) -> (r: Self)
        ensures
            same_expression(*self, r),
    {
        clone_expression(self)
    }
}

impl Clone for FieldInit {
    fn clone(&self) -> (r: Self)
        ensures
            same_field_init(*self, r),
    {
        clone_field_init(self)
    }
}

impl Clone for Statement {
    fn clone(&self) -> (r: Self)
        ensures
            same_statement(*self, r),
    {
        clone_statement(self)
    }
}

impl Clone for Param {
    fn clone(&self) -> (r: Self)
        ensures
            r == *self,
    {
        clone_param(self)
    }
}

impl Clone for MethodDecl {
    fn clone(&self) -> (r: Self)
        ensures
            same_method_decl(*self, r),
    {
        clone_method_decl(self)
    }
}

impl Clone for FieldDecl {
    fn clone(&self) -> (r: Self)
        ensures
            same_field_decl(*self, r),
    {
        clone_field_decl(self)
    }
}

impl Clone for StructDecl {
    fn clone(&self) -> (r: Self)
        ensures
            same_struct_decl(*self, r),
    {
        clone_struct_decl(self)
    }
}

impl Clone for Program {
    fn clone(&self) -> (r: Self)
        ensures
            same_program(*self, r),
    {
        Program {
            package_name: self.package_name.clone(),
            structs: clone_struct_decls(&self.structs),
            funcs: clone_method_decls(&self.funcs),
        }
    }
}

fn clone_expression(e: &Expression) -> (r: Expression)
    ensures
        same_expression(*e, r),
    decreases e,
{
    match e {
        Expression::Literal(v, t) => Expression::Literal(clone_literal(v), clone_type(t)),
        Expression::Ident(n) => Expression::Ident(n.clone()),
        Expression::Binary { left, op, right } => Expression::Binary {
            left: Box::new(clone_expression(left)),
            op: op.clone(),
            right: Box::new(clone_expression(right)),
        },
        Expression::Unary { op, expr } => Expression::Unary {
            op: op.clone(),
            expr: Box::new(clone_expression(expr)),
        },
        Expression::Call { callee, args } => Expression::Call {
            callee: Box::new(clone_expression(callee)),
            args: clone_expressions(args),
        },
        Expression::FieldAccess { object, field } => Expression::FieldAccess {
            object: Box::new(clone_expression(object)),
            field: field.clone(),
        },
        Expression::Constructor { struct_name, fields } => Expression::Constructor {
            struct_name: struct_name.clone(),
            fields: clone_field_inits(fields),
        },
    }
}

fn clone_expressions(v: &Vec<Expression>) -> (r: Vec<Expression>)
    ensures
        same_expressions(*v, r),
    decreases v,
{
    let mut r: Vec<Expression> = Vec::new();
    for i in 0..v.len()
        invariant
            r.len() == i,
            forall|j: int| 0 <= j < i ==> same_expression(v[j], #[trigger] r[j]),
    {
        let c = clone_expression(&v[i]);
        r.push(c);
        assert(r[i as int] == c);
    }
    r
}

fn clone_field_init(f: &FieldInit) -> (r: FieldInit)
    ensures
        same_field_init(*f, r),
    decreases f,
{
    FieldInit { name: f.name.clone(), value: Box::new(clone_expression(&f.value)) }
}

fn clone_field_inits(v: &Vec<FieldInit>) -> (r: Vec<FieldInit>)
    ensures
        same_field_inits(*v, r),
    decreases v,
{
    let mut r: Vec<FieldInit> = Vec::new();
    for i in 0..v.len()
        invariant
            r.len() == i,
            forall|j: int| 0 <= j < i ==> same_field_init(v[j], #[trigger] r[j]),
    {
        let c = clone_field_init(&v[i]);
        r.push(c);
        assert(r[i as int] == c);
    }
    r
}

fn clone_optional_expression(e: &Option<Box<Expression>>) -> (r: Option<Box<Expression>>)
    ensures
        same_optional_expression(*e, r),
{
    match e {
        Some(x) => Some(Box::new(clone_expression(x))),
        None => None,
    }
}

fn clone_optional_type(t: &Option<Type>) -> (r: Option<Type>)
    ensures
        r == *t,
{
    match t {
        Some(x) => Some(clone_type(x)),
        None => None,
    }
}

fn clone_statement(s: &Statement) -> (r: Statement)
    ensures
        same_statement(*s, r),
    decreases s,
{
    match s {
        Statement::ExprStmt(e) => Statement::ExprStmt(clone_expression(e)),
        Statement::VarDecl { name, explicit_type, init } => Statement::VarDecl {
            name: name.clone(),
            explicit_type: clone_optional_type(explicit_type),
            init: clone_optional_expression(init),
        },
        Statement::Assign { target, value } => Statement::Assign {
            target: Box::new(clone_expression(target)),
            value: Box::new(clone_expression(value)),
        },
        Statement::Block(body) => Statement::Block(clone_statements(body)),
        Statement::If { cond, then_stmt, else_stmt } => Statement::If {
            cond: Box::new(clone_expression(cond)),
            then_stmt: Box::new(clone_statement(then_stmt)),
            else_stmt: match else_stmt {
                Some(x) => Some(Box::new(clone_statement(x))),
                None => None,
            },
        },
        Statement::Return(value) => Statement::Return(clone_optional_expression(value)),
    }
}

fn clone_statements(v: &Vec<Statement>) -> (r: Vec<Statement>)
    ensures
        same_statements(*v, r),
    decreases v,
{
    let mut r: Vec<Statement> = Vec::new();
    for i in 0..v.len()
        invariant
            r.len() == i,
            forall|j: int| 0 <= j < i ==> same_statement(v[j], #[trigger] r[j]),
    {
        let c = clone_statement(&v[i]);
        r.push(c);
        assert(r[i as int] == c);
    }
    r
}

fn clone_modifiers(v: &Vec<Modifier>) -> (r: Vec<Modifier>)
    ensures
        r@ == v@,
{
    let mut r: Vec<Modifier> = Vec::new();
    for i in 0..v.len()
        invariant
            r@ == v@.subrange(0, i as int),
    {
        r.push(v[i]);
        assert(r@ =~= v@.subrange(0, i + 1));
    }
    assert(r@ =~= v@);
    r
}

fn clone_strings(v: &Vec<String>) -> (r: Vec<String>)
    ensures
        r@ == v@,
{
    let mut r: Vec<String> = Vec::new();
    for i in 0..v.len()
        invariant
            r@ == v@.subrange(0, i as int),
    {
        r.push(v[i].clone());
        assert(r@ =~= v@.subrange(0, i + 1));
    }
    assert(r@ =~= v@);
    r
}

fn clone_params(v: &Vec<Param>) -> (r: Vec<Param>)
    ensures
        r@ == v@,
{
    let mut r: Vec<Param> = Vec::new();
    for i in 0..v.len()
        invariant
            r@ == v@.subrange(0, i as int),
    {
        r.push(clone_param(&v[i]));
        assert(r@ =~= v@.subrange(0, i + 1));
    }
    assert(r@ =~= v@);
    r
}

fn clone_param(p: &Param) -> (r: Param)
    ensures
        r == *p,
{
    Param { name: p.name.clone(), ty: clone_type(&p.ty) }
}

fn clone_method_decl(m: &MethodDecl) -> (r: MethodDecl)
    ensures
        same_method_decl(*m, r),
{
    MethodDecl {
        modifiers: clone_modifiers(&m.modifiers),
        name: m.name.clone(),
        params: clone_params(&m.params),
        return_type: clone_optional_type(&m.return_type),
        body: Box::new(clone_statement(&m.body)),
    }
}

fn clone_method_decls(v: &Vec<MethodDecl>) -> (r: Vec<MethodDecl>)
    ensures
        same_method_decls(*v, r),
{
    let mut r: Vec<MethodDecl> = Vec::new();
    for i in 0..v.len()
        invariant
            r.len() == i,
            forall|j: int| 0 <= j < i ==> same_method_decl(v[j], #[trigger] r[j]),
    {
        let c = clone_method_decl(&v[i]);
        r.push(c);
        assert(r[i as int] == c);
    }
    r
}

fn clone_field_decl(f: &FieldDecl) -> (r: FieldDecl)
    ensures
        same_field_decl(*f, r),
{
    FieldDecl {
        modifiers: clone_modifiers(&f.modifiers),
        name: f.name.clone(),
        ty: clone_type(&f.ty),
        init: clone_optional_expression(&f.init),
    }
}

fn clone_field_decls(v: &Vec<FieldDecl>) -> (r: Vec<FieldDecl>)
    ensures
        same_field_decls(*v, r),
{
    let mut r: Vec<FieldDecl> = Vec::new();
    for i in 0..v.len()
        invariant
            r.len() == i,
            forall|j: int| 0 <= j < i ==> same_field_decl(v[j], #[trigger] r[j]),
    {
        let c = clone_field_decl(&v[i]);
        r.push(c);
        assert(r[i as int] == c);
    }
    r
}

fn clone_struct_decl(d: &StructDecl) -> (r: StructDecl)
    ensures
        same_struct_decl(*d, r),
    decreases d,
{
    StructDecl {
        name: d.name.clone(),
        permits: clone_strings(&d.permits),
        modifiers: clone_modifiers(&d.modifiers),
        fields: clone_field_decls(&d.fields),
        anonymous_fields: clone_struct_decls(&d.anonymous_fields),
        methods: clone_method_decls(&d.methods),
    }
}

fn clone_struct_decls(v: &Vec<StructDecl>) -> (r: Vec<StructDecl>)
    ensures
        same_struct_decls(*v, r),
    decreases v,
{
    let mut r: Vec<StructDecl> = Vec::new();
    for i in 0..v.len()
        invariant
            r.len() == i,
            forall|j: int| 0 <= j < i ==> same_struct_decl(v[j], #[trigger] r[j]),
    {
        let c = clone_struct_decl(&v[i]);
        r.push(c);
        assert(r[i as int] == c);
    }
    r
}

/// Every syntax-tree node can name what kind of node it is.
pub trait AstNode: core::fmt::Debug {
    fn node_type(&self) -> &'static str;
}

impl AstNode for Type {
    fn node_type(&self) -> (r: &'static str)
        ensures
            r@ == "Type"@,
    {
        "Type"
    }
}

impl AstNode for Expression {
    fn node_type(&self) -> (r: &'static str)
        ensures
            r@ == "Expression"@,
    {
        "Expression"
    }
}

impl AstNode for Statement {
    fn node_type(&self) -> (r: &'static str)
        ensures
            r@ == "Statement"@,
    {
        "Statement"
    }
}

impl AstNode for Program {
    fn node_type(&self) -> (r: &'static str)
        ensures
            r@ == "Program"@,
    {
        "Program"
    }
}

impl AstNode for StructDecl {
    fn node_type(&self) -> (r: &'static str)
        ensures
            r@ == "StructDecl"@,
    {
        "StructDecl"
    }
}

impl AstNode for FieldDecl {
    fn node_type(&self) -> (r: &'static str)
        ensures
            r@ == "FieldDecl"@,
    {
        "FieldDecl"
    }
}

impl AstNode for MethodDecl {
    fn node_type(&self) -> (r: &'static str)
        ensures
            r@ == "MethodDecl"@,
    {
        "MethodDecl"
    }
}

} // verus!
