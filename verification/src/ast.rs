//! Types of the language and the typed expression representation.

use vstd::prelude::*;
use vstd::string::StringExecFns;
use std::rc::Rc;

verus! {

/// A name as it is written in the program.
#[derive(PartialEq, Eq, Debug, Clone)]
pub struct Identifier {
    pub name: String,
}

/// A field of a record: its name and its type.
#[derive(PartialEq, Eq, Debug, Clone)]
pub struct FieldDeclaration {
    pub name: Identifier,
    pub t: Rc<Type>,
}

/// A record type: its fields in the order of their declaration.
#[derive(PartialEq, Eq, Debug, Clone)]
pub struct RecordDeclaration {
    pub fields: Vec<FieldDeclaration>,
}

/// An array type: the type of its elements and, where it is fixed, its
/// length.
#[derive(PartialEq, Eq, Debug, Clone)]
pub struct ArrayDeclaration {
    pub t: Rc<Type>,
    pub length: Option<usize>,
}

/// A type of the language. A record or an array is a reference at run time,
/// so a record may hold an array of records of its own kind, named by alias.
#[derive(PartialEq, Eq, Debug, Clone)]
pub enum Type {
    Int,
    Real,
    Bool,
    Alias(String),
    Record(RecordDeclaration),
    Array(ArrayDeclaration),
}

/// A type as a mathematical value: two types are structurally the same
/// exactly if their views are equal. An alias is its name and nothing more.
pub enum TypeView {
    Int,
    Real,
    Bool,
    Alias(Seq<char>),
    Record(Seq<FieldView>),
    Array(Box<TypeView>, Option<usize>),
}

/// A field as a mathematical value.
pub struct FieldView {
    pub name: Seq<char>,
    pub t: TypeView,
}

/// A type as a mathematical value.
pub open spec fn type_view(t: Type) -> TypeView
    decreases t,
{
    match t {
        Type::Int => TypeView::Int,
        Type::Real => TypeView::Real,
        Type::Bool => TypeView::Bool,
        Type::Alias(name) => TypeView::Alias(name@),
        Type::Record(record) => TypeView::Record(
            fields_view(record.fields@, record.fields@.len() as int),
        ),
        Type::Array(array) => TypeView::Array(Box::new(type_view(*array.t)), array.length),
    }
}

/// The views of the first `n` fields.
pub open spec fn fields_view(fields: Seq<FieldDeclaration>, n: int) -> Seq<FieldView>
    decreases fields, n,
{
    if n <= 0 || n > fields.len() {
        Seq::empty()
    } else {
        fields_view(fields, n - 1).push(
            FieldView { name: fields[n - 1].name.name@, t: type_view(*fields[n - 1].t) },
        )
    }
}

impl View for Type {
    type V = TypeView;

    open spec fn view(&self) -> TypeView {
        type_view(*self)
    }
}

/// The views of the first `n` fields are `n` views, each that of its
/// field.
pub proof fn lemma_fields_view(fields: Seq<FieldDeclaration>, n: int)
    requires
        0 <= n <= fields.len(),
    ensures
        fields_view(fields, n).len() == n,
        forall|i: int|
            0 <= i < n ==> (#[trigger] fields_view(fields, n)[i]) == (FieldView {
                name: fields[i].name.name@,
                t: type_view(*fields[i].t),
            }),
    decreases n,
{
    if n > 0 {
        lemma_fields_view(fields, n - 1);
    }
}

/// Whether a type is one of the three primitives.
pub fn is_primtive(t: &Type) -> (primitive: bool)
    ensures
        primitive == (t@ is Int || t@ is Real || t@ is Bool),
{
    match t {
        Type::Int | Type::Real | Type::Bool => true,
        _ => false,
    }
}

/// Whether two types are structurally the same.
pub fn same_type(a: &Type, b: &Type) -> (same: bool)
    ensures
        same == (a@ == b@),
    decreases *a,
{
    match (a, b) {
        (Type::Int, Type::Int) => true,
        (Type::Real, Type::Real) => true,
        (Type::Bool, Type::Bool) => true,
        (Type::Alias(x), Type::Alias(y)) => {
            *x == *y
        },
        (Type::Array(x), Type::Array(y)) => {
            let lengths = match (x.length, y.length) {
                (None, None) => true,
                (Some(m), Some(n)) => m == n,
                _ => false,
            };
            lengths && same_type(&x.t, &y.t)
        },
        (Type::Record(x), Type::Record(y)) => {
            proof {
                lemma_fields_view(x.fields@, x.fields@.len() as int);
                lemma_fields_view(y.fields@, y.fields@.len() as int);
            }
            if x.fields.len() != y.fields.len() {
                return false;
            }
            let mut i: usize = 0;
            while i < x.fields.len()
                invariant
                    i <= x.fields.len(),
                    x.fields.len() == y.fields.len(),
                    *a == Type::Record(*x),
                    *b == Type::Record(*y),
                    forall|k: int|
                        0 <= k < i ==> x.fields@[k].name.name@ == y.fields@[k].name.name@
                            && type_view(*x.fields@[k].t) == type_view(*y.fields@[k].t),
                    fields_view(x.fields@, x.fields@.len() as int).len() == x.fields@.len(),
                    fields_view(y.fields@, y.fields@.len() as int).len() == y.fields@.len(),
                    forall|k: int|
                        0 <= k < x.fields@.len() ==> (#[trigger] fields_view(
                            x.fields@,
                            x.fields@.len() as int,
                        )[k]) == (FieldView {
                            name: x.fields@[k].name.name@,
                            t: type_view(*x.fields@[k].t),
                        }),
                    forall|k: int|
                        0 <= k < y.fields@.len() ==> (#[trigger] fields_view(
                            y.fields@,
                            y.fields@.len() as int,
                        )[k]) == (FieldView {
                            name: y.fields@[k].name.name@,
                            t: type_view(*y.fields@[k].t),
                        }),
                decreases x.fields.len() - i,
            {
                let same_name = x.fields[i].name.name == y.fields[i].name.name;
                proof {
                    let record = a->Record_0;
                    assert(decreases_to!(*a => record));
                    assert(decreases_to!(record => record.fields));
                    assert(decreases_to!(record.fields => record.fields[i as int]));
                    assert(decreases_to!(record.fields[i as int] => record.fields[i as int].t));
                }
                if !same_name || !same_type(&x.fields[i].t, &y.fields[i].t) {
                    assert(fields_view(x.fields@, x.fields@.len() as int)[i as int]
                        != fields_view(y.fields@, y.fields@.len() as int)[i as int]);
                    return false;
                }
                i += 1;
            }
            assert(fields_view(x.fields@, x.fields@.len() as int) =~= fields_view(
                y.fields@,
                y.fields@.len() as int,
            ));
            true
        },
        _ => false,
    }
}

/// An integer literal. Two literals are equal if their values are,
/// however they are written.
#[derive(Eq, Debug, Clone)]
pub struct IntegerLiteral {
    pub repr: String,
    /// The literal's value, with its sign.
    pub value: i64,
}

impl PartialEq for IntegerLiteral {
    fn eq(&self, other: &Self) -> (equal: bool) {
        self.value == other.value
    }
}

impl vstd::std_specs::cmp::PartialEqSpecImpl for IntegerLiteral {
    open spec fn obeys_eq_spec() -> bool {
        true
    }

    open spec fn eq_spec(&self, other: &Self) -> bool {
        self.value == other.value
    }
}

/// A real literal. Two literals are equal if the bit patterns of their
/// values are, however they are written: a NaN is equal to itself, and
/// zero is not equal to minus zero.
#[derive(Eq, Debug, Clone)]
pub struct RealLiteral {
    pub repr: String,
    /// The bit pattern of the literal's value as a double.
    pub bits: u64,
}

impl PartialEq for RealLiteral {
    fn eq(&self, other: &Self) -> (equal: bool) {
        self.bits == other.bits
    }
}

impl vstd::std_specs::cmp::PartialEqSpecImpl for RealLiteral {
    open spec fn obeys_eq_spec() -> bool {
        true
    }

    open spec fn eq_spec(&self, other: &Self) -> bool {
        self.bits == other.bits
    }
}

/// The two boolean literals.
#[derive(PartialEq, Eq, Debug, Clone)]
pub enum BoolLiteral {
    True,
    False,
}

/// A binary operator of the language, before the types of its operands
/// choose the operator of the machine.
#[derive(PartialEq, Eq, Structural, Debug, Clone, Copy)]
pub enum BinaryOperator {
    And,
    Or,
    Xor,
    Le,
    Lg,
    Gt,
    Ge,
    Eq,
    Neq,
    Mul,
    Div,
    Mod,
    Add,
    Sub,
}

/// What can be assigned to and read from: a variable, a field of a
/// record, an element of an array.
#[derive(PartialEq, Eq, Debug, Clone)]
pub enum LvalueExpression {
    Identifier(Identifier),
    Member { lhs: Rc<LvalueExpression>, member_name: Identifier },
    Index { lhs: Rc<LvalueExpression>, index: Rc<Expression> },
}

/// A node of the expression graph. Nodes are shared, never changed.
#[derive(PartialEq, Eq, Debug, Clone)]
pub enum Expression {
    LvalueToRvalue(Rc<LvalueExpression>),
    IntegerLiteral(IntegerLiteral),
    RealLiteral(RealLiteral),
    BoolLiteral(BoolLiteral),
    Call { callee: Identifier, args: Vec<Rc<Expression>> },
    Binop { op: BinaryOperator, lhs: Rc<Expression>, rhs: Rc<Expression> },
    BoolToInt(Rc<Expression>),
    RealToInt(Rc<Expression>),
    /// Fails at run time on a value other than 0 and 1, so it is no
    /// comparison with zero.
    IntToBool(Rc<Expression>),
    IntToReal(Rc<Expression>),
}

/// An expression has no type, or not the type that is asked of it.
#[derive(PartialEq, Eq, Debug, Clone)]
pub struct TypeInferenceError {
    pub reason: String,
}

/// The language has no conversion between two types.
#[derive(PartialEq, Eq, Debug, Clone)]
pub struct TypeCoercionError {
    pub reason: String,
}

/// The conversions between types that the language allows.
pub enum Conversion {
    /// Source and destination are the same type: nothing is inserted.
    Identity,
    BoolToInt,
    RealToInt,
    IntToReal,
    IntToBool,
}

/// The one conversion from `source` to `dest`, if the language has it.
pub open spec fn conversion(source: TypeView, dest: TypeView) -> Option<Conversion> {
    if source == dest {
        Some(Conversion::Identity)
    } else {
        match (source, dest) {
            (TypeView::Bool, TypeView::Int) => Some(Conversion::BoolToInt),
            (TypeView::Real, TypeView::Int) => Some(Conversion::RealToInt),
            (TypeView::Int, TypeView::Real) => Some(Conversion::IntToReal),
            (TypeView::Int, TypeView::Bool) => Some(Conversion::IntToBool),
            _ => None,
        }
    }
}

/// How a type is called in a message.
pub open spec fn type_label(t: TypeView) -> Seq<char> {
    match t {
        TypeView::Int => "integer"@,
        TypeView::Real => "real"@,
        TypeView::Bool => "boolean"@,
        TypeView::Alias(name) => name,
        TypeView::Record(_) => "record"@,
        TypeView::Array(_, _) => "array"@,
    }
}

/// What is said of a pair of types without a conversion.
pub open spec fn coercion_failure(source: TypeView, dest: TypeView) -> Seq<char> {
    "no conversion from "@ + type_label(source) + " to "@ + type_label(dest)
}

/// How a type is called in a message.
pub fn describe_type(t: &Type) -> (label: String)
    ensures
        label@ == type_label(t@),
{
    match t {
        Type::Int => String::from_str("integer"),
        Type::Real => String::from_str("real"),
        Type::Bool => String::from_str("boolean"),
        Type::Alias(name) => name.clone(),
        Type::Record(_) => String::from_str("record"),
        Type::Array(_) => String::from_str("array"),
    }
}

/// Wraps `expr` in the conversion node that turns `source` into `dest`, or
/// hands it back as it is where the two are the same type. Every pair of
/// types without a conversion is an error.
pub fn coerce(expr: Rc<Expression>, source: &Type, dest: &Type) -> (result: Result<
    Rc<Expression>,
    TypeCoercionError,
>)
    ensures
        match conversion(source@, dest@) {
            Some(Conversion::Identity) => result == Ok::<Rc<Expression>, TypeCoercionError>(expr),
            Some(Conversion::BoolToInt) => result is Ok && *result->Ok_0
                == Expression::BoolToInt(expr),
            Some(Conversion::RealToInt) => result is Ok && *result->Ok_0
                == Expression::RealToInt(expr),
            Some(Conversion::IntToReal) => result is Ok && *result->Ok_0
                == Expression::IntToReal(expr),
            Some(Conversion::IntToBool) => result is Ok && *result->Ok_0
                == Expression::IntToBool(expr),
            None => result is Err && result->Err_0.reason@ == coercion_failure(source@, dest@),
        },
{
    if same_type(source, dest) {
        return Ok(expr);
    }
    match (source, dest) {
        (Type::Bool, Type::Int) => Ok(Rc::new(Expression::BoolToInt(expr))),
        (Type::Real, Type::Int) => Ok(Rc::new(Expression::RealToInt(expr))),
        (Type::Int, Type::Real) => Ok(Rc::new(Expression::IntToReal(expr))),
        (Type::Int, Type::Bool) => Ok(Rc::new(Expression::IntToBool(expr))),
        _ => {
            let mut reason = String::from_str("no conversion from ");
            let from = describe_type(source);
            reason.append(from.as_str());
            reason.append(" to ");
            let to = describe_type(dest);
            reason.append(to.as_str());
            Err(TypeCoercionError { reason })
        },
    }
}

/// The conversions are the four of the table and the one of a type to
/// itself: a pair of types has a conversion if and only if it is one of
/// these five.
pub proof fn lemma_coercion_table(source: TypeView, dest: TypeView)
    ensures
        conversion(source, dest) is Some <==> (source == dest || (source is Bool && dest is Int)
            || (source is Real && dest is Int) || (source is Int && dest is Real) || (source is Int
            && dest is Bool)),
        conversion(TypeView::Real, TypeView::Bool) is None,
        conversion(TypeView::Bool, TypeView::Real) is None,
{
}

/// The declaration of a variable inside a block. The symbol table tells
/// the variable's type and its slot. A record and an array of a fixed
/// length are allocated where they are declared.
#[derive(PartialEq, Eq, Debug, Clone)]
pub struct SimpleDeclaration {
    pub name: Identifier,
}

/// An element of a block: a statement or a declaration.
#[derive(PartialEq, Eq, Debug, Clone)]
pub enum BlockElement {
    Stmt(Rc<Statement>),
    Decl(Rc<SimpleDeclaration>),
}

/// Statements and declarations in their order.
#[derive(PartialEq, Eq, Debug, Clone)]
pub struct Block {
    pub elements: Vec<BlockElement>,
}

/// Whether a counting loop counts up or down.
#[derive(PartialEq, Eq, Structural, Debug, Clone, Copy)]
pub enum LoopOrder {
    Direct,
    Reversed,
}

/// A statement of the language.
#[derive(PartialEq, Eq, Debug, Clone)]
pub enum Statement {
    Assignment { lhs: Identifier, rhs: Rc<Expression> },
    While { condition: Rc<Expression>, body: Block },
    If { condition: Rc<Expression>, on_true: Block, on_false: Option<Block> },
    /// Counts the variable from `from` up to `to`, or down from `to` to
    /// `from` where the order is reversed, both bounds included.
    For {
        identifier: Identifier,
        from: Rc<Expression>,
        to: Option<Rc<Expression>>,
        order: LoopOrder,
        body: Block,
    },
    Print { value: Rc<Expression> },
    Return { value: Rc<Expression> },
}

} // verus!
