//! Logical expressions: trees evaluated against the rows a plan node
//! produces. At this layer an expression computes nothing; it can always
//! say what field (name and type) it produces against an input.

use crate::engine::datatypes::{
    DataType, Field, FieldView, Scalar, ScalarValue, Schema, has_name, is_float, is_float_type, name_index,
    scalar_text, scalar_type,
};
use crate::engine::logical_plan::{LogicalPlan, logical_schema};
use crate::engine::physical_expr::{binary_type, binary_type_of};
use crate::engine::text::{push_char, push_text};
use vstd::prelude::*;

verus! {

/// A binary operator.
#[derive(Clone, Copy, Debug, PartialEq, Eq, Structural)]
pub enum Operator {
    Eq,
    Neq,
    Gt,
    GtEq,
    Lt,
    LtEq,
    And,
    Or,
    Add,
    Subtract,
    Multiply,
    Divide,
    Modulus,
}

/// The comparison operators.
pub open spec fn is_comparison(op: Operator) -> bool {
    match op {
        Operator::Eq | Operator::Neq | Operator::Gt | Operator::GtEq | Operator::Lt | Operator::LtEq => true,
        _ => false,
    }
}

/// The boolean connectives.
pub open spec fn is_logic(op: Operator) -> bool {
    op == Operator::And || op == Operator::Or
}

/// The arithmetic operators.
pub open spec fn is_math(op: Operator) -> bool {
    !is_comparison(op) && !is_logic(op)
}

/// How an operator is written.
pub open spec fn operator_text(op: Operator) -> Seq<char> {
    match op {
        Operator::Eq => "="@,
        Operator::Neq => "!="@,
        Operator::Gt => ">"@,
        Operator::GtEq => ">="@,
        Operator::Lt => "<"@,
        Operator::LtEq => "<="@,
        Operator::And => "AND"@,
        Operator::Or => "OR"@,
        Operator::Add => "+"@,
        Operator::Subtract => "-"@,
        Operator::Multiply => "*"@,
        Operator::Divide => "/"@,
        Operator::Modulus => "%"@,
    }
}

impl Operator {
    pub fn is_comparison(&self) -> (b: bool)
        ensures
            b == is_comparison(*self),
    {
        match self {
            Operator::Eq | Operator::Neq | Operator::Gt | Operator::GtEq | Operator::Lt | Operator::LtEq => true,
            _ => false,
        }
    }

    pub fn is_logic(&self) -> (b: bool)
        ensures
            b == is_logic(*self),
    {
        match self {
            Operator::And | Operator::Or => true,
            _ => false,
        }
    }

    /// How the operator is written.
    pub fn to_text(&self) -> (text: String)
        ensures
            text@ == operator_text(*self),
    {
        match self {
            Operator::Eq => String::from_str("="),
            Operator::Neq => String::from_str("!="),
            Operator::Gt => String::from_str(">"),
            Operator::GtEq => String::from_str(">="),
            Operator::Lt => String::from_str("<"),
            Operator::LtEq => String::from_str("<="),
            Operator::And => String::from_str("AND"),
            Operator::Or => String::from_str("OR"),
            Operator::Add => String::from_str("+"),
            Operator::Subtract => String::from_str("-"),
            Operator::Multiply => String::from_str("*"),
            Operator::Divide => String::from_str("/"),
            Operator::Modulus => String::from_str("%"),
        }
    }
}

/// An aggregate function.
#[derive(Clone, Copy, Debug, PartialEq, Eq, Structural)]
pub enum AggregateFunc {
    Sum,
    Min,
    Max,
    Avg,
    Count,
}

/// The name an aggregate function is printed and named by.
pub open spec fn aggregate_name(f: AggregateFunc) -> Seq<char> {
    match f {
        AggregateFunc::Sum => "SUM"@,
        AggregateFunc::Min => "MIN"@,
        AggregateFunc::Max => "MAX"@,
        AggregateFunc::Avg => "AVG"@,
        AggregateFunc::Count => "COUNT"@,
    }
}

impl AggregateFunc {
    pub fn name(&self) -> (name: String)
        ensures
            name@ == aggregate_name(*self),
    {
        match self {
            AggregateFunc::Sum => String::from_str("SUM"),
            AggregateFunc::Min => String::from_str("MIN"),
            AggregateFunc::Max => String::from_str("MAX"),
            AggregateFunc::Avg => String::from_str("AVG"),
            AggregateFunc::Count => String::from_str("COUNT"),
        }
    }
}


/// The name a binary expression gives the column it makes.
pub open spec fn binary_name(op: Operator) -> Seq<char> {
    match op {
        Operator::Eq => "eq"@,
        Operator::Neq => "neq"@,
        Operator::Gt => "gt"@,
        Operator::GtEq => "gteq"@,
        Operator::Lt => "lt"@,
        Operator::LtEq => "lteq"@,
        Operator::And => "and"@,
        Operator::Or => "or"@,
        Operator::Add => "add"@,
        Operator::Subtract => "subtract"@,
        Operator::Multiply => "mult"@,
        Operator::Divide => "div"@,
        Operator::Modulus => "mod"@,
    }
}

impl Operator {
    /// The name a binary expression with this operator gives its column.
    pub fn name(&self) -> (name: String)
        ensures
            name@ == binary_name(*self),
    {
        match self {
            Operator::Eq => String::from_str("eq"),
            Operator::Neq => String::from_str("neq"),
            Operator::Gt => String::from_str("gt"),
            Operator::GtEq => String::from_str("gteq"),
            Operator::Lt => String::from_str("lt"),
            Operator::LtEq => String::from_str("lteq"),
            Operator::And => String::from_str("and"),
            Operator::Or => String::from_str("or"),
            Operator::Add => String::from_str("add"),
            Operator::Subtract => String::from_str("subtract"),
            Operator::Multiply => String::from_str("mult"),
            Operator::Divide => String::from_str("div"),
            Operator::Modulus => String::from_str("mod"),
        }
    }
}

/// A logical expression.
#[derive(Debug, PartialEq)]
pub enum LogicalExpr {
    /// A column of the input, referenced by name.
    Column(String),
    /// A constant, and how it is printed.
    Literal { value: ScalarValue, text: String },
    /// Two expressions combined by an operator.
    BinaryExpr { left: Box<LogicalExpr>, op: Operator, right: Box<LogicalExpr> },
}

/// An aggregate function over an expression.
#[derive(Debug, PartialEq)]
pub struct AggregateExpr {
    pub func: AggregateFunc,
    pub expr: LogicalExpr,
}

/// Reference a column by name.
pub fn col(name: &str) -> (e: LogicalExpr)
    ensures
        e matches LogicalExpr::Column(n) && n@ == name@,
{
    LogicalExpr::Column(String::from_str(name))
}

/// A constant printed as its value; it must not be a float, whose text
/// comes from `lit_text`.
pub fn lit(value: ScalarValue) -> (e: LogicalExpr)
    requires
        !is_float_type(scalar_type(value.deep_view())),
    ensures
        e matches LogicalExpr::Literal { value: v, text } && v == value && text@ == scalar_text(value.deep_view()),
{
    let text = value.to_text();
    LogicalExpr::Literal { value, text }
}

/// A constant printed as `text`.
pub fn lit_text(value: ScalarValue, text: String) -> (e: LogicalExpr)
    ensures
        e == (LogicalExpr::Literal { value, text }),
{
    LogicalExpr::Literal { value, text }
}

/// `left op right`.
pub open spec fn binary(left: LogicalExpr, op: Operator, right: LogicalExpr) -> LogicalExpr {
    LogicalExpr::BinaryExpr { left: Box::new(left), op, right: Box::new(right) }
}

impl LogicalExpr {
    pub fn eq(self, other: LogicalExpr) -> (e: LogicalExpr)
        ensures
            e == binary(self, Operator::Eq, other),
    {
        LogicalExpr::BinaryExpr { left: Box::new(self), op: Operator::Eq, right: Box::new(other) }
    }

    pub fn neq(self, other: LogicalExpr) -> (e: LogicalExpr)
        ensures
            e == binary(self, Operator::Neq, other),
    {
        LogicalExpr::BinaryExpr { left: Box::new(self), op: Operator::Neq, right: Box::new(other) }
    }

    pub fn gt(self, other: LogicalExpr) -> (e: LogicalExpr)
        ensures
            e == binary(self, Operator::Gt, other),
    {
        LogicalExpr::BinaryExpr { left: Box::new(self), op: Operator::Gt, right: Box::new(other) }
    }

    pub fn gt_eq(self, other: LogicalExpr) -> (e: LogicalExpr)
        ensures
            e == binary(self, Operator::GtEq, other),
    {
        LogicalExpr::BinaryExpr { left: Box::new(self), op: Operator::GtEq, right: Box::new(other) }
    }

    pub fn lt(self, other: LogicalExpr) -> (e: LogicalExpr)
        ensures
            e == binary(self, Operator::Lt, other),
    {
        LogicalExpr::BinaryExpr { left: Box::new(self), op: Operator::Lt, right: Box::new(other) }
    }

    pub fn lt_eq(self, other: LogicalExpr) -> (e: LogicalExpr)
        ensures
            e == binary(self, Operator::LtEq, other),
    {
        LogicalExpr::BinaryExpr { left: Box::new(self), op: Operator::LtEq, right: Box::new(other) }
    }

    pub fn and(self, other: LogicalExpr) -> (e: LogicalExpr)
        ensures
            e == binary(self, Operator::And, other),
    {
        LogicalExpr::BinaryExpr { left: Box::new(self), op: Operator::And, right: Box::new(other) }
    }

    pub fn or(self, other: LogicalExpr) -> (e: LogicalExpr)
        ensures
            e == binary(self, Operator::Or, other),
    {
        LogicalExpr::BinaryExpr { left: Box::new(self), op: Operator::Or, right: Box::new(other) }
    }

    pub fn add(self, other: LogicalExpr) -> (e: LogicalExpr)
        ensures
            e == binary(self, Operator::Add, other),
    {
        LogicalExpr::BinaryExpr { left: Box::new(self), op: Operator::Add, right: Box::new(other) }
    }

    pub fn subtract(self, other: LogicalExpr) -> (e: LogicalExpr)
        ensures
            e == binary(self, Operator::Subtract, other),
    {
        LogicalExpr::BinaryExpr { left: Box::new(self), op: Operator::Subtract, right: Box::new(other) }
    }

    pub fn multiply(self, other: LogicalExpr) -> (e: LogicalExpr)
        ensures
            e == binary(self, Operator::Multiply, other),
    {
        LogicalExpr::BinaryExpr { left: Box::new(self), op: Operator::Multiply, right: Box::new(other) }
    }

    pub fn divide(self, other: LogicalExpr) -> (e: LogicalExpr)
        ensures
            e == binary(self, Operator::Divide, other),
    {
        LogicalExpr::BinaryExpr { left: Box::new(self), op: Operator::Divide, right: Box::new(other) }
    }

    pub fn modulus(self, other: LogicalExpr) -> (e: LogicalExpr)
        ensures
            e == binary(self, Operator::Modulus, other),
    {
        LogicalExpr::BinaryExpr { left: Box::new(self), op: Operator::Modulus, right: Box::new(other) }
    }
}

/// `func(expr)`.
pub open spec fn aggregate(func: AggregateFunc, expr: LogicalExpr) -> AggregateExpr {
    AggregateExpr { func, expr }
}

pub fn sum(expr: LogicalExpr) -> (a: AggregateExpr)
    ensures
        a == aggregate(AggregateFunc::Sum, expr),
{
    AggregateExpr { func: AggregateFunc::Sum, expr }
}

pub fn min(expr: LogicalExpr) -> (a: AggregateExpr)
    ensures
        a == aggregate(AggregateFunc::Min, expr),
{
    AggregateExpr { func: AggregateFunc::Min, expr }
}

pub fn max(expr: LogicalExpr) -> (a: AggregateExpr)
    ensures
        a == aggregate(AggregateFunc::Max, expr),
{
    AggregateExpr { func: AggregateFunc::Max, expr }
}

pub fn avg(expr: LogicalExpr) -> (a: AggregateExpr)
    ensures
        a == aggregate(AggregateFunc::Avg, expr),
{
    AggregateExpr { func: AggregateFunc::Avg, expr }
}

pub fn count(expr: LogicalExpr) -> (a: AggregateExpr)
    ensures
        a == aggregate(AggregateFunc::Count, expr),
{
    AggregateExpr { func: AggregateFunc::Count, expr }
}

/// Every column the expression names is in `schema`.
pub open spec fn resolves(e: LogicalExpr, schema: Seq<FieldView>) -> bool
    decreases e,
{
    match e {
        LogicalExpr::Column(name) => has_name(schema, name@),
        LogicalExpr::Literal { .. } => true,
        LogicalExpr::BinaryExpr { left, op, right } => resolves(*left, schema) && resolves(*right, schema),
    }
}

/// The name a constant gives its column: a string's own characters, else
/// its text.
pub open spec fn literal_name(value: Scalar, text: Seq<char>) -> Seq<char> {
    match value {
        Scalar::Utf8(s) => s,
        _ => text,
    }
}

/// The field an expression produces against rows of `schema`: a column is
/// the input's (first) field of that name; a constant is named by its value
/// and has its type; a binary expression is named by its operator, Boolean
/// for comparisons and connectives, else Float64 if either side is a float
/// and Int64 if not. Computed fields are nullable.
pub open spec fn expr_field(e: LogicalExpr, schema: Seq<FieldView>) -> FieldView
    decreases e,
{
    match e {
        LogicalExpr::Column(name) => schema[name_index(schema, name@)],
        LogicalExpr::Literal { value, text } => FieldView {
            name: literal_name(value.deep_view(), text@),
            data_type: scalar_type(value.deep_view()),
            nullable: true,
        },
        LogicalExpr::BinaryExpr { left, op, right } => FieldView {
            name: binary_name(op),
            data_type: binary_type(
                op,
                is_float_type(expr_field(*left, schema).data_type) || is_float_type(expr_field(*right, schema).data_type),
            ),
            nullable: true,
        },
    }
}

/// The type an aggregate yields over input of type `t`: MIN and MAX keep
/// it, SUM is Float64 over floats and Int64 otherwise, AVG is Float64,
/// COUNT is Int64.
pub open spec fn aggregate_type(func: AggregateFunc, t: DataType) -> DataType {
    match func {
        AggregateFunc::Min | AggregateFunc::Max => t,
        AggregateFunc::Sum => if is_float_type(t) {
            DataType::Float64
        } else {
            DataType::Int64
        },
        AggregateFunc::Avg => DataType::Float64,
        AggregateFunc::Count => DataType::Int64,
    }
}

/// The field an aggregate produces: named by its function, nullable.
pub open spec fn aggregate_field(a: AggregateExpr, schema: Seq<FieldView>) -> FieldView {
    FieldView {
        name: aggregate_name(a.func),
        data_type: aggregate_type(a.func, expr_field(a.expr, schema).data_type),
        nullable: true,
    }
}

/// How an expression is printed: a column as `#` and its name, a constant
/// by its text, a binary expression as its operands around the operator.
pub open spec fn logical_text(e: LogicalExpr) -> Seq<char>
    decreases e,
{
    match e {
        LogicalExpr::Column(name) => seq!['#'] + name@,
        LogicalExpr::Literal { value, text } => text@,
        LogicalExpr::BinaryExpr { left, op, right } => logical_text(*left) + seq![' '] + operator_text(op) + seq![' ']
            + logical_text(*right),
    }
}

/// How an aggregate is printed: `FUNC(expr)`.
pub open spec fn aggregate_expr_text(a: AggregateExpr) -> Seq<char> {
    aggregate_name(a.func) + seq!['('] + logical_text(a.expr) + seq![')']
}

impl LogicalExpr {
    /// The field this expression produces against rows of `schema`; every
    /// column it names must be there.
    pub fn field_in(&self, schema: &Schema) -> (f: Field)
        requires
            resolves(*self, schema@),
        ensures
            f@ == expr_field(*self, schema@),
        decreases self,
    {
        match self {
            LogicalExpr::Column(name) => match schema.field_with_name(name.as_str()) {
                Ok(f) => f.copy(),
                Err(_) => {
                    assert(false);
                    Field::new(name.as_str(), DataType::Boolean, true)
                },
            },
            LogicalExpr::Literal { value, text } => {
                let name = match value {
                    ScalarValue::Utf8(s) => s.clone(),
                    _ => text.clone(),
                };
                Field::new(name.as_str(), value.data_type(), true)
            },
            LogicalExpr::BinaryExpr { left, op, right } => {
                let l = left.field_in(schema);
                let r = right.field_in(schema);
                let float = is_float(l.data_type()) || is_float(r.data_type());
                let name = op.name();
                Field::new(name.as_str(), binary_type_of(*op, float), true)
            },
        }
    }

    /// Whether every column this expression names is in `schema`.
    pub fn resolves_in(&self, schema: &Schema) -> (ok: bool)
        ensures
            ok == resolves(*self, schema@),
        decreases self,
    {
        match self {
            LogicalExpr::Column(name) => schema.index_of(name.as_str()).is_ok(),
            LogicalExpr::Literal { .. } => true,
            LogicalExpr::BinaryExpr { left, op, right } => left.resolves_in(schema) && right.resolves_in(schema),
        }
    }

    /// The field this expression produces against `input`'s rows: columns
    /// resolve against the input's schema, and every column named must be
    /// there; constants carry their own type and are named by their value.
    pub fn to_field(&self, input: &LogicalPlan) -> (f: Field)
        requires
            resolves(*self, logical_schema(*input)),
        ensures
            f@ == expr_field(*self, logical_schema(*input)),
    {
        let schema = input.schema();
        self.field_in(&schema)
    }

    /// How this expression is printed.
    pub fn to_text(&self) -> (t: String)
        ensures
            t@ == logical_text(*self),
        decreases self,
    {
        match self {
            LogicalExpr::Column(name) => {
                let mut t = String::new();
                push_char(&mut t, '#');
                push_text(&mut t, name);
                t
            },
            LogicalExpr::Literal { value, text } => text.clone(),
            LogicalExpr::BinaryExpr { left, op, right } => {
                let mut t = left.to_text();
                push_char(&mut t, ' ');
                let o = op.to_text();
                push_text(&mut t, &o);
                push_char(&mut t, ' ');
                let r = right.to_text();
                push_text(&mut t, &r);
                assert(t@ =~= logical_text(*self));
                t
            },
        }
    }

    /// A copy of this expression.
    pub fn copy(&self) -> (c: LogicalExpr)
        ensures
            c == *self,
        decreases self,
    {
        match self {
            LogicalExpr::Column(name) => LogicalExpr::Column(name.clone()),
            LogicalExpr::Literal { value, text } => LogicalExpr::Literal { value: value.copy(), text: text.clone() },
            LogicalExpr::BinaryExpr { left, op, right } => LogicalExpr::BinaryExpr {
                left: Box::new(left.copy()),
                op: *op,
                right: Box::new(right.copy()),
            },
        }
    }
}

impl AggregateExpr {
    /// The field this aggregate produces against rows of `schema`.
    pub fn field_in(&self, schema: &Schema) -> (f: Field)
        requires
            resolves(self.expr, schema@),
        ensures
            f@ == aggregate_field(*self, schema@),
    {
        let input = self.expr.field_in(schema);
        let t = match self.func {
            AggregateFunc::Min | AggregateFunc::Max => input.data_type(),
            AggregateFunc::Sum => if is_float(input.data_type()) {
                DataType::Float64
            } else {
                DataType::Int64
            },
            AggregateFunc::Avg => DataType::Float64,
            AggregateFunc::Count => DataType::Int64,
        };
        let name = self.func.name();
        Field::new(name.as_str(), t, true)
    }

    /// The field this aggregate produces against `input`'s rows.
    pub fn to_field(&self, input: &LogicalPlan) -> (f: Field)
        requires
            resolves(self.expr, logical_schema(*input)),
        ensures
            f@ == aggregate_field(*self, logical_schema(*input)),
    {
        let schema = input.schema();
        self.field_in(&schema)
    }

    /// How this aggregate is printed.
    pub fn to_text(&self) -> (t: String)
        ensures
            t@ == aggregate_expr_text(*self),
    {
        let mut t = self.func.name();
        push_char(&mut t, '(');
        let e = self.expr.to_text();
        push_text(&mut t, &e);
        push_char(&mut t, ')');
        assert(t@ =~= aggregate_expr_text(*self));
        t
    }

    /// A copy of this aggregate.
    pub fn copy(&self) -> (c: AggregateExpr)
        ensures
            c == *self,
    {
        AggregateExpr { func: self.func, expr: self.expr.copy() }
    }
}

} // verus!
