//! Physical expressions: runnable. `evaluate` computes one output column
//! across every row of an input batch. Values are coerced as follows:
//! - comparisons work across any numeric mix (normalized to `i64`, or to
//!   binary64 when either side is a float column), plus string-vs-string
//!   and bool-vs-bool;
//! - math is binary64 if either operand column is floating, else `i64`;
//! - a NULL on either side makes that row's result NULL.

use crate::engine::datatypes::{
    ArrowFieldVector, BatchView, ColumnVector, ColumnView, DataType, LiteralValueVector, RecordBatch,
    Scalar, ScalarValue, batch_rows, columns_fit, copy_value, is_float, is_float_type, is_integer_type,
    is_numeric_type, opt_view, scalar_text, scalar_type, values_typed, values_view,
};
use crate::engine::float::{
    add_bits, div_bits, f64_difference, f64_from_f32, f64_from_i64, f64_product, f64_quotient,
    f64_remainder, f64_sum, f64_from_u64, from_f32_bits, from_i64_bits, from_u64_bits, mul_bits, rem_bits, sub_bits,
    total_key, total_order_key,
};
use crate::engine::logical_expr::{
    AggregateFunc, Operator, aggregate_name, is_comparison, is_logic, is_math, operator_text,
};
use crate::engine::text::{decimal, push_char, push_text, u64_text};
use vstd::prelude::*;
use vstd::utf8::encode_utf8;
use vstd::utf8::decode_utf8;
use vstd::utf8::encode_utf8_decode_utf8;
use vstd::arithmetic::div_mod::lemma_fundamental_div_mod;

verus! {

// ---------------------------------------------------------------------
// Values
// ---------------------------------------------------------------------

/// A value normalized for integer math (`as i64` of the stored integer).
pub open spec fn int_of(v: Scalar) -> i64 {
    match v {
        Scalar::Int8(x) => x as i64,
        Scalar::Int16(x) => x as i64,
        Scalar::Int32(x) => x as i64,
        Scalar::Int64(x) => x,
        Scalar::UInt8(x) => x as i64,
        Scalar::UInt16(x) => x as i64,
        Scalar::UInt32(x) => x as i64,
        Scalar::UInt64(x) => x as i64,
        _ => 0,
    }
}

/// The exact integer an integer value stands for.
pub open spec fn int_value(v: Scalar) -> int {
    match v {
        Scalar::Int8(x) => x as int,
        Scalar::Int16(x) => x as int,
        Scalar::Int32(x) => x as int,
        Scalar::Int64(x) => x as int,
        Scalar::UInt8(x) => x as int,
        Scalar::UInt16(x) => x as int,
        Scalar::UInt32(x) => x as int,
        Scalar::UInt64(x) => x as int,
        _ => 0,
    }
}

/// A value normalized for binary64 math: its bits. Integers become the
/// nearest binary64 value to the integer they stand for.
pub open spec fn float_of(v: Scalar) -> u64 {
    match v {
        Scalar::Float32(x) => f64_from_f32(x),
        Scalar::Float64(x) => x,
        Scalar::UInt64(x) => f64_from_u64(x),
        _ => f64_from_i64(int_of(v)),
    }
}

pub open spec fn bool_of(v: Scalar) -> bool {
    match v {
        Scalar::Boolean(b) => b,
        _ => false,
    }
}

pub open spec fn is_integer_value(v: Scalar) -> bool {
    is_integer_type(scalar_type(v))
}

pub open spec fn is_numeric_value(v: Scalar) -> bool {
    is_numeric_type(scalar_type(v))
}

/// Normalize an integer value for integer math.
pub fn as_i64(v: &ScalarValue) -> (x: i64)
    requires
        is_integer_value(v.deep_view()),
    ensures
        x == int_of(v.deep_view()),
{
    match v {
        ScalarValue::Int8(x) => *x as i64,
        ScalarValue::Int16(x) => *x as i64,
        ScalarValue::Int32(x) => *x as i64,
        ScalarValue::Int64(x) => *x,
        ScalarValue::UInt8(x) => *x as i64,
        ScalarValue::UInt16(x) => *x as i64,
        ScalarValue::UInt32(x) => *x as i64,
        ScalarValue::UInt64(x) => *x as i64,
        _ => 0,
    }
}

/// Normalize a numeric value for binary64 math.
pub fn as_f64(v: &ScalarValue) -> (x: u64)
    requires
        is_numeric_value(v.deep_view()),
    ensures
        x == float_of(v.deep_view()),
{
    match v {
        ScalarValue::Float32(x) => from_f32_bits(*x),
        ScalarValue::Float64(x) => *x,
        ScalarValue::UInt64(x) => from_u64_bits(*x),
        _ => from_i64_bits(as_i64(v)),
    }
}

/// The truth value of a boolean value.
pub fn as_bool(v: &ScalarValue) -> (b: bool)
    requires
        v.deep_view() is Boolean,
    ensures
        b == bool_of(v.deep_view()),
{
    match v {
        ScalarValue::Boolean(b) => *b,
        _ => false,
    }
}

// ---------------------------------------------------------------------
// Comparison
// ---------------------------------------------------------------------

/// -1, 0 or 1 as `a` is below, equal to or above `b`.
pub open spec fn order_of(a: int, b: int) -> int {
    if a < b {
        -1
    } else if a == b {
        0
    } else {
        1
    }
}

/// Lexicographic order of byte strings.
pub open spec fn lex_order(a: Seq<u8>, b: Seq<u8>) -> int
    decreases a.len(),
{
    if a.len() == 0 {
        if b.len() == 0 {
            0
        } else {
            -1
        }
    } else if b.len() == 0 {
        1
    } else if a[0] < b[0] {
        -1
    } else if a[0] > b[0] {
        1
    } else {
        lex_order(a.drop_first(), b.drop_first())
    }
}

/// The order of two non-null values after coercion to a common domain:
/// strings by their UTF-8 bytes, booleans with `false` first, numbers as
/// binary64 under the IEEE total order if either is a float, else as the
/// exact integers they stand for.
pub open spec fn compare_values(a: Scalar, b: Scalar) -> int {
    match (a, b) {
        (Scalar::Utf8(x), Scalar::Utf8(y)) => lex_order(encode_utf8(x), encode_utf8(y)),
        (Scalar::Boolean(x), Scalar::Boolean(y)) => order_of(
            if x { 1 } else { 0 },
            if y { 1 } else { 0 },
        ),
        _ => if is_float_type(scalar_type(a)) || is_float_type(scalar_type(b)) {
            order_of(total_key(float_of(a)), total_key(float_of(b)))
        } else {
            order_of(int_value(a), int_value(b))
        },
    }
}

/// Two values can be compared: both strings, both booleans, or both numbers.
pub open spec fn comparable(a: Scalar, b: Scalar) -> bool {
    ||| (a is Utf8 && b is Utf8)
    ||| (a is Boolean && b is Boolean)
    ||| (is_numeric_value(a) && is_numeric_value(b))
}

/// Whether the order `ord` satisfies the comparison `op`.
pub open spec fn comparison_holds(ord: int, op: Operator) -> bool {
    match op {
        Operator::Eq => ord == 0,
        Operator::Neq => ord != 0,
        Operator::Gt => ord > 0,
        Operator::GtEq => ord >= 0,
        Operator::Lt => ord < 0,
        Operator::LtEq => ord <= 0,
        _ => false,
    }
}

fn order_i64(a: i64, b: i64) -> (ord: i8)
    ensures
        ord as int == order_of(a as int, b as int),
{
    if a < b {
        -1
    } else if a == b {
        0
    } else {
        1
    }
}

fn order_i128(a: i128, b: i128) -> (ord: i8)
    ensures
        ord as int == order_of(a as int, b as int),
{
    if a < b {
        -1
    } else if a == b {
        0
    } else {
        1
    }
}

/// The exact integer an integer value stands for.
fn as_i128(v: &ScalarValue) -> (x: i128)
    requires
        is_integer_value(v.deep_view()),
    ensures
        x as int == int_value(v.deep_view()),
{
    match v {
        ScalarValue::Int8(x) => *x as i128,
        ScalarValue::Int16(x) => *x as i128,
        ScalarValue::Int32(x) => *x as i128,
        ScalarValue::Int64(x) => *x as i128,
        ScalarValue::UInt8(x) => *x as i128,
        ScalarValue::UInt16(x) => *x as i128,
        ScalarValue::UInt32(x) => *x as i128,
        ScalarValue::UInt64(x) => *x as i128,
        _ => 0,
    }
}

/// Lexicographic comparison of two byte strings.
fn compare_bytes(a: &[u8], b: &[u8]) -> (ord: i8)
    ensures
        ord as int == lex_order(a@, b@),
{
    let mut i: usize = 0;
    assert(a@.skip(0) =~= a@);
    assert(b@.skip(0) =~= b@);
    while i < a.len() && i < b.len()
        invariant
            i <= a@.len(),
            i <= b@.len(),
            lex_order(a@, b@) == lex_order(a@.skip(i as int), b@.skip(i as int)),
        decreases a@.len() - i,
    {
        if a[i] < b[i] {
            return -1;
        } else if a[i] > b[i] {
            return 1;
        }
        assert(a@.skip(i as int).drop_first() =~= a@.skip(i + 1));
        assert(b@.skip(i as int).drop_first() =~= b@.skip(i + 1));
        i = i + 1;
    }
    if i < b.len() {
        -1
    } else if i < a.len() {
        1
    } else {
        0
    }
}

/// Compare two non-null values after coercion to a common domain.
pub fn compare(a: &ScalarValue, b: &ScalarValue, op: Operator) -> (holds: bool)
    requires
        comparable(a.deep_view(), b.deep_view()),
    ensures
        holds == comparison_holds(compare_values(a.deep_view(), b.deep_view()), op),
{
    let ord: i8 = match (a, b) {
        (ScalarValue::Utf8(x), ScalarValue::Utf8(y)) => compare_bytes(
            x.as_str().as_bytes(),
            y.as_str().as_bytes(),
        ),
        (ScalarValue::Boolean(x), ScalarValue::Boolean(y)) => order_i64(
            if *x { 1 } else { 0 },
            if *y { 1 } else { 0 },
        ),
        _ => {
            if is_float(a.data_type()) || is_float(b.data_type()) {
                order_i64(total_order_key(as_f64(a)), total_order_key(as_f64(b)))
            } else {
                order_i128(as_i128(a), as_i128(b))
            }
        },
    };
    match op {
        Operator::Eq => ord == 0,
        Operator::Neq => ord != 0,
        Operator::Gt => ord > 0,
        Operator::GtEq => ord >= 0,
        Operator::Lt => ord < 0,
        Operator::LtEq => ord <= 0,
        _ => false,
    }
}

// ---------------------------------------------------------------------
// Math
// ---------------------------------------------------------------------

pub open spec fn magnitude(a: int) -> int {
    if a >= 0 {
        a
    } else {
        -a
    }
}

/// Integer division truncating toward zero, as Rust's `/` on integers.
pub open spec fn trunc_div(a: int, b: int) -> int {
    if (a >= 0) == (b >= 0) {
        magnitude(a) / magnitude(b)
    } else {
        -(magnitude(a) / magnitude(b))
    }
}

/// The remainder of truncating division, as Rust's `%` on integers.
pub open spec fn trunc_rem(a: int, b: int) -> int {
    if a >= 0 {
        magnitude(a) % magnitude(b)
    } else {
        -(magnitude(a) % magnitude(b))
    }
}

/// Exact result of integer math.
pub open spec fn int_math_value(a: i64, b: i64, op: Operator) -> int {
    match op {
        Operator::Add => a + b,
        Operator::Subtract => a - b,
        Operator::Multiply => a * b,
        Operator::Divide => trunc_div(a as int, b as int),
        Operator::Modulus => trunc_rem(a as int, b as int),
        _ => 0,
    }
}

/// Integer math does not panic: the result fits `i64`, no division by
/// zero, and no `i64::MIN % -1`.
pub open spec fn int_math_ok(a: i64, b: i64, op: Operator) -> bool {
    &&& i64::MIN <= int_math_value(a, b, op) <= i64::MAX
    &&& (op == Operator::Divide || op == Operator::Modulus) ==> b != 0
    &&& op == Operator::Modulus ==> !(a == i64::MIN && b == -1)
}

/// Binary64 math on bit patterns.
pub open spec fn float_math_value(a: u64, b: u64, op: Operator) -> u64 {
    match op {
        Operator::Add => f64_sum(a, b),
        Operator::Subtract => f64_difference(a, b),
        Operator::Multiply => f64_product(a, b),
        Operator::Divide => f64_quotient(a, b),
        Operator::Modulus => f64_remainder(a, b),
        _ => 0,
    }
}

fn magnitude_of(a: i64) -> (m: u64)
    ensures
        m as int == magnitude(a as int),
{
    if a >= 0 {
        a as u64
    } else {
        (-(a as i128)) as u64
    }
}

pub fn int_math(a: i64, b: i64, op: Operator) -> (r: i64)
    requires
        is_math(op),
        int_math_ok(a, b, op),
    ensures
        r as int == int_math_value(a, b, op),
{
    match op {
        Operator::Add => a + b,
        Operator::Subtract => a - b,
        Operator::Multiply => a * b,
        Operator::Divide => {
            let q: u64 = magnitude_of(a) / magnitude_of(b);
            let signed: i128 = if (a >= 0) == (b >= 0) {
                q as i128
            } else {
                -(q as i128)
            };
            signed as i64
        },
        _ => {
            let m: u64 = magnitude_of(a) % magnitude_of(b);
            let signed: i128 = if a >= 0 {
                m as i128
            } else {
                -(m as i128)
            };
            signed as i64
        },
    }
}

pub fn float_math(a: u64, b: u64, op: Operator) -> (r: u64)
    requires
        is_math(op),
    ensures
        r == float_math_value(a, b, op),
{
    match op {
        Operator::Add => add_bits(a, b),
        Operator::Subtract => sub_bits(a, b),
        Operator::Multiply => mul_bits(a, b),
        Operator::Divide => div_bits(a, b),
        _ => rem_bits(a, b),
    }
}

// ---------------------------------------------------------------------
// Binary operators on rows
// ---------------------------------------------------------------------

/// The type of the column a binary expression produces.
pub open spec fn binary_type(op: Operator, float: bool) -> DataType {
    if is_comparison(op) || is_logic(op) {
        DataType::Boolean
    } else if float {
        DataType::Float64
    } else {
        DataType::Int64
    }
}

/// One row of a binary expression; `float` says whether either operand
/// column is floating.
pub open spec fn binary_value(op: Operator, l: Option<Scalar>, r: Option<Scalar>, float: bool) -> Option<Scalar> {
    match (l, r) {
        (Some(a), Some(b)) => Some(
            if is_comparison(op) {
                Scalar::Boolean(comparison_holds(compare_values(a, b), op))
            } else if op == Operator::And {
                Scalar::Boolean(bool_of(a) && bool_of(b))
            } else if op == Operator::Or {
                Scalar::Boolean(bool_of(a) || bool_of(b))
            } else if float {
                Scalar::Float64(float_math_value(float_of(a), float_of(b), op))
            } else {
                Scalar::Int64(int_math_value(int_of(a), int_of(b), op) as i64)
            },
        ),
        _ => None,
    }
}

/// One row of a binary expression can be computed without a panic.
/// `AND` and `OR` look at the right operand only when the left one does
/// not decide the result.
pub open spec fn binary_ok(op: Operator, l: Option<Scalar>, r: Option<Scalar>, float: bool) -> bool {
    match (l, r) {
        (Some(a), Some(b)) => if is_comparison(op) {
            comparable(a, b)
        } else if op == Operator::And {
            a is Boolean && (bool_of(a) ==> b is Boolean)
        } else if op == Operator::Or {
            a is Boolean && (!bool_of(a) ==> b is Boolean)
        } else if float {
            is_numeric_value(a) && is_numeric_value(b)
        } else {
            is_integer_value(a) && is_integer_value(b) && int_math_ok(int_of(a), int_of(b), op)
        },
        _ => true,
    }
}

/// Truncating division of integers of at most `2^63` in magnitude by a
/// nonzero divisor stays within `i64` except for `i64::MIN / -1`, and the
/// remainder always does.
proof fn lemma_trunc_bounds(a: i64, b: i64)
    requires
        b != 0,
    ensures
        !(a == i64::MIN && b == -1) ==> i64::MIN <= trunc_div(a as int, b as int) <= i64::MAX,
        i64::MIN <= trunc_rem(a as int, b as int) <= i64::MAX,
{
    let ma = magnitude(a as int);
    let mb = magnitude(b as int);
    assert(0 <= ma <= 0x8000_0000_0000_0000);
    assert(1 <= mb);
    assert(0 <= ma / mb <= ma) by (nonlinear_arith)
        requires
            0 <= ma,
            1 <= mb,
    ;
    assert(0 <= ma % mb < mb) by (nonlinear_arith)
        requires
            0 <= ma,
            1 <= mb,
    ;
    assert(ma % mb <= ma) by (nonlinear_arith)
        requires
            0 <= ma,
            1 <= mb,
    ;
    if mb >= 2 {
        assert(ma / mb <= ma / 2) by (nonlinear_arith)
            requires
                0 <= ma,
                2 <= mb,
        ;
    }
}

/// Whether integer math on `a` and `b` runs without a panic.
fn int_math_check(a: i64, b: i64, op: Operator) -> (ok: bool)
    requires
        is_math(op),
    ensures
        ok == int_math_ok(a, b, op),
{
    let x: i128 = a as i128;
    let y: i128 = b as i128;
    let lo: i128 = -0x8000_0000_0000_0000i128;
    let hi: i128 = 0x7FFF_FFFF_FFFF_FFFFi128;
    match op {
        Operator::Add => {
            let v: i128 = x + y;
            lo <= v && v <= hi
        },
        Operator::Subtract => {
            let v: i128 = x - y;
            lo <= v && v <= hi
        },
        Operator::Multiply => {
            assert(-0x4000_0000_0000_0000_0000_0000_0000_0000 <= x * y <= 0x4000_0000_0000_0000_0000_0000_0000_0000)
                by (nonlinear_arith)
                requires
                    -0x8000_0000_0000_0000 <= x <= 0x7FFF_FFFF_FFFF_FFFF,
                    -0x8000_0000_0000_0000 <= y <= 0x7FFF_FFFF_FFFF_FFFF,
            ;
            let v: i128 = x * y;
            lo <= v && v <= hi
        },
        _ => {
            if b == 0 {
                false
            } else {
                proof {
                    lemma_trunc_bounds(a, b);
                }
                !(a == i64::MIN && b == -1)
            }
        },
    }
}

/// Whether two non-null values can be compared.
fn comparable_check(a: &ScalarValue, b: &ScalarValue) -> (ok: bool)
    ensures
        ok == comparable(a.deep_view(), b.deep_view()),
{
    match (a, b) {
        (ScalarValue::Utf8(_), ScalarValue::Utf8(_)) => true,
        (ScalarValue::Boolean(_), ScalarValue::Boolean(_)) => true,
        _ => {
            let ta = a.data_type();
            let tb = b.data_type();
            ta != DataType::Boolean && ta != DataType::Utf8 && tb != DataType::Boolean && tb != DataType::Utf8
        },
    }
}

/// Whether one row of a binary expression can be computed.
pub fn row_ok(op: Operator, l: &Option<ScalarValue>, r: &Option<ScalarValue>, float: bool) -> (ok: bool)
    ensures
        ok == binary_ok(op, opt_view(*l), opt_view(*r), float),
{
    match (l, r) {
        (Some(a), Some(b)) => {
            if op.is_comparison() {
                comparable_check(a, b)
            } else if op == Operator::And {
                match (a, b) {
                    (ScalarValue::Boolean(x), ScalarValue::Boolean(_)) => true,
                    (ScalarValue::Boolean(x), _) => !*x,
                    _ => false,
                }
            } else if op == Operator::Or {
                match (a, b) {
                    (ScalarValue::Boolean(x), ScalarValue::Boolean(_)) => true,
                    (ScalarValue::Boolean(x), _) => *x,
                    _ => false,
                }
            } else {
                let ta = a.data_type();
                let tb = b.data_type();
                if float {
                    ta != DataType::Boolean && ta != DataType::Utf8 && tb != DataType::Boolean && tb != DataType::Utf8
                } else if is_float(ta) || is_float(tb) || ta == DataType::Boolean || ta == DataType::Utf8
                    || tb == DataType::Boolean || tb == DataType::Utf8 {
                    false
                } else {
                    int_math_check(as_i64(a), as_i64(b), op)
                }
            }
        },
        _ => true,
    }
}

fn binary_row(op: Operator, l: Option<ScalarValue>, r: Option<ScalarValue>, float: bool) -> (v: Option<ScalarValue>)
    requires
        binary_ok(op, opt_view(l), opt_view(r), float),
    ensures
        opt_view(v) == binary_value(op, opt_view(l), opt_view(r), float),
{
    match (l, r) {
        (Some(a), Some(b)) => {
            if op.is_comparison() {
                Some(ScalarValue::Boolean(compare(&a, &b, op)))
            } else if op == Operator::And {
                Some(ScalarValue::Boolean(as_bool(&a) && as_bool(&b)))
            } else if op == Operator::Or {
                Some(ScalarValue::Boolean(as_bool(&a) || as_bool(&b)))
            } else if float {
                Some(ScalarValue::Float64(float_math(as_f64(&a), as_f64(&b), op)))
            } else {
                Some(ScalarValue::Int64(int_math(as_i64(&a), as_i64(&b), op)))
            }
        },
        _ => None,
    }
}

// ---------------------------------------------------------------------
// Expressions
// ---------------------------------------------------------------------

/// Input column by position.
#[derive(Debug)]
pub struct ColumnExpression {
    pub index: usize,
}

/// A constant. Evaluates to a column that repeats it, sized to the batch.
/// `text` is how the constant is printed.
#[derive(Debug)]
pub struct LiteralExpression {
    pub value: ScalarValue,
    pub text: String,
}

/// Two child expressions combined by an operator.
#[derive(Debug)]
pub struct BinaryExpression {
    pub left: Box<Expression>,
    pub op: Operator,
    pub right: Box<Expression>,
}

/// A runnable expression.
#[derive(Debug)]
pub enum Expression {
    Column(ColumnExpression),
    Literal(LiteralExpression),
    Binary(BinaryExpression),
}

/// The column an expression produces against a batch.
pub open spec fn eval_column(e: Expression, b: BatchView) -> ColumnView
    decreases e,
{
    match e {
        Expression::Column(c) => b.columns[c.index as int],
        Expression::Literal(l) => ColumnView {
            data_type: scalar_type(l.value.deep_view()),
            values: Seq::new(batch_rows(b.columns), |i: int| Some(l.value.deep_view())),
        },
        Expression::Binary(x) => {
            let l = eval_column(*x.left, b);
            let r = eval_column(*x.right, b);
            let float = is_float_type(l.data_type) || is_float_type(r.data_type);
            ColumnView {
                data_type: binary_type(x.op, float),
                values: Seq::new(
                    l.values.len(),
                    |i: int| binary_value(x.op, l.values[i], r.values[i], float),
                ),
            }
        },
    }
}

/// An expression can be evaluated against a batch without a panic.
pub open spec fn eval_ok(e: Expression, b: BatchView) -> bool
    decreases e,
{
    match e {
        Expression::Column(c) => c.index < b.columns.len(),
        Expression::Literal(_) => true,
        Expression::Binary(x) => {
            let l = eval_column(*x.left, b);
            let r = eval_column(*x.right, b);
            let float = is_float_type(l.data_type) || is_float_type(r.data_type);
            &&& eval_ok(*x.left, b)
            &&& eval_ok(*x.right, b)
            &&& l.values.len() == r.values.len()
            &&& forall|i: int|
                0 <= i < l.values.len() ==> binary_ok(x.op, #[trigger] l.values[i], r.values[i], float)
        },
    }
}

/// Against a batch whose columns share one length, an expression that can
/// be evaluated produces a column of that length.
pub proof fn lemma_eval_rows(e: Expression, b: BatchView)
    requires
        columns_fit(b.schema.len(), b.columns),
        eval_ok(e, b),
    ensures
        eval_column(e, b).values.len() == batch_rows(b.columns),
    decreases e,
{
    match e {
        Expression::Column(c) => {
            assert(b.columns[c.index as int].values.len() == batch_rows(b.columns));
        },
        Expression::Literal(_) => {},
        Expression::Binary(x) => {
            lemma_eval_rows(*x.left, b);
            lemma_eval_rows(*x.right, b);
        },
    }
}

impl Expression {
    /// Evaluate against `input`, producing a column with one value per row.
    pub fn evaluate(&self, input: &RecordBatch) -> (c: ColumnVector)
        requires
            eval_ok(*self, input@),
        ensures
            c@ == eval_column(*self, input@),
        decreases self,
    {
        match self {
            Expression::Column(c) => input.column(c.index).copy(),
            Expression::Literal(l) => ColumnVector::Literal(
                LiteralValueVector::new(l.value.data_type(), Some(l.value.copy()), input.row_count()),
            ),
            Expression::Binary(x) => {
                let l = x.left.evaluate(input);
                let r = x.right.evaluate(input);
                let n = l.size();
                let float = is_float(l.data_type()) || is_float(r.data_type());
                let ghost lv = l@.values;
                let ghost rv = r@.values;
                let mut values: Vec<Option<ScalarValue>> = Vec::new();
                let mut i: usize = 0;
                while i < n
                    invariant
                        i <= n,
                        n == lv.len(),
                        lv == l@.values,
                        rv == r@.values,
                        lv.len() == rv.len(),
                        forall|j: int| 0 <= j < n ==> binary_ok(x.op, #[trigger] lv[j], rv[j], float),
                        values@.len() == i,
                        forall|j: int|
                            0 <= j < i ==> opt_view(#[trigger] values@[j]) == binary_value(
                                x.op,
                                lv[j],
                                rv[j],
                                float,
                            ),
                    decreases n - i,
                {
                    let v = binary_row(x.op, l.value(i), r.value(i), float);
                    values.push(v);
                    i = i + 1;
                }
                assert(values_typed(values_view(values@), binary_type(x.op, float))) by {
                    assert forall|j: int| 0 <= j < values@.len() implies (#[trigger] values_view(values@)[j] matches Some(
                        v,
                    ) ==> scalar_type(v) == binary_type(x.op, float)) by {
                        assert(values_view(values@)[j] == opt_view(values@[j]));
                    }
                }
                let out = ArrowFieldVector::new(binary_type_of(x.op, float), values);
                assert(out@.values =~= eval_column(*self, input@).values);
                ColumnVector::Arrow(out)
            },
        }
    }
}

impl Expression {
    /// Evaluate against `input` if that runs without a panic: `None`
    /// exactly when `evaluate` could not.
    pub fn try_evaluate(&self, input: &RecordBatch) -> (c: Option<ColumnVector>)
        ensures
            match c {
                Some(col) => eval_ok(*self, input@) && col@ == eval_column(*self, input@),
                None => !eval_ok(*self, input@),
            },
        decreases self,
    {
        match self {
            Expression::Column(c) => {
                if c.index < input.column_count() {
                    Some(self.evaluate(input))
                } else {
                    None
                }
            },
            Expression::Literal(_) => Some(self.evaluate(input)),
            Expression::Binary(x) => {
                let l = match x.left.try_evaluate(input) {
                    Some(l) => l,
                    None => return None,
                };
                let r = match x.right.try_evaluate(input) {
                    Some(r) => r,
                    None => return None,
                };
                let n = l.size();
                if r.size() != n {
                    return None;
                }
                let float = is_float(l.data_type()) || is_float(r.data_type());
                let ghost lv = l@.values;
                let ghost rv = r@.values;
                let mut i: usize = 0;
                while i < n
                    invariant
                        i <= n,
                        n == lv.len(),
                        lv == l@.values,
                        rv == r@.values,
                        lv.len() == rv.len(),
                        *self == Expression::Binary(*x),
                        eval_ok(*x.left, input@),
                        eval_ok(*x.right, input@),
                        l@ == eval_column(*x.left, input@),
                        r@ == eval_column(*x.right, input@),
                        float == (is_float_type(l@.data_type) || is_float_type(r@.data_type)),
                        forall|j: int| 0 <= j < i ==> binary_ok(x.op, #[trigger] lv[j], rv[j], float),
                    decreases n - i,
                {
                    let a = l.value(i);
                    let b = r.value(i);
                    if !row_ok(x.op, &a, &b, float) {
                        assert(!binary_ok(x.op, lv[i as int], rv[i as int], float));
                        return None;
                    }
                    i = i + 1;
                }
                Some(self.evaluate(input))
            },
        }
    }
}

/// How an expression is printed: a column as `#` and its index, a
/// constant by its text, a binary expression as its operands around the
/// operator.
pub open spec fn expr_text(e: Expression) -> Seq<char>
    decreases e,
{
    match e {
        Expression::Column(c) => seq!['#'] + decimal(c.index as nat),
        Expression::Literal(l) => l.text@,
        Expression::Binary(x) => expr_text(*x.left) + seq![' '] + operator_text(x.op) + seq![' '] + expr_text(*x.right),
    }
}

impl LiteralExpression {
    /// A constant printed by its own text; it must not be a float, whose
    /// text comes from `with_text`.
    pub fn new(value: ScalarValue) -> (l: LiteralExpression)
        requires
            !is_float_type(scalar_type(value.deep_view())),
        ensures
            l.value == value,
            l.text@ == scalar_text(value.deep_view()),
    {
        let text = value.to_text();
        LiteralExpression { value, text }
    }

    /// A constant printed as `text`.
    pub fn with_text(value: ScalarValue, text: String) -> (l: LiteralExpression)
        ensures
            l.value == value,
            l.text == text,
    {
        LiteralExpression { value, text }
    }
}

impl Expression {
    /// How this expression is printed.
    pub fn to_text(&self) -> (text: String)
        ensures
            text@ == expr_text(*self),
        decreases self,
    {
        match self {
            Expression::Column(c) => {
                let mut t = String::new();
                push_char(&mut t, '#');
                let digits = u64_text(c.index as u64);
                push_text(&mut t, &digits);
                t
            },
            Expression::Literal(l) => l.text.clone(),
            Expression::Binary(x) => {
                let mut t = x.left.to_text();
                push_char(&mut t, ' ');
                let op = x.op.to_text();
                push_text(&mut t, &op);
                push_char(&mut t, ' ');
                let r = x.right.to_text();
                push_text(&mut t, &r);
                assert(t@ =~= expr_text(*self));
                t
            },
        }
    }
}

pub fn binary_type_of(op: Operator, float: bool) -> (t: DataType)
    ensures
        t == binary_type(op, float),
{
    if op.is_comparison() || op.is_logic() {
        DataType::Boolean
    } else if float {
        DataType::Float64
    } else {
        DataType::Int64
    }
}

// ---------------------------------------------------------------------
// Aggregates
// ---------------------------------------------------------------------

/// Physical aggregate: which function, over which input expression.
#[derive(Debug)]
pub struct AggregateExpression {
    pub func: AggregateFunc,
    pub expr: Expression,
}

/// The running state of one aggregate within one group, as the contracts
/// see it. `Avg` keeps the bits of the binary64 sum of its inputs.
pub enum AccumulatorState {
    MinMax { current: Option<Scalar>, keep_if: Operator },
    Sum { sum: Option<Scalar> },
    Avg { total: u64, count: i64 },
    Count { count: i64 },
}

/// A fresh accumulator for `func`.
pub open spec fn initial_state(func: AggregateFunc) -> AccumulatorState {
    match func {
        AggregateFunc::Sum => AccumulatorState::Sum { sum: None },
        AggregateFunc::Min => AccumulatorState::MinMax { current: None, keep_if: Operator::Lt },
        AggregateFunc::Max => AccumulatorState::MinMax { current: None, keep_if: Operator::Gt },
        AggregateFunc::Avg => AccumulatorState::Avg { total: 0, count: 0 },
        AggregateFunc::Count => AccumulatorState::Count { count: 0 },
    }
}

/// The states an accumulator can be in: MIN/MAX keep by `<` or `>`, and a
/// SUM is NULL or an `Int64` or `Float64`.
pub open spec fn state_wf(s: AccumulatorState) -> bool {
    match s {
        AccumulatorState::MinMax { current, keep_if } => keep_if == Operator::Lt || keep_if == Operator::Gt,
        AccumulatorState::Sum { sum } => match sum {
            None => true,
            Some(Scalar::Int64(_)) => true,
            Some(Scalar::Float64(_)) => true,
            _ => false,
        },
        _ => true,
    }
}

/// Feeding one value to an accumulator. NULL inputs are skipped.
/// MIN and MAX keep the new value when it compares `keep_if` against the
/// current one; SUM adds in `i64` until a float shows up, then in binary64;
/// AVG adds in binary64 and counts; COUNT counts.
pub open spec fn accumulate_state(s: AccumulatorState, value: Option<Scalar>) -> AccumulatorState {
    match value {
        None => s,
        Some(v) => match s {
            AccumulatorState::MinMax { current, keep_if } => match current {
                None => AccumulatorState::MinMax { current: Some(v), keep_if },
                Some(c) => if comparison_holds(compare_values(v, c), keep_if) {
                    AccumulatorState::MinMax { current: Some(v), keep_if }
                } else {
                    s
                },
            },
            AccumulatorState::Sum { sum } => {
                let float = is_float_type(scalar_type(v));
                match sum {
                    None => AccumulatorState::Sum {
                        sum: Some(
                            if float {
                                Scalar::Float64(float_of(v))
                            } else {
                                Scalar::Int64(int_of(v))
                            },
                        ),
                    },
                    Some(Scalar::Int64(t)) => if float {
                        AccumulatorState::Sum { sum: Some(Scalar::Float64(f64_sum(f64_from_i64(t), float_of(v)))) }
                    } else {
                        AccumulatorState::Sum { sum: Some(Scalar::Int64((t + int_of(v)) as i64)) }
                    },
                    Some(Scalar::Float64(t)) => AccumulatorState::Sum {
                        sum: Some(Scalar::Float64(f64_sum(t, float_of(v)))),
                    },
                    _ => s,
                }
            },
            AccumulatorState::Avg { total, count } => AccumulatorState::Avg {
                total: f64_sum(total, float_of(v)),
                count: (count + 1) as i64,
            },
            AccumulatorState::Count { count } => AccumulatorState::Count { count: (count + 1) as i64 },
        },
    }
}

/// Feeding one value does not panic: values compare with the current
/// MIN/MAX, sums and averages see numbers, and no count or integer sum
/// overflows `i64`.
pub open spec fn accumulate_ok(s: AccumulatorState, value: Option<Scalar>) -> bool {
    match value {
        None => true,
        Some(v) => match s {
            AccumulatorState::MinMax { current, keep_if } => match current {
                None => true,
                Some(c) => comparable(v, c),
            },
            AccumulatorState::Sum { sum } => {
                let float = is_float_type(scalar_type(v));
                match sum {
                    None => float || is_integer_value(v),
                    Some(Scalar::Int64(t)) => float || (is_integer_value(v) && i64::MIN <= t + int_of(v) <= i64::MAX),
                    _ => is_numeric_value(v),
                }
            },
            AccumulatorState::Avg { total, count } => is_numeric_value(v) && count < i64::MAX,
            AccumulatorState::Count { count } => count < i64::MAX,
        },
    }
}

/// The result an accumulator reports: SUM of no values is NULL, AVG of no
/// values is NULL, COUNT reports its count.
pub open spec fn final_state_value(s: AccumulatorState) -> Option<Scalar> {
    match s {
        AccumulatorState::MinMax { current, keep_if } => current,
        AccumulatorState::Sum { sum } => sum,
        AccumulatorState::Avg { total, count } => if count > 0 {
            Some(Scalar::Float64(f64_quotient(total, f64_from_i64(count))))
        } else {
            None
        },
        AccumulatorState::Count { count } => Some(Scalar::Int64(count)),
    }
}

/// Feeding a value keeps an accumulator's state well formed.
pub proof fn lemma_accumulate_wf(s: AccumulatorState, value: Option<Scalar>)
    requires
        state_wf(s),
    ensures
        state_wf(accumulate_state(s, value)),
{
}

/// Aggregates skip NULL: feeding one never fails and changes nothing.
pub proof fn law_null_inputs_skipped(s: AccumulatorState)
    ensures
        accumulate_ok(s, None),
        accumulate_state(s, None) == s,
{
}

// ---------------------------------------------------------------------
// Feeding a sequence of values
// ---------------------------------------------------------------------

/// The state after feeding `values` in order, starting from `s`.
pub open spec fn fold_state(s: AccumulatorState, values: Seq<Option<Scalar>>) -> AccumulatorState
    decreases values.len(),
{
    if values.len() == 0 {
        s
    } else {
        accumulate_state(fold_state(s, values.drop_last()), values.last())
    }
}

/// Feeding `values` in order, starting from `s`, never panics.
pub open spec fn fold_ok(s: AccumulatorState, values: Seq<Option<Scalar>>) -> bool
    decreases values.len(),
{
    values.len() == 0 || (fold_ok(s, values.drop_last()) && accumulate_ok(
        fold_state(s, values.drop_last()),
        values.last(),
    ))
}

/// Every value is NULL.
pub open spec fn all_null(values: Seq<Option<Scalar>>) -> bool {
    forall|i: int| 0 <= i < values.len() ==> (#[trigger] values[i]) is None
}

/// Some value is a `Float32` or `Float64`.
pub open spec fn has_float(values: Seq<Option<Scalar>>) -> bool {
    exists|i: int| 0 <= i < values.len() && (#[trigger] values[i] matches Some(v) && is_float_type(scalar_type(v)))
}

/// The non-NULL values added up, each taken `as i64` (as SUM reads an
/// integer value), in exact arithmetic.
pub open spec fn int_sum(values: Seq<Option<Scalar>>) -> int
    decreases values.len(),
{
    if values.len() == 0 {
        0
    } else {
        int_sum(values.drop_last()) + match values.last() {
            Some(v) => int_of(v) as int,
            None => 0,
        }
    }
}

/// The non-NULL integer values added up exactly.
pub open spec fn value_sum(values: Seq<Option<Scalar>>) -> int
    decreases values.len(),
{
    if values.len() == 0 {
        0
    } else {
        value_sum(values.drop_last()) + match values.last() {
            Some(v) => int_value(v),
            None => 0,
        }
    }
}

/// SUM in binary64, once a float has shown up: the values before the first
/// float are added up as integers and the total converted to binary64
/// (unless they are all NULL), then the first float and every later value
/// are added one at a time, in order, in binary64.
pub open spec fn float_sum(values: Seq<Option<Scalar>>) -> u64
    decreases values.len(),
{
    if values.len() == 0 {
        0
    } else {
        let init = values.drop_last();
        match values.last() {
            None => float_sum(init),
            Some(v) => if has_float(init) {
                f64_sum(float_sum(init), float_of(v))
            } else if all_null(init) {
                float_of(v)
            } else {
                f64_sum(f64_from_i64(int_sum(init) as i64), float_of(v))
            },
        }
    }
}

/// Taking an integer value `as i64` changes it only for a `UInt64` above
/// `i64::MAX`.
pub proof fn law_int_of_exact(v: Scalar)
    requires
        is_integer_value(v),
        int_value(v) <= i64::MAX,
    ensures
        int_of(v) as int == int_value(v),
{
}

proof fn lemma_prefix_null(values: Seq<Option<Scalar>>)
    requires
        values.len() > 0,
    ensures
        all_null(values) <==> (all_null(values.drop_last()) && values.last() is None),
        has_float(values) <==> (has_float(values.drop_last()) || (values.last() matches Some(v) && is_float_type(
            scalar_type(v),
        ))),
{
    let init = values.drop_last();
    assert forall|i: int| 0 <= i < init.len() implies #[trigger] init[i] == values[i] by {}
    if has_float(values) && !(values.last() matches Some(v) && is_float_type(scalar_type(v))) {
        let i = choose|i: int| 0 <= i < values.len() && (#[trigger] values[i] matches Some(v) && is_float_type(scalar_type(v)));
        assert(i < init.len());
        assert(init[i] == values[i]);
    }
    if has_float(init) {
        let i = choose|i: int| 0 <= i < init.len() && (#[trigger] init[i] matches Some(v) && is_float_type(scalar_type(v)));
        assert(values[i] == init[i]);
    }
    if values.last() matches Some(v) && is_float_type(scalar_type(v)) {
        assert(values[values.len() - 1] == values.last());
    }
    if all_null(init) && values.last() is None {
        assert forall|i: int| 0 <= i < values.len() implies (#[trigger] values[i]) is None by {
            if i < init.len() {
                assert(init[i] == values[i]);
            }
        }
    }
}

/// SUM over a sequence of values that it can take without a panic: NULLs
/// are skipped; the result is NULL exactly when every value is NULL; with no
/// float among the values it is the `Int64` sum of their `i64` readings
/// (which is their exact sum unless one is a `UInt64` above `i64::MAX`),
/// and that sum never leaves `i64`; once a float is among them it is the
/// `Float64` of `float_sum`. The state is always NULL, `Int64` or
/// `Float64`.
pub proof fn law_sum_fold(values: Seq<Option<Scalar>>)
    requires
        fold_ok(initial_state(AggregateFunc::Sum), values),
    ensures
        fold_state(initial_state(AggregateFunc::Sum), values) is Sum,
        state_wf(fold_state(initial_state(AggregateFunc::Sum), values)),
        final_state_value(fold_state(initial_state(AggregateFunc::Sum), values)) is None <==> all_null(values),
        !has_float(values) && !all_null(values) ==> {
            &&& i64::MIN <= int_sum(values) <= i64::MAX
            &&& final_state_value(fold_state(initial_state(AggregateFunc::Sum), values)) == Some(
                Scalar::Int64(int_sum(values) as i64),
            )
        },
        has_float(values) ==> final_state_value(fold_state(initial_state(AggregateFunc::Sum), values)) == Some(
            Scalar::Float64(float_sum(values)),
        ),
        (forall|i: int| 0 <= i < values.len() ==> (#[trigger] values[i] matches Some(v) ==> int_value(v) <= i64::MAX))
            ==> (!has_float(values) ==> int_sum(values) == value_sum(values)),
    decreases values.len(),
{
    let s0 = initial_state(AggregateFunc::Sum);
    if values.len() == 0 {
        return;
    }
    let init = values.drop_last();
    let last = values.len() - 1;
    lemma_prefix_null(values);
    assert(fold_ok(s0, init));
    assert forall|i: int| 0 <= i < init.len() implies #[trigger] init[i] == values[i] by {}
    assert(values[last] == values.last());
    let exact = forall|i: int|
        0 <= i < values.len() ==> (#[trigger] values[i] matches Some(v) ==> int_value(v) <= i64::MAX);
    if exact {
        assert forall|i: int| 0 <= i < init.len() implies (#[trigger] init[i] matches Some(v) ==> int_value(v)
            <= i64::MAX) by {
            assert(values[i] == init[i]);
        }
    }
    law_sum_fold(init);
    if all_null(init) {
        lemma_sum_null(init);
    }
    let before = fold_state(s0, init);
    let after = fold_state(s0, values);
    assert(after == accumulate_state(before, values.last()));
    assert(accumulate_ok(before, values.last()));
    match values.last() {
        None => {
            assert(after == before);
        },
        Some(v) => {
            let float = is_float_type(scalar_type(v));
            if has_float(init) {
                assert(before == (AccumulatorState::Sum { sum: Some(Scalar::Float64(float_sum(init))) }));
            } else if all_null(init) {
                assert(before == (AccumulatorState::Sum { sum: None }));
            } else {
                assert(before == (AccumulatorState::Sum { sum: Some(Scalar::Int64(int_sum(init) as i64)) }));
            }
            if exact && !float {
                assert(int_value(v) <= i64::MAX);
            }
        },
    }
}

/// NULLs add nothing: the sums of NULLs are zero.
proof fn lemma_sum_null(values: Seq<Option<Scalar>>)
    requires
        all_null(values),
    ensures
        int_sum(values) == 0,
        value_sum(values) == 0,
    decreases values.len(),
{
    if values.len() > 0 {
        let init = values.drop_last();
        assert forall|i: int| 0 <= i < init.len() implies (#[trigger] init[i]) is None by {
            assert(init[i] == values[i]);
        }
        assert(values[values.len() - 1] == values.last());
        lemma_sum_null(init);
    }
}

/// How many values are not NULL.
pub open spec fn non_null_count(values: Seq<Option<Scalar>>) -> nat
    decreases values.len(),
{
    if values.len() == 0 {
        0
    } else {
        non_null_count(values.drop_last()) + if values.last() is Some {
            1nat
        } else {
            0nat
        }
    }
}

/// The non-NULL values added one at a time, in order, in binary64,
/// starting from `0.0`.
pub open spec fn avg_total(values: Seq<Option<Scalar>>) -> u64
    decreases values.len(),
{
    if values.len() == 0 {
        0
    } else {
        match values.last() {
            Some(v) => f64_sum(avg_total(values.drop_last()), float_of(v)),
            None => avg_total(values.drop_last()),
        }
    }
}

/// Every value is NULL exactly when none is counted.
proof fn lemma_count_null(values: Seq<Option<Scalar>>)
    ensures
        all_null(values) <==> non_null_count(values) == 0,
    decreases values.len(),
{
    if values.len() > 0 {
        lemma_prefix_null(values);
        lemma_count_null(values.drop_last());
    }
}

/// COUNT over a sequence of values that it can take without a panic: it
/// reports how many of them are not NULL.
pub proof fn law_count_fold(values: Seq<Option<Scalar>>)
    requires
        fold_ok(initial_state(AggregateFunc::Count), values),
    ensures
        non_null_count(values) <= i64::MAX,
        fold_state(initial_state(AggregateFunc::Count), values) == (AccumulatorState::Count {
            count: non_null_count(values) as i64,
        }),
        final_state_value(fold_state(initial_state(AggregateFunc::Count), values)) == Some(
            Scalar::Int64(non_null_count(values) as i64),
        ),
    decreases values.len(),
{
    if values.len() > 0 {
        law_count_fold(values.drop_last());
    }
}

/// AVG over a sequence of values that it can take without a panic: NULLs
/// are skipped; it keeps the binary64 running sum and the count of the
/// other values, and reports NULL exactly when every value is NULL, else
/// the binary64 quotient of that sum by that count.
pub proof fn law_avg_fold(values: Seq<Option<Scalar>>)
    requires
        fold_ok(initial_state(AggregateFunc::Avg), values),
    ensures
        non_null_count(values) <= i64::MAX,
        fold_state(initial_state(AggregateFunc::Avg), values) == (AccumulatorState::Avg {
            total: avg_total(values),
            count: non_null_count(values) as i64,
        }),
        final_state_value(fold_state(initial_state(AggregateFunc::Avg), values)) is None <==> all_null(values),
        !all_null(values) ==> final_state_value(fold_state(initial_state(AggregateFunc::Avg), values)) == Some(
            Scalar::Float64(f64_quotient(avg_total(values), f64_from_i64(non_null_count(values) as i64))),
        ),
    decreases values.len(),
{
    lemma_count_null(values);
    if values.len() > 0 {
        law_avg_fold(values.drop_last());
    }
}

/// MIN or MAX: the comparison by which a new value replaces the current one.
pub open spec fn min_max_keep(func: AggregateFunc) -> Operator {
    if func == AggregateFunc::Min {
        Operator::Lt
    } else {
        Operator::Gt
    }
}

proof fn lemma_lex_order(a: Seq<u8>, b: Seq<u8>, c: Seq<u8>)
    ensures
        lex_order(a, a) == 0,
        lex_order(a, b) == -lex_order(b, a),
        -1 <= lex_order(a, b) <= 1,
        lex_order(a, b) < 0 && lex_order(b, c) < 0 ==> lex_order(a, c) < 0,
    decreases a.len(),
{
    if a.len() > 0 {
        if b.len() > 0 && c.len() > 0 {
            lemma_lex_order(a.drop_first(), b.drop_first(), c.drop_first());
        } else if b.len() > 0 {
            lemma_lex_order(a.drop_first(), b.drop_first(), b.drop_first());
        } else {
            lemma_lex_order(a.drop_first(), a.drop_first(), a.drop_first());
        }
    }
}

/// Which of the four orders a value is compared in: strings, booleans,
/// integers (of any width and sign), floats (of either width).
pub open spec fn value_domain(v: Scalar) -> int {
    if v is Utf8 {
        0
    } else if v is Boolean {
        1
    } else if is_float_type(scalar_type(v)) {
        3
    } else {
        2
    }
}

/// Every non-NULL value is compared in domain `d`.
pub open spec fn values_in_domain(values: Seq<Option<Scalar>>, d: int) -> bool {
    forall|i: int| 0 <= i < values.len() ==> (#[trigger] values[i] matches Some(v) ==> value_domain(v) == d)
}

/// Values compared in one domain (all strings, all booleans, all integers
/// of whatever types, or all floats) are ordered by `compare_values`: each
/// is equal to itself, swapping two flips their order, and `<` is
/// transitive.
pub proof fn law_compare_same_domain(a: Scalar, b: Scalar, c: Scalar)
    requires
        value_domain(a) == value_domain(b),
        value_domain(b) == value_domain(c),
    ensures
        comparable(a, b),
        compare_values(a, a) == 0,
        compare_values(a, b) == -compare_values(b, a),
        compare_values(a, b) < 0 && compare_values(b, c) < 0 ==> compare_values(a, c) < 0,
{
    match (a, b, c) {
        (Scalar::Utf8(x), Scalar::Utf8(y), Scalar::Utf8(z)) => {
            lemma_lex_order(encode_utf8(x), encode_utf8(y), encode_utf8(z));
        },
        _ => {},
    }
}

/// MIN and MAX over values compared in one domain (all strings, all
/// booleans, all integers, or all floats): they never fail; the result is
/// NULL exactly when every value is NULL; otherwise it is one of the values,
/// and no value compares below it (MIN) or above it (MAX).
pub proof fn law_min_max_fold(values: Seq<Option<Scalar>>, d: int, func: AggregateFunc)
    requires
        func == AggregateFunc::Min || func == AggregateFunc::Max,
        values_in_domain(values, d),
    ensures
        fold_ok(initial_state(func), values),
        fold_state(initial_state(func), values) matches AccumulatorState::MinMax { keep_if, .. } && keep_if
            == min_max_keep(func),
        final_state_value(fold_state(initial_state(func), values)) is None <==> all_null(values),
        final_state_value(fold_state(initial_state(func), values)) matches Some(m) ==> {
            &&& exists|i: int| 0 <= i < values.len() && values[i] == Some(m)
            &&& forall|i: int|
                0 <= i < values.len() ==> (#[trigger] values[i] matches Some(v) ==> !comparison_holds(
                    compare_values(v, m),
                    min_max_keep(func),
                ))
        },
        final_state_value(fold_state(initial_state(func), values)) matches Some(m) ==> forall|i: int|
            0 <= i < values.len() ==> (#[trigger] values[i] matches Some(v) ==> (func == AggregateFunc::Min
                ==> compare_values(v, m) >= 0) && (func == AggregateFunc::Max ==> compare_values(v, m) <= 0)),
    decreases values.len(),
{
    let s0 = initial_state(func);
    let op = min_max_keep(func);
    if values.len() == 0 {
        return;
    }
    let init = values.drop_last();
    let last = values.len() - 1;
    lemma_prefix_null(values);
    assert forall|i: int| 0 <= i < init.len() implies #[trigger] init[i] == values[i] by {}
    assert(values_in_domain(init, d)) by {
        assert forall|i: int| 0 <= i < init.len() implies (#[trigger] init[i] matches Some(v) ==> value_domain(v) == d) by {
            assert(init[i] == values[i]);
        }
    }
    law_min_max_fold(init, d, func);
    let before = fold_state(s0, init);
    assert(values[last] == values.last());
    match values.last() {
        None => {
            assert(fold_state(s0, values) == before);
            if let Some(m) = final_state_value(before) {
                let k = choose|i: int| 0 <= i < init.len() && init[i] == Some(m);
                assert(values[k] == Some(m));
                assert forall|i: int| 0 <= i < values.len() implies (#[trigger] values[i] matches Some(u)
                    ==> !comparison_holds(compare_values(u, m), op)) by {
                    if i < last {
                        assert(init[i] == values[i]);
                    }
                }
            }
        },
        Some(v) => {
            assert(value_domain(v) == d);
            let cur = final_state_value(before);
            match cur {
                None => {
                    law_compare_same_domain(v, v, v);
                    assert(values[last] == Some(v));
                    assert(fold_state(s0, values) == (AccumulatorState::MinMax { current: Some(v), keep_if: op }));
                    assert forall|i: int| 0 <= i < values.len() implies (#[trigger] values[i] matches Some(u)
                        ==> !comparison_holds(compare_values(u, v), op)) by {
                        if i < last {
                            assert(init[i] is None);
                        }
                    }
                },
                Some(c) => {
                    let k = choose|i: int| 0 <= i < init.len() && init[i] == Some(c);
                    assert(values[k] == Some(c));
                    assert(value_domain(c) == d);
                    law_compare_same_domain(v, c, c);
                    if comparison_holds(compare_values(v, c), op) {
                        assert(values[last] == Some(v));
                        assert(fold_state(s0, values) == (AccumulatorState::MinMax { current: Some(v), keep_if: op }));
                        assert forall|i: int| 0 <= i < values.len() implies (#[trigger] values[i] matches Some(u)
                            ==> !comparison_holds(compare_values(u, v), op)) by {
                            if let Some(u) = values[i] {
                                assert(value_domain(u) == d);
                                if i < last {
                                    assert(init[i] == values[i]);
                                    assert(!comparison_holds(compare_values(u, c), op));
                                    law_compare_same_domain(u, v, c);
                                    law_compare_same_domain(c, v, u);
                                    law_compare_same_domain(v, u, c);
                                    law_compare_same_domain(u, c, v);
                                } else {
                                    law_compare_same_domain(v, v, v);
                                }
                            }
                        }
                    } else {
                        assert(fold_state(s0, values) == before);
                        assert forall|i: int| 0 <= i < values.len() implies (#[trigger] values[i] matches Some(u)
                            ==> !comparison_holds(compare_values(u, c), op)) by {
                            if i < last {
                                assert(init[i] == values[i]);
                            }
                        }
                    }
                },
            }
        },
    }
}

/// MIN and MAX: the same machine with the comparison flipped.
#[derive(Debug)]
pub struct MinMaxAccumulator {
    current: Option<ScalarValue>,
    keep_if: Operator,
}

/// Sums integers in `i64` and floats in binary64; promotes to binary64 if a
/// float ever shows up.
#[derive(Debug)]
pub struct SumAccumulator {
    sum: Option<ScalarValue>,
}

/// Binary64 sum (as bits) and count of the non-NULL inputs.
#[derive(Debug)]
pub struct AvgAccumulator {
    sum: u64,
    count: i64,
}

/// COUNT(expr): number of non-NULL values.
#[derive(Debug)]
pub struct CountAccumulator {
    count: i64,
}

/// Running state for one aggregate within one group.
#[derive(Debug)]
pub enum Accumulator {
    MinMax(MinMaxAccumulator),
    Sum(SumAccumulator),
    Avg(AvgAccumulator),
    Count(CountAccumulator),
}

impl Accumulator {
    /// The state this accumulator is in.
    pub closed spec fn state(&self) -> AccumulatorState {
        match self {
            Accumulator::MinMax(a) => AccumulatorState::MinMax { current: opt_view(a.current), keep_if: a.keep_if },
            Accumulator::Sum(a) => AccumulatorState::Sum { sum: opt_view(a.sum) },
            Accumulator::Avg(a) => AccumulatorState::Avg { total: a.sum, count: a.count },
            Accumulator::Count(a) => AccumulatorState::Count { count: a.count },
        }
    }

    /// Whether feeding `value` runs without a panic.
    pub fn accepts(&self, value: &Option<ScalarValue>) -> (ok: bool)
        ensures
            ok == accumulate_ok(self.state(), opt_view(*value)),
    {
        let v = match value {
            Some(v) => v,
            None => return true,
        };
        let t = v.data_type();
        let numeric = t != DataType::Boolean && t != DataType::Utf8;
        match self {
            Accumulator::MinMax(a) => match &a.current {
                None => true,
                Some(c) => comparable_check(v, c),
            },
            Accumulator::Sum(a) => {
                let float = is_float(t);
                match &a.sum {
                    None => numeric,
                    Some(ScalarValue::Int64(s)) => {
                        if float {
                            true
                        } else if !numeric {
                            false
                        } else {
                            let total: i128 = *s as i128 + as_i64(v) as i128;
                            -0x8000_0000_0000_0000i128 <= total && total <= 0x7FFF_FFFF_FFFF_FFFFi128
                        }
                    },
                    Some(_) => numeric,
                }
            },
            Accumulator::Avg(a) => numeric && a.count < i64::MAX,
            Accumulator::Count(a) => a.count < i64::MAX,
        }
    }

    /// Feed one value; NULL is skipped.
    pub fn accumulate(&mut self, value: Option<ScalarValue>)
        requires
            state_wf(old(self).state()),
            accumulate_ok(old(self).state(), opt_view(value)),
        ensures
            state_wf(final(self).state()),
            final(self).state() == accumulate_state(old(self).state(), opt_view(value)),
    {
        let v = match value {
            Some(v) => v,
            None => return,
        };
        match self {
            Accumulator::MinMax(a) => {
                let keep = match &a.current {
                    None => true,
                    Some(c) => compare(&v, c, a.keep_if),
                };
                if keep {
                    a.current = Some(v);
                }
            },
            Accumulator::Sum(a) => {
                let float = is_float(v.data_type());
                match &a.sum {
                    None => {
                        a.sum = Some(
                            if float {
                                ScalarValue::Float64(as_f64(&v))
                            } else {
                                ScalarValue::Int64(as_i64(&v))
                            },
                        );
                    },
                    Some(ScalarValue::Int64(s)) => {
                        let s = *s;
                        if float {
                            a.sum = Some(ScalarValue::Float64(add_bits(from_i64_bits(s), as_f64(&v))));
                        } else {
                            a.sum = Some(ScalarValue::Int64(s + as_i64(&v)));
                        }
                    },
                    Some(ScalarValue::Float64(s)) => {
                        let s = *s;
                        a.sum = Some(ScalarValue::Float64(add_bits(s, as_f64(&v))));
                    },
                    Some(_) => {},
                }
            },
            Accumulator::Avg(a) => {
                a.sum = add_bits(a.sum, as_f64(&v));
                a.count = a.count + 1;
            },
            Accumulator::Count(a) => {
                a.count = a.count + 1;
            },
        }
    }

    /// The aggregate's result so far.
    pub fn final_value(&self) -> (v: Option<ScalarValue>)
        ensures
            opt_view(v) == final_state_value(self.state()),
    {
        match self {
            Accumulator::MinMax(a) => copy_value(&a.current),
            Accumulator::Sum(a) => copy_value(&a.sum),
            Accumulator::Avg(a) => if a.count > 0 {
                Some(ScalarValue::Float64(div_bits(a.sum, from_i64_bits(a.count))))
            } else {
                None
            },
            Accumulator::Count(a) => Some(ScalarValue::Int64(a.count)),
        }
    }
}

/// How an aggregate is printed: its function's name and its input in
/// parentheses.
pub open spec fn aggregate_text(a: AggregateExpression) -> Seq<char> {
    aggregate_name(a.func) + seq!['('] + expr_text(a.expr) + seq![')']
}

impl AggregateExpression {
    /// How this aggregate is printed.
    pub fn to_text(&self) -> (text: String)
        ensures
            text@ == aggregate_text(*self),
    {
        let mut t = self.func.name();
        push_char(&mut t, '(');
        let e = self.expr.to_text();
        push_text(&mut t, &e);
        push_char(&mut t, ')');
        assert(t@ =~= aggregate_text(*self));
        t
    }

    /// A fresh accumulator for this aggregate's function.
    pub fn create_accumulator(&self) -> (acc: Accumulator)
        ensures
            acc.state() == initial_state(self.func),
            state_wf(acc.state()),
    {
        match self.func {
            AggregateFunc::Sum => Accumulator::Sum(SumAccumulator { sum: None }),
            AggregateFunc::Min => Accumulator::MinMax(MinMaxAccumulator { current: None, keep_if: Operator::Lt }),
            AggregateFunc::Max => Accumulator::MinMax(MinMaxAccumulator { current: None, keep_if: Operator::Gt }),
            AggregateFunc::Avg => Accumulator::Avg(AvgAccumulator { sum: 0, count: 0 }),
            AggregateFunc::Count => Accumulator::Count(CountAccumulator { count: 0 }),
        }
    }
}

// ---------------------------------------------------------------------
// What the operators mean
// ---------------------------------------------------------------------

/// The six comparisons agree with one another: of below, equal and above
/// exactly one holds; `!=` holds exactly when `=` does not; `<=` is `<` or
/// `=`, `>=` is `>` or `=`; and swapping the operands swaps `<` with `>`
/// and keeps `=`.
pub proof fn law_comparison_operators(a: Scalar, b: Scalar)
    ensures
        comparison_holds(compare_values(a, b), Operator::Neq) == !comparison_holds(compare_values(a, b), Operator::Eq),
        comparison_holds(compare_values(a, b), Operator::LtEq) == (comparison_holds(compare_values(a, b), Operator::Lt)
            || comparison_holds(compare_values(a, b), Operator::Eq)),
        comparison_holds(compare_values(a, b), Operator::GtEq) == (comparison_holds(compare_values(a, b), Operator::Gt)
            || comparison_holds(compare_values(a, b), Operator::Eq)),
        comparison_holds(compare_values(a, b), Operator::Lt) || comparison_holds(compare_values(a, b), Operator::Eq)
            || comparison_holds(compare_values(a, b), Operator::Gt),
        !(comparison_holds(compare_values(a, b), Operator::Lt) && comparison_holds(compare_values(a, b), Operator::Gt)),
        !(comparison_holds(compare_values(a, b), Operator::Lt) && comparison_holds(compare_values(a, b), Operator::Eq)),
        !(comparison_holds(compare_values(a, b), Operator::Gt) && comparison_holds(compare_values(a, b), Operator::Eq)),
        comparison_holds(compare_values(a, b), Operator::Lt) == comparison_holds(compare_values(b, a), Operator::Gt),
        comparison_holds(compare_values(a, b), Operator::Eq) == comparison_holds(compare_values(b, a), Operator::Eq),
{
    match (a, b) {
        (Scalar::Utf8(x), Scalar::Utf8(y)) => {
            lemma_lex_order(encode_utf8(x), encode_utf8(y), encode_utf8(y));
        },
        _ => {},
    }
}

/// Integers, of whatever widths and signs, compare as the numbers they
/// stand for.
pub proof fn law_compare_integers(a: Scalar, b: Scalar)
    requires
        is_integer_value(a),
        is_integer_value(b),
    ensures
        comparison_holds(compare_values(a, b), Operator::Eq) == (int_value(a) == int_value(b)),
        comparison_holds(compare_values(a, b), Operator::Neq) == (int_value(a) != int_value(b)),
        comparison_holds(compare_values(a, b), Operator::Lt) == (int_value(a) < int_value(b)),
        comparison_holds(compare_values(a, b), Operator::LtEq) == (int_value(a) <= int_value(b)),
        comparison_holds(compare_values(a, b), Operator::Gt) == (int_value(a) > int_value(b)),
        comparison_holds(compare_values(a, b), Operator::GtEq) == (int_value(a) >= int_value(b)),
{
}

/// Booleans compare with `false` below `true`.
pub proof fn law_compare_booleans(x: bool, y: bool)
    ensures
        comparison_holds(compare_values(Scalar::Boolean(x), Scalar::Boolean(y)), Operator::Eq) == (x == y),
        comparison_holds(compare_values(Scalar::Boolean(x), Scalar::Boolean(y)), Operator::Lt) == (!x && y),
        comparison_holds(compare_values(Scalar::Boolean(x), Scalar::Boolean(y)), Operator::Gt) == (x && !y),
{
}

/// `a` comes before `b` byte by byte: up to some position they agree, and
/// there `a` ends while `b` goes on, or `a`'s byte is the smaller.
pub open spec fn bytes_below(a: Seq<u8>, b: Seq<u8>) -> bool {
    exists|k: int|
        0 <= k <= a.len() && k <= b.len() && #[trigger] a.take(k) == b.take(k) && ((k == a.len() && k < b.len()) || (k
            < a.len() && k < b.len() && a[k] < b[k]))
}

proof fn lemma_lex_meaning(a: Seq<u8>, b: Seq<u8>)
    ensures
        (lex_order(a, b) == 0) == (a == b),
        (lex_order(a, b) < 0) == bytes_below(a, b),
    decreases a.len(),
{
    if a.len() == 0 {
        if b.len() > 0 {
            assert(a.take(0) =~= b.take(0));
        } else {
            assert(a =~= b);
        }
        if bytes_below(a, b) {
            assert(b.len() > 0);
        }
    } else if b.len() == 0 {
        if bytes_below(a, b) {
            let k = choose|k: int|
                0 <= k <= a.len() && k <= b.len() && #[trigger] a.take(k) == b.take(k) && ((k == a.len() && k < b.len())
                    || (k < a.len() && k < b.len() && a[k] < b[k]));
            assert(false);
        }
    } else {
        let a1 = a.drop_first();
        let b1 = b.drop_first();
        lemma_lex_meaning(a1, b1);
        if a[0] < b[0] {
            assert(a.take(0) =~= b.take(0));
            assert(a != b);
        } else if a[0] > b[0] {
            assert(a != b);
            if bytes_below(a, b) {
                let k = choose|k: int|
                    0 <= k <= a.len() && k <= b.len() && #[trigger] a.take(k) == b.take(k) && ((k == a.len() && k
                        < b.len()) || (k < a.len() && k < b.len() && a[k] < b[k]));
                if k > 0 {
                    assert(a.take(k)[0] == b.take(k)[0]);
                }
            }
        } else {
            if a1 == b1 {
                assert forall|i: int| 0 <= i < a.len() implies #[trigger] a[i] == b[i] by {
                    if i > 0 {
                        assert(a[i] == a1[i - 1]);
                        assert(b[i] == b1[i - 1]);
                    }
                }
                assert(a =~= b);
            }
            if a == b {
                assert(a1 =~= b1);
            }
            if bytes_below(a1, b1) {
                let k = choose|k: int|
                    0 <= k <= a1.len() && k <= b1.len() && #[trigger] a1.take(k) == b1.take(k) && ((k == a1.len() && k
                        < b1.len()) || (k < a1.len() && k < b1.len() && a1[k] < b1[k]));
                assert(a.take(k + 1) =~= b.take(k + 1)) by {
                    assert forall|i: int| 0 <= i < k + 1 implies #[trigger] a.take(k + 1)[i] == b.take(k + 1)[i] by {
                        if i > 0 {
                            assert(a1.take(k)[i - 1] == b1.take(k)[i - 1]);
                        }
                    }
                }
                assert(bytes_below(a, b));
            }
            if bytes_below(a, b) {
                let k = choose|k: int|
                    0 <= k <= a.len() && k <= b.len() && #[trigger] a.take(k) == b.take(k) && ((k == a.len() && k
                        < b.len()) || (k < a.len() && k < b.len() && a[k] < b[k]));
                assert(k > 0) by {
                    if k == 0 {
                        assert(a[0] < b[0]);
                    }
                }
                assert(a1.take(k - 1) =~= b1.take(k - 1)) by {
                    assert forall|i: int| 0 <= i < k - 1 implies #[trigger] a1.take(k - 1)[i] == b1.take(k - 1)[i] by {
                        assert(a.take(k)[i + 1] == b.take(k)[i + 1]);
                    }
                }
                assert(bytes_below(a1, b1));
            }
        }
    }
}

/// Strings compare by their UTF-8 bytes: two compare equal exactly when
/// they are the same string, and one is below another exactly when its
/// bytes come first (the first differing byte is smaller, or it is a
/// proper prefix).
pub proof fn law_compare_strings(x: Seq<char>, y: Seq<char>)
    ensures
        comparison_holds(compare_values(Scalar::Utf8(x), Scalar::Utf8(y)), Operator::Eq) == (x == y),
        comparison_holds(compare_values(Scalar::Utf8(x), Scalar::Utf8(y)), Operator::Lt) == bytes_below(
            encode_utf8(x),
            encode_utf8(y),
        ),
{
    lemma_lex_meaning(encode_utf8(x), encode_utf8(y));
    encode_utf8_decode_utf8(x);
    encode_utf8_decode_utf8(y);
}

/// Numbers enter binary64 math as the nearest binary64 value: integers by
/// the named conversions from `i64` (or, for `UInt64`, from `u64`),
/// `Float32` widened exactly, and `Float64` as it is.
pub proof fn law_float_inputs(v: Scalar)
    ensures
        v matches Scalar::Float64(x) ==> float_of(v) == x,
        v matches Scalar::Float32(x) ==> float_of(v) == f64_from_f32(x),
        v matches Scalar::UInt64(x) ==> float_of(v) == f64_from_u64(x),
        v matches Scalar::Int64(x) ==> float_of(v) == f64_from_i64(x),
        v matches Scalar::Int32(x) ==> float_of(v) == f64_from_i64(x as i64),
        v matches Scalar::UInt32(x) ==> float_of(v) == f64_from_i64(x as i64),
{
}

/// Two `Float64` values compare under the IEEE total order of their bits:
/// equal exactly when their bits are; among non-negative signs the larger
/// bits are above, among negative signs the larger bits are below, and
/// every value with the sign bit set is below every value without it.
pub proof fn law_compare_floats(x: u64, y: u64)
    ensures
        comparison_holds(compare_values(Scalar::Float64(x), Scalar::Float64(y)), Operator::Eq) == (x == y),
        x < 0x8000_0000_0000_0000u64 && y < 0x8000_0000_0000_0000u64 ==> comparison_holds(
            compare_values(Scalar::Float64(x), Scalar::Float64(y)),
            Operator::Lt,
        ) == (x < y),
        x >= 0x8000_0000_0000_0000u64 && y >= 0x8000_0000_0000_0000u64 ==> comparison_holds(
            compare_values(Scalar::Float64(x), Scalar::Float64(y)),
            Operator::Lt,
        ) == (x > y),
        x >= 0x8000_0000_0000_0000u64 && y < 0x8000_0000_0000_0000u64 ==> comparison_holds(
            compare_values(Scalar::Float64(x), Scalar::Float64(y)),
            Operator::Lt,
        ),
{
}

/// On two non-NULL booleans, `AND` is true exactly when both are and `OR`
/// exactly when either is; neither fails.
pub proof fn law_logic_operators(x: bool, y: bool, float: bool)
    ensures
        binary_value(Operator::And, Some(Scalar::Boolean(x)), Some(Scalar::Boolean(y)), float) == Some(
            Scalar::Boolean(x && y),
        ),
        binary_value(Operator::Or, Some(Scalar::Boolean(x)), Some(Scalar::Boolean(y)), float) == Some(
            Scalar::Boolean(x || y),
        ),
        !x ==> binary_value(Operator::And, Some(Scalar::Boolean(x)), Some(Scalar::Boolean(y)), float) == Some(
            Scalar::Boolean(false),
        ),
        y ==> binary_value(Operator::Or, Some(Scalar::Boolean(x)), Some(Scalar::Boolean(y)), float) == Some(
            Scalar::Boolean(true),
        ),
        binary_ok(Operator::And, Some(Scalar::Boolean(x)), Some(Scalar::Boolean(y)), float),
        binary_ok(Operator::Or, Some(Scalar::Boolean(x)), Some(Scalar::Boolean(y)), float),
{
}

/// A comparison of two non-NULL values is the boolean of the comparison,
/// and NULL on either side makes any binary expression NULL.
pub proof fn law_binary_rows(op: Operator, a: Scalar, b: Scalar, float: bool)
    ensures
        is_comparison(op) ==> binary_value(op, Some(a), Some(b), float) == Some(
            Scalar::Boolean(comparison_holds(compare_values(a, b), op)),
        ),
        binary_value(op, None, Some(b), float) is None,
        binary_value(op, Some(a), None, float) is None,
        binary_value(op, None, None, float) is None,
{
}

/// Integer math is exact: `+`, `-` and `*` give the sum, difference and
/// product; `/` and `%` give the quotient and remainder of division
/// truncated toward zero: `a == q * b + r`, `r` smaller than `b` in
/// magnitude and never of the opposite sign to `a`.
pub proof fn law_integer_math(a: i64, b: i64)
    ensures
        int_math_value(a, b, Operator::Add) == a as int + b as int,
        int_math_value(a, b, Operator::Subtract) == a as int - b as int,
        int_math_value(a, b, Operator::Multiply) == a as int * b as int,
        b != 0 ==> int_math_value(a, b, Operator::Divide) * (b as int) + int_math_value(a, b, Operator::Modulus)
            == a as int,
        b != 0 ==> magnitude(int_math_value(a, b, Operator::Modulus)) < magnitude(b as int),
        b != 0 ==> (a >= 0 ==> int_math_value(a, b, Operator::Modulus) >= 0),
        b != 0 ==> (a <= 0 ==> int_math_value(a, b, Operator::Modulus) <= 0),
{
    if b != 0 {
        let m = magnitude(a as int);
        let n = magnitude(b as int);
        lemma_fundamental_div_mod(m, n);
        let q = m / n;
        let r = m % n;
        assert(0 <= r < n) by {
            vstd::arithmetic::div_mod::lemma_mod_pos_bound(m, n);
        }
        assert(m == n * q + r);
        assert(q >= 0) by {
            vstd::arithmetic::div_mod::lemma_div_pos_is_pos(m, n);
        }
        let ai = a as int;
        let bi = b as int;
        if ai >= 0 && bi > 0 {
            assert(q * bi + r == ai) by (nonlinear_arith)
                requires m == n * q + r, m == ai, n == bi;
        } else if ai >= 0 {
            assert((-q) * bi + r == ai) by (nonlinear_arith)
                requires m == n * q + r, m == ai, n == -bi;
        } else if bi > 0 {
            assert((-q) * bi + (-r) == ai) by (nonlinear_arith)
                requires m == n * q + r, m == -ai, n == bi;
        } else {
            assert(q * bi + (-r) == ai) by (nonlinear_arith)
                requires m == n * q + r, m == -ai, n == -bi;
        }
    }
}

/// Binary64 math on bits: each operator is the IEEE operation of the same
/// name, through the named results of `rustc_apfloat`.
pub proof fn law_float_math(a: u64, b: u64)
    ensures
        float_math_value(a, b, Operator::Add) == f64_sum(a, b),
        float_math_value(a, b, Operator::Subtract) == f64_difference(a, b),
        float_math_value(a, b, Operator::Multiply) == f64_product(a, b),
        float_math_value(a, b, Operator::Divide) == f64_quotient(a, b),
        float_math_value(a, b, Operator::Modulus) == f64_remainder(a, b),
{
}

/// Integer columns combine as exact integer math: the row of `a op b` for
/// two `Int64` values is the `Int64` of the exact result, whenever that
/// result can be computed (it fits `i64`, and nothing is divided by zero).
pub proof fn law_integer_rows(a: i64, b: i64, op: Operator)
    requires
        is_math(op),
        binary_ok(op, Some(Scalar::Int64(a)), Some(Scalar::Int64(b)), false),
    ensures
        binary_value(op, Some(Scalar::Int64(a)), Some(Scalar::Int64(b)), false) matches Some(Scalar::Int64(r)) && (
        op == Operator::Add ==> r == a + b) && (op == Operator::Subtract ==> r == a - b) && (op
            == Operator::Multiply ==> r == a * b),
{
    law_integer_math(a, b);
}

} // verus!
