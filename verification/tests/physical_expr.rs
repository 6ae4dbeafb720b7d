use photon::engine::datatypes::{ArrowFieldVector, ColumnVector, DataType, Field, RecordBatch, ScalarValue, Schema};
use photon::engine::logical_expr::{AggregateFunc, Operator};
use photon::engine::physical_expr::{
    compare, AggregateExpression, BinaryExpression, ColumnExpression, Expression, LiteralExpression,
};

fn f64_value(x: f64) -> ScalarValue {
    ScalarValue::Float64(x.to_bits())
}

fn column(t: DataType, values: Vec<Option<ScalarValue>>) -> ColumnVector {
    ColumnVector::Arrow(ArrowFieldVector::new(t, values))
}

fn test_batch() -> RecordBatch {
    let schema = Schema::new(vec![Field::new("id", DataType::Int64, false), Field::new("name", DataType::Utf8, false)]);
    RecordBatch::new(
        schema,
        vec![
            column(DataType::Int64, (1..=3).map(|v| Some(ScalarValue::Int64(v))).collect()),
            column(DataType::Utf8, ["a", "b", "c"].iter().map(|v| Some(ScalarValue::Utf8(v.to_string()))).collect()),
        ],
    )
}

fn col_at(index: usize) -> Expression {
    Expression::Column(ColumnExpression { index })
}

fn lit_val(value: ScalarValue) -> Expression {
    Expression::Literal(LiteralExpression::new(value))
}

/// A float constant, printed the way Rust prints the number.
fn lit_f64(x: f64) -> Expression {
    Expression::Literal(LiteralExpression::with_text(f64_value(x), format!("{}", x)))
}

fn bin(left: Expression, op: Operator, right: Expression) -> Expression {
    Expression::Binary(BinaryExpression { left: Box::new(left), op, right: Box::new(right) })
}

#[test]
fn column_expression_returns_the_indexed_column() {
    let batch = test_batch();
    let expr = col_at(1);

    let col = expr.evaluate(&batch);
    assert_eq!(col.size(), 3);
    assert_eq!(col.value(0), Some(ScalarValue::Utf8("a".to_string())));
    assert_eq!(expr.to_text(), "#1");
}

#[test]
fn literal_expression_sizes_itself_to_the_batch() {
    let batch = test_batch();
    let expr = lit_f64(0.9);

    let col = expr.evaluate(&batch);
    assert_eq!(col.size(), 3);
    assert_eq!(col.data_type(), DataType::Float64);
    assert_eq!(col.value(2), Some(f64_value(0.9)));
    assert_eq!(expr.to_text(), "0.9");
}

#[test]
fn expressions_compose_as_trait_objects() {
    let batch = test_batch();
    let exprs: Vec<Expression> = vec![col_at(0), lit_val(ScalarValue::Int64(7))];

    let cols: Vec<_> = exprs.iter().map(|e| e.evaluate(&batch)).collect();
    assert_eq!(cols[0].value(1), Some(ScalarValue::Int64(2)));
    assert_eq!(cols[1].value(1), Some(ScalarValue::Int64(7)));
}

/// id: Int64 [1, 2, null], score: Float64 [0.5, 2.5, 9.0], name: Utf8.
fn null_batch() -> RecordBatch {
    let schema = Schema::new(vec![
        Field::new("id", DataType::Int64, true),
        Field::new("score", DataType::Float64, false),
        Field::new("name", DataType::Utf8, false),
    ]);
    RecordBatch::new(
        schema,
        vec![
            column(DataType::Int64, vec![Some(ScalarValue::Int64(1)), Some(ScalarValue::Int64(2)), None]),
            column(DataType::Float64, [0.5, 2.5, 9.0].iter().map(|v| Some(f64_value(*v))).collect()),
            column(
                DataType::Utf8,
                ["ann", "bob", "ann"].iter().map(|v| Some(ScalarValue::Utf8(v.to_string()))).collect(),
            ),
        ],
    )
}

#[test]
fn integer_comparison_yields_booleans() {
    let batch = null_batch();
    let expr = bin(col_at(0), Operator::Gt, lit_val(ScalarValue::Int64(1)));

    let out = expr.evaluate(&batch);
    assert_eq!(out.data_type(), DataType::Boolean);
    assert_eq!(out.value(0), Some(ScalarValue::Boolean(false)));
    assert_eq!(out.value(1), Some(ScalarValue::Boolean(true)));
    assert_eq!(out.value(2), None); // NULL comparison -> NULL
}

#[test]
fn mixed_int_float_comparison_coerces() {
    let batch = null_batch();
    // Int64 column vs Float64 column: both normalized to binary64.
    let expr = bin(col_at(0), Operator::Lt, col_at(1));

    let out = expr.evaluate(&batch);
    assert_eq!(out.value(0), Some(ScalarValue::Boolean(false))); // 1 < 0.5
    assert_eq!(out.value(1), Some(ScalarValue::Boolean(true))); // 2 < 2.5
}

#[test]
fn string_equality_works() {
    let batch = null_batch();
    let expr = bin(col_at(2), Operator::Eq, lit_val(ScalarValue::Utf8("ann".into())));

    let out = expr.evaluate(&batch);
    assert_eq!(out.value(0), Some(ScalarValue::Boolean(true)));
    assert_eq!(out.value(1), Some(ScalarValue::Boolean(false)));
    assert_eq!(out.value(2), Some(ScalarValue::Boolean(true)));
}

#[test]
fn integer_math_stays_integer() {
    let batch = null_batch();
    let expr = bin(col_at(0), Operator::Multiply, lit_val(ScalarValue::Int64(10)));

    let out = expr.evaluate(&batch);
    assert_eq!(out.data_type(), DataType::Int64);
    assert_eq!(out.value(1), Some(ScalarValue::Int64(20)));
    assert_eq!(out.value(2), None); // NULL propagates through math
}

#[test]
fn mixed_math_widens_to_float64() {
    let batch = null_batch();
    let expr = bin(col_at(0), Operator::Add, col_at(1));

    let out = expr.evaluate(&batch);
    assert_eq!(out.data_type(), DataType::Float64);
    assert_eq!(out.value(0), Some(f64_value(1.5)));
}

#[test]
fn boolean_algebra_composes() {
    let batch = null_batch();
    // (id >= 1) AND (score < 3.0)
    let expr = bin(
        bin(col_at(0), Operator::GtEq, lit_val(ScalarValue::Int64(1))),
        Operator::And,
        bin(col_at(1), Operator::Lt, lit_f64(3.0)),
    );

    let out = expr.evaluate(&batch);
    assert_eq!(out.value(0), Some(ScalarValue::Boolean(true)));
    assert_eq!(out.value(1), Some(ScalarValue::Boolean(true)));
    assert_eq!(out.value(2), None); // NULL AND false -> NULL (simplified)
    assert_eq!(expr.to_text(), "#0 >= 1 AND #1 < 3");
}

#[test]
fn integer_division_truncates_toward_zero() {
    let schema = Schema::new(vec![Field::new("x", DataType::Int64, false)]);
    let batch = RecordBatch::new(
        schema,
        vec![column(DataType::Int64, vec![Some(ScalarValue::Int64(-7)), Some(ScalarValue::Int64(7))])],
    );
    let div = bin(col_at(0), Operator::Divide, lit_val(ScalarValue::Int64(2))).evaluate(&batch);
    assert_eq!(div.value(0), Some(ScalarValue::Int64(-3)));
    assert_eq!(div.value(1), Some(ScalarValue::Int64(3)));
    let rem = bin(col_at(0), Operator::Modulus, lit_val(ScalarValue::Int64(2))).evaluate(&batch);
    assert_eq!(rem.value(0), Some(ScalarValue::Int64(-1)));
    assert_eq!(rem.value(1), Some(ScalarValue::Int64(1)));
    let sub = bin(col_at(0), Operator::Subtract, lit_val(ScalarValue::Int64(2))).evaluate(&batch);
    assert_eq!(sub.value(0), Some(ScalarValue::Int64(-9)));
}

#[test]
fn float_math_follows_ieee() {
    let batch = null_batch();
    let prod = bin(col_at(1), Operator::Multiply, lit_f64(0.1)).evaluate(&batch);
    assert_eq!(prod.value(1), Some(f64_value(2.5 * 0.1)));
    let quot = bin(col_at(1), Operator::Divide, lit_f64(3.0)).evaluate(&batch);
    assert_eq!(quot.value(2), Some(f64_value(9.0 / 3.0)));
    assert_eq!(quot.value(0), Some(f64_value(0.5 / 3.0)));
    let diff = bin(col_at(1), Operator::Subtract, lit_f64(0.25)).evaluate(&batch);
    assert_eq!(diff.value(0), Some(f64_value(0.25)));
    // Remainder of the quotient truncated toward zero: 9 % 5 is 4, not -1.
    let rem = bin(col_at(1), Operator::Modulus, lit_f64(5.0)).evaluate(&batch);
    assert_eq!(rem.value(2), Some(f64_value(9.0 % 5.0)));
    let by_zero = bin(col_at(1), Operator::Divide, lit_f64(0.0)).evaluate(&batch);
    assert_eq!(by_zero.value(0), Some(f64_value(f64::INFINITY)));
}

#[test]
fn comparisons_cover_every_operator() {
    let batch = null_batch();
    let ops = [Operator::Eq, Operator::Neq, Operator::Gt, Operator::GtEq, Operator::Lt, Operator::LtEq];
    let got: Vec<_> = ops
        .iter()
        .map(|op| bin(col_at(0), *op, lit_val(ScalarValue::Int64(2))).evaluate(&batch).value(1))
        .collect();
    let b = |x: bool| Some(ScalarValue::Boolean(x));
    assert_eq!(got, vec![b(true), b(false), b(false), b(true), b(false), b(true)]);
    let or = bin(
        bin(col_at(2), Operator::Eq, lit_val(ScalarValue::Utf8("bob".into()))),
        Operator::Or,
        bin(col_at(0), Operator::Eq, lit_val(ScalarValue::Int64(1))),
    )
    .evaluate(&batch);
    assert_eq!(or.value(0), b(true));
    assert_eq!(or.value(1), b(true));
    assert_eq!(or.value(2), None);
    let strings = bin(col_at(2), Operator::Lt, lit_val(ScalarValue::Utf8("b".into()))).evaluate(&batch);
    assert_eq!(strings.value(0), b(true));
    assert_eq!(strings.value(1), b(false));
}

#[test]
fn aggregate_expressions_print_their_function() {
    let a = AggregateExpression { func: AggregateFunc::Max, expr: col_at(5) };
    assert_eq!(a.to_text(), "MAX(#5)");
    let c = AggregateExpression { func: AggregateFunc::Count, expr: col_at(0) };
    let mut acc = c.create_accumulator();
    acc.accumulate(Some(ScalarValue::Int64(4)));
    acc.accumulate(None);
    acc.accumulate(Some(ScalarValue::Int64(9)));
    assert_eq!(acc.final_value(), Some(ScalarValue::Int64(2)));
}

#[test]
fn accumulators_fold_their_inputs() {
    let feed = |func: AggregateFunc, values: Vec<Option<ScalarValue>>| {
        let mut acc = AggregateExpression { func, expr: col_at(0) }.create_accumulator();
        for v in values {
            acc.accumulate(v);
        }
        acc.final_value()
    };
    let ints = || vec![Some(ScalarValue::Int32(3)), None, Some(ScalarValue::Int32(-5)), Some(ScalarValue::Int32(4))];
    assert_eq!(feed(AggregateFunc::Sum, ints()), Some(ScalarValue::Int64(2)));
    assert_eq!(feed(AggregateFunc::Min, ints()), Some(ScalarValue::Int32(-5)));
    assert_eq!(feed(AggregateFunc::Max, ints()), Some(ScalarValue::Int32(4)));
    assert_eq!(feed(AggregateFunc::Count, ints()), Some(ScalarValue::Int64(3)));
    assert_eq!(feed(AggregateFunc::Avg, ints()), Some(f64_value(2.0 / 3.0)));
    // SUM turns to binary64 once a float shows up.
    let mixed = vec![Some(ScalarValue::Int64(1)), Some(f64_value(0.5))];
    assert_eq!(feed(AggregateFunc::Sum, mixed), Some(f64_value(1.5)));
    // Nothing fed: SUM, MIN and AVG are NULL, COUNT is 0.
    assert_eq!(feed(AggregateFunc::Sum, vec![None]), None);
    assert_eq!(feed(AggregateFunc::Min, vec![]), None);
    assert_eq!(feed(AggregateFunc::Avg, vec![]), None);
    assert_eq!(feed(AggregateFunc::Count, vec![None]), Some(ScalarValue::Int64(0)));
    // MIN and MAX over strings compare them.
    let strings = vec![Some(ScalarValue::Utf8("pear".into())), Some(ScalarValue::Utf8("apple".into()))];
    assert_eq!(feed(AggregateFunc::Min, strings), Some(ScalarValue::Utf8("apple".into())));
}

#[test]
fn float32_values_widen_exactly() {
    let schema = Schema::new(vec![Field::new("x", DataType::Float32, false)]);
    let batch = RecordBatch::new(
        schema,
        vec![column(
            DataType::Float32,
            vec![Some(ScalarValue::Float32(1.5f32.to_bits())), Some(ScalarValue::Float32(0.1f32.to_bits()))],
        )],
    );
    let sum = bin(col_at(0), Operator::Add, lit_f64(0.25)).evaluate(&batch);
    assert_eq!(sum.data_type(), DataType::Float64);
    assert_eq!(sum.value(0), Some(f64_value(1.75)));
    assert_eq!(sum.value(1), Some(f64_value(0.1f32 as f64 + 0.25)));
}

#[test]
fn float_comparisons_order_negatives_and_zero() {
    let schema = Schema::new(vec![Field::new("x", DataType::Float64, false)]);
    let batch = RecordBatch::new(
        schema,
        vec![column(DataType::Float64, [-2.5, -0.0, 0.0, 3.0].iter().map(|v| Some(f64_value(*v))).collect())],
    );
    let lt = bin(col_at(0), Operator::Lt, lit_f64(-1.0)).evaluate(&batch);
    let b = |x: bool| Some(ScalarValue::Boolean(x));
    assert_eq!(lt.value(0), b(true));
    assert_eq!(lt.value(1), b(false));
    assert_eq!(lt.value(3), b(false));
    let gt = bin(col_at(0), Operator::Gt, lit_val(ScalarValue::Int64(2))).evaluate(&batch);
    assert_eq!(gt.value(3), b(true));
    assert_eq!(gt.value(2), b(false));
}

#[test]
#[should_panic(expected = "expected a numeric value")]
fn math_on_strings_panics() {
    let batch = null_batch();
    let expr = bin(col_at(2), Operator::Add, lit_val(ScalarValue::Int64(1)));
    expr.try_evaluate(&batch).expect("expected a numeric value");
}

#[test]
fn try_evaluate_refuses_what_would_panic() {
    let batch = null_batch();
    // A column past the last one.
    assert!(col_at(3).try_evaluate(&batch).is_none());
    // Integer overflow and division by zero.
    let big = bin(col_at(0), Operator::Multiply, lit_val(ScalarValue::Int64(i64::MAX)));
    assert!(big.try_evaluate(&batch).is_none());
    let by_zero = bin(col_at(0), Operator::Divide, lit_val(ScalarValue::Int64(0)));
    assert!(by_zero.try_evaluate(&batch).is_none());
    // AND needs booleans on its left.
    let and = bin(col_at(0), Operator::And, lit_val(ScalarValue::Boolean(true)));
    assert!(and.try_evaluate(&batch).is_none());
    // What runs gives what `evaluate` gives.
    let ok = bin(col_at(0), Operator::Multiply, lit_val(ScalarValue::Int64(10)));
    assert_eq!(ok.try_evaluate(&batch).unwrap().value(1), Some(ScalarValue::Int64(20)));
}

#[test]
fn large_unsigned_values_compare_by_their_value() {
    let big = ScalarValue::UInt64(u64::MAX);
    assert!(compare(&big, &ScalarValue::Int64(0), Operator::Gt));
    assert!(!compare(&big, &ScalarValue::Int64(0), Operator::Lt));
    assert!(compare(&big, &ScalarValue::Int64(-1), Operator::Gt));
    assert!(compare(&ScalarValue::Int64(i64::MAX), &big, Operator::Lt));
    assert!(compare(&big, &ScalarValue::UInt64(u64::MAX), Operator::Eq));
    // Against a float the unsigned value is widened as an unsigned number.
    assert!(compare(&big, &f64_value(0.0), Operator::Gt));
    assert!(compare(&big, &f64_value(1.8e19), Operator::Gt));
    assert!(compare(&big, &f64_value(1.9e19), Operator::Lt));
}

#[test]
fn large_unsigned_values_widen_to_float_by_their_value() {
    let schema = Schema::new(vec![Field::new("u", DataType::UInt64, false)]);
    let batch = RecordBatch::new(schema, vec![column(DataType::UInt64, vec![Some(ScalarValue::UInt64(u64::MAX))])]);
    let sum = bin(col_at(0), Operator::Add, lit_f64(0.0)).evaluate(&batch);
    assert_eq!(sum.value(0), Some(f64_value(u64::MAX as f64)));
    let gt = bin(col_at(0), Operator::Gt, lit_val(ScalarValue::Int64(0))).evaluate(&batch);
    assert_eq!(gt.value(0), Some(ScalarValue::Boolean(true)));
}

fn fold(func: AggregateFunc, values: Vec<Option<ScalarValue>>) -> Option<ScalarValue> {
    let mut acc = AggregateExpression { func, expr: col_at(0) }.create_accumulator();
    for v in values {
        assert!(acc.accepts(&v));
        acc.accumulate(v);
    }
    acc.final_value()
}

#[test]
fn min_and_max_fold_to_an_extreme_value() {
    let vs = || vec![Some(ScalarValue::Int64(3)), None, Some(ScalarValue::Int64(1)), Some(ScalarValue::Int64(2))];
    assert_eq!(fold(AggregateFunc::Min, vs()), Some(ScalarValue::Int64(1)));
    assert_eq!(fold(AggregateFunc::Max, vs()), Some(ScalarValue::Int64(3)));
    assert_eq!(fold(AggregateFunc::Min, vec![None, None]), None);
    // Ties keep the first value seen.
    let words = || vec![Some(ScalarValue::Utf8("b".into())), Some(ScalarValue::Utf8("a".into())), Some(ScalarValue::Utf8("a".into()))];
    assert_eq!(fold(AggregateFunc::Min, words()), Some(ScalarValue::Utf8("a".into())));
    assert_eq!(fold(AggregateFunc::Max, words()), Some(ScalarValue::Utf8("b".into())));
    let big = vec![Some(ScalarValue::UInt64(5)), Some(ScalarValue::UInt64(u64::MAX)), Some(ScalarValue::UInt64(0))];
    assert_eq!(fold(AggregateFunc::Max, big), Some(ScalarValue::UInt64(u64::MAX)));
}

#[test]
fn sum_folds_in_integers_then_in_binary64() {
    assert_eq!(fold(AggregateFunc::Sum, vec![None, None]), None);
    let ints = vec![Some(ScalarValue::Int8(-3)), None, Some(ScalarValue::UInt32(10)), Some(ScalarValue::Int64(7))];
    assert_eq!(fold(AggregateFunc::Sum, ints), Some(ScalarValue::Int64(14)));
    // Integers before the first float are summed exactly, then converted.
    let mixed = vec![Some(ScalarValue::Int64(1)), Some(ScalarValue::Int64(2)), Some(f64_value(0.5)), Some(ScalarValue::Int64(4))];
    assert_eq!(fold(AggregateFunc::Sum, mixed), Some(f64_value(7.5)));
    let floats = vec![None, Some(f64_value(0.1)), Some(f64_value(0.2))];
    assert_eq!(fold(AggregateFunc::Sum, floats), Some(f64_value(0.1 + 0.2)));
}

#[test]
fn count_and_avg_fold_over_the_non_null_values() {
    let vs = || vec![None, Some(ScalarValue::Int64(1)), None, Some(f64_value(2.0))];
    assert_eq!(fold(AggregateFunc::Count, vs()), Some(ScalarValue::Int64(2)));
    assert_eq!(fold(AggregateFunc::Avg, vs()), Some(f64_value(1.5)));
    assert_eq!(fold(AggregateFunc::Avg, vec![None]), None);
    assert_eq!(fold(AggregateFunc::Count, vec![]), Some(ScalarValue::Int64(0)));
}

#[test]
fn min_and_max_over_mixed_integer_types() {
    let vs = || vec![Some(ScalarValue::Int8(5)), Some(ScalarValue::UInt64(u64::MAX)), None, Some(ScalarValue::Int64(-2))];
    assert_eq!(fold(AggregateFunc::Min, vs()), Some(ScalarValue::Int64(-2)));
    assert_eq!(fold(AggregateFunc::Max, vs()), Some(ScalarValue::UInt64(u64::MAX)));
    let floats = vec![Some(ScalarValue::Float32(2.5f32.to_bits())), Some(f64_value(-1.0)), Some(f64_value(3.0))];
    assert_eq!(fold(AggregateFunc::Min, floats), Some(f64_value(-1.0)));
}
