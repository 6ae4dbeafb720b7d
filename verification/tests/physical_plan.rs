use photon::engine::datasource::{DataSource, InMemoryDataSource};
use photon::engine::datatypes::{ArrowFieldVector, ColumnVector, DataType, Field, RecordBatch, ScalarValue, Schema};
use photon::engine::logical_expr::{AggregateFunc, Operator};
use photon::engine::physical_expr::{
    AggregateExpression, BinaryExpression, ColumnExpression, Expression, LiteralExpression,
};
use photon::engine::physical_plan::{HashAggregateExec, PhysicalPlan, ProjectionExec, ScanExec, SelectionExec};

fn f64_value(x: f64) -> ScalarValue {
    ScalarValue::Float64(x.to_bits())
}

fn column(t: DataType, values: Vec<Option<ScalarValue>>) -> ColumnVector {
    ColumnVector::Arrow(ArrowFieldVector::new(t, values))
}

fn schema() -> Schema {
    Schema::new(vec![
        Field::new("id", DataType::Int64, false),
        Field::new("state", DataType::Utf8, false),
        Field::new("salary", DataType::Int64, false),
    ])
}

fn batch(ids: Vec<i64>, states: Vec<&str>, salaries: Vec<i64>) -> RecordBatch {
    RecordBatch::new(
        schema(),
        vec![
            column(DataType::Int64, ids.into_iter().map(|v| Some(ScalarValue::Int64(v))).collect()),
            column(DataType::Utf8, states.into_iter().map(|v| Some(ScalarValue::Utf8(v.to_string()))).collect()),
            column(DataType::Int64, salaries.into_iter().map(|v| Some(ScalarValue::Int64(v))).collect()),
        ],
    )
}

/// Two batches so operators are exercised batch by batch, not one-shot.
fn source() -> DataSource {
    DataSource::InMemory(InMemoryDataSource::new(
        schema(),
        vec![batch(vec![1, 2], vec!["CO", "CA"], vec![12000, 10000]), batch(vec![3], vec!["CO"], vec![11500])],
    ))
}

fn scan() -> PhysicalPlan {
    PhysicalPlan::Scan(ScanExec::new(source(), vec![]))
}

fn col_at(index: usize) -> Expression {
    Expression::Column(ColumnExpression { index })
}

#[test]
fn scan_exec_streams_source_batches() {
    let scan = scan();

    assert_eq!(scan.schema().fields().len(), 3);
    let batches = scan.execute();
    assert_eq!(batches.len(), 2);
    assert_eq!(batches.iter().map(|b| b.row_count()).sum::<usize>(), 3);
    assert!(scan.children().is_empty());
}

#[test]
fn projection_exec_computes_expression_columns() {
    let out_schema =
        Schema::new(vec![Field::new("id", DataType::Int64, false), Field::new("mult", DataType::Int64, true)]);
    let proj = PhysicalPlan::Projection(ProjectionExec::new(
        scan(),
        out_schema,
        vec![
            col_at(0),
            Expression::Binary(BinaryExpression {
                left: Box::new(col_at(2)),
                op: Operator::Multiply,
                right: Box::new(Expression::Literal(LiteralExpression::new(ScalarValue::Int64(2)))),
            }),
        ],
    ));

    let batches = proj.execute();
    assert_eq!(batches[0].column_count(), 2);
    assert_eq!(batches[0].column(1).value(0), Some(ScalarValue::Int64(24000)));
    assert_eq!(batches[1].column(1).value(0), Some(ScalarValue::Int64(23000)));
    assert_eq!(proj.to_text(), "ProjectionExec: #0, #2 * 2");
}

#[test]
fn selection_exec_filters_within_each_batch() {
    let sel = PhysicalPlan::Selection(SelectionExec::new(
        scan(),
        Expression::Binary(BinaryExpression {
            left: Box::new(col_at(1)),
            op: Operator::Eq,
            right: Box::new(Expression::Literal(LiteralExpression::new(ScalarValue::Utf8("CO".to_string())))),
        }),
    ));

    let batches = sel.execute();
    // Schema unchanged, rows filtered per batch: [1 of 2], [1 of 1].
    assert_eq!(sel.schema().fields().len(), 3);
    assert_eq!(batches[0].row_count(), 1);
    assert_eq!(batches[0].column(0).value(0), Some(ScalarValue::Int64(1)));
    assert_eq!(batches[1].row_count(), 1);
    assert_eq!(batches[1].column(0).value(0), Some(ScalarValue::Int64(3)));
    assert_eq!(sel.to_text(), "SelectionExec: #1 = 'CO'");
}

/// Find the output row whose first (group-key) column equals `key`.
fn group_row(batch: &RecordBatch, key: &str) -> usize {
    (0..batch.row_count())
        .find(|&i| batch.column(0).value(i) == Some(ScalarValue::Utf8(key.to_string())))
        .unwrap_or_else(|| panic!("no group {key:?} in output"))
}

#[test]
fn hash_aggregate_groups_across_batches() {
    let out_schema = Schema::new(vec![
        Field::new("state", DataType::Utf8, false),
        Field::new("SUM", DataType::Int64, true),
        Field::new("COUNT", DataType::Int64, true),
    ]);
    let agg = PhysicalPlan::HashAggregate(HashAggregateExec::new(
        scan(),
        out_schema,
        vec![col_at(1)],
        vec![
            AggregateExpression { func: AggregateFunc::Sum, expr: col_at(2) },
            AggregateExpression { func: AggregateFunc::Count, expr: col_at(0) },
        ],
    ));

    let batches = agg.execute();
    // Pipeline breaker: two input batches, ONE output batch.
    assert_eq!(batches.len(), 1);
    let batch = &batches[0];
    assert_eq!(batch.row_count(), 2); // CO, CA

    // CO spans both input batches: 12000 + 11500.
    let co = group_row(batch, "CO");
    assert_eq!(batch.column(1).value(co), Some(ScalarValue::Int64(23500)));
    assert_eq!(batch.column(2).value(co), Some(ScalarValue::Int64(2)));

    let ca = group_row(batch, "CA");
    assert_eq!(batch.column(1).value(ca), Some(ScalarValue::Int64(10000)));
    assert_eq!(batch.column(2).value(ca), Some(ScalarValue::Int64(1)));
}

#[test]
fn hash_aggregate_with_no_groups_is_one_global_row() {
    let out_schema = Schema::new(vec![
        Field::new("MIN", DataType::Int64, true),
        Field::new("MAX", DataType::Int64, true),
        Field::new("AVG", DataType::Float64, true),
    ]);
    let agg = PhysicalPlan::HashAggregate(HashAggregateExec::new(
        scan(),
        out_schema,
        vec![], // no GROUP BY: every row keys to the empty tuple
        vec![
            AggregateExpression { func: AggregateFunc::Min, expr: col_at(2) },
            AggregateExpression { func: AggregateFunc::Max, expr: col_at(2) },
            AggregateExpression { func: AggregateFunc::Avg, expr: col_at(2) },
        ],
    ));

    let batch = agg.execute().into_iter().next().unwrap();
    assert_eq!(batch.row_count(), 1);
    assert_eq!(batch.column(0).value(0), Some(ScalarValue::Int64(10000)));
    assert_eq!(batch.column(1).value(0), Some(ScalarValue::Int64(12000)));
    assert_eq!(batch.column(2).value(0), Some(f64_value(11166.666666666666)));
}

#[test]
fn accumulators_skip_nulls() {
    let schema = Schema::new(vec![Field::new("v", DataType::Int64, true)]);
    let data = RecordBatch::new(
        Schema::new(vec![Field::new("v", DataType::Int64, true)]),
        vec![column(DataType::Int64, vec![Some(ScalarValue::Int64(10)), None, Some(ScalarValue::Int64(20))])],
    );
    let source = DataSource::InMemory(InMemoryDataSource::new(schema, vec![data]));

    let scan = PhysicalPlan::Scan(ScanExec::new(source, vec![]));
    let out_schema =
        Schema::new(vec![Field::new("COUNT", DataType::Int64, true), Field::new("AVG", DataType::Float64, true)]);
    let agg = PhysicalPlan::HashAggregate(HashAggregateExec::new(
        scan,
        out_schema,
        vec![],
        vec![
            AggregateExpression { func: AggregateFunc::Count, expr: col_at(0) },
            AggregateExpression { func: AggregateFunc::Avg, expr: col_at(0) },
        ],
    ));

    let batch = agg.execute().into_iter().next().unwrap();
    assert_eq!(batch.column(0).value(0), Some(ScalarValue::Int64(2))); // NULL not counted
    assert_eq!(batch.column(1).value(0), Some(f64_value(15.0))); // (10+20)/2
}

#[test]
fn hash_aggregate_emits_groups_in_first_seen_order() {
    let out_schema =
        Schema::new(vec![Field::new("state", DataType::Utf8, false), Field::new("MAX", DataType::Int64, true)]);
    let agg = PhysicalPlan::HashAggregate(HashAggregateExec::new(
        scan(),
        out_schema,
        vec![col_at(1)],
        vec![AggregateExpression { func: AggregateFunc::Max, expr: col_at(0) }],
    ));
    let batch = &agg.execute()[0];
    assert_eq!(batch.column(0).value(0), Some(ScalarValue::Utf8("CO".to_string())));
    assert_eq!(batch.column(0).value(1), Some(ScalarValue::Utf8("CA".to_string())));
    assert_eq!(batch.column(1).value(0), Some(ScalarValue::Int64(3)));
    assert_eq!(agg.to_text(), "HashAggregateExec: groupExpr=[#1], aggregateExpr=[MAX(#0)]");
    assert_eq!(agg.children().len(), 1);
}

#[test]
fn aggregate_over_no_rows_emits_no_groups() {
    let empty = DataSource::InMemory(InMemoryDataSource::new(schema(), vec![]));
    let out_schema = Schema::new(vec![Field::new("COUNT", DataType::Int64, true)]);
    let agg = PhysicalPlan::HashAggregate(HashAggregateExec::new(
        PhysicalPlan::Scan(ScanExec::new(empty, vec![])),
        out_schema,
        vec![],
        vec![AggregateExpression { func: AggregateFunc::Count, expr: col_at(0) }],
    ));
    let batches = agg.execute();
    assert_eq!(batches.len(), 1);
    assert_eq!(batches[0].row_count(), 0);
    assert_eq!(batches[0].column_count(), 1);
}

#[test]
fn scan_exec_with_projection_prints_its_names() {
    let scan = PhysicalPlan::Scan(ScanExec::new(source(), vec!["salary".to_string(), "id".to_string()]));
    assert_eq!(scan.to_text(), r#"ScanExec: projection=["salary", "id"]"#);
    let schema = scan.schema();
    assert_eq!(schema.field(0).name(), "salary");
    let batches = scan.execute();
    assert_eq!(batches[1].column(0).value(0), Some(ScalarValue::Int64(11500)));
}
