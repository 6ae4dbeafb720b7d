use photon::engine::dataframe::DataFrame;
use photon::engine::datasource::{CsvDataSource, ParquetDataSource};
use photon::engine::datatypes::{ArrowFieldVector, ColumnVector, DataType, Field, RecordBatch, ScalarValue, Schema};
use photon::engine::execution::{ExecutionContext, DEFAULT_BATCH_SIZE};
use photon::engine::logical_expr::{avg, col, count, lit, max, sum};
use photon::engine::logical_plan::format_plan;
use photon::engine::query_planner::{create_physical_plan, try_create_physical_plan};

fn column(t: DataType, values: Vec<Option<ScalarValue>>) -> ColumnVector {
    ColumnVector::Arrow(ArrowFieldVector::new(t, values))
}

fn text(v: &str) -> Option<ScalarValue> {
    Some(ScalarValue::Utf8(v.to_string()))
}

fn int64(v: i64) -> Option<ScalarValue> {
    Some(ScalarValue::Int64(v))
}

/// testdata/employee.csv: a quoted field holding a comma, and an empty
/// field that reads as NULL.
const EMPLOYEE_CSV: &str = "id,first_name,last_name,state,job_title,salary\n\
1,Bill,Hopkins,CA,Manager,12000\n\
2,Gregg,Langford,CO,Driver,10000\n\
3,John,Travis,CO,\"Manager, Software\",11500\n\
4,Von,Mill,,Defensive End,11800\n";

fn employee_csv() -> CsvDataSource {
    CsvDataSource::new("testdata/employee.csv".to_string(), EMPLOYEE_CSV.as_bytes().to_vec(), None, 1024).unwrap()
}

fn employee_frame() -> DataFrame {
    ExecutionContext::new().csv(employee_csv())
}

// ---------------------------------------------------------------------
// DataFrames build logical plans
// ---------------------------------------------------------------------

#[test]
fn chain_builds_plan_and_narrows_schema() {
    let df = employee_frame()
        .filter(col("state").eq(lit(ScalarValue::Utf8("CO".to_string()))))
        .project(vec![col("id"), col("first_name")]);

    let schema = df.schema();
    assert_eq!(schema.fields().len(), 2);
    assert_eq!(schema.field(0).name(), "id");
    assert_eq!(schema.field(1).name(), "first_name");

    // Projection -> Selection -> Scan, each with exactly one child.
    let plan = df.logical_plan();
    let sel = plan.children()[0];
    let scan = sel.children()[0];
    assert!(scan.children().is_empty());
    assert!(format_plan(plan).starts_with("Projection: #id, #first_name\n"));
}

#[test]
fn aggregate_frame_derives_group_then_agg_schema() {
    let df = employee_frame().aggregate(vec![col("state")], vec![max(col("salary"))]);

    let schema = df.schema();
    assert_eq!(schema.field(0).name(), "state");
    assert_eq!(schema.field(1).name(), "MAX");
    assert_eq!(schema.field(1).data_type(), DataType::Int64);
}

#[test]
fn parquet_frames_build_the_same_way() {
    let schema = Schema::new(vec![Field::new("n", DataType::Int64, false)]);
    let batch = RecordBatch::new(
        Schema::new(vec![Field::new("n", DataType::Int64, false)]),
        vec![column(DataType::Int64, vec![int64(1), int64(2), int64(3)])],
    );
    let source = ParquetDataSource::new("engine_df_test.parquet".to_string(), schema, vec![batch]);

    let ctx = ExecutionContext::new();
    let df = ctx.parquet(source).filter(col("n").gt(lit(ScalarValue::Int64(1))));
    assert_eq!(df.schema().fields().len(), 1);
    assert_eq!(df.schema().field(0).name(), "n");
    let batches = ctx.collect(&df);
    assert_eq!(batches[0].row_count(), 2);
}

fn plan_of(df: DataFrame) -> String {
    format_plan(df.logical_plan())
}

#[test]
fn filter_then_project_matches_the_book() {
    let df = employee_frame()
        .filter(col("state").eq(lit(ScalarValue::Utf8("CO".to_string()))))
        .project(vec![col("id"), col("first_name"), col("last_name")]);

    assert_eq!(
        plan_of(df),
        "Projection: #id, #first_name, #last_name\n\
         \tSelection: #state = 'CO'\n\
         \t\tScan: testdata/employee.csv; projection=None\n"
    );
}

#[test]
fn grouped_aggregate_plan() {
    let df = employee_frame().aggregate(vec![col("state")], vec![max(col("salary")), count(col("id"))]);

    assert_eq!(
        plan_of(df),
        "Aggregate: groupExpr=[#state], aggregateExpr=[MAX(#salary), COUNT(#id)]\n\
         \tScan: testdata/employee.csv; projection=None\n"
    );
}

#[test]
fn filter_aggregate_project_pipeline() {
    let df = employee_frame()
        .filter(col("salary").gt_eq(lit(ScalarValue::Int64(10000))))
        .aggregate(vec![col("state")], vec![avg(col("salary").multiply(lit(ScalarValue::Int64(2))))])
        .project(vec![col("state")]);

    assert_eq!(
        plan_of(df),
        "Projection: #state\n\
         \tAggregate: groupExpr=[#state], aggregateExpr=[AVG(#salary * 2)]\n\
         \t\tSelection: #salary >= 10000\n\
         \t\t\tScan: testdata/employee.csv; projection=None\n"
    );
}

// ---------------------------------------------------------------------
// The planner turns names into indices
// ---------------------------------------------------------------------

#[test]
fn plans_scan_filter_project() {
    let df = employee_frame()
        .filter(col("state").eq(lit(ScalarValue::Utf8("CO".to_string()))))
        .project(vec![col("id"), col("salary").multiply(lit(ScalarValue::Int64(2)))]);

    let physical = create_physical_plan(df.logical_plan());

    // Names became indices: state=#3, id=#0, salary=#5.
    assert_eq!(physical.to_text(), "ProjectionExec: #0, #5 * 2");
    let selection = physical.children()[0];
    assert_eq!(selection.to_text(), "SelectionExec: #3 = 'CO'");
    let scan = selection.children()[0];
    assert_eq!(scan.to_text(), "ScanExec: projection=[]");
    assert!(scan.children().is_empty());

    // Physical schema comes from the logical plan.
    assert_eq!(physical.schema().field(1).name(), "mult");
}

#[test]
fn plans_grouped_aggregate() {
    let df = employee_frame().aggregate(vec![col("state")], vec![max(col("salary"))]);

    let physical = create_physical_plan(df.logical_plan());
    assert_eq!(physical.to_text(), "HashAggregateExec: groupExpr=[#3], aggregateExpr=[MAX(#5)]");
    assert_eq!(physical.schema().field(0).name(), "state");
    assert_eq!(physical.schema().field(1).name(), "MAX");
}

// ---------------------------------------------------------------------
// Running queries end to end
// ---------------------------------------------------------------------

#[test]
fn collect_runs_a_bare_scan() {
    let ctx = ExecutionContext::new();
    let df = ctx.csv(employee_csv());

    let batches = ctx.collect(&df);
    assert_eq!(batches.len(), 1);
    assert_eq!(batches[0].row_count(), 4);
    assert_eq!(batches[0].column_count(), 6);
    assert_eq!(batches[0].column(0).value(0), Some(ScalarValue::Int64(1)));
    assert_eq!(DEFAULT_BATCH_SIZE, 1024);
}

/// Flatten one column of every batch, in order.
fn column_values(batches: &[RecordBatch], col: usize) -> Vec<Option<ScalarValue>> {
    batches.iter().flat_map(|b| (0..b.row_count()).map(move |i| b.column(col).value(i))).collect()
}

fn run(df: &DataFrame) -> Vec<RecordBatch> {
    ExecutionContext::new().collect(df)
}

#[test]
fn scan_filter_project_the_books_first_query() {
    let df = employee_frame()
        .filter(col("state").eq(lit(ScalarValue::Utf8("CO".to_string()))))
        .project(vec![col("id"), col("first_name")]);

    let batches = run(&df);
    let schema = df.schema();
    assert_eq!(schema.field(0).name(), "id");
    assert_eq!(schema.field(1).name(), "first_name");

    assert_eq!(column_values(&batches, 0), vec![int64(2), int64(3)]);
    assert_eq!(column_values(&batches, 1), vec![text("Gregg"), text("John")]);
}

#[test]
fn projection_computes_math_over_every_row() {
    let df = employee_frame().project(vec![col("id"), col("salary").multiply(lit(ScalarValue::Int64(2)))]);

    let batches = run(&df);
    assert_eq!(column_values(&batches, 1), vec![int64(24000), int64(20000), int64(23000), int64(23600)]);
}

#[test]
fn filter_on_a_computed_predicate() {
    // salary > 11000 keeps rows 1, 3, 4 - including the NULL-state row.
    let df = employee_frame()
        .filter(col("salary").gt(lit(ScalarValue::Int64(11000))))
        .project(vec![col("first_name"), col("state")]);

    let batches = run(&df);
    assert_eq!(column_values(&batches, 0), vec![text("Bill"), text("John"), text("Von")]);
    // NULL passes through projection untouched.
    assert_eq!(column_values(&batches, 1), vec![text("CA"), text("CO"), None]);
}

/// Find a group's row by its key.
fn row_by_key(batch: &RecordBatch, key: Option<ScalarValue>) -> Vec<Option<ScalarValue>> {
    let row = (0..batch.row_count())
        .find(|&i| batch.column(0).value(i) == key)
        .unwrap_or_else(|| panic!("no group with key {key:?}"));
    (0..batch.column_count()).map(|c| batch.column(c).value(row)).collect()
}

#[test]
fn grouped_aggregate_end_to_end() {
    let df = employee_frame().aggregate(vec![col("state")], vec![max(col("salary")), count(col("id"))]);

    let batches = run(&df);
    assert_eq!(batches.len(), 1);
    let batch = &batches[0];
    assert_eq!(batch.row_count(), 3); // CA, CO, and the NULL state

    assert_eq!(row_by_key(batch, text("CA")), vec![text("CA"), int64(12000), int64(1)]);
    assert_eq!(row_by_key(batch, text("CO")), vec![text("CO"), int64(11500), int64(2)]);
    // SQL GROUP BY puts all NULL keys in ONE group.
    assert_eq!(row_by_key(batch, None), vec![None, int64(11800), int64(1)]);
}

#[test]
fn global_aggregate_without_group_by() {
    let df = employee_frame().aggregate(vec![], vec![sum(col("salary")), avg(col("salary")), count(col("state"))]);

    let batches = run(&df);
    let batch = &batches[0];
    assert_eq!(batch.row_count(), 1);
    assert_eq!(batch.column(0).value(0), int64(45300));
    assert_eq!(batch.column(1).value(0), Some(ScalarValue::Float64(11325.0f64.to_bits())));
    // COUNT(state) skips the NULL: 3, not 4.
    assert_eq!(batch.column(2).value(0), int64(3));
}

#[test]
fn filter_feeds_aggregate() {
    // Only salaries >= 11000 reach the aggregate.
    let df = employee_frame()
        .filter(col("salary").gt_eq(lit(ScalarValue::Int64(11000))))
        .aggregate(vec![], vec![count(col("id")), max(col("salary"))]);

    let batch = &run(&df)[0];
    assert_eq!(batch.column(0).value(0), int64(3));
    assert_eq!(batch.column(1).value(0), int64(12000));
}

#[test]
fn two_plans_for_one_query_agree() {
    let df = employee_frame()
        .filter(col("salary").lt(lit(ScalarValue::Int64(12000))))
        .aggregate(vec![col("state")], vec![sum(col("salary"))]);
    let first = create_physical_plan(df.logical_plan()).execute();
    let second = create_physical_plan(df.logical_plan()).execute();
    assert_eq!(column_values(&first, 0), column_values(&second, 0));
    assert_eq!(column_values(&first, 1), column_values(&second, 1));
    assert_eq!(column_values(&first, 1), vec![int64(21500), int64(11800)]);
}

#[test]
#[should_panic(expected = "no column named")]
fn planning_rejects_unknown_columns() {
    let df = employee_frame().filter(col("bogus").eq(lit(ScalarValue::Int64(1))));
    try_create_physical_plan(df.logical_plan()).expect("no column named \"bogus\" in input schema");
}

#[test]
fn try_collect_answers_what_collect_answers() {
    let ctx = ExecutionContext::new();
    let df = employee_frame()
        .filter(col("salary").gt(lit(ScalarValue::Int64(11000))))
        .project(vec![col("first_name")]);
    let batches = ctx.try_collect(&df).unwrap();
    assert_eq!(column_values(&batches, 0), vec![text("Bill"), text("John"), text("Von")]);

    // A filter on an unknown column cannot be planned.
    let bad = employee_frame().filter(col("bogus").eq(lit(ScalarValue::Int64(1))));
    assert!(ctx.try_collect(&bad).is_none());

    // Comparing a string with a number would panic: refused.
    let mismatched = employee_frame().filter(col("state").eq(lit(ScalarValue::Int64(1))));
    assert!(ctx.try_collect(&mismatched).is_none());

    // Summing strings would panic: refused.
    let summed = employee_frame().aggregate(vec![], vec![sum(col("state"))]);
    assert!(ctx.try_collect(&summed).is_none());
}

#[test]
fn logical_fields_match_what_runs() {
    let ctx = ExecutionContext::new();
    let half = photon::engine::logical_expr::lit_text(ScalarValue::Float64(0.5f64.to_bits()), "0.5".to_string());
    let df = employee_frame().project(vec![
        col("salary").multiply(half),
        col("id").gt(lit(ScalarValue::Int64(2))),
        col("state"),
    ]);
    let schema = df.schema();
    let batches = ctx.collect(&df);
    for c in 0..3 {
        assert_eq!(batches[0].column(c).data_type(), schema.field(c).data_type());
        assert_eq!(batches[0].schema().field(c).name(), schema.field(c).name());
    }
    assert_eq!(schema.field(0).data_type(), DataType::Float64);
    assert_eq!(batches[0].column(0).value(1), Some(ScalarValue::Float64(5000.0f64.to_bits())));
    assert_eq!(batches[0].column(1).value(2), Some(ScalarValue::Boolean(true)));
}

#[test]
fn default_context_runs_queries_like_a_new_one() {
    let ctx = ExecutionContext::default();
    assert_eq!(format!("{:?}", ctx), "ExecutionContext");
    let schema = Schema::new(vec![Field::new("n", DataType::Int64, false)]);
    let batch = RecordBatch::new(
        Schema::new(vec![Field::new("n", DataType::Int64, false)]),
        vec![column(DataType::Int64, vec![int64(1), int64(2), int64(3)])],
    );
    let source = ParquetDataSource::new("default_ctx.parquet".to_string(), schema, vec![batch]);
    let df = ctx.parquet(source).filter(col("n").gt(lit(ScalarValue::Int64(2))));
    let batches = ctx.collect(&df);
    assert_eq!(batches[0].row_count(), 1);
}
