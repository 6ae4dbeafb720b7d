use photon::engine::datasource::{CsvDataSource, DataSource, InMemoryDataSource, ParquetDataSource};
use photon::engine::datatypes::{ArrowFieldVector, ColumnVector, DataType, Field, RecordBatch, ScalarValue, Schema};

fn f64_value(x: f64) -> ScalarValue {
    ScalarValue::Float64(x.to_bits())
}

fn column(t: DataType, values: Vec<Option<ScalarValue>>) -> ColumnVector {
    ColumnVector::Arrow(ArrowFieldVector::new(t, values))
}

fn abc_schema() -> Schema {
    Schema::new(vec![
        Field::new("a", DataType::Int64, false),
        Field::new("b", DataType::Utf8, false),
        Field::new("c", DataType::Float64, false),
    ])
}

fn abc_batch(ids: Vec<i64>, names: Vec<&str>, vals: Vec<f64>) -> RecordBatch {
    RecordBatch::new(
        abc_schema(),
        vec![
            column(DataType::Int64, ids.into_iter().map(|v| Some(ScalarValue::Int64(v))).collect()),
            column(DataType::Utf8, names.into_iter().map(|v| Some(ScalarValue::Utf8(v.to_string()))).collect()),
            column(DataType::Float64, vals.into_iter().map(|v| Some(f64_value(v))).collect()),
        ],
    )
}

fn test_source() -> DataSource {
    let data = vec![
        abc_batch(vec![1, 2], vec!["x", "y"], vec![1.0, 2.0]),
        abc_batch(vec![3], vec!["z"], vec![3.0]),
    ];
    DataSource::InMemory(InMemoryDataSource::new(abc_schema(), data))
}

#[test]
fn empty_projection_scans_everything() {
    let source = test_source();
    let batches = source.scan(&vec![]);

    assert_eq!(batches.len(), 2);
    assert_eq!(batches[0].column_count(), 3);
    assert_eq!(batches[0].row_count(), 2);
    assert_eq!(batches[1].column(0).value(0), Some(ScalarValue::Int64(3)));
}

#[test]
fn projection_subsets_and_reorders_columns() {
    let source = test_source();
    let batches = source.scan(&vec!["c".to_string(), "a".to_string()]);

    let first = &batches[0];
    assert_eq!(first.column_count(), 2);
    assert_eq!(first.schema().field(0).name(), "c");
    assert_eq!(first.schema().field(1).name(), "a");
    assert_eq!(first.column(0).value(1), Some(f64_value(2.0)));
    assert_eq!(first.column(1).value(1), Some(ScalarValue::Int64(2)));
}

/// The rows of testdata/employee.csv, as the CSV reader yields them.
fn employee_schema() -> Schema {
    Schema::new(vec![
        Field::new("id", DataType::Int64, true),
        Field::new("first_name", DataType::Utf8, true),
        Field::new("last_name", DataType::Utf8, true),
        Field::new("state", DataType::Utf8, true),
        Field::new("job_title", DataType::Utf8, true),
        Field::new("salary", DataType::Int64, true),
    ])
}

fn text(v: &str) -> Option<ScalarValue> {
    Some(ScalarValue::Utf8(v.to_string()))
}

fn int64(v: i64) -> Option<ScalarValue> {
    Some(ScalarValue::Int64(v))
}

fn employee_batch() -> RecordBatch {
    RecordBatch::new(
        employee_schema(),
        vec![
            column(DataType::Int64, vec![int64(1), int64(2), int64(3), int64(4)]),
            column(DataType::Utf8, vec![text("Bill"), text("Gregg"), text("John"), text("Von")]),
            column(DataType::Utf8, vec![text("Hopkins"), text("Langford"), text("Travis"), text("Mill")]),
            column(DataType::Utf8, vec![text("CA"), text("CO"), text("CO"), None]),
            column(
                DataType::Utf8,
                vec![text("Manager"), text("Driver"), text("Manager, Software"), text("Defensive End")],
            ),
            column(DataType::Int64, vec![int64(12000), int64(10000), int64(11500), int64(11800)]),
        ],
    )
}

/// testdata/employee.csv: a quoted field holding a comma, and an empty
/// field that reads as NULL.
const EMPLOYEE_CSV: &str = "id,first_name,last_name,state,job_title,salary\n\
1,Bill,Hopkins,CA,Manager,12000\n\
2,Gregg,Langford,CO,Driver,10000\n\
3,John,Travis,CO,\"Manager, Software\",11500\n\
4,Von,Mill,,Defensive End,11800\n";

fn employee_csv() -> CsvDataSource {
    CsvDataSource::new("testdata/employee.csv".to_string(), EMPLOYEE_CSV.as_bytes().to_vec(), None, 1024).unwrap()
}

fn employee_parquet() -> ParquetDataSource {
    ParquetDataSource::new("employee.parquet".to_string(), employee_schema(), vec![employee_batch()])
}

#[test]
fn csv_scan_with_projection() {
    let source = DataSource::Csv(employee_csv());
    let batches = source.scan(&vec!["salary".to_string(), "id".to_string()]);

    let batch = &batches[0];
    assert_eq!(batch.column_count(), 2);
    assert_eq!(batch.schema().field(0).name(), "salary");
    assert_eq!(batch.schema().field(1).name(), "id");
    assert_eq!(batch.column(0).value(0), Some(ScalarValue::Int64(12000)));
    assert_eq!(batch.column(1).value(0), Some(ScalarValue::Int64(1)));
}

#[test]
fn csv_source_keeps_its_path_and_batch_size() {
    let source = employee_csv();
    assert_eq!(source.path(), "testdata/employee.csv");
    assert_eq!(source.batch_size(), 1024);
    assert_eq!(employee_parquet().path(), "employee.parquet");
}

fn sources() -> Vec<(&'static str, DataSource)> {
    vec![("csv", DataSource::Csv(employee_csv())), ("parquet", DataSource::Parquet(employee_parquet()))]
}

#[test]
fn both_sources_expose_the_same_schema() {
    for (kind, source) in sources() {
        let schema = source.schema();
        let names: Vec<_> = schema.fields().iter().map(|f| f.name().clone()).collect();
        assert_eq!(
            names,
            ["id", "first_name", "last_name", "state", "job_title", "salary"],
            "schema mismatch for {kind}"
        );
    }
}

#[test]
fn full_scan_returns_every_row_and_column() {
    for (kind, source) in sources() {
        let batches = source.scan(&vec![]);
        let rows: usize = batches.iter().map(|b| b.row_count()).sum();
        assert_eq!(rows, 4, "row count mismatch for {kind}");
        assert_eq!(batches[0].column_count(), 6, "column count mismatch for {kind}");
    }
}

#[test]
fn projected_scan_agrees_across_formats() {
    let projection = vec!["salary".to_string(), "first_name".to_string()];
    let mut results: Vec<Vec<Option<ScalarValue>>> = vec![];

    for (kind, source) in sources() {
        let batches = source.scan(&projection);

        // Projection is honored: only the two columns, in requested order.
        assert_eq!(batches[0].column_count(), 2, "for {kind}");
        assert_eq!(batches[0].schema().field(0).name(), "salary", "for {kind}");
        assert_eq!(batches[0].schema().field(1).name(), "first_name", "for {kind}");

        // Flatten all values row-major for cross-format comparison.
        let mut values = vec![];
        for batch in &batches {
            for row in 0..batch.row_count() {
                values.push(batch.column(0).value(row));
                values.push(batch.column(1).value(row));
            }
        }
        results.push(values);
    }

    assert_eq!(results[0], results[1], "csv and parquet disagree");
    assert_eq!(results[0][0], Some(ScalarValue::Int64(12000)));
    assert_eq!(results[0][1], Some(ScalarValue::Utf8("Bill".to_string())));
}

#[test]
fn copy_holds_the_same_schema_and_batches() {
    let source = test_source();
    let copy = source.copy();
    assert_eq!(copy.schema().fields().len(), 3);
    let batches = copy.scan(&vec!["b".to_string()]);
    assert_eq!(batches.len(), 2);
    assert_eq!(batches[1].column(0).value(0), Some(ScalarValue::Utf8("z".to_string())));
}

#[test]
fn csv_infers_schema_and_scans() {
    let source = DataSource::Csv(employee_csv());

    let schema = source.schema();
    assert_eq!(schema.field(0).name(), "id");
    assert_eq!(schema.field(0).data_type(), DataType::Int64);
    assert_eq!(schema.field(1).data_type(), DataType::Utf8);
    assert_eq!(schema.field(5).name(), "salary");
    assert_eq!(schema.field(5).data_type(), DataType::Int64);

    let batches = source.scan(&vec![]);
    assert_eq!(batches.len(), 1);
    let batch = &batches[0];
    assert_eq!(batch.row_count(), 4);
    // Quoted comma survives parsing; empty field becomes NULL.
    assert_eq!(batch.column(4).value(2), Some(ScalarValue::Utf8("Manager, Software".to_string())));
    assert_eq!(batch.column(3).value(3), None);
}

#[test]
fn csv_inferred_schema_matches_the_reader_schema() {
    assert_eq!(DataSource::Csv(employee_csv()).schema(), employee_schema());
    let batches = DataSource::Csv(employee_csv()).scan(&vec![]);
    let expected = employee_batch();
    for c in 0..6 {
        for r in 0..4 {
            assert_eq!(batches[0].column(c).value(r), expected.column(c).value(r));
        }
    }
}

#[test]
fn csv_with_a_given_schema_decodes_under_it() {
    let schema = Schema::new(vec![
        Field::new("n", DataType::UInt32, true),
        Field::new("x", DataType::Float64, true),
        Field::new("ok", DataType::Boolean, true),
    ]);
    let bytes = b"n,x,ok\n7,0.5,true\n,2,false\n".to_vec();
    let source = DataSource::Csv(CsvDataSource::new("given.csv".to_string(), bytes, Some(schema), 1024).unwrap());
    let batch = &source.scan(&vec![])[0];
    assert_eq!(batch.column(0).value(0), Some(ScalarValue::UInt32(7)));
    assert_eq!(batch.column(0).value(1), None);
    assert_eq!(batch.column(1).value(1), Some(f64_value(2.0)));
    assert_eq!(batch.column(2).value(0), Some(ScalarValue::Boolean(true)));
    let projected = &source.scan(&vec!["ok".to_string(), "n".to_string()])[0];
    assert_eq!(projected.column_count(), 2);
    assert_eq!(projected.column(0).value(1), Some(ScalarValue::Boolean(false)));
    assert_eq!(projected.column(1).value(0), Some(ScalarValue::UInt32(7)));
}

#[test]
fn csv_that_does_not_decode_gives_no_source() {
    // A record with too few fields.
    assert!(CsvDataSource::new("short.csv".to_string(), b"a,b\n1,2\n3\n".to_vec(), None, 1024).is_none());
    // A value that does not parse under the given type.
    let schema = Schema::new(vec![Field::new("a", DataType::Int64, true)]);
    assert!(CsvDataSource::new("bad.csv".to_string(), b"a\nnot a number\n".to_vec(), Some(schema), 1024).is_none());
}

#[test]
fn csv_batches_hold_at_most_batch_size_rows() {
    let source = DataSource::Csv(
        CsvDataSource::new("testdata/employee.csv".to_string(), EMPLOYEE_CSV.as_bytes().to_vec(), None, 3).unwrap(),
    );
    let batches = source.scan(&vec!["first_name".to_string()]);
    assert_eq!(batches.len(), 2);
    assert_eq!(batches[0].row_count(), 3);
    assert_eq!(batches[1].row_count(), 1);
    assert_eq!(batches[1].column(0).value(0), Some(ScalarValue::Utf8("Von".to_string())));
}
