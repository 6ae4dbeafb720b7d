use photon::engine::datatypes::{
    project_by_name, ArrowFieldVector, ColumnVector, DataType, Field, LiteralValueVector, RecordBatch, ScalarValue,
    Schema,
};

fn f64_value(x: f64) -> ScalarValue {
    ScalarValue::Float64(x.to_bits())
}

#[test]
fn arrow_field_vector_reads_values_and_nulls() {
    let col = ArrowFieldVector::new(
        DataType::Int64,
        vec![Some(ScalarValue::Int64(10)), None, Some(ScalarValue::Int64(30))],
    );

    assert_eq!(col.size(), 3);
    assert_eq!(col.data_type(), DataType::Int64);
    assert_eq!(col.value(0), Some(ScalarValue::Int64(10)));
    assert_eq!(col.value(1), None);
    assert_eq!(col.value(2), Some(ScalarValue::Int64(30)));
}

#[test]
fn arrow_field_vector_reads_strings() {
    let col = ArrowFieldVector::new(DataType::Utf8, vec![Some(ScalarValue::Utf8("a".to_string())), None]);

    assert_eq!(col.value(0), Some(ScalarValue::Utf8("a".to_string())));
    assert_eq!(col.value(1), None);
}

#[test]
fn literal_vector_repeats_one_value() {
    let col = LiteralValueVector::new(DataType::Int64, Some(ScalarValue::Int64(7)), 1000);

    assert_eq!(col.size(), 1000);
    assert_eq!(col.data_type(), DataType::Int64);
    assert_eq!(col.value(0), Some(ScalarValue::Int64(7)));
    assert_eq!(col.value(999), Some(ScalarValue::Int64(7)));
}

#[test]
fn literal_vector_of_nulls() {
    let col = LiteralValueVector::new(DataType::Utf8, None, 3);
    assert_eq!(col.value(2), None);
}

#[test]
fn works_through_a_trait_object() {
    // Operators hold columns as the `ColumnVector` sum type.
    let col = ColumnVector::Arrow(ArrowFieldVector::new(DataType::Float64, vec![Some(f64_value(1.5))]));
    assert_eq!(col.value(0), Some(f64_value(1.5)));
}

#[test]
fn record_batch_mixes_arrow_and_literal_columns() {
    let schema = Schema::new(vec![
        Field::new("id", DataType::Int64, false),
        Field::new("bonus", DataType::Float64, true),
    ]);
    let id = ColumnVector::Arrow(ArrowFieldVector::new(
        DataType::Int64,
        vec![Some(ScalarValue::Int64(1)), Some(ScalarValue::Int64(2))],
    ));
    let bonus = ColumnVector::Literal(LiteralValueVector::new(DataType::Float64, Some(f64_value(0.1)), 2));
    let batch = RecordBatch::new(schema, vec![id, bonus]);

    assert_eq!(batch.row_count(), 2);
    assert_eq!(batch.column_count(), 2);
    assert_eq!(batch.column(0).value(1), Some(ScalarValue::Int64(2)));
    assert_eq!(batch.column(1).value(1), Some(f64_value(0.1)));
}

#[test]
fn project_by_name_subsets_and_reorders() {
    let schema = Schema::new(vec![
        Field::new("a", DataType::Int64, false),
        Field::new("b", DataType::Utf8, false),
        Field::new("c", DataType::Float64, false),
    ]);

    let projected = project_by_name(&schema, &["c", "a"]).unwrap();
    assert_eq!(projected.fields().len(), 2);
    assert_eq!(projected.field(0).name(), "c");
    assert_eq!(projected.field(1).name(), "a");

    assert!(project_by_name(&schema, &["nope"]).is_err());
}

#[test]
fn schema_lookups_find_the_first_field_of_a_name() {
    let schema = Schema::new(vec![
        Field::new("a", DataType::Int64, false),
        Field::new("b", DataType::Utf8, true),
        Field::new("a", DataType::Float64, false),
    ]);
    assert_eq!(schema.index_of("a"), Ok(0));
    assert_eq!(schema.index_of("b"), Ok(1));
    assert!(schema.index_of("z").is_err());
    assert_eq!(schema.field_with_name("b").unwrap().data_type(), DataType::Utf8);
    assert!(schema.field_with_name("b").unwrap().is_nullable());
    assert!(schema.project(&[2, 0]).is_ok());
    assert!(schema.project(&[3]).is_err());
}

#[test]
fn empty_batch_has_no_rows() {
    let batch = RecordBatch::new(Schema::new(vec![]), vec![]);
    assert_eq!(batch.row_count(), 0);
    assert_eq!(batch.column_count(), 0);
}

#[test]
fn scalar_values_print_and_name_columns() {
    assert_eq!(ScalarValue::Int64(-42).to_text(), "-42");
    assert_eq!(ScalarValue::Int64(i64::MIN).to_text(), "-9223372036854775808");
    assert_eq!(ScalarValue::UInt64(u64::MAX).to_text(), "18446744073709551615");
    assert_eq!(ScalarValue::Int8(0).to_text(), "0");
    assert_eq!(ScalarValue::Boolean(true).to_text(), "true");
    assert_eq!(ScalarValue::Utf8("CO".to_string()).to_text(), "'CO'");
    assert_eq!(ScalarValue::Float32(1.0f32.to_bits()).data_type(), DataType::Float32);
}

#[test]
#[should_panic(expected = "differing lengths")]
fn record_batch_rejects_ragged_columns() {
    let schema = Schema::new(vec![Field::new("a", DataType::Int64, false), Field::new("b", DataType::Int64, false)]);
    let ints = |n: i64| {
        ColumnVector::Arrow(ArrowFieldVector::new(DataType::Int64, (1..=n).map(|v| Some(ScalarValue::Int64(v))).collect()))
    };
    RecordBatch::try_new(schema, vec![ints(2), ints(3)]).expect("columns have differing lengths");
}

#[test]
fn record_batch_try_new_checks_the_column_count() {
    let schema = Schema::new(vec![Field::new("a", DataType::Int64, false)]);
    let col = || ColumnVector::Literal(LiteralValueVector::new(DataType::Int64, None, 2));
    assert!(RecordBatch::try_new(Schema::new(vec![Field::new("a", DataType::Int64, false)]), vec![col()]).is_some());
    assert!(RecordBatch::try_new(schema, vec![col(), col()]).is_none());
}
