//! CSV through arrow's reader: schema inference over a file's bytes, and
//! decoding those bytes into the engine's record batches, only the
//! projected columns converted.
//!
//! What arrow infers and decodes is named (`csv_inferred_schema`,
//! `csv_decoded`); the library's sources are stated over those names.

use std::io::Cursor;
use std::sync::Arc;

use arrow::array::{Array, AsArray};
use arrow::csv::reader::Format;
use arrow::csv::ReaderBuilder;
use arrow::datatypes::DataType as ArrowType;
use arrow::datatypes::Field as ArrowField;
use arrow::datatypes::Schema as ArrowSchema;
use arrow::array::ArrayData;
use arrow::array::make_array;
use arrow::datatypes::{
    Float32Type, Float64Type, Int16Type, Int32Type, Int64Type, Int8Type, UInt16Type, UInt32Type,
    UInt64Type, UInt8Type,
};
use crate::engine::datasource::project_batch;
use crate::engine::datatypes::{
    ArrowFieldVector, BatchView, ColumnVector, DataType, Field, FieldView, RecordBatch, ScalarValue,
    Schema, batches_view,
};
use vstd::prelude::*;

verus! {

/// `arrow::datatypes::DataType`, carried opaquely.
#[verifier::external_type_specification]
#[verifier::external_body]
pub struct ExArrowDataType(ArrowType);

/// `arrow::datatypes::Schema`, carried opaquely.
#[verifier::external_type_specification]
#[verifier::external_body]
pub struct ExArrowSchema(ArrowSchema);

/// `arrow::array::ArrayData`, one column's data, carried opaquely.
#[verifier::external_type_specification]
#[verifier::external_body]
pub struct ExArrayData(ArrayData);

/// How many records schema inference samples.
pub const INFER_RECORDS: usize = 1000;

/// The schema arrow's CSV inference (`Format::infer_schema`, header row on)
/// gives for `bytes` when it samples up to `max_records` records, in the
/// engine's types; `None` when inference fails or settles on a type the
/// engine does not have.
pub uninterp spec fn csv_inferred_schema(bytes: Seq<u8>, max_records: usize) -> Option<Seq<FieldView>>;

/// The batches arrow's CSV reader (header row on, `batch_size` records per
/// batch, the columns at `projection` in that order) decodes from `bytes`
/// under `schema`, in the engine's values; `None` when reading fails.
pub uninterp spec fn csv_decoded(
    bytes: Seq<u8>,
    schema: Seq<FieldView>,
    batch_size: usize,
    projection: Seq<usize>,
) -> Option<Seq<BatchView>>;

/// Every column position of a schema of `n` fields, in order.
pub open spec fn all_columns(n: nat) -> Seq<usize> {
    Seq::new(n, |i: int| i as usize)
}

/// Every position in `projection` is a column of a schema of `n` fields.
pub open spec fn projection_in(projection: Seq<usize>, n: nat) -> bool {
    forall|k: int| 0 <= k < projection.len() ==> #[trigger] projection[k] < n
}

/// Each batch narrowed to the columns at `projection`, in that order.
pub open spec fn project_all(data: Seq<BatchView>, schema: Seq<FieldView>, projection: Seq<usize>) -> Seq<BatchView> {
    Seq::new(
        data.len(),
        |b: int| project_batch(data[b], schema, Seq::new(projection.len(), |k: int| projection[k] as int)),
    )
}

/// The arrow type of an engine type, variant for variant.
#[verifier::external_body]
fn arrow_type(t: DataType) -> ArrowType {
    match t {
        DataType::Boolean => ArrowType::Boolean,
        DataType::Int8 => ArrowType::Int8,
        DataType::Int16 => ArrowType::Int16,
        DataType::Int32 => ArrowType::Int32,
        DataType::Int64 => ArrowType::Int64,
        DataType::UInt8 => ArrowType::UInt8,
        DataType::UInt16 => ArrowType::UInt16,
        DataType::UInt32 => ArrowType::UInt32,
        DataType::UInt64 => ArrowType::UInt64,
        DataType::Float32 => ArrowType::Float32,
        DataType::Float64 => ArrowType::Float64,
        DataType::Utf8 => ArrowType::Utf8,
    }
}

/// The engine type of an arrow type, variant for variant; `None` for the
/// arrow types the engine does not have.
#[verifier::external_body]
fn engine_type(t: &ArrowType) -> Option<DataType> {
    match t {
        ArrowType::Boolean => Some(DataType::Boolean),
        ArrowType::Int8 => Some(DataType::Int8),
        ArrowType::Int16 => Some(DataType::Int16),
        ArrowType::Int32 => Some(DataType::Int32),
        ArrowType::Int64 => Some(DataType::Int64),
        ArrowType::UInt8 => Some(DataType::UInt8),
        ArrowType::UInt16 => Some(DataType::UInt16),
        ArrowType::UInt32 => Some(DataType::UInt32),
        ArrowType::UInt64 => Some(DataType::UInt64),
        ArrowType::Float32 => Some(DataType::Float32),
        ArrowType::Float64 => Some(DataType::Float64),
        ArrowType::Utf8 => Some(DataType::Utf8),
        _ => None,
    }
}

/// An engine schema as an arrow schema, field for field.
#[verifier::external_body]
fn arrow_schema(s: &Schema) -> ArrowSchema {
    let fields: Vec<ArrowField> = s.fields.iter().map(
        |f| ArrowField::new(f.name.clone(), arrow_type(f.data_type), f.nullable),
    ).collect();
    ArrowSchema::new(fields)
}

/// An arrow schema as an engine schema, field for field; `None` if a
/// field's type is not one the engine has.
#[verifier::external_body]
fn engine_schema(s: &ArrowSchema) -> Option<Schema> {
    let fields: Option<Vec<Field>> = s.fields().iter().map(
        |f| Some(Field::new(f.name(), engine_type(f.data_type())?, f.is_nullable())),
    ).collect();
    Some(Schema::new(fields?))
}

/// The values of a column if it holds signed integers.
#[verifier::external_body]
fn signed_cells(d: &ArrayData) -> Option<Vec<Option<ScalarValue>>> {
    let a = make_array(d.clone());
    if let Some(x) = a.as_primitive_opt::<Int8Type>() { return Some(x.iter().map(|v| v.map(ScalarValue::Int8)).collect()); }
    if let Some(x) = a.as_primitive_opt::<Int16Type>() { return Some(x.iter().map(|v| v.map(ScalarValue::Int16)).collect()); }
    if let Some(x) = a.as_primitive_opt::<Int32Type>() { return Some(x.iter().map(|v| v.map(ScalarValue::Int32)).collect()); }
    a.as_primitive_opt::<Int64Type>().map(|x| x.iter().map(|v| v.map(ScalarValue::Int64)).collect())
}

/// The values of a column if it holds unsigned integers.
#[verifier::external_body]
fn unsigned_cells(d: &ArrayData) -> Option<Vec<Option<ScalarValue>>> {
    let a = make_array(d.clone());
    if let Some(x) = a.as_primitive_opt::<UInt8Type>() { return Some(x.iter().map(|v| v.map(ScalarValue::UInt8)).collect()); }
    if let Some(x) = a.as_primitive_opt::<UInt16Type>() { return Some(x.iter().map(|v| v.map(ScalarValue::UInt16)).collect()); }
    if let Some(x) = a.as_primitive_opt::<UInt32Type>() { return Some(x.iter().map(|v| v.map(ScalarValue::UInt32)).collect()); }
    a.as_primitive_opt::<UInt64Type>().map(|x| x.iter().map(|v| v.map(ScalarValue::UInt64)).collect())
}

/// The values of a column if it holds booleans or strings.
#[verifier::external_body]
fn text_cells(d: &ArrayData) -> Option<Vec<Option<ScalarValue>>> {
    let a = make_array(d.clone());
    if let Some(x) = a.as_boolean_opt() { return Some(x.iter().map(|v| v.map(ScalarValue::Boolean)).collect()); }
    a.as_string_opt::<i32>().map(|x| x.iter().map(|v| v.map(|s| ScalarValue::Utf8(s.to_string()))).collect())
}

/// The values of a column if it holds floats, as their bits.
#[verifier::external_body]
fn float_cells(d: &ArrayData) -> Option<Vec<Option<ScalarValue>>> {
    let a = make_array(d.clone());
    if let Some(x) = a.as_primitive_opt::<Float32Type>() { return Some(x.iter().map(|v| v.map(|f| ScalarValue::Float32(f.to_bits()))).collect()); }
    a.as_primitive_opt::<Float64Type>().map(|x| x.iter().map(|v| v.map(|f| ScalarValue::Float64(f.to_bits()))).collect())
}

/// A batch of arrow columns under an arrow schema as an engine batch,
/// column for column and value for value; `None` if a column's type is not
/// one the engine has.
#[verifier::external_body]
fn engine_batch(schema: &ArrowSchema, columns: Vec<ArrayData>) -> Option<RecordBatch> {
    let schema = engine_schema(schema)?;
    let cells = columns.iter().map(|d| signed_cells(d).or_else(|| unsigned_cells(d)).or_else(|| float_cells(d)).or_else(|| text_cells(d)));
    let columns: Option<Vec<ColumnVector>> = cells.zip(schema.fields.iter()).map(
        |(c, f)| Some(ColumnVector::Arrow(ArrowFieldVector::new(f.data_type, c?))),
    ).collect();
    RecordBatch::try_new(schema, columns?)
}

/// `Format::infer_schema` (header row on) over `bytes`, sampling up to
/// `max_records` records; the result, in the engine's types, is named by
/// `csv_inferred_schema`.
#[verifier::external_body]
pub(crate) fn infer_csv_schema(bytes: &[u8], max_records: usize) -> (s: Option<Schema>)
    ensures
        match s {
            Some(x) => csv_inferred_schema(bytes@, max_records) == Some(x@),
            None => csv_inferred_schema(bytes@, max_records) is None,
        },
{
    let format = Format::default().with_header(true);
    let (schema, _) = format.infer_schema(Cursor::new(bytes), Some(max_records)).ok()?;
    engine_schema(&schema)
}

/// arrow's CSV reader (`ReaderBuilder`, header row on, `batch_size` records
/// per batch, `with_projection(projection)`) over `bytes` under `schema`;
/// the batches, in the engine's values, are named by `csv_decoded`, and
/// each is well formed (`RecordBatch::try_new`).
///
/// The reader splits the input into records the same way whatever the
/// projection, and builds each projected column from those records and
/// that column's field alone (`parse` in arrow-csv's reader). So when
/// every column decodes, any projection of positions in the schema
/// decodes too, into the same batches narrowed to those columns.
#[verifier::external_body]
pub(crate) fn decode_csv(bytes: &[u8], schema: &Schema, batch_size: usize, projection: &Vec<usize>)
    -> (out: Option<Vec<RecordBatch>>)
    ensures
        match out {
            Some(v) => csv_decoded(bytes@, schema@, batch_size, projection@) == Some(batches_view(v@)),
            None => csv_decoded(bytes@, schema@, batch_size, projection@) is None,
        },
        out matches Some(v) ==> forall|b: int| 0 <= b < v@.len() ==> (#[trigger] v@[b]).wf(),
        out matches Some(v) || !(csv_decoded(bytes@, schema@, batch_size, all_columns(schema@.len())) is Some
            && projection_in(projection@, schema@.len())),
        out matches Some(v) && csv_decoded(bytes@, schema@, batch_size, all_columns(schema@.len())) matches Some(d)
            ==> batches_view(v@) == project_all(d, schema@, projection@),
{
    let builder = ReaderBuilder::new(Arc::new(arrow_schema(schema))).with_header(true).with_batch_size(batch_size);
    let reader = builder.with_projection(projection.clone()).build(Cursor::new(bytes)).ok()?;
    reader.map(|b| {
        let b = b.ok()?;
        engine_batch(&b.schema(), b.columns().iter().map(|a| a.to_data()).collect())
    }).collect()
}

/// Every column position of a schema of `n` fields, in order.
pub fn all_column_indices(n: usize) -> (v: Vec<usize>)
    ensures
        v@ == all_columns(n as nat),
{
    let mut v: Vec<usize> = Vec::new();
    let mut i: usize = 0;
    while i < n
        invariant
            i <= n,
            v@ == Seq::new(i as nat, |j: int| j as usize),
        decreases n - i,
    {
        v.push(i);
        i = i + 1;
        assert(v@ =~= Seq::new(i as nat, |j: int| j as usize));
    }
    v
}

} // verus!
