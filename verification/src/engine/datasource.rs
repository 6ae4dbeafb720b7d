//! Data sources: everything the engine reads describes its schema and
//! scans itself into record batches holding only the requested columns.
//!
//! A CSV source holds its file's bytes and decodes them through arrow at
//! each scan, converting only the projected columns. A parquet source
//! holds the batches read from its file. Reading a file is done by the
//! caller that opens the source.

use crate::engine::datatypes::{
    BatchView, FieldView, RecordBatch, Schema, batches_view, columns_fit, columns_view,
    has_name, lemma_has_name_first, lemma_name_index, name_index, project_by_name,
};
use crate::engine::csv::{
    INFER_RECORDS, all_column_indices, all_columns, csv_decoded, csv_inferred_schema, decode_csv, infer_csv_schema,
};
use vstd::prelude::*;

verus! {

/// The characters of each string.
pub open spec fn strings_view(names: Seq<String>) -> Seq<Seq<char>> {
    Seq::new(names.len(), |i: int| names[i]@)
}

/// Every name is the name of some field.
pub open spec fn all_named(schema: Seq<FieldView>, names: Seq<Seq<char>>) -> bool {
    forall|k: int| 0 <= k < names.len() ==> has_name(schema, #[trigger] names[k])
}

/// The positions of the first fields named `names`, in order.
pub open spec fn projection_indices(schema: Seq<FieldView>, names: Seq<Seq<char>>) -> Seq<int> {
    Seq::new(names.len(), |k: int| name_index(schema, names[k]))
}

/// A batch narrowed to the columns at `indices`, in that order.
pub open spec fn project_batch(b: BatchView, schema: Seq<FieldView>, indices: Seq<int>) -> BatchView {
    BatchView {
        schema: Seq::new(indices.len(), |k: int| schema[indices[k]]),
        columns: Seq::new(indices.len(), |k: int| b.columns[indices[k]]),
    }
}

/// What a scan of `data` yields: every batch, narrowed to the `projection`
/// columns in that order; an empty projection means all columns.
pub open spec fn scan_view(schema: Seq<FieldView>, data: Seq<BatchView>, projection: Seq<Seq<char>>) -> Seq<BatchView> {
    if projection.len() == 0 {
        data
    } else {
        Seq::new(
            data.len(),
            |b: int| project_batch(data[b], schema, projection_indices(schema, projection)),
        )
    }
}

/// The schema a scan yields.
pub open spec fn scan_schema(schema: Seq<FieldView>, projection: Seq<Seq<char>>) -> Seq<FieldView> {
    if projection.len() == 0 {
        schema
    } else {
        Seq::new(projection.len(), |k: int| schema[name_index(schema, projection[k])])
    }
}

/// Batches that all have `schema` and whose columns fit it.
pub open spec fn batches_fit(schema: Seq<FieldView>, data: Seq<BatchView>) -> bool {
    forall|b: int|
        0 <= b < data.len() ==> (#[trigger] data[b]).schema == schema && columns_fit(
            schema.len(),
            data[b].columns,
        )
}

/// A scan's schema: all fields for an empty projection; otherwise one
/// field per projected name, in the order asked, each with that name.
pub proof fn law_scan_names(schema: Seq<FieldView>, projection: Seq<Seq<char>>)
    requires
        all_named(schema, projection),
    ensures
        projection.len() == 0 ==> scan_schema(schema, projection) == schema,
        projection.len() > 0 ==> scan_schema(schema, projection).len() == projection.len(),
        projection.len() > 0 ==> forall|k: int|
            0 <= k < projection.len() ==> (#[trigger] scan_schema(schema, projection)[k]).name == projection[k],
{
    assert forall|k: int| 0 <= k < projection.len() implies (#[trigger] scan_schema(schema, projection)[k]).name
        == projection[k] by {
        if projection.len() > 0 {
            assert(has_name(schema, projection[k]));
            lemma_has_name_first(schema, projection[k]);
        }
    }
}

/// Map projection names to column indices in `schema`. Every name must be
/// in the schema.
pub fn resolve_indices(schema: &Schema, projection: &Vec<String>) -> (indices: Vec<usize>)
    requires
        all_named(schema@, strings_view(projection@)),
    ensures
        indices@.len() == projection@.len(),
        forall|k: int|
            0 <= k < indices@.len() ==> (#[trigger] indices@[k]) as int == projection_indices(
                schema@,
                strings_view(projection@),
            )[k],
        forall|k: int| 0 <= k < indices@.len() ==> (#[trigger] indices@[k]) < schema@.len(),
{
    let mut indices: Vec<usize> = Vec::new();
    let mut k: usize = 0;
    while k < projection.len()
        invariant
            k <= projection@.len(),
            all_named(schema@, strings_view(projection@)),
            indices@.len() == k,
            forall|m: int|
                0 <= m < k ==> (#[trigger] indices@[m]) as int == name_index(schema@, projection@[m]@),
            forall|m: int| 0 <= m < k ==> (#[trigger] indices@[m]) < schema@.len(),
        decreases projection@.len() - k,
    {
        assert(has_name(schema@, strings_view(projection@)[k as int]));
        match schema.index_of_string(&projection[k]) {
            Ok(i) => {
                proof {
                    lemma_name_index(schema@, projection@[k as int]@, i as int);
                }
                indices.push(i);
            },
            Err(_) => {
                assert(false);
                return indices;
            },
        }
        k = k + 1;
    }
    indices
}

/// Whether every name is the name of some field of `schema`.
pub fn names_in(schema: &Schema, names: &Vec<String>) -> (ok: bool)
    ensures
        ok == all_named(schema@, strings_view(names@)),
{
    let mut k: usize = 0;
    while k < names.len()
        invariant
            k <= names@.len(),
            forall|m: int| 0 <= m < k ==> has_name(schema@, #[trigger] strings_view(names@)[m]),
        decreases names@.len() - k,
    {
        match schema.index_of_string(&names[k]) {
            Ok(_) => {},
            Err(_) => {
                assert(!has_name(schema@, strings_view(names@)[k as int]));
                return false;
            },
        }
        k = k + 1;
    }
    true
}

/// The schema a scan of `projection` from a source of `schema` yields;
/// every name must be in `schema`.
pub fn scan_schema_of(schema: &Schema, projection: &Vec<String>) -> (s: Schema)
    requires
        all_named(schema@, strings_view(projection@)),
    ensures
        s@ == scan_schema(schema@, strings_view(projection@)),
{
    if projection.len() == 0 {
        return schema.copy();
    }
    let mut names: Vec<&str> = Vec::new();
    let mut k: usize = 0;
    while k < projection.len()
        invariant
            k <= projection@.len(),
            names@.len() == k,
            forall|m: int| 0 <= m < k ==> (#[trigger] names@[m])@ == projection@[m]@,
        decreases projection@.len() - k,
    {
        names.push(projection[k].as_str());
        k = k + 1;
    }
    assert forall|m: int| 0 <= m < names@.len() implies has_name(schema@, (#[trigger] names@[m])@) by {
        assert(has_name(schema@, strings_view(projection@)[m]));
    }
    match project_by_name(schema, names.as_slice()) {
        Ok(p) => {
            assert(p@ =~= scan_schema(schema@, strings_view(projection@)));
            p
        },
        Err(_) => {
            assert(false);
            schema.copy()
        },
    }
}

/// Scan `data` (batches of `schema`), keeping the `projection` columns.
fn scan_batches(schema: &Schema, data: &Vec<RecordBatch>, projection: &Vec<String>) -> (out: Vec<RecordBatch>)
    requires
        batches_fit(schema@, batches_view(data@)),
        all_named(schema@, strings_view(projection@)),
    ensures
        batches_view(out@) == scan_view(schema@, batches_view(data@), strings_view(projection@)),
        forall|b: int| 0 <= b < out@.len() ==> (#[trigger] out@[b]).wf(),
{
    assert forall|b: int| 0 <= b < data@.len() implies (#[trigger] data@[b]).wf() by {
        data@[b].lemma_wf();
        assert(batches_view(data@)[b] == data@[b]@);
    }
    let mut out: Vec<RecordBatch> = Vec::new();
    if projection.len() == 0 {
        let mut b: usize = 0;
        while b < data.len()
            invariant
                b <= data@.len(),
                forall|j: int| 0 <= j < data@.len() ==> (#[trigger] data@[j]).wf(),
                out@.len() == b,
                forall|j: int| 0 <= j < b ==> (#[trigger] out@[j])@ == data@[j]@ && out@[j].wf(),
            decreases data@.len() - b,
        {
            out.push(data[b].copy());
            b = b + 1;
        }
        assert(batches_view(out@) =~= batches_view(data@));
        return out;
    }
    let indices = resolve_indices(schema, projection);
    let projected = match schema.project(indices.as_slice()) {
        Ok(s) => s,
        Err(_) => {
            assert(false);
            return out;
        },
    };
    let ghost idx = projection_indices(schema@, strings_view(projection@));
    assert(projected@ =~= Seq::new(idx.len(), |k: int| schema@[idx[k]]));
    let mut b: usize = 0;
    while b < data.len()
        invariant
            b <= data@.len(),
            batches_fit(schema@, batches_view(data@)),
            forall|j: int| 0 <= j < data@.len() ==> (#[trigger] data@[j]).wf(),
            indices@.len() == idx.len(),
            idx == projection_indices(schema@, strings_view(projection@)),
            forall|k: int| 0 <= k < indices@.len() ==> (#[trigger] indices@[k]) as int == idx[k],
            forall|k: int| 0 <= k < indices@.len() ==> (#[trigger] indices@[k]) < schema@.len(),
            projected@ == Seq::new(idx.len(), |k: int| schema@[idx[k]]),
            idx.len() > 0,
            out@.len() == b,
            forall|j: int|
                0 <= j < b ==> (#[trigger] out@[j])@ == project_batch(data@[j]@, schema@, idx) && out@[j].wf(),
        decreases data@.len() - b,
    {
        let batch = &data[b];
        assert(batches_view(data@)[b as int] == batch@);
        let mut columns: Vec<crate::engine::datatypes::ColumnVector> = Vec::new();
        let mut k: usize = 0;
        while k < indices.len()
            invariant
                k <= indices@.len(),
                batch@.schema == schema@,
                columns_fit(schema@.len(), batch@.columns),
                forall|m: int| 0 <= m < indices@.len() ==> (#[trigger] indices@[m]) < schema@.len(),
                columns@.len() == k,
                forall|m: int| 0 <= m < k ==> (#[trigger] columns@[m])@ == batch@.columns[indices@[m] as int],
            decreases indices@.len() - k,
        {
            columns.push(batch.column(indices[k]).copy());
            k = k + 1;
        }
        let ghost cols = columns_view(columns@);
        assert(cols =~= project_batch(batch@, schema@, idx).columns);
        assert(columns_fit(projected@.len(), cols)) by {
            assert forall|c: int| 0 <= c < cols.len() implies #[trigger] cols[c].values.len() == crate::engine::datatypes::batch_rows(cols) by {
                assert(batch@.columns[indices@[c] as int].values.len() == crate::engine::datatypes::batch_rows(batch@.columns));
                assert(batch@.columns[indices@[0] as int].values.len() == crate::engine::datatypes::batch_rows(batch@.columns));
            }
        }
        let nb = RecordBatch::new(projected.copy(), columns);
        assert(nb@ == project_batch(data@[b as int]@, schema@, idx));
        out.push(nb);
        b = b + 1;
    }
    assert(batches_view(out@) =~= scan_view(schema@, batches_view(data@), strings_view(projection@)));
    out
}

/// Whether every batch has `schema` and columns that fit it.
fn batches_fit_check(schema: &Schema, data: &Vec<RecordBatch>) -> (ok: bool)
    ensures
        ok == batches_fit(schema@, batches_view(data@)),
{
    let mut b: usize = 0;
    while b < data.len()
        invariant
            b <= data@.len(),
            forall|j: int|
                0 <= j < b ==> (#[trigger] data@[j])@.schema == schema@ && columns_fit(schema@.len(), data@[j]@.columns),
        decreases data@.len() - b,
    {
        let batch = &data[b];
        proof {
            batch.lemma_wf();
        }
        if !batch.schema().same(schema) || !batch.is_wf() {
            assert(batches_view(data@)[b as int] == batch@);
            return false;
        }
        b = b + 1;
    }
    true
}

/// Copies of batches.
fn copy_batches(data: &Vec<RecordBatch>) -> (c: Vec<RecordBatch>)
    ensures
        batches_view(c@) == batches_view(data@),
{
    let mut c: Vec<RecordBatch> = Vec::new();
    let mut b: usize = 0;
    while b < data.len()
        invariant
            b <= data@.len(),
            c@.len() == b,
            forall|j: int| 0 <= j < b ==> (#[trigger] c@[j])@ == data@[j]@,
        decreases data@.len() - b,
    {
        c.push(data[b].copy());
        b = b + 1;
    }
    assert(batches_view(c@) =~= batches_view(data@));
    c
}

/// The simplest source: batches already sitting in memory.
#[derive(Debug)]
pub struct InMemoryDataSource {
    schema: Schema,
    data: Vec<RecordBatch>,
}

/// A CSV file's source: its bytes, its schema (given, or inferred from the
/// bytes), and how many rows each scanned batch holds at most.
#[derive(Debug)]
pub struct CsvDataSource {
    path: String,
    schema: Schema,
    batch_size: usize,
    bytes: Vec<u8>,
}

/// The schema a CSV source uses: the one given, else the one inferred from
/// its bytes.
pub open spec fn csv_schema_choice(bytes: Seq<u8>, given: Option<Seq<FieldView>>) -> Option<Seq<FieldView>> {
    match given {
        Some(s) => Some(s),
        None => csv_inferred_schema(bytes, INFER_RECORDS),
    }
}

/// Every column of a CSV file's bytes decoded under `schema`.
pub open spec fn csv_source_data(bytes: Seq<u8>, schema: Seq<FieldView>, batch_size: usize) -> Option<Seq<BatchView>> {
    csv_decoded(bytes, schema, batch_size, all_columns(schema.len()))
}

/// The view of an optional schema.
pub open spec fn schema_opt_view(s: Option<Schema>) -> Option<Seq<FieldView>> {
    match s {
        Some(x) => Some(x@),
        None => None,
    }
}

/// A copy of a byte vector.
fn copy_bytes(bytes: &Vec<u8>) -> (c: Vec<u8>)
    ensures
        c@ == bytes@,
{
    let mut c: Vec<u8> = Vec::new();
    let mut i: usize = 0;
    while i < bytes.len()
        invariant
            i <= bytes@.len(),
            c@ == bytes@.take(i as int),
        decreases bytes@.len() - i,
    {
        c.push(bytes[i]);
        i = i + 1;
        assert(c@ =~= bytes@.take(i as int));
    }
    assert(bytes@.take(bytes@.len() as int) =~= bytes@);
    c
}

/// A parquet file's source: the schema from its footer and the batches
/// read from it.
#[derive(Debug)]
pub struct ParquetDataSource {
    path: String,
    schema: Schema,
    data: Vec<RecordBatch>,
}

/// Anything the engine can scan.
#[derive(Debug)]
pub enum DataSource {
    InMemory(InMemoryDataSource),
    Csv(CsvDataSource),
    Parquet(ParquetDataSource),
}

impl InMemoryDataSource {
    pub closed spec fn schema_view(&self) -> Seq<FieldView> {
        self.schema@
    }

    pub closed spec fn data_view(&self) -> Seq<BatchView> {
        batches_view(self.data@)
    }


    pub fn new(schema: Schema, data: Vec<RecordBatch>) -> (s: InMemoryDataSource)
        ensures
            s.schema_view() == schema@,
            s.data_view() == batches_view(data@),
    {
        InMemoryDataSource { schema, data }
    }
}

impl CsvDataSource {
    /// The bytes decode under the schema, every column of them.
    #[verifier::type_invariant]
    spec fn decodes(self) -> bool {
        csv_source_data(self.bytes@, self.schema@, self.batch_size) is Some
    }

    pub closed spec fn schema_view(&self) -> Seq<FieldView> {
        self.schema@
    }

    /// The batches the bytes decode into, every column.
    pub closed spec fn data_view(&self) -> Seq<BatchView> {
        match csv_source_data(self.bytes@, self.schema@, self.batch_size) {
            Some(d) => d,
            None => Seq::empty(),
        }
    }

    pub closed spec fn bytes_view(&self) -> Seq<u8> {
        self.bytes@
    }

    pub closed spec fn path_view(&self) -> Seq<char> {
        self.path@
    }

    pub closed spec fn batch_size_view(&self) -> usize {
        self.batch_size
    }

    /// A source over `bytes`, the contents of the CSV file at `path`, read
    /// in batches of at most `batch_size` rows. Without a schema, one is
    /// inferred from up to [`INFER_RECORDS`] records. `None` when inference
    /// fails or the bytes do not decode under the schema.
    pub fn new(path: String, bytes: Vec<u8>, schema: Option<Schema>, batch_size: usize) -> (s: Option<CsvDataSource>)
        ensures
            s is Some <==> (csv_schema_choice(bytes@, schema_opt_view(schema)) matches Some(chosen)
                && csv_source_data(bytes@, chosen, batch_size) is Some),
            s matches Some(src) ==> {
                &&& csv_schema_choice(bytes@, schema_opt_view(schema)) == Some(src.schema_view())
                &&& csv_source_data(bytes@, src.schema_view(), batch_size) == Some(src.data_view())
                &&& src.bytes_view() == bytes@
                &&& src.path_view() == path@
                &&& src.batch_size_view() == batch_size
            },
    {
        let schema = match schema {
            Some(given) => given,
            None => match infer_csv_schema(bytes.as_slice(), INFER_RECORDS) {
                Some(inferred) => inferred,
                None => return None,
            },
        };
        let all = all_column_indices(schema.fields.len());
        match decode_csv(bytes.as_slice(), &schema, batch_size, &all) {
            Some(_) => Some(CsvDataSource { path, schema, batch_size, bytes }),
            None => None,
        }
    }

    pub fn path(&self) -> (p: &String)
        ensures
            p@ == self.path_view(),
    {
        &self.path
    }

    pub fn batch_size(&self) -> (n: usize)
        ensures
            n == self.batch_size_view(),
    {
        self.batch_size
    }

    /// Every batch the bytes decode into, every column.
    fn decode_all(&self) -> (out: Vec<RecordBatch>)
        ensures
            batches_view(out@) == self.data_view(),
            forall|b: int| 0 <= b < out@.len() ==> (#[trigger] out@[b]).wf(),
    {
        proof { use_type_invariant(self); }
        let all = all_column_indices(self.schema.fields.len());
        match decode_csv(self.bytes.as_slice(), &self.schema, self.batch_size, &all) {
            Some(v) => v,
            None => {
                assert(false);
                Vec::new()
            },
        }
    }

    /// Decode the bytes, converting only the `projection` columns, in that
    /// order; an empty projection means all columns.
    fn scan_bytes(&self, projection: &Vec<String>) -> (out: Vec<RecordBatch>)
        requires
            all_named(self.schema_view(), strings_view(projection@)),
        ensures
            batches_view(out@) == scan_view(self.schema_view(), self.data_view(), strings_view(projection@)),
            forall|b: int| 0 <= b < out@.len() ==> (#[trigger] out@[b]).wf(),
    {
        if projection.len() == 0 {
            return self.decode_all();
        }
        proof { use_type_invariant(self); }
        let indices = resolve_indices(&self.schema, projection);
        let ghost d = self.data_view();
        match decode_csv(self.bytes.as_slice(), &self.schema, self.batch_size, &indices) {
            Some(v) => {
                assert(Seq::new(indices@.len(), |k: int| indices@[k] as int) =~= projection_indices(
                    self.schema@,
                    strings_view(projection@),
                ));
                assert(batches_view(v@) =~= scan_view(self.schema_view(), d, strings_view(projection@)));
                v
            },
            None => {
                assert(false);
                Vec::new()
            },
        }
    }

    /// A copy of this source.
    fn copy(&self) -> (c: CsvDataSource)
        ensures
            c.schema_view() == self.schema_view(),
            c.data_view() == self.data_view(),
            c.path_view() == self.path_view(),
            c.batch_size_view() == self.batch_size_view(),
            c.bytes_view() == self.bytes_view(),
    {
        proof { use_type_invariant(self); }
        CsvDataSource {
            path: self.path.clone(),
            schema: self.schema.copy(),
            batch_size: self.batch_size,
            bytes: copy_bytes(&self.bytes),
        }
    }
}

impl ParquetDataSource {
    pub closed spec fn schema_view(&self) -> Seq<FieldView> {
        self.schema@
    }

    pub closed spec fn data_view(&self) -> Seq<BatchView> {
        batches_view(self.data@)
    }

    pub closed spec fn path_view(&self) -> Seq<char> {
        self.path@
    }


    /// A source over the batches read from the parquet file at `path`.
    pub fn new(path: String, schema: Schema, data: Vec<RecordBatch>) -> (s: ParquetDataSource)
        ensures
            s.path_view() == path@,
            s.schema_view() == schema@,
            s.data_view() == batches_view(data@),
    {
        ParquetDataSource { path, schema, data }
    }

    pub fn path(&self) -> (p: &String)
        ensures
            p@ == self.path_view(),
    {
        &self.path
    }
}

impl DataSource {
    /// The full schema of the underlying data, before any projection.
    pub open spec fn schema_view(&self) -> Seq<FieldView> {
        match self {
            DataSource::InMemory(s) => s.schema_view(),
            DataSource::Csv(s) => s.schema_view(),
            DataSource::Parquet(s) => s.schema_view(),
        }
    }

    /// The batches the source holds.
    pub open spec fn data_view(&self) -> Seq<BatchView> {
        match self {
            DataSource::InMemory(s) => s.data_view(),
            DataSource::Csv(s) => s.data_view(),
            DataSource::Parquet(s) => s.data_view(),
        }
    }

    /// Every batch the source holds has its schema, with columns that fit it.
    pub open spec fn wf(&self) -> bool {
        batches_fit(self.schema_view(), self.data_view())
    }

    /// Whether every batch the source holds has its schema, with columns
    /// that fit it.
    pub fn check(&self) -> (ok: bool)
        ensures
            ok == self.wf(),
    {
        match self {
            DataSource::InMemory(s) => batches_fit_check(&s.schema, &s.data),
            DataSource::Csv(s) => batches_fit_check(&s.schema, &s.decode_all()),
            DataSource::Parquet(s) => batches_fit_check(&s.schema, &s.data),
        }
    }

    /// A copy of this source: same schema, same batches.
    pub fn copy(&self) -> (c: DataSource)
        ensures
            c.schema_view() == self.schema_view(),
            c.data_view() == self.data_view(),
    {
        match self {
            DataSource::InMemory(s) => DataSource::InMemory(
                InMemoryDataSource { schema: s.schema.copy(), data: copy_batches(&s.data) },
            ),
            DataSource::Csv(s) => DataSource::Csv(s.copy()),
            DataSource::Parquet(s) => DataSource::Parquet(
                ParquetDataSource { path: s.path.clone(), schema: s.schema.copy(), data: copy_batches(&s.data) },
            ),
        }
    }

    /// The full schema of the underlying data.
    pub fn schema(&self) -> (s: Schema)
        ensures
            s@ == self.schema_view(),
    {
        match self {
            DataSource::InMemory(s) => s.schema.copy(),
            DataSource::Csv(s) => s.schema.copy(),
            DataSource::Parquet(s) => s.schema.copy(),
        }
    }

    /// Read the data, yielding batches containing only the `projection`
    /// columns, in that order. An empty projection means all columns.
    /// Every projected name must be in the schema.
    pub fn scan(&self, projection: &Vec<String>) -> (out: Vec<RecordBatch>)
        requires
            self.wf(),
            all_named(self.schema_view(), strings_view(projection@)),
        ensures
            batches_view(out@) == scan_view(self.schema_view(), self.data_view(), strings_view(projection@)),
            forall|b: int| 0 <= b < out@.len() ==> (#[trigger] out@[b]).wf(),
    {
        match self {
            DataSource::InMemory(s) => scan_batches(&s.schema, &s.data, projection),
            DataSource::Csv(s) => s.scan_bytes(projection),
            DataSource::Parquet(s) => scan_batches(&s.schema, &s.data, projection),
        }
    }
}

} // verus!
