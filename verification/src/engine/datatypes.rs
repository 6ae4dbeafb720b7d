//! The engine's type system.
//!
//! Operators never see a storage format: they see [`ColumnVector`], the
//! engine's own column, which is either a column of stored values or a
//! scalar standing in for a column of one repeated value.
//!
//! Floating-point values are carried as their IEEE 754 bit patterns.

use crate::engine::text::{i64_text, int_text, push_char, push_text, u64_text};
use vstd::prelude::*;

verus! {

/// The column types the engine supports.
#[derive(Clone, Copy, Debug, PartialEq, Eq, Structural)]
pub enum DataType {
    Boolean,
    Int8,
    Int16,
    Int32,
    Int64,
    UInt8,
    UInt16,
    UInt32,
    UInt64,
    Float32,
    Float64,
    Utf8,
}

pub open spec fn is_float_type(t: DataType) -> bool {
    t == DataType::Float32 || t == DataType::Float64
}

pub open spec fn is_integer_type(t: DataType) -> bool {
    !is_float_type(t) && t != DataType::Boolean && t != DataType::Utf8
}

pub open spec fn is_numeric_type(t: DataType) -> bool {
    is_integer_type(t) || is_float_type(t)
}

/// Whether `t` is one of the two floating-point types.
pub fn is_float(t: DataType) -> (float: bool)
    ensures
        float == is_float_type(t),
{
    match t {
        DataType::Float32 | DataType::Float64 => true,
        _ => false,
    }
}

/// A value as the contracts see it; strings are their characters and
/// floats their bit patterns.
pub enum Scalar {
    Boolean(bool),
    Int8(i8),
    Int16(i16),
    Int32(i32),
    Int64(i64),
    UInt8(u8),
    UInt16(u16),
    UInt32(u32),
    UInt64(u64),
    Float32(u32),
    Float64(u64),
    Utf8(Seq<char>),
}

/// One value read out of a column. SQL NULL is represented outside this
/// enum, as `Option<ScalarValue>::None`. `Float32` and `Float64` hold the
/// IEEE 754 bits of the value (`f32::to_bits` / `f64::to_bits`).
#[derive(Debug, Clone, PartialEq)]
pub enum ScalarValue {
    Boolean(bool),
    Int8(i8),
    Int16(i16),
    Int32(i32),
    Int64(i64),
    UInt8(u8),
    UInt16(u16),
    UInt32(u32),
    UInt64(u64),
    Float32(u32),
    Float64(u64),
    Utf8(String),
}

impl DeepView for ScalarValue {
    type V = Scalar;

    open spec fn deep_view(&self) -> Scalar {
        match self {
            ScalarValue::Boolean(x) => Scalar::Boolean(*x),
            ScalarValue::Int8(x) => Scalar::Int8(*x),
            ScalarValue::Int16(x) => Scalar::Int16(*x),
            ScalarValue::Int32(x) => Scalar::Int32(*x),
            ScalarValue::Int64(x) => Scalar::Int64(*x),
            ScalarValue::UInt8(x) => Scalar::UInt8(*x),
            ScalarValue::UInt16(x) => Scalar::UInt16(*x),
            ScalarValue::UInt32(x) => Scalar::UInt32(*x),
            ScalarValue::UInt64(x) => Scalar::UInt64(*x),
            ScalarValue::Float32(x) => Scalar::Float32(*x),
            ScalarValue::Float64(x) => Scalar::Float64(*x),
            ScalarValue::Utf8(s) => Scalar::Utf8(s@),
        }
    }
}

/// The column type a value belongs to.
pub open spec fn scalar_type(v: Scalar) -> DataType {
    match v {
        Scalar::Boolean(_) => DataType::Boolean,
        Scalar::Int8(_) => DataType::Int8,
        Scalar::Int16(_) => DataType::Int16,
        Scalar::Int32(_) => DataType::Int32,
        Scalar::Int64(_) => DataType::Int64,
        Scalar::UInt8(_) => DataType::UInt8,
        Scalar::UInt16(_) => DataType::UInt16,
        Scalar::UInt32(_) => DataType::UInt32,
        Scalar::UInt64(_) => DataType::UInt64,
        Scalar::Float32(_) => DataType::Float32,
        Scalar::Float64(_) => DataType::Float64,
        Scalar::Utf8(_) => DataType::Utf8,
    }
}

impl ScalarValue {
    /// The column type this value belongs to.
    pub fn data_type(&self) -> (t: DataType)
        ensures
            t == scalar_type(self.deep_view()),
    {
        match self {
            ScalarValue::Boolean(_) => DataType::Boolean,
            ScalarValue::Int8(_) => DataType::Int8,
            ScalarValue::Int16(_) => DataType::Int16,
            ScalarValue::Int32(_) => DataType::Int32,
            ScalarValue::Int64(_) => DataType::Int64,
            ScalarValue::UInt8(_) => DataType::UInt8,
            ScalarValue::UInt16(_) => DataType::UInt16,
            ScalarValue::UInt32(_) => DataType::UInt32,
            ScalarValue::UInt64(_) => DataType::UInt64,
            ScalarValue::Float32(_) => DataType::Float32,
            ScalarValue::Float64(_) => DataType::Float64,
            ScalarValue::Utf8(_) => DataType::Utf8,
        }
    }

    /// A copy of this value.
    pub fn copy(&self) -> (c: ScalarValue)
        ensures
            c == *self,
            c.deep_view() == self.deep_view(),
    {
        match self {
            ScalarValue::Boolean(x) => ScalarValue::Boolean(*x),
            ScalarValue::Int8(x) => ScalarValue::Int8(*x),
            ScalarValue::Int16(x) => ScalarValue::Int16(*x),
            ScalarValue::Int32(x) => ScalarValue::Int32(*x),
            ScalarValue::Int64(x) => ScalarValue::Int64(*x),
            ScalarValue::UInt8(x) => ScalarValue::UInt8(*x),
            ScalarValue::UInt16(x) => ScalarValue::UInt16(*x),
            ScalarValue::UInt32(x) => ScalarValue::UInt32(*x),
            ScalarValue::UInt64(x) => ScalarValue::UInt64(*x),
            ScalarValue::Float32(x) => ScalarValue::Float32(*x),
            ScalarValue::Float64(x) => ScalarValue::Float64(*x),
            ScalarValue::Utf8(s) => ScalarValue::Utf8(s.clone()),
        }
    }
}

/// How a value is printed: booleans as `true` / `false`, integers in
/// decimal, strings between single quotes. Floats are printed by the code
/// that holds them as numbers, so they have no text here.
pub open spec fn scalar_text(v: Scalar) -> Seq<char> {
    match v {
        Scalar::Boolean(b) => if b {
            "true"@
        } else {
            "false"@
        },
        Scalar::Int8(x) => int_text(x as int),
        Scalar::Int16(x) => int_text(x as int),
        Scalar::Int32(x) => int_text(x as int),
        Scalar::Int64(x) => int_text(x as int),
        Scalar::UInt8(x) => int_text(x as int),
        Scalar::UInt16(x) => int_text(x as int),
        Scalar::UInt32(x) => int_text(x as int),
        Scalar::UInt64(x) => int_text(x as int),
        Scalar::Utf8(s) => seq!['\''] + s + seq!['\''],
        _ => Seq::empty(),
    }
}

impl ScalarValue {
    /// How this value is printed; it must not be a float.
    pub fn to_text(&self) -> (text: String)
        requires
            !is_float_type(scalar_type(self.deep_view())),
        ensures
            text@ == scalar_text(self.deep_view()),
    {
        match self {
            ScalarValue::Boolean(b) => if *b {
                String::from_str("true")
            } else {
                String::from_str("false")
            },
            ScalarValue::Int8(x) => i64_text(*x as i64),
            ScalarValue::Int16(x) => i64_text(*x as i64),
            ScalarValue::Int32(x) => i64_text(*x as i64),
            ScalarValue::Int64(x) => i64_text(*x),
            ScalarValue::UInt8(x) => u64_text(*x as u64),
            ScalarValue::UInt16(x) => u64_text(*x as u64),
            ScalarValue::UInt32(x) => u64_text(*x as u64),
            ScalarValue::UInt64(x) => u64_text(*x),
            ScalarValue::Utf8(s) => {
                let mut t = String::new();
                push_char(&mut t, '\'');
                push_text(&mut t, s);
                push_char(&mut t, '\'');
                assert(t@ =~= scalar_text(self.deep_view()));
                t
            },
            _ => String::new(),
        }
    }
}

/// The view of a nullable value.
pub open spec fn opt_view(v: Option<ScalarValue>) -> Option<Scalar> {
    match v {
        Some(x) => Some(x.deep_view()),
        None => None,
    }
}

/// The view of a sequence of nullable values.
pub open spec fn values_view(values: Seq<Option<ScalarValue>>) -> Seq<Option<Scalar>> {
    Seq::new(values.len(), |i: int| opt_view(values[i]))
}

/// Every non-NULL value has type `t`.
pub open spec fn values_typed(values: Seq<Option<Scalar>>, t: DataType) -> bool {
    forall|i: int| 0 <= i < values.len() ==> (#[trigger] values[i] matches Some(v) ==> scalar_type(v) == t)
}

/// A copy of a nullable value.
pub fn copy_value(v: &Option<ScalarValue>) -> (c: Option<ScalarValue>)
    ensures
        opt_view(c) == opt_view(*v),
{
    match v {
        Some(x) => Some(x.copy()),
        None => None,
    }
}

/// A copy of a sequence of nullable values.
pub fn copy_values(values: &Vec<Option<ScalarValue>>) -> (c: Vec<Option<ScalarValue>>)
    ensures
        values_view(c@) == values_view(values@),
{
    let mut c: Vec<Option<ScalarValue>> = Vec::new();
    let mut i: usize = 0;
    while i < values.len()
        invariant
            i <= values@.len(),
            c@.len() == i,
            forall|j: int| 0 <= j < i ==> opt_view(#[trigger] c@[j]) == opt_view(values@[j]),
        decreases values@.len() - i,
    {
        c.push(copy_value(&values[i]));
        i = i + 1;
    }
    assert(values_view(c@) =~= values_view(values@));
    c
}

/// A field of a schema as the contracts see it.
pub struct FieldView {
    pub name: Seq<char>,
    pub data_type: DataType,
    pub nullable: bool,
}

/// A named, typed column slot of a schema.
#[derive(Debug, Clone, PartialEq)]
pub struct Field {
    pub name: String,
    pub data_type: DataType,
    pub nullable: bool,
}

impl View for Field {
    type V = FieldView;

    open spec fn view(&self) -> FieldView {
        FieldView { name: self.name@, data_type: self.data_type, nullable: self.nullable }
    }
}

impl Field {
    pub fn new(name: &str, data_type: DataType, nullable: bool) -> (f: Field)
        ensures
            f@ == (FieldView { name: name@, data_type, nullable }),
    {
        Field { name: String::from_str(name), data_type, nullable }
    }

    pub fn name(&self) -> (name: &String)
        ensures
            name@ == self@.name,
    {
        &self.name
    }

    pub fn data_type(&self) -> (t: DataType)
        ensures
            t == self@.data_type,
    {
        self.data_type
    }

    pub fn is_nullable(&self) -> (nullable: bool)
        ensures
            nullable == self@.nullable,
    {
        self.nullable
    }

    /// A copy of this field.
    pub fn copy(&self) -> (c: Field)
        ensures
            c@ == self@,
    {
        Field { name: self.name.clone(), data_type: self.data_type, nullable: self.nullable }
    }
}

/// Why a schema lookup failed.
#[derive(Debug, Clone, PartialEq)]
pub enum SchemaError {
    /// No field has this name.
    UnknownField(String),
    /// A projection index past the last field.
    IndexOutOfBounds { index: usize, field_count: usize },
}

/// Whether some field is named `name`.
pub open spec fn has_name(fields: Seq<FieldView>, name: Seq<char>) -> bool {
    exists|j: int| 0 <= j < fields.len() && fields[j].name == name
}

/// `i` is the position of the first field named `name`.
pub open spec fn is_first_named(fields: Seq<FieldView>, name: Seq<char>, i: int) -> bool {
    &&& 0 <= i < fields.len()
    &&& fields[i].name == name
    &&& forall|j: int| 0 <= j < i ==> fields[j].name != name
}

/// The position of the first field named `name` (meaningful when
/// `has_name(fields, name)`).
pub open spec fn name_index(fields: Seq<FieldView>, name: Seq<char>) -> int {
    choose|i: int| is_first_named(fields, name, i)
}

/// The first field with a name is found by `name_index`.
pub proof fn lemma_name_index(fields: Seq<FieldView>, name: Seq<char>, i: int)
    requires
        is_first_named(fields, name, i),
    ensures
        name_index(fields, name) == i,
{
    let k = name_index(fields, name);
    assert(is_first_named(fields, name, k));
    if k < i {
        assert(fields[k].name != name);
    } else if i < k {
        assert(fields[i].name != name);
    }
}

/// If some field has a name, a first such field exists.
pub proof fn lemma_has_name_first(fields: Seq<FieldView>, name: Seq<char>)
    requires
        has_name(fields, name),
    ensures
        is_first_named(fields, name, name_index(fields, name)),
    decreases fields.len(),
{
    let j = choose|j: int| 0 <= j < fields.len() && fields[j].name == name;
    if fields[0].name == name {
        assert(is_first_named(fields, name, 0));
        lemma_name_index(fields, name, 0);
    } else {
        let rest = fields.drop_first();
        assert(rest[j - 1].name == name);
        lemma_has_name_first(rest, name);
        let k = name_index(rest, name);
        assert forall|m: int| 0 <= m < k + 1 implies fields[m].name != name by {
            if m > 0 {
                assert(fields[m] == rest[m - 1]);
            }
        }
        assert(is_first_named(fields, name, k + 1));
        lemma_name_index(fields, name, k + 1);
    }
}

/// The view of a list of fields.
pub open spec fn fields_view(fields: Seq<Field>) -> Seq<FieldView> {
    Seq::new(fields.len(), |i: int| fields[i]@)
}

/// An ordered list of fields describing the columns of a batch.
#[derive(Debug, Clone, PartialEq)]
pub struct Schema {
    pub fields: Vec<Field>,
}

impl View for Schema {
    type V = Seq<FieldView>;

    open spec fn view(&self) -> Seq<FieldView> {
        fields_view(self.fields@)
    }
}

/// The fields at `indices`, in that order.
pub open spec fn project_fields(fields: Seq<FieldView>, indices: Seq<usize>) -> Seq<FieldView> {
    Seq::new(indices.len(), |k: int| fields[indices[k] as int])
}

impl Schema {
    pub fn new(fields: Vec<Field>) -> (s: Schema)
        ensures
            s.fields@ == fields@,
    {
        Schema { fields }
    }

    pub fn fields(&self) -> (fields: &Vec<Field>)
        ensures
            fields@ == self.fields@,
    {
        &self.fields
    }

    /// The field at position `i`; `i` must be in range.
    pub fn field(&self, i: usize) -> (f: &Field)
        requires
            i < self@.len(),
        ensures
            f@ == self@[i as int],
    {
        &self.fields[i]
    }

    /// Position of the first field named `name`.
    pub fn index_of(&self, name: &str) -> (r: Result<usize, SchemaError>)
        ensures
            match r {
                Ok(i) => is_first_named(self@, name@, i as int),
                Err(e) => !has_name(self@, name@) && (e matches SchemaError::UnknownField(n) && n@ == name@),
            },
    {
        let wanted = String::from_str(name);
        self.index_of_string(&wanted)
    }

    /// Position of the first field named `name`.
    pub fn index_of_string(&self, name: &String) -> (r: Result<usize, SchemaError>)
        ensures
            match r {
                Ok(i) => is_first_named(self@, name@, i as int),
                Err(e) => !has_name(self@, name@) && (e matches SchemaError::UnknownField(n) && n@ == name@),
            },
    {
        let mut i: usize = 0;
        while i < self.fields.len()
            invariant
                i <= self.fields@.len(),
                self@.len() == self.fields@.len(),
                forall|j: int| 0 <= j < i ==> self@[j].name != name@,
            decreases self.fields@.len() - i,
        {
            if self.fields[i].name == *name {
                return Ok(i);
            }
            i = i + 1;
        }
        Err(SchemaError::UnknownField(name.clone()))
    }

    /// The first field named `name`.
    pub fn field_with_name(&self, name: &str) -> (r: Result<&Field, SchemaError>)
        ensures
            match r {
                Ok(f) => has_name(self@, name@) && f@ == self@[name_index(self@, name@)],
                Err(e) => !has_name(self@, name@) && (e matches SchemaError::UnknownField(n) && n@ == name@),
            },
    {
        match self.index_of(name) {
            Ok(i) => {
                proof {
                    lemma_name_index(self@, name@, i as int);
                }
                Ok(&self.fields[i])
            },
            Err(e) => Err(e),
        }
    }

    /// A schema of the fields at `indices`, in that order. Fails on an
    /// index past the last field.
    pub fn project(&self, indices: &[usize]) -> (r: Result<Schema, SchemaError>)
        ensures
            match r {
                Ok(s) => (forall|k: int| 0 <= k < indices@.len() ==> indices@[k] < self@.len())
                    && s@ == project_fields(self@, indices@),
                Err(e) => exists|k: int| 0 <= k < indices@.len() && indices@[k] >= self@.len(),
            },
    {
        let mut fields: Vec<Field> = Vec::new();
        let mut k: usize = 0;
        while k < indices.len()
            invariant
                k <= indices@.len(),
                forall|m: int| 0 <= m < k ==> indices@[m] < self@.len(),
                fields@.len() == k,
                forall|m: int| 0 <= m < k ==> (#[trigger] fields@[m])@ == self@[indices@[m] as int],
            decreases indices@.len() - k,
        {
            let i = indices[k];
            if i >= self.fields.len() {
                return Err(SchemaError::IndexOutOfBounds { index: i, field_count: self.fields.len() });
            }
            fields.push(self.fields[i].copy());
            k = k + 1;
        }
        assert(fields_view(fields@) =~= project_fields(self@, indices@));
        Ok(Schema { fields })
    }

    /// Whether two schemas have the same fields: names, types and
    /// nullability, in order.
    pub fn same(&self, other: &Schema) -> (same: bool)
        ensures
            same == (self@ == other@),
    {
        if self.fields.len() != other.fields.len() {
            assert(self@.len() != other@.len());
            return false;
        }
        let mut i: usize = 0;
        while i < self.fields.len()
            invariant
                i <= self.fields@.len(),
                self.fields@.len() == other.fields@.len(),
                forall|j: int| 0 <= j < i ==> (#[trigger] self.fields@[j])@ == other.fields@[j]@,
            decreases self.fields@.len() - i,
        {
            let a = &self.fields[i];
            let b = &other.fields[i];
            if !(a.name == b.name && a.data_type == b.data_type && a.nullable == b.nullable) {
                assert(self@[i as int] != other@[i as int]);
                return false;
            }
            i = i + 1;
        }
        assert(self@ =~= other@);
        true
    }

    /// A copy of this schema.
    pub fn copy(&self) -> (c: Schema)
        ensures
            c@ == self@,
    {
        let mut fields: Vec<Field> = Vec::new();
        let mut k: usize = 0;
        while k < self.fields.len()
            invariant
                k <= self.fields@.len(),
                fields@.len() == k,
                forall|m: int| 0 <= m < k ==> (#[trigger] fields@[m])@ == self.fields@[m]@,
            decreases self.fields@.len() - k,
        {
            fields.push(self.fields[k].copy());
            k = k + 1;
        }
        assert(fields_view(fields@) =~= self@);
        Schema { fields }
    }
}

/// A column as the contracts see it: its type and one nullable value per row.
pub struct ColumnView {
    pub data_type: DataType,
    pub values: Seq<Option<Scalar>>,
}

/// A column of stored values, one per row.
#[derive(Debug)]
pub struct ArrowFieldVector {
    data_type: DataType,
    values: Vec<Option<ScalarValue>>,
}

impl View for ArrowFieldVector {
    type V = ColumnView;

    closed spec fn view(&self) -> ColumnView {
        ColumnView { data_type: self.data_type, values: values_view(self.values@) }
    }
}

impl ArrowFieldVector {
    /// Every stored value has the column's type.
    #[verifier::type_invariant]
    spec fn typed(self) -> bool {
        values_typed(values_view(self.values@), self.data_type)
    }

    /// A column of `data_type` holding `values`, each of which has that type.
    pub fn new(data_type: DataType, values: Vec<Option<ScalarValue>>) -> (c: ArrowFieldVector)
        requires
            values_typed(values_view(values@), data_type),
        ensures
            c@ == (ColumnView { data_type, values: values_view(values@) }),
    {
        ArrowFieldVector { data_type, values }
    }

    pub fn data_type(&self) -> (t: DataType)
        ensures
            t == self@.data_type,
    {
        self.data_type
    }

    /// Value at row `i`; `None` means SQL NULL, and any other value has the
    /// column's type. `i` must be a row.
    pub fn value(&self, i: usize) -> (v: Option<ScalarValue>)
        requires
            i < self@.values.len(),
        ensures
            opt_view(v) == self@.values[i as int],
            opt_view(v) matches Some(x) ==> scalar_type(x) == self@.data_type,
    {
        proof {
            use_type_invariant(self);
            assert(values_view(self.values@)[i as int] == opt_view(self.values@[i as int]));
        }
        copy_value(&self.values[i])
    }

    pub fn size(&self) -> (n: usize)
        ensures
            n == self@.values.len(),
    {
        self.values.len()
    }

    pub fn copy(&self) -> (c: ArrowFieldVector)
        ensures
            c@ == self@,
    {
        proof { use_type_invariant(self); }
        ArrowFieldVector { data_type: self.data_type, values: copy_values(&self.values) }
    }
}

/// A scalar standing in for a column: every row reads the same value.
#[derive(Debug)]
pub struct LiteralValueVector {
    data_type: DataType,
    value: Option<ScalarValue>,
    size: usize,
}

impl View for LiteralValueVector {
    type V = ColumnView;

    closed spec fn view(&self) -> ColumnView {
        ColumnView {
            data_type: self.data_type,
            values: Seq::new(self.size as nat, |i: int| opt_view(self.value)),
        }
    }
}

impl LiteralValueVector {
    /// `value: None` makes a column of NULLs.
    pub fn new(data_type: DataType, value: Option<ScalarValue>, size: usize) -> (c: LiteralValueVector)
        ensures
            c@ == (ColumnView { data_type, values: Seq::new(size as nat, |i: int| opt_view(value)) }),
    {
        LiteralValueVector { data_type, value, size }
    }

    pub fn data_type(&self) -> (t: DataType)
        ensures
            t == self@.data_type,
    {
        self.data_type
    }

    /// Value at row `i`; `i` must be a row.
    pub fn value(&self, i: usize) -> (v: Option<ScalarValue>)
        requires
            i < self@.values.len(),
        ensures
            opt_view(v) == self@.values[i as int],
    {
        copy_value(&self.value)
    }

    pub fn size(&self) -> (n: usize)
        ensures
            n == self@.values.len(),
    {
        self.size
    }

    pub fn copy(&self) -> (c: LiteralValueVector)
        ensures
            c@ == self@,
    {
        LiteralValueVector { data_type: self.data_type, value: copy_value(&self.value), size: self.size }
    }
}

/// A read-only column: stored values, or one value repeated.
#[derive(Debug)]
pub enum ColumnVector {
    Arrow(ArrowFieldVector),
    Literal(LiteralValueVector),
}

impl View for ColumnVector {
    type V = ColumnView;

    open spec fn view(&self) -> ColumnView {
        match self {
            ColumnVector::Arrow(c) => c@,
            ColumnVector::Literal(c) => c@,
        }
    }
}

impl ColumnVector {
    pub fn data_type(&self) -> (t: DataType)
        ensures
            t == self@.data_type,
    {
        match self {
            ColumnVector::Arrow(c) => c.data_type(),
            ColumnVector::Literal(c) => c.data_type(),
        }
    }

    /// Value at row `i`; `None` means SQL NULL. `i` must be a row.
    pub fn value(&self, i: usize) -> (v: Option<ScalarValue>)
        requires
            i < self@.values.len(),
        ensures
            opt_view(v) == self@.values[i as int],
    {
        match self {
            ColumnVector::Arrow(c) => c.value(i),
            ColumnVector::Literal(c) => c.value(i),
        }
    }

    pub fn size(&self) -> (n: usize)
        ensures
            n == self@.values.len(),
    {
        match self {
            ColumnVector::Arrow(c) => c.size(),
            ColumnVector::Literal(c) => c.size(),
        }
    }

    pub fn copy(&self) -> (c: ColumnVector)
        ensures
            c@ == self@,
    {
        match self {
            ColumnVector::Arrow(c) => ColumnVector::Arrow(c.copy()),
            ColumnVector::Literal(c) => ColumnVector::Literal(c.copy()),
        }
    }
}

/// The view of a list of columns.
pub open spec fn columns_view(columns: Seq<ColumnVector>) -> Seq<ColumnView> {
    Seq::new(columns.len(), |i: int| columns[i]@)
}

/// A batch as the contracts see it.
pub struct BatchView {
    pub schema: Seq<FieldView>,
    pub columns: Seq<ColumnView>,
}

/// Rows of a batch: the length of its first column, or 0 if it has none.
pub open spec fn batch_rows(columns: Seq<ColumnView>) -> nat {
    if columns.len() == 0 {
        0
    } else {
        columns[0].values.len()
    }
}

/// Columns that fit a schema of `field_count` fields: one per field, all
/// of one length.
pub open spec fn columns_fit(field_count: nat, columns: Seq<ColumnView>) -> bool {
    &&& columns.len() == field_count
    &&& forall|c: int| 0 <= c < columns.len() ==> #[trigger] columns[c].values.len() == batch_rows(columns)
}

/// A batch of equal-length columns plus the schema describing them: the
/// unit of data flowing between operators.
#[derive(Debug)]
pub struct RecordBatch {
    schema: Schema,
    columns: Vec<ColumnVector>,
}

impl View for RecordBatch {
    type V = BatchView;

    closed spec fn view(&self) -> BatchView {
        BatchView { schema: self.schema@, columns: columns_view(self.columns@) }
    }
}

/// The view of a list of batches.
pub open spec fn batches_view(batches: Seq<RecordBatch>) -> Seq<BatchView> {
    Seq::new(batches.len(), |i: int| batches[i]@)
}

impl RecordBatch {
    /// Its columns fit its schema.
    pub closed spec fn wf(&self) -> bool {
        columns_fit(self.schema@.len(), columns_view(self.columns@))
    }

    /// The columns must match the schema in number and share one length.
    pub fn new(schema: Schema, columns: Vec<ColumnVector>) -> (b: RecordBatch)
        requires
            columns_fit(schema@.len(), columns_view(columns@)),
        ensures
            b.wf(),
            b@ == (BatchView { schema: schema@, columns: columns_view(columns@) }),
    {
        RecordBatch { schema, columns }
    }

    /// A batch of `columns` under `schema`, or `None` if their number does
    /// not match the schema's or their lengths differ.
    pub fn try_new(schema: Schema, columns: Vec<ColumnVector>) -> (b: Option<RecordBatch>)
        ensures
            match b {
                Some(b) => columns_fit(schema@.len(), columns_view(columns@)) && b.wf() && b@ == (BatchView {
                    schema: schema@,
                    columns: columns_view(columns@),
                }),
                None => !columns_fit(schema@.len(), columns_view(columns@)),
            },
    {
        let b = RecordBatch { schema, columns };
        if b.is_wf() {
            Some(b)
        } else {
            None
        }
    }

    /// A batch is well formed exactly when its view's columns fit its schema.
    pub proof fn lemma_wf(&self)
        ensures
            self.wf() == columns_fit(self@.schema.len(), self@.columns),
    {
    }

    /// Whether the columns fit the schema: one per field, all of one
    /// length.
    pub fn is_wf(&self) -> (ok: bool)
        ensures
            ok == self.wf(),
    {
        let n = self.columns.len();
        if n != self.schema.fields.len() {
            return false;
        }
        if n == 0 {
            return true;
        }
        let rows = self.columns[0].size();
        let ghost cols = columns_view(self.columns@);
        let mut c: usize = 1;
        while c < n
            invariant
                1 <= c <= n,
                n == self.columns@.len(),
                cols == columns_view(self.columns@),
                rows == cols[0].values.len(),
                forall|d: int| 0 <= d < c ==> (#[trigger] cols[d]).values.len() == rows,
            decreases n - c,
        {
            if self.columns[c].size() != rows {
                assert(cols[c as int].values.len() != batch_rows(cols));
                return false;
            }
            c = c + 1;
        }
        true
    }

    pub fn schema(&self) -> (s: &Schema)
        ensures
            s@ == self@.schema,
    {
        &self.schema
    }

    pub fn row_count(&self) -> (n: usize)
        ensures
            n == batch_rows(self@.columns),
    {
        if self.columns.len() == 0 {
            0
        } else {
            self.columns[0].size()
        }
    }

    pub fn column_count(&self) -> (n: usize)
        ensures
            n == self@.columns.len(),
    {
        self.columns.len()
    }

    /// The column at position `i`; `i` must be a column.
    pub fn column(&self, i: usize) -> (c: &ColumnVector)
        requires
            i < self@.columns.len(),
        ensures
            c@ == self@.columns[i as int],
    {
        &self.columns[i]
    }

    pub fn copy(&self) -> (c: RecordBatch)
        ensures
            c@ == self@,
            c.wf() == self.wf(),
    {
        let mut columns: Vec<ColumnVector> = Vec::new();
        let mut k: usize = 0;
        while k < self.columns.len()
            invariant
                k <= self.columns@.len(),
                columns@.len() == k,
                forall|m: int| 0 <= m < k ==> (#[trigger] columns@[m])@ == self.columns@[m]@,
            decreases self.columns@.len() - k,
        {
            columns.push(self.columns[k].copy());
            k = k + 1;
        }
        assert(columns_view(columns@) =~= columns_view(self.columns@));
        RecordBatch { schema: self.schema.copy(), columns }
    }
}

/// A schema containing only the fields named `names`, in that order.
/// Fails on a name the schema doesn't have.
pub fn project_by_name(schema: &Schema, names: &[&str]) -> (r: Result<Schema, SchemaError>)
    ensures
        match r {
            Ok(s) => (forall|k: int| 0 <= k < names@.len() ==> has_name(schema@, (#[trigger] names@[k])@))
                && s@ == Seq::new(names@.len(), |k: int| schema@[name_index(schema@, names@[k]@)]),
            Err(e) => exists|k: int| 0 <= k < names@.len() && !has_name(schema@, (#[trigger] names@[k])@),
        },
{
    let mut fields: Vec<Field> = Vec::new();
    let mut k: usize = 0;
    while k < names.len()
        invariant
            k <= names@.len(),
            fields@.len() == k,
            forall|m: int| 0 <= m < k ==> has_name(schema@, (#[trigger] names@[m])@),
            forall|m: int| 0 <= m < k ==> (#[trigger] fields@[m])@ == schema@[name_index(schema@, names@[m]@)],
        decreases names@.len() - k,
    {
        match schema.index_of(names[k]) {
            Ok(i) => {
                proof {
                    lemma_name_index(schema@, names@[k as int]@, i as int);
                }
                fields.push(schema.fields[i].copy());
            },
            Err(e) => {
                return Err(e);
            },
        }
        k = k + 1;
    }
    let s = Schema { fields };
    assert(s@ =~= Seq::new(names@.len(), |k: int| schema@[name_index(schema@, names@[k]@)]));
    Ok(s)
}

} // verus!
