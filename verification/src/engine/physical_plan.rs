//! Physical plans: runnable operators with every decision made — columns
//! by index, one algorithm per node. Executing a plan yields its record
//! batches.

use crate::engine::datasource::{
    DataSource, all_named, names_in, projection_indices, scan_schema, scan_schema_of, scan_view, strings_view,
};
use crate::engine::datatypes::{
    ArrowFieldVector, BatchView, ColumnVector, ColumnView, DataType, FieldView, RecordBatch, Scalar, ScalarValue,
    Schema, batch_rows, batches_view, columns_fit, columns_view, copy_value, has_name, lemma_has_name_first, opt_view,
    scalar_type, values_typed, values_view,
};
use crate::engine::logical_expr::AggregateFunc;
use crate::engine::physical_expr::{
    Accumulator, AccumulatorState, AggregateExpression, Expression, accumulate_ok, accumulate_state, aggregate_text,
    eval_column, eval_ok, expr_text, final_state_value, initial_state, lemma_accumulate_wf, lemma_eval_rows, state_wf,
};
use crate::engine::text::{debug_quoted, join, joined, push_char, push_text, quote};
use vstd::prelude::*;

verus! {

// ---------------------------------------------------------------------
// Columns built from values
// ---------------------------------------------------------------------

/// A stored column of `data_type` holding `values`; every value must fit
/// the type.
pub fn build_column(values: Vec<Option<ScalarValue>>, data_type: DataType) -> (c: ColumnVector)
    requires
        values_typed(values_view(values@), data_type),
    ensures
        c@ == (ColumnView { data_type, values: values_view(values@) }),
{
    ColumnVector::Arrow(ArrowFieldVector::new(data_type, values))
}

/// Whether a row is kept by a predicate column: only a true value keeps it
/// (NULL filters out).
pub open spec fn kept(predicate: Seq<Option<Scalar>>, i: int) -> bool {
    predicate[i] == Some(Scalar::Boolean(true))
}

/// The values at the rows the predicate keeps, in order.
pub open spec fn filter_values(values: Seq<Option<Scalar>>, predicate: Seq<Option<Scalar>>) -> Seq<Option<Scalar>>
    decreases values.len(),
{
    if values.len() == 0 {
        Seq::empty()
    } else {
        let init = filter_values(values.drop_last(), predicate);
        if kept(predicate, values.len() - 1) {
            init.push(values.last())
        } else {
            init
        }
    }
}

/// How many of the first `n` rows the predicate keeps.
pub open spec fn kept_count(predicate: Seq<Option<Scalar>>, n: int) -> nat
    decreases n,
{
    if n <= 0 {
        0
    } else if kept(predicate, n - 1) {
        kept_count(predicate, n - 1) + 1
    } else {
        kept_count(predicate, n - 1)
    }
}

pub proof fn lemma_filter_len(values: Seq<Option<Scalar>>, predicate: Seq<Option<Scalar>>)
    ensures
        filter_values(values, predicate).len() == kept_count(predicate, values.len() as int),
    decreases values.len(),
{
    if values.len() > 0 {
        lemma_filter_len(values.drop_last(), predicate);
    }
}

/// Whether every non-NULL value has type `t`.
fn values_fit(values: &Vec<Option<ScalarValue>>, t: DataType) -> (ok: bool)
    ensures
        ok == values_typed(values_view(values@), t),
{
    let ghost vals = values_view(values@);
    let mut i: usize = 0;
    while i < values.len()
        invariant
            i <= values@.len(),
            vals == values_view(values@),
            forall|j: int| 0 <= j < i ==> (#[trigger] vals[j] matches Some(v) ==> scalar_type(v) == t),
        decreases values@.len() - i,
    {
        match &values[i] {
            Some(v) => {
                if v.data_type() != t {
                    assert(vals[i as int] == Some(v.deep_view()));
                    return false;
                }
            },
            None => {},
        }
        i = i + 1;
    }
    true
}

/// Gather the values of `col` at the rows `keep` marks into a fresh column
/// of the same type; `None` if a gathered value does not fit that type.
fn filter_column(col: &ColumnVector, keep: &Vec<bool>, predicate: Ghost<Seq<Option<Scalar>>>) -> (c: Option<ColumnVector>)
    requires
        keep@.len() >= col@.values.len(),
        forall|i: int| 0 <= i < col@.values.len() ==> (#[trigger] keep@[i]) == kept(predicate@, i),
    ensures
        match c {
            Some(c) => values_typed(filter_values(col@.values, predicate@), col@.data_type)
                && c@ == (ColumnView { data_type: col@.data_type, values: filter_values(col@.values, predicate@) }),
            None => !values_typed(filter_values(col@.values, predicate@), col@.data_type),
        },
{
    let ghost vals = col@.values;
    let n = col.size();
    let mut values: Vec<Option<ScalarValue>> = Vec::new();
    let mut i: usize = 0;
    while i < n
        invariant
            i <= n,
            n == vals.len(),
            vals == col@.values,
            keep@.len() >= n,
            forall|j: int| 0 <= j < n ==> (#[trigger] keep@[j]) == kept(predicate@, j),
            values_view(values@) == filter_values(vals.take(i as int), predicate@),
        decreases n - i,
    {
        assert(vals.take(i + 1).drop_last() =~= vals.take(i as int));
        if keep[i] {
            let v = col.value(i);
            values.push(v);
            assert(values_view(values@) =~= filter_values(vals.take(i as int), predicate@).push(vals[i as int]));
        }
        i = i + 1;
    }
    assert(vals.take(n as int) =~= vals);
    if !values_fit(&values, col.data_type()) {
        return None;
    }
    Some(build_column(values, col.data_type()))
}

// ---------------------------------------------------------------------
// Group keys
// ---------------------------------------------------------------------

/// Whether two values are the same value (floats compared by bits, so NaN
/// groups with NaN and 0.0 / -0.0 land in different groups).
fn scalar_eq(a: &ScalarValue, b: &ScalarValue) -> (same: bool)
    ensures
        same == (a.deep_view() == b.deep_view()),
{
    match (a, b) {
        (ScalarValue::Boolean(x), ScalarValue::Boolean(y)) => *x == *y,
        (ScalarValue::Int8(x), ScalarValue::Int8(y)) => *x == *y,
        (ScalarValue::Int16(x), ScalarValue::Int16(y)) => *x == *y,
        (ScalarValue::Int32(x), ScalarValue::Int32(y)) => *x == *y,
        (ScalarValue::Int64(x), ScalarValue::Int64(y)) => *x == *y,
        (ScalarValue::UInt8(x), ScalarValue::UInt8(y)) => *x == *y,
        (ScalarValue::UInt16(x), ScalarValue::UInt16(y)) => *x == *y,
        (ScalarValue::UInt32(x), ScalarValue::UInt32(y)) => *x == *y,
        (ScalarValue::UInt64(x), ScalarValue::UInt64(y)) => *x == *y,
        (ScalarValue::Float32(x), ScalarValue::Float32(y)) => *x == *y,
        (ScalarValue::Float64(x), ScalarValue::Float64(y)) => *x == *y,
        (ScalarValue::Utf8(x), ScalarValue::Utf8(y)) => *x == *y,
        _ => false,
    }
}

/// Whether two group keys are equal: same length, and at each position
/// both NULL or the same value.
fn keys_eq(a: &Vec<Option<ScalarValue>>, b: &Vec<Option<ScalarValue>>) -> (same: bool)
    ensures
        same == (values_view(a@) == values_view(b@)),
{
    if a.len() != b.len() {
        assert(values_view(a@).len() != values_view(b@).len());
        return false;
    }
    let mut i: usize = 0;
    while i < a.len()
        invariant
            i <= a@.len(),
            a@.len() == b@.len(),
            forall|j: int| 0 <= j < i ==> opt_view(#[trigger] a@[j]) == opt_view(b@[j]),
        decreases a@.len() - i,
    {
        let same = match (&a[i], &b[i]) {
            (None, None) => true,
            (Some(x), Some(y)) => scalar_eq(x, y),
            _ => false,
        };
        if !same {
            assert(values_view(a@)[i as int] != values_view(b@)[i as int]);
            return false;
        }
        i = i + 1;
    }
    assert(values_view(a@) =~= values_view(b@));
    true
}

// ---------------------------------------------------------------------
// Grouped aggregation, as the contracts see it
// ---------------------------------------------------------------------

/// One input row of an aggregation: its group key and the aggregates'
/// input values.
pub struct AggRow {
    pub key: Seq<Option<Scalar>>,
    pub inputs: Seq<Option<Scalar>>,
}

/// One group: its key and its accumulators' states.
pub struct Group {
    pub key: Seq<Option<Scalar>>,
    pub states: Seq<AccumulatorState>,
}

/// The expressions an aggregation feeds its accumulators from.
pub open spec fn aggregate_inputs(aggs: Seq<AggregateExpression>) -> Seq<Expression> {
    Seq::new(aggs.len(), |a: int| aggs[a].expr)
}

pub open spec fn aggregate_funcs(aggs: Seq<AggregateExpression>) -> Seq<AggregateFunc> {
    Seq::new(aggs.len(), |a: int| aggs[a].func)
}

/// The rows one batch feeds an aggregation.
pub open spec fn batch_agg_rows(b: BatchView, groups: Seq<Expression>, inputs: Seq<Expression>) -> Seq<AggRow> {
    Seq::new(
        batch_rows(b.columns),
        |r: int|
            AggRow {
                key: Seq::new(groups.len(), |g: int| eval_column(groups[g], b).values[r]),
                inputs: Seq::new(inputs.len(), |a: int| eval_column(inputs[a], b).values[r]),
            },
    )
}

/// The rows a sequence of batches feeds an aggregation, batch by batch.
pub open spec fn all_agg_rows(batches: Seq<BatchView>, groups: Seq<Expression>, inputs: Seq<Expression>) -> Seq<AggRow>
    decreases batches.len(),
{
    if batches.len() == 0 {
        Seq::empty()
    } else {
        all_agg_rows(batches.drop_last(), groups, inputs) + batch_agg_rows(batches.last(), groups, inputs)
    }
}

pub open spec fn initial_states(funcs: Seq<AggregateFunc>) -> Seq<AccumulatorState> {
    Seq::new(funcs.len(), |a: int| initial_state(funcs[a]))
}

pub open spec fn accumulate_all(states: Seq<AccumulatorState>, inputs: Seq<Option<Scalar>>) -> Seq<AccumulatorState> {
    Seq::new(states.len(), |a: int| accumulate_state(states[a], inputs[a]))
}

pub open spec fn accumulate_all_ok(states: Seq<AccumulatorState>, inputs: Seq<Option<Scalar>>) -> bool {
    forall|a: int| 0 <= a < states.len() ==> accumulate_ok(#[trigger] states[a], inputs[a])
}

/// Whether some group has this key.
pub open spec fn has_group(groups: Seq<Group>, key: Seq<Option<Scalar>>) -> bool {
    exists|g: int| 0 <= g < groups.len() && groups[g].key == key
}

/// The group with this key.
pub open spec fn group_of(groups: Seq<Group>, key: Seq<Option<Scalar>>) -> int {
    choose|g: int| 0 <= g < groups.len() && groups[g].key == key
}

/// The states a row's inputs are fed to: its group's, or fresh ones.
pub open spec fn states_before(groups: Seq<Group>, row: AggRow, funcs: Seq<AggregateFunc>) -> Seq<AccumulatorState> {
    if has_group(groups, row.key) {
        groups[group_of(groups, row.key)].states
    } else {
        initial_states(funcs)
    }
}

/// Route one row to its group's accumulators; a new key opens a new group
/// at the end.
pub open spec fn group_step(groups: Seq<Group>, row: AggRow, funcs: Seq<AggregateFunc>) -> Seq<Group> {
    let states = accumulate_all(states_before(groups, row, funcs), row.inputs);
    if has_group(groups, row.key) {
        groups.update(group_of(groups, row.key), Group { key: row.key, states })
    } else {
        groups.push(Group { key: row.key, states })
    }
}

/// The groups after routing every row in order.
pub open spec fn group_fold(rows: Seq<AggRow>, funcs: Seq<AggregateFunc>) -> Seq<Group>
    decreases rows.len(),
{
    if rows.len() == 0 {
        Seq::empty()
    } else {
        group_step(group_fold(rows.drop_last(), funcs), rows.last(), funcs)
    }
}

/// Routing every row feeds each accumulator values it takes without a panic.
pub open spec fn group_fold_ok(rows: Seq<AggRow>, funcs: Seq<AggregateFunc>) -> bool
    decreases rows.len(),
{
    if rows.len() == 0 {
        true
    } else {
        &&& group_fold_ok(rows.drop_last(), funcs)
        &&& accumulate_all_ok(states_before(group_fold(rows.drop_last(), funcs), rows.last(), funcs), rows.last().inputs)
    }
}

/// The single batch an aggregation emits: one row per group, key values
/// then the accumulators' results.
pub open spec fn aggregate_batch(schema: Seq<FieldView>, groups: Seq<Group>, key_count: int) -> BatchView {
    BatchView {
        schema,
        columns: Seq::new(
            schema.len(),
            |c: int|
                ColumnView {
                    data_type: schema[c].data_type,
                    values: Seq::new(
                        groups.len(),
                        |g: int|
                            if c < key_count {
                                groups[g].key[c]
                            } else {
                                final_state_value(groups[g].states[c - key_count])
                            },
                    ),
                },
        ),
    }
}

/// Group keys are distinct, every group has one state per aggregate, and
/// every state is well formed.
pub open spec fn groups_wf(groups: Seq<Group>, funcs: Seq<AggregateFunc>) -> bool {
    &&& forall|g: int, h: int| 0 <= g < h < groups.len() ==> groups[g].key != groups[h].key
    &&& forall|g: int|
        0 <= g < groups.len() ==> (#[trigger] groups[g]).states.len() == funcs.len() && forall|a: int|
            0 <= a < funcs.len() ==> state_wf(#[trigger] groups[g].states[a])
}

/// The groups that key and state lists stand for.
pub open spec fn groups_view(keys: Seq<Vec<Option<ScalarValue>>>, states: Seq<Vec<Accumulator>>) -> Seq<Group> {
    Seq::new(
        keys.len(),
        |g: int| Group { key: values_view(keys[g]@), states: Seq::new(states[g]@.len(), |a: int| states[g]@[a].state()) },
    )
}

/// Routing a row keeps the groups well formed.
pub proof fn lemma_group_step_wf(groups: Seq<Group>, row: AggRow, funcs: Seq<AggregateFunc>)
    requires
        groups_wf(groups, funcs),
        row.inputs.len() == funcs.len(),
    ensures
        groups_wf(group_step(groups, row, funcs), funcs),
{
    let before = states_before(groups, row, funcs);
    assert forall|a: int| 0 <= a < funcs.len() implies state_wf(#[trigger] accumulate_all(before, row.inputs)[a]) by {
        if has_group(groups, row.key) {
            let g = group_of(groups, row.key);
            assert(state_wf(groups[g].states[a]));
        }
        lemma_accumulate_wf(before[a], row.inputs[a]);
    }
    let next = group_step(groups, row, funcs);
    if has_group(groups, row.key) {
        let g = group_of(groups, row.key);
        assert forall|i: int, j: int| 0 <= i < j < next.len() implies next[i].key != next[j].key by {
            assert(next[i].key == groups[i].key);
            assert(next[j].key == groups[j].key);
        }
    } else {
        assert forall|i: int, j: int| 0 <= i < j < next.len() implies next[i].key != next[j].key by {
            if j == groups.len() {
                assert(groups[i].key != row.key);
            }
        }
    }
}

/// The folded groups are well formed.
pub proof fn lemma_group_fold_wf(rows: Seq<AggRow>, funcs: Seq<AggregateFunc>)
    requires
        forall|r: int| 0 <= r < rows.len() ==> (#[trigger] rows[r]).inputs.len() == funcs.len(),
    ensures
        groups_wf(group_fold(rows, funcs), funcs),
    decreases rows.len(),
{
    if rows.len() > 0 {
        lemma_group_fold_wf(rows.drop_last(), funcs);
        lemma_group_step_wf(group_fold(rows.drop_last(), funcs), rows.last(), funcs);
    }
}

/// A fold that never panics never panics on a prefix either, and the row
/// after the prefix is fed values its accumulators take.
pub proof fn lemma_fold_ok_prefix(rows: Seq<AggRow>, funcs: Seq<AggregateFunc>, k: int)
    requires
        group_fold_ok(rows, funcs),
        0 <= k < rows.len(),
    ensures
        group_fold_ok(rows.take(k), funcs),
        accumulate_all_ok(states_before(group_fold(rows.take(k), funcs), rows[k], funcs), rows[k].inputs),
    decreases rows.len() - k,
{
    if k == rows.len() - 1 {
        assert(rows.drop_last() =~= rows.take(k));
    } else {
        lemma_fold_ok_prefix(rows.drop_last(), funcs, k);
        assert(rows.drop_last().take(k) =~= rows.take(k));
    }
}

/// The rows of a prefix of the batches start the rows of all of them.
pub proof fn lemma_rows_prefix(batches: Seq<BatchView>, groups: Seq<Expression>, inputs: Seq<Expression>, b: int)
    requires
        0 <= b <= batches.len(),
    ensures
        all_agg_rows(batches.take(b), groups, inputs).len() <= all_agg_rows(batches, groups, inputs).len(),
        all_agg_rows(batches.take(b), groups, inputs) == all_agg_rows(batches, groups, inputs).take(
            all_agg_rows(batches.take(b), groups, inputs).len() as int,
        ),
    decreases batches.len() - b,
{
    if b == batches.len() {
        assert(batches.take(b) =~= batches);
        assert(all_agg_rows(batches, groups, inputs).take(all_agg_rows(batches, groups, inputs).len() as int)
            =~= all_agg_rows(batches, groups, inputs));
    } else {
        lemma_rows_prefix(batches.drop_last(), groups, inputs, b);
        assert(batches.drop_last().take(b) =~= batches.take(b));
        let pre = all_agg_rows(batches.take(b), groups, inputs);
        let mid = all_agg_rows(batches.drop_last(), groups, inputs);
        let all = all_agg_rows(batches, groups, inputs);
        assert(all =~= mid + batch_agg_rows(batches.last(), groups, inputs));
        assert(pre == mid.take(pre.len() as int));
        assert(all.take(pre.len() as int) =~= mid.take(pre.len() as int));
    }
}

/// The position of the group with this key, if any.
fn find_group(keys: &Vec<Vec<Option<ScalarValue>>>, key: &Vec<Option<ScalarValue>>) -> (pos: Option<usize>)
    ensures
        match pos {
            Some(p) => p < keys@.len() && values_view(keys@[p as int]@) == values_view(key@),
            None => forall|h: int| 0 <= h < keys@.len() ==> values_view((#[trigger] keys@[h])@) != values_view(key@),
        },
{
    let mut g: usize = 0;
    while g < keys.len()
        invariant
            g <= keys@.len(),
            forall|h: int| 0 <= h < g ==> values_view((#[trigger] keys@[h])@) != values_view(key@),
        decreases keys@.len() - g,
    {
        if keys_eq(&keys[g], key) {
            return Some(g);
        }
        g = g + 1;
    }
    None
}

/// Whether routing one row feeds its group's accumulators (fresh ones for
/// a new key) values they take.
fn row_accepted(
    keys: &Vec<Vec<Option<ScalarValue>>>,
    states: &Vec<Vec<Accumulator>>,
    key: &Vec<Option<ScalarValue>>,
    inputs: &Vec<Option<ScalarValue>>,
    aggregate_exprs: &Vec<AggregateExpression>,
) -> (ok: bool)
    requires
        keys@.len() == states@.len(),
        groups_wf(groups_view(keys@, states@), aggregate_funcs(aggregate_exprs@)),
        inputs@.len() == aggregate_exprs@.len(),
    ensures
        ok == accumulate_all_ok(
            states_before(
                groups_view(keys@, states@),
                AggRow { key: values_view(key@), inputs: values_view(inputs@) },
                aggregate_funcs(aggregate_exprs@),
            ),
            values_view(inputs@),
        ),
{
    let ghost funcs = aggregate_funcs(aggregate_exprs@);
    let ghost groups = groups_view(keys@, states@);
    let ghost row = AggRow { key: values_view(key@), inputs: values_view(inputs@) };
    let ghost before = states_before(groups, row, funcs);
    match find_group(keys, key) {
        Some(p) => {
            assert(groups[p as int].key == row.key);
            assert(group_of(groups, row.key) == p) by {
                let c = group_of(groups, row.key);
                assert(0 <= c < groups.len() && groups[c].key == row.key);
                if c != p {
                    if c < p {
                        assert(groups[c].key != groups[p as int].key);
                    } else {
                        assert(groups[p as int].key != groups[c].key);
                    }
                }
            }
            assert(before == groups[p as int].states);
            assert(states@[p as int]@.len() == funcs.len());
            let mut a: usize = 0;
            while a < aggregate_exprs.len()
                invariant
                    a <= aggregate_exprs@.len(),
                    funcs == aggregate_funcs(aggregate_exprs@),
                    inputs@.len() == aggregate_exprs@.len(),
                    p < states@.len(),
                    states@[p as int]@.len() == funcs.len(),
                    before.len() == funcs.len(),
                    before == states_before(groups_view(keys@, states@), row, funcs),
                    row == (AggRow { key: values_view(key@), inputs: values_view(inputs@) }),
                    forall|b: int| 0 <= b < funcs.len() ==> (#[trigger] before[b]) == states@[p as int]@[b].state(),
                    row.inputs == values_view(inputs@),
                    forall|b: int| 0 <= b < a ==> accumulate_ok(#[trigger] before[b], row.inputs[b]),
                decreases aggregate_exprs@.len() - a,
            {
                if !states[p][a].accepts(&inputs[a]) {
                    assert(!accumulate_ok(before[a as int], row.inputs[a as int]));
                    return false;
                }
                a = a + 1;
            }
            true
        },
        None => {
            assert(!has_group(groups, row.key)) by {
                if has_group(groups, row.key) {
                    let c = choose|c: int| 0 <= c < groups.len() && groups[c].key == row.key;
                    assert(values_view(keys@[c]@) == values_view(key@));
                }
            }
            let mut a: usize = 0;
            while a < aggregate_exprs.len()
                invariant
                    a <= aggregate_exprs@.len(),
                    funcs == aggregate_funcs(aggregate_exprs@),
                    inputs@.len() == aggregate_exprs@.len(),
                    before == initial_states(funcs),
                    before == states_before(groups_view(keys@, states@), row, funcs),
                    row == (AggRow { key: values_view(key@), inputs: values_view(inputs@) }),
                    row.inputs == values_view(inputs@),
                    forall|b: int| 0 <= b < a ==> accumulate_ok(#[trigger] before[b], row.inputs[b]),
                decreases aggregate_exprs@.len() - a,
            {
                let fresh = aggregate_exprs[a].create_accumulator();
                if !fresh.accepts(&inputs[a]) {
                    assert(!accumulate_ok(before[a as int], row.inputs[a as int]));
                    return false;
                }
                a = a + 1;
            }
            true
        },
    }
}

/// Route one row to its group, opening the group if the key is new.
fn route_row(
    keys: &mut Vec<Vec<Option<ScalarValue>>>,
    states: &mut Vec<Vec<Accumulator>>,
    key: Vec<Option<ScalarValue>>,
    inputs: &Vec<Option<ScalarValue>>,
    aggregate_exprs: &Vec<AggregateExpression>,
)
    requires
        old(keys)@.len() == old(states)@.len(),
        groups_wf(groups_view(old(keys)@, old(states)@), aggregate_funcs(aggregate_exprs@)),
        inputs@.len() == aggregate_exprs@.len(),
        accumulate_all_ok(
            states_before(
                groups_view(old(keys)@, old(states)@),
                AggRow { key: values_view(key@), inputs: values_view(inputs@) },
                aggregate_funcs(aggregate_exprs@),
            ),
            values_view(inputs@),
        ),
    ensures
        final(keys)@.len() == final(states)@.len(),
        groups_view(final(keys)@, final(states)@) == group_step(
            groups_view(old(keys)@, old(states)@),
            AggRow { key: values_view(key@), inputs: values_view(inputs@) },
            aggregate_funcs(aggregate_exprs@),
        ),
{
    let ghost funcs = aggregate_funcs(aggregate_exprs@);
    let ghost groups = groups_view(keys@, states@);
    let ghost row = AggRow { key: values_view(key@), inputs: values_view(inputs@) };
    let found = find_group(keys, &key);
    let pos: usize = match found {
        Some(p) => {
            assert(groups[p as int].key == row.key);
            assert(group_of(groups, row.key) == p) by {
                let c = group_of(groups, row.key);
                assert(0 <= c < groups.len() && groups[c].key == row.key);
                if c != p {
                    if c < p {
                        assert(groups[c].key != groups[p as int].key);
                    } else {
                        assert(groups[p as int].key != groups[c].key);
                    }
                }
            }
            p
        },
        None => {
            assert(!has_group(groups, row.key)) by {
                if has_group(groups, row.key) {
                    let c = choose|c: int| 0 <= c < groups.len() && groups[c].key == row.key;
                    assert(values_view(keys@[c]@) == values_view(key@));
                }
            }
            let mut fresh: Vec<Accumulator> = Vec::new();
            let mut a: usize = 0;
            while a < aggregate_exprs.len()
                invariant
                    a <= aggregate_exprs@.len(),
                    funcs == aggregate_funcs(aggregate_exprs@),
                    fresh@.len() == a,
                    forall|b: int| 0 <= b < a ==> (#[trigger] fresh@[b]).state() == initial_state(funcs[b]),
                decreases aggregate_exprs@.len() - a,
            {
                fresh.push(aggregate_exprs[a].create_accumulator());
                a = a + 1;
            }
            let n = keys.len();
            keys.push(key);
            states.push(fresh);
            n
        },
    };
    let ghost before = states_before(groups, row, funcs);
    assert(before.len() == funcs.len());
    assert(states@[pos as int]@.len() == funcs.len());
    assert forall|b: int| 0 <= b < funcs.len() implies (#[trigger] states@[pos as int]@[b]).state() == before[b] by {}
    let mut a: usize = 0;
    while a < aggregate_exprs.len()
        invariant
            a <= aggregate_exprs@.len(),
            funcs == aggregate_funcs(aggregate_exprs@),
            inputs@.len() == aggregate_exprs@.len(),
            pos < states@.len(),
            keys@.len() == states@.len(),
            states@[pos as int]@.len() == funcs.len(),
            forall|h: int| 0 <= h < states@.len() && h != pos ==> states@[h] == old(states)@[h],
            keys@.len() == old(keys)@.len() ==> states@.len() == old(states)@.len(),
            forall|b: int| 0 <= b < a ==> (#[trigger] states@[pos as int]@[b]).state() == accumulate_state(before[b], opt_view(inputs@[b])),
            forall|b: int| a <= b < funcs.len() ==> (#[trigger] states@[pos as int]@[b]).state() == before[b],
            forall|b: int| 0 <= b < funcs.len() ==> state_wf(#[trigger] before[b]),
            accumulate_all_ok(before, row.inputs),
            row.inputs == values_view(inputs@),
            before.len() == funcs.len(),
        decreases aggregate_exprs@.len() - a,
    {
        let v = copy_value(&inputs[a]);
        assert(row.inputs[a as int] == opt_view(inputs@[a as int]));
        assert(accumulate_ok(before[a as int], row.inputs[a as int]));
        states[pos][a].accumulate(v);
        a = a + 1;
    }
    proof {
        let next = group_step(groups, row, funcs);
        let got = groups_view(keys@, states@);
        assert(got.len() == next.len());
        assert forall|h: int| 0 <= h < got.len() implies got[h] == next[h] by {
            if h == pos {
                assert(got[h].states =~= next[h].states);
            } else {
                assert(got[h].states =~= next[h].states);
            }
        }
        assert(got =~= next);
    }
}

/// Feed every row of `batches` to the aggregates, grouped by key: the
/// groups' keys and accumulators, or `None` if an expression cannot be
/// evaluated against some batch or an accumulator cannot take what it is
/// fed.
fn aggregate_batches(
    batches: &Vec<RecordBatch>,
    group_exprs: &Vec<Expression>,
    aggregate_exprs: &Vec<AggregateExpression>,
) -> (groups: Option<(Vec<Vec<Option<ScalarValue>>>, Vec<Vec<Accumulator>>)>)
    requires
        forall|b: int| 0 <= b < batches@.len() ==> (#[trigger] batches@[b]).wf(),
    ensures
        match groups {
            Some((keys, states)) => {
                &&& aggregation_ok(batches_view(batches@), group_exprs@, aggregate_exprs@)
                &&& keys@.len() == states@.len()
                &&& groups_view(keys@, states@) == aggregate_groups(
                    batches_view(batches@),
                    group_exprs@,
                    aggregate_exprs@,
                )
                &&& forall|g: int| 0 <= g < keys@.len() ==> (#[trigger] keys@[g])@.len() == group_exprs@.len()
            },
            None => !aggregation_ok(batches_view(batches@), group_exprs@, aggregate_exprs@),
        },
{
    let ghost bv = batches_view(batches@);
    let ghost ge = group_exprs@;
    let ghost ie = aggregate_inputs(aggregate_exprs@);
    let ghost funcs = aggregate_funcs(aggregate_exprs@);
    let ghost all = all_agg_rows(bv, ge, ie);
    let mut keys: Vec<Vec<Option<ScalarValue>>> = Vec::new();
    let mut states: Vec<Vec<Accumulator>> = Vec::new();
    let mut b: usize = 0;
    assert(bv.take(0) =~= Seq::<BatchView>::empty());
    assert(groups_view(keys@, states@) =~= group_fold(all_agg_rows(bv.take(0), ge, ie), funcs));
    assert(group_fold_ok(all_agg_rows(bv.take(0), ge, ie), funcs));
    while b < batches.len()
        invariant
            b <= batches@.len(),
            bv == batches_view(batches@),
            ge == group_exprs@,
            ie == aggregate_inputs(aggregate_exprs@),
            funcs == aggregate_funcs(aggregate_exprs@),
            all == all_agg_rows(bv, ge, ie),
            forall|j: int| 0 <= j < batches@.len() ==> (#[trigger] batches@[j]).wf(),
            forall|j: int, g: int|
                0 <= j < b && 0 <= g < group_exprs@.len() ==> eval_ok(
                    #[trigger] group_exprs@[g],
                    #[trigger] bv[j],
                ),
            forall|j: int, a: int|
                0 <= j < b && 0 <= a < aggregate_exprs@.len() ==> eval_ok(
                    (#[trigger] aggregate_exprs@[a]).expr,
                    #[trigger] bv[j],
                ),
            group_fold_ok(all_agg_rows(bv.take(b as int), ge, ie), funcs),
            keys@.len() == states@.len(),
            forall|g: int| 0 <= g < keys@.len() ==> (#[trigger] keys@[g])@.len() == group_exprs@.len(),
            groups_view(keys@, states@) == group_fold(all_agg_rows(bv.take(b as int), ge, ie), funcs),
        decreases batches@.len() - b,
    {
        let batch = &batches[b];
        assert(bv[b as int] == batch@);
        proof {
            batch.lemma_wf();
        }
        let mut key_cols: Vec<ColumnVector> = Vec::new();
        let mut g: usize = 0;
        while g < group_exprs.len()
            invariant
                g <= group_exprs@.len(),
                batch@ == bv[b as int],
                bv == batches_view(batches@),
                b < bv.len(),
                columns_fit(batch@.schema.len(), batch@.columns),
                forall|h: int| 0 <= h < g ==> eval_ok(#[trigger] group_exprs@[h], batch@),
                key_cols@.len() == g,
                forall|h: int| 0 <= h < g ==> (#[trigger] key_cols@[h])@ == eval_column(group_exprs@[h], batch@),
            decreases group_exprs@.len() - g,
        {
            match group_exprs[g].try_evaluate(batch) {
                Some(col) => key_cols.push(col),
                None => {
                    assert(!eval_ok(group_exprs@[g as int], bv[b as int]));
                    return None;
                },
            }
            g = g + 1;
        }
        let mut input_cols: Vec<ColumnVector> = Vec::new();
        let mut a: usize = 0;
        while a < aggregate_exprs.len()
            invariant
                a <= aggregate_exprs@.len(),
                batch@ == bv[b as int],
                bv == batches_view(batches@),
                b < bv.len(),
                forall|h: int| 0 <= h < a ==> eval_ok((#[trigger] aggregate_exprs@[h]).expr, batch@),
                input_cols@.len() == a,
                forall|h: int| 0 <= h < a ==> (#[trigger] input_cols@[h])@ == eval_column(aggregate_exprs@[h].expr, batch@),
            decreases aggregate_exprs@.len() - a,
        {
            match aggregate_exprs[a].expr.try_evaluate(batch) {
                Some(col) => input_cols.push(col),
                None => {
                    assert(!eval_ok(aggregate_exprs@[a as int].expr, bv[b as int]));
                    return None;
                },
            }
            a = a + 1;
        }
        let ghost rows_b = batch_agg_rows(batch@, ge, ie);
        let ghost before = all_agg_rows(bv.take(b as int), ge, ie);
        proof {
            assert(bv.take(b + 1).drop_last() =~= bv.take(b as int));
            assert(all_agg_rows(bv.take(b + 1), ge, ie) == before + rows_b);
            lemma_rows_prefix(bv, ge, ie, b + 1);
            assert forall|h: int| 0 <= h < ge.len() implies (#[trigger] key_cols@[h])@.values.len() == batch_rows(batch@.columns) by {
                lemma_eval_rows(ge[h], batch@);
            }
            assert forall|h: int| 0 <= h < ie.len() implies (#[trigger] input_cols@[h])@.values.len() == batch_rows(batch@.columns) by {
                lemma_eval_rows(ie[h], batch@);
            }
        }
        let n = batch.row_count();
        let mut row: usize = 0;
        assert(before + rows_b.take(0) =~= before);
        while row < n
            invariant
                row <= n,
                n == batch_rows(batch@.columns),
                rows_b == batch_agg_rows(batch@, ge, ie),
                rows_b.len() == n,
                ge == group_exprs@,
                ie == aggregate_inputs(aggregate_exprs@),
                funcs == aggregate_funcs(aggregate_exprs@),
                key_cols@.len() == ge.len(),
                input_cols@.len() == ie.len(),
                forall|h: int| 0 <= h < ge.len() ==> (#[trigger] key_cols@[h])@ == eval_column(ge[h], batch@),
                forall|h: int| 0 <= h < ie.len() ==> (#[trigger] input_cols@[h])@ == eval_column(ie[h], batch@),
                forall|h: int| 0 <= h < ge.len() ==> (#[trigger] key_cols@[h])@.values.len() == n,
                forall|h: int| 0 <= h < ie.len() ==> (#[trigger] input_cols@[h])@.values.len() == n,
                all == all_agg_rows(bv, ge, ie),
                bv == batches_view(batches@),
                all_agg_rows(bv.take(b + 1), ge, ie) == before + rows_b,
                (before + rows_b) == all.take((before + rows_b).len() as int),
                (before + rows_b).len() <= all.len(),
                group_fold_ok(before + rows_b.take(row as int), funcs),
                keys@.len() == states@.len(),
                forall|g: int| 0 <= g < keys@.len() ==> (#[trigger] keys@[g])@.len() == group_exprs@.len(),
                groups_view(keys@, states@) == group_fold(before + rows_b.take(row as int), funcs),
            decreases n - row,
        {
            let mut key: Vec<Option<ScalarValue>> = Vec::new();
            let mut g: usize = 0;
            while g < key_cols.len()
                invariant
                    g <= key_cols@.len(),
                    row < n,
                    forall|h: int| 0 <= h < key_cols@.len() ==> (#[trigger] key_cols@[h])@.values.len() == n,
                    key@.len() == g,
                    forall|h: int| 0 <= h < g ==> opt_view(#[trigger] key@[h]) == key_cols@[h]@.values[row as int],
                decreases key_cols@.len() - g,
            {
                key.push(key_cols[g].value(row));
                g = g + 1;
            }
            let mut inputs: Vec<Option<ScalarValue>> = Vec::new();
            let mut a: usize = 0;
            while a < input_cols.len()
                invariant
                    a <= input_cols@.len(),
                    row < n,
                    forall|h: int| 0 <= h < input_cols@.len() ==> (#[trigger] input_cols@[h])@.values.len() == n,
                    inputs@.len() == a,
                    forall|h: int| 0 <= h < a ==> opt_view(#[trigger] inputs@[h]) == input_cols@[h]@.values[row as int],
                decreases input_cols@.len() - a,
            {
                inputs.push(input_cols[a].value(row));
                a = a + 1;
            }
            let ghost r = rows_b[row as int];
            let ghost seen = before + rows_b.take(row as int);
            proof {
                assert(values_view(key@) =~= r.key);
                assert(values_view(inputs@) =~= r.inputs);
                assert(seen =~= all.take(seen.len() as int));
                assert((before + rows_b)[seen.len() as int] == r);
                assert(all[seen.len() as int] == r);
                assert(seen.len() <= all.len());
                assert forall|k: int| 0 <= k < seen.len() implies (#[trigger] seen[k]).inputs.len() == funcs.len() by {
                    assert(seen[k] == all[k]);
                    lemma_all_rows_inputs(bv, ge, ie, k);
                }
                lemma_group_fold_wf(seen, funcs);
            }
            if !row_accepted(&keys, &states, &key, &inputs, aggregate_exprs) {
                proof {
                    if group_fold_ok(all, funcs) {
                        lemma_fold_ok_prefix(all, funcs, seen.len() as int);
                    }
                }
                return None;
            }
            let ghost old_groups = groups_view(keys@, states@);
            let ghost old_keys = keys@;
            proof {
                assert forall|g: int| 0 <= g < old_groups.len() implies (#[trigger] old_groups[g]).key.len() == ge.len() by {
                    assert(old_groups[g].key == values_view(old_keys[g]@));
                    assert(old_keys[g]@.len() == ge.len());
                }
                assert(r.key.len() == ge.len());
                lemma_step_key_len(old_groups, r, funcs, ge.len());
            }
            route_row(&mut keys, &mut states, key, &inputs, aggregate_exprs);
            proof {
                let new_groups = groups_view(keys@, states@);
                assert forall|g: int| 0 <= g < keys@.len() implies (#[trigger] keys@[g])@.len() == group_exprs@.len() by {
                    assert(new_groups[g].key == values_view(keys@[g]@));
                    assert(new_groups[g] == group_step(old_groups, r, funcs)[g]);
                }
                let seen2 = before + rows_b.take(row + 1);
                assert(seen2.drop_last() =~= seen);
                assert(seen2.last() == r);
            }
            row = row + 1;
        }
        assert(rows_b.take(n as int) =~= rows_b);
        b = b + 1;
    }
    assert(bv.take(b as int) =~= bv);
    Some((keys, states))
}

/// Routing a row whose key has the common length keeps every key at it.
pub proof fn lemma_step_key_len(groups: Seq<Group>, row: AggRow, funcs: Seq<AggregateFunc>, n: nat)
    requires
        forall|g: int| 0 <= g < groups.len() ==> (#[trigger] groups[g]).key.len() == n,
        row.key.len() == n,
    ensures
        forall|g: int|
            0 <= g < group_step(groups, row, funcs).len() ==> (#[trigger] group_step(groups, row, funcs)[g]).key.len() == n,
{
}

/// Every row fed to an aggregation carries one input per aggregate.
pub proof fn lemma_all_rows_inputs(batches: Seq<BatchView>, groups: Seq<Expression>, inputs: Seq<Expression>, k: int)
    requires
        0 <= k < all_agg_rows(batches, groups, inputs).len(),
    ensures
        all_agg_rows(batches, groups, inputs)[k].inputs.len() == inputs.len(),
    decreases batches.len(),
{
    let pre = all_agg_rows(batches.drop_last(), groups, inputs);
    if k < pre.len() {
        lemma_all_rows_inputs(batches.drop_last(), groups, inputs, k);
    }
}


/// The states a group with `key` reaches: fresh accumulators fed, in
/// order, the inputs of exactly the rows with that key.
pub open spec fn fold_group(rows: Seq<AggRow>, key: Seq<Option<Scalar>>, funcs: Seq<AggregateFunc>) -> Seq<AccumulatorState>
    decreases rows.len(),
{
    if rows.len() == 0 {
        initial_states(funcs)
    } else {
        let before = fold_group(rows.drop_last(), key, funcs);
        if rows.last().key == key {
            accumulate_all(before, rows.last().inputs)
        } else {
            before
        }
    }
}

/// Some row has this key.
pub open spec fn some_row_has(rows: Seq<AggRow>, key: Seq<Option<Scalar>>) -> bool {
    exists|r: int| 0 <= r < rows.len() && (#[trigger] rows[r]).key == key
}

/// A key no row has gets fresh accumulators.
proof fn lemma_fold_group_absent(rows: Seq<AggRow>, key: Seq<Option<Scalar>>, funcs: Seq<AggregateFunc>)
    requires
        forall|r: int| 0 <= r < rows.len() ==> (#[trigger] rows[r]).key != key,
    ensures
        fold_group(rows, key, funcs) == initial_states(funcs),
    decreases rows.len(),
{
    if rows.len() > 0 {
        assert forall|r: int| 0 <= r < rows.drop_last().len() implies (#[trigger] rows.drop_last()[r]).key != key by {
            assert(rows.drop_last()[r] == rows[r]);
        }
        lemma_fold_group_absent(rows.drop_last(), key, funcs);
    }
}

/// GROUP BY: the groups have pairwise distinct keys (all NULL keys fall in
/// one group), every row's key has a group, every group's key is some
/// row's, and each group's accumulators were fed, in order, the inputs of
/// exactly the rows with its key.
pub proof fn law_group_by(rows: Seq<AggRow>, funcs: Seq<AggregateFunc>)
    ensures
        forall|g: int, h: int|
            0 <= g < h < group_fold(rows, funcs).len() ==> group_fold(rows, funcs)[g].key != group_fold(
                rows,
                funcs,
            )[h].key,
        forall|r: int| 0 <= r < rows.len() ==> has_group(group_fold(rows, funcs), (#[trigger] rows[r]).key),
        forall|g: int|
            0 <= g < group_fold(rows, funcs).len() ==> some_row_has(rows, (#[trigger] group_fold(rows, funcs)[g]).key),
        forall|g: int|
            0 <= g < group_fold(rows, funcs).len() ==> (#[trigger] group_fold(rows, funcs)[g]).states == fold_group(
                rows,
                group_fold(rows, funcs)[g].key,
                funcs,
            ),
    decreases rows.len(),
{
    if rows.len() > 0 {
        let init = rows.drop_last();
        let row = rows.last();
        let before = group_fold(init, funcs);
        let after = group_fold(rows, funcs);
        law_group_by(init, funcs);
        assert(after == group_step(before, row, funcs));
        if has_group(before, row.key) {
            let p = group_of(before, row.key);
            assert(0 <= p < before.len() && before[p].key == row.key);
            assert forall|g: int, h: int| 0 <= g < h < after.len() implies after[g].key != after[h].key by {
                assert(after[g].key == before[g].key);
                assert(after[h].key == before[h].key);
            }
            assert forall|r: int| 0 <= r < rows.len() implies has_group(after, (#[trigger] rows[r]).key) by {
                if r < init.len() {
                    assert(init[r] == rows[r]);
                    assert(has_group(before, init[r].key));
                    let g = choose|g: int| 0 <= g < before.len() && before[g].key == init[r].key;
                    assert(after[g].key == before[g].key);
                } else {
                    assert(after[p].key == row.key);
                }
            }
            assert forall|g: int| 0 <= g < after.len() implies some_row_has(rows, (#[trigger] after[g]).key) by {
                assert(after[g].key == before[g].key);
                assert(some_row_has(init, before[g].key));
                let r = choose|r: int| 0 <= r < init.len() && (#[trigger] init[r]).key == before[g].key;
                assert(rows[r] == init[r]);
            }
            assert forall|g: int| 0 <= g < after.len() implies (#[trigger] after[g]).states == fold_group(
                rows,
                after[g].key,
                funcs,
            ) by {
                assert(fold_group(init, after[g].key, funcs) == before[g].states);
                if g != p {
                    assert(after[g] == before[g]);
                    if g < p {
                        assert(before[g].key != before[p].key);
                    } else {
                        assert(before[p].key != before[g].key);
                    }
                }
            }
        } else {
            assert forall|g: int, h: int| 0 <= g < h < after.len() implies after[g].key != after[h].key by {
                if h == before.len() {
                    assert(before[g].key != row.key);
                }
            }
            assert forall|r: int| 0 <= r < rows.len() implies has_group(after, (#[trigger] rows[r]).key) by {
                if r < init.len() {
                    assert(init[r] == rows[r]);
                    assert(has_group(before, init[r].key));
                    let g = choose|g: int| 0 <= g < before.len() && before[g].key == init[r].key;
                    assert(after[g] == before[g]);
                } else {
                    assert(after[before.len() as int].key == row.key);
                }
            }
            assert forall|g: int| 0 <= g < after.len() implies some_row_has(rows, (#[trigger] after[g]).key) by {
                if g < before.len() {
                    assert(after[g] == before[g]);
                    assert(some_row_has(init, before[g].key));
                    let r = choose|r: int| 0 <= r < init.len() && (#[trigger] init[r]).key == before[g].key;
                    assert(rows[r] == init[r]);
                } else {
                    assert(rows[rows.len() - 1] == row);
                }
            }
            assert forall|r: int| 0 <= r < init.len() implies (#[trigger] init[r]).key != row.key by {
                if init[r].key == row.key {
                    assert(has_group(before, init[r].key));
                }
            }
            lemma_fold_group_absent(init, row.key, funcs);
            assert forall|g: int| 0 <= g < after.len() implies (#[trigger] after[g]).states == fold_group(
                rows,
                after[g].key,
                funcs,
            ) by {
                if g < before.len() {
                    assert(after[g] == before[g]);
                    assert(before[g].key != row.key);
                    assert(fold_group(init, after[g].key, funcs) == before[g].states);
                }
            }
        }
    }
}

/// Every column of an emitted batch fits the type of its field.
pub open spec fn emitted_typed(out: BatchView, schema: Seq<FieldView>) -> bool {
    forall|c: int| 0 <= c < schema.len() ==> values_typed((#[trigger] out.columns[c]).values, schema[c].data_type)
}

/// The one batch an aggregation emits: one row per group, key values then
/// the accumulators' results, each column built to its field's type;
/// `None` if some value does not fit its field's type.
fn emit_groups(
    schema: &Schema,
    key_count: usize,
    agg_count: usize,
    keys: &Vec<Vec<Option<ScalarValue>>>,
    states: &Vec<Vec<Accumulator>>,
) -> (b: Option<RecordBatch>)
    requires
        keys@.len() == states@.len(),
        forall|g: int| 0 <= g < keys@.len() ==> (#[trigger] keys@[g])@.len() == key_count,
        forall|g: int| 0 <= g < states@.len() ==> (#[trigger] states@[g])@.len() == agg_count,
        keys@.len() > 0 ==> schema@.len() == key_count + agg_count,
    ensures
        match b {
            Some(b) => {
                &&& emitted_typed(aggregate_batch(schema@, groups_view(keys@, states@), key_count as int), schema@)
                &&& b.wf()
                &&& b@ == aggregate_batch(schema@, groups_view(keys@, states@), key_count as int)
            },
            None => !emitted_typed(aggregate_batch(schema@, groups_view(keys@, states@), key_count as int), schema@),
        },
{
    let ghost out = aggregate_batch(schema@, groups_view(keys@, states@), key_count as int);
    let ghost groups = groups_view(keys@, states@);
    let n_cols = schema.fields().len();
    let mut columns: Vec<ColumnVector> = Vec::new();
    let mut c: usize = 0;
    while c < n_cols
        invariant
            c <= n_cols,
            n_cols == schema@.len(),
            out == aggregate_batch(schema@, groups, key_count as int),
            groups == groups_view(keys@, states@),
            keys@.len() == states@.len(),
            forall|g: int| 0 <= g < keys@.len() ==> (#[trigger] keys@[g])@.len() == key_count,
            forall|g: int| 0 <= g < states@.len() ==> (#[trigger] states@[g])@.len() == agg_count,
            keys@.len() > 0 ==> schema@.len() == key_count + agg_count,
            forall|d: int| 0 <= d < c ==> values_typed((#[trigger] out.columns[d]).values, schema@[d].data_type),
            columns@.len() == c,
            forall|d: int| 0 <= d < c ==> (#[trigger] columns@[d])@ == out.columns[d],
        decreases n_cols - c,
    {
        let mut values: Vec<Option<ScalarValue>> = Vec::new();
        let mut g: usize = 0;
        while g < keys.len()
            invariant
                g <= keys@.len(),
                c < n_cols,
                n_cols == schema@.len(),
                keys@.len() == states@.len(),
                groups == groups_view(keys@, states@),
                forall|h: int| 0 <= h < keys@.len() ==> (#[trigger] keys@[h])@.len() == key_count,
                forall|h: int| 0 <= h < states@.len() ==> (#[trigger] states@[h])@.len() == agg_count,
                keys@.len() > 0 ==> schema@.len() == key_count + agg_count,
                values@.len() == g,
                forall|h: int|
                    0 <= h < g ==> opt_view(#[trigger] values@[h]) == (if c < key_count {
                        groups[h].key[c as int]
                    } else {
                        final_state_value(groups[h].states[c - key_count])
                    }),
            decreases keys@.len() - g,
        {
            if c < key_count {
                let v = copy_value(&keys[g][c]);
                assert(groups[g as int].key[c as int] == opt_view(keys@[g as int]@[c as int]));
                values.push(v);
            } else {
                let v = states[g][c - key_count].final_value();
                assert(groups[g as int].states[c - key_count] == states@[g as int]@[c - key_count].state());
                values.push(v);
            }
            g = g + 1;
        }
        assert(values_view(values@) =~= out.columns[c as int].values);
        let t = schema.field(c).data_type();
        if !values_fit(&values, t) {
            return None;
        }
        let col = build_column(values, t);
        columns.push(col);
        c = c + 1;
    }
    assert(columns_view(columns@) =~= out.columns);
    Some(RecordBatch::new(schema.copy(), columns))
}

// ---------------------------------------------------------------------
// Plans
// ---------------------------------------------------------------------

/// Leaf: read the `projection` columns (all columns if it is empty) from
/// a data source.
#[derive(Debug)]
pub struct ScanExec {
    pub data_source: DataSource,
    pub projection: Vec<String>,
    pub schema: Schema,
}

/// One output column per expression, evaluated against each input batch.
#[derive(Debug)]
pub struct ProjectionExec {
    pub input: Box<PhysicalPlan>,
    pub exprs: Vec<Expression>,
    pub schema: Schema,
}

/// Keep the rows where the predicate is true (NULL filters out); the
/// schema passes through.
#[derive(Debug)]
pub struct SelectionExec {
    pub input: Box<PhysicalPlan>,
    pub expr: Expression,
}

/// Group rows by key expressions, fold each group's rows through its
/// accumulators, and emit one row per group after the whole input.
#[derive(Debug)]
pub struct HashAggregateExec {
    pub input: Box<PhysicalPlan>,
    pub group_exprs: Vec<Expression>,
    pub aggregate_exprs: Vec<AggregateExpression>,
    pub schema: Schema,
}

/// A runnable plan.
#[derive(Debug)]
pub enum PhysicalPlan {
    Scan(ScanExec),
    Projection(ProjectionExec),
    Selection(SelectionExec),
    HashAggregate(HashAggregateExec),
}

/// A batch holding each expression's column, under `schema`.
pub open spec fn project_view(b: BatchView, schema: Seq<FieldView>, exprs: Seq<Expression>) -> BatchView {
    BatchView { schema, columns: Seq::new(exprs.len(), |c: int| eval_column(exprs[c], b)) }
}

/// The rows of a batch the predicate keeps, under `schema`.
pub open spec fn select_view(b: BatchView, schema: Seq<FieldView>, predicate: Expression) -> BatchView {
    BatchView {
        schema,
        columns: Seq::new(
            b.columns.len(),
            |c: int|
                ColumnView {
                    data_type: b.columns[c].data_type,
                    values: filter_values(b.columns[c].values, eval_column(predicate, b).values),
                },
        ),
    }
}

/// The groups an aggregation forms over `input`.
pub open spec fn aggregate_groups(input: Seq<BatchView>, group_exprs: Seq<Expression>, aggs: Seq<AggregateExpression>) -> Seq<Group> {
    group_fold(all_agg_rows(input, group_exprs, aggregate_inputs(aggs)), aggregate_funcs(aggs))
}

/// An aggregation over `input` runs without a panic: its key and input
/// expressions evaluate against every batch, and every accumulator takes
/// what it is fed.
pub open spec fn aggregation_ok(input: Seq<BatchView>, group_exprs: Seq<Expression>, aggs: Seq<AggregateExpression>) -> bool {
    &&& forall|b: int, g: int|
        0 <= b < input.len() && 0 <= g < group_exprs.len() ==> eval_ok(#[trigger] group_exprs[g], #[trigger] input[b])
    &&& forall|b: int, a: int|
        0 <= b < input.len() && 0 <= a < aggs.len() ==> eval_ok((#[trigger] aggs[a]).expr, #[trigger] input[b])
    &&& group_fold_ok(all_agg_rows(input, group_exprs, aggregate_inputs(aggs)), aggregate_funcs(aggs))
}

/// The schema of the batches a plan yields.
pub open spec fn plan_schema(p: PhysicalPlan) -> Seq<FieldView>
    decreases p,
{
    match p {
        PhysicalPlan::Scan(s) => s.schema@,
        PhysicalPlan::Projection(x) => x.schema@,
        PhysicalPlan::Selection(x) => plan_schema(*x.input),
        PhysicalPlan::HashAggregate(x) => x.schema@,
    }
}

/// The batches a plan yields, in order.
pub open spec fn plan_output(p: PhysicalPlan) -> Seq<BatchView>
    decreases p,
{
    match p {
        PhysicalPlan::Scan(s) => scan_view(
            s.data_source.schema_view(),
            s.data_source.data_view(),
            strings_view(s.projection@),
        ),
        PhysicalPlan::Projection(x) => {
            let input = plan_output(*x.input);
            Seq::new(input.len(), |b: int| project_view(input[b], x.schema@, x.exprs@))
        },
        PhysicalPlan::Selection(x) => {
            let input = plan_output(*x.input);
            Seq::new(input.len(), |b: int| select_view(input[b], plan_schema(*x.input), x.expr))
        },
        PhysicalPlan::HashAggregate(x) => seq![
            aggregate_batch(
                x.schema@,
                aggregate_groups(plan_output(*x.input), x.group_exprs@, x.aggregate_exprs@),
                x.group_exprs@.len() as int,
            ),
        ],
    }
}

/// A plan runs without a panic: a scan's names are in its source, which
/// holds well-formed batches of its schema; expressions evaluate against
/// every input batch; a projection has one expression per field; every
/// built column's values fit its type; accumulators take what they are fed;
/// an aggregation that forms groups has one field per key and aggregate.
pub open spec fn plan_ok(p: PhysicalPlan) -> bool
    decreases p,
{
    match p {
        PhysicalPlan::Scan(s) => {
            &&& s.data_source.wf()
            &&& all_named(s.data_source.schema_view(), strings_view(s.projection@))
            &&& s.schema@ == scan_schema(s.data_source.schema_view(), strings_view(s.projection@))
        },
        PhysicalPlan::Projection(x) => {
            let input = plan_output(*x.input);
            &&& plan_ok(*x.input)
            &&& x.exprs@.len() == x.schema@.len()
            &&& forall|b: int, c: int|
                0 <= b < input.len() && 0 <= c < x.exprs@.len() ==> eval_ok(#[trigger] x.exprs@[c], #[trigger] input[b])
        },
        PhysicalPlan::Selection(x) => {
            let input = plan_output(*x.input);
            &&& plan_ok(*x.input)
            &&& forall|b: int| 0 <= b < input.len() ==> eval_ok(x.expr, #[trigger] input[b])
            &&& forall|b: int, c: int|
                0 <= b < input.len() && 0 <= c < input[b].columns.len() ==> values_typed(
                    (#[trigger] select_view(input[b], plan_schema(*x.input), x.expr).columns[c]).values,
                    input[b].columns[c].data_type,
                )
        },
        PhysicalPlan::HashAggregate(x) => {
            let input = plan_output(*x.input);
            let groups = aggregate_groups(input, x.group_exprs@, x.aggregate_exprs@);
            &&& plan_ok(*x.input)
            &&& aggregation_ok(input, x.group_exprs@, x.aggregate_exprs@)
            &&& groups.len() > 0 ==> x.schema@.len() == x.group_exprs@.len() + x.aggregate_exprs@.len()
            &&& emitted_typed(aggregate_batch(x.schema@, groups, x.group_exprs@.len() as int), x.schema@)
        },
    }
}

/// Every batch a plan that runs yields has the plan's schema, and its
/// columns fit that schema.
pub proof fn law_output_schema(p: PhysicalPlan)
    requires
        plan_ok(p),
    ensures
        forall|b: int|
            0 <= b < plan_output(p).len() ==> (#[trigger] plan_output(p)[b]).schema == plan_schema(p) && columns_fit(
                plan_schema(p).len(),
                plan_output(p)[b].columns,
            ),
    decreases p,
{
    match p {
        PhysicalPlan::Scan(s) => {
            let schema = s.data_source.schema_view();
            let names = strings_view(s.projection@);
            let data = s.data_source.data_view();
            if names.len() > 0 {
                let idx = projection_indices(schema, names);
                assert forall|b: int| 0 <= b < plan_output(p).len() implies (#[trigger] plan_output(p)[b]).schema == plan_schema(p) && columns_fit(
                    plan_schema(p).len(),
                    plan_output(p)[b].columns,
                ) by {
                    let out = plan_output(p)[b];
                    assert(out.schema =~= plan_schema(p));
                    assert(data[b].schema == schema && columns_fit(schema.len(), data[b].columns));
                    assert forall|k: int| 0 <= k < idx.len() implies 0 <= #[trigger] idx[k] < schema.len() by {
                        assert(has_name(schema, names[k]));
                        lemma_has_name_first(schema, names[k]);
                    }
                    assert forall|c: int| 0 <= c < out.columns.len() implies #[trigger] out.columns[c].values.len() == batch_rows(out.columns) by {
                        assert(data[b].columns[idx[c]].values.len() == batch_rows(data[b].columns));
                        assert(data[b].columns[idx[0]].values.len() == batch_rows(data[b].columns));
                    }
                }
            }
        },
        PhysicalPlan::Projection(x) => {
            let input = plan_output(*x.input);
            law_output_schema(*x.input);
            assert forall|b: int| 0 <= b < plan_output(p).len() implies (#[trigger] plan_output(p)[b]).schema == plan_schema(p) && columns_fit(
                plan_schema(p).len(),
                plan_output(p)[b].columns,
            ) by {
                let out = plan_output(p)[b];
                assert forall|c: int| 0 <= c < out.columns.len() implies #[trigger] out.columns[c].values.len() == batch_rows(out.columns) by {
                    lemma_eval_rows(x.exprs@[c], input[b]);
                    lemma_eval_rows(x.exprs@[0], input[b]);
                }
            }
        },
        PhysicalPlan::Selection(x) => {
            let input = plan_output(*x.input);
            law_output_schema(*x.input);
            assert forall|b: int| 0 <= b < plan_output(p).len() implies (#[trigger] plan_output(p)[b]).schema == plan_schema(p) && columns_fit(
                plan_schema(p).len(),
                plan_output(p)[b].columns,
            ) by {
                let out = plan_output(p)[b];
                let keep = eval_column(x.expr, input[b]).values;
                assert forall|c: int| 0 <= c < out.columns.len() implies #[trigger] out.columns[c].values.len() == batch_rows(out.columns) by {
                    lemma_filter_len(input[b].columns[c].values, keep);
                    lemma_filter_len(input[b].columns[0].values, keep);
                }
            }
        },
        PhysicalPlan::HashAggregate(x) => {
        },
    }
}


impl ScanExec {
    /// A scan of `projection` (all columns if empty) from `data_source`;
    /// every projected name must be in the source's schema.
    pub fn new(data_source: DataSource, projection: Vec<String>) -> (s: ScanExec)
        requires
            all_named(data_source.schema_view(), strings_view(projection@)),
        ensures
            s.data_source == data_source,
            s.projection == projection,
            s.schema@ == scan_schema(data_source.schema_view(), strings_view(projection@)),
    {
        let full = data_source.schema();
        let schema = scan_schema_of(&full, &projection);
        ScanExec { data_source, projection, schema }
    }

    /// The schema of the batches the scan yields.
    pub fn schema(&self) -> (s: Schema)
        ensures
            s@ == self.schema@,
    {
        self.schema.copy()
    }

    /// Whether the scan runs: the source's batches fit its schema, the
    /// projected names are in it, and the scan's schema is the projected one.
    fn runs(&self) -> (ok: bool)
        ensures
            ok == plan_ok(PhysicalPlan::Scan(*self)),
    {
        if !self.data_source.check() {
            return false;
        }
        let full = self.data_source.schema();
        if !names_in(&full, &self.projection) {
            return false;
        }
        let want = scan_schema_of(&full, &self.projection);
        want.same(&self.schema)
    }

    /// Scan the source, if the scan runs.
    pub fn try_execute(&self) -> (out: Option<Vec<RecordBatch>>)
        ensures
            match out {
                Some(out) => {
                    &&& plan_ok(PhysicalPlan::Scan(*self))
                    &&& batches_view(out@) == plan_output(PhysicalPlan::Scan(*self))
                    &&& forall|b: int| 0 <= b < out@.len() ==> (#[trigger] out@[b]).wf()
                },
                None => !plan_ok(PhysicalPlan::Scan(*self)),
            },
    {
        if self.runs() {
            Some(self.data_source.scan(&self.projection))
        } else {
            None
        }
    }

    /// Scan the source.
    pub fn execute(&self) -> (out: Vec<RecordBatch>)
        requires
            plan_ok(PhysicalPlan::Scan(*self)),
        ensures
            batches_view(out@) == plan_output(PhysicalPlan::Scan(*self)),
            forall|b: int| 0 <= b < out@.len() ==> (#[trigger] out@[b]).wf(),
    {
        self.data_source.scan(&self.projection)
    }
}

impl ProjectionExec {
    /// A projection of `input` through `exprs`, yielding batches of `schema`.
    pub fn new(input: PhysicalPlan, schema: Schema, exprs: Vec<Expression>) -> (p: ProjectionExec)
        ensures
            *p.input == input,
            p.schema == schema,
            p.exprs == exprs,
    {
        ProjectionExec { input: Box::new(input), exprs, schema }
    }

    pub fn schema(&self) -> (s: Schema)
        ensures
            s@ == self.schema@,
    {
        self.schema.copy()
    }

    /// Run the input and evaluate every expression against each of its
    /// batches; `None` exactly when that would panic.
    pub fn try_execute(&self) -> (out: Option<Vec<RecordBatch>>)
        ensures
            match out {
                Some(out) => {
                    &&& plan_ok(PhysicalPlan::Projection(*self))
                    &&& batches_view(out@) == plan_output(PhysicalPlan::Projection(*self))
                    &&& forall|b: int| 0 <= b < out@.len() ==> (#[trigger] out@[b]).wf()
                },
                None => !plan_ok(PhysicalPlan::Projection(*self)),
            },
        decreases self,
    {
        let input = match self.input.try_execute() {
            Some(input) => input,
            None => return None,
        };
        if self.exprs.len() != self.schema.fields().len() {
            return None;
        }
        let ghost iv = plan_output(*self.input);
        let mut out: Vec<RecordBatch> = Vec::new();
        let mut b: usize = 0;
        while b < input.len()
            invariant
                b <= input@.len(),
                batches_view(input@) == iv,
                iv == plan_output(*self.input),
                plan_ok(*self.input),
                self.exprs@.len() == self.schema@.len(),
                forall|j: int| 0 <= j < input@.len() ==> (#[trigger] input@[j]).wf(),
                forall|j: int, c: int| 0 <= j < b && 0 <= c < self.exprs@.len() ==> eval_ok(#[trigger] self.exprs@[c], #[trigger] iv[j]),
                out@.len() == b,
                forall|j: int| 0 <= j < b ==> (#[trigger] out@[j])@ == project_view(iv[j], self.schema@, self.exprs@),
                forall|j: int| 0 <= j < b ==> (#[trigger] out@[j]).wf(),
            decreases input@.len() - b,
        {
            let batch = &input[b];
            assert(iv[b as int] == batch@);
            proof {
                batch.lemma_wf();
            }
            let mut columns: Vec<ColumnVector> = Vec::new();
            let mut c: usize = 0;
            while c < self.exprs.len()
                invariant
                    c <= self.exprs@.len(),
                    batch@ == iv[b as int],
                    b < iv.len(),
                    iv == plan_output(*self.input),
                    columns_fit(batch@.schema.len(), batch@.columns),
                    forall|m: int| 0 <= m < c ==> eval_ok(#[trigger] self.exprs@[m], iv[b as int]),
                    columns@.len() == c,
                    forall|m: int| 0 <= m < c ==> (#[trigger] columns@[m])@ == eval_column(self.exprs@[m], batch@),
                    forall|m: int| 0 <= m < c ==> (#[trigger] columns@[m])@.values.len() == batch_rows(batch@.columns),
                decreases self.exprs@.len() - c,
            {
                let col = match self.exprs[c].try_evaluate(batch) {
                    Some(col) => col,
                    None => {
                        assert(!eval_ok(self.exprs@[c as int], iv[b as int]));
                        return None;
                    },
                };
                proof {
                    lemma_eval_rows(self.exprs@[c as int], batch@);
                }
                columns.push(col);
                c = c + 1;
            }
            let ghost cols = columns_view(columns@);
            assert(cols =~= project_view(iv[b as int], self.schema@, self.exprs@).columns);
            assert(columns_fit(self.schema@.len(), cols)) by {
                assert forall|m: int| 0 <= m < cols.len() implies #[trigger] cols[m].values.len() == batch_rows(cols) by {
                    assert(cols[0].values.len() == batch_rows(batch@.columns));
                }
            }
            let nb = RecordBatch::new(self.schema.copy(), columns);
            out.push(nb);
            b = b + 1;
        }
        assert(batches_view(out@) =~= plan_output(PhysicalPlan::Projection(*self)));
        Some(out)
    }

    /// Run the input and evaluate every expression against each of its
    /// batches.
    pub fn execute(&self) -> (out: Vec<RecordBatch>)
        requires
            plan_ok(PhysicalPlan::Projection(*self)),
        ensures
            batches_view(out@) == plan_output(PhysicalPlan::Projection(*self)),
            forall|b: int| 0 <= b < out@.len() ==> (#[trigger] out@[b]).wf(),
    {
        match self.try_execute() {
            Some(out) => out,
            None => {
                assert(false);
                Vec::new()
            },
        }
    }
}

impl SelectionExec {
    /// Rows of `input` for which `expr` is true.
    pub fn new(input: PhysicalPlan, expr: Expression) -> (p: SelectionExec)
        ensures
            *p.input == input,
            p.expr == expr,
    {
        SelectionExec { input: Box::new(input), expr }
    }

    /// The input's schema.
    pub fn schema(&self) -> (s: Schema)
        ensures
            s@ == plan_schema(*self.input),
        decreases self,
    {
        self.input.schema()
    }

    /// Run the input and keep, within each batch, the rows where the
    /// predicate is true; `None` exactly when that would panic.
    pub fn try_execute(&self) -> (out: Option<Vec<RecordBatch>>)
        ensures
            match out {
                Some(out) => {
                    &&& plan_ok(PhysicalPlan::Selection(*self))
                    &&& batches_view(out@) == plan_output(PhysicalPlan::Selection(*self))
                    &&& forall|b: int| 0 <= b < out@.len() ==> (#[trigger] out@[b]).wf()
                },
                None => !plan_ok(PhysicalPlan::Selection(*self)),
            },
        decreases self,
    {
        let input = match self.input.try_execute() {
            Some(input) => input,
            None => return None,
        };
        let schema = self.input.schema();
        let ghost iv = plan_output(*self.input);
        let ghost ps = plan_schema(*self.input);
        proof {
            law_output_schema(*self.input);
        }
        let mut out: Vec<RecordBatch> = Vec::new();
        let mut b: usize = 0;
        while b < input.len()
            invariant
                b <= input@.len(),
                batches_view(input@) == iv,
                iv == plan_output(*self.input),
                ps == plan_schema(*self.input),
                schema@ == ps,
                plan_ok(*self.input),
                forall|j: int| 0 <= j < iv.len() ==> (#[trigger] iv[j]).schema == ps,
                forall|j: int| 0 <= j < input@.len() ==> (#[trigger] input@[j]).wf(),
                forall|j: int| 0 <= j < b ==> eval_ok(self.expr, #[trigger] iv[j]),
                forall|j: int, c: int|
                    0 <= j < b && 0 <= c < iv[j].columns.len() ==> values_typed(
                        (#[trigger] select_view(iv[j], ps, self.expr).columns[c]).values,
                        iv[j].columns[c].data_type,
                    ),
                out@.len() == b,
                forall|j: int| 0 <= j < b ==> (#[trigger] out@[j])@ == select_view(iv[j], ps, self.expr),
                forall|j: int| 0 <= j < b ==> (#[trigger] out@[j]).wf(),
            decreases input@.len() - b,
        {
            let batch = &input[b];
            assert(iv[b as int] == batch@);
            proof {
                batch.lemma_wf();
            }
            let predicate = match self.expr.try_evaluate(batch) {
                Some(p) => p,
                None => return None,
            };
            let ghost pv = predicate@.values;
            proof {
                lemma_eval_rows(self.expr, batch@);
            }
            let n = batch.row_count();
            let mut keep: Vec<bool> = Vec::new();
            let mut i: usize = 0;
            while i < n
                invariant
                    i <= n,
                    n == pv.len(),
                    pv == predicate@.values,
                    keep@.len() == i,
                    forall|m: int| 0 <= m < i ==> (#[trigger] keep@[m]) == kept(pv, m),
                decreases n - i,
            {
                let k = match predicate.value(i) {
                    Some(ScalarValue::Boolean(true)) => true,
                    _ => false,
                };
                keep.push(k);
                i = i + 1;
            }
            let ghost want = select_view(batch@, ps, self.expr);
            let mut columns: Vec<ColumnVector> = Vec::new();
            let mut c: usize = 0;
            while c < batch.column_count()
                invariant
                    c <= batch@.columns.len(),
                    batch@ == iv[b as int],
                    b < iv.len(),
                    iv == plan_output(*self.input),
                    ps == plan_schema(*self.input),
                    want == select_view(batch@, ps, self.expr),
                    columns_fit(batch@.schema.len(), batch@.columns),
                    pv == eval_column(self.expr, batch@).values,
                    pv.len() == batch_rows(batch@.columns),
                    keep@.len() == pv.len(),
                    forall|m: int| 0 <= m < keep@.len() ==> (#[trigger] keep@[m]) == kept(pv, m),
                    forall|m: int|
                        0 <= m < c ==> values_typed((#[trigger] want.columns[m]).values, batch@.columns[m].data_type),
                    columns@.len() == c,
                    forall|m: int| 0 <= m < c ==> (#[trigger] columns@[m])@ == want.columns[m],
                decreases batch@.columns.len() - c,
            {
                let col = batch.column(c);
                assert(want.columns[c as int].values == filter_values(col@.values, pv));
                assert(col@.values.len() == batch_rows(batch@.columns));
                let fc = match filter_column(col, &keep, Ghost(pv)) {
                    Some(fc) => fc,
                    None => {
                        assert(!values_typed(want.columns[c as int].values, iv[b as int].columns[c as int].data_type));
                        return None;
                    },
                };
                columns.push(fc);
                c = c + 1;
            }
            let ghost cols = columns_view(columns@);
            assert(cols =~= want.columns);
            assert(columns_fit(schema@.len(), cols)) by {
                assert forall|m: int| 0 <= m < cols.len() implies #[trigger] cols[m].values.len() == batch_rows(cols) by {
                    lemma_filter_len(batch@.columns[m].values, pv);
                    lemma_filter_len(batch@.columns[0].values, pv);
                }
            }
            let nb = RecordBatch::new(schema.copy(), columns);
            out.push(nb);
            b = b + 1;
        }
        assert(batches_view(out@) =~= plan_output(PhysicalPlan::Selection(*self)));
        Some(out)
    }

    /// Run the input and keep, within each batch, the rows where the
    /// predicate is true.
    pub fn execute(&self) -> (out: Vec<RecordBatch>)
        requires
            plan_ok(PhysicalPlan::Selection(*self)),
        ensures
            batches_view(out@) == plan_output(PhysicalPlan::Selection(*self)),
            forall|b: int| 0 <= b < out@.len() ==> (#[trigger] out@[b]).wf(),
    {
        match self.try_execute() {
            Some(out) => out,
            None => {
                assert(false);
                Vec::new()
            },
        }
    }
}

impl HashAggregateExec {
    /// Group `input` by `group_exprs` and aggregate by `aggregate_exprs`,
    /// yielding one batch of `schema` (group fields, then aggregate fields).
    pub fn new(
        input: PhysicalPlan,
        schema: Schema,
        group_exprs: Vec<Expression>,
        aggregate_exprs: Vec<AggregateExpression>,
    ) -> (p: HashAggregateExec)
        ensures
            *p.input == input,
            p.schema == schema,
            p.group_exprs == group_exprs,
            p.aggregate_exprs == aggregate_exprs,
    {
        HashAggregateExec { input: Box::new(input), group_exprs, aggregate_exprs, schema }
    }

    pub fn schema(&self) -> (s: Schema)
        ensures
            s@ == self.schema@,
    {
        self.schema.copy()
    }

    /// Run the whole input, then emit one row per group, groups in the
    /// order their keys first appeared; `None` exactly when that would
    /// panic.
    pub fn try_execute(&self) -> (out: Option<Vec<RecordBatch>>)
        ensures
            match out {
                Some(out) => {
                    &&& plan_ok(PhysicalPlan::HashAggregate(*self))
                    &&& batches_view(out@) == plan_output(PhysicalPlan::HashAggregate(*self))
                    &&& forall|b: int| 0 <= b < out@.len() ==> (#[trigger] out@[b]).wf()
                },
                None => !plan_ok(PhysicalPlan::HashAggregate(*self)),
            },
        decreases self,
    {
        let input = match self.input.try_execute() {
            Some(input) => input,
            None => return None,
        };
        let ghost iv = plan_output(*self.input);
        let (keys, states) = match aggregate_batches(&input, &self.group_exprs, &self.aggregate_exprs) {
            Some(groups) => groups,
            None => return None,
        };
        let ghost groups = aggregate_groups(iv, self.group_exprs@, self.aggregate_exprs@);
        proof {
            let rows = all_agg_rows(iv, self.group_exprs@, aggregate_inputs(self.aggregate_exprs@));
            assert forall|r: int| 0 <= r < rows.len() implies (#[trigger] rows[r]).inputs.len() == aggregate_funcs(self.aggregate_exprs@).len() by {
                lemma_all_rows_inputs(iv, self.group_exprs@, aggregate_inputs(self.aggregate_exprs@), r);
            }
            lemma_group_fold_wf(rows, aggregate_funcs(self.aggregate_exprs@));
            assert forall|g: int| 0 <= g < states@.len() implies (#[trigger] states@[g])@.len() == self.aggregate_exprs@.len() by {
                assert(groups[g].states.len() == states@[g]@.len());
            }
        }
        let n_fields = self.schema.fields().len();
        let n_keys = self.group_exprs.len();
        if keys.len() > 0 && (n_fields < n_keys || n_fields - n_keys != self.aggregate_exprs.len()) {
            return None;
        }
        let batch = match emit_groups(&self.schema, self.group_exprs.len(), self.aggregate_exprs.len(), &keys, &states) {
            Some(batch) => batch,
            None => return None,
        };
        let mut out: Vec<RecordBatch> = Vec::new();
        out.push(batch);
        assert(batches_view(out@) =~= plan_output(PhysicalPlan::HashAggregate(*self)));
        Some(out)
    }

    /// Run the whole input, then emit one row per group, groups in the
    /// order their keys first appeared.
    pub fn execute(&self) -> (out: Vec<RecordBatch>)
        requires
            plan_ok(PhysicalPlan::HashAggregate(*self)),
        ensures
            batches_view(out@) == plan_output(PhysicalPlan::HashAggregate(*self)),
            forall|b: int| 0 <= b < out@.len() ==> (#[trigger] out@[b]).wf(),
    {
        match self.try_execute() {
            Some(out) => out,
            None => {
                assert(false);
                Vec::new()
            },
        }
    }
}

impl PhysicalPlan {
    /// The schema of the batches this plan yields.
    pub fn schema(&self) -> (s: Schema)
        ensures
            s@ == plan_schema(*self),
        decreases self,
    {
        match self {
            PhysicalPlan::Scan(x) => x.schema(),
            PhysicalPlan::Projection(x) => x.schema(),
            PhysicalPlan::Selection(x) => x.schema(),
            PhysicalPlan::HashAggregate(x) => x.schema(),
        }
    }

    /// Run this plan to completion if that runs without a panic: its
    /// batches in order, or `None` exactly when running it would panic.
    pub fn try_execute(&self) -> (out: Option<Vec<RecordBatch>>)
        ensures
            match out {
                Some(out) => {
                    &&& plan_ok(*self)
                    &&& batches_view(out@) == plan_output(*self)
                    &&& forall|b: int| 0 <= b < out@.len() ==> (#[trigger] out@[b]).wf()
                },
                None => !plan_ok(*self),
            },
        decreases self,
    {
        match self {
            PhysicalPlan::Scan(x) => x.try_execute(),
            PhysicalPlan::Projection(x) => x.try_execute(),
            PhysicalPlan::Selection(x) => x.try_execute(),
            PhysicalPlan::HashAggregate(x) => x.try_execute(),
        }
    }

    /// Run this plan to completion, yielding its batches in order.
    pub fn execute(&self) -> (out: Vec<RecordBatch>)
        requires
            plan_ok(*self),
        ensures
            batches_view(out@) == plan_output(*self),
            forall|b: int| 0 <= b < out@.len() ==> (#[trigger] out@[b]).wf(),
    {
        match self.try_execute() {
            Some(out) => out,
            None => {
                assert(false);
                Vec::new()
            },
        }
    }
}

/// Every column of the batch holds only values of its own type.
pub open spec fn batch_typed(b: BatchView) -> bool {
    forall|c: int| 0 <= c < b.columns.len() ==> values_typed((#[trigger] b.columns[c]).values, b.columns[c].data_type)
}

/// Typed in, typed out: against a batch whose columns hold only values of
/// their types, every expression yields a column holding only values of
/// its type.
pub proof fn law_eval_typed(e: Expression, b: BatchView)
    requires
        batch_typed(b),
        eval_ok(e, b),
    ensures
        values_typed(eval_column(e, b).values, eval_column(e, b).data_type),
    decreases e,
{
    match e {
        Expression::Column(c) => {
            assert(values_typed(b.columns[c.index as int].values, b.columns[c.index as int].data_type));
        },
        Expression::Literal(_) => {},
        Expression::Binary(x) => {},
    }
}

/// A filter keeps exactly the rows whose predicate is true; false and NULL
/// drop a row. A predicate true on every row keeps every value, in order;
/// one true on no row keeps nothing.
pub proof fn law_filter_keeps_true_rows(values: Seq<Option<Scalar>>, predicate: Seq<Option<Scalar>>)
    requires
        predicate.len() >= values.len(),
    ensures
        (forall|i: int| 0 <= i < values.len() ==> #[trigger] predicate[i] == Some(Scalar::Boolean(true)))
            ==> filter_values(values, predicate) == values,
        (forall|i: int| 0 <= i < values.len() ==> #[trigger] predicate[i] != Some(Scalar::Boolean(true)))
            ==> filter_values(values, predicate).len() == 0,
    decreases values.len(),
{
    if values.len() > 0 {
        law_filter_keeps_true_rows(values.drop_last(), predicate);
        let last = values.len() - 1;
        if forall|i: int| 0 <= i < values.len() ==> #[trigger] predicate[i] == Some(Scalar::Boolean(true)) {
            assert(predicate[last] == Some(Scalar::Boolean(true)));
            assert(filter_values(values, predicate) =~= values);
        }
        if forall|i: int| 0 <= i < values.len() ==> #[trigger] predicate[i] != Some(Scalar::Boolean(true)) {
            assert(predicate[last] != Some(Scalar::Boolean(true)));
        }
    }
}

/// Keeping some rows of a column keeps it holding only values of its type.
pub proof fn law_filter_typed(values: Seq<Option<Scalar>>, predicate: Seq<Option<Scalar>>, t: DataType)
    requires
        values_typed(values, t),
    ensures
        values_typed(filter_values(values, predicate), t),
    decreases values.len(),
{
    if values.len() > 0 {
        assert(values_typed(values.drop_last(), t)) by {
            assert forall|i: int| 0 <= i < values.drop_last().len() implies (#[trigger] values.drop_last()[i] matches Some(
                v,
            ) ==> scalar_type(v) == t) by {
                assert(values.drop_last()[i] == values[i]);
            }
        }
        law_filter_typed(values.drop_last(), predicate, t);
        assert(values.last() == values[values.len() - 1]);
    }
}

/// A selection over batches whose columns hold only values of their types
/// never fails to build its columns: what stops it running is only its
/// input, or a predicate that cannot be evaluated.
pub proof fn law_selection_typed(x: SelectionExec)
    requires
        plan_ok(*x.input),
        forall|b: int| 0 <= b < plan_output(*x.input).len() ==> batch_typed(#[trigger] plan_output(*x.input)[b]),
        forall|b: int| 0 <= b < plan_output(*x.input).len() ==> eval_ok(x.expr, #[trigger] plan_output(*x.input)[b]),
    ensures
        plan_ok(PhysicalPlan::Selection(x)),
        forall|b: int|
            0 <= b < plan_output(PhysicalPlan::Selection(x)).len() ==> batch_typed(
                #[trigger] plan_output(PhysicalPlan::Selection(x))[b],
            ),
{
    let input = plan_output(*x.input);
    assert forall|b: int, c: int|
        0 <= b < input.len() && 0 <= c < input[b].columns.len() implies values_typed(
            (#[trigger] select_view(input[b], plan_schema(*x.input), x.expr).columns[c]).values,
            input[b].columns[c].data_type,
        ) by {
        assert(batch_typed(input[b]));
        assert(values_typed(input[b].columns[c].values, input[b].columns[c].data_type));
        law_filter_typed(input[b].columns[c].values, eval_column(x.expr, input[b]).values, input[b].columns[c].data_type);
    }
    let out = plan_output(PhysicalPlan::Selection(x));
    assert forall|b: int| 0 <= b < out.len() implies batch_typed(#[trigger] out[b]) by {
        assert forall|c: int| 0 <= c < out[b].columns.len() implies values_typed(
            (#[trigger] out[b].columns[c]).values,
            out[b].columns[c].data_type,
        ) by {
            assert(out[b] == select_view(input[b], plan_schema(*x.input), x.expr));
        }
    }
}

/// A projection of batches whose columns hold only values of their types
/// yields batches whose columns do too.
pub proof fn law_projection_typed(x: ProjectionExec)
    requires
        plan_ok(PhysicalPlan::Projection(x)),
        forall|b: int| 0 <= b < plan_output(*x.input).len() ==> batch_typed(#[trigger] plan_output(*x.input)[b]),
    ensures
        forall|b: int|
            0 <= b < plan_output(PhysicalPlan::Projection(x)).len() ==> batch_typed(
                #[trigger] plan_output(PhysicalPlan::Projection(x))[b],
            ),
{
    let input = plan_output(*x.input);
    let out = plan_output(PhysicalPlan::Projection(x));
    assert forall|b: int| 0 <= b < out.len() implies batch_typed(#[trigger] out[b]) by {
        assert forall|c: int| 0 <= c < out[b].columns.len() implies values_typed(
            (#[trigger] out[b].columns[c]).values,
            out[b].columns[c].data_type,
        ) by {
            assert(batch_typed(input[b]));
            law_eval_typed(x.exprs@[c], input[b]);
        }
    }
}

/// Operators other than aggregation work batch by batch: a projection or
/// selection yields one batch per input batch, a projection with at least
/// one expression keeps each batch's row count, and a selection keeps
/// exactly the rows whose predicate is true (a NULL predicate drops the
/// row) with the input's columns and types. An aggregation, which must see
/// every input batch first, yields exactly one batch.
pub proof fn law_batch_shapes(p: PhysicalPlan)
    requires
        plan_ok(p),
    ensures
        match p {
            PhysicalPlan::Scan(_) => true,
            PhysicalPlan::Projection(x) => {
                &&& plan_output(p).len() == plan_output(*x.input).len()
                &&& x.exprs@.len() > 0 ==> forall|b: int|
                    0 <= b < plan_output(p).len() ==> batch_rows((#[trigger] plan_output(p)[b]).columns) == batch_rows(
                        plan_output(*x.input)[b].columns,
                    )
            },
            PhysicalPlan::Selection(x) => {
                &&& plan_output(p).len() == plan_output(*x.input).len()
                &&& forall|b: int, c: int|
                    0 <= b < plan_output(p).len() && 0 <= c < plan_output(*x.input)[b].columns.len() ==> {
                        &&& (#[trigger] plan_output(p)[b].columns[c]).data_type == plan_output(*x.input)[b].columns[c].data_type
                        &&& plan_output(p)[b].columns[c].values == filter_values(
                            plan_output(*x.input)[b].columns[c].values,
                            eval_column(x.expr, plan_output(*x.input)[b]).values,
                        )
                        &&& plan_output(p)[b].columns[c].values.len() == kept_count(
                            eval_column(x.expr, plan_output(*x.input)[b]).values,
                            batch_rows(plan_output(*x.input)[b].columns) as int,
                        )
                    }
            },
            PhysicalPlan::HashAggregate(_) => plan_output(p).len() == 1,
        },
{
    match p {
        PhysicalPlan::Projection(x) => {
            let input = plan_output(*x.input);
            law_output_schema(*x.input);
            if x.exprs@.len() > 0 {
                assert forall|b: int| 0 <= b < plan_output(p).len() implies batch_rows(
                    (#[trigger] plan_output(p)[b]).columns,
                ) == batch_rows(input[b].columns) by {
                    lemma_eval_rows(x.exprs@[0], input[b]);
                }
            }
        },
        PhysicalPlan::Selection(x) => {
            let input = plan_output(*x.input);
            law_output_schema(*x.input);
            assert forall|b: int, c: int|
                0 <= b < plan_output(p).len() && 0 <= c < input[b].columns.len() implies (#[trigger] plan_output(p)[b].columns[c]).values.len()
                == kept_count(eval_column(x.expr, input[b]).values, batch_rows(input[b].columns) as int) by {
                lemma_filter_len(input[b].columns[c].values, eval_column(x.expr, input[b]).values);
                assert(input[b].columns[c].values.len() == batch_rows(input[b].columns));
            }
        },
        _ => {},
    }
}

/// Each expression's text.
pub open spec fn expr_texts(exprs: Seq<Expression>) -> Seq<Seq<char>> {
    Seq::new(exprs.len(), |i: int| expr_text(exprs[i]))
}

/// Each aggregate's text.
pub open spec fn aggregate_texts(aggs: Seq<AggregateExpression>) -> Seq<Seq<char>> {
    Seq::new(aggs.len(), |i: int| aggregate_text(aggs[i]))
}

/// A list of names as Rust's `Debug` writes it: quoted, comma-separated,
/// in square brackets.
pub open spec fn names_list(names: Seq<Seq<char>>) -> Seq<char> {
    seq!['['] + joined(Seq::new(names.len(), |i: int| debug_quoted(names[i])), ", "@) + seq![']']
}

/// How a plan node prints itself on one line.
pub open spec fn plan_text(p: PhysicalPlan) -> Seq<char> {
    match p {
        PhysicalPlan::Scan(s) => "ScanExec: projection="@ + names_list(strings_view(s.projection@)),
        PhysicalPlan::Projection(x) => "ProjectionExec: "@ + joined(expr_texts(x.exprs@), ", "@),
        PhysicalPlan::Selection(x) => "SelectionExec: "@ + expr_text(x.expr),
        PhysicalPlan::HashAggregate(x) => "HashAggregateExec: groupExpr=["@ + joined(expr_texts(x.group_exprs@), ", "@)
            + "], aggregateExpr=["@ + joined(aggregate_texts(x.aggregate_exprs@), ", "@) + "]"@,
    }
}

/// The nodes a plan node consumes.
pub open spec fn plan_children(p: PhysicalPlan) -> Seq<PhysicalPlan> {
    match p {
        PhysicalPlan::Scan(_) => Seq::empty(),
        PhysicalPlan::Projection(x) => seq![*x.input],
        PhysicalPlan::Selection(x) => seq![*x.input],
        PhysicalPlan::HashAggregate(x) => seq![*x.input],
    }
}

/// The texts of a list of expressions, comma-separated.
fn join_exprs(exprs: &Vec<Expression>) -> (t: String)
    ensures
        t@ == joined(expr_texts(exprs@), ", "@),
{
    let mut texts: Vec<String> = Vec::new();
    let mut i: usize = 0;
    while i < exprs.len()
        invariant
            i <= exprs@.len(),
            texts@.len() == i,
            forall|j: int| 0 <= j < i ==> (#[trigger] texts@[j])@ == expr_text(exprs@[j]),
        decreases exprs@.len() - i,
    {
        texts.push(exprs[i].to_text());
        i = i + 1;
    }
    let t = join(&texts, ", ");
    assert(Seq::new(texts@.len(), |j: int| texts@[j]@) =~= expr_texts(exprs@));
    t
}

/// The texts of a list of aggregates, comma-separated.
fn join_aggregates(aggs: &Vec<AggregateExpression>) -> (t: String)
    ensures
        t@ == joined(aggregate_texts(aggs@), ", "@),
{
    let mut texts: Vec<String> = Vec::new();
    let mut i: usize = 0;
    while i < aggs.len()
        invariant
            i <= aggs@.len(),
            texts@.len() == i,
            forall|j: int| 0 <= j < i ==> (#[trigger] texts@[j])@ == aggregate_text(aggs@[j]),
        decreases aggs@.len() - i,
    {
        texts.push(aggs[i].to_text());
        i = i + 1;
    }
    let t = join(&texts, ", ");
    assert(Seq::new(texts@.len(), |j: int| texts@[j]@) =~= aggregate_texts(aggs@));
    t
}

/// A list of names as Rust's `Debug` writes it.
pub fn names_list_text(names: &Vec<String>) -> (t: String)
    ensures
        t@ == names_list(strings_view(names@)),
{
    let mut texts: Vec<String> = Vec::new();
    let mut i: usize = 0;
    while i < names.len()
        invariant
            i <= names@.len(),
            texts@.len() == i,
            forall|j: int| 0 <= j < i ==> (#[trigger] texts@[j])@ == debug_quoted(names@[j]@),
        decreases names@.len() - i,
    {
        texts.push(quote(names[i].as_str()));
        i = i + 1;
    }
    let inner = join(&texts, ", ");
    assert(Seq::new(texts@.len(), |j: int| texts@[j]@) =~= Seq::new(
        strings_view(names@).len(),
        |j: int| debug_quoted(strings_view(names@)[j]),
    ));
    let mut t = String::new();
    push_char(&mut t, '[');
    push_text(&mut t, &inner);
    push_char(&mut t, ']');
    assert(t@ =~= names_list(strings_view(names@)));
    t
}

impl PhysicalPlan {
    /// How this node prints itself on one line.
    pub fn to_text(&self) -> (t: String)
        ensures
            t@ == plan_text(*self),
    {
        match self {
            PhysicalPlan::Scan(s) => {
                let mut t = String::from_str("ScanExec: projection=");
                let names = names_list_text(&s.projection);
                push_text(&mut t, &names);
                t
            },
            PhysicalPlan::Projection(x) => {
                let mut t = String::from_str("ProjectionExec: ");
                let e = join_exprs(&x.exprs);
                push_text(&mut t, &e);
                t
            },
            PhysicalPlan::Selection(x) => {
                let mut t = String::from_str("SelectionExec: ");
                let e = x.expr.to_text();
                push_text(&mut t, &e);
                t
            },
            PhysicalPlan::HashAggregate(x) => {
                let mut t = String::from_str("HashAggregateExec: groupExpr=[");
                let g = join_exprs(&x.group_exprs);
                push_text(&mut t, &g);
                t.append("], aggregateExpr=[");
                let a = join_aggregates(&x.aggregate_exprs);
                push_text(&mut t, &a);
                t.append("]");
                t
            },
        }
    }

    /// The nodes this one consumes; none for a scan.
    pub fn children(&self) -> (c: Vec<&PhysicalPlan>)
        ensures
            c@.len() == plan_children(*self).len(),
            forall|i: int| 0 <= i < c@.len() ==> *c@[i] == plan_children(*self)[i],
    {
        let mut c: Vec<&PhysicalPlan> = Vec::new();
        match self {
            PhysicalPlan::Scan(_) => {},
            PhysicalPlan::Projection(x) => c.push(&*x.input),
            PhysicalPlan::Selection(x) => c.push(&*x.input),
            PhysicalPlan::HashAggregate(x) => c.push(&*x.input),
        }
        c
    }
}

} // verus!
