//! The query planner: walks a logical tree and picks a physical operator
//! for every node and expression. Column names are resolved to indices
//! against each node's input schema here, once.

use crate::engine::datasource::strings_view;
use crate::engine::datatypes::{BatchView, FieldView, Schema, lemma_has_name_first, lemma_name_index, name_index};
use crate::engine::logical_expr::{AggregateExpr, LogicalExpr, expr_field, resolves};
use crate::engine::logical_plan::{
    LogicalPlan, aggregates_resolve, all_resolve, is_plannable, logical_schema, plannable,
};
use crate::engine::physical_expr::{
    AggregateExpression, BinaryExpression, ColumnExpression, Expression, LiteralExpression, eval_column,
};
use crate::engine::physical_plan::{
    HashAggregateExec, PhysicalPlan, ProjectionExec, ScanExec, SelectionExec, plan_ok, plan_output, plan_schema,
};
use vstd::prelude::*;

verus! {

/// The physical expression for `e` against rows of `schema`: every column
/// name becomes the index of the first field of that name.
pub open spec fn physical_expr_of(e: LogicalExpr, schema: Seq<FieldView>) -> Expression
    decreases e,
{
    match e {
        LogicalExpr::Column(name) => Expression::Column(ColumnExpression { index: name_index(schema, name@) as usize }),
        LogicalExpr::Literal { value, text } => Expression::Literal(LiteralExpression { value, text }),
        LogicalExpr::BinaryExpr { left, op, right } => Expression::Binary(
            BinaryExpression {
                left: Box::new(physical_expr_of(*left, schema)),
                op,
                right: Box::new(physical_expr_of(*right, schema)),
            },
        ),
    }
}

/// The physical expressions for a list of logical ones.
pub open spec fn physical_exprs_of(exprs: Seq<LogicalExpr>, schema: Seq<FieldView>) -> Seq<Expression> {
    Seq::new(exprs.len(), |i: int| physical_expr_of(exprs[i], schema))
}

/// The physical aggregates for a list of logical ones.
pub open spec fn physical_aggregates_of(aggs: Seq<AggregateExpr>, schema: Seq<FieldView>) -> Seq<AggregateExpression> {
    Seq::new(aggs.len(), |i: int| AggregateExpression { func: aggs[i].func, expr: physical_expr_of(aggs[i].expr, schema) })
}

/// `p` is the physical plan for `l`: a scan reads the same source data
/// and columns; a projection, selection or aggregation becomes the
/// matching operator over the plan for its input, with its expressions
/// resolved against the input's schema and the logical node's schema.
pub open spec fn planned(l: LogicalPlan, p: PhysicalPlan) -> bool
    decreases l,
{
    match l {
        LogicalPlan::Scan(s) => match p {
            PhysicalPlan::Scan(x) => {
                &&& x.data_source.schema_view() == s.data_source.schema_view()
                &&& x.data_source.data_view() == s.data_source.data_view()
                &&& strings_view(x.projection@) == strings_view(s.projection@)
                &&& x.schema@ == s.schema@
            },
            _ => false,
        },
        LogicalPlan::Projection(y) => match p {
            PhysicalPlan::Projection(x) => {
                &&& planned(*y.input, *x.input)
                &&& x.schema@ == y.schema@
                &&& x.exprs@ == physical_exprs_of(y.exprs@, logical_schema(*y.input))
            },
            _ => false,
        },
        LogicalPlan::Selection(y) => match p {
            PhysicalPlan::Selection(x) => {
                &&& planned(*y.input, *x.input)
                &&& x.expr == physical_expr_of(y.expr, logical_schema(*y.input))
            },
            _ => false,
        },
        LogicalPlan::Aggregate(y) => match p {
            PhysicalPlan::HashAggregate(x) => {
                &&& planned(*y.input, *x.input)
                &&& x.schema@ == y.schema@
                &&& x.group_exprs@ == physical_exprs_of(y.group_exprs@, logical_schema(*y.input))
                &&& x.aggregate_exprs@ == physical_aggregates_of(y.aggregate_exprs@, logical_schema(*y.input))
            },
            _ => false,
        },
    }
}

/// The physical expression for a logical one, against the schema of `input`, the
/// node it reads rows from; every column it names must be there.
pub fn create_physical_expr(expr: &LogicalExpr, input: &LogicalPlan) -> (e: Expression)
    requires
        resolves(*expr, logical_schema(*input)),
    ensures
        e == physical_expr_of(*expr, logical_schema(*input)),
{
    let schema = input.schema();
    expr_against(expr, &schema)
}

/// The physical expression for a logical one, against `schema`.
fn expr_against(expr: &LogicalExpr, schema: &Schema) -> (e: Expression)
    requires
        resolves(*expr, schema@),
    ensures
        e == physical_expr_of(*expr, schema@),
    decreases expr,
{
    match expr {
        LogicalExpr::Column(name) => match schema.index_of(name.as_str()) {
            Ok(index) => {
                proof {
                    lemma_name_index(schema@, name@, index as int);
                }
                Expression::Column(ColumnExpression { index })
            },
            Err(_) => {
                assert(false);
                Expression::Column(ColumnExpression { index: 0 })
            },
        },
        LogicalExpr::Literal { value, text } => Expression::Literal(
            LiteralExpression { value: value.copy(), text: text.clone() },
        ),
        LogicalExpr::BinaryExpr { left, op, right } => Expression::Binary(
            BinaryExpression {
                left: Box::new(expr_against(left, schema)),
                op: *op,
                right: Box::new(expr_against(right, schema)),
            },
        ),
    }
}

/// The physical expressions for a list of logical ones, against `schema`.
fn exprs_against(exprs: &Vec<LogicalExpr>, schema: &Schema) -> (out: Vec<Expression>)
    requires
        all_resolve(exprs@, schema@),
    ensures
        out@ == physical_exprs_of(exprs@, schema@),
{
    let mut out: Vec<Expression> = Vec::new();
    let mut i: usize = 0;
    while i < exprs.len()
        invariant
            i <= exprs@.len(),
            all_resolve(exprs@, schema@),
            out@.len() == i,
            forall|j: int| 0 <= j < i ==> (#[trigger] out@[j]) == physical_expr_of(exprs@[j], schema@),
        decreases exprs@.len() - i,
    {
        out.push(expr_against(&exprs[i], schema));
        i = i + 1;
    }
    assert(out@ =~= physical_exprs_of(exprs@, schema@));
    out
}

/// The runnable physical plan for a logical plan; the plan must
/// be well formed and its filters must name only columns of their input.
pub fn create_physical_plan(plan: &LogicalPlan) -> (p: PhysicalPlan)
    requires
        plannable(*plan),
    ensures
        planned(*plan, p),
    decreases plan,
{
    match plan {
        LogicalPlan::Scan(s) => {
            let projection = copy_strings(&s.projection);
            PhysicalPlan::Scan(ScanExec { data_source: s.data_source.copy(), projection, schema: s.schema.copy() })
        },
        LogicalPlan::Projection(x) => {
            let input = create_physical_plan(&x.input);
            let schema_in = x.input.schema();
            let exprs = exprs_against(&x.exprs, &schema_in);
            PhysicalPlan::Projection(ProjectionExec::new(input, x.schema.copy(), exprs))
        },
        LogicalPlan::Selection(x) => {
            let input = create_physical_plan(&x.input);
            let expr = create_physical_expr(&x.expr, &x.input);
            PhysicalPlan::Selection(SelectionExec::new(input, expr))
        },
        LogicalPlan::Aggregate(x) => {
            let input = create_physical_plan(&x.input);
            let schema_in = x.input.schema();
            let group_exprs = exprs_against(&x.group_exprs, &schema_in);
            let mut aggregate_exprs: Vec<AggregateExpression> = Vec::new();
            let mut i: usize = 0;
            while i < x.aggregate_exprs.len()
                invariant
                    i <= x.aggregate_exprs@.len(),
                    schema_in@ == logical_schema(*x.input),
                    aggregates_resolve(x.aggregate_exprs@, schema_in@),
                    aggregate_exprs@.len() == i,
                    forall|j: int|
                        0 <= j < i ==> (#[trigger] aggregate_exprs@[j]) == (AggregateExpression {
                            func: x.aggregate_exprs@[j].func,
                            expr: physical_expr_of(x.aggregate_exprs@[j].expr, schema_in@),
                        }),
                decreases x.aggregate_exprs@.len() - i,
            {
                let a = &x.aggregate_exprs[i];
                aggregate_exprs.push(AggregateExpression { func: a.func, expr: expr_against(&a.expr, &schema_in) });
                i = i + 1;
            }
            assert(aggregate_exprs@ =~= physical_aggregates_of(
                x.aggregate_exprs@,
                logical_schema(*x.input),
            ));
            PhysicalPlan::HashAggregate(HashAggregateExec::new(input, x.schema.copy(), group_exprs, aggregate_exprs))
        },
    }
}

/// The physical plan for a logical plan if there is one: `None`
/// exactly when the plan is not as its constructors build it or a filter
/// names a column its input does not have.
pub fn try_create_physical_plan(plan: &LogicalPlan) -> (p: Option<PhysicalPlan>)
    ensures
        match p {
            Some(p) => plannable(*plan) && planned(*plan, p),
            None => !plannable(*plan),
        },
{
    if is_plannable(plan) {
        Some(create_physical_plan(plan))
    } else {
        None
    }
}

/// Copies of strings.
fn copy_strings(names: &Vec<String>) -> (c: Vec<String>)
    ensures
        strings_view(c@) == strings_view(names@),
{
    let mut c: Vec<String> = Vec::new();
    let mut i: usize = 0;
    while i < names.len()
        invariant
            i <= names@.len(),
            c@.len() == i,
            forall|j: int| 0 <= j < i ==> (#[trigger] c@[j])@ == names@[j]@,
        decreases names@.len() - i,
    {
        c.push(names[i].clone());
        i = i + 1;
    }
    assert(strings_view(c@) =~= strings_view(names@));
    c
}

/// The physical plan for a logical plan yields the logical plan's schema.
pub proof fn law_planned_schema(l: LogicalPlan, p: PhysicalPlan)
    requires
        planned(l, p),
    ensures
        plan_schema(p) == logical_schema(l),
    decreases l,
{
    match l {
        LogicalPlan::Selection(y) => match p {
            PhysicalPlan::Selection(x) => law_planned_schema(*y.input, *x.input),
            _ => {},
        },
        _ => {},
    }
}

/// Any two physical plans for one logical plan yield the same batches, and
/// one runs exactly when the other does: what a query returns depends on
/// the logical plan alone.
pub proof fn law_planned_output(l: LogicalPlan, p: PhysicalPlan, q: PhysicalPlan)
    requires
        planned(l, p),
        planned(l, q),
    ensures
        plan_output(p) == plan_output(q),
        plan_ok(p) == plan_ok(q),
        plan_schema(p) == plan_schema(q),
    decreases l,
{
    law_planned_schema(l, p);
    law_planned_schema(l, q);
    match l {
        LogicalPlan::Scan(s) => {},
        LogicalPlan::Projection(y) => match (p, q) {
            (PhysicalPlan::Projection(x), PhysicalPlan::Projection(z)) => {
                law_planned_output(*y.input, *x.input, *z.input);
            },
            _ => {},
        },
        LogicalPlan::Selection(y) => match (p, q) {
            (PhysicalPlan::Selection(x), PhysicalPlan::Selection(z)) => {
                law_planned_output(*y.input, *x.input, *z.input);
            },
            _ => {},
        },
        LogicalPlan::Aggregate(y) => match (p, q) {
            (PhysicalPlan::HashAggregate(x), PhysicalPlan::HashAggregate(z)) => {
                law_planned_output(*y.input, *x.input, *z.input);
            },
            _ => {},
        },
    }
}

/// Each column of the batch has the type its schema declares for it.
pub open spec fn typed_as(b: BatchView, schema: Seq<FieldView>) -> bool {
    &&& b.columns.len() == schema.len()
    &&& forall|c: int| 0 <= c < schema.len() ==> (#[trigger] b.columns[c]).data_type == schema[c].data_type
}

/// What a logical expression says it produces is what its physical
/// expression evaluates to: against a batch typed as the input schema, the
/// evaluated column has the type of the expression's field.
pub proof fn law_field_type_matches(e: LogicalExpr, schema: Seq<FieldView>, b: BatchView)
    requires
        resolves(e, schema),
        typed_as(b, schema),
        schema.len() <= usize::MAX,
    ensures
        eval_column(physical_expr_of(e, schema), b).data_type == expr_field(e, schema).data_type,
    decreases e,
{
    match e {
        LogicalExpr::Column(name) => {
            lemma_has_name_first(schema, name@);
            let i = name_index(schema, name@);
            assert((i as usize) as int == i);
            assert(b.columns[i].data_type == schema[i].data_type);
        },
        LogicalExpr::Literal { .. } => {},
        LogicalExpr::BinaryExpr { left, op, right } => {
            law_field_type_matches(*left, schema, b);
            law_field_type_matches(*right, schema, b);
        },
    }
}

} // verus!
