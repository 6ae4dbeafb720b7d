//! Logical plans: trees describing what a query computes (which data,
//! which columns, which filters) with no opinion on how. Every frontend
//! produces this same tree.

use crate::engine::datasource::{DataSource, all_named, names_in, scan_schema, scan_schema_of, strings_view};
use crate::engine::datatypes::{Field, FieldView, Schema};
use crate::engine::logical_expr::{
    AggregateExpr, LogicalExpr, aggregate_expr_text, aggregate_field, expr_field, logical_text, resolves,
};
use crate::engine::physical_plan::{names_list, names_list_text};
use crate::engine::text::{join, joined, push_char, push_text};
use vstd::prelude::*;

verus! {

/// Leaf: read the `projection` columns (all if empty) from a data source
/// known as `path`.
#[derive(Debug)]
pub struct Scan {
    pub path: String,
    pub data_source: DataSource,
    pub projection: Vec<String>,
    pub schema: Schema,
}

/// Compute new columns from the input: one field per expression.
#[derive(Debug)]
pub struct Projection {
    pub input: Box<LogicalPlan>,
    pub exprs: Vec<LogicalExpr>,
    pub schema: Schema,
}

/// Keep only the rows where `expr` is true; the schema passes through.
#[derive(Debug)]
pub struct Selection {
    pub input: Box<LogicalPlan>,
    pub expr: LogicalExpr,
}

/// Group rows by `group_exprs` and fold each group through the
/// aggregates: group fields, then aggregate fields.
#[derive(Debug)]
pub struct Aggregate {
    pub input: Box<LogicalPlan>,
    pub group_exprs: Vec<LogicalExpr>,
    pub aggregate_exprs: Vec<AggregateExpr>,
    pub schema: Schema,
}

/// A node of a logical plan.
#[derive(Debug)]
pub enum LogicalPlan {
    Scan(Scan),
    Projection(Projection),
    Selection(Selection),
    Aggregate(Aggregate),
}

/// The schema of the rows a plan produces.
pub open spec fn logical_schema(p: LogicalPlan) -> Seq<FieldView>
    decreases p,
{
    match p {
        LogicalPlan::Scan(s) => s.schema@,
        LogicalPlan::Projection(x) => x.schema@,
        LogicalPlan::Selection(x) => logical_schema(*x.input),
        LogicalPlan::Aggregate(x) => x.schema@,
    }
}

/// The fields of a list of expressions against `schema`.
pub open spec fn expr_fields(exprs: Seq<LogicalExpr>, schema: Seq<FieldView>) -> Seq<FieldView> {
    Seq::new(exprs.len(), |i: int| expr_field(exprs[i], schema))
}

/// The fields of a list of aggregates against `schema`.
pub open spec fn aggregate_fields(aggs: Seq<AggregateExpr>, schema: Seq<FieldView>) -> Seq<FieldView> {
    Seq::new(aggs.len(), |i: int| aggregate_field(aggs[i], schema))
}

/// Every expression resolves against `schema`.
pub open spec fn all_resolve(exprs: Seq<LogicalExpr>, schema: Seq<FieldView>) -> bool {
    forall|i: int| 0 <= i < exprs.len() ==> resolves(#[trigger] exprs[i], schema)
}

/// Every aggregate's input resolves against `schema`.
pub open spec fn aggregates_resolve(aggs: Seq<AggregateExpr>, schema: Seq<FieldView>) -> bool {
    forall|i: int| 0 <= i < aggs.len() ==> resolves((#[trigger] aggs[i]).expr, schema)
}

/// A plan as its constructors build it: a scan's names are in its source
/// and its schema is the projected one; projections and aggregations
/// resolve their expressions against their input and carry the schema
/// derived from them.
pub open spec fn logical_wf(p: LogicalPlan) -> bool
    decreases p,
{
    match p {
        LogicalPlan::Scan(s) => {
            &&& all_named(s.data_source.schema_view(), strings_view(s.projection@))
            &&& s.schema@ == scan_schema(s.data_source.schema_view(), strings_view(s.projection@))
        },
        LogicalPlan::Projection(x) => {
            &&& logical_wf(*x.input)
            &&& all_resolve(x.exprs@, logical_schema(*x.input))
            &&& x.schema@ == expr_fields(x.exprs@, logical_schema(*x.input))
        },
        LogicalPlan::Selection(x) => logical_wf(*x.input),
        LogicalPlan::Aggregate(x) => {
            &&& logical_wf(*x.input)
            &&& all_resolve(x.group_exprs@, logical_schema(*x.input))
            &&& aggregates_resolve(x.aggregate_exprs@, logical_schema(*x.input))
            &&& x.schema@ == expr_fields(x.group_exprs@, logical_schema(*x.input)) + aggregate_fields(
                x.aggregate_exprs@,
                logical_schema(*x.input),
            )
        },
    }
}

/// A well-formed plan whose every filter names only columns of its input:
/// such a plan can be turned into a physical one.
pub open spec fn plannable(p: LogicalPlan) -> bool
    decreases p,
{
    &&& logical_wf(p)
    &&& match p {
        LogicalPlan::Scan(_) => true,
        LogicalPlan::Projection(x) => plannable(*x.input),
        LogicalPlan::Selection(x) => plannable(*x.input) && resolves(x.expr, logical_schema(*x.input)),
        LogicalPlan::Aggregate(x) => plannable(*x.input),
    }
}

/// Each expression's text.
pub open spec fn logical_texts(exprs: Seq<LogicalExpr>) -> Seq<Seq<char>> {
    Seq::new(exprs.len(), |i: int| logical_text(exprs[i]))
}

/// Each aggregate's text.
pub open spec fn aggregate_expr_texts(aggs: Seq<AggregateExpr>) -> Seq<Seq<char>> {
    Seq::new(aggs.len(), |i: int| aggregate_expr_text(aggs[i]))
}

/// How a plan node prints itself on one line.
pub open spec fn logical_plan_text(p: LogicalPlan) -> Seq<char> {
    match p {
        LogicalPlan::Scan(s) => if s.projection@.len() == 0 {
            "Scan: "@ + s.path@ + "; projection=None"@
        } else {
            "Scan: "@ + s.path@ + "; projection="@ + names_list(strings_view(s.projection@))
        },
        LogicalPlan::Projection(x) => "Projection: "@ + joined(logical_texts(x.exprs@), ", "@),
        LogicalPlan::Selection(x) => "Selection: "@ + logical_text(x.expr),
        LogicalPlan::Aggregate(x) => "Aggregate: groupExpr=["@ + joined(logical_texts(x.group_exprs@), ", "@)
            + "], aggregateExpr=["@ + joined(aggregate_expr_texts(x.aggregate_exprs@), ", "@) + "]"@,
    }
}

/// The nodes a plan node consumes.
pub open spec fn logical_children(p: LogicalPlan) -> Seq<LogicalPlan> {
    match p {
        LogicalPlan::Scan(_) => Seq::empty(),
        LogicalPlan::Projection(x) => seq![*x.input],
        LogicalPlan::Selection(x) => seq![*x.input],
        LogicalPlan::Aggregate(x) => seq![*x.input],
    }
}

/// `n` tab characters.
pub open spec fn tabs(n: nat) -> Seq<char> {
    Seq::new(n, |i: int| '\t')
}

/// The plan as an indented tree: each node on its own line, children one
/// tab deeper than their parent.
pub open spec fn plan_tree(p: LogicalPlan, indent: nat) -> Seq<char>
    decreases p,
{
    let line = tabs(indent) + logical_plan_text(p) + seq!['\n'];
    match p {
        LogicalPlan::Scan(_) => line,
        LogicalPlan::Projection(x) => line + plan_tree(*x.input, indent + 1),
        LogicalPlan::Selection(x) => line + plan_tree(*x.input, indent + 1),
        LogicalPlan::Aggregate(x) => line + plan_tree(*x.input, indent + 1),
    }
}

/// The fields of `exprs` against rows of `schema`; every column they name
/// must be there.
fn fields_of(exprs: &Vec<LogicalExpr>, schema: &Schema) -> (s: Schema)
    requires
        all_resolve(exprs@, schema@),
    ensures
        s@ == expr_fields(exprs@, schema@),
{
    let mut fields: Vec<Field> = Vec::new();
    let mut i: usize = 0;
    while i < exprs.len()
        invariant
            i <= exprs@.len(),
            all_resolve(exprs@, schema@),
            fields@.len() == i,
            forall|j: int| 0 <= j < i ==> (#[trigger] fields@[j])@ == expr_field(exprs@[j], schema@),
        decreases exprs@.len() - i,
    {
        fields.push(exprs[i].field_in(schema));
        i = i + 1;
    }
    let s = Schema::new(fields);
    assert(s@ =~= expr_fields(exprs@, schema@));
    s
}

/// The fields of an aggregation against rows of `schema`: group fields,
/// then aggregate fields.
fn aggregate_schema_of(group_exprs: &Vec<LogicalExpr>, aggregate_exprs: &Vec<AggregateExpr>, schema: &Schema) -> (s: Schema)
    requires
        all_resolve(group_exprs@, schema@),
        aggregates_resolve(aggregate_exprs@, schema@),
    ensures
        s@ == expr_fields(group_exprs@, schema@) + aggregate_fields(aggregate_exprs@, schema@),
{
    let mut fields: Vec<Field> = Vec::new();
    let mut i: usize = 0;
    while i < group_exprs.len()
        invariant
            i <= group_exprs@.len(),
            all_resolve(group_exprs@, schema@),
            fields@.len() == i,
            forall|j: int| 0 <= j < i ==> (#[trigger] fields@[j])@ == expr_field(group_exprs@[j], schema@),
        decreases group_exprs@.len() - i,
    {
        fields.push(group_exprs[i].field_in(schema));
        i = i + 1;
    }
    let mut k: usize = 0;
    while k < aggregate_exprs.len()
        invariant
            k <= aggregate_exprs@.len(),
            aggregates_resolve(aggregate_exprs@, schema@),
            fields@.len() == group_exprs@.len() + k,
            forall|j: int| 0 <= j < group_exprs@.len() ==> (#[trigger] fields@[j])@ == expr_field(group_exprs@[j], schema@),
            forall|j: int|
                0 <= j < k ==> (#[trigger] fields@[group_exprs@.len() + j])@ == aggregate_field(aggregate_exprs@[j], schema@),
        decreases aggregate_exprs@.len() - k,
    {
        fields.push(aggregate_exprs[k].field_in(schema));
        k = k + 1;
    }
    let s = Schema::new(fields);
    assert(s@ =~= expr_fields(group_exprs@, schema@) + aggregate_fields(aggregate_exprs@, schema@)) by {
        let want = expr_fields(group_exprs@, schema@) + aggregate_fields(aggregate_exprs@, schema@);
        assert forall|j: int| 0 <= j < want.len() implies s@[j] == want[j] by {
            if j >= group_exprs@.len() {
                let m = j - group_exprs@.len();
                assert(fields@[group_exprs@.len() + m]@ == aggregate_field(aggregate_exprs@[m], schema@));
            }
        }
    }
    s
}

/// Whether every expression names only columns of `schema`.
fn all_resolve_in(exprs: &Vec<LogicalExpr>, schema: &Schema) -> (ok: bool)
    ensures
        ok == all_resolve(exprs@, schema@),
{
    let mut i: usize = 0;
    while i < exprs.len()
        invariant
            i <= exprs@.len(),
            forall|j: int| 0 <= j < i ==> resolves(#[trigger] exprs@[j], schema@),
        decreases exprs@.len() - i,
    {
        if !exprs[i].resolves_in(schema) {
            return false;
        }
        i = i + 1;
    }
    true
}

/// Whether every aggregate's input names only columns of `schema`.
fn aggregates_resolve_in(aggs: &Vec<AggregateExpr>, schema: &Schema) -> (ok: bool)
    ensures
        ok == aggregates_resolve(aggs@, schema@),
{
    let mut i: usize = 0;
    while i < aggs.len()
        invariant
            i <= aggs@.len(),
            forall|j: int| 0 <= j < i ==> resolves((#[trigger] aggs@[j]).expr, schema@),
        decreases aggs@.len() - i,
    {
        if !aggs[i].expr.resolves_in(schema) {
            return false;
        }
        i = i + 1;
    }
    true
}

/// Whether `plan` can be turned into a physical plan: it is as its
/// constructors build it, and every filter names only columns of its input.
pub fn is_plannable(plan: &LogicalPlan) -> (ok: bool)
    ensures
        ok == plannable(*plan),
    decreases plan,
{
    match plan {
        LogicalPlan::Scan(s) => {
            let full = s.data_source.schema();
            if !names_in(&full, &s.projection) {
                return false;
            }
            scan_schema_of(&full, &s.projection).same(&s.schema)
        },
        LogicalPlan::Projection(x) => {
            if !is_plannable(&x.input) {
                return false;
            }
            let schema_in = x.input.schema();
            if !all_resolve_in(&x.exprs, &schema_in) {
                return false;
            }
            fields_of(&x.exprs, &schema_in).same(&x.schema)
        },
        LogicalPlan::Selection(x) => {
            if !is_plannable(&x.input) {
                return false;
            }
            let schema_in = x.input.schema();
            x.expr.resolves_in(&schema_in)
        },
        LogicalPlan::Aggregate(x) => {
            if !is_plannable(&x.input) {
                return false;
            }
            let schema_in = x.input.schema();
            if !all_resolve_in(&x.group_exprs, &schema_in) || !aggregates_resolve_in(&x.aggregate_exprs, &schema_in) {
                return false;
            }
            aggregate_schema_of(&x.group_exprs, &x.aggregate_exprs, &schema_in).same(&x.schema)
        },
    }
}

impl Scan {
    /// A scan of `projection` (all columns if empty) from `data_source`;
    /// every projected name must be in the source's schema.
    pub fn new(path: &str, data_source: DataSource, projection: Vec<String>) -> (s: Scan)
        requires
            all_named(data_source.schema_view(), strings_view(projection@)),
        ensures
            s.path@ == path@,
            s.data_source == data_source,
            s.projection == projection,
            s.schema@ == scan_schema(data_source.schema_view(), strings_view(projection@)),
            logical_wf(LogicalPlan::Scan(s)),
    {
        let full = data_source.schema();
        let schema = scan_schema_of(&full, &projection);
        Scan { path: String::from_str(path), data_source, projection, schema }
    }
}

impl Projection {
    /// A projection of `input` through `exprs`; every column they name must
    /// be in the input's schema.
    pub fn new(input: LogicalPlan, exprs: Vec<LogicalExpr>) -> (p: Projection)
        requires
            all_resolve(exprs@, logical_schema(input)),
        ensures
            *p.input == input,
            p.exprs == exprs,
            p.schema@ == expr_fields(exprs@, logical_schema(input)),
            logical_wf(input) ==> logical_wf(LogicalPlan::Projection(p)),
    {
        let schema_in = input.schema();
        let schema = fields_of(&exprs, &schema_in);
        Projection { input: Box::new(input), exprs, schema }
    }
}

impl Selection {
    /// The rows of `input` for which `expr` is true.
    pub fn new(input: LogicalPlan, expr: LogicalExpr) -> (s: Selection)
        ensures
            *s.input == input,
            s.expr == expr,
            logical_wf(input) ==> logical_wf(LogicalPlan::Selection(s)),
    {
        Selection { input: Box::new(input), expr }
    }
}

impl Aggregate {
    /// `input` grouped by `group_exprs` and folded through
    /// `aggregate_exprs`; every column they name must be in the input's
    /// schema.
    pub fn new(input: LogicalPlan, group_exprs: Vec<LogicalExpr>, aggregate_exprs: Vec<AggregateExpr>) -> (a: Aggregate)
        requires
            all_resolve(group_exprs@, logical_schema(input)),
            aggregates_resolve(aggregate_exprs@, logical_schema(input)),
        ensures
            *a.input == input,
            a.group_exprs == group_exprs,
            a.aggregate_exprs == aggregate_exprs,
            a.schema@ == expr_fields(group_exprs@, logical_schema(input)) + aggregate_fields(
                aggregate_exprs@,
                logical_schema(input),
            ),
            logical_wf(input) ==> logical_wf(LogicalPlan::Aggregate(a)),
    {
        let schema_in = input.schema();
        let schema = aggregate_schema_of(&group_exprs, &aggregate_exprs, &schema_in);
        Aggregate { input: Box::new(input), group_exprs, aggregate_exprs, schema }
    }
}

/// The texts of a list of expressions, comma-separated.
fn join_logical(exprs: &Vec<LogicalExpr>) -> (t: String)
    ensures
        t@ == joined(logical_texts(exprs@), ", "@),
{
    let mut texts: Vec<String> = Vec::new();
    let mut i: usize = 0;
    while i < exprs.len()
        invariant
            i <= exprs@.len(),
            texts@.len() == i,
            forall|j: int| 0 <= j < i ==> (#[trigger] texts@[j])@ == logical_text(exprs@[j]),
        decreases exprs@.len() - i,
    {
        texts.push(exprs[i].to_text());
        i = i + 1;
    }
    let t = join(&texts, ", ");
    assert(Seq::new(texts@.len(), |j: int| texts@[j]@) =~= logical_texts(exprs@));
    t
}

/// The texts of a list of aggregates, comma-separated.
fn join_aggregate_exprs(aggs: &Vec<AggregateExpr>) -> (t: String)
    ensures
        t@ == joined(aggregate_expr_texts(aggs@), ", "@),
{
    let mut texts: Vec<String> = Vec::new();
    let mut i: usize = 0;
    while i < aggs.len()
        invariant
            i <= aggs@.len(),
            texts@.len() == i,
            forall|j: int| 0 <= j < i ==> (#[trigger] texts@[j])@ == aggregate_expr_text(aggs@[j]),
        decreases aggs@.len() - i,
    {
        texts.push(aggs[i].to_text());
        i = i + 1;
    }
    let t = join(&texts, ", ");
    assert(Seq::new(texts@.len(), |j: int| texts@[j]@) =~= aggregate_expr_texts(aggs@));
    t
}

impl LogicalPlan {
    /// The schema of the rows this plan produces.
    pub fn schema(&self) -> (s: Schema)
        ensures
            s@ == logical_schema(*self),
        decreases self,
    {
        match self {
            LogicalPlan::Scan(x) => x.schema.copy(),
            LogicalPlan::Projection(x) => x.schema.copy(),
            LogicalPlan::Selection(x) => x.input.schema(),
            LogicalPlan::Aggregate(x) => x.schema.copy(),
        }
    }

    /// The nodes this one consumes; none for a scan.
    pub fn children(&self) -> (c: Vec<&LogicalPlan>)
        ensures
            c@.len() == logical_children(*self).len(),
            forall|i: int| 0 <= i < c@.len() ==> *c@[i] == logical_children(*self)[i],
    {
        let mut c: Vec<&LogicalPlan> = Vec::new();
        match self {
            LogicalPlan::Scan(_) => {},
            LogicalPlan::Projection(x) => c.push(&*x.input),
            LogicalPlan::Selection(x) => c.push(&*x.input),
            LogicalPlan::Aggregate(x) => c.push(&*x.input),
        }
        c
    }

    /// How this node prints itself on one line.
    pub fn to_text(&self) -> (t: String)
        ensures
            t@ == logical_plan_text(*self),
    {
        match self {
            LogicalPlan::Scan(s) => {
                let mut t = String::from_str("Scan: ");
                push_text(&mut t, &s.path);
                if s.projection.len() == 0 {
                    t.append("; projection=None");
                } else {
                    t.append("; projection=");
                    let names = names_list_text(&s.projection);
                    push_text(&mut t, &names);
                }
                t
            },
            LogicalPlan::Projection(x) => {
                let mut t = String::from_str("Projection: ");
                let e = join_logical(&x.exprs);
                push_text(&mut t, &e);
                t
            },
            LogicalPlan::Selection(x) => {
                let mut t = String::from_str("Selection: ");
                let e = x.expr.to_text();
                push_text(&mut t, &e);
                t
            },
            LogicalPlan::Aggregate(x) => {
                let mut t = String::from_str("Aggregate: groupExpr=[");
                let g = join_logical(&x.group_exprs);
                push_text(&mut t, &g);
                t.append("], aggregateExpr=[");
                let a = join_aggregate_exprs(&x.aggregate_exprs);
                push_text(&mut t, &a);
                t.append("]");
                t
            },
        }
    }
}

/// Append the tree of `plan`, `indent` tabs deep, to `out`.
fn walk(plan: &LogicalPlan, indent: usize, out: &mut String)
    requires
        indent < usize::MAX - plan_depth(*plan),
    ensures
        final(out)@ == old(out)@ + plan_tree(*plan, indent as nat),
    decreases plan,
{
    let ghost start = out@;
    let mut i: usize = 0;
    while i < indent
        invariant
            i <= indent,
            out@ == start + tabs(i as nat),
        decreases indent - i,
    {
        push_char(out, '\t');
        assert(tabs((i + 1) as nat) =~= tabs(i as nat).push('\t'));
        i = i + 1;
    }
    let line = plan.to_text();
    push_text(out, &line);
    push_char(out, '\n');
    assert(out@ =~= start + (tabs(indent as nat) + logical_plan_text(*plan) + seq!['\n']));
    match plan {
        LogicalPlan::Scan(_) => {},
        LogicalPlan::Projection(x) => walk(&x.input, indent + 1, out),
        LogicalPlan::Selection(x) => walk(&x.input, indent + 1, out),
        LogicalPlan::Aggregate(x) => walk(&x.input, indent + 1, out),
    }
    assert(out@ =~= start + plan_tree(*plan, indent as nat));
}

/// How many nodes lie below the root on the way to the scan.
pub open spec fn plan_depth(p: LogicalPlan) -> nat
    decreases p,
{
    match p {
        LogicalPlan::Scan(_) => 0,
        LogicalPlan::Projection(x) => plan_depth(*x.input) + 1,
        LogicalPlan::Selection(x) => plan_depth(*x.input) + 1,
        LogicalPlan::Aggregate(x) => plan_depth(*x.input) + 1,
    }
}

/// Render a plan as an indented tree, one node per line, children one tab
/// deeper than their parent.
pub fn format_plan(plan: &LogicalPlan) -> (s: String)
    requires
        plan_depth(*plan) < usize::MAX,
    ensures
        s@ == plan_tree(*plan, 0),
{
    let mut out = String::new();
    walk(plan, 0, &mut out);
    out
}

} // verus!
