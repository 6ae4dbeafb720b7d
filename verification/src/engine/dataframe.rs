//! DataFrames: a handle to an unexecuted logical plan, with methods that
//! wrap it in one more node each. Building moves no data; running it is
//! the execution context's job.

use crate::engine::datatypes::Schema;
use crate::engine::logical_expr::{AggregateExpr, LogicalExpr};
use crate::engine::logical_plan::{
    Aggregate, LogicalPlan, Projection, Selection, aggregate_fields, aggregates_resolve, all_resolve, expr_fields,
    logical_schema, logical_wf,
};
use vstd::prelude::*;

verus! {

/// A query under construction.
#[derive(Debug)]
pub struct DataFrame {
    plan: LogicalPlan,
}

impl DataFrame {
    /// The plan built so far.
    pub closed spec fn plan_view(&self) -> LogicalPlan {
        self.plan
    }

    pub fn new(plan: LogicalPlan) -> (df: DataFrame)
        ensures
            df.plan_view() == plan,
    {
        DataFrame { plan }
    }

    /// The select list: one output column per expression; every column the
    /// expressions name must be in the current schema.
    pub fn project(self, exprs: Vec<LogicalExpr>) -> (df: DataFrame)
        requires
            all_resolve(exprs@, logical_schema(self.plan_view())),
        ensures
            df.plan_view() matches LogicalPlan::Projection(p) && *p.input == self.plan_view() && p.exprs == exprs
                && p.schema@ == expr_fields(exprs@, logical_schema(self.plan_view())),
            logical_wf(self.plan_view()) ==> logical_wf(df.plan_view()),
    {
        DataFrame::new(LogicalPlan::Projection(Projection::new(self.plan, exprs)))
    }

    /// Keep the rows for which `expr` is true.
    pub fn filter(self, expr: LogicalExpr) -> (df: DataFrame)
        ensures
            df.plan_view() matches LogicalPlan::Selection(s) && *s.input == self.plan_view() && s.expr == expr,
            logical_wf(self.plan_view()) ==> logical_wf(df.plan_view()),
    {
        DataFrame::new(LogicalPlan::Selection(Selection::new(self.plan, expr)))
    }

    /// Group by `group_exprs`, folding each group through
    /// `aggregate_exprs`; every column they name must be in the current
    /// schema.
    pub fn aggregate(self, group_exprs: Vec<LogicalExpr>, aggregate_exprs: Vec<AggregateExpr>) -> (df: DataFrame)
        requires
            all_resolve(group_exprs@, logical_schema(self.plan_view())),
            aggregates_resolve(aggregate_exprs@, logical_schema(self.plan_view())),
        ensures
            df.plan_view() matches LogicalPlan::Aggregate(a) && *a.input == self.plan_view() && a.group_exprs
                == group_exprs && a.aggregate_exprs == aggregate_exprs && a.schema@ == expr_fields(
                group_exprs@,
                logical_schema(self.plan_view()),
            ) + aggregate_fields(aggregate_exprs@, logical_schema(self.plan_view())),
            logical_wf(self.plan_view()) ==> logical_wf(df.plan_view()),
    {
        DataFrame::new(LogicalPlan::Aggregate(Aggregate::new(self.plan, group_exprs, aggregate_exprs)))
    }

    /// The schema the plan built so far would produce.
    pub fn schema(&self) -> (s: Schema)
        ensures
            s@ == logical_schema(self.plan_view()),
    {
        self.plan.schema()
    }

    /// The plan built so far.
    pub fn logical_plan(&self) -> (p: &LogicalPlan)
        ensures
            *p == self.plan_view(),
    {
        &self.plan
    }
}

} // verus!
