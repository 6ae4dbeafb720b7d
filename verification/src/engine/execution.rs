//! The execution context: turns data sources into DataFrames and runs
//! them, planning each DataFrame's logical tree into a physical one and
//! draining it.

use crate::engine::dataframe::DataFrame;
use crate::engine::datasource::{CsvDataSource, DataSource, ParquetDataSource};
use crate::engine::datatypes::{RecordBatch, batches_view};
use crate::engine::logical_plan::{LogicalPlan, Scan, logical_wf, plannable};
use crate::engine::physical_plan::{PhysicalPlan, plan_ok, plan_output};
use crate::engine::query_planner::{create_physical_plan, law_planned_output, planned, try_create_physical_plan};
use vstd::prelude::*;

verus! {

/// Rows per batch for file sources.
pub const DEFAULT_BATCH_SIZE: usize = 1024;

/// What users hold to build and run queries.
#[derive(Debug)]
pub struct ExecutionContext {}

impl Default for ExecutionContext {
    fn default() -> (ctx: ExecutionContext)
        ensures
            ctx == (ExecutionContext {}),
    {
        ExecutionContext::new()
    }
}

/// The batches `plan` yields when run: those of any physical plan for it
/// (they all agree).
pub open spec fn query_output(plan: LogicalPlan, out: Seq<crate::engine::datatypes::BatchView>) -> bool {
    forall|p: PhysicalPlan| #[trigger] planned(plan, p) ==> out == plan_output(p)
}

/// Every physical plan for `plan` runs without a panic.
pub open spec fn query_runs(plan: LogicalPlan) -> bool {
    forall|p: PhysicalPlan| #[trigger] planned(plan, p) ==> plan_ok(p)
}

impl ExecutionContext {
    /// The context holds no state: every context is the same.
    pub fn new() -> (ctx: ExecutionContext)
        ensures
            ctx == (ExecutionContext {}),
    {
        ExecutionContext {  }
    }

    /// A DataFrame scanning a CSV source, all columns.
    pub fn csv(&self, source: CsvDataSource) -> (df: DataFrame)
        ensures
            df.plan_view() matches LogicalPlan::Scan(s) && s.path@ == source.path_view() && s.data_source
                == DataSource::Csv(source) && s.projection@.len() == 0,
            logical_wf(df.plan_view()),
    {
        let path = source.path().clone();
        let scan = Scan::new(path.as_str(), DataSource::Csv(source), Vec::new());
        DataFrame::new(LogicalPlan::Scan(scan))
    }

    /// A DataFrame scanning a parquet source, all columns.
    pub fn parquet(&self, source: ParquetDataSource) -> (df: DataFrame)
        ensures
            df.plan_view() matches LogicalPlan::Scan(s) && s.path@ == source.path_view() && s.data_source
                == DataSource::Parquet(source) && s.projection@.len() == 0,
            logical_wf(df.plan_view()),
    {
        let path = source.path().clone();
        let scan = Scan::new(path.as_str(), DataSource::Parquet(source), Vec::new());
        DataFrame::new(LogicalPlan::Scan(scan))
    }

    /// Run the query if it can run: its batches, or `None` exactly when the
    /// plan cannot be planned (a filter names a column its input lacks) or
    /// running it would panic.
    pub fn try_collect(&self, df: &DataFrame) -> (out: Option<Vec<RecordBatch>>)
        ensures
            match out {
                Some(out) => {
                    &&& plannable(df.plan_view())
                    &&& query_runs(df.plan_view())
                    &&& query_output(df.plan_view(), batches_view(out@))
                    &&& forall|b: int| 0 <= b < out@.len() ==> (#[trigger] out@[b]).wf()
                },
                None => !(plannable(df.plan_view()) && query_runs(df.plan_view())),
            },
    {
        let physical = match try_create_physical_plan(df.logical_plan()) {
            Some(p) => p,
            None => return None,
        };
        match physical.try_execute() {
            Some(out) => {
                proof {
                    assert forall|p: PhysicalPlan| #[trigger] planned(df.plan_view(), p) implies plan_ok(p)
                        && batches_view(out@) == plan_output(p) by {
                        law_planned_output(df.plan_view(), physical, p);
                    }
                }
                Some(out)
            },
            None => {
                assert(planned(df.plan_view(), physical));
                None
            },
        }
    }

    /// Run the query: logical plan, physical plan, every batch. The plan's
    /// filters must name columns of their input, and its physical plan must
    /// run.
    pub fn collect(&self, df: &DataFrame) -> (out: Vec<RecordBatch>)
        requires
            plannable(df.plan_view()),
            query_runs(df.plan_view()),
        ensures
            query_output(df.plan_view(), batches_view(out@)),
            forall|b: int| 0 <= b < out@.len() ==> (#[trigger] out@[b]).wf(),
    {
        let physical = create_physical_plan(df.logical_plan());
        assert(plan_ok(physical));
        let out = physical.execute();
        proof {
            assert forall|p: PhysicalPlan| #[trigger] planned(df.plan_view(), p) implies batches_view(out@)
                == plan_output(p) by {
                law_planned_output(df.plan_view(), physical, p);
            }
        }
        out
    }
}

} // verus!
