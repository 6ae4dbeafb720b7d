//! A columnar query engine: type system, data sources, logical plans,
//! physical plans, and the planner between them.

pub mod csv;
pub mod dataframe;
pub mod datasource;
pub mod datatypes;
pub mod execution;
pub mod float;
pub mod logical_expr;
pub mod logical_plan;
pub mod physical_expr;
pub mod physical_plan;
pub mod query_planner;
pub mod text;
