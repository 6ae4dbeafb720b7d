use photon::engine::datasource::{CsvDataSource, DataSource};
use photon::engine::datatypes::{DataType, ScalarValue};
use photon::engine::logical_expr::{col, lit, max};
use photon::engine::logical_plan::{format_plan, Aggregate, LogicalPlan, Projection, Scan, Selection};

/// testdata/employee.csv: a quoted field holding a comma, and an empty
/// field that reads as NULL.
const EMPLOYEE_CSV: &str = "id,first_name,last_name,state,job_title,salary\n\
1,Bill,Hopkins,CA,Manager,12000\n\
2,Gregg,Langford,CO,Driver,10000\n\
3,John,Travis,CO,\"Manager, Software\",11500\n\
4,Von,Mill,,Defensive End,11800\n";

fn employee_csv() -> CsvDataSource {
    CsvDataSource::new("testdata/employee.csv".to_string(), EMPLOYEE_CSV.as_bytes().to_vec(), None, 1024).unwrap()
}

fn employee_source() -> DataSource {
    DataSource::Csv(employee_csv())
}

fn employee_scan() -> LogicalPlan {
    LogicalPlan::Scan(Scan::new("employee", employee_source(), vec![]))
}

#[test]
fn scan_without_projection_exposes_source_schema() {
    let scan = employee_scan();

    assert_eq!(scan.schema().fields().len(), 6);
    assert!(scan.children().is_empty());
    assert_eq!(scan.to_text(), "Scan: employee; projection=None");
}

#[test]
fn scan_with_projection_narrows_schema() {
    let scan = LogicalPlan::Scan(Scan::new(
        "employee",
        employee_source(),
        vec!["salary".to_string(), "state".to_string()],
    ));

    let schema = scan.schema();
    assert_eq!(schema.fields().len(), 2);
    assert_eq!(schema.field(0).name(), "salary");
    assert_eq!(schema.field(0).data_type(), DataType::Int64);
    assert_eq!(scan.to_text(), r#"Scan: employee; projection=["salary", "state"]"#);
}

#[test]
fn scan_works_as_a_trait_object() {
    let plan: LogicalPlan = employee_scan();
    assert_eq!(plan.schema().field(0).name(), "id");
}

#[test]
fn projection_derives_schema_from_exprs() {
    let proj = LogicalPlan::Projection(Projection::new(
        employee_scan(),
        vec![col("id"), col("salary").multiply(lit(ScalarValue::Int64(2)))],
    ));

    let schema = proj.schema();
    assert_eq!(schema.field(0).name(), "id");
    assert_eq!(schema.field(1).name(), "mult");
    assert_eq!(schema.field(1).data_type(), DataType::Int64);
    assert_eq!(proj.to_text(), "Projection: #id, #salary * 2");
}

#[test]
fn selection_passes_schema_through_unchanged() {
    let sel = LogicalPlan::Selection(Selection::new(
        employee_scan(),
        col("state").eq(lit(ScalarValue::Utf8("CO".to_string()))),
    ));

    assert_eq!(sel.schema().fields().len(), 6);
    assert_eq!(sel.to_text(), "Selection: #state = 'CO'");
}

#[test]
fn aggregate_schema_is_groups_then_aggregates() {
    let agg = LogicalPlan::Aggregate(Aggregate::new(employee_scan(), vec![col("state")], vec![max(col("salary"))]));

    let schema = agg.schema();
    assert_eq!(schema.field(0).name(), "state");
    assert_eq!(schema.field(1).name(), "MAX");
    assert_eq!(schema.field(1).data_type(), DataType::Int64);
    assert_eq!(agg.to_text(), "Aggregate: groupExpr=[#state], aggregateExpr=[MAX(#salary)]");
}

#[test]
fn format_plan_prints_the_book_tree() {
    let filtered = LogicalPlan::Selection(Selection::new(
        employee_scan(),
        col("state").eq(lit(ScalarValue::Utf8("CO".to_string()))),
    ));
    let plan = LogicalPlan::Projection(Projection::new(filtered, vec![col("id"), col("first_name")]));

    assert_eq!(
        format_plan(&plan),
        "Projection: #id, #first_name\n\
         \tSelection: #state = 'CO'\n\
         \t\tScan: employee; projection=None\n"
    );
}

#[test]
fn projection_names_are_written_as_debug_strings() {
    let scan = LogicalPlan::Scan(Scan::new("e", employee_source(), vec!["id".to_string()]));
    assert_eq!(scan.to_text(), r#"Scan: e; projection=["id"]"#);
    let children = LogicalPlan::Selection(Selection::new(scan, col("id").gt(lit(ScalarValue::Int64(0)))));
    assert_eq!(children.children().len(), 1);
    assert_eq!(format_plan(&children), "Selection: #id > 0\n\tScan: e; projection=[\"id\"]\n");
}
