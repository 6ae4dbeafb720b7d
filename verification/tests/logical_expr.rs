use photon::engine::datasource::{CsvDataSource, DataSource};
use photon::engine::datatypes::{DataType, ScalarValue};
use photon::engine::logical_expr::{avg, col, count, lit, lit_text, max, min, sum, AggregateFunc, Operator};
use photon::engine::logical_plan::{LogicalPlan, Scan};

/// testdata/employee.csv: a quoted field holding a comma, and an empty
/// field that reads as NULL.
const EMPLOYEE_CSV: &str = "id,first_name,last_name,state,job_title,salary\n\
1,Bill,Hopkins,CA,Manager,12000\n\
2,Gregg,Langford,CO,Driver,10000\n\
3,John,Travis,CO,\"Manager, Software\",11500\n\
4,Von,Mill,,Defensive End,11800\n";

fn employee_csv() -> CsvDataSource {
    CsvDataSource::new("testdata/employee.csv".to_string(), EMPLOYEE_CSV.as_bytes().to_vec(), None, 1024).unwrap()
}

fn employee_scan() -> LogicalPlan {
    LogicalPlan::Scan(Scan::new("employee", DataSource::Csv(employee_csv()), vec![]))
}

#[test]
fn column_resolves_name_and_type_from_input() {
    let field = col("salary").to_field(&employee_scan());
    assert_eq!(field.name(), "salary");
    assert_eq!(field.data_type(), DataType::Int64);
}

#[test]
fn literals_carry_their_own_type() {
    let scan = employee_scan();

    let int = lit(ScalarValue::Int32(4)).to_field(&scan);
    assert_eq!(int.name(), "4");
    assert_eq!(int.data_type(), DataType::Int32);

    let text = lit(ScalarValue::Utf8("CO".to_string())).to_field(&scan);
    assert_eq!(text.name(), "CO");
    assert_eq!(text.data_type(), DataType::Utf8);
}

#[test]
fn display_matches_book_notation() {
    assert_eq!(col("id").to_text(), "#id");
    assert_eq!(lit(ScalarValue::Int64(4)).to_text(), "4");
    assert_eq!(lit(ScalarValue::Utf8("CO".to_string())).to_text(), "'CO'");
}

#[test]
fn binary_expressions_name_their_columns_by_operator() {
    let scan = employee_scan();
    let mult = col("salary").multiply(lit(ScalarValue::Int64(2))).to_field(&scan);
    assert_eq!(mult.name(), "mult");
    assert_eq!(mult.data_type(), DataType::Int64);
    assert!(mult.is_nullable());

    let gt = col("salary").gt(lit(ScalarValue::Int64(2))).to_field(&scan);
    assert_eq!(gt.name(), "gt");
    assert_eq!(gt.data_type(), DataType::Boolean);

    let half = lit_text(ScalarValue::Float64(0.5f64.to_bits()), format!("{}", 0.5f64));
    let scaled = col("salary").multiply(half).to_field(&scan);
    assert_eq!(scaled.data_type(), DataType::Float64);

    let names: Vec<String> = vec![
        Operator::Eq,
        Operator::Neq,
        Operator::GtEq,
        Operator::Lt,
        Operator::LtEq,
        Operator::And,
        Operator::Or,
        Operator::Add,
        Operator::Subtract,
        Operator::Divide,
        Operator::Modulus,
    ]
    .iter()
    .map(|o| o.name())
    .collect();
    assert_eq!(names, ["eq", "neq", "gteq", "lt", "lteq", "and", "or", "add", "subtract", "div", "mod"]);
}

#[test]
fn binary_expressions_print_around_their_operator() {
    let e = col("a").gt_eq(lit(ScalarValue::Int64(1))).and(col("b").lt(lit(ScalarValue::Int64(3))));
    assert_eq!(e.to_text(), "#a >= 1 AND #b < 3");
    let e = col("a").add(col("b")).subtract(col("c")).divide(col("d")).modulus(col("e"));
    assert_eq!(e.to_text(), "#a + #b - #c / #d % #e");
    let e = col("a").neq(col("b")).or(col("c").lt_eq(col("d"))).eq(col("f"));
    assert_eq!(e.to_text(), "#a != #b OR #c <= #d = #f");
}

#[test]
fn aggregates_name_and_type_their_fields() {
    let scan = employee_scan();
    let fields: Vec<(String, DataType)> = vec![
        sum(col("salary")),
        min(col("state")),
        max(col("salary")),
        avg(col("salary")),
        count(col("state")),
    ]
    .iter()
    .map(|a| {
        let f = a.to_field(&scan);
        (f.name().clone(), f.data_type())
    })
    .collect();
    assert_eq!(
        fields,
        vec![
            ("SUM".to_string(), DataType::Int64),
            ("MIN".to_string(), DataType::Utf8),
            ("MAX".to_string(), DataType::Int64),
            ("AVG".to_string(), DataType::Float64),
            ("COUNT".to_string(), DataType::Int64),
        ]
    );
    assert_eq!(max(col("salary")).to_text(), "MAX(#salary)");
    assert_eq!(sum(col("x")).func, AggregateFunc::Sum);
}
