use poneglyphdb::catalog::{Catalog, ColumnData, TableData};
use poneglyphdb::compiler::SQLCompiler;
use poneglyphdb::database::{commitment_terms, DatabaseTable};
use poneglyphdb::parser::SQLParser;
use poneglyphdb::range_check::check_less_than;
use poneglyphdb::sort::sort_witness;
use poneglyphdb::sql::{AggregationFunction, JoinClause, JoinCondition, JoinType, OrderDirection, WhereClause};
use poneglyphdb::{CompileError, CompileErrorKind};

fn table(name: &str, columns: &[(&str, Vec<u64>)]) -> TableData {
    TableData {
        name: name.to_string(),
        columns: columns
            .iter()
            .map(|(n, v)| ColumnData { name: n.to_string(), values: v.clone() })
            .collect(),
    }
}

fn customers() -> Catalog {
    Catalog { tables: vec![table("customer", &[("id", vec![1, 2, 3]), ("age", vec![30, 55, 40])])] }
}

fn orders() -> Catalog {
    Catalog {
        tables: vec![table(
            "order",
            &[("id", vec![10, 11, 12]), ("amount", vec![300, 100, 200]), ("customer_id", vec![1, 1, 2])],
        )],
    }
}

#[test]
fn select_customers_under_fifty() {
    let q = SQLParser::parse("SELECT id FROM customer WHERE age < 50").unwrap();
    assert_eq!(q.columns, vec!["id".to_string()]);
    assert_eq!(q.from, "customer");
    let compiled = SQLCompiler::compile(&q, &customers()).unwrap();
    assert_eq!(compiled.range_checks.len(), 3);
    let checks: Vec<u64> = compiled
        .range_checks
        .iter()
        .map(|op| check_less_than(op.value, op.threshold, op.u).check)
        .collect();
    assert_eq!(checks, vec![1, 0, 1]);
    assert_eq!(checks.iter().filter(|c| **c == 1).count(), 2);
    assert_eq!(compiled.range_checks[0].u, 20);
    assert_eq!(compiled.range_checks[1].u, 0);
}

#[test]
fn order_amounts_ascending() {
    let q = SQLParser::parse("SELECT id, amount FROM order ORDER BY amount ASC").unwrap();
    assert_eq!(q.columns, vec!["id".to_string(), "amount".to_string()]);
    assert_eq!(q.from, "order");
    let compiled = SQLCompiler::compile(&q, &orders()).unwrap();
    assert_eq!(compiled.sorts.len(), 1);
    let op = &compiled.sorts[0];
    assert_eq!(op.input, vec![300, 100, 200]);
    assert_eq!(op.sorted_output, vec![100, 200, 300]);
    let w = sort_witness(&op.input, &op.sorted_output).unwrap();
    assert_eq!(w.diffs, vec![100, 100]);
}

#[test]
fn descending_order_reverses() {
    let q = SQLParser::parse("select id from order order by amount desc").unwrap();
    let order = q.order_by.as_ref().unwrap();
    assert_eq!(order[0].column, "amount");
    assert_eq!(order[0].direction, OrderDirection::Desc);
    let compiled = SQLCompiler::compile(&q, &orders()).unwrap();
    assert_eq!(compiled.sorts[0].sorted_output, vec![300, 200, 100]);
}

#[test]
fn group_by_sum_compiles() {
    let q = SQLParser::parse("SELECT customer_id, SUM(amount) FROM order GROUP BY customer_id").unwrap();
    assert_eq!(q.group_by, Some(vec!["customer_id".to_string()]));
    let aggs = q.aggregations.as_ref().unwrap();
    assert_eq!(aggs.len(), 1);
    assert_eq!(aggs[0].function, AggregationFunction::Sum);
    assert_eq!(aggs[0].column, "amount");
    let compiled = SQLCompiler::compile(&q, &orders()).unwrap();
    assert_eq!(compiled.group_bys[0].group_keys, vec![1, 2]);
    assert_eq!(compiled.aggregations[0].group_keys, vec![1, 1, 2]);
    assert_eq!(compiled.aggregations[0].values, vec![100, 300, 200]);
    assert_eq!(compiled.aggregations[0].agg_type, "sum");
}

#[test]
fn max_aggregate_compiles() {
    let q = SQLParser::parse("SELECT customer_id, MAX(amount) FROM order GROUP BY customer_id").unwrap();
    let compiled = SQLCompiler::compile(&q, &orders()).unwrap();
    assert_eq!(compiled.aggregations[0].agg_type, "max");
}

#[test]
fn where_parses_comparisons_and_connectives() {
    match SQLParser::parse_where_clause("a < 5 and b > 6").unwrap() {
        WhereClause::And(l, r) => {
            assert!(matches!(*l, WhereClause::LessThan { ref column, value: 5 } if column == "a"));
            assert!(matches!(*r, WhereClause::GreaterThan { ref column, value: 6 } if column == "b"));
        }
        other => panic!("unexpected {:?}", other),
    }
    match SQLParser::parse_where_clause("  x = 7 or y < 8 ").unwrap() {
        WhereClause::Or(l, r) => {
            assert!(matches!(*l, WhereClause::Equal { ref column, value: 7 } if column == "x"));
            assert!(matches!(*r, WhereClause::LessThan { ref column, value: 8 } if column == "y"));
        }
        other => panic!("unexpected {:?}", other),
    }
}

#[test]
fn where_errors() {
    assert!(matches!(SQLParser::parse_where_clause("a < five"), Err(CompileError::Grammar(_))));
    assert!(matches!(SQLParser::parse_where_clause("a <= 5"), Err(CompileError::Grammar(_))));
    assert!(matches!(SQLParser::parse_where_clause("a < 18446744073709551616"), Err(CompileError::Grammar(_))));
    assert!(matches!(
        SQLParser::parse_where_clause("a < 18446744073709551615"),
        Ok(WhereClause::LessThan { value: 18446744073709551615, .. })
    ));
    assert!(matches!(SQLParser::parse_where_clause("a < +5"), Ok(WhereClause::LessThan { value: 5, .. })));
}

#[test]
fn parse_errors() {
    assert!(matches!(SQLParser::parse("DELETE FROM t"), Err(CompileError::Grammar(_))));
    assert!(matches!(SQLParser::parse("SELECT a"), Err(CompileError::Grammar(_))));
    assert!(matches!(SQLParser::parse("SELECT a FROM t WHERE a ? 3"), Err(CompileError::Grammar(_))));
}

#[test]
fn parse_lowercases_and_trims() {
    let q = SQLParser::parse("  SELECT ID, Name FROM Customer  ").unwrap();
    assert_eq!(q.columns, vec!["id".to_string(), "name".to_string()]);
    assert_eq!(q.from, "customer");
    assert!(q.where_clause.is_none());
    assert!(q.group_by.is_none());
    assert!(q.order_by.is_none());
    assert!(q.aggregations.is_none());
}

#[test]
fn parse_order_by_keys() {
    let keys = SQLParser::parse_order_by("a desc, b asc, c").unwrap();
    assert_eq!(keys.len(), 3);
    assert_eq!((keys[0].column.as_str(), keys[0].direction), ("a", OrderDirection::Desc));
    assert_eq!((keys[1].column.as_str(), keys[1].direction), ("b", OrderDirection::Asc));
    assert_eq!((keys[2].column.as_str(), keys[2].direction), ("c", OrderDirection::Asc));
}

#[test]
fn parse_aggregation_entries() {
    let a = SQLParser::parse_aggregation("count( id )").unwrap();
    assert_eq!(a.function, AggregationFunction::Count);
    assert_eq!(a.column, "id");
    assert_eq!(SQLParser::parse_aggregation("min(x)").unwrap().function, AggregationFunction::Min);
    assert!(SQLParser::parse_aggregation("sum(x").is_none());
    assert!(SQLParser::parse_aggregation("avg(x)").is_none());
}

#[test]
fn compile_resolution_errors() {
    let q = SQLParser::parse("SELECT id FROM customer WHERE height < 5").unwrap();
    let e = SQLCompiler::compile(&q, &customers()).unwrap_err();
    assert_eq!(e.kind(), CompileErrorKind::Resolution);
    let q = SQLParser::parse("SELECT id FROM nowhere ORDER BY id").unwrap();
    assert!(matches!(SQLCompiler::compile(&q, &customers()), Err(CompileError::Resolution(_))));
}

#[test]
fn compile_rejects_literal_without_successor() {
    let q = SQLParser::parse("SELECT id FROM customer WHERE age > 18446744073709551615").unwrap();
    let e = SQLCompiler::compile(&q, &customers()).unwrap_err();
    assert_eq!(e.kind(), CompileErrorKind::Grammar);
}

#[test]
fn compile_greater_and_equal() {
    let q = SQLParser::parse("SELECT id FROM customer WHERE age > 39 and id = 2").unwrap();
    let compiled = SQLCompiler::compile(&q, &customers()).unwrap();
    assert_eq!(compiled.range_checks.len(), 9);
    assert_eq!(compiled.range_checks[0].threshold, 40);
    assert_eq!(compiled.range_checks[0].u, 0);
    assert_eq!(compiled.range_checks[1].u, 15);
    let at_least: Vec<(u64, u64)> = compiled.range_checks[3..6].iter().map(|op| (op.threshold, op.u)).collect();
    assert_eq!(at_least, vec![(2, 0), (2, 0), (2, 1)]);
    let below: Vec<(u64, u64)> = compiled.range_checks[6..9].iter().map(|op| (op.threshold, op.u)).collect();
    assert_eq!(below, vec![(3, 2), (3, 1), (3, 0)]);
}

#[test]
fn table_insert_and_commit_pairs() {
    let mut t = DatabaseTable::new("t".to_string(), vec!["k".to_string(), "v".to_string()]);
    t.insert(vec![1, 2]);
    t.insert(vec![3]);
    t.insert(vec![4, 5]);
    assert_eq!(t.data, vec![vec![1, 2], vec![4, 5]]);
    assert_eq!(t.commit_pairs(), vec![(1, 2), (4, 5)]);
}

#[test]
fn commitment_terms_weigh_keys() {
    assert_eq!(commitment_terms(&[(1, 2), (0, 7)]), vec![1_000_002, 7]);
    assert_eq!(commitment_terms(&[(u64::MAX, 1)]), vec![(u64::MAX as u128) * 1_000_000 + 1]);
}

#[test]
fn catalog_lookup_takes_first_match() {
    let c = Catalog {
        tables: vec![
            table("t", &[("a", vec![1]), ("a", vec![2])]),
            table("t", &[("a", vec![3])]),
        ],
    };
    assert_eq!(c.column(&"t".to_string(), &"a".to_string()), Some(&vec![1]));
    assert_eq!(c.column(&"t".to_string(), &"b".to_string()), None);
    assert_eq!(c.find_table(&"u".to_string()), None);
}

#[test]
fn join_clause_compiles_with_first_columns_as_values() {
    let mut q = SQLParser::parse("SELECT id FROM customer").unwrap();
    q.joins = Some(vec![JoinClause {
        table: "order".to_string(),
        on: JoinCondition { left_column: "id".to_string(), right_column: "customer_id".to_string() },
        join_type: JoinType::Inner,
    }]);
    let mut c = customers();
    c.tables.extend(orders().tables);
    let compiled = SQLCompiler::compile(&q, &c).unwrap();
    assert_eq!(compiled.joins.len(), 1);
    assert_eq!(compiled.joins[0].table1_keys, vec![1, 2, 3]);
    assert_eq!(compiled.joins[0].table2_keys, vec![1, 1, 2]);
    assert_eq!(compiled.joins[0].table1_values, vec![1, 2, 3]);
    assert_eq!(compiled.joins[0].table2_values, vec![10, 11, 12]);
    q.joins.as_mut().unwrap()[0].table = "missing".to_string();
    assert_eq!(SQLCompiler::compile(&q, &c).unwrap_err().kind(), CompileErrorKind::Resolution);
}

#[test]
fn normalized_statements_are_not_lowercased_again() {
    assert!(matches!(SQLParser::parse_normalized("SELECT a FROM t"), Err(CompileError::Grammar(_))));
    let q = SQLParser::parse_normalized("select a from t where a = 1").unwrap();
    assert!(matches!(q.where_clause, Some(WhereClause::Equal { value: 1, .. })));
}

#[test]
fn descending_output_is_not_a_sorted_form() {
    let q = SQLParser::parse("select id from order order by amount desc").unwrap();
    let compiled = SQLCompiler::compile(&q, &orders()).unwrap();
    let op = &compiled.sorts[0];
    assert_eq!(sort_witness(&op.input, &op.sorted_output).err(), Some(poneglyphdb::SynthesisError::NotSorted));
}

#[test]
fn aggregation_rows_are_sorted_by_key() {
    let c = Catalog { tables: vec![table("t", &[("k", vec![2, 1, 2, 1]), ("v", vec![5, 6, 7, 8])])] };
    let q = SQLParser::parse("SELECT k, SUM(v) FROM t GROUP BY k").unwrap();
    let compiled = SQLCompiler::compile(&q, &c).unwrap();
    assert_eq!(compiled.aggregations[0].group_keys, vec![1, 1, 2, 2]);
    assert_eq!(compiled.aggregations[0].values, vec![6, 8, 5, 7]);
    let q = SQLParser::parse("SELECT SUM(v) FROM t").unwrap();
    let compiled = SQLCompiler::compile(&q, &c).unwrap();
    assert!(compiled.aggregations[0].group_keys.is_empty());
    assert_eq!(compiled.aggregations[0].values, vec![5, 6, 7, 8]);
}

#[test]
fn unknown_table_or_selected_column_is_a_resolution_error() {
    let q = SQLParser::parse("SELECT id FROM nowhere").unwrap();
    assert!(matches!(SQLCompiler::compile(&q, &customers()), Err(CompileError::Resolution(_))));
    let q = SQLParser::parse("SELECT height FROM customer").unwrap();
    assert!(matches!(SQLCompiler::compile(&q, &customers()), Err(CompileError::Resolution(_))));
    let q = SQLParser::parse("SELECT id, age FROM customer").unwrap();
    assert!(SQLCompiler::compile(&q, &customers()).is_ok());
}

#[test]
fn where_is_followed_by_other_clauses() {
    let q = SQLParser::parse("SELECT id FROM customer WHERE age < 50 ORDER BY id ASC").unwrap();
    assert!(matches!(q.where_clause, Some(WhereClause::LessThan { ref column, value: 50 }) if column == "age"));
    let order = q.order_by.as_ref().unwrap();
    assert_eq!((order[0].column.as_str(), order[0].direction), ("id", OrderDirection::Asc));
    let q = SQLParser::parse("SELECT customer_id, SUM(amount) FROM order WHERE amount > 1 GROUP BY customer_id").unwrap();
    assert!(matches!(q.where_clause, Some(WhereClause::GreaterThan { value: 1, .. })));
    assert_eq!(q.group_by, Some(vec!["customer_id".to_string()]));
    let q = SQLParser::parse("SELECT a FROM t WHERE a = 3 HAVING sum(a) > 1").unwrap();
    assert!(matches!(q.where_clause, Some(WhereClause::Equal { value: 3, .. })));
}

#[test]
fn error_messages() {
    let grammar = |r: Result<poneglyphdb::SQLQuery, CompileError>| match r {
        Err(CompileError::Grammar(m)) => m,
        other => panic!("unexpected {:?}", other),
    };
    assert_eq!(grammar(SQLParser::parse("DELETE FROM t")), "Only SELECT queries are supported");
    assert_eq!(grammar(SQLParser::parse("SELECT a")), "Missing FROM clause");
    assert_eq!(grammar(SQLParser::parse("SELECT a FROM t WHERE a < x")), "Invalid number in WHERE clause");
    assert_eq!(grammar(SQLParser::parse("SELECT a FROM t WHERE a >= 5")), "Unsupported WHERE clause format");
    assert!(matches!(SQLParser::parse_where_clause("a < x"), Err(CompileError::Grammar(m)) if m == "Invalid number in WHERE clause"));
    assert!(matches!(SQLParser::parse_where_clause("a >= 5"), Err(CompileError::Grammar(m)) if m == "Unsupported WHERE clause format"));
}

#[test]
fn catalog_well_formedness() {
    assert!(customers().is_well_formed());
    let dup_tables = Catalog { tables: vec![table("t", &[("a", vec![1])]), table("t", &[("b", vec![2])])] };
    assert!(!dup_tables.is_well_formed());
    let dup_columns = Catalog { tables: vec![table("t", &[("a", vec![1]), ("a", vec![2])])] };
    assert!(!dup_columns.is_well_formed());
    let ragged = Catalog { tables: vec![table("t", &[("a", vec![1, 2]), ("b", vec![2])])] };
    assert!(!ragged.is_well_formed());
}
