use query_plan::error::PlanError;
use query_plan::ir::{ColumnRef, InsertIr, SelectFromTable, SelectStmt, TableRef};
use query_plan::plan::{build_insert_plan, build_select_plan, InsertPlan, StaticRow};
use query_plan::storage::{ColumnInfo, Schema, Table};
use query_plan::values::LiteralValue;

fn table_with_columns(name: &str, columns: &[&str]) -> Table {
    let mut cols: Vec<ColumnInfo> = Vec::new();
    for c in columns {
        cols.push(ColumnInfo { name: (*c).to_string() });
    }
    Table::new(name.to_string(), cols)
}

fn select_from(name: &str) -> SelectStmt {
    SelectStmt { from: vec![SelectFromTable::NamedTable(name.to_string())] }
}

fn scan_all(schema: &mut Schema, name: &str) -> Vec<Vec<LiteralValue>> {
    let mut result_set = build_select_plan(&select_from(name), schema).unwrap();
    let mut rows: Vec<Vec<LiteralValue>> = Vec::new();
    loop {
        match result_set.get_next_row(schema).unwrap() {
            Some(row) => rows.push(row),
            None => break,
        }
    }
    rows
}

#[test]
fn scan_yields_all_rows_in_order_then_ends() {
    let mut schema = Schema::new();
    let idx = schema.add_table(table_with_columns("t", &["a"]));
    for v in [10i64, 20, 30] {
        schema.insert_row_at(idx, vec![LiteralValue::Integer(v)]).unwrap();
    }
    let mut result_set = build_select_plan(&select_from("t"), &mut schema).unwrap();
    assert_eq!(
        result_set.get_next_row(&mut schema).unwrap(),
        Some(vec![LiteralValue::Integer(10)])
    );
    assert_eq!(
        result_set.get_next_row(&mut schema).unwrap(),
        Some(vec![LiteralValue::Integer(20)])
    );
    assert_eq!(
        result_set.get_next_row(&mut schema).unwrap(),
        Some(vec![LiteralValue::Integer(30)])
    );
    // End of the sequence, and the terminal state is idempotent.
    assert_eq!(result_set.get_next_row(&mut schema).unwrap(), None);
    assert_eq!(result_set.get_next_row(&mut schema).unwrap(), None);
}

#[test]
fn insert_normalization_fills_absent_columns_with_null() {
    let mut schema = Schema::new();
    let idx = schema.add_table(table_with_columns("t", &["a", "b", "c"]));
    let ir = InsertIr {
        table: TableRef { table_index: idx },
        columns: vec![ColumnRef { column_index: 1 }],
        values: vec![LiteralValue::Integer(7)],
    };
    let plan = build_insert_plan(&ir, &schema).unwrap();
    assert_eq!(plan.table_index, idx);
    assert_eq!(
        plan.source.row,
        Some(vec![LiteralValue::Null, LiteralValue::Integer(7), LiteralValue::Null])
    );
}

#[test]
fn last_write_wins_on_duplicate_columns() {
    let mut schema = Schema::new();
    let idx = schema.add_table(table_with_columns("t", &["a", "b"]));
    let ir = InsertIr {
        table: TableRef { table_index: idx },
        columns: vec![ColumnRef { column_index: 0 }, ColumnRef { column_index: 0 }],
        values: vec![LiteralValue::Integer(1), LiteralValue::Integer(2)],
    };
    let plan = build_insert_plan(&ir, &schema).unwrap();
    assert_eq!(
        plan.source.row,
        Some(vec![LiteralValue::Integer(2), LiteralValue::Null])
    );
}

#[test]
fn insert_then_scan_round_trip() {
    let mut schema = Schema::new();
    let idx = schema.add_table(table_with_columns("t", &["a", "b"]));
    schema
        .insert_row_at(idx, vec![LiteralValue::Integer(1), LiteralValue::Integer(2)])
        .unwrap();
    let ir = InsertIr {
        table: TableRef { table_index: idx },
        columns: vec![ColumnRef { column_index: 0 }, ColumnRef { column_index: 1 }],
        values: vec![LiteralValue::Integer(3), LiteralValue::Text("x".to_string())],
    };
    let mut plan = build_insert_plan(&ir, &schema).unwrap();
    assert_eq!(plan.run(&mut schema), Ok(1));
    let rows = scan_all(&mut schema, "t");
    let inserted = vec![LiteralValue::Integer(3), LiteralValue::Text("x".to_string())];
    assert!(rows.contains(&inserted));
    assert_eq!(rows.len(), 2);
}

#[test]
fn unknown_table_fails_select_build() {
    let mut schema = Schema::new();
    schema.add_table(table_with_columns("t", &["a"]));
    let r = build_select_plan(&select_from("nope"), &mut schema);
    assert_eq!(r.unwrap_err(), PlanError::TableNotFound("nope".to_string()));
}

#[test]
fn unknown_table_fails_insert_build() {
    let schema = Schema::new();
    let ir = InsertIr {
        table: TableRef { table_index: 3 },
        columns: vec![],
        values: vec![],
    };
    let r = build_insert_plan(&ir, &schema);
    assert_eq!(r.unwrap_err(), PlanError::TableMissing);
}

#[test]
fn dropped_table_fails_next_pull_cleanly() {
    let mut schema = Schema::new();
    let idx = schema.add_table(table_with_columns("t", &["a"]));
    schema.insert_row_at(idx, vec![LiteralValue::Integer(1)]).unwrap();
    let mut result_set = build_select_plan(&select_from("t"), &mut schema).unwrap();
    schema.drop_table(idx);
    let r = result_set.get_next_row(&mut schema);
    assert_eq!(r.unwrap_err(), PlanError::TableMissing);
}

#[test]
fn dropped_table_fails_run_cleanly() {
    let mut schema = Schema::new();
    let idx = schema.add_table(table_with_columns("t", &["a"]));
    let ir = InsertIr {
        table: TableRef { table_index: idx },
        columns: vec![ColumnRef { column_index: 0 }],
        values: vec![LiteralValue::Integer(1)],
    };
    let mut plan = build_insert_plan(&ir, &schema).unwrap();
    schema.drop_table(idx);
    assert_eq!(plan.run(&mut schema), Err(PlanError::TableMissing));
}

#[test]
fn users_scenario_insert_id_then_scan() {
    let mut schema = Schema::new();
    let idx = schema.add_table(table_with_columns("users", &["id", "name"]));
    let ir = InsertIr {
        table: TableRef { table_index: idx },
        columns: vec![ColumnRef { column_index: 0 }],
        values: vec![LiteralValue::Integer(1)],
    };
    let mut plan = build_insert_plan(&ir, &schema).unwrap();
    assert_eq!(plan.run(&mut schema), Ok(1));
    let rows = scan_all(&mut schema, "users");
    assert_eq!(rows, vec![vec![LiteralValue::Integer(1), LiteralValue::Null]]);
}

#[test]
fn run_of_empty_source_inserts_nothing() {
    let mut schema = Schema::new();
    let idx = schema.add_table(table_with_columns("t", &["a"]));
    let mut plan = InsertPlan { table_index: idx, source: StaticRow { row: None } };
    assert_eq!(plan.run(&mut schema), Ok(0));
    assert_eq!(scan_all(&mut schema, "t").len(), 0);
}

#[test]
fn mismatched_row_width_is_refused() {
    let mut schema = Schema::new();
    let idx = schema.add_table(table_with_columns("t", &["a", "b"]));
    let r = schema.insert_row_at(idx, vec![LiteralValue::Integer(1)]);
    assert_eq!(r.unwrap_err(), PlanError::RowWidthMismatch);
    // The same fault through a plan whose row no longer fits the table.
    let mut plan = InsertPlan {
        table_index: idx,
        source: StaticRow { row: Some(vec![LiteralValue::Integer(1)]) },
    };
    assert_eq!(plan.run(&mut schema), Err(PlanError::RowWidthMismatch));
    assert_eq!(scan_all(&mut schema, "t").len(), 0);
}

#[test]
fn missing_row_id_is_reported() {
    let t = table_with_columns("t", &["a"]);
    assert_eq!(t.get_row(0), Err(PlanError::RowNotFound));
}

#[test]
fn non_table_from_clause_is_unsupported() {
    let mut schema = Schema::new();
    schema.add_table(table_with_columns("t", &["a"]));
    let empty = SelectStmt { from: vec![] };
    assert_eq!(
        build_select_plan(&empty, &mut schema).unwrap_err(),
        PlanError::UnsupportedConstruct
    );
    let sub = SelectStmt {
        from: vec![SelectFromTable::Subquery(Box::new(select_from("t")))],
    };
    assert_eq!(
        build_select_plan(&sub, &mut schema).unwrap_err(),
        PlanError::UnsupportedConstruct
    );
}

#[test]
fn duplicate_table_names_resolve_to_first_slot() {
    let mut schema = Schema::new();
    let first = schema.add_table(table_with_columns("t", &["a"]));
    let second = schema.add_table(table_with_columns("t", &["a"]));
    schema.insert_row_at(first, vec![LiteralValue::Integer(1)]).unwrap();
    schema.insert_row_at(second, vec![LiteralValue::Integer(2)]).unwrap();
    let rows = scan_all(&mut schema, "t");
    assert_eq!(rows, vec![vec![LiteralValue::Integer(1)]]);
}

#[test]
fn build_select_plan_reads_but_does_not_change_storage() {
    let mut schema = Schema::new();
    let idx = schema.add_table(table_with_columns("t", &["a"]));
    schema.insert_row_at(idx, vec![LiteralValue::Integer(5)]).unwrap();
    let _ = build_select_plan(&select_from("t"), &mut schema).unwrap();
    let rows = scan_all(&mut schema, "t");
    assert_eq!(rows, vec![vec![LiteralValue::Integer(5)]]);
}

#[test]
fn scan_snapshot_ignores_rows_inserted_after_build() {
    let mut schema = Schema::new();
    let idx = schema.add_table(table_with_columns("t", &["a"]));
    schema.insert_row_at(idx, vec![LiteralValue::Integer(1)]).unwrap();
    let mut result_set = build_select_plan(&select_from("t"), &mut schema).unwrap();
    schema.insert_row_at(idx, vec![LiteralValue::Integer(2)]).unwrap();
    assert_eq!(
        result_set.get_next_row(&mut schema).unwrap(),
        Some(vec![LiteralValue::Integer(1)])
    );
    assert_eq!(result_set.get_next_row(&mut schema).unwrap(), None);
}
