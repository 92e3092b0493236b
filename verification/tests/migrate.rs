use cryptomeria_historic::migrate::{
    AppliedMigration, CLEAR_SCHEMA_VERSION_SQL, CellValue, Migration, MigrationStep,
    decode_applied_batch, decode_applied_row, drop_target_sql, failure_message, migrations,
    plan_migrations, record_version_sql, sql_hash, step_sql, update_version_sql,
};
use std::collections::hash_map::DefaultHasher;
use std::hash::{Hash, Hasher};

#[test]
fn migrations_includes_all_files_from_disk() {
    assert_eq!(migrations().len(), 4);
}

#[test]
fn migrations_versions_are_sorted_and_sequential() {
    let versions: Vec<i32> = migrations().iter().map(|m| m.version).collect();
    assert_eq!(versions, vec![1, 2, 3, 4]);
}

#[test]
fn migrations_names_match_filenames() {
    let names: Vec<&str> = migrations().iter().map(|m| m.name).collect();
    assert_eq!(
        names,
        vec![
            "create_trades",
            "create_lob_levels",
            "create_lob_snapshots",
            "create_view_lob",
        ]
    );
}

#[test]
fn migrations_table_names_extracted_from_sql() {
    let table_names: Vec<&str> = migrations().iter().map(|m| m.table_name).collect();
    assert_eq!(
        table_names,
        vec!["trades", "lob_levels", "lob_snapshots", "lob"]
    );
}

#[test]
fn migrations_is_view_flags() {
    let is_views: Vec<bool> = migrations().iter().map(|m| m.is_view).collect();
    assert_eq!(is_views, vec![false, false, false, true]);
}

#[test]
fn migrations_sql_is_non_empty() {
    for m in migrations() {
        assert!(
            !m.sql.is_empty(),
            "V{}__{} has empty SQL",
            m.version,
            m.name
        );
    }
}

#[test]
fn migration_struct_holds_version_name_table_sql() {
    let m = Migration {
        version: 1,
        name: "test_migration",
        table_name: "test_table",
        is_view: false,
        sql: "SELECT 1",
    };
    assert_eq!(m.version, 1);
    assert_eq!(m.name, "test_migration");
    assert_eq!(m.table_name, "test_table");
}

#[test]
fn sql_hash_is_deterministic_and_stable() {
    let h1 = sql_hash("SELECT 1");
    let h2 = sql_hash("SELECT 1");
    assert_eq!(h1, h2);
    assert_eq!(h1.len(), 16);
}

#[test]
fn sql_hash_differs_for_different_sql() {
    assert_ne!(sql_hash("SELECT 1"), sql_hash("SELECT 2"));
    assert_ne!(
        sql_hash("CREATE TABLE foo (a INT)"),
        sql_hash("CREATE TABLE foo (a LONG)")
    );
}

fn std_str_hash(s: &str) -> String {
    let mut hasher = DefaultHasher::new();
    s.hash(&mut hasher);
    format!("{:x}", hasher.finish())
}

#[test]
fn sql_hash_equals_str_hash_of_default_hasher() {
    for s in ["SELECT 1", "", "ä€", "CREATE TABLE foo (a INT)", "'"] {
        assert_eq!(sql_hash(s), std_str_hash(s));
    }
    for m in migrations() {
        assert_eq!(sql_hash(m.sql), std_str_hash(m.sql));
    }
}

fn table(version: i32) -> Migration {
    Migration { version, name: "create_t", table_name: "t", is_view: false, sql: "CREATE TABLE t (a INT)" }
}

#[test]
fn drop_target_sql_distinguishes_views() {
    let ms = migrations();
    assert_eq!(drop_target_sql(&ms[0]), "DROP TABLE IF EXISTS trades");
    assert_eq!(drop_target_sql(&ms[3]), "DROP VIEW IF EXISTS lob");
}

#[test]
fn record_and_update_sql_escape_the_name() {
    let m = Migration { version: 7, name: "it's", table_name: "t", is_view: false, sql: "SELECT 1" };
    let h = sql_hash("SELECT 1");
    assert_eq!(
        record_version_sql(&m, "2026-01-01T00:00:00.000Z"),
        format!(
            "INSERT INTO schema_version (version, name, sql_hash, applied_on) VALUES (7, 'it''s', '{h}', '2026-01-01T00:00:00.000Z')"
        )
    );
    assert_eq!(
        update_version_sql(&m, "ts"),
        format!("UPDATE schema_version SET name = 'it''s', sql_hash = '{h}', applied_on = 'ts' WHERE version = 7")
    );
    let neg = Migration { version: -12, ..m };
    assert!(update_version_sql(&neg, "ts").ends_with("WHERE version = -12"));
}

#[test]
fn decode_applied_row_reads_cells() {
    let row = decode_applied_row(
        &CellValue::Int(3),
        &CellValue::Text(Some("create_x".to_string())),
        &CellValue::Text(Some("abc".to_string())),
    );
    assert_eq!(row.version, 3);
    assert_eq!(row.name, "create_x");
    assert_eq!(row.sql_hash, Some("abc".to_string()));
    let odd = decode_applied_row(&CellValue::Other, &CellValue::Text(None), &CellValue::Other);
    assert_eq!(odd.version, 0);
    assert_eq!(odd.name, "");
    assert_eq!(odd.sql_hash, None);
}

fn applied(m: &Migration, name: &str, hash: Option<String>) -> AppliedMigration {
    AppliedMigration { version: m.version, name: name.to_string(), sql_hash: hash }
}

fn kinds(steps: &[MigrationStep]) -> Vec<String> {
    steps.iter().map(|s| format!("{s:?}")).collect()
}

#[test]
fn plan_applies_and_records_new_migrations() {
    let ms = vec![table(1), table(2)];
    let steps = plan_migrations(&ms, &vec![], false);
    assert_eq!(
        kinds(&steps),
        vec![
            "InfoApplying(0)", "Apply(0)", "Record(0)", "InfoApplied(0)",
            "InfoApplying(1)", "Apply(1)", "Record(1)", "InfoApplied(1)",
        ]
    );
}

#[test]
fn plan_skips_unchanged_and_recreates_changed() {
    let ms = vec![table(1), table(2), table(3)];
    let rows = vec![
        applied(&ms[0], "create_t", Some(sql_hash(ms[0].sql))),
        applied(&ms[1], "create_t", Some("0".to_string())),
        applied(&ms[2], "old_name", Some(sql_hash(ms[2].sql))),
    ];
    let steps = plan_migrations(&ms, &rows, false);
    assert_eq!(
        kinds(&steps),
        vec![
            "WarnSqlChanged(1)", "DropTarget(1)", "Apply(1)", "Update(1)", "InfoRecreated(1)",
            "WarnNameDivergence { migration: 2, recorded_name: \"old_name\" }",
        ]
    );
}

#[test]
fn plan_treats_missing_hash_as_changed_and_uses_last_row() {
    let ms = vec![table(1)];
    let rows = vec![
        applied(&ms[0], "create_t", Some(sql_hash(ms[0].sql))),
        applied(&ms[0], "create_t", None),
    ];
    let steps = plan_migrations(&ms, &rows, false);
    assert_eq!(kinds(&steps)[0], "WarnSqlChanged(0)");
}

#[test]
fn plan_drop_first_drops_in_reverse_then_reapplies() {
    let ms = migrations();
    let rows: Vec<AppliedMigration> = ms
        .iter()
        .map(|m| applied(m, m.name, Some(sql_hash(m.sql))))
        .collect();
    let steps = plan_migrations(&ms, &rows, true);
    let k = kinds(&steps);
    assert_eq!(
        &k[..5],
        &["DropTarget(3)", "DropTarget(2)", "DropTarget(1)", "DropTarget(0)", "ClearVersions"]
    );
    assert_eq!(k.len(), 5 + 4 * 4);
    assert_eq!(k[6], "Apply(0)");
    assert_eq!(k[7], "Record(0)");
}

#[test]
fn rerun_after_success_changes_nothing() {
    let ms = migrations();
    let rows: Vec<AppliedMigration> = ms
        .iter()
        .map(|m| applied(m, m.name, Some(sql_hash(m.sql))))
        .collect();
    assert!(plan_migrations(&ms, &rows, false).is_empty());
}

#[test]
fn decode_applied_batch_reads_every_row() {
    let versions = vec![CellValue::Int(1), CellValue::Int(2), CellValue::Other];
    let names = vec![
        CellValue::Text(Some("create_trades".to_string())),
        CellValue::Text(Some("create_lob_levels".to_string())),
        CellValue::Text(None),
    ];
    let hashes = vec![
        CellValue::Text(Some("h1".to_string())),
        CellValue::Text(None),
        CellValue::Int(7),
    ];
    let rows = decode_applied_batch(&versions, &names, &hashes);
    assert_eq!(rows.len(), 3);
    assert_eq!((rows[0].version, rows[0].name.as_str(), rows[0].sql_hash.clone()), (1, "create_trades", Some("h1".to_string())));
    assert_eq!((rows[1].version, rows[1].name.as_str(), rows[1].sql_hash.clone()), (2, "create_lob_levels", None));
    assert_eq!((rows[2].version, rows[2].name.as_str(), rows[2].sql_hash.clone()), (0, "", None));
    assert!(decode_applied_batch(&vec![], &vec![], &vec![]).is_empty());
}

#[test]
fn rerun_over_every_listed_row_plans_nothing() {
    // Rows listed in two batches of one query decode to one list; a run
    // over that list plans no statement.
    let ms = migrations();
    let hash = |i: usize| CellValue::Text(Some(sql_hash(ms[i].sql)));
    let name = |i: usize| CellValue::Text(Some(ms[i].name.to_string()));
    let mut applied = decode_applied_batch(&vec![CellValue::Int(1)], &vec![name(0)], &vec![hash(0)]);
    applied.extend(decode_applied_batch(
        &vec![CellValue::Int(2), CellValue::Int(3), CellValue::Int(4)],
        &vec![name(1), name(2), name(3)],
        &vec![hash(1), hash(2), hash(3)],
    ));
    assert!(plan_migrations(&ms, &applied, false).is_empty());
}

#[test]
fn step_sql_gives_the_statement_of_each_step() {
    let ms = migrations();
    assert_eq!(step_sql(&ms, &MigrationStep::DropTarget(3), "t"), Some("DROP VIEW IF EXISTS lob".to_string()));
    assert_eq!(step_sql(&ms, &MigrationStep::DropTarget(0), "t"), Some("DROP TABLE IF EXISTS trades".to_string()));
    assert_eq!(step_sql(&ms, &MigrationStep::ClearVersions, "t"), Some(CLEAR_SCHEMA_VERSION_SQL.to_string()));
    assert_eq!(step_sql(&ms, &MigrationStep::Apply(1), "t"), Some(ms[1].sql.to_string()));
    assert_eq!(step_sql(&ms, &MigrationStep::Record(2), "t"), Some(record_version_sql(&ms[2], "t")));
    assert_eq!(step_sql(&ms, &MigrationStep::Update(2), "t"), Some(update_version_sql(&ms[2], "t")));
    assert_eq!(step_sql(&ms, &MigrationStep::InfoApplying(0), "t"), None);
    assert_eq!(step_sql(&ms, &MigrationStep::WarnSqlChanged(0), "t"), None);
    let divergence = MigrationStep::WarnNameDivergence { migration: 1, recorded_name: "x".to_string() };
    assert_eq!(step_sql(&ms, &divergence, "t"), None);
    assert_eq!(divergence.migration(), Some(1));
    assert_eq!(MigrationStep::ClearVersions.migration(), None);
}

#[test]
fn failure_message_names_the_failed_step() {
    let ms = migrations();
    assert_eq!(
        failure_message(&ms, &MigrationStep::DropTarget(0), "boom"),
        "Failed to drop table for V1__create_trades: boom"
    );
    assert_eq!(
        failure_message(&ms, &MigrationStep::ClearVersions, "boom"),
        "Failed to clear schema_version: boom"
    );
    assert_eq!(
        failure_message(&ms, &MigrationStep::Apply(1), "execute error: x"),
        "Migration V2__create_lob_levels failed: execute error: x"
    );
    assert_eq!(
        failure_message(&ms, &MigrationStep::Record(2), "e"),
        "Failed to record V3__create_lob_snapshots: e"
    );
    assert_eq!(
        failure_message(&ms, &MigrationStep::Update(3), "e"),
        "Failed to update V4__create_view_lob: e"
    );
}

#[test]
fn planned_steps_refer_to_listed_migrations() {
    let ms = migrations();
    for drop_first in [false, true] {
        for step in plan_migrations(&ms, &vec![], drop_first) {
            if let Some(i) = step.migration() {
                assert!(i < ms.len());
            }
        }
    }
}
