use schema_migrations::error::MigrationError;
use schema_migrations::migration::{FolderEntry, MigrationFile};
use schema_migrations::path::DirPath;
use schema_migrations::runner::{
    revert_latest_migration, revert_migration_with_version, run_migration_with_version,
    run_pending_migrations,
};
use schema_migrations::source::{migrations_in_directory, Directory, Filesystem};
use schema_migrations::store::{
    create_schema_migrations_table_if_needed, latest_run_migration_version,
    previously_run_migration_versions, record, DbConn,
};

fn path(parts: &[&str]) -> DirPath {
    DirPath { components: parts.iter().map(|s| s.to_string()).collect() }
}

fn folder(name: &str, up: &str, down: &str) -> FolderEntry {
    FolderEntry {
        name: name.to_string(),
        files: vec![
            MigrationFile { name: "up.sql".to_string(), contents: up.to_string() },
            MigrationFile { name: "down.sql".to_string(), contents: down.to_string() },
        ],
    }
}

/// A project directory `proj` holding `proj/migrations` with the given
/// folders; the search starts from `proj`.
fn project(folders: Vec<FolderEntry>) -> (Filesystem, DirPath) {
    let fs = Filesystem {
        directories: vec![
            Directory { path: path(&["proj", "migrations"]), folders },
            Directory { path: path(&["proj"]), folders: Vec::new() },
        ],
    };
    (fs, path(&["proj"]))
}

fn users_and_posts() -> Vec<FolderEntry> {
    vec![
        folder(
            "20151219180527_create_users",
            "CREATE TABLE users(id SERIAL PRIMARY KEY, name VARCHAR NOT NULL)",
            "DROP TABLE users",
        ),
        folder(
            "20160107082941_create_posts",
            "CREATE TABLE posts(id SERIAL PRIMARY KEY, title VARCHAR NOT NULL)",
            "DROP TABLE posts",
        ),
    ]
}

#[test]
fn end_to_end_apply_both_then_revert_latest() {
    let (fs, cwd) = project(users_and_posts());
    let mut conn = DbConn::new();
    run_pending_migrations(&mut conn, &fs, &cwd).unwrap();
    assert_eq!(conn.versions, vec!["20151219180527", "20160107082941"]);
    assert_eq!(
        conn.statements,
        vec![
            "CREATE TABLE users(id SERIAL PRIMARY KEY, name VARCHAR NOT NULL)".to_string(),
            "CREATE TABLE posts(id SERIAL PRIMARY KEY, title VARCHAR NOT NULL)".to_string(),
        ]
    );
    let reverted = revert_latest_migration(&mut conn, &fs, &cwd).unwrap();
    assert_eq!(reverted, "20160107082941");
    assert_eq!(conn.versions, vec!["20151219180527"]);
    assert_eq!(conn.statements.last().unwrap(), "DROP TABLE posts");
}

#[test]
fn run_pending_migrations_is_idempotent() {
    let (fs, cwd) = project(users_and_posts());
    let mut conn = DbConn::new();
    run_pending_migrations(&mut conn, &fs, &cwd).unwrap();
    let versions_after_first = conn.versions.clone();
    let statements_after_first = conn.statements.clone();
    run_pending_migrations(&mut conn, &fs, &cwd).unwrap();
    assert_eq!(conn.versions, versions_after_first);
    assert_eq!(conn.statements, statements_after_first);
}

#[test]
fn fresh_database_applies_every_unit_in_enumeration_order() {
    let folders = vec![
        folder("3_c", "up c", "down c"),
        folder("1_a", "up a", "down a"),
        folder("2_b", "up b", "down b"),
    ];
    let (fs, cwd) = project(folders);
    let mut conn = DbConn::new();
    run_pending_migrations(&mut conn, &fs, &cwd).unwrap();
    // enumeration order is kept; no version sort is applied
    assert_eq!(conn.versions, vec!["3", "1", "2"]);
    assert_eq!(conn.statements, vec!["up c", "up a", "up b"]);
}

#[test]
fn revert_latest_removes_maximum_then_rerun_reapplies_only_it() {
    let (fs, cwd) = project(users_and_posts());
    let mut conn = DbConn::new();
    run_pending_migrations(&mut conn, &fs, &cwd).unwrap();
    let reverted = revert_latest_migration(&mut conn, &fs, &cwd).unwrap();
    assert_eq!(reverted, "20160107082941");
    assert_eq!(conn.versions, vec!["20151219180527"]);
    let statements_before = conn.statements.len();
    run_pending_migrations(&mut conn, &fs, &cwd).unwrap();
    assert_eq!(conn.versions, vec!["20151219180527", "20160107082941"]);
    // exactly one more statement ran: the re-applied up procedure
    assert_eq!(conn.statements.len(), statements_before + 1);
    assert_eq!(
        conn.statements.last().unwrap(),
        "CREATE TABLE posts(id SERIAL PRIMARY KEY, title VARCHAR NOT NULL)"
    );
}

#[test]
fn missing_down_file_fails_enumeration_and_leaves_table_unchanged() {
    let mut bad = folder("20151219180527_create_users", "CREATE TABLE users()", "");
    bad.files.pop();
    let (fs, cwd) = project(vec![bad]);
    let mut conn = DbConn::new();
    let result = run_pending_migrations(&mut conn, &fs, &cwd);
    assert_eq!(
        result,
        Err(MigrationError::MalformedMigrationFolder("20151219180527_create_users".to_string()))
    );
    assert!(conn.versions.is_empty());
    assert!(conn.statements.is_empty());
}

#[test]
fn folder_without_separator_is_malformed() {
    let (fs, cwd) = project(vec![folder("20151219180527", "up", "down")]);
    let mut conn = DbConn::new();
    let result = run_pending_migrations(&mut conn, &fs, &cwd);
    assert_eq!(
        result,
        Err(MigrationError::MalformedMigrationFolder("20151219180527".to_string()))
    );
}

#[test]
fn duplicate_version_fails_enumeration() {
    let (fs, cwd) = project(vec![folder("1_a", "up a", "down a"), folder("1_b", "up b", "down b")]);
    let mut conn = DbConn::new();
    let result = run_pending_migrations(&mut conn, &fs, &cwd);
    assert_eq!(result, Err(MigrationError::MalformedMigrationFolder("1_b".to_string())));
    assert!(conn.versions.is_empty());
}

#[test]
fn hidden_entries_are_skipped() {
    let (fs, cwd) = project(vec![
        folder(".keep", "", ""),
        folder("1_a", "up a", "down a"),
    ]);
    let mut conn = DbConn::new();
    run_pending_migrations(&mut conn, &fs, &cwd).unwrap();
    assert_eq!(conn.versions, vec!["1"]);
}

#[test]
fn failing_statement_aborts_batch_and_keeps_earlier_commits() {
    let folders = vec![
        folder("1_a", "up a", "down a"),
        folder("2_b", "up b", "down b"),
        folder("3_c", "up c", "down c"),
    ];
    let (fs, cwd) = project(folders);
    let mut conn = DbConn::new();
    conn.failing = vec!["up b".to_string()];
    let result = run_pending_migrations(&mut conn, &fs, &cwd);
    assert_eq!(result, Err(MigrationError::QueryExecutionError("2".to_string())));
    // the first unit stays committed, the third was never attempted
    assert_eq!(conn.versions, vec!["1"]);
    assert_eq!(conn.statements, vec!["up a"]);
}

#[test]
fn failing_down_leaves_migration_recorded() {
    let (fs, cwd) = project(vec![folder("1_a", "up a", "down a")]);
    let mut conn = DbConn::new();
    run_pending_migrations(&mut conn, &fs, &cwd).unwrap();
    conn.failing = vec!["down a".to_string()];
    let result = revert_latest_migration(&mut conn, &fs, &cwd);
    assert_eq!(result, Err(MigrationError::QueryExecutionError("1".to_string())));
    assert_eq!(conn.versions, vec!["1"]);
}

#[test]
fn unknown_version_is_reported_for_targeted_operations() {
    let (fs, cwd) = project(vec![folder("1_a", "up a", "down a")]);
    let mut conn = DbConn::new();
    create_schema_migrations_table_if_needed(&mut conn).unwrap();
    let run = run_migration_with_version(&mut conn, &fs, &cwd, "9");
    assert_eq!(run, Err(MigrationError::UnknownMigrationVersion("9".to_string())));
    let revert = revert_migration_with_version(&mut conn, &fs, &cwd, "9");
    assert_eq!(revert, Err(MigrationError::UnknownMigrationVersion("9".to_string())));
}

#[test]
fn targeted_run_and_revert_by_version() {
    let (fs, cwd) = project(users_and_posts());
    let mut conn = DbConn::new();
    create_schema_migrations_table_if_needed(&mut conn).unwrap();
    run_migration_with_version(&mut conn, &fs, &cwd, "20160107082941").unwrap();
    assert_eq!(conn.versions, vec!["20160107082941"]);
    // applying the same version again violates the primary key
    let again = run_migration_with_version(&mut conn, &fs, &cwd, "20160107082941");
    assert_eq!(
        again,
        Err(MigrationError::QueryExecutionError("20160107082941".to_string()))
    );
    assert_eq!(conn.versions, vec!["20160107082941"]);
    revert_migration_with_version(&mut conn, &fs, &cwd, "20160107082941").unwrap();
    assert!(conn.versions.is_empty());
}

#[test]
fn revert_with_no_recorded_migrations_fails() {
    let (fs, cwd) = project(users_and_posts());
    let mut conn = DbConn::new();
    let result = revert_latest_migration(&mut conn, &fs, &cwd);
    assert_eq!(
        result,
        Err(MigrationError::QueryExecutionError("no migrations recorded".to_string()))
    );
}

#[test]
fn deleted_unit_of_recorded_version_is_unknown_on_revert() {
    let (fs, cwd) = project(users_and_posts());
    let mut conn = DbConn::new();
    run_pending_migrations(&mut conn, &fs, &cwd).unwrap();
    // the folder of the latest applied version disappears from disk
    let (smaller_fs, _) = project(vec![users_and_posts().remove(0)]);
    let result = revert_latest_migration(&mut conn, &smaller_fs, &cwd);
    assert_eq!(
        result,
        Err(MigrationError::UnknownMigrationVersion("20160107082941".to_string()))
    );
}

#[test]
fn missing_migrations_directory_is_reported() {
    let fs = Filesystem { directories: vec![Directory { path: path(&["proj"]), folders: Vec::new() }] };
    let mut conn = DbConn::new();
    let result = run_pending_migrations(&mut conn, &fs, &path(&["proj"]));
    assert_eq!(result, Err(MigrationError::MigrationDirectoryNotFound));
}

#[test]
fn unreadable_directory_is_a_filesystem_error() {
    let fs = Filesystem { directories: Vec::new() };
    let result = migrations_in_directory(&fs, &path(&["proj", "migrations"]));
    assert_eq!(
        result.unwrap_err(),
        MigrationError::FilesystemError("cannot read migrations directory".to_string())
    );
}

#[test]
fn store_tracks_applied_versions_and_latest() {
    let mut conn = DbConn::new();
    create_schema_migrations_table_if_needed(&mut conn).unwrap();
    assert_eq!(
        latest_run_migration_version(&conn),
        Err(MigrationError::QueryExecutionError("no migrations recorded".to_string()))
    );
    record(&mut conn, "20151219180527").unwrap();
    record(&mut conn, "20160107082941").unwrap();
    let duplicate = record(&mut conn, "20151219180527");
    assert_eq!(
        duplicate,
        Err(MigrationError::QueryExecutionError("20151219180527".to_string()))
    );
    assert_eq!(previously_run_migration_versions(&conn), vec![
        "20151219180527".to_string(),
        "20160107082941".to_string(),
    ]);
    assert_eq!(latest_run_migration_version(&conn).unwrap(), "20160107082941");
}

#[test]
fn create_tracking_table_is_idempotent() {
    let mut conn = DbConn::new();
    assert_eq!(create_schema_migrations_table_if_needed(&mut conn), Ok(0));
    record(&mut conn, "1").unwrap();
    assert_eq!(create_schema_migrations_table_if_needed(&mut conn), Ok(0));
    assert!(conn.table_exists);
    assert_eq!(conn.versions, vec!["1"]);
}
