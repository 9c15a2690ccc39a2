use schema_migrations::error::MigrationError;
use schema_migrations::locator::{find_migrations_directory, search_for_migrations_directory};
use schema_migrations::path::DirPath;
use schema_migrations::source::{Directory, Filesystem};

fn path(parts: &[&str]) -> DirPath {
    DirPath { components: parts.iter().map(|s| s.to_string()).collect() }
}

fn filesystem(dirs: &[&[&str]]) -> Filesystem {
    Filesystem {
        directories: dirs
            .iter()
            .map(|p| Directory { path: path(p), folders: Vec::new() })
            .collect(),
    }
}

#[test]
fn migration_directory_not_found_if_no_migration_dir_exists() {
    let fs = filesystem(&[&["tmp", "diesel"]]);
    let found = search_for_migrations_directory(&fs, &path(&["tmp", "diesel"]));
    assert_eq!(Err(MigrationError::MigrationDirectoryNotFound), found);
}

#[test]
fn migration_directory_defaults_to_pwd_slash_migrations() {
    let temp = &["tmp", "diesel"];
    let migrations = &["tmp", "diesel", "migrations"];
    let fs = filesystem(&[temp, migrations]);
    let found = search_for_migrations_directory(&fs, &path(temp));
    assert_eq!(path(migrations).components, found.unwrap().components);
}

#[test]
fn migration_directory_checks_parents() {
    let temp = &["tmp", "diesel"];
    let migrations = &["tmp", "diesel", "migrations"];
    let child = &["tmp", "diesel", "child"];
    let fs = filesystem(&[temp, migrations, child]);
    let found = search_for_migrations_directory(&fs, &path(child));
    assert_eq!(path(migrations).components, found.unwrap().components);
}

#[test]
fn directory_search_ascends_to_sibling_branch_root() {
    // directories root/migrations and root/a/b: searching from root/a/b
    // finds root/migrations
    let fs = filesystem(&[&["root"], &["root", "migrations"], &["root", "a"], &["root", "a", "b"]]);
    let found = find_migrations_directory(&fs, &path(&["root", "a", "b"]));
    assert_eq!(path(&["root", "migrations"]).components, found.unwrap().components);
}

#[test]
fn directory_search_fails_at_filesystem_root() {
    // no ancestor of the start holds a migrations directory
    let fs = filesystem(&[&["root"], &["root", "a"], &["root", "a", "b"]]);
    let found = find_migrations_directory(&fs, &path(&["root", "a", "b"]));
    assert_eq!(Err(MigrationError::MigrationDirectoryNotFound), found);
}

#[test]
fn migrations_directory_in_root_is_found_from_root() {
    let fs = filesystem(&[&["migrations"]]);
    let found = find_migrations_directory(&fs, &path(&[]));
    assert_eq!(path(&["migrations"]).components, found.unwrap().components);
}
