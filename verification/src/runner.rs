use vstd::prelude::*;
use crate::error::MigrationError;
use crate::migration::{
    unit_matches_folder, up_contents, version_of, FolderEntry, MigrationUnit,
};
use crate::order::str_eq;
use crate::path::DirPath;
use crate::locator::{find_migrations_directory, spec_search};
use crate::source::{
    dir_paths, enum_outcome, lemma_enum_outcome_ok, lookup_dir, migrations_in_directory,
    Filesystem,
};
use crate::store::{
    contains_string, create_schema_migrations_table_if_needed, execute,
    latest_run_migration_version, lex_max, previously_run_migration_versions, record, remove,
    DbConn,
};

verus! {

/// No two of the given units carry the same version.
pub open spec fn distinct_versions(units: Seq<MigrationUnit>) -> bool {
    forall|i: int, j: int|
        0 <= i < j < units.len() ==> units[i].version@ != units[j].version@
}

/// What running the given units against a database does, unit by unit in
/// order: a unit whose version is in `applied` is skipped; a unit whose up
/// procedure is in `failing` stops the batch, naming its version; any other
/// unit commits its up procedure and its tracking row. Yields the recorded
/// versions, the committed statements, and the failing version if any.
pub open spec fn units_batch(
    units: Seq<MigrationUnit>,
    applied: Seq<Seq<char>>,
    failing: Seq<Seq<char>>,
) -> (Seq<Seq<char>>, Seq<Seq<char>>, Option<Seq<char>>)
    decreases units.len(),
{
    if units.len() == 0 {
        (Seq::empty(), Seq::empty(), Option::<Seq<char>>::None)
    } else {
        let u = units[0];
        if applied.contains(u.version@) {
            units_batch(units.skip(1), applied, failing)
        } else if failing.contains(u.up@) {
            (Seq::empty(), Seq::empty(), Some(u.version@))
        } else {
            let rest = units_batch(units.skip(1), applied, failing);
            (seq![u.version@] + rest.0, seq![u.up@] + rest.1, rest.2)
        }
    }
}

/// `units_batch`, stated over the folders the units were parsed from.
pub open spec fn batch_outcome(
    kept: Seq<FolderEntry>,
    applied: Seq<Seq<char>>,
    failing: Seq<Seq<char>>,
) -> (Seq<Seq<char>>, Seq<Seq<char>>, Option<Seq<char>>)
    decreases kept.len(),
{
    if kept.len() == 0 {
        (Seq::empty(), Seq::empty(), Option::<Seq<char>>::None)
    } else {
        let f = kept[0];
        let v = version_of(f.name@);
        if applied.contains(v) {
            batch_outcome(kept.skip(1), applied, failing)
        } else if failing.contains(up_contents(f.files@)) {
            (Seq::empty(), Seq::empty(), Some(v))
        } else {
            let rest = batch_outcome(kept.skip(1), applied, failing);
            (seq![v] + rest.0, seq![up_contents(f.files@)] + rest.1, rest.2)
        }
    }
}

/// Units that parse from their folders run as their folders say.
pub proof fn lemma_units_batch_matches_folders(
    units: Seq<MigrationUnit>,
    kept: Seq<FolderEntry>,
    root: Seq<Seq<char>>,
    applied: Seq<Seq<char>>,
    failing: Seq<Seq<char>>,
)
    requires
        units.len() == kept.len(),
        forall|k: int| 0 <= k < kept.len() ==> unit_matches_folder(#[trigger] units[k], root, kept[k]),
    ensures
        units_batch(units, applied, failing) == batch_outcome(kept, applied, failing),
    decreases units.len(),
{
    if units.len() > 0 {
        assert(unit_matches_folder(units[0], root, kept[0]));
        assert(units.skip(1).len() == kept.skip(1).len());
        assert forall|k: int| 0 <= k < kept.skip(1).len() implies unit_matches_folder(
            #[trigger] units.skip(1)[k],
            root,
            kept.skip(1)[k],
        ) by {
            assert(units.skip(1)[k] == units[k + 1]);
            assert(kept.skip(1)[k] == kept[k + 1]);
        }
        lemma_units_batch_matches_folders(units.skip(1), kept.skip(1), root, applied, failing);
    }
}

/// The first kept folder carrying the given version.
pub open spec fn find_folder(kept: Seq<FolderEntry>, ver: Seq<char>) -> Option<FolderEntry>
    decreases kept.len(),
{
    if kept.len() == 0 {
        None
    } else if version_of(kept[0].name@) == ver {
        Some(kept[0])
    } else {
        find_folder(kept.skip(1), ver)
    }
}

/// A found folder carries the version it was found by.
pub proof fn lemma_find_folder(kept: Seq<FolderEntry>, ver: Seq<char>)
    ensures
        match find_folder(kept, ver) {
            Some(f) => version_of(f.name@) == ver,
            None => true,
        },
    decreases kept.len(),
{
    if kept.len() > 0 && version_of(kept[0].name@) != ver {
        lemma_find_folder(kept.skip(1), ver);
    }
}

/// Applies one unit inside a transaction scope: executes the up procedure,
/// then records the version; the scope commits only if both steps succeed
/// and rolls back entirely otherwise. A failure of either step surfaces as
/// a `QueryExecutionError` carrying the unit's version.
pub fn run_migration(conn: &mut DbConn, migration: &MigrationUnit) -> (r: Result<
    (),
    MigrationError,
>)
    requires
        old(conn).wf(),
        old(conn).table_exists,
    ensures
        final(conn).wf(),
        final(conn).table_exists,
        final(conn).same_backend(*old(conn)),
        if old(conn).failing_v().contains(migration.up@) || old(conn).versions_v().contains(
            migration.version@,
        ) {
            &&& final(conn).unchanged(*old(conn))
            &&& match r {
                Err(MigrationError::QueryExecutionError(m)) => m@ == migration.version@,
                _ => false,
            }
        } else {
            &&& final(conn).versions_v() == old(conn).versions_v().push(migration.version@)
            &&& final(conn).statements_v() == old(conn).statements_v().push(migration.up@)
            &&& r == Ok::<(), MigrationError>(())
        },
{
    match execute(conn, migration.up.as_str()) {
        Ok(_) => {},
        Err(_) => {
            return Err(MigrationError::QueryExecutionError(migration.version.clone()));
        },
    }
    match record(conn, migration.version.as_str()) {
        Ok(_) => Ok(()),
        Err(_) => {
            // the tracking row was refused: roll the executed procedure back
            let ghost mid_vals = conn.statements@;
            let ghost mid_deep = conn.statements.deep_view();
            proof {
                crate::path::lemma_strings_deep_view(conn.statements);
                assert(mid_vals.len() == old(conn).statements_v().len() + 1);
            }
            let _ = conn.statements.pop();
            proof {
                crate::path::lemma_strings_deep_view(conn.statements);
                assert(conn.statements@ == mid_vals.subrange(0, mid_vals.len() - 1));
                assert forall|j: int| 0 <= j < conn.statements@.len() implies conn.statements_v()[j]
                    == old(conn).statements_v()[j] by {
                    assert(conn.statements_v()[j] == conn.statements@[j]@);
                    assert(conn.statements@[j] == mid_vals[j]);
                    assert(mid_deep[j] == mid_vals[j]@);
                    assert(mid_deep[j] == old(conn).statements_v()[j]);
                }
                assert(conn.statements_v() =~= old(conn).statements_v());
            }
            Err(MigrationError::QueryExecutionError(migration.version.clone()))
        },
    }
}

/// Reverts one unit inside a transaction scope: executes the down
/// procedure, then deletes the tracking row; the scope commits only if both
/// steps succeed. On failure the migration remains recorded as applied.
pub fn revert_migration(conn: &mut DbConn, migration: &MigrationUnit) -> (r: Result<
    (),
    MigrationError,
>)
    requires
        old(conn).wf(),
        old(conn).table_exists,
    ensures
        final(conn).wf(),
        final(conn).table_exists,
        final(conn).same_backend(*old(conn)),
        if old(conn).failing_v().contains(migration.down@) {
            &&& final(conn).unchanged(*old(conn))
            &&& match r {
                Err(MigrationError::QueryExecutionError(m)) => m@ == migration.version@,
                _ => false,
            }
        } else {
            &&& final(conn).versions_v() == old(conn).versions_v().remove_value(
                migration.version@,
            )
            &&& final(conn).statements_v() == old(conn).statements_v().push(migration.down@)
            &&& r == Ok::<(), MigrationError>(())
        },
{
    match execute(conn, migration.down.as_str()) {
        Ok(_) => {},
        Err(_) => {
            return Err(MigrationError::QueryExecutionError(migration.version.clone()));
        },
    }
    let _ = remove(conn, migration.version.as_str());
    Ok(())
}

/// Runs the pending subset of the given units in order: units whose version
/// is among `already_run` are skipped, every other unit is applied in its
/// own transaction, and the batch stops at the first failure, leaving the
/// earlier units committed and the later ones unattempted.
pub fn run_migrations(
    conn: &mut DbConn,
    migrations: &Vec<MigrationUnit>,
    already_run: &Vec<String>,
) -> (r: Result<(), MigrationError>)
    requires
        old(conn).wf(),
        old(conn).table_exists,
        distinct_versions(migrations@),
        already_run.deep_view() == old(conn).versions_v(),
    ensures
        final(conn).wf(),
        final(conn).table_exists,
        final(conn).same_backend(*old(conn)),
        ({
            let b = units_batch(migrations@, old(conn).versions_v(), old(conn).failing_v());
            &&& final(conn).versions_v() == old(conn).versions_v() + b.0
            &&& final(conn).statements_v() == old(conn).statements_v() + b.1
            &&& (match b.2 {
                None => r == Ok::<(), MigrationError>(()),
                Some(v) => match r {
                    Err(MigrationError::QueryExecutionError(m)) => m@ == v,
                    _ => false,
                },
            })
        }),
{
    let ghost applied0 = old(conn).versions_v();
    let ghost failing0 = old(conn).failing_v();
    let ghost stmts0 = old(conn).statements_v();
    let n = migrations.len();
    let mut i: usize = 0;
    let ghost mut acc_v: Seq<Seq<char>> = Seq::empty();
    let ghost mut acc_s: Seq<Seq<char>> = Seq::empty();
    proof {
        assert(migrations@.skip(0) =~= migrations@);
        assert(applied0 + acc_v =~= applied0);
        assert(stmts0 + acc_s =~= stmts0);
    }
    while i < n
        invariant
            i <= n,
            n == migrations@.len(),
            distinct_versions(migrations@),
            conn.wf(),
            conn.table_exists,
            applied0 == old(conn).versions_v(),
            failing0 == old(conn).failing_v(),
            stmts0 == old(conn).statements_v(),
            conn.failing_v() == failing0,
            already_run.deep_view() == applied0,
            conn.versions_v() == applied0 + acc_v,
            conn.statements_v() == stmts0 + acc_s,
            forall|x: Seq<char>|
                #[trigger] acc_v.contains(x) ==> exists|k: int|
                    0 <= k < i && migrations@[k].version@ == x,
            units_batch(migrations@, applied0, failing0) == ({
                let rest = units_batch(migrations@.skip(i as int), applied0, failing0);
                ((acc_v + rest.0, acc_s + rest.1, rest.2))
            }),
        decreases n - i,
    {
        let unit = &migrations[i];
        proof {
            assert(migrations@.skip(i as int)[0] == migrations@[i as int]);
            assert(migrations@.skip(i as int).skip(1) =~= migrations@.skip(i as int + 1));
            assert(migrations@.skip(i as int).len() == n - i);
        }
        let fresh = !contains_string(already_run, unit.version.as_str());
        if fresh {
            proof {
                if acc_v.contains(unit.version@) {
                    let k = choose|k: int|
                        0 <= k < i && migrations@[k].version@ == unit.version@;
                    assert(migrations@[k].version@ != migrations@[i as int].version@);
                    assert(false);
                }
                if conn.versions_v().contains(unit.version@) {
                    let w = choose|w: int|
                        0 <= w < conn.versions_v().len() && conn.versions_v()[w]
                            == unit.version@;
                    if w < applied0.len() {
                        assert(applied0[w] == unit.version@);
                        assert(applied0.contains(unit.version@));
                    } else {
                        assert(acc_v[w - applied0.len()] == unit.version@);
                        assert(acc_v.contains(unit.version@));
                    }
                    assert(false);
                }
            }
            let ghost acc_v_before = acc_v;
            let ghost acc_s_before = acc_s;
            match run_migration(conn, unit) {
                Ok(_) => {
                    proof {
                        let rest_next = units_batch(
                            migrations@.skip(i as int + 1),
                            applied0,
                            failing0,
                        );
                        assert(units_batch(migrations@.skip(i as int), applied0, failing0) == (
                            seq![unit.version@] + rest_next.0,
                            seq![unit.up@] + rest_next.1,
                            rest_next.2,
                        ));
                        acc_v = acc_v.push(unit.version@);
                        acc_s = acc_s.push(unit.up@);
                        assert(acc_v_before + (seq![unit.version@] + rest_next.0) =~= acc_v
                            + rest_next.0);
                        assert(acc_s_before + (seq![unit.up@] + rest_next.1) =~= acc_s
                            + rest_next.1);
                        assert(conn.versions_v() =~= applied0 + acc_v);
                        assert(conn.statements_v() =~= stmts0 + acc_s);
                        assert forall|x: Seq<char>| #[trigger] acc_v.contains(x) implies exists|
                            k: int,
                        | 0 <= k < i + 1 && migrations@[k].version@ == x by {
                            let w = choose|w: int| 0 <= w < acc_v.len() && acc_v[w] == x;
                            if w < acc_v.len() - 1 {
                                assert(acc_v_before[w] == x);
                                assert(acc_v_before.contains(x));
                            } else {
                                assert(migrations@[i as int].version@ == x);
                            }
                        }
                    }
                },
                Err(e) => {
                    proof {
                        assert(units_batch(migrations@.skip(i as int), applied0, failing0) == (
                            Seq::<Seq<char>>::empty(),
                            Seq::<Seq<char>>::empty(),
                            Some(unit.version@),
                        ));
                        assert(acc_v + Seq::<Seq<char>>::empty() =~= acc_v);
                        assert(acc_s + Seq::<Seq<char>>::empty() =~= acc_s);
                    }
                    return Err(e);
                },
            }
        } else {
            proof {
                assert(units_batch(migrations@.skip(i as int), applied0, failing0)
                    == units_batch(migrations@.skip(i as int + 1), applied0, failing0));
            }
        }
        i = i + 1;
    }
    proof {
        assert(migrations@.skip(n as int).len() == 0);
        assert(units_batch(migrations@.skip(n as int), applied0, failing0) == (
            Seq::<Seq<char>>::empty(),
            Seq::<Seq<char>>::empty(),
            Option::<Seq<char>>::None,
        ));
        assert(acc_v + Seq::<Seq<char>>::empty() =~= acc_v);
        assert(acc_s + Seq::<Seq<char>>::empty() =~= acc_s);
    }
    Ok(())
}

/// Runs all migrations that have not yet been run: ensures the tracking
/// table, reads the applied set, locates the migrations directory from
/// `current_dir`, enumerates its units, and applies each pending unit in
/// enumeration order, each in its own transaction, stopping at the first
/// failure. Discovery and parsing failures abort before any database
/// mutation.
pub fn run_pending_migrations(conn: &mut DbConn, fs: &Filesystem, current_dir: &DirPath) -> (r:
    Result<(), MigrationError>)
    requires
        old(conn).wf(),
    ensures
        final(conn).wf(),
        final(conn).table_exists,
        final(conn).same_backend(*old(conn)),
        match spec_search(dir_paths(*fs), current_dir@) {
            Err(e) => final(conn).unchanged(*old(conn)) && r == Err::<(), MigrationError>(e),
            Ok(root) => match lookup_dir(fs.directories@, root) {
                None => final(conn).unchanged(*old(conn)) && (match r {
                    Err(MigrationError::FilesystemError(m)) => m@
                        == "cannot read migrations directory"@,
                    _ => false,
                }),
                Some(d) => match enum_outcome(d.folders@, Seq::empty()) {
                    Err(name) => final(conn).unchanged(*old(conn)) && (match r {
                        Err(MigrationError::MalformedMigrationFolder(n)) => n@ == name,
                        _ => false,
                    }),
                    Ok(kept) => ({
                        let b = batch_outcome(
                            kept,
                            old(conn).versions_v(),
                            old(conn).failing_v(),
                        );
                        &&& final(conn).versions_v() == old(conn).versions_v() + b.0
                        &&& final(conn).statements_v() == old(conn).statements_v() + b.1
                        &&& (match b.2 {
                            None => r == Ok::<(), MigrationError>(()),
                            Some(v) => match r {
                                Err(MigrationError::QueryExecutionError(m)) => m@ == v,
                                _ => false,
                            },
                        })
                    }),
                },
            },
        },
{
    match create_schema_migrations_table_if_needed(conn) {
        Ok(_) => {},
        Err(e) => {
            return Err(e);
        },
    }
    let already_run = previously_run_migration_versions(conn);
    let migrations_dir = match find_migrations_directory(fs, current_dir) {
        Ok(d) => d,
        Err(e) => {
            return Err(e);
        },
    };
    let all_migrations = match migrations_in_directory(fs, &migrations_dir) {
        Ok(u) => u,
        Err(e) => {
            return Err(e);
        },
    };
    proof {
        let d = lookup_dir(fs.directories@, migrations_dir@)->Some_0;
        let kept = enum_outcome(d.folders@, Seq::empty())->Ok_0;
        lemma_enum_outcome_ok(d.folders@, Seq::empty());
        assert forall|x: int, y: int|
            0 <= x < y < all_migrations@.len() implies all_migrations@[x].version@
            != all_migrations@[y].version@ by {
            assert(unit_matches_folder(all_migrations@[x], migrations_dir@, kept[x]));
            assert(unit_matches_folder(all_migrations@[y], migrations_dir@, kept[y]));
        }
        lemma_units_batch_matches_folders(
            all_migrations@,
            kept,
            migrations_dir@,
            conn.versions_v(),
            conn.failing_v(),
        );
    }
    run_migrations(conn, &all_migrations, &already_run)
}

/// Resolves the migration unit with the given version by locating the
/// migrations directory and enumerating it; fails with
/// `UnknownMigrationVersion` when no on-disk unit carries the version.
pub fn migration_with_version(fs: &Filesystem, current_dir: &DirPath, ver: &str) -> (r: Result<
    MigrationUnit,
    MigrationError,
>)
    ensures
        match spec_search(dir_paths(*fs), current_dir@) {
            Err(e) => r == Err::<MigrationUnit, MigrationError>(e),
            Ok(root) => match lookup_dir(fs.directories@, root) {
                None => match r {
                    Err(MigrationError::FilesystemError(m)) => m@
                        == "cannot read migrations directory"@,
                    _ => false,
                },
                Some(d) => match enum_outcome(d.folders@, Seq::empty()) {
                    Err(name) => match r {
                        Err(MigrationError::MalformedMigrationFolder(n)) => n@ == name,
                        _ => false,
                    },
                    Ok(kept) => match find_folder(kept, ver@) {
                        None => match r {
                            Err(MigrationError::UnknownMigrationVersion(m)) => m@ == ver@,
                            _ => false,
                        },
                        Some(f) => match r {
                            Ok(u) => unit_matches_folder(u, root, f),
                            _ => false,
                        },
                    },
                },
            },
        },
{
    let migrations_dir = match find_migrations_directory(fs, current_dir) {
        Ok(d) => d,
        Err(e) => {
            return Err(e);
        },
    };
    let mut all_migrations = match migrations_in_directory(fs, &migrations_dir) {
        Ok(u) => u,
        Err(e) => {
            return Err(e);
        },
    };
    let ghost root = migrations_dir@;
    let ghost d = lookup_dir(fs.directories@, migrations_dir@)->Some_0;
    let ghost kept = enum_outcome(d.folders@, Seq::empty())->Ok_0;
    let n = all_migrations.len();
    let mut i: usize = 0;
    proof {
        assert(kept.skip(0) =~= kept);
    }
    while i < n
        invariant
            i <= n,
            n == all_migrations@.len(),
            all_migrations@.len() == kept.len(),
            spec_search(dir_paths(*fs), current_dir@) == Ok::<Seq<Seq<char>>, MigrationError>(
                root,
            ),
            lookup_dir(fs.directories@, root) == Some(d),
            enum_outcome(d.folders@, Seq::empty()) == Ok::<Seq<FolderEntry>, Seq<char>>(kept),
            forall|k: int|
                0 <= k < kept.len() ==> unit_matches_folder(
                    #[trigger] all_migrations@[k],
                    root,
                    kept[k],
                ),
            find_folder(kept, ver@) == find_folder(kept.skip(i as int), ver@),
        decreases n - i,
    {
        proof {
            assert(kept.skip(i as int)[0] == kept[i as int]);
            assert(kept.skip(i as int).skip(1) =~= kept.skip(i as int + 1));
            assert(kept.skip(i as int).len() == n - i);
            assert(unit_matches_folder(all_migrations@[i as int], root, kept[i as int]));
        }
        let hit = str_eq(all_migrations[i].version.as_str(), ver);
        if hit {
            let u = all_migrations.remove(i);
            return Ok(u);
        }
        i = i + 1;
    }
    proof {
        assert(kept.skip(n as int).len() == 0);
    }
    Err(MigrationError::UnknownMigrationVersion(ver.to_owned()))
}

/// Locates the unit with the given version and applies it directly,
/// bypassing the pending-set computation.
pub fn run_migration_with_version(
    conn: &mut DbConn,
    fs: &Filesystem,
    current_dir: &DirPath,
    ver: &str,
) -> (r: Result<(), MigrationError>)
    requires
        old(conn).wf(),
        old(conn).table_exists,
    ensures
        final(conn).wf(),
        final(conn).table_exists,
        final(conn).same_backend(*old(conn)),
        match spec_search(dir_paths(*fs), current_dir@) {
            Err(e) => final(conn).unchanged(*old(conn)) && r == Err::<(), MigrationError>(e),
            Ok(root) => match lookup_dir(fs.directories@, root) {
                None => final(conn).unchanged(*old(conn)) && (match r {
                    Err(MigrationError::FilesystemError(m)) => m@
                        == "cannot read migrations directory"@,
                    _ => false,
                }),
                Some(d) => match enum_outcome(d.folders@, Seq::empty()) {
                    Err(name) => final(conn).unchanged(*old(conn)) && (match r {
                        Err(MigrationError::MalformedMigrationFolder(n)) => n@ == name,
                        _ => false,
                    }),
                    Ok(kept) => match find_folder(kept, ver@) {
                        None => final(conn).unchanged(*old(conn)) && (match r {
                            Err(MigrationError::UnknownMigrationVersion(m)) => m@ == ver@,
                            _ => false,
                        }),
                        Some(f) => if old(conn).failing_v().contains(up_contents(f.files@))
                            || old(conn).versions_v().contains(ver@) {
                            &&& final(conn).unchanged(*old(conn))
                            &&& (match r {
                                Err(MigrationError::QueryExecutionError(m)) => m@ == ver@,
                                _ => false,
                            })
                        } else {
                            &&& final(conn).versions_v() == old(conn).versions_v().push(ver@)
                            &&& final(conn).statements_v() == old(conn).statements_v().push(
                                up_contents(f.files@),
                            )
                            &&& r == Ok::<(), MigrationError>(())
                        },
                    },
                },
            },
        },
{
    let migration = match migration_with_version(fs, current_dir, ver) {
        Ok(m) => m,
        Err(e) => {
            return Err(e);
        },
    };
    proof {
        let root = spec_search(dir_paths(*fs), current_dir@)->Ok_0;
        let d = lookup_dir(fs.directories@, root)->Some_0;
        let kept = enum_outcome(d.folders@, Seq::empty())->Ok_0;
        lemma_find_folder(kept, ver@);
    }
    run_migration(conn, &migration)
}

/// Locates the unit with the given version and reverts it directly.
pub fn revert_migration_with_version(
    conn: &mut DbConn,
    fs: &Filesystem,
    current_dir: &DirPath,
    ver: &str,
) -> (r: Result<(), MigrationError>)
    requires
        old(conn).wf(),
        old(conn).table_exists,
    ensures
        final(conn).wf(),
        final(conn).table_exists,
        final(conn).same_backend(*old(conn)),
        match spec_search(dir_paths(*fs), current_dir@) {
            Err(e) => final(conn).unchanged(*old(conn)) && r == Err::<(), MigrationError>(e),
            Ok(root) => match lookup_dir(fs.directories@, root) {
                None => final(conn).unchanged(*old(conn)) && (match r {
                    Err(MigrationError::FilesystemError(m)) => m@
                        == "cannot read migrations directory"@,
                    _ => false,
                }),
                Some(d) => match enum_outcome(d.folders@, Seq::empty()) {
                    Err(name) => final(conn).unchanged(*old(conn)) && (match r {
                        Err(MigrationError::MalformedMigrationFolder(n)) => n@ == name,
                        _ => false,
                    }),
                    Ok(kept) => match find_folder(kept, ver@) {
                        None => final(conn).unchanged(*old(conn)) && (match r {
                            Err(MigrationError::UnknownMigrationVersion(m)) => m@ == ver@,
                            _ => false,
                        }),
                        Some(f) => if old(conn).failing_v().contains(
                            crate::migration::down_contents(f.files@),
                        ) {
                            &&& final(conn).unchanged(*old(conn))
                            &&& (match r {
                                Err(MigrationError::QueryExecutionError(m)) => m@ == ver@,
                                _ => false,
                            })
                        } else {
                            &&& final(conn).versions_v() == old(conn).versions_v().remove_value(
                                ver@,
                            )
                            &&& final(conn).statements_v() == old(conn).statements_v().push(
                                crate::migration::down_contents(f.files@),
                            )
                            &&& r == Ok::<(), MigrationError>(())
                        },
                    },
                },
            },
        },
{
    let migration = match migration_with_version(fs, current_dir, ver) {
        Ok(m) => m,
        Err(e) => {
            return Err(e);
        },
    };
    proof {
        let root = spec_search(dir_paths(*fs), current_dir@)->Ok_0;
        let d = lookup_dir(fs.directories@, root)->Some_0;
        let kept = enum_outcome(d.folders@, Seq::empty())->Ok_0;
        lemma_find_folder(kept, ver@);
    }
    revert_migration(conn, &migration)
}

/// Reverts the last migration that was run: ensures the tracking table,
/// takes the greatest recorded version, resolves its unit on disk, and
/// reverts it in one transaction. Returns the version that was reverted;
/// fails when no migrations have ever been run.
pub fn revert_latest_migration(conn: &mut DbConn, fs: &Filesystem, current_dir: &DirPath) -> (r:
    Result<String, MigrationError>)
    requires
        old(conn).wf(),
    ensures
        final(conn).wf(),
        final(conn).table_exists,
        final(conn).same_backend(*old(conn)),
        ({
            let vs = old(conn).versions_v();
            if vs.len() == 0 {
                final(conn).unchanged(*old(conn)) && (match r {
                    Err(MigrationError::QueryExecutionError(m)) => m@
                        == "no migrations recorded"@,
                    _ => false,
                })
            } else {
                let latest = lex_max(vs);
                match spec_search(dir_paths(*fs), current_dir@) {
                    Err(e) => final(conn).unchanged(*old(conn)) && r == Err::<
                        String,
                        MigrationError,
                    >(e),
                    Ok(root) => match lookup_dir(fs.directories@, root) {
                        None => final(conn).unchanged(*old(conn)) && (match r {
                            Err(MigrationError::FilesystemError(m)) => m@
                                == "cannot read migrations directory"@,
                            _ => false,
                        }),
                        Some(d) => match enum_outcome(d.folders@, Seq::empty()) {
                            Err(name) => final(conn).unchanged(*old(conn)) && (match r {
                                Err(MigrationError::MalformedMigrationFolder(n)) => n@ == name,
                                _ => false,
                            }),
                            Ok(kept) => match find_folder(kept, latest) {
                                None => final(conn).unchanged(*old(conn)) && (match r {
                                    Err(MigrationError::UnknownMigrationVersion(m)) => m@
                                        == latest,
                                    _ => false,
                                }),
                                Some(f) => if old(conn).failing_v().contains(
                                    crate::migration::down_contents(f.files@),
                                ) {
                                    &&& final(conn).unchanged(*old(conn))
                                    &&& (match r {
                                        Err(MigrationError::QueryExecutionError(m)) => m@
                                            == latest,
                                        _ => false,
                                    })
                                } else {
                                    &&& final(conn).versions_v() == vs.remove_value(latest)
                                    &&& final(conn).statements_v() == old(
                                        conn,
                                    ).statements_v().push(
                                        crate::migration::down_contents(f.files@),
                                    )
                                    &&& (match r {
                                        Ok(s) => s@ == latest,
                                        _ => false,
                                    })
                                },
                            },
                        },
                    },
                }
            }
        }),
{
    match create_schema_migrations_table_if_needed(conn) {
        Ok(_) => {},
        Err(e) => {
            return Err(e);
        },
    }
    let latest = match latest_run_migration_version(conn) {
        Ok(v) => v,
        Err(e) => {
            return Err(e);
        },
    };
    match revert_migration_with_version(conn, fs, current_dir, latest.as_str()) {
        Ok(_) => Ok(latest),
        Err(e) => Err(e),
    }
}

} // verus!
