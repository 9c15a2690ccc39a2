use vstd::prelude::*;
use crate::error::MigrationError;
use crate::order::{lex_le, lex_lt, lemma_lex_transitive, lemma_lex_trichotomy, str_eq, str_lt};
use crate::path::{clone_strings, lemma_strings_deep_view};

verus! {

/// The engine's picture of the database connection: whether the tracking
/// table exists, the recorded versions (the applied set, in insertion
/// order), the procedure statements the backend has committed (in execution
/// order), and the statements the backend refuses — the fault model under
/// which the engine's behaviour is stated. A caller running against a real
/// backend performs each committed statement and surfaces its failures as
/// this model does.
#[derive(Debug)]
pub struct DbConn {
    pub table_exists: bool,
    pub versions: Vec<String>,
    pub statements: Vec<String>,
    pub failing: Vec<String>,
}

/// Pairwise distinct character sequences.
pub open spec fn distinct_seqs(s: Seq<Seq<char>>) -> bool {
    forall|i: int, j: int| 0 <= i < j < s.len() ==> s[i] != s[j]
}

impl DbConn {
    /// The recorded versions: the applied set, in insertion order.
    pub open spec fn versions_v(self) -> Seq<Seq<char>> {
        self.versions.deep_view()
    }

    /// The committed procedure statements, in execution order.
    pub open spec fn statements_v(self) -> Seq<Seq<char>> {
        self.statements.deep_view()
    }

    /// The statements the backend fails.
    pub open spec fn failing_v(self) -> Seq<Seq<char>> {
        self.failing.deep_view()
    }

    /// The tracking table's primary key holds: recorded versions are
    /// pairwise distinct.
    pub open spec fn wf(self) -> bool {
        distinct_seqs(self.versions_v())
    }

    /// Nothing durable changed since `pre`.
    pub open spec fn unchanged(self, pre: DbConn) -> bool {
        self.versions_v() == pre.versions_v() && self.statements_v() == pre.statements_v()
    }

    /// The backend fault model is not touched by the engine.
    pub open spec fn same_backend(self, pre: DbConn) -> bool {
        self.failing_v() == pre.failing_v()
    }

    /// A connection to a fresh database: no tracking table, nothing
    /// committed, no failing statements.
    pub fn new() -> (r: DbConn)
        ensures
            !r.table_exists,
            r.versions_v() == Seq::<Seq<char>>::empty(),
            r.statements_v() == Seq::<Seq<char>>::empty(),
            r.failing_v() == Seq::<Seq<char>>::empty(),
            r.wf(),
    {
        let r = DbConn {
            table_exists: false,
            versions: Vec::new(),
            statements: Vec::new(),
            failing: Vec::new(),
        };
        proof {
            assert(r.versions_v() =~= Seq::<Seq<char>>::empty());
            assert(r.statements_v() =~= Seq::<Seq<char>>::empty());
            assert(r.failing_v() =~= Seq::<Seq<char>>::empty());
        }
        r
    }
}

/// Whether `x` occurs in `v`.
pub fn contains_string(v: &Vec<String>, x: &str) -> (r: bool)
    ensures
        r == v.deep_view().contains(x@),
{
    let n = v.len();
    let mut i: usize = 0;
    while i < n
        invariant
            i <= n,
            n == v.len(),
            forall|j: int| 0 <= j < i ==> v.deep_view()[j] != x@,
        decreases n - i,
    {
        if str_eq(v[i].as_str(), x) {
            proof {
                assert(v.deep_view()[i as int] == x@);
            }
            return true;
        }
        i = i + 1;
    }
    false
}

/// Ensures the tracking table exists: `CREATE TABLE IF NOT EXISTS`
/// semantics, idempotent, with the backend's "already exists" diagnostics
/// suppressed. Returns the affected-row count of the DDL, which is zero.
pub fn create_schema_migrations_table_if_needed(conn: &mut DbConn) -> (r: Result<
    usize,
    MigrationError,
>)
    ensures
        final(conn).table_exists,
        final(conn).unchanged(*old(conn)),
        final(conn).same_backend(*old(conn)),
        final(conn).wf() == old(conn).wf(),
        r == Ok::<usize, MigrationError>(0),
{
    conn.table_exists = true;
    Ok(0)
}

/// The set of all currently recorded version strings.
pub fn previously_run_migration_versions(conn: &DbConn) -> (r: Vec<String>)
    requires
        conn.table_exists,
    ensures
        r.deep_view() == conn.versions_v(),
{
    let r = clone_strings(&conn.versions);
    proof {
        assert(r.deep_view() =~= conn.versions_v());
    }
    r
}

/// The greatest element of a nonempty family of version strings, in the
/// backend's column order.
pub open spec fn lex_max(s: Seq<Seq<char>>) -> Seq<char>
    recommends
        s.len() > 0,
    decreases s.len(),
{
    if s.len() <= 1 {
        s[0]
    } else {
        let m = lex_max(s.drop_last());
        if lex_lt(m, s.last()) {
            s.last()
        } else {
            m
        }
    }
}

/// The maximum is itself recorded and no recorded version exceeds it.
pub proof fn lemma_lex_max_properties(s: Seq<Seq<char>>)
    requires
        s.len() > 0,
    ensures
        s.contains(lex_max(s)),
        forall|i: int| 0 <= i < s.len() ==> lex_le(s[i], lex_max(s)),
    decreases s.len(),
{
    if s.len() == 1 {
        assert(s[0] == lex_max(s));
        assert(s.contains(lex_max(s)));
    } else {
        let d = s.drop_last();
        lemma_lex_max_properties(d);
        let m = lex_max(d);
        let w = choose|k: int| 0 <= k < d.len() && d[k] == m;
        assert(s[w] == d[w]);
        if lex_lt(m, s.last()) {
            assert(lex_max(s) == s.last());
            assert(s[s.len() - 1] == s.last());
            assert(s.contains(lex_max(s)));
            assert forall|i: int| 0 <= i < s.len() implies lex_le(s[i], lex_max(s)) by {
                if i < s.len() - 1 {
                    assert(s[i] == d[i]);
                    assert(lex_le(d[i], m));
                    if lex_lt(s[i], m) {
                        lemma_lex_transitive(s[i], m, s.last());
                    }
                }
            }
        } else {
            assert(lex_max(s) == m);
            assert(s.contains(lex_max(s)));
            lemma_lex_trichotomy(m, s.last());
            assert forall|i: int| 0 <= i < s.len() implies lex_le(s[i], lex_max(s)) by {
                if i < s.len() - 1 {
                    assert(s[i] == d[i]);
                    assert(lex_le(d[i], m));
                }
            }
        }
    }
}

/// The maximum version string recorded, or the "no migrations recorded"
/// failure when the applied set is empty.
pub fn latest_run_migration_version(conn: &DbConn) -> (r: Result<String, MigrationError>)
    requires
        conn.table_exists,
    ensures
        match r {
            Ok(v) => conn.versions_v().len() > 0 && v@ == lex_max(conn.versions_v()),
            Err(e) => conn.versions_v().len() == 0 && match e {
                MigrationError::QueryExecutionError(m) => m@ == "no migrations recorded"@,
                _ => false,
            },
        },
{
    let n = conn.versions.len();
    if n == 0 {
        return Err(MigrationError::QueryExecutionError("no migrations recorded".to_owned()));
    }
    let mut best = conn.versions[0].clone();
    let mut i: usize = 1;
    proof {
        assert(conn.versions_v().take(1).len() == 1);
        assert(conn.versions_v().take(1)[0] == conn.versions_v()[0]);
    }
    while i < n
        invariant
            1 <= i <= n,
            n == conn.versions.len(),
            best@ == lex_max(conn.versions_v().take(i as int)),
        decreases n - i,
    {
        let next_wins = str_lt(best.as_str(), conn.versions[i].as_str());
        proof {
            let t = conn.versions_v().take(i as int + 1);
            assert(t.drop_last() =~= conn.versions_v().take(i as int));
            assert(t.last() == conn.versions_v()[i as int]);
        }
        if next_wins {
            best = conn.versions[i].clone();
        }
        i = i + 1;
    }
    proof {
        assert(conn.versions_v().take(n as int) =~= conn.versions_v());
    }
    Ok(best)
}

/// Inserts one tracking row. A version that is already recorded violates
/// the primary key and surfaces as a `QueryExecutionError` carrying it.
pub fn record(conn: &mut DbConn, ver: &str) -> (r: Result<(), MigrationError>)
    requires
        old(conn).wf(),
        old(conn).table_exists,
    ensures
        final(conn).wf(),
        final(conn).table_exists,
        final(conn).same_backend(*old(conn)),
        final(conn).statements_v() == old(conn).statements_v(),
        if old(conn).versions_v().contains(ver@) {
            &&& final(conn).versions_v() == old(conn).versions_v()
            &&& match r {
                Err(MigrationError::QueryExecutionError(m)) => m@ == ver@,
                _ => false,
            }
        } else {
            &&& final(conn).versions_v() == old(conn).versions_v().push(ver@)
            &&& r == Ok::<(), MigrationError>(())
        },
{
    if contains_string(&conn.versions, ver) {
        return Err(MigrationError::QueryExecutionError(ver.to_owned()));
    }
    conn.versions.push(ver.to_owned());
    proof {
        assert(conn.versions_v() =~= old(conn).versions_v().push(ver@));
        assert forall|i: int, j: int|
            0 <= i < j < conn.versions_v().len() implies conn.versions_v()[i]
            != conn.versions_v()[j] by {
            if j == conn.versions_v().len() - 1 {
                if conn.versions_v()[i] == ver@ {
                    assert(old(conn).versions_v().contains(ver@));
                }
            }
        }
    }
    Ok(())
}

/// Deletes the tracking row with exact version match; a no-op (not an
/// error) when no such row exists. Returns the affected-row count.
pub fn remove(conn: &mut DbConn, ver: &str) -> (r: usize)
    requires
        old(conn).wf(),
        old(conn).table_exists,
    ensures
        final(conn).wf(),
        final(conn).table_exists,
        final(conn).same_backend(*old(conn)),
        final(conn).statements_v() == old(conn).statements_v(),
        final(conn).versions_v() == old(conn).versions_v().remove_value(ver@),
        old(conn).versions_v().contains(ver@) ==> r == 1,
        !old(conn).versions_v().contains(ver@) ==> r == 0,
{
    let ghost s = old(conn).versions_v();
    proof {
        lemma_strings_deep_view(old(conn).versions);
    }
    let n = conn.versions.len();
    let mut i: usize = 0;
    while i < n
        invariant
            i <= n,
            n == conn.versions.len(),
            *conn == *old(conn),
            s == old(conn).versions_v(),
            old(conn).table_exists,
            distinct_seqs(s),
            forall|j: int| 0 <= j < i ==> s[j] != ver@,
        decreases n - i,
    {
        let hit = str_eq(conn.versions[i].as_str(), ver);
        proof {
            lemma_strings_deep_view(conn.versions);
            assert(s[i as int] == conn.versions@[i as int]@);
        }
        if hit {
            proof {
                assert(s[i as int] == ver@);
                assert(s.contains(ver@));
                s.index_of_first_ensures(ver@);
                let k = s.index_of_first(ver@)->Some_0;
                if k < i as int {
                    assert(s[k] != ver@);
                }
                assert(k == i as int);
                s.remove_ensures(i as int);
            }
            let ghost oldv = conn.versions@;
            conn.versions.remove(i);
            proof {
                lemma_strings_deep_view(conn.versions);
                assert(conn.versions@ == oldv.remove(i as int));
                oldv.remove_ensures(i as int);
                assert forall|j: int|
                    0 <= j < conn.versions_v().len() implies conn.versions_v()[j] == s.remove(
                    i as int,
                )[j] by {
                    assert(conn.versions_v()[j] == conn.versions@[j]@);
                    if j < i as int {
                        assert(conn.versions@[j] == oldv[j]);
                        assert(s.remove(i as int)[j] == s[j]);
                    } else {
                        assert(conn.versions@[j] == oldv[j + 1]);
                        assert(s.remove(i as int)[j] == s[j + 1]);
                    }
                }
                assert(conn.versions_v() =~= s.remove(i as int));
                assert(conn.versions_v() == s.remove_value(ver@));
                assert forall|x: int, y: int|
                    0 <= x < y < conn.versions_v().len() implies conn.versions_v()[x]
                    != conn.versions_v()[y] by {
                    assert(conn.versions_v()[x] == s.remove(i as int)[x]);
                    assert(conn.versions_v()[y] == s.remove(i as int)[y]);
                    if x < i as int && y < i as int {
                        assert(s[x] != s[y]);
                    } else if x < i as int {
                        assert(s[x] != s[y + 1]);
                    } else {
                        assert(s[x + 1] != s[y + 1]);
                    }
                }
            }
            return 1;
        }
        i = i + 1;
    }
    proof {
        assert(!s.contains(ver@));
        s.index_of_first_ensures(ver@);
        assert(conn.versions_v() == s.remove_value(ver@));
    }
    0
}

/// Executes one raw statement: the backend commits it unless the fault
/// model fails it. Returns an affected-row count, which the engine does
/// not interpret.
pub fn execute(conn: &mut DbConn, sql: &str) -> (r: Result<usize, MigrationError>)
    requires
        old(conn).wf(),
    ensures
        final(conn).wf(),
        final(conn).table_exists == old(conn).table_exists,
        final(conn).same_backend(*old(conn)),
        final(conn).versions_v() == old(conn).versions_v(),
        if old(conn).failing_v().contains(sql@) {
            &&& final(conn).statements_v() == old(conn).statements_v()
            &&& match r {
                Err(MigrationError::QueryExecutionError(m)) => m@ == sql@,
                _ => false,
            }
        } else {
            &&& final(conn).statements_v() == old(conn).statements_v().push(sql@)
            &&& r == Ok::<usize, MigrationError>(0)
        },
{
    if contains_string(&conn.failing, sql) {
        return Err(MigrationError::QueryExecutionError(sql.to_owned()));
    }
    conn.statements.push(sql.to_owned());
    proof {
        assert(conn.statements_v() =~= old(conn).statements_v().push(sql@));
    }
    Ok(0)
}

} // verus!
