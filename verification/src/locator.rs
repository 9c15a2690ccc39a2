use vstd::prelude::*;
use crate::error::MigrationError;
use crate::path::DirPath;
use crate::source::{dir_paths, Filesystem};

verus! {

/// The migrations directory the search from `start` finds: `start/migrations`
/// when that directory exists, else the result for the parent of `start`.
/// The search fails once the filesystem root is passed without success.
pub open spec fn spec_search(dirs: Seq<Seq<Seq<char>>>, start: Seq<Seq<char>>) -> Result<
    Seq<Seq<char>>,
    MigrationError,
>
    decreases start.len(),
{
    let candidate = start.push("migrations"@);
    if dirs.contains(candidate) {
        Ok(candidate)
    } else if start.len() == 0 {
        Err(MigrationError::MigrationDirectoryNotFound)
    } else {
        spec_search(dirs, start.drop_last())
    }
}

/// The search fails exactly when no ancestor of the start (the start
/// included) holds a `migrations` child directory.
pub proof fn lemma_search_exhausts_ancestors(dirs: Seq<Seq<Seq<char>>>, start: Seq<Seq<char>>)
    ensures
        (spec_search(dirs, start) is Err) <==> (forall|i: int|
            0 <= i <= start.len() ==> !dirs.contains(#[trigger] start.take(i).push("migrations"@))),
    decreases start.len(),
{
    assert(start.take(start.len() as int) =~= start);
    if start.len() == 0 {
        assert(start.take(0) =~= start);
    } else {
        lemma_search_exhausts_ancestors(dirs, start.drop_last());
        assert(start.drop_last() =~= start.take(start.len() - 1));
        assert forall|i: int| 0 <= i <= start.len() - 1 implies start.drop_last().take(i)
            == start.take(i) by {
            assert(start.drop_last().take(i) =~= start.take(i));
        }
        if spec_search(dirs, start) is Err {
            assert forall|i: int| 0 <= i <= start.len() implies !dirs.contains(
                #[trigger] start.take(i).push("migrations"@),
            ) by {
                if i < start.len() {
                    assert(!dirs.contains(start.drop_last().take(i).push("migrations"@)));
                }
            }
        } else {
            if dirs.contains(start.push("migrations"@)) {
                assert(dirs.contains(start.take(start.len() as int).push("migrations"@)));
            } else {
                assert(!(spec_search(dirs, start.drop_last()) is Err));
                let i = choose|i: int|
                    0 <= i <= start.drop_last().len() && dirs.contains(
                        #[trigger] start.drop_last().take(i).push("migrations"@),
                    );
                assert(dirs.contains(start.take(i).push("migrations"@)));
            }
        }
    }
}

/// Whether `p` is a directory of the snapshot.
fn is_directory(fs: &Filesystem, p: &DirPath) -> (r: bool)
    ensures
        r == dir_paths(*fs).contains(p@),
{
    let n = fs.directories.len();
    let mut i: usize = 0;
    while i < n
        invariant
            i <= n,
            n == fs.directories@.len(),
            forall|k: int| 0 <= k < i ==> fs.directories@[k].path@ != p@,
        decreases n - i,
    {
        let hit = fs.directories[i].path.path_eq(p);
        if hit {
            proof {
                assert(dir_paths(*fs)[i as int] == p@);
            }
            return true;
        }
        i = i + 1;
    }
    proof {
        assert forall|k: int| 0 <= k < dir_paths(*fs).len() implies dir_paths(*fs)[k] != p@ by {
            assert(dir_paths(*fs)[k] == fs.directories@[k].path@);
        }
    }
    false
}

/// Searches `start` and its ancestors, nearest first, for one that holds a
/// `migrations` child directory; fails with `MigrationDirectoryNotFound`
/// once the filesystem root is reached without success.
pub fn search_for_migrations_directory(fs: &Filesystem, start: &DirPath) -> (r: Result<
    DirPath,
    MigrationError,
>)
    ensures
        match r {
            Ok(p) => spec_search(dir_paths(*fs), start@) == Ok::<Seq<Seq<char>>, MigrationError>(
                p@,
            ),
            Err(e) => spec_search(dir_paths(*fs), start@) == Err::<Seq<Seq<char>>, MigrationError>(
                e,
            ),
        },
{
    let mut cur = start.duplicate();
    loop
        invariant
            spec_search(dir_paths(*fs), start@) == spec_search(dir_paths(*fs), cur@),
        decreases cur.components.len(),
    {
        let candidate = cur.join("migrations");
        let found = is_directory(fs, &candidate);
        if found {
            return Ok(candidate);
        }
        if cur.components.len() == 0 {
            proof {
                assert(cur@.len() == 0);
            }
            return Err(MigrationError::MigrationDirectoryNotFound);
        }
        let ghost before = cur@;
        cur.components.pop();
        proof {
            crate::path::lemma_strings_deep_view(cur.components);
            assert(cur@ =~= before.drop_last());
        }
    }
}

/// Returns the directory containing migrations: `migrations` under the
/// given starting directory, or under the nearest ancestor that has one.
pub fn find_migrations_directory(fs: &Filesystem, current_dir: &DirPath) -> (r: Result<
    DirPath,
    MigrationError,
>)
    ensures
        match r {
            Ok(p) => spec_search(dir_paths(*fs), current_dir@) == Ok::<
                Seq<Seq<char>>,
                MigrationError,
            >(p@),
            Err(e) => spec_search(dir_paths(*fs), current_dir@) == Err::<
                Seq<Seq<char>>,
                MigrationError,
            >(e),
        },
{
    search_for_migrations_directory(fs, current_dir)
}

} // verus!
