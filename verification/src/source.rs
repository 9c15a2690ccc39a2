use vstd::prelude::*;
use vstd::string::StrSliceExecFns;
use crate::error::MigrationError;
use crate::migration::{
    folder_well_formed, is_hidden, migration_from, unit_matches_folder, version_of, FolderEntry,
    MigrationUnit,
};
use crate::path::DirPath;

verus! {

/// A directory that exists, together with the migration folders it holds.
#[derive(Debug)]
pub struct Directory {
    pub path: DirPath,
    pub folders: Vec<FolderEntry>,
}

/// A snapshot of the directories of interest: what the engine sees of the
/// filesystem during one invocation.
#[derive(Debug)]
pub struct Filesystem {
    pub directories: Vec<Directory>,
}

/// The paths of the directories that exist.
pub open spec fn dir_paths(fs: Filesystem) -> Seq<Seq<Seq<char>>> {
    fs.directories@.map_values(|d: Directory| d.path@)
}

/// The first directory of the snapshot with the given path.
pub open spec fn lookup_dir(dirs: Seq<Directory>, p: Seq<Seq<char>>) -> Option<Directory>
    decreases dirs.len(),
{
    if dirs.len() == 0 {
        None
    } else if dirs[0].path@ == p {
        Some(dirs[0])
    } else {
        lookup_dir(dirs.skip(1), p)
    }
}

/// Enumeration outcome over the folder entries of a directory: the kept
/// (non-hidden) folders, in order, when every one of them parses and no
/// version repeats; otherwise the name of the first offending folder.
pub open spec fn enum_outcome(folders: Seq<FolderEntry>, seen: Seq<Seq<char>>) -> Result<
    Seq<FolderEntry>,
    Seq<char>,
>
    decreases folders.len(),
{
    if folders.len() == 0 {
        Ok(Seq::empty())
    } else {
        let f = folders[0];
        if is_hidden(f.name@) {
            enum_outcome(folders.skip(1), seen)
        } else if !folder_well_formed(f) {
            Err(f.name@)
        } else if seen.contains(version_of(f.name@)) {
            Err(f.name@)
        } else {
            match enum_outcome(folders.skip(1), seen.push(version_of(f.name@))) {
                Ok(rest) => Ok(seq![f] + rest),
                Err(e) => Err(e),
            }
        }
    }
}

/// The folders an `Ok` enumeration keeps all parse, carry versions that are
/// not among those already seen, and carry pairwise distinct versions.
pub proof fn lemma_enum_outcome_ok(folders: Seq<FolderEntry>, seen: Seq<Seq<char>>)
    requires
        enum_outcome(folders, seen) is Ok,
    ensures
        ({
            let kept = enum_outcome(folders, seen)->Ok_0;
            &&& forall|k: int| 0 <= k < kept.len() ==> folder_well_formed(#[trigger] kept[k])
            &&& forall|k: int|
                0 <= k < kept.len() ==> !seen.contains(version_of(#[trigger] kept[k].name@))
            &&& forall|i: int, j: int|
                0 <= i < j < kept.len() ==> version_of(kept[i].name@) != version_of(kept[j].name@)
        }),
    decreases folders.len(),
{
    let kept = enum_outcome(folders, seen)->Ok_0;
    if folders.len() == 0 {
    } else {
        let f = folders[0];
        if is_hidden(f.name@) {
            lemma_enum_outcome_ok(folders.skip(1), seen);
        } else {
            let v = version_of(f.name@);
            lemma_enum_outcome_ok(folders.skip(1), seen.push(v));
            let rest = enum_outcome(folders.skip(1), seen.push(v))->Ok_0;
            assert(kept == seq![f] + rest);
            assert(kept[0] == f);
            assert(forall|k: int| 0 <= k < rest.len() ==> #[trigger] kept[k + 1] == rest[k]);
            assert forall|k: int| 0 <= k < kept.len() implies folder_well_formed(
                #[trigger] kept[k],
            ) by {
                if k > 0 {
                    assert(kept[k] == rest[k - 1]);
                }
            }
            assert forall|k: int| 0 <= k < kept.len() implies !seen.contains(
                version_of(#[trigger] kept[k].name@),
            ) by {
                if k > 0 {
                    assert(kept[k] == rest[k - 1]);
                    assert(!seen.push(v).contains(version_of(rest[k - 1].name@)));
                    if seen.contains(version_of(kept[k].name@)) {
                        let w = choose|w: int|
                            0 <= w < seen.len() && seen[w] == version_of(kept[k].name@);
                        assert(seen.push(v)[w] == seen[w]);
                    }
                }
            }
            assert forall|i: int, j: int| 0 <= i < j < kept.len() implies version_of(
                kept[i].name@,
            ) != version_of(kept[j].name@) by {
                if i == 0 {
                    assert(kept[j] == rest[j - 1]);
                    assert(!seen.push(v).contains(version_of(rest[j - 1].name@)));
                    assert(seen.push(v)[seen.len() as int] == v);
                    if version_of(kept[j].name@) == v {
                        assert(seen.push(v).contains(v));
                    }
                } else {
                    assert(kept[i] == rest[i - 1]);
                    assert(kept[j] == rest[j - 1]);
                }
            }
        }
    }
}

/// Index of the first directory of the snapshot with the given path.
fn find_directory(fs: &Filesystem, dir: &DirPath) -> (r: Option<usize>)
    ensures
        match r {
            Some(j) => j < fs.directories@.len() && lookup_dir(fs.directories@, dir@) == Some(
                fs.directories@[j as int],
            ),
            None => lookup_dir(fs.directories@, dir@) is None,
        },
{
    let n = fs.directories.len();
    let mut i: usize = 0;
    proof {
        assert(fs.directories@.skip(0) =~= fs.directories@);
    }
    while i < n
        invariant
            i <= n,
            n == fs.directories@.len(),
            lookup_dir(fs.directories@, dir@) == lookup_dir(
                fs.directories@.skip(i as int),
                dir@,
            ),
        decreases n - i,
    {
        let hit = fs.directories[i].path.path_eq(dir);
        proof {
            assert(fs.directories@.skip(i as int)[0] == fs.directories@[i as int]);
            assert(fs.directories@.skip(i as int).skip(1) =~= fs.directories@.skip(i as int + 1));
        }
        if hit {
            return Some(i);
        }
        i = i + 1;
    }
    proof {
        assert(fs.directories@.skip(i as int).len() == 0);
    }
    None
}

/// Whether one of the already parsed units carries the given version.
fn contains_version(units: &Vec<MigrationUnit>, ver: &str) -> (r: bool)
    ensures
        r == exists|k: int| 0 <= k < units@.len() && units@[k].version@ == ver@,
{
    let n = units.len();
    let mut i: usize = 0;
    while i < n
        invariant
            i <= n,
            n == units@.len(),
            forall|j: int| 0 <= j < i ==> units@[j].version@ != ver@,
        decreases n - i,
    {
        if crate::order::str_eq(units[i].version.as_str(), ver) {
            return true;
        }
        i = i + 1;
    }
    false
}

/// Lists the folder entries of `dir`, ignoring entries whose name begins
/// with the hidden-file marker, parsing every remaining folder into a
/// migration unit, in enumeration order, and failing fast with
/// `MalformedMigrationFolder` on the first folder that does not parse or
/// that repeats a version already enumerated. Fails with `FilesystemError`
/// when `dir` cannot be read.
pub fn migrations_in_directory(fs: &Filesystem, dir: &DirPath) -> (r: Result<
    Vec<MigrationUnit>,
    MigrationError,
>)
    ensures
        match lookup_dir(fs.directories@, dir@) {
            None => match r {
                Err(MigrationError::FilesystemError(m)) => m@
                    == "cannot read migrations directory"@,
                _ => false,
            },
            Some(d) => match enum_outcome(d.folders@, Seq::empty()) {
                Ok(kept) => match r {
                    Ok(units) => units@.len() == kept.len() && forall|k: int|
                        0 <= k < kept.len() ==> unit_matches_folder(
                            #[trigger] units@[k],
                            dir@,
                            kept[k],
                        ),
                    _ => false,
                },
                Err(name) => match r {
                    Err(MigrationError::MalformedMigrationFolder(n)) => n@ == name,
                    _ => false,
                },
            },
        },
{
    let j = match find_directory(fs, dir) {
        Some(j) => j,
        None => {
            return Err(
                MigrationError::FilesystemError("cannot read migrations directory".to_owned()),
            );
        },
    };
    let ghost folders = fs.directories@[j as int].folders@;
    let n = fs.directories[j].folders.len();
    let mut units: Vec<MigrationUnit> = Vec::new();
    let ghost mut seen: Seq<Seq<char>> = Seq::empty();
    let ghost mut kept: Seq<FolderEntry> = Seq::empty();
    let mut i: usize = 0;
    proof {
        assert(folders.skip(0) =~= folders);
        assert(units@ =~= Seq::<MigrationUnit>::empty());
    }
    while i < n
        invariant
            i <= n,
            j < fs.directories@.len(),
            folders == fs.directories@[j as int].folders@,
            n == folders.len(),
            lookup_dir(fs.directories@, dir@) == Some(fs.directories@[j as int]),
            units@.len() == kept.len(),
            seen.len() == kept.len(),
            forall|k: int| 0 <= k < kept.len() ==> seen[k] == #[trigger] units@[k].version@,
            forall|k: int|
                0 <= k < kept.len() ==> unit_matches_folder(#[trigger] units@[k], dir@, kept[k]),
            enum_outcome(folders, Seq::empty()) == (match enum_outcome(
                folders.skip(i as int),
                seen,
            ) {
                Ok(rest) => Ok::<Seq<FolderEntry>, Seq<char>>(kept + rest),
                Err(e) => Err(e),
            }),
        decreases n - i,
    {
        let folder = &fs.directories[j].folders[i];
        proof {
            assert(folders.skip(i as int)[0] == folders[i as int]);
            assert(folders.skip(i as int).skip(1) =~= folders.skip(i as int + 1));
            assert(folders.skip(i as int).len() == n - i);
        }
        let name_s = folder.name.as_str();
        let hidden = if name_s.unicode_len() == 0 {
            false
        } else {
            name_s.get_char(0) == '.'
        };
        proof {
            assert(hidden == is_hidden(folders[i as int].name@));
        }
        if !hidden {
            let unit = match migration_from(dir, folder) {
                Ok(u) => u,
                Err(e) => {
                    return Err(e);
                },
            };
            if contains_version(&units, unit.version.as_str()) {
                proof {
                    let k = choose|k: int|
                        0 <= k < units@.len() && units@[k].version@ == unit.version@;
                    assert(seen[k] == version_of(folders[i as int].name@));
                    assert(seen.contains(version_of(folders[i as int].name@)));
                }
                return Err(MigrationError::MalformedMigrationFolder(folder.name.clone()));
            }
            proof {
                if seen.contains(version_of(folders[i as int].name@)) {
                    let w = choose|w: int|
                        0 <= w < seen.len() && seen[w] == version_of(folders[i as int].name@);
                    assert(units@[w].version@ == version_of(folders[i as int].name@));
                }
            }
            let ghost snapshot_units = units@;
            units.push(unit);
            proof {
                let f = folders[i as int];
                let v = version_of(f.name@);
                let step = enum_outcome(folders.skip(i as int + 1), seen.push(v));
                if step is Ok {
                    let rest = step->Ok_0;
                    assert(enum_outcome(folders.skip(i as int), seen) == Ok::<
                        Seq<FolderEntry>,
                        Seq<char>,
                    >(seq![f] + rest));
                    assert((kept + (seq![f] + rest)) =~= (kept.push(f) + rest));
                }
                seen = seen.push(v);
                kept = kept.push(f);
                assert(units@ == snapshot_units.push(units@[units@.len() - 1]));
            }
        } else {
            proof {
                assert(enum_outcome(folders.skip(i as int), seen) == enum_outcome(
                    folders.skip(i as int + 1),
                    seen,
                ));
            }
        }
        i = i + 1;
    }
    proof {
        assert(folders.skip(n as int).len() == 0);
        assert(enum_outcome(folders.skip(n as int), seen) == Ok::<Seq<FolderEntry>, Seq<char>>(
            Seq::empty(),
        ));
        assert(kept + Seq::<FolderEntry>::empty() =~= kept);
    }
    Ok(units)
}

} // verus!
