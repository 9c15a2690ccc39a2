use vstd::prelude::*;
use vstd::string::StrSliceExecFns;
use crate::error::MigrationError;
use crate::order::str_eq;
use crate::path::DirPath;

verus! {

/// One file inside a migration folder.
#[derive(Debug)]
pub struct MigrationFile {
    pub name: String,
    pub contents: String,
}

/// One immediate entry of a migrations directory: a child folder together
/// with the files it holds.
#[derive(Debug)]
pub struct FolderEntry {
    pub name: String,
    pub files: Vec<MigrationFile>,
}

/// The parsed representation of one migration folder.
#[derive(Debug)]
pub struct MigrationUnit {
    /// The opaque, comparably ordered token that names the unit.
    pub version: String,
    /// The descriptive part of the folder name.
    pub name: String,
    /// The forward procedure body.
    pub up: String,
    /// The backward procedure body.
    pub down: String,
    /// The folder the unit was parsed from.
    pub location: DirPath,
}

/// Index of the first separator in a folder name, or -1 when there is none.
pub open spec fn split_index(name: Seq<char>) -> int
    decreases name.len(),
{
    if name.len() == 0 {
        -1
    } else if name[0] == '_' {
        0
    } else {
        let rest = split_index(name.skip(1));
        if rest < 0 {
            -1
        } else {
            rest + 1
        }
    }
}

/// A folder name is recognizable when a separator follows a nonempty
/// version token.
pub open spec fn well_formed_name(name: Seq<char>) -> bool {
    split_index(name) >= 1
}

/// The version token of a recognizable folder name.
pub open spec fn version_of(name: Seq<char>) -> Seq<char> {
    name.take(split_index(name))
}

/// The descriptive part of a recognizable folder name.
pub open spec fn name_part_of(name: Seq<char>) -> Seq<char> {
    name.skip(split_index(name) + 1)
}

/// Entries with a leading hidden-file marker are ignored during enumeration.
pub open spec fn is_hidden(name: Seq<char>) -> bool {
    name.len() > 0 && name[0] == '.'
}

/// Exactly one up procedure and one down procedure, and nothing else.
pub open spec fn has_exact_procedures(files: Seq<MigrationFile>) -> bool {
    &&& files.len() == 2
    &&& {
        ||| (files[0].name@ == "up.sql"@ && files[1].name@ == "down.sql"@)
        ||| (files[0].name@ == "down.sql"@ && files[1].name@ == "up.sql"@)
    }
}

/// The body of the up procedure of a folder with exact procedures.
pub open spec fn up_contents(files: Seq<MigrationFile>) -> Seq<char> {
    if files[0].name@ == "up.sql"@ {
        files[0].contents@
    } else {
        files[1].contents@
    }
}

/// The body of the down procedure of a folder with exact procedures.
pub open spec fn down_contents(files: Seq<MigrationFile>) -> Seq<char> {
    if files[0].name@ == "down.sql"@ {
        files[0].contents@
    } else {
        files[1].contents@
    }
}

/// A folder parses into a migration unit: recognizable name, exact
/// procedure files.
pub open spec fn folder_well_formed(f: FolderEntry) -> bool {
    well_formed_name(f.name@) && has_exact_procedures(f.files@)
}

/// `u` is what parsing folder `f` under the directory `root` yields.
pub open spec fn unit_matches_folder(u: MigrationUnit, root: Seq<Seq<char>>, f: FolderEntry) -> bool {
    &&& u.version@ == version_of(f.name@)
    &&& u.name@ == name_part_of(f.name@)
    &&& u.up@ == up_contents(f.files@)
    &&& u.down@ == down_contents(f.files@)
    &&& u.location@ == root.push(f.name@)
}

/// A separator at `i` with none before it is the first one.
proof fn lemma_split_index_at(name: Seq<char>, i: int)
    requires
        0 <= i < name.len(),
        name[i] == '_',
        forall|j: int| 0 <= j < i ==> name[j] != '_',
    ensures
        split_index(name) == i,
    decreases i,
{
    if i > 0 {
        assert(name.skip(1)[i - 1] == name[i]);
        assert(forall|j: int| 0 <= j < i - 1 ==> #[trigger] name.skip(1)[j] == name[j + 1]);
        lemma_split_index_at(name.skip(1), i - 1);
    }
}

/// A name without a separator has no split index.
proof fn lemma_split_index_none(name: Seq<char>)
    requires
        forall|j: int| 0 <= j < name.len() ==> name[j] != '_',
    ensures
        split_index(name) == -1,
    decreases name.len(),
{
    if name.len() > 0 {
        assert(forall|j: int| 0 <= j < name.len() - 1 ==> #[trigger] name.skip(1)[j] == name[j + 1]);
        lemma_split_index_none(name.skip(1));
    }
}

/// Position of the first separator of `s`, when there is one.
fn find_separator(s: &str) -> (r: Option<usize>)
    ensures
        match r {
            Some(i) => i < s@.len() && split_index(s@) == i,
            None => split_index(s@) == -1,
        },
{
    let n = s.unicode_len();
    let mut i: usize = 0;
    while i < n
        invariant
            i <= n,
            n == s@.len(),
            forall|j: int| 0 <= j < i ==> s@[j] != '_',
        decreases n - i,
    {
        if s.get_char(i) == '_' {
            proof {
                lemma_split_index_at(s@, i as int);
            }
            return Some(i);
        }
        i = i + 1;
    }
    proof {
        lemma_split_index_none(s@);
    }
    None
}

/// Parses one folder entry into a migration unit: splits the folder name
/// into version and name at the first separator, and takes the bodies of the
/// two procedure files. Fails with `MalformedMigrationFolder` when the name
/// is not recognizable or the folder does not hold exactly the two
/// procedure files.
pub fn migration_from(root: &DirPath, folder: &FolderEntry) -> (r: Result<
    MigrationUnit,
    MigrationError,
>)
    ensures
        match r {
            Ok(u) => folder_well_formed(*folder) && unit_matches_folder(u, root@, *folder),
            Err(e) => !folder_well_formed(*folder) && match e {
                MigrationError::MalformedMigrationFolder(n) => n@ == folder.name@,
                _ => false,
            },
        },
{
    proof {
        reveal_strlit("up.sql");
        reveal_strlit("down.sql");
        assert("up.sql"@.len() == 6);
        assert("down.sql"@.len() == 8);
        assert("up.sql"@ != "down.sql"@);
    }
    let name_str = folder.name.as_str();
    let idx = match find_separator(name_str) {
        Some(idx) => idx,
        None => {
            return Err(MigrationError::MalformedMigrationFolder(folder.name.clone()));
        },
    };
    if idx == 0 {
        return Err(MigrationError::MalformedMigrationFolder(folder.name.clone()));
    }
    if folder.files.len() != 2 {
        return Err(MigrationError::MalformedMigrationFolder(folder.name.clone()));
    }
    let first = &folder.files[0];
    let second = &folder.files[1];
    let (up, down) = if str_eq(first.name.as_str(), "up.sql") && str_eq(
        second.name.as_str(),
        "down.sql",
    ) {
        (first.contents.clone(), second.contents.clone())
    } else if str_eq(first.name.as_str(), "down.sql") && str_eq(second.name.as_str(), "up.sql") {
        (second.contents.clone(), first.contents.clone())
    } else {
        return Err(MigrationError::MalformedMigrationFolder(folder.name.clone()));
    };
    proof {
        assert(up@ == up_contents(folder.files@));
        assert(down@ == down_contents(folder.files@));
    }
    let name_len = name_str.unicode_len();
    let version = name_str.substring_char(0, idx).to_owned();
    let name_part = name_str.substring_char(idx + 1, name_len).to_owned();
    proof {
        assert(version@ =~= version_of(folder.name@));
        assert(name_part@ =~= name_part_of(folder.name@));
    }
    Ok(
        MigrationUnit {
            version,
            name: name_part,
            up,
            down,
            location: root.join(folder.name.as_str()),
        },
    )
}

} // verus!
