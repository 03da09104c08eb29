//! Which migrations a database still needs, how it is opened, and who owns its queue.
use vstd::prelude::*;

use crate::database::records::DatabaseError;
use crate::paths;
use crate::text;

verus! {

pub const SCHEMA_VERSION: usize = 9;

// ---------------------------------------------------------------------------------------------
// Migrations
// ---------------------------------------------------------------------------------------------

/// The first migration from `from` on that does not stand at its place.
pub open spec fn gap(applied: Seq<i64>, from: int) -> Option<int>
    decreases applied.len() - from,
{
    if from < 0 || from >= applied.len() {
        None
    } else if applied[from] != from + 1 {
        Some(from)
    } else {
        gap(applied, from + 1)
    }
}

/// The migrations that are still to be applied, in order: those behind the ones that were. They
/// have to have been applied without a gap, and none from the future.
pub fn pending_migrations(applied: &Vec<i64>) -> (result: Result<Vec<usize>, DatabaseError>)
    ensures
        if applied@.len() > 0 && applied@.last() > SCHEMA_VERSION {
            result matches Err(DatabaseError::FutureSchema { found, supported }) && found
                == applied@.last() && supported == SCHEMA_VERSION
        } else {
            match gap(applied@, 0) {
                Some(i) => result matches Err(DatabaseError::MigrationGap { found, position })
                    && found == applied@[i] && position == i + 1,
                None => result matches Ok(versions) && versions@ == Seq::new(
                    (SCHEMA_VERSION - applied@.len()) as nat,
                    |i: int| (applied@.len() + i + 1) as usize,
                ),
            }
        },
        result is Ok ==> applied@.len() <= SCHEMA_VERSION,
{
    let total: usize = applied.len();
    if total > 0 && applied[total - 1] > SCHEMA_VERSION as i64 {
        return Err(
            DatabaseError::FutureSchema { found: applied[total - 1], supported: SCHEMA_VERSION },
        );
    }
    let mut i: usize = 0;
    while i < applied.len()
        invariant
            i <= applied@.len() == total,
            i <= SCHEMA_VERSION,
            total > 0 ==> applied@.last() <= SCHEMA_VERSION,
            gap(applied@, 0) == gap(applied@, i as int),
            i > 0 ==> applied@[i - 1] == i,
        decreases applied@.len() - i,
    {
        if i == SCHEMA_VERSION {
            proof {
                lemma_gap_beyond(applied@, i as int);
            }
        }
        if i >= SCHEMA_VERSION || applied[i] != i as i64 + 1 {
            return gap_error(applied, i);
        }
        i += 1;
    }
    let mut versions: Vec<usize> = Vec::new();
    let mut version: usize = total;
    while version < SCHEMA_VERSION
        invariant
            total <= version <= SCHEMA_VERSION,
            versions@.len() == version - total,
            forall|k: int| 0 <= k < versions@.len() ==> #[trigger] versions@[k] == total + k + 1,
        decreases SCHEMA_VERSION - version,
    {
        version += 1;
        versions.push(version);
    }
    assert(versions@ =~= Seq::new(
        (SCHEMA_VERSION - applied@.len()) as nat,
        |i: int| (applied@.len() + i + 1) as usize,
    ));
    Ok(versions)
}

/// Migrations without a gap whose last is not from the future do not reach beyond the last
/// known one.
proof fn lemma_gap_beyond(applied: Seq<i64>, from: int)
    requires
        0 <= from < applied.len(),
        from >= SCHEMA_VERSION,
        applied.last() <= SCHEMA_VERSION,
    ensures
        gap(applied, from) is Some,
    decreases applied.len() - from,
{
    if applied[from] == from + 1 && from + 1 < applied.len() {
        lemma_gap_beyond(applied, from + 1);
    }
}

fn gap_error(applied: &Vec<i64>, from: usize) -> (result: Result<Vec<usize>, DatabaseError>)
    requires
        from < applied@.len(),
        gap(applied@, from as int) is Some,
    ensures
        result matches Err(DatabaseError::MigrationGap { found, position }) && found
            == applied@[gap(applied@, from as int)->0] && position == gap(
            applied@,
            from as int,
        )->0 + 1,
{
    let total: usize = applied.len();
    let mut i: usize = from;
    while applied[i] as i128 == i as i128 + 1
        invariant
            from <= i < total == applied@.len(),
            gap(applied@, from as int) is Some,
            gap(applied@, from as int) == gap(applied@, i as int),
        decreases applied@.len() - i,
    {
        assert(gap(applied@, i as int) == gap(applied@, i + 1));
        assert(i + 1 < applied@.len());
        i += 1;
    }
    Err(DatabaseError::MigrationGap { found: applied[i], position: i + 1 })
}

// ---------------------------------------------------------------------------------------------
// Opening
// ---------------------------------------------------------------------------------------------

/// Where a database is opened.
#[derive(Clone, Debug)]
pub struct OpenTarget {
    pub value: String,
    /// Whether the value is a URI for a database in memory.
    pub in_memory: bool,
    /// The directory that has to be there.
    pub directory: Option<String>,
}

impl OpenTarget {
    /// Where the database at a path is opened. Databases in memory are told apart by numbers.
    pub fn new(path: &str, memory_id: u64) -> (target: Self)
        ensures
            if path@ == ":memory:"@ {
                &&& target.value@ == "file:intake-memory-"@ + text::decimal(memory_id as nat)
                    + "?mode=memory&cache=shared"@
                &&& target.in_memory
                &&& target.directory is None
            } else {
                &&& target.value@ == path@
                &&& !target.in_memory
                &&& text::opt_text(target.directory) == paths::directory_of(path@)
            },
    {
        if text::same(path, ":memory:") {
            let mut value = "file:intake-memory-".to_owned();
            value.append(text::decimal_of(memory_id as u128).as_str());
            value.append("?mode=memory&cache=shared");
            OpenTarget { value, in_memory: true, directory: None }
        } else {
            OpenTarget {
                value: path.to_owned(),
                in_memory: false,
                directory: paths::directory(path),
            }
        }
    }
}

// ---------------------------------------------------------------------------------------------
// The owner of the queue
// ---------------------------------------------------------------------------------------------

/// How the path that identifies a database is found.
#[derive(Debug)]
pub enum Identity {
    /// It is the real path of what is there.
    Existing,
    /// It is a name in the real path of a directory, which has to be made.
    Planned { directory: String, name: String },
}

/// How the path that identifies a database is found, given whether something is there.
pub fn database_identity(path: &str, present: bool) -> (result: Result<Identity, DatabaseError>)
    ensures
        if path@ == ":memory:"@ {
            result matches Err(DatabaseError::InvalidValue(message)) && message@
                == "queue ownership requires a file-backed database"@
        } else if present {
            result matches Ok(Identity::Existing)
        } else {
            match (paths::directory_of(path@), paths::base_name(path@)) {
                (None, _) => result matches Err(DatabaseError::InvalidValue(message)) && message@
                    == "database path has no parent"@,
                (Some(_), None) => result matches Err(DatabaseError::InvalidValue(message))
                    && message@ == "database path has no file name"@,
                (Some(parent), Some(file)) => result matches Ok(
                    Identity::Planned { directory, name },
                ) && directory@ == parent && name@ == file,
            }
        },
{
    if text::same(path, ":memory:") {
        return Err(
            DatabaseError::InvalidValue(
                "queue ownership requires a file-backed database".to_owned(),
            ),
        );
    }
    if present {
        return Ok(Identity::Existing);
    }
    let directory = match paths::directory(path) {
        Some(directory) => directory,
        None => {
            return Err(DatabaseError::InvalidValue("database path has no parent".to_owned()));
        },
    };
    match paths::file_name(path) {
        Some(name) => Ok(Identity::Planned { directory, name }),
        None => Err(DatabaseError::InvalidValue("database path has no file name".to_owned())),
    }
}

/// The file whose lock belongs to the owner of the queue, beside the database.
pub fn owner_lock_path(database: &str) -> (result: Result<String, DatabaseError>)
    ensures
        match paths::base_name(database@) {
            None => result matches Err(DatabaseError::InvalidValue(message)) && message@
                == "database path has no file name"@,
            Some(name) => result matches Ok(path) && path@ == paths::joined(
                match paths::directory_of(database@) {
                    Some(parent) => parent,
                    None => Seq::empty(),
                },
                name + ".queue-owner.lock"@,
            ),
        },
{
    match paths::file_name(database) {
        None => Err(DatabaseError::InvalidValue("database path has no file name".to_owned())),
        Some(name) => {
            let mut file = name;
            file.append(".queue-owner.lock");
            match paths::directory(database) {
                Some(parent) => Ok(paths::join(parent.as_str(), file.as_str())),
                None => {
                    let empty = String::new();
                    assert(empty@ =~= Seq::empty());
                    Ok(paths::join(empty.as_str(), file.as_str()))
                },
            }
        },
    }
}

// ---------------------------------------------------------------------------------------------
// Laws
// ---------------------------------------------------------------------------------------------

/// Whether the migrations are the first ones, in order.
pub open spec fn contiguous(applied: Seq<i64>) -> bool {
    forall|i: int| 0 <= i < applied.len() ==> #[trigger] applied[i] == i + 1
}

proof fn lemma_gap(applied: Seq<i64>, from: int)
    requires
        0 <= from <= applied.len(),
    ensures
        gap(applied, from) is None <==> (forall|i: int|
            from <= i < applied.len() ==> #[trigger] applied[i] == i + 1),
    decreases applied.len() - from,
{
    if from < applied.len() && applied[from] == from + 1 {
        lemma_gap(applied, from + 1);
    }
}

/// A database is opened exactly where its migrations are the first ones, without a gap, and not
/// more than are known.
pub proof fn law_opened_schemas_are_contiguous(applied: Seq<i64>)
    ensures
        (gap(applied, 0) is None && !(applied.len() > 0 && applied.last() > SCHEMA_VERSION)) <==> (
        contiguous(applied) && applied.len() <= SCHEMA_VERSION),
{
    lemma_gap(applied, 0);
    if applied.len() > 0 && contiguous(applied) {
        assert(applied[applied.len() - 1] == applied.len());
    }
}

} // verus!
