//! The tables, and how they change over time.
//!
//! Migrations are numbered and go forward only. Each is applied once, in order, and the file
//! records how far it has got. There is no way down: reversing a schema change on a database that
//! has been written to since is a loss of data, and the honest way back is the backup taken
//! before the upgrade. A file from a newer build is refused for the same reason.

pub mod sql;

use crate::decimal;
use crate::storage::store::{StoreError, Value, ValueView, Write, WriteView};
use crate::text;
use vstd::prelude::*;

verus! {

/// One step of the schema. The version of a file is that of the last step applied to it.
#[derive(Clone, Copy, Debug, PartialEq, Eq)]
pub struct Migration {
    pub version: i64,
    pub what: &'static str,
    pub sql: &'static str,
}

/// What a [`Migration`] says.
#[verifier::ext_equal]
pub struct MigrationView {
    pub version: int,
    pub what: Seq<char>,
    pub sql: Seq<char>,
}

impl View for Migration {
    type V = MigrationView;

    open spec fn view(&self) -> MigrationView {
        MigrationView { version: self.version as int, what: self.what@, sql: self.sql@ }
    }
}

/// Every migration this build knows, in order.
///
/// Append only: editing one that has shipped means two databases of the same version with
/// different shapes.
pub open spec fn known() -> Seq<MigrationView> {
    seq![MigrationView { version: 1, what: "initial schema"@, sql: sql::INITIAL_SCHEMA@ }]
}

/// The highest version among migrations, zero where there is none.
pub open spec fn highest(migrations: Seq<MigrationView>) -> int
    decreases migrations.len(),
{
    if migrations.len() == 0 {
        0
    } else {
        let rest = highest(migrations.drop_last());
        if migrations.last().version > rest {
            migrations.last().version
        } else {
            rest
        }
    }
}

/// The migrations a file of some version lacks.
pub open spec fn missing(migrations: Seq<MigrationView>, version: int) -> Seq<MigrationView>
    decreases migrations.len(),
{
    if migrations.len() == 0 {
        Seq::empty()
    } else {
        let rest = missing(migrations.drop_last(), version);
        if migrations.last().version > version {
            rest.push(migrations.last())
        } else {
            rest
        }
    }
}

fn migrations() -> (r: Vec<Migration>)
    ensures
        r@.map_values(|m: Migration| m@) == known(),
{
    let r = vec![Migration { version: 1, what: "initial schema", sql: sql::INITIAL_SCHEMA }];
    assert(r@.map_values(|m: Migration| m@) =~= known());
    r
}

/// The schema version this build expects.
pub fn expected_version() -> (r: i64)
    ensures
        r == highest(known()),
{
    let all = migrations();
    let ghost views = all@.map_values(|m: Migration| m@);
    let mut r: i64 = 0;
    let mut i: usize = 0;
    assert(views.take(0) =~= Seq::<MigrationView>::empty());
    while i < all.len()
        invariant
            i <= all@.len(),
            views == all@.map_values(|m: Migration| m@),
            r == highest(views.take(i as int)),
        decreases all@.len() - i,
    {
        assert(views.take(i + 1).drop_last() =~= views.take(i as int));
        assert(views[i as int] == all@[i as int]@);
        if all[i].version > r {
            r = all[i].version;
        }
        i += 1;
    }
    assert(views.take(i as int) =~= views);
    r
}

#[derive(Debug, PartialEq, Eq)]
pub enum MigrationError {
    /// The file was written by a newer core.
    FromTheFuture { found: i64, known: i64 },
    Failed { version: i64, what: String, why: String },
    Store(StoreError),
}

impl MigrationError {
    pub open spec fn text(self) -> Seq<char> {
        match self {
            MigrationError::FromTheFuture { found, known } => "database is at version "@
                + decimal::integer_text(found as int) + ", this build only knows up to "@
                + decimal::integer_text(known as int) + " — it was written by a newer core"@,
            MigrationError::Failed { version, what, why } => "migration "@
                + decimal::integer_text(version as int) + " ("@ + what@ + ") failed: "@ + why@,
            MigrationError::Store(e) => e.text(),
        }
    }

    pub fn to_string(&self) -> (r: String)
        ensures
            r@ == self.text(),
    {
        match self {
            MigrationError::FromTheFuture { found, known } => {
                let mut r = "database is at version ".to_owned();
                r.append(text::signed(*found).as_str());
                r.append(", this build only knows up to ");
                r.append(text::signed(*known).as_str());
                r.append(" — it was written by a newer core");
                r
            },
            MigrationError::Failed { version, what, why } => {
                let mut r = "migration ".to_owned();
                r.append(text::signed(*version).as_str());
                r.append(" (");
                r.append(what.as_str());
                r.append(") failed: ");
                r.append(why.as_str());
                r
            },
            MigrationError::Store(e) => e.to_string(),
        }
    }
}

/// One migration to apply: what to write, durably and in one transaction.
#[derive(Debug, PartialEq, Eq)]
pub struct Step {
    pub version: i64,
    pub what: &'static str,
    pub write: Write,
}

/// The statements of a migration together with the version they bring the file to: a crash
/// between the two would leave a file whose shape and recorded version disagree.
pub open spec fn applied(migration: MigrationView) -> Seq<char> {
    migration.sql + "\nPRAGMA user_version = "@ + decimal::integer_text(migration.version) + ";"@
}

impl Step {
    /// Whether this step applies a migration.
    pub open spec fn applies(self, migration: MigrationView) -> bool {
        &&& self.version == migration.version
        &&& self.what@ == migration.what
        &&& self.write@ == WriteView { sql: applied(migration), params: Seq::empty() }
    }

    /// What to report when the write of this step failed.
    pub fn failed(&self, why: &StoreError) -> (e: MigrationError)
        ensures
            e matches MigrationError::Failed { version, what, why: reason } && version
                == self.version && what@ == self.what@ && reason@ == why.text(),
    {
        MigrationError::Failed {
            version: self.version,
            what: self.what.to_owned(),
            why: why.to_string(),
        }
    }
}

/// Brings a database up to the schema this build expects.
pub struct Migrator;

impl Migrator {
    /// The steps a file of some version lacks, in order. Every one of them is written before the
    /// next, and after the last the file is at [`expected_version`].
    ///
    /// An older binary cannot know what a newer schema means, and guessing would corrupt rather
    /// than fail, so a newer file is refused.
    pub fn migrate(current: i64) -> (r: Result<Vec<Step>, MigrationError>)
        ensures
            match r {
                Ok(steps) => {
                    &&& current <= highest(known())
                    &&& steps@.len() == missing(known(), current as int).len()
                    &&& forall|i: int|
                        0 <= i < steps@.len() ==> (#[trigger] steps@[i]).applies(
                            missing(known(), current as int)[i],
                        )
                },
                Err(e) => {
                    &&& current > highest(known())
                    &&& e matches MigrationError::FromTheFuture { found, known: newest } && found
                        == current && newest == highest(known())
                },
            },
    {
        let newest = expected_version();
        if current > newest {
            return Err(MigrationError::FromTheFuture { found: current, known: newest });
        }
        let all = migrations();
        let ghost views = all@.map_values(|m: Migration| m@);
        let mut steps: Vec<Step> = Vec::new();
        let mut i: usize = 0;
        assert(views.take(0) =~= Seq::<MigrationView>::empty());
        while i < all.len()
            invariant
                i <= all@.len(),
                views == all@.map_values(|m: Migration| m@),
                steps@.len() == missing(views.take(i as int), current as int).len(),
                forall|j: int|
                    0 <= j < steps@.len() ==> (#[trigger] steps@[j]).applies(
                        missing(views.take(i as int), current as int)[j],
                    ),
            decreases all@.len() - i,
        {
            assert(views.take(i + 1).drop_last() =~= views.take(i as int));
            assert(views[i as int] == all@[i as int]@);
            let m = &all[i];
            if m.version > current {
                let mut sql = m.sql.to_owned();
                sql.append("\nPRAGMA user_version = ");
                sql.append(text::signed(m.version).as_str());
                sql.append(";");
                let write = Write::owned(sql, Vec::new());
                assert(write@.params =~= Seq::<ValueView>::empty());
                steps.push(Step { version: m.version, what: m.what, write });
            }
            i += 1;
        }
        assert(views.take(i as int) =~= views);
        Ok(steps)
    }
}

/// The migrations are numbered from one, each one higher than the one before it.
pub proof fn migrations_are_numbered(i: int)
    requires
        0 <= i < known().len(),
    ensures
        known()[i].version == i + 1,
        highest(known()) == known().len(),
{
    reveal_with_fuel(highest, 2);
}

/// Migrating is idempotent: a file that has been brought up to date lacks nothing.
pub proof fn migrating_twice_does_nothing(current: int)
    requires
        current >= highest(known()),
    ensures
        missing(known(), current).len() == 0,
{
    lemma_missing(known(), current);
}

proof fn lemma_missing(migrations: Seq<MigrationView>, version: int)
    requires
        version >= highest(migrations),
    ensures
        missing(migrations, version).len() == 0,
    decreases migrations.len(),
{
    if migrations.len() > 0 {
        lemma_missing(migrations.drop_last(), version);
    }
}

/// A step is the statements of its migration and then the version that they bring the file to, in
/// one write.
pub proof fn a_step_records_its_version(step: Step, migration: MigrationView)
    requires
        step.applies(migration),
    ensures
        step.version == migration.version,
        step.write.params@.len() == 0,
        step.write.sql@ == migration.sql + "\nPRAGMA user_version = "@ + decimal::integer_text(
            migration.version,
        ) + ";"@,
{
    assert(step.write@.params.len() == 0);
}

/// What a file lacks are the migrations of a version beyond its own, all of them and in order.
pub proof fn a_file_lacks_what_is_beyond_it(migrations: Seq<MigrationView>, version: int)
    ensures
        missing(migrations, version) == migrations.filter(
            |m: MigrationView| m.version > version,
        ),
    decreases migrations.len(),
{
    reveal(Seq::filter);
    if migrations.len() > 0 {
        a_file_lacks_what_is_beyond_it(migrations.drop_last(), version);
    }
    assert(missing(migrations, version) =~= migrations.filter(
        |m: MigrationView| m.version > version,
    ));
}

/// The highest version is that of one of the migrations, and none is beyond it.
pub proof fn no_migration_is_beyond_the_highest(migrations: Seq<MigrationView>)
    ensures
        forall|i: int|
            0 <= i < migrations.len() ==> (#[trigger] migrations[i]).version <= highest(migrations),
        highest(migrations) == 0 || exists|i: int|
            0 <= i < migrations.len() && (#[trigger] migrations[i]).version == highest(migrations),
        highest(migrations) >= 0,
    decreases migrations.len(),
{
    if migrations.len() > 0 {
        let rest = migrations.drop_last();
        no_migration_is_beyond_the_highest(rest);
        assert(migrations[migrations.len() - 1] == migrations.last());
        assert forall|i: int| 0 <= i < migrations.len() implies (#[trigger] migrations[i]).version
            <= highest(migrations) by {
            if i < rest.len() {
                assert(rest[i] == migrations[i]);
            }
        }
        if highest(rest) != 0 {
            let i = choose|i: int|
                0 <= i < rest.len() && (#[trigger] rest[i]).version == highest(rest);
            assert(migrations[i] == rest[i]);
        }
    }
}

/// A file that is not of the newest version is brought to it: the last step it lacks is the one
/// of the highest version.
pub proof fn the_last_step_is_the_newest(current: int)
    requires
        0 <= current < highest(known()),
    ensures
        missing(known(), current).len() > 0,
        missing(known(), current).last().version == highest(known()),
{
    reveal_with_fuel(highest, 2);
    reveal_with_fuel(missing, 2);
}

/// The common shape of a text parameter.
pub fn text(s: &str) -> (v: Value)
    ensures
        v@ == ValueView::Text(s@),
{
    Value::Text(s.to_owned())
}

} // verus!
