//! Integrity, recovery and upkeep of a database file.
//!
//! A core that starts against a corrupt database has no way to know which of its rows are real, so
//! the file is checked at startup and a failed check stops the core. The broken file is moved
//! aside and not deleted: the rows in it are the only record of what happened before the crash.

use crate::decimal;
use crate::table;
use crate::text;
use vstd::prelude::*;

verus! {

/// What the integrity check found.
#[derive(Debug, PartialEq, Eq)]
pub enum Health {
    Sound,
    /// SQLite reported problems. The texts are its own, kept as they are.
    Corrupt(Vec<String>),
    /// The file could not be opened or read at all.
    Unreadable(String),
}

impl Health {
    pub fn is_ok(&self) -> (r: bool)
        ensures
            r == (*self is Sound),
    {
        match self {
            Health::Sound => true,
            _ => false,
        }
    }
}

/// The first row that could not be read, told by its error.
pub open spec fn first_error(rows: Seq<Result<String, String>>) -> Option<Seq<char>>
    decreases rows.len(),
{
    if rows.len() == 0 {
        None
    } else if first_error(rows.drop_last()) is Some {
        first_error(rows.drop_last())
    } else {
        match rows.last() {
            Ok(_) => None,
            Err(e) => Some(e@),
        }
    }
}

/// The problems among the rows of a check: everything but `ok`.
pub open spec fn problems(rows: Seq<Result<String, String>>) -> Seq<Seq<char>>
    decreases rows.len(),
{
    if rows.len() == 0 {
        Seq::empty()
    } else {
        match rows.last() {
            Ok(t) => if t@ == "ok"@ {
                problems(rows.drop_last())
            } else {
                problems(rows.drop_last()).push(t@)
            },
            Err(_) => problems(rows.drop_last()),
        }
    }
}

/// Whether a finding is what rows of a check say.
pub open spec fn finds(rows: Seq<Result<String, String>>, health: Health) -> bool {
    match first_error(rows) {
        Some(e) => health matches Health::Unreadable(why) && why@ == e,
        None => if problems(rows).len() == 0 {
            health is Sound
        } else {
            health matches Health::Corrupt(found) && table::texts(found@) == problems(rows)
        },
    }
}

/// What the rows of a quick check say of a file; `Err` where the check could not be run.
pub fn check(rows: Result<Vec<Result<String, String>>, String>) -> (r: Health)
    ensures
        match rows {
            Err(e) => r matches Health::Unreadable(why) && why@ == e@,
            Ok(rows) => finds(rows@, r),
        },
{
    match rows {
        Ok(rows) => findings(&rows),
        Err(e) => Health::Unreadable(e),
    }
}

fn findings(rows: &Vec<Result<String, String>>) -> (r: Health)
    ensures
        finds(rows@, r),
{
    let mut found: Vec<String> = Vec::new();
    let mut i: usize = 0;
    assert(rows@.take(0) =~= Seq::<Result<String, String>>::empty());
    assert(table::texts(found@) =~= Seq::<Seq<char>>::empty());
    while i < rows.len()
        invariant
            i <= rows@.len(),
            first_error(rows@.take(i as int)) is None,
            table::texts(found@) == problems(rows@.take(i as int)),
        decreases rows@.len() - i,
    {
        assert(rows@.take(i + 1).drop_last() =~= rows@.take(i as int));
        match &rows[i] {
            Ok(t) => {
                if !text::same(t.as_str(), "ok") {
                    let ghost before = found@;
                    found.push(t.clone());
                    assert(table::texts(found@) =~= table::texts(before).push(t@));
                }
            },
            Err(e) => {
                proof {
                    lemma_first_error(rows@, i as int);
                }
                return Health::Unreadable(e.clone());
            },
        }
        i += 1;
    }
    assert(rows@.take(i as int) =~= rows@);
    if found.len() == 0 {
        assert(problems(rows@).len() == found@.len());
        Health::Sound
    } else {
        assert(problems(rows@).len() == found@.len());
        Health::Corrupt(found)
    }
}

/// What is the first error of the rows up to one is the first error of all of them.
proof fn lemma_first_error(rows: Seq<Result<String, String>>, i: int)
    requires
        0 <= i < rows.len(),
        first_error(rows.take(i + 1)) is Some,
    ensures
        first_error(rows) == first_error(rows.take(i + 1)),
    decreases rows.len(),
{
    if i == rows.len() - 1 {
        assert(rows.take(i + 1) =~= rows);
    } else {
        assert(rows.drop_last().take(i + 1) =~= rows.take(i + 1));
        lemma_first_error(rows.drop_last(), i);
    }
}

/// A file that could not be read in full is never reported healthy, and neither is one that has a
/// problem.
pub proof fn no_problem_is_passed_over(rows: Seq<Result<String, String>>, i: int)
    requires
        0 <= i < rows.len(),
        match rows[i] {
            Ok(t) => t@ != "ok"@,
            Err(_) => true,
        },
    ensures
        first_error(rows) is Some || problems(rows).len() > 0,
    decreases rows.len(),
{
    if i < rows.len() - 1 {
        assert(rows.drop_last()[i] == rows[i]);
        no_problem_is_passed_over(rows.drop_last(), i);
    }
}

/// A file is found sound exactly where every row of the check says `ok`. Where a row could not be
/// read, the first such row says why. Else every row that says anything else is a problem.
pub proof fn a_file_is_what_its_rows_say(rows: Seq<Result<String, String>>, health: Health)
    requires
        finds(rows, health),
    ensures
        health is Sound <==> forall|i: int|
            0 <= i < rows.len() ==> (#[trigger] rows[i] matches Ok(t) && t@ == "ok"@),
        health is Unreadable <==> exists|i: int| 0 <= i < rows.len() && (#[trigger] rows[i]) is Err,
        health matches Health::Unreadable(why) ==> exists|i: int|
            0 <= i < rows.len() && (#[trigger] rows[i] matches Err(e) && e@ == why@) && forall|
                j: int,
            |
                0 <= j < i ==> (#[trigger] rows[j]) is Ok,
        health matches Health::Corrupt(found) ==> table::texts(found@) == rows.filter(
            |r: Result<String, String>| r is Ok && r->Ok_0@ != "ok"@,
        ).map_values(|r: Result<String, String>| r->Ok_0@),
{
    lemma_first_error_is_first(rows);
    lemma_problems(rows);
    if forall|i: int| 0 <= i < rows.len() ==> (#[trigger] rows[i] matches Ok(t) && t@ == "ok"@) {
        lemma_all_well(rows);
    } else {
        let i = choose|i: int|
            0 <= i < rows.len() && !(#[trigger] rows[i] matches Ok(t) && t@ == "ok"@);
        no_problem_is_passed_over(rows, i);
    }
}

proof fn lemma_first_error_is_first(rows: Seq<Result<String, String>>)
    ensures
        match first_error(rows) {
            Some(why) => exists|i: int|
                0 <= i < rows.len() && (#[trigger] rows[i] matches Err(e) && e@ == why) && forall|
                    j: int,
                |
                    0 <= j < i ==> (#[trigger] rows[j]) is Ok,
            None => forall|i: int| 0 <= i < rows.len() ==> (#[trigger] rows[i]) is Ok,
        },
    decreases rows.len(),
{
    if rows.len() > 0 {
        let rest = rows.drop_last();
        lemma_first_error_is_first(rest);
        assert(rows[rows.len() - 1] == rows.last());
        if first_error(rest) is Some {
            let why = first_error(rest)->0;
            let i = choose|i: int|
                0 <= i < rest.len() && (#[trigger] rest[i] matches Err(e) && e@ == why) && forall|
                    j: int,
                |
                    0 <= j < i ==> (#[trigger] rest[j]) is Ok;
            assert(rows[i] == rest[i]);
            assert forall|j: int| 0 <= j < i implies (#[trigger] rows[j]) is Ok by {
                assert(rest[j] is Ok);
            }
        } else {
            assert forall|j: int| 0 <= j < rest.len() implies (#[trigger] rows[j]) is Ok by {
                assert(rest[j] is Ok);
            }
        }
    }
}

proof fn lemma_problems(rows: Seq<Result<String, String>>)
    ensures
        problems(rows) == rows.filter(
            |r: Result<String, String>| r is Ok && r->Ok_0@ != "ok"@,
        ).map_values(|r: Result<String, String>| r->Ok_0@),
    decreases rows.len(),
{
    reveal(Seq::filter);
    if rows.len() > 0 {
        lemma_problems(rows.drop_last());
    }
    assert(problems(rows) =~= rows.filter(
        |r: Result<String, String>| r is Ok && r->Ok_0@ != "ok"@,
    ).map_values(|r: Result<String, String>| r->Ok_0@));
}

proof fn lemma_all_well(rows: Seq<Result<String, String>>)
    requires
        forall|i: int|
            0 <= i < rows.len() ==> (#[trigger] rows[i] matches Ok(t) && t@ == "ok"@),
    ensures
        first_error(rows) is None,
        problems(rows).len() == 0,
    decreases rows.len(),
{
    if rows.len() > 0 {
        let rest = rows.drop_last();
        assert forall|i: int| 0 <= i < rest.len() implies (#[trigger] rest[i] matches Ok(t) && t@
            == "ok"@) by {
            assert(rest[i] == rows[i]);
        }
        lemma_all_well(rest);
        assert(rows[rows.len() - 1] == rows.last());
    }
}

/// Where broken files are put, next to the database.
pub const QUARANTINE: &'static str = "corrupt";

/// A name within a folder. No folder is the one that the process runs in.
pub open spec fn joined(folder: Seq<char>, name: Seq<char>) -> Seq<char> {
    if folder.len() == 0 || folder.last() == '/' {
        folder + name
    } else {
        folder.push('/') + name
    }
}

fn join(folder: &str, name: &str) -> (r: String)
    ensures
        r@ == joined(folder@, name@),
{
    let mut r = folder.to_owned();
    let n: usize = folder.unicode_len();
    if n > 0 && folder.get_char(n - 1) != '/' {
        r.push('/');
    }
    r.append(name);
    r
}

/// The folder of one recovery of a database in a folder.
pub open spec fn quarantine(folder: Seq<char>, now_ms: int) -> Seq<char> {
    joined(joined(folder, QUARANTINE@), decimal::integer_text(now_ms))
}

/// The folder of one recovery, named by its moment, so that several recoveries do not overwrite
/// each other.
pub fn quarantine_folder(folder: &str, now_ms: i64) -> (r: String)
    ensures
        r@ == quarantine(folder@, now_ms as int),
{
    let corrupt = join(folder, QUARANTINE);
    join(corrupt.as_str(), text::signed(now_ms).as_str())
}

/// Where a broken file is put: under its own name, in the folder of the recovery.
pub fn quarantine_place(folder: &str, now_ms: i64, name: &str) -> (r: String)
    ensures
        r@ == joined(quarantine(folder@, now_ms as int), name@),
{
    join(quarantine_folder(folder, now_ms).as_str(), name)
}

/// A broken file goes into a folder named by the moment, in a folder of such folders next to the
/// database, and keeps its name.
pub proof fn a_broken_file_is_put_aside(folder: Seq<char>, now_ms: int, name: Seq<char>)
    ensures
        ({
            let front = if folder.len() == 0 || folder.last() == '/' {
                folder
            } else {
                folder + "/"@
            };
            &&& quarantine(folder, now_ms) == front + "corrupt/"@ + decimal::integer_text(now_ms)
            &&& joined(quarantine(folder, now_ms), name) == front + "corrupt/"@
                + decimal::integer_text(now_ms) + "/"@ + name
        }),
{
    reveal_strlit("/");
    reveal_strlit("corrupt/");
    reveal_strlit("corrupt");
    lemma_quarantine(folder, now_ms);
    let front = if folder.len() == 0 || folder.last() == '/' {
        folder
    } else {
        folder + "/"@
    };
    assert(QUARANTINE@ == "corrupt"@);
    assert(joined(folder, QUARANTINE@).push('/') =~= front + "corrupt/"@);
    assert(quarantine(folder, now_ms) =~= front + "corrupt/"@ + decimal::integer_text(now_ms));
    assert(joined(quarantine(folder, now_ms), name) =~= front + "corrupt/"@ + decimal::integer_text(
        now_ms,
    ) + "/"@ + name);
}

/// Two recoveries at different moments go to different places.
pub proof fn recoveries_do_not_collide(folder: Seq<char>, name: Seq<char>, a: i64, b: i64)
    requires
        a != b,
    ensures
        quarantine(folder, a as int) != quarantine(folder, b as int),
        joined(quarantine(folder, a as int), name) != joined(quarantine(folder, b as int), name),
{
    lemma_quarantine(folder, a as int);
    lemma_quarantine(folder, b as int);
    let (x, y) = (decimal::integer_text(a as int), decimal::integer_text(b as int));
    let front = joined(folder, QUARANTINE@).push('/');
    let (p, q) = (quarantine(folder, a as int), quarantine(folder, b as int));
    if p == q {
        assert(x =~= p.skip(front.len() as int));
        assert(y =~= q.skip(front.len() as int));
        decimal::lemma_integer_text_apart(a as int, b as int);
    }
    if joined(p, name) == joined(q, name) {
        let (u, v) = (joined(p, name), joined(q, name));
        assert(u.len() == p.len() + 1 + name.len());
        assert(v.len() == q.len() + 1 + name.len());
        assert(p =~= u.take(p.len() as int));
        assert(q =~= v.take(q.len() as int));
    }
}

/// The folder of a recovery ends with its moment.
proof fn lemma_quarantine(folder: Seq<char>, now_ms: int)
    ensures
        quarantine(folder, now_ms) == joined(folder, QUARANTINE@).push('/')
            + decimal::integer_text(now_ms),
        quarantine(folder, now_ms).len() > 0,
        quarantine(folder, now_ms).last() != '/',
{
    reveal_strlit("corrupt");
    let corrupt = joined(folder, QUARANTINE@);
    assert(QUARANTINE@.last() == 't');
    assert(corrupt.last() == 't');
    let digits = decimal::integer_text(now_ms);
    decimal::lemma_integer_text_ends(now_ms);
    assert(quarantine(folder, now_ms).last() == digits.last());
}

/// A file and the two that SQLite keeps next to it: the write-ahead log and the shared memory.
/// Their names are the name of the file with something appended.
pub open spec fn companions(path: Seq<char>) -> Seq<Seq<char>> {
    seq![path, path + "-wal"@, path + "-shm"@]
}

pub fn files_of(path: &str) -> (r: Vec<String>)
    ensures
        table::texts(r@) == companions(path@),
        r@.len() == 3,
        r@[0]@ == path@,
        r@[1]@ == path@ + "-wal"@,
        r@[2]@ == path@ + "-shm"@,
{
    let mut wal = path.to_owned();
    wal.append("-wal");
    let mut shm = path.to_owned();
    shm.append("-shm");
    let r = vec![path.to_owned(), wal, shm];
    assert(table::texts(r@) =~= companions(path@));
    r
}

/// What to move, and where to.
#[derive(Debug, PartialEq, Eq)]
pub struct Move {
    pub from: String,
    pub to: String,
}

/// Where a broken file was put, and what replaced it.
#[derive(Debug, PartialEq, Eq)]
pub struct Recovered {
    /// The corrupt file, moved rather than deleted.
    pub quarantined: String,
    /// How much of it was salvaged into the fresh database: nothing so far.
    pub rows_recovered: u64,
}

/// A recovery: the moves of the file and of whatever stands next to it, and what there is when
/// they are made. A log left behind would be replayed onto the fresh database, which was not
/// written for it.
pub fn recover(path: &str, moved: &str) -> (r: (Vec<Move>, Recovered))
    ensures
        r.0@.len() == 3,
        forall|i: int|
            0 <= i < 3 ==> (#[trigger] r.0@[i]).from@ == companions(path@)[i] && r.0@[i].to@
                == companions(moved@)[i],
        r.1.quarantined@ == moved@,
        r.1.rows_recovered == 0,
{
    let from = files_of(path);
    let to = files_of(moved);
    assert(from@.len() == table::texts(from@).len());
    assert(to@.len() == table::texts(to@).len());
    let mut r: Vec<Move> = Vec::new();
    let mut i: usize = 0;
    while i < 3
        invariant
            i <= 3,
            from@.len() == 3,
            to@.len() == 3,
            table::texts(from@) == companions(path@),
            table::texts(to@) == companions(moved@),
            r@.len() == i,
            forall|j: int|
                0 <= j < i ==> (#[trigger] r@[j]).from@ == companions(path@)[j] && r@[j].to@
                    == companions(moved@)[j],
        decreases 3 - i,
    {
        assert(table::texts(from@)[i as int] == from@[i as int]@);
        assert(table::texts(to@)[i as int] == to@[i as int]@);
        r.push(Move { from: from[i].clone(), to: to[i].clone() });
        i += 1;
    }
    (r, Recovered { quarantined: moved.to_owned(), rows_recovered: 0 })
}

/// What an operator's disk holds: the database with its log and its shared memory. With a store
/// open the main file alone can grow while the total falls.
pub fn total_size(main: u64, wal: u64, shm: u64) -> (r: u64)
    requires
        main + wal + shm <= u64::MAX,
    ensures
        r == main + wal + shm,
{
    main + wal + shm
}

/// What a vacuum gave back, nothing where the files have grown meanwhile.
pub fn vacuum(before: u64, after: u64) -> (r: u64)
    ensures
        r == if before > after {
            before - after
        } else {
            0
        },
{
    if before > after {
        before - after
    } else {
        0
    }
}

} // verus!
