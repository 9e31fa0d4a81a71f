//! The counter table, kept in memory: what the three operations on the store
//! do to its rows.

use crate::structs::{Failure, Record, RecordView};
use vstd::prelude::*;
use vstd::string::StringExecFns;

verus! {

/// Whether a row is kept under `name`.
pub open spec fn holds(rows: Seq<RecordView>, name: Seq<char>) -> bool {
    exists|i: int| 0 <= i < rows.len() && (#[trigger] rows[i]).dir_name == name
}

/// Whether no two rows are kept under one name.
pub open spec fn unique_names(rows: Seq<RecordView>) -> bool {
    forall|i: int, j: int|
        0 <= i < j < rows.len() ==> (#[trigger] rows[i]).dir_name != (#[trigger] rows[j]).dir_name
}

/// The first row kept under `name`.
pub open spec fn row_of(rows: Seq<RecordView>, name: Seq<char>) -> Option<RecordView>
    decreases rows.len(),
{
    if rows.len() == 0 {
        None
    } else if rows[0].dir_name == name {
        Some(rows[0])
    } else {
        row_of(rows.drop_first(), name)
    }
}

/// Whether the table has an identifier left for one more row.
pub open spec fn has_room(rows: Seq<RecordView>) -> bool {
    rows.len() < i64::MAX
}

/// The row that is added for `name`: its identifier is its place in the
/// table, counted from 1.
pub open spec fn fresh_row(rows: Seq<RecordView>, name: Seq<char>, initial: i64) -> RecordView {
    RecordView { dir_id: (rows.len() + 1) as i64, dir_name: name, current_number: initial }
}

/// The rows after `name` was ensured with `initial`: a row is added only where
/// none is kept under `name` and the table has room.
pub open spec fn ensured(rows: Seq<RecordView>, name: Seq<char>, initial: i64) -> Seq<
    RecordView,
> {
    if !holds(rows, name) && has_room(rows) {
        rows.push(fresh_row(rows, name, initial))
    } else {
        rows
    }
}

/// The row `row` after `value` was persisted under `name`.
pub open spec fn rewritten(row: RecordView, name: Seq<char>, value: i64) -> RecordView {
    if row.dir_name == name {
        RecordView { dir_id: row.dir_id, dir_name: row.dir_name, current_number: value }
    } else {
        row
    }
}

/// The rows after `value` was persisted under `name`: every row kept under
/// `name` has `value` as its counter, and the others are as they were.
pub open spec fn persisted(rows: Seq<RecordView>, name: Seq<char>, value: i64) -> Seq<
    RecordView,
> {
    Seq::new(rows.len(), |i: int| rewritten(rows[i], name, value))
}

/// A counter table in memory.
pub struct Table {
    rows: Vec<Record>,
}

impl View for Table {
    type V = Seq<RecordView>;

    closed spec fn view(&self) -> Seq<RecordView> {
        self.rows@.map_values(|row: Record| row@)
    }
}

impl Table {
    /// Whether the table is well formed: no two rows are kept under one name.
    pub open spec fn wf(&self) -> bool {
        unique_names(self@)
    }

    /// A table without rows.
    pub fn new() -> (r: Table)
        ensures
            r@ == Seq::<RecordView>::empty(),
            r.wf(),
    {
        let r = Table { rows: Vec::new() };
        assert(r@ =~= Seq::<RecordView>::empty());
        r
    }

    /// Where the first row kept under `name` stands.
    fn position(&self, name: &String) -> (r: Option<usize>)
        ensures
            r is Some <==> holds(self@, name@),
            r matches Some(i) ==> i < self@.len() && row_of(self@, name@) == Some(self@[i as int])
                && self.rows@[i as int]@ == self@[i as int],
            r is None ==> row_of(self@, name@) is None,
    {
        let mut i: usize = 0;
        assert(self@.skip(0) =~= self@);
        while i < self.rows.len()
            invariant
                i <= self.rows@.len(),
                self@.len() == self.rows@.len(),
                forall|j: int| 0 <= j < i ==> (#[trigger] self@[j]).dir_name != name@,
                row_of(self@, name@) == row_of(self@.skip(i as int), name@),
            decreases self.rows@.len() - i,
        {
            assert(self@.skip(i as int)[0] == self@[i as int]);
            assert(self@[i as int] == self.rows@[i as int]@);
            if self.rows[i].dir_name == *name {
                return Some(i);
            }
            assert(self@.skip(i as int).drop_first() =~= self@.skip(i + 1));
            i += 1;
        }
        assert(self@.skip(i as int) =~= Seq::<RecordView>::empty());
        None
    }

    /// Adds a row for `dir_name` with `initial` as its counter, unless a row
    /// is kept under that name already: then nothing changes. The one way to
    /// fail is a table with no identifier left for a new row.
    pub fn ensure(&mut self, dir_name: &str, initial: i64) -> (r: Result<(), Failure>)
        requires
            old(self).wf(),
        ensures
            final(self).wf(),
            final(self)@ == ensured(old(self)@, dir_name@, initial),
            r is Ok <==> holds(old(self)@, dir_name@) || has_room(old(self)@),
            r is Err ==> r == Err::<(), Failure>(Failure::StorageWrite),
    {
        let name = String::from_str(dir_name);
        if self.position(&name).is_some() {
            return Ok(());
        }
        let count = self.rows.len();
        if count as u64 >= i64::MAX as u64 {
            return Err(Failure::StorageWrite);
        }
        let row = Record { dir_id: count as i64 + 1, dir_name: name, current_number: initial };
        proof {
            let before = self@;
            let added = before.push(row@);
            assert(self.rows@.push(row).map_values(|row: Record| row@) =~= added);
            assert forall|i: int, j: int| 0 <= i < j < added.len() implies (#[trigger] added[i]).dir_name
                != (#[trigger] added[j]).dir_name by {
                if j == before.len() {
                    assert(before[i].dir_name != dir_name@);
                }
            }
        }
        self.rows.push(row);
        Ok(())
    }

    /// The row kept under `dir_name`. There is none to give where no row is
    /// kept under that name.
    pub fn fetch(&self, dir_name: &str) -> (r: Result<Record, Failure>)
        ensures
            match r {
                Ok(row) => row_of(self@, dir_name@) == Some(row@) && row@.dir_name == dir_name@,
                Err(failure) => failure == Failure::NotFound && !holds(self@, dir_name@),
            },
    {
        let name = String::from_str(dir_name);
        match self.position(&name) {
            Some(i) => {
                let row = &self.rows[i];
                proof {
                    lemma_row_of_is_kept_under(self@, dir_name@);
                }
                Ok(
                    Record {
                        dir_id: row.dir_id,
                        dir_name: row.dir_name.clone(),
                        current_number: row.current_number,
                    },
                )
            },
            None => Err(Failure::NotFound),
        }
    }

    /// Writes `value` as the counter of every row kept under `dir_name`.
    /// Where no row is kept under that name, nothing changes and nothing is
    /// reported.
    pub fn persist(&mut self, dir_name: &str, value: i64)
        requires
            old(self).wf(),
        ensures
            final(self).wf(),
            final(self)@ == persisted(old(self)@, dir_name@, value),
    {
        let name = String::from_str(dir_name);
        let count = self.rows.len();
        let mut i: usize = 0;
        while i < count
            invariant
                i <= count,
                count == self.rows@.len(),
                count == old(self)@.len(),
                self@.len() == count,
                name@ == dir_name@,
                forall|j: int|
                    0 <= j < i ==> #[trigger] self@[j] == rewritten(old(self)@[j], dir_name@, value),
                forall|j: int| i <= j < count ==> #[trigger] self@[j] == old(self)@[j],
            decreases count - i,
        {
            assert(self@[i as int] == self.rows@[i as int]@);
            if self.rows[i].dir_name == name {
                let row = Record {
                    dir_id: self.rows[i].dir_id,
                    dir_name: self.rows[i].dir_name.clone(),
                    current_number: value,
                };
                let ghost before = self@;
                self.rows.set(i, row);
                assert(self@ =~= before.update(i as int, row@));
            }
            i += 1;
        }
        assert(self@ =~= persisted(old(self)@, dir_name@, value));
        proof {
            lemma_persist_keeps_names(old(self)@, dir_name@, value);
        }
    }

    /// How many rows the table has.
    pub fn len(&self) -> (r: usize)
        ensures
            r == self@.len(),
    {
        self.rows.len()
    }
}

/// The row found under a name is kept under that name, and a row is found
/// exactly where one is kept.
pub proof fn lemma_row_of_is_kept_under(rows: Seq<RecordView>, name: Seq<char>)
    ensures
        row_of(rows, name) is Some <==> holds(rows, name),
        row_of(rows, name) matches Some(row) ==> row.dir_name == name && rows.contains(row),
    decreases rows.len(),
{
    if rows.len() > 0 {
        let tail = rows.drop_first();
        lemma_row_of_is_kept_under(tail, name);
        if rows[0].dir_name != name {
            if holds(tail, name) {
                let i = choose|i: int| 0 <= i < tail.len() && (#[trigger] tail[i]).dir_name == name;
                assert(rows[i + 1] == tail[i]);
            }
            if holds(rows, name) {
                let i = choose|i: int| 0 <= i < rows.len() && (#[trigger] rows[i]).dir_name == name;
                assert(tail[i - 1] == rows[i]);
            }
            if let Some(row) = row_of(rows, name) {
                let k = choose|k: int| 0 <= k < tail.len() && tail[k] == row;
                assert(rows[k + 1] == row);
            }
        } else {
            assert(rows[0] == rows[0]);
        }
    }
}

/// Persisting a counter changes no name and no identifier, so the rows stay
/// apart and the same names are kept.
pub proof fn lemma_persist_keeps_names(rows: Seq<RecordView>, name: Seq<char>, value: i64)
    ensures
        persisted(rows, name, value).len() == rows.len(),
        forall|i: int|
            0 <= i < rows.len() ==> (#[trigger] persisted(rows, name, value)[i]).dir_name
                == rows[i].dir_name && persisted(rows, name, value)[i].dir_id == rows[i].dir_id,
        unique_names(rows) ==> unique_names(persisted(rows, name, value)),
        forall|other: Seq<char>| holds(rows, other) <==> holds(persisted(rows, name, value), other),
{
    let after = persisted(rows, name, value);
    assert forall|other: Seq<char>| holds(rows, other) <==> holds(after, other) by {
        if holds(rows, other) {
            let i = choose|i: int| 0 <= i < rows.len() && (#[trigger] rows[i]).dir_name == other;
            assert(after[i].dir_name == other);
        }
        if holds(after, other) {
            let i = choose|i: int| 0 <= i < after.len() && (#[trigger] after[i]).dir_name == other;
            assert(rows[i].dir_name == other);
        }
    }
    if unique_names(rows) {
        assert forall|i: int, j: int| 0 <= i < j < after.len() implies (#[trigger] after[i]).dir_name
            != (#[trigger] after[j]).dir_name by {
            assert(rows[i].dir_name != rows[j].dir_name);
        }
    }
}

/// Ensuring a name twice is ensuring it once: the second call adds no row and
/// leaves every counter as it is, whatever value it brings.
pub proof fn lemma_ensure_idempotent(
    rows: Seq<RecordView>,
    name: Seq<char>,
    first: i64,
    second: i64,
)
    ensures
        ensured(ensured(rows, name, first), name, second) == ensured(rows, name, first),
{
    let once = ensured(rows, name, first);
    if !holds(rows, name) && has_room(rows) {
        assert(once[rows.len() as int].dir_name == name);
    }
}

/// Ensuring a name never puts two rows under one name.
pub proof fn lemma_ensure_keeps_rows_apart(rows: Seq<RecordView>, name: Seq<char>, initial: i64)
    requires
        unique_names(rows),
    ensures
        unique_names(ensured(rows, name, initial)),
{
    let after = ensured(rows, name, initial);
    assert forall|i: int, j: int| 0 <= i < j < after.len() implies (#[trigger] after[i]).dir_name
        != (#[trigger] after[j]).dir_name by {
        if j == rows.len() {
            assert(rows[i].dir_name != name);
        }
    }
}

/// Ensuring a name that has a row changes nothing: the counter that is kept
/// is not overwritten.
pub proof fn lemma_ensure_never_overwrites(rows: Seq<RecordView>, name: Seq<char>, initial: i64)
    requires
        holds(rows, name),
    ensures
        ensured(rows, name, initial) == rows,
        row_of(ensured(rows, name, initial), name) == row_of(rows, name),
{
}

/// A name that was ensured in a table with room has a row: the one that was
/// kept before, or a new one with the initial counter.
pub proof fn lemma_ensured_is_kept(rows: Seq<RecordView>, name: Seq<char>, initial: i64)
    requires
        has_room(rows) || holds(rows, name),
    ensures
        holds(ensured(rows, name, initial), name),
        !holds(rows, name) ==> row_of(ensured(rows, name, initial), name) == Some(
            fresh_row(rows, name, initial),
        ),
{
    let after = ensured(rows, name, initial);
    if !holds(rows, name) {
        assert(after[rows.len() as int].dir_name == name);
        lemma_row_of_appended(rows, fresh_row(rows, name, initial));
    }
}

/// In a table that keeps no row under a name, a row appended under that name
/// is the one found.
pub proof fn lemma_row_of_appended(rows: Seq<RecordView>, row: RecordView)
    requires
        !holds(rows, row.dir_name),
    ensures
        row_of(rows.push(row), row.dir_name) == Some(row),
    decreases rows.len(),
{
    let after = rows.push(row);
    if rows.len() > 0 {
        assert(rows[0].dir_name != row.dir_name);
        assert(after.drop_first() =~= rows.drop_first().push(row));
        assert(!holds(rows.drop_first(), row.dir_name)) by {
            if holds(rows.drop_first(), row.dir_name) {
                let i = choose|i: int|
                    0 <= i < rows.drop_first().len() && (#[trigger] rows.drop_first()[i]).dir_name
                        == row.dir_name;
                assert(rows[i + 1].dir_name == row.dir_name);
            }
        }
        lemma_row_of_appended(rows.drop_first(), row);
    } else {
        assert(after[0] == row);
    }
}

/// After a counter was persisted under a name, the row found under that name
/// holds it, with the identifier it had.
pub proof fn lemma_persisted_is_fetched(rows: Seq<RecordView>, name: Seq<char>, value: i64)
    ensures
        match row_of(rows, name) {
            Some(row) => row_of(persisted(rows, name, value), name) == Some(
                RecordView { dir_id: row.dir_id, dir_name: name, current_number: value },
            ),
            None => row_of(persisted(rows, name, value), name) is None,
        },
    decreases rows.len(),
{
    let after = persisted(rows, name, value);
    if rows.len() > 0 {
        assert(after.drop_first() =~= persisted(rows.drop_first(), name, value));
        lemma_persisted_is_fetched(rows.drop_first(), name, value);
    }
}

} // verus!
