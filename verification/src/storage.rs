use crate::error::PlanError;
use crate::values::LiteralValue;
use vstd::prelude::*;

verus! {

/// Description of one column of a table. Rows are positionally aligned to
/// the table's column order.
#[derive(Debug)]
pub struct ColumnInfo {
    pub name: String,
}

/// One stored table: its name, its ordered columns, and its rows.
/// A row id is the position the row occupies in `rows`.
#[derive(Debug)]
pub struct Table {
    pub name: String,
    pub columns: Vec<ColumnInfo>,
    pub rows: Vec<Vec<LiteralValue>>,
}

/// A lazy, finite, forward-only sequence of row ids for one table,
/// exhausted once consumed; a new scan needs a new iterator.
#[derive(Debug)]
pub struct RowIdIterator {
    pub ids: Vec<u64>,
    pub pos: usize,
}

/// The schema catalog: an arena of table slots. Indices are stable for the
/// catalog's lifetime; dropping a table leaves a tombstone in its slot, so
/// the indices of the remaining tables do not shift.
#[derive(Debug)]
pub struct Schema {
    pub slots: Vec<Option<Table>>,
}

impl Table {
    /// The number of columns, which every row must span.
    pub open spec fn width(self) -> nat {
        self.columns@.len()
    }

    /// Every stored row holds exactly one value per column.
    pub open spec fn wf(self) -> bool {
        forall|i: int|
            0 <= i < self.rows@.len() ==> (#[trigger] self.rows@[i])@.len() == self.width()
    }

    /// The views of the stored rows, in storage order.
    pub open spec fn row_views(self) -> Seq<Seq<LiteralValue>> {
        Seq::new(self.rows@.len(), |i: int| self.rows@[i]@)
    }

    /// The id sequence a fresh row-id iterator walks: every stored row's id,
    /// in storage order.
    pub open spec fn rowid_seq(self) -> Seq<u64> {
        Seq::new(self.rows@.len(), |i: int| i as u64)
    }

    /// An empty table with the given name and columns.
    pub fn new(name: String, columns: Vec<ColumnInfo>) -> (t: Table)
        ensures
            t.name == name,
            t.columns == columns,
            t.rows@.len() == 0,
            t.wf(),
    {
        Table { name, columns, rows: Vec::new() }
    }

    /// The ordered column descriptors; their number is the row width.
    pub fn columns(&self) -> (r: &Vec<ColumnInfo>)
        ensures
            r == &self.columns,
    {
        &self.columns
    }

    /// A fresh iterator over this table's row ids, in storage order.
    pub fn rowid_iter(&self) -> (it: RowIdIterator)
        ensures
            it.wf(),
            it.remaining() == self.rowid_seq(),
    {
        let mut ids: Vec<u64> = Vec::new();
        let mut i: usize = 0;
        while i < self.rows.len()
            invariant
                i <= self.rows@.len(),
                ids@.len() == i,
                forall|j: int| 0 <= j < i ==> ids@[j] == j as u64,
            decreases self.rows@.len() - i,
        {
            ids.push(i as u64);
            i = i + 1;
        }
        let it = RowIdIterator { ids, pos: 0 };
        proof {
            assert(it.remaining() =~= self.rowid_seq());
        }
        it
    }

    /// Materialize the row with the given id, or report that no row has it.
    pub fn get_row(&self, row_id: u64) -> (r: Result<Vec<LiteralValue>, PlanError>)
        ensures
            r is Ok <==> row_id < self.rows@.len(),
            r is Ok ==> r->Ok_0@ == self.rows@[row_id as int]@,
            r is Err ==> r->Err_0 == PlanError::RowNotFound,
    {
        if row_id < self.rows.len() as u64 {
            let row = self.rows[row_id as usize].clone();
            proof {
                assert(row@ =~= self.rows@[row_id as int]@);
            }
            Ok(row)
        } else {
            Err(PlanError::RowNotFound)
        }
    }

    /// Append a row; the id it gets is the position it lands in.
    pub fn insert_row(&mut self, row: Vec<LiteralValue>) -> (id: u64)
        requires
            row@.len() == old(self).width(),
        ensures
            id == old(self).rows@.len(),
            final(self).name == old(self).name,
            final(self).columns == old(self).columns,
            final(self).rows@ == old(self).rows@.push(row),
            old(self).wf() ==> final(self).wf(),
    {
        let id = self.rows.len() as u64;
        self.rows.push(row);
        id
    }
}

impl RowIdIterator {
    /// The position never runs past the end of the id list.
    pub open spec fn wf(self) -> bool {
        self.pos <= self.ids@.len()
    }

    /// The ids not yet handed out, in order.
    pub open spec fn remaining(self) -> Seq<u64> {
        self.ids@.skip(self.pos as int)
    }

    /// Hand out the next id, or `None` once exhausted; exhaustion is a
    /// stable state, so every later call also returns `None`.
    pub fn next(&mut self) -> (r: Option<u64>)
        requires
            old(self).wf(),
        ensures
            final(self).wf(),
            old(self).remaining().len() == 0 ==> r is None && final(self).remaining()
                == old(self).remaining(),
            old(self).remaining().len() > 0 ==> r == Some(old(self).remaining()[0])
                && final(self).remaining() == old(self).remaining().skip(1),
    {
        if self.pos < self.ids.len() {
            let id = self.ids[self.pos];
            self.pos = self.pos + 1;
            proof {
                assert(self.remaining() =~= old(self).remaining().skip(1));
            }
            Some(id)
        } else {
            None
        }
    }
}

/// How a successful single-row insert relates the catalog before and after:
/// the table in slot `ti` gets `row` appended, keeping its name and columns;
/// every other slot is untouched.
pub open spec fn inserted_state(before: Schema, after: Schema, ti: int, row: Vec<LiteralValue>) -> bool {
    &&& after.slots@.len() == before.slots@.len()
    &&& forall|j: int|
        0 <= j < before.slots@.len() && j != ti ==> after.slots@[j] == before.slots@[j]
    &&& after.table_live(ti)
    &&& after.table_at(ti).name == before.table_at(ti).name
    &&& after.table_at(ti).columns == before.table_at(ti).columns
    &&& after.table_at(ti).rows@ == before.table_at(ti).rows@.push(row)
}

impl Schema {
    /// Whether `i` addresses a live (not dropped, in-range) table slot.
    pub open spec fn table_live(self, i: int) -> bool {
        0 <= i < self.slots@.len() && self.slots@[i] is Some
    }

    /// The table in slot `i`.
    pub open spec fn table_at(self, i: int) -> Table
        recommends
            self.table_live(i),
    {
        self.slots@[i]->0
    }

    /// Whether slot `i` holds a live table whose name reads `name`.
    pub open spec fn slot_named(self, i: int, name: Seq<char>) -> bool {
        self.table_live(i) && self.table_at(i).name@ == name
    }

    /// Whether some live table is named `name`.
    pub open spec fn has_table_named(self, name: Seq<char>) -> bool {
        exists|i: int| self.slot_named(i, name)
    }

    /// Every live table is well formed.
    pub open spec fn wf(self) -> bool {
        forall|i: int| #[trigger] self.table_live(i) ==> self.table_at(i).wf()
    }

    /// An empty catalog.
    pub fn new() -> (s: Schema)
        ensures
            s.slots@.len() == 0,
            s.wf(),
    {
        Schema { slots: Vec::new() }
    }

    /// Register a table; the index returned stays valid until the table is
    /// dropped.
    pub fn add_table(&mut self, table: Table) -> (i: usize)
        requires
            table.wf(),
        ensures
            i == old(self).slots@.len(),
            final(self).slots@ == old(self).slots@.push(Some(table)),
            old(self).wf() ==> final(self).wf(),
    {
        let i = self.slots.len();
        self.slots.push(Some(table));
        proof {
            if old(self).wf() {
                assert forall|j: int| #[trigger] self.table_live(j) implies self.table_at(
                    j,
                ).wf() by {
                    if j < i {
                        assert(old(self).table_live(j));
                    }
                }
            }
        }
        i
    }

    /// Drop the table in slot `i`, leaving a tombstone; every other slot is
    /// untouched, so the other tables keep their indices.
    pub fn drop_table(&mut self, i: usize)
        requires
            i < old(self).slots@.len(),
        ensures
            final(self).slots@ == old(self).slots@.update(i as int, None),
            old(self).wf() ==> final(self).wf(),
    {
        self.slots[i] = None;
        proof {
            if old(self).wf() {
                assert forall|j: int| #[trigger] self.table_live(j) implies self.table_at(
                    j,
                ).wf() by {
                    assert(old(self).table_live(j));
                }
            }
        }
    }

    /// Resolve a table name to its index; the lowest live slot with that
    /// name wins. Succeeds exactly when some live table has the name.
    pub fn find_table_or_err(&self, name: &String) -> (r: Result<usize, PlanError>)
        ensures
            r is Ok <==> self.has_table_named(name@),
            r is Ok ==> self.slot_named(r->Ok_0 as int, name@) && (forall|j: int|
                0 <= j < r->Ok_0 as int ==> !self.slot_named(j, name@)),
            r is Err ==> (r->Err_0 matches PlanError::TableNotFound(n) && n@ == name@),
    {
        let mut i: usize = 0;
        while i < self.slots.len()
            invariant
                i <= self.slots@.len(),
                forall|j: int| 0 <= j < i ==> !self.slot_named(j, name@),
            decreases self.slots@.len() - i,
        {
            match &self.slots[i] {
                Some(t) => {
                    if t.name == *name {
                        proof {
                            assert(self.slot_named(i as int, name@));
                        }
                        return Ok(i);
                    }
                },
                None => {},
            }
            i = i + 1;
        }
        Err(PlanError::TableNotFound(name.clone()))
    }

    /// Borrow the table in slot `i`, or report that the slot holds none.
    /// Succeeds exactly when the slot is live.
    pub fn table(&self, i: usize) -> (r: Result<&Table, PlanError>)
        ensures
            r is Ok <==> self.table_live(i as int),
            r is Ok ==> *r->Ok_0 == self.table_at(i as int),
            r is Err ==> r->Err_0 == PlanError::TableMissing,
    {
        if i < self.slots.len() {
            match &self.slots[i] {
                Some(t) => Ok(t),
                None => Err(PlanError::TableMissing),
            }
        } else {
            Err(PlanError::TableMissing)
        }
    }

    /// Insert a row into the table in slot `i`. The row must span one value
    /// per column of that table as it stands now; a mismatched row is
    /// refused and the catalog is left unchanged.
    pub fn insert_row_at(&mut self, i: usize, row: Vec<LiteralValue>) -> (r: Result<
        u64,
        PlanError,
    >)
        requires
            old(self).wf(),
        ensures
            final(self).wf(),
            !old(self).table_live(i as int) ==> {
                &&& r is Err
                &&& r->Err_0 == PlanError::TableMissing
                &&& *final(self) == *old(self)
            },
            old(self).table_live(i as int) && row@.len() != old(self).table_at(i as int).width()
                ==> {
                &&& r is Err
                &&& r->Err_0 == PlanError::RowWidthMismatch
                &&& *final(self) == *old(self)
            },
            old(self).table_live(i as int) && row@.len() == old(self).table_at(i as int).width()
                ==> {
                &&& r is Ok
                &&& r->Ok_0 == old(self).table_at(i as int).rows@.len()
                &&& inserted_state(*old(self), *final(self), i as int, row)
            },
    {
        if i >= self.slots.len() {
            return Err(PlanError::TableMissing);
        }
        match &self.slots[i] {
            Some(t) => {
                if row.len() != t.columns.len() {
                    return Err(PlanError::RowWidthMismatch);
                }
            },
            None => {
                return Err(PlanError::TableMissing);
            },
        }
        proof {
            assert(old(self).table_live(i as int));
        }
        match &mut self.slots[i] {
            Some(t) => {
                let id = t.insert_row(row);
                proof {
                    assert forall|j: int| #[trigger] self.table_live(j) implies self.table_at(
                        j,
                    ).wf() by {
                        if j != i {
                            assert(old(self).table_live(j));
                        }
                    }
                }
                Ok(id)
            },
            None => {
                proof {
                    assert(false);
                }
                Err(PlanError::TableMissing)
            },
        }
    }
}

} // verus!
