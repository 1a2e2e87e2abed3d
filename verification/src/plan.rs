use crate::error::PlanError;
use crate::ir::{ColumnRef, InsertIr, SelectFromTable, SelectStmt};
use crate::storage::{inserted_state, RowIdIterator, Schema, Table};
use crate::values::LiteralValue;
use vstd::prelude::*;

verus! {

/// A full-table scan: the resolved table index plus a snapshot of the
/// table's row-id sequence. The table itself is not held across calls; it
/// is re-resolved through the catalog on every pull, so the catalog may be
/// mutated freely between pulls, and a dropped table surfaces as a clean
/// fault rather than stale state.
#[derive(Debug)]
pub struct FullTableScan {
    pub table_index: usize,
    pub table_iter: RowIdIterator,
}

impl FullTableScan {
    pub open spec fn wf(self) -> bool {
        self.table_iter.wf()
    }

    /// The row ids this scan has not yet pulled, in order.
    pub open spec fn remaining(self) -> Seq<u64> {
        self.table_iter.remaining()
    }

    /// Build a scan: resolve the name to the lowest live slot carrying it,
    /// and snapshot that table's row-id sequence. Succeeds exactly when a
    /// live table has the name; no plan object is built otherwise.
    pub fn new(table_name: String, schema: &mut Schema) -> (r: Result<FullTableScan, PlanError>)
        ensures
            *final(schema) == *old(schema),
            r is Ok <==> old(schema).has_table_named(table_name@),
            r is Ok ==> {
                let scan = r->Ok_0;
                &&& scan.wf()
                &&& old(schema).slot_named(scan.table_index as int, table_name@)
                &&& forall|j: int|
                    0 <= j < scan.table_index as int ==> !old(schema).slot_named(j, table_name@)
                &&& scan.remaining() == old(schema).table_at(scan.table_index as int).rowid_seq()
            },
            r is Err ==> (r->Err_0 matches PlanError::TableNotFound(n) && n@ == table_name@),
    {
        let table_index = match schema.find_table_or_err(&table_name) {
            Ok(i) => i,
            Err(e) => {
                return Err(e);
            },
        };
        let iterator = match schema.table(table_index) {
            Ok(t) => t.rowid_iter(),
            Err(e) => {
                return Err(e);
            },
        };
        Ok(FullTableScan { table_index, table_iter: iterator })
    }

    /// Pull the next row. `Ok(None)` signals a completed scan and is a
    /// stable outcome: every later pull signals it again. Otherwise one id
    /// is consumed, the table is re-resolved by index, and the row that id
    /// addresses is materialized; a vacated slot or a missing row surfaces
    /// as the corresponding fault.
    pub fn get_next_row(&mut self, schema: &mut Schema) -> (r: Result<
        Option<Vec<LiteralValue>>,
        PlanError,
    >)
        requires
            old(self).wf(),
            old(schema).wf(),
        ensures
            final(self).wf(),
            *final(schema) == *old(schema),
            final(self).table_index == old(self).table_index,
            old(self).remaining().len() == 0 ==> {
                &&& r is Ok
                &&& r->Ok_0 is None
                &&& final(self).remaining() == old(self).remaining()
            },
            old(self).remaining().len() > 0 ==> {
                let id = old(self).remaining()[0];
                let ti = old(self).table_index as int;
                &&& final(self).remaining() == old(self).remaining().skip(1)
                &&& if !old(schema).table_live(ti) {
                    r == Err::<Option<Vec<LiteralValue>>, PlanError>(PlanError::TableMissing)
                } else if id >= old(schema).table_at(ti).rows@.len() {
                    r == Err::<Option<Vec<LiteralValue>>, PlanError>(PlanError::RowNotFound)
                } else {
                    &&& r is Ok
                    &&& r->Ok_0 is Some
                    &&& r->Ok_0->0@ == old(schema).table_at(ti).rows@[id as int]@
                    &&& r->Ok_0->0@.len() == old(schema).table_at(ti).width()
                }
            },
    {
        let row_id = match self.table_iter.next() {
            Some(id) => id,
            None => {
                return Ok(None);
            },
        };
        let table = match schema.table(self.table_index) {
            Ok(t) => t,
            Err(e) => {
                return Err(e);
            },
        };
        match table.get_row(row_id) {
            Ok(row) => Ok(Some(row)),
            Err(e) => Err(e),
        }
    }
}

/// The caller-facing handle over a scan plan. It owns the scan outright and
/// borrows the catalog only for the duration of each pull.
#[derive(Debug)]
pub struct ResultSet {
    pub table_scan: FullTableScan,
}

impl ResultSet {
    pub open spec fn wf(self) -> bool {
        self.table_scan.wf()
    }

    /// The row ids the underlying scan has not yet pulled.
    pub open spec fn remaining(self) -> Seq<u64> {
        self.table_scan.remaining()
    }

    /// Pull the next row of the result; see `FullTableScan::get_next_row`.
    pub fn get_next_row(&mut self, schema: &mut Schema) -> (r: Result<
        Option<Vec<LiteralValue>>,
        PlanError,
    >)
        requires
            old(self).wf(),
            old(schema).wf(),
        ensures
            final(self).wf(),
            *final(schema) == *old(schema),
            final(self).table_scan.table_index == old(self).table_scan.table_index,
            old(self).remaining().len() == 0 ==> {
                &&& r is Ok
                &&& r->Ok_0 is None
                &&& final(self).remaining() == old(self).remaining()
            },
            old(self).remaining().len() > 0 ==> {
                let id = old(self).remaining()[0];
                let ti = old(self).table_scan.table_index as int;
                &&& final(self).remaining() == old(self).remaining().skip(1)
                &&& if !old(schema).table_live(ti) {
                    r == Err::<Option<Vec<LiteralValue>>, PlanError>(PlanError::TableMissing)
                } else if id >= old(schema).table_at(ti).rows@.len() {
                    r == Err::<Option<Vec<LiteralValue>>, PlanError>(PlanError::RowNotFound)
                } else {
                    &&& r is Ok
                    &&& r->Ok_0 is Some
                    &&& r->Ok_0->0@ == old(schema).table_at(ti).rows@[id as int]@
                    &&& r->Ok_0->0@.len() == old(schema).table_at(ti).width()
                }
            },
    {
        self.table_scan.get_next_row(schema)
    }
}

/// A one-shot row source: yields its row once, then is exhausted for good.
#[derive(Debug)]
pub struct StaticRow {
    pub row: Option<Vec<LiteralValue>>,
}

impl StaticRow {
    /// Hand out the row if it is still there; afterwards the source is
    /// exhausted, and stays so.
    pub fn next(&mut self) -> (r: Option<Vec<LiteralValue>>)
        ensures
            r == old(self).row,
            final(self).row is None,
    {
        self.row.take()
    }
}

/// The column positions a list of resolved column references names, in
/// statement order.
pub open spec fn column_positions(cols: Seq<ColumnRef>) -> Seq<usize> {
    cols.map_values(|c: ColumnRef| c.column_index)
}

/// The full positional row an INSERT stores, for a table of `width` columns
/// and parallel column/value lists: every position starts as NULL, then each
/// `(cols[k], vals[k])` pair in order writes `vals[k]` at position `cols[k]`.
/// A later pair naming the same position overwrites an earlier one.
pub open spec fn normalized_row(
    width: nat,
    cols: Seq<usize>,
    vals: Seq<LiteralValue>,
) -> Seq<LiteralValue>
    recommends
        cols.len() == vals.len(),
    decreases cols.len(),
{
    if cols.len() == 0 || vals.len() == 0 {
        Seq::new(width, |i: int| LiteralValue::Null)
    } else {
        normalized_row(width, cols.drop_last(), vals.drop_last()).update(
            cols.last() as int,
            vals.last(),
        )
    }
}

/// An executable INSERT: the resolved target index plus the one-shot source
/// of the normalized row. Building it mutates no storage; `run` does.
#[derive(Debug)]
pub struct InsertPlan {
    pub table_index: usize,
    pub source: StaticRow,
}

impl InsertPlan {
    /// Drain the row source, inserting each row into the table the stored
    /// index addresses, and count the rows inserted. A storage fault aborts
    /// the run and is propagated; rows inserted before it stay inserted.
    pub fn run(&mut self, schema: &mut Schema) -> (r: Result<usize, PlanError>)
        requires
            old(schema).wf(),
        ensures
            final(schema).wf(),
            final(self).table_index == old(self).table_index,
            final(self).source.row is None,
            old(self).source.row is None ==> {
                &&& r is Ok
                &&& r->Ok_0 == 0
                &&& *final(schema) == *old(schema)
            },
            old(self).source.row is Some ==> {
                let row = old(self).source.row->0;
                let ti = old(self).table_index as int;
                if !old(schema).table_live(ti) {
                    r == Err::<usize, PlanError>(PlanError::TableMissing) && *final(schema) == *old(
                        schema,
                    )
                } else if row@.len() != old(schema).table_at(ti).width() {
                    r == Err::<usize, PlanError>(PlanError::RowWidthMismatch) && *final(schema)
                        == *old(schema)
                } else {
                    r == Ok::<usize, PlanError>(1) && inserted_state(
                        *old(schema),
                        *final(schema),
                        ti,
                        row,
                    )
                }
            },
    {
        let mut count: usize = 0;
        loop
            invariant
                schema.wf(),
                count <= 1,
                self.table_index == old(self).table_index,
                count == 0 ==> *self == *old(self) && *schema == *old(schema),
                count == 1 ==> {
                    &&& old(self).source.row is Some
                    &&& self.source.row is None
                    &&& old(schema).table_live(old(self).table_index as int)
                    &&& old(self).source.row->0@.len() == old(schema).table_at(
                        old(self).table_index as int,
                    ).width()
                    &&& inserted_state(
                        *old(schema),
                        *schema,
                        old(self).table_index as int,
                        old(self).source.row->0,
                    )
                },
            ensures
                schema.wf(),
                count <= 1,
                self.table_index == old(self).table_index,
                self.source.row is None,
                count == 0 ==> old(self).source.row is None && *schema == *old(schema),
                count == 1 ==> {
                    &&& old(self).source.row is Some
                    &&& old(schema).table_live(old(self).table_index as int)
                    &&& old(self).source.row->0@.len() == old(schema).table_at(
                        old(self).table_index as int,
                    ).width()
                    &&& inserted_state(
                        *old(schema),
                        *schema,
                        old(self).table_index as int,
                        old(self).source.row->0,
                    )
                },
            decreases (if self.source.row is Some {
                1int
            } else {
                0int
            }),
        {
            match self.source.next() {
                Some(row) => {
                    match schema.insert_row_at(self.table_index, row) {
                        Ok(_) => {},
                        Err(e) => {
                            return Err(e);
                        },
                    }
                    count = count + 1;
                },
                None => {
                    break;
                },
            }
        }
        Ok(count)
    }
}

/// Translate a SELECT into a scan plan wrapped as a result set. Only a FROM
/// clause whose first source is a bare named table is handled; any other
/// statement shape is an unsupported-construct fault. Resolution failure is
/// reported and no plan object is built. Storage is read, never mutated.
pub fn build_select_plan(select: &SelectStmt, schema: &mut Schema) -> (r: Result<
    ResultSet,
    PlanError,
>)
    ensures
        *final(schema) == *old(schema),
        select.from@.len() == 0 || !(select.from@[0] is NamedTable) ==> {
            &&& r is Err
            &&& r->Err_0 == PlanError::UnsupportedConstruct
        },
        select.from@.len() > 0 && select.from@[0] is NamedTable ==> {
            let name = select.from@[0]->NamedTable_0;
            &&& (r is Ok <==> old(schema).has_table_named(name@))
            &&& r is Ok ==> {
                let scan = r->Ok_0.table_scan;
                &&& scan.wf()
                &&& old(schema).slot_named(scan.table_index as int, name@)
                &&& forall|j: int|
                    0 <= j < scan.table_index as int ==> !old(schema).slot_named(j, name@)
                &&& scan.remaining() == old(schema).table_at(scan.table_index as int).rowid_seq()
            }
            &&& r is Err ==> (r->Err_0 matches PlanError::TableNotFound(n) && n@ == name@)
        },
{
    if select.from.len() == 0 {
        return Err(PlanError::UnsupportedConstruct);
    }
    let name = match &select.from[0] {
        SelectFromTable::NamedTable(tab) => tab.clone(),
        _ => {
            return Err(PlanError::UnsupportedConstruct);
        },
    };
    match FullTableScan::new(name, schema) {
        Ok(scan) => Ok(ResultSet { table_scan: scan }),
        Err(e) => Err(e),
    }
}

/// Translate an INSERT into an insert plan: normalize the partial
/// column/value specification into a full positional row (absent columns
/// become NULL, a duplicate column's last value wins) and pair it with the
/// resolved target index. Succeeds exactly when the target slot is live;
/// storage rows are not touched at build time.
pub fn build_insert_plan(insert_ir: &InsertIr, schema: &Schema) -> (r: Result<
    InsertPlan,
    PlanError,
>)
    requires
        insert_ir.columns@.len() == insert_ir.values@.len(),
        schema.table_live(insert_ir.table.table_index as int) ==> forall|k: int|
            0 <= k < insert_ir.columns@.len()
                ==> (#[trigger] insert_ir.columns@[k]).column_index < schema.table_at(
                insert_ir.table.table_index as int,
            ).width(),
    ensures
        r is Ok <==> schema.table_live(insert_ir.table.table_index as int),
        r is Err ==> r->Err_0 == PlanError::TableMissing,
        r is Ok ==> {
            let plan = r->Ok_0;
            let ti = insert_ir.table.table_index as int;
            &&& plan.table_index == insert_ir.table.table_index
            &&& plan.source.row is Some
            &&& plan.source.row->0@ == normalized_row(
                schema.table_at(ti).width(),
                column_positions(insert_ir.columns@),
                insert_ir.values@,
            )
        },
{
    let table_index = insert_ir.table.table_index;
    let table = match schema.table(table_index) {
        Ok(t) => t,
        Err(e) => {
            return Err(e);
        },
    };
    let width = table.columns().len();
    let ghost cols = column_positions(insert_ir.columns@);
    let ghost vals = insert_ir.values@;

    let mut row: Vec<LiteralValue> = Vec::new();
    let mut i: usize = 0;
    while i < width
        invariant
            i <= width,
            row@.len() == i,
            forall|j: int| 0 <= j < i ==> row@[j] == LiteralValue::Null,
        decreases width - i,
    {
        row.push(LiteralValue::Null);
        i = i + 1;
    }
    proof {
        assert(cols.take(0) =~= Seq::<usize>::empty());
        assert(vals.take(0) =~= Seq::<LiteralValue>::empty());
        assert(row@ =~= normalized_row(width as nat, cols.take(0), vals.take(0)));
    }

    let mut k: usize = 0;
    while k < insert_ir.columns.len()
        invariant
            k <= insert_ir.columns@.len(),
            insert_ir.columns@.len() == insert_ir.values@.len(),
            cols == column_positions(insert_ir.columns@),
            vals == insert_ir.values@,
            schema.table_live(table_index as int),
            width == schema.table_at(table_index as int).width(),
            forall|m: int|
                0 <= m < insert_ir.columns@.len()
                    ==> (#[trigger] insert_ir.columns@[m]).column_index < width,
            row@.len() == width,
            row@ == normalized_row(width as nat, cols.take(k as int), vals.take(k as int)),
        decreases insert_ir.columns@.len() - k,
    {
        let c = insert_ir.columns[k].column_index;
        let v = insert_ir.values[k].clone();
        row[c] = v;
        proof {
            assert(cols.take(k + 1).drop_last() =~= cols.take(k as int));
            assert(vals.take(k + 1).drop_last() =~= vals.take(k as int));
            assert(cols.take(k + 1).last() == cols[k as int]);
            assert(vals.take(k + 1).last() == vals[k as int]);
            assert(row@ == normalized_row(width as nat, cols.take(k + 1), vals.take(k + 1)));
        }
        k = k + 1;
    }
    proof {
        assert(cols.take(insert_ir.columns@.len() as int) =~= cols);
        assert(vals.take(insert_ir.values@.len() as int) =~= vals);
    }

    let static_row = StaticRow { row: Some(row) };
    Ok(InsertPlan { table_index, source: static_row })
}

/// The row views the pulls of a scan materialize, pull by pull: a scan of
/// table `t` whose id snapshot is `ids` yields, at its k-th pull, the row
/// that `ids[k]` addresses (see `get_next_row`).
pub open spec fn pulled_row_views(t: Table, ids: Seq<u64>) -> Seq<Seq<LiteralValue>> {
    Seq::new(ids.len(), |k: int| t.rows@[ids[k] as int]@)
}

/// Scan completeness, for any id order: a scan over an id snapshot whose
/// ids all address stored rows yields exactly one row per id, each
/// materialized in the order the ids come in. Exhaustion afterwards is
/// stable: `get_next_row` ensures that an empty remainder stays empty.
pub proof fn lemma_scan_in_order(t: Table, ids: Seq<u64>)
    requires
        forall|k: int| 0 <= k < ids.len() ==> (#[trigger] ids[k]) < t.rows@.len(),
    ensures
        pulled_row_views(t, ids).len() == ids.len(),
        forall|k: int|
            0 <= k < ids.len() ==> #[trigger] pulled_row_views(t, ids)[k] == t.rows@[
                ids[k] as int
            ]@,
{
}

/// Scan completeness over the snapshot a scan plan is actually built with
/// (`rowid_seq`): the scan yields every stored row, in storage order.
pub proof fn lemma_full_scan_complete(t: Table)
    requires
        t.rows@.len() <= u64::MAX,
    ensures
        pulled_row_views(t, t.rowid_seq()) == t.row_views(),
{
    assert forall|k: int| 0 <= k < t.rows@.len() implies pulled_row_views(t, t.rowid_seq())[k]
        == t.row_views()[k] by {
        assert(t.rowid_seq()[k] == k as u64);
    }
    assert(pulled_row_views(t, t.rowid_seq()) =~= t.row_views());
}

/// A normalized row always spans the full table width.
pub proof fn lemma_normalized_row_len(width: nat, cols: Seq<usize>, vals: Seq<LiteralValue>)
    requires
        forall|k: int| 0 <= k < cols.len() ==> (#[trigger] cols[k]) < width,
    ensures
        normalized_row(width, cols, vals).len() == width,
    decreases cols.len(),
{
    if cols.len() == 0 || vals.len() == 0 {
    } else {
        let prev_cols = cols.drop_last();
        assert forall|k: int| 0 <= k < prev_cols.len() implies (#[trigger] prev_cols[k])
            < width by {
            assert(prev_cols[k] == cols[k]);
        }
        lemma_normalized_row_len(width, prev_cols, vals.drop_last());
        assert(cols.last() == cols[cols.len() - 1]);
    }
}

/// What each position of a normalized row holds: NULL unless some pair
/// names the position, in which case the value of the last pair naming it.
pub proof fn lemma_normalized_row_positions(
    width: nat,
    cols: Seq<usize>,
    vals: Seq<LiteralValue>,
    j: int,
)
    requires
        cols.len() == vals.len(),
        forall|k: int| 0 <= k < cols.len() ==> (#[trigger] cols[k]) < width,
        0 <= j < width,
    ensures
        (forall|k: int| 0 <= k < cols.len() ==> (#[trigger] cols[k]) != j) ==> normalized_row(
            width,
            cols,
            vals,
        )[j] == LiteralValue::Null,
        forall|k: int|
            0 <= k < cols.len() && (#[trigger] cols[k]) == j && (forall|m: int|
                k < m < cols.len() ==> (#[trigger] cols[m]) != j) ==> normalized_row(
                width,
                cols,
                vals,
            )[j] == vals[k],
    decreases cols.len(),
{
    lemma_normalized_row_len(width, cols, vals);
    if cols.len() == 0 {
    } else {
        let prev_cols = cols.drop_last();
        let prev_vals = vals.drop_last();
        assert forall|k: int| 0 <= k < prev_cols.len() implies (#[trigger] prev_cols[k])
            < width by {
            assert(prev_cols[k] == cols[k]);
        }
        lemma_normalized_row_len(width, prev_cols, prev_vals);
        lemma_normalized_row_positions(width, prev_cols, prev_vals, j);
        let n = cols.len() as int;
        assert(cols.last() == cols[n - 1]);
        assert(normalized_row(width, cols, vals) == normalized_row(
            width,
            prev_cols,
            prev_vals,
        ).update(cols.last() as int, vals.last()));
        if (forall|k: int| 0 <= k < cols.len() ==> (#[trigger] cols[k]) != j) {
            assert(forall|k: int| 0 <= k < prev_cols.len() ==> (#[trigger] prev_cols[k]) != j);
            assert(cols.last() != j);
            assert(normalized_row(width, cols, vals)[j] == normalized_row(
                width,
                prev_cols,
                prev_vals,
            )[j]);
        }
        assert forall|k: int|
            0 <= k < cols.len() && (#[trigger] cols[k]) == j && (forall|m: int|
                k < m < cols.len() ==> (#[trigger] cols[m]) != j) implies normalized_row(
            width,
            cols,
            vals,
        )[j] == vals[k] by {
            if k == n - 1 {
                assert(cols.last() == j);
                assert(normalized_row(width, cols, vals)[j] == vals.last());
            } else {
                assert(cols[n - 1] != j);
                assert(cols.last() != j);
                assert(prev_cols[k] == j);
                assert(forall|m: int| k < m < prev_cols.len() ==> (#[trigger] prev_cols[m]) != j);
                assert(normalized_row(width, prev_cols, prev_vals)[j] == prev_vals[k]);
                assert(normalized_row(width, cols, vals)[j] == vals[k]);
            }
        }
    }
}

/// Insert normalization: for a table of width `width`, inserting with
/// columns `[c]` and values `[v]` stores a row of length `width` whose
/// position `c` holds `v` and whose every other position holds NULL.
pub proof fn lemma_insert_normalization(width: nat, c: usize, v: LiteralValue)
    requires
        (c as nat) < width,
    ensures
        normalized_row(width, seq![c], seq![v]).len() == width,
        normalized_row(width, seq![c], seq![v])[c as int] == v,
        forall|j: int|
            0 <= j < width && j != c as int ==> normalized_row(width, seq![c], seq![v])[j]
                == LiteralValue::Null,
{
    let cols = seq![c];
    let vals = seq![v];
    lemma_normalized_row_len(width, cols.drop_last(), vals.drop_last());
    assert(normalized_row(width, cols, vals) == normalized_row(
        width,
        cols.drop_last(),
        vals.drop_last(),
    ).update(c as int, v));
    assert(cols.drop_last().len() == 0);
    assert(normalized_row(width, cols.drop_last(), vals.drop_last()) == Seq::new(
        width,
        |i: int| LiteralValue::Null,
    ));
}

/// Last write wins: inserting with columns `[c, c]` and values `[v1, v2]`
/// stores a row whose position `c` holds `v2`.
pub proof fn lemma_last_write_wins(width: nat, c: usize, v1: LiteralValue, v2: LiteralValue)
    requires
        (c as nat) < width,
    ensures
        normalized_row(width, seq![c, c], seq![v1, v2])[c as int] == v2,
{
    let cols = seq![c, c];
    let vals = seq![v1, v2];
    lemma_normalized_row_len(width, cols.drop_last(), vals.drop_last());
    assert(normalized_row(width, cols, vals) == normalized_row(
        width,
        cols.drop_last(),
        vals.drop_last(),
    ).update(c as int, v2));
}

/// Round trip at the table level: a table that just had `row` appended (as
/// a successful `run` leaves it) scans to its old rows followed by `row`.
pub proof fn lemma_insert_then_scan(before: Table, after: Table, row: Vec<LiteralValue>)
    requires
        after.rows@ == before.rows@.push(row),
        after.rows@.len() <= u64::MAX,
    ensures
        pulled_row_views(after, after.rowid_seq()) == before.row_views().push(row@),
        pulled_row_views(after, after.rowid_seq()).last() == row@,
{
    lemma_full_scan_complete(after);
    assert(after.row_views() =~= before.row_views().push(row@));
}

/// Round trip at the catalog level: after a successful insert of `row`
/// into slot `ti` (what `run` ensures via `inserted_state`), a full scan
/// of that table yields `row` among its rows — as the last one.
pub proof fn lemma_run_then_scan(before: Schema, after: Schema, ti: int, row: Vec<LiteralValue>)
    requires
        inserted_state(before, after, ti, row),
        after.table_at(ti).rows@.len() <= u64::MAX,
    ensures
        pulled_row_views(after.table_at(ti), after.table_at(ti).rowid_seq()).last() == row@,
{
    lemma_insert_then_scan(before.table_at(ti), after.table_at(ti), row);
}

} // verus!
