//! The bar table: rows under the natural key `(symbol, time, size)`.
//!
//! A write is an insert that passes over every bar whose key is already
//! stored, so writing a batch again changes nothing. A write is applied as
//! a whole or not at all.

use crate::bar::Bar;
use crate::bar::BarKey;
use crate::bar::BarView;
use crate::codec::bars_of;
use vstd::prelude::*;

verus! {

/// Whether some row is stored under the key.
pub open spec fn holds_key(rows: Seq<BarView>, key: BarKey) -> bool {
    exists|i: int| 0 <= i < rows.len() && (#[trigger] rows[i]).key() == key
}

/// No two rows share a key.
pub open spec fn unique_keys(rows: Seq<BarView>) -> bool {
    forall|i: int, j: int|
        0 <= i < j < rows.len() ==> (#[trigger] rows[i]).key() != (#[trigger] rows[j]).key()
}

/// The rows after one bar is written: the bar is appended unless its key is
/// stored already.
pub open spec fn insert_row(rows: Seq<BarView>, bar: BarView) -> Seq<BarView> {
    if holds_key(rows, bar.key()) {
        rows
    } else {
        rows.push(bar)
    }
}

/// The rows after a batch is written, bar by bar in the order of the batch.
pub open spec fn upsert_rows(rows: Seq<BarView>, batch: Seq<BarView>) -> Seq<BarView>
    decreases batch.len(),
{
    if batch.len() == 0 {
        rows
    } else {
        insert_row(upsert_rows(rows, batch.drop_last()), batch.last())
    }
}

/// The number of rows that writing a batch adds.
pub open spec fn inserted(rows: Seq<BarView>, batch: Seq<BarView>) -> int {
    upsert_rows(rows, batch).len() - rows.len()
}

/// Writing a batch keeps every row that was stored, in its place.
pub proof fn lemma_upsert_keeps_rows(rows: Seq<BarView>, batch: Seq<BarView>)
    ensures
        upsert_rows(rows, batch).len() >= rows.len(),
        upsert_rows(rows, batch).take(rows.len() as int) == rows,
        inserted(rows, batch) <= batch.len(),
    decreases batch.len(),
{
    if batch.len() > 0 {
        let before = upsert_rows(rows, batch.drop_last());
        lemma_upsert_keeps_rows(rows, batch.drop_last());
        assert(insert_row(before, batch.last()).take(rows.len() as int) =~= before.take(
            rows.len() as int,
        ));
    }
}

/// Writing a batch keeps the keys apart.
pub proof fn lemma_upsert_keeps_keys_unique(rows: Seq<BarView>, batch: Seq<BarView>)
    requires
        unique_keys(rows),
    ensures
        unique_keys(upsert_rows(rows, batch)),
    decreases batch.len(),
{
    if batch.len() > 0 {
        lemma_upsert_keeps_keys_unique(rows, batch.drop_last());
    }
}

/// A key that is stored stays stored when a batch is written.
pub proof fn lemma_upsert_keeps_keys(rows: Seq<BarView>, batch: Seq<BarView>, key: BarKey)
    requires
        holds_key(rows, key),
    ensures
        holds_key(upsert_rows(rows, batch), key),
{
    lemma_upsert_keeps_rows(rows, batch);
    let i = choose|i: int| 0 <= i < rows.len() && (#[trigger] rows[i]).key() == key;
    assert(upsert_rows(rows, batch)[i] == rows[i]);
}

/// After a batch is written, the key of each of its bars is stored.
pub proof fn lemma_upsert_stores_keys(rows: Seq<BarView>, batch: Seq<BarView>, i: int)
    requires
        0 <= i < batch.len(),
    ensures
        holds_key(upsert_rows(rows, batch), batch[i].key()),
    decreases batch.len(),
{
    let before = upsert_rows(rows, batch.drop_last());
    let after = upsert_rows(rows, batch);
    if i == batch.len() - 1 {
        if !holds_key(before, batch.last().key()) {
            assert(after[before.len() as int].key() == batch[i].key());
        }
    } else {
        lemma_upsert_stores_keys(rows, batch.drop_last(), i);
        let k = choose|k: int|
            0 <= k < before.len() && (#[trigger] before[k]).key() == batch[i].key();
        assert(after[k].key() == batch[i].key());
    }
}

/// Each row that a write adds is the first bar of the batch with its key:
/// for the row at a new position there is a bar in the batch that it
/// equals, whose key was not stored and which no earlier bar of the batch
/// shares its key with.
pub proof fn lemma_new_row_is_first_write(rows: Seq<BarView>, batch: Seq<BarView>, j: int) -> (i:
    int)
    requires
        rows.len() <= j < upsert_rows(rows, batch).len(),
    ensures
        0 <= i < batch.len(),
        upsert_rows(rows, batch)[j] == batch[i],
        !holds_key(rows, batch[i].key()),
        forall|k: int| 0 <= k < i ==> (#[trigger] batch[k]).key() != batch[i].key(),
    decreases batch.len(),
{
    let front = batch.drop_last();
    let before = upsert_rows(rows, front);
    if batch.len() == 0 {
        0
    } else if j < before.len() {
        let i = lemma_new_row_is_first_write(rows, front, j);
        assert forall|k: int| 0 <= k < i implies (#[trigger] batch[k]).key() != batch[i].key() by {
            assert(front[k] == batch[k]);
        }
        i
    } else {
        let i = batch.len() - 1;
        if holds_key(rows, batch[i].key()) {
            lemma_upsert_keeps_keys(rows, front, batch[i].key());
        }
        assert forall|k: int| 0 <= k < i implies (#[trigger] batch[k]).key() != batch[i].key() by {
            lemma_upsert_stores_keys(rows, front, k);
        }
        i
    }
}

/// A batch whose keys are all stored writes nothing.
pub proof fn lemma_stored_batch_writes_nothing(rows: Seq<BarView>, batch: Seq<BarView>)
    requires
        forall|i: int| 0 <= i < batch.len() ==> holds_key(rows, (#[trigger] batch[i]).key()),
    ensures
        upsert_rows(rows, batch) == rows,
    decreases batch.len(),
{
    if batch.len() > 0 {
        let front = batch.drop_last();
        lemma_stored_batch_writes_nothing(rows, front);
    }
}

/// Writing is idempotent: a batch written a second time leaves the rows as
/// the first write left them, and adds no row.
pub proof fn lemma_upsert_is_idempotent(rows: Seq<BarView>, batch: Seq<BarView>)
    ensures
        upsert_rows(upsert_rows(rows, batch), batch) == upsert_rows(rows, batch),
        inserted(upsert_rows(rows, batch), batch) == 0,
{
    let once = upsert_rows(rows, batch);
    assert forall|i: int| 0 <= i < batch.len() implies holds_key(
        once,
        (#[trigger] batch[i]).key(),
    ) by {
        lemma_upsert_stores_keys(rows, batch, i);
    }
    lemma_stored_batch_writes_nothing(once, batch);
}

/// The first write wins: of two bars that share a key, the second is
/// dropped, whatever its other fields hold.
pub proof fn lemma_first_write_wins(rows: Seq<BarView>, first: BarView, second: BarView)
    requires
        first.key() == second.key(),
    ensures
        upsert_rows(rows, seq![first, second]) == upsert_rows(rows, seq![first]),
        upsert_rows(rows, seq![first, second]) == insert_row(rows, first),
{
    let both = seq![first, second];
    let one = seq![first];
    assert(both.drop_last() =~= one);
    assert(upsert_rows(rows, one.drop_last()) == rows);
    lemma_upsert_stores_keys(rows, one, 0);
}

/// A bar whose key is stored is dropped: the row under that key stays as it
/// was written first.
pub proof fn lemma_stored_key_is_kept(rows: Seq<BarView>, bar: BarView, i: int)
    requires
        0 <= i < rows.len(),
        rows[i].key() == bar.key(),
    ensures
        upsert_rows(rows, seq![bar]) == rows,
{
    let one = seq![bar];
    assert(upsert_rows(rows, one.drop_last()) == rows);
}

/// Why a write was not applied.
#[derive(Debug, Clone, Copy, PartialEq, Eq, Structural)]
pub enum WriteError {
    /// The table cannot take the rows that the batch would add.
    Full,
}

/// The mathematical content of a [`BarTable`].
pub struct TableView {
    pub rows: Seq<BarView>,
    pub limit: int,
}

impl TableView {
    pub open spec fn wf(self) -> bool {
        &&& unique_keys(self.rows)
        &&& self.rows.len() <= self.limit <= usize::MAX
    }

    /// The table after a batch is written: with the rows of
    /// [`upsert_rows`] where they fit, else unchanged.
    pub open spec fn upsert(self, batch: Seq<BarView>) -> TableView {
        if upsert_rows(self.rows, batch).len() <= self.limit {
            TableView { rows: upsert_rows(self.rows, batch), limit: self.limit }
        } else {
            self
        }
    }

    /// What a write reports: the number of rows added, or that the rows do
    /// not fit.
    pub open spec fn upsert_outcome(self, batch: Seq<BarView>) -> Result<int, WriteError> {
        if upsert_rows(self.rows, batch).len() <= self.limit {
            Ok(inserted(self.rows, batch))
        } else {
            Err(WriteError::Full)
        }
    }
}

/// A table of bars in memory, in the order in which they were first
/// written, with room for a fixed number of rows.
#[derive(Debug)]
pub struct BarTable {
    rows: Vec<Bar>,
    limit: usize,
}

impl View for BarTable {
    type V = TableView;

    closed spec fn view(&self) -> TableView {
        TableView { rows: bars_of(self.rows@), limit: self.limit as int }
    }
}

/// A key is held by one run of rows followed by another exactly when it is
/// held by one of the two.
pub proof fn lemma_holds_key_in_either(front: Seq<BarView>, back: Seq<BarView>, key: BarKey)
    ensures
        holds_key(front + back, key) <==> holds_key(front, key) || holds_key(back, key),
{
    let all = front + back;
    if holds_key(front, key) {
        let i = choose|i: int| 0 <= i < front.len() && (#[trigger] front[i]).key() == key;
        assert(all[i].key() == key);
    }
    if holds_key(back, key) {
        let i = choose|i: int| 0 <= i < back.len() && (#[trigger] back[i]).key() == key;
        assert(all[front.len() + i].key() == key);
    }
    if holds_key(all, key) {
        let i = choose|i: int| 0 <= i < all.len() && (#[trigger] all[i]).key() == key;
        if i < front.len() {
            assert(front[i].key() == key);
        } else {
            assert(back[i - front.len()].key() == key);
        }
    }
}

/// Whether one of the rows is stored under the key of the bar.
fn holds_in(rows: &Vec<Bar>, bar: &Bar) -> (r: bool)
    ensures
        r == holds_key(bars_of(rows@), bar@.key()),
{
    let ghost views = bars_of(rows@);
    let mut i: usize = 0;
    while i < rows.len()
        invariant
            i <= rows.len(),
            views == bars_of(rows@),
            forall|k: int| 0 <= k < i ==> (#[trigger] views[k]).key() != bar@.key(),
        decreases rows.len() - i,
    {
        if rows[i].same_key(bar) {
            assert(views[i as int].key() == bar@.key());
            return true;
        }
        i += 1;
    }
    false
}

impl BarTable {
    /// Holds of every table: each write sees to it.
    #[verifier::type_invariant]
    pub open spec fn wf(&self) -> bool {
        self@.wf()
    }

    /// An empty table without a limit of its own.
    pub fn new() -> (table: BarTable)
        ensures
            table.wf(),
            table@.rows.len() == 0,
            table@.limit == usize::MAX,
    {
        BarTable { rows: Vec::new(), limit: usize::MAX }
    }

    /// An empty table with room for `limit` rows.
    pub fn bounded(limit: usize) -> (table: BarTable)
        ensures
            table.wf(),
            table@.rows.len() == 0,
            table@.limit == limit,
    {
        BarTable { rows: Vec::new(), limit }
    }

    /// The number of rows.
    pub fn len(&self) -> (n: usize)
        ensures
            n == self@.rows.len(),
    {
        self.rows.len()
    }

    /// The number of rows that the table has room for.
    pub fn limit(&self) -> (n: usize)
        ensures
            n == self@.limit,
    {
        self.limit
    }

    /// The row at a position, in the order of first writes.
    pub fn row(&self, i: usize) -> (r: Option<&Bar>)
        ensures
            r is Some <==> i < self@.rows.len(),
            r is Some ==> r->0@ == self@.rows[i as int],
    {
        if i < self.rows.len() {
            Some(&self.rows[i])
        } else {
            None
        }
    }

    /// Whether a row is stored under the key of the bar.
    pub fn holds(&self, bar: &Bar) -> (r: bool)
        ensures
            r == holds_key(self@.rows, bar@.key()),
    {
        holds_in(&self.rows, bar)
    }

    /// Writes a batch: each bar is inserted unless its key is stored
    /// already, in which case it is dropped and the stored row stays.
    ///
    /// The write is applied as a whole, and then reports the number of rows
    /// that it added; or, where the table has no room for them, not at all.
    pub fn upsert(&mut self, batch: Vec<Bar>) -> (r: Result<usize, WriteError>)
        ensures
            final(self).wf(),
            final(self)@ == old(self)@.upsert(bars_of(batch@)),
            match r {
                Ok(n) => old(self)@.upsert_outcome(bars_of(batch@)) == Ok::<int, WriteError>(
                    n as int,
                ),
                Err(e) => old(self)@.upsert_outcome(bars_of(batch@)) == Err::<int, WriteError>(e),
            },
    {
        proof {
            use_type_invariant(&*self);
        }
        let ghost stored = bars_of(self.rows@);
        let ghost all = bars_of(batch@);
        let ghost bars = batch@;
        let mut added: Vec<Bar> = Vec::new();
        assert(stored + bars_of(added@) =~= stored);
        for bar in it: batch
            invariant
                it.seq() == bars,
                all == bars_of(bars),
                *self == *old(self),
                stored == bars_of(self.rows@),
                stored + bars_of(added@) == upsert_rows(stored, all.take(it.index() as int)),
        {
            let ghost before = bars_of(added@);
            proof {
                assert(all.take(it.index() + 1).drop_last() =~= all.take(it.index() as int));
                lemma_holds_key_in_either(stored, before, bar@.key());
            }
            if !self.holds(&bar) && !holds_in(&added, &bar) {
                added.push(bar);
                assert(stored + bars_of(added@) =~= (stored + before).push(bar@));
            }
        }
        proof {
            assert(all.take(all.len() as int) =~= all);
            lemma_upsert_keeps_keys_unique(stored, all);
            assert(bars_of(self.rows@ + added@) =~= stored + bars_of(added@));
            assert(bars_of(Seq::<Bar>::empty()) =~= Seq::<BarView>::empty());
        }
        let count: usize = added.len();
        if count > self.limit - self.rows.len() {
            return Err(WriteError::Full);
        }
        // The rows leave the table while they grow, and come back in one
        // step.
        let mut rows: Vec<Bar> = Vec::new();
        std::mem::swap(&mut self.rows, &mut rows);
        rows.append(&mut added);
        self.rows = rows;
        Ok(count)
    }
}

/// A write to the table is idempotent: a batch written a second time
/// leaves the table as the first write left it; and where the first write
/// was applied, the second reports that it inserted no row.
pub proof fn lemma_write_is_idempotent(table: TableView, batch: Seq<BarView>)
    ensures
        table.upsert(batch).upsert(batch) == table.upsert(batch),
        table.upsert_outcome(batch) is Ok ==> table.upsert(batch).upsert_outcome(batch) == Ok::<
            int,
            WriteError,
        >(0),
        table.upsert_outcome(batch) is Err ==> table.upsert(batch).upsert_outcome(batch)
            == table.upsert_outcome(batch),
{
    lemma_upsert_is_idempotent(table.rows, batch);
}

/// A write is applied as a whole or not at all: it leaves the table with
/// the rows of the whole batch, or as it was.
pub proof fn lemma_write_is_atomic(table: TableView, batch: Seq<BarView>)
    requires
        table.wf(),
    ensures
        table.upsert(batch).wf(),
        table.upsert(batch).limit == table.limit,
        match table.upsert_outcome(batch) {
            Ok(n) => {
                &&& table.upsert(batch).rows == upsert_rows(table.rows, batch)
                &&& n == table.upsert(batch).rows.len() - table.rows.len()
                &&& 0 <= n <= batch.len()
            },
            Err(_) => table.upsert(batch) == table,
        },
{
    lemma_upsert_keeps_rows(table.rows, batch);
    lemma_upsert_keeps_keys_unique(table.rows, batch);
}

} // verus!
