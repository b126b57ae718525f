//! One poll cycle, run against the queue and the table in memory.
//!
//! The cycle polls, lets the state machine take up each batch in turn,
//! performs what the machine asks for, and commits. What the cycle leaves
//! behind is stated without the machine: batch by batch, a batch that
//! decodes and is written is acknowledged, and any other batch changes
//! neither the table nor the queue.

use crate::bar::BarView;
use crate::codec::decode_all;
use crate::codec::decode_spec;
use crate::codec::lemma_batch_is_atomic;
use crate::codec::Rejection;
use crate::codec::RejectionView;
use crate::ingest::awaited;
use crate::ingest::lemma_action_is_awaited;
use crate::ingest::lemma_cycle_ends;
use crate::ingest::steps_left;
use crate::ingest::Action;
use crate::ingest::BatchView;
use crate::ingest::Event;
use crate::ingest::Ingest;
use crate::ingest::IngestView;
use crate::ingest::Phase;
use crate::queue::MemoryQueue;
use crate::queue::QueueView;
use crate::table::holds_key;
use crate::table::lemma_upsert_is_idempotent;
use crate::table::lemma_upsert_keeps_keys;
use crate::table::lemma_upsert_keeps_keys_unique;
use crate::table::lemma_upsert_keeps_rows;
use crate::table::lemma_upsert_stores_keys;
use crate::table::BarTable;
use crate::table::TableView;
use crate::table::WriteError;
use vstd::prelude::*;

verus! {

/// What a run of batches leaves behind: the table, and the record of what
/// became of each batch.
pub struct DrainView {
    pub table: TableView,
    /// The number of rows inserted.
    pub inserted: int,
    /// The markers of the batches that were written and acknowledged.
    pub acknowledged: Seq<u64>,
    /// The markers of the batches that did not decode, each with its
    /// rejection.
    pub rejected: Seq<(u64, RejectionView)>,
    /// The markers of the batches whose write failed.
    pub failed: Seq<u64>,
}

/// What one batch adds to a run.
pub open spec fn drain_one(before: DrainView, batch: BatchView) -> DrainView {
    match decode_all(batch.payloads) {
        Err(rejection) => DrainView {
            rejected: before.rejected.push((batch.marker, rejection)),
            ..before
        },
        Ok(bars) => match before.table.upsert_outcome(bars) {
            Ok(n) => DrainView {
                table: before.table.upsert(bars),
                inserted: before.inserted + n,
                acknowledged: before.acknowledged.push(batch.marker),
                ..before
            },
            Err(_) => DrainView { failed: before.failed.push(batch.marker), ..before },
        },
    }
}

/// What a run of batches leaves behind, taken in order from a table.
pub open spec fn drain(table: TableView, batches: Seq<BatchView>) -> DrainView
    decreases batches.len(),
{
    if batches.len() == 0 {
        DrainView {
            table,
            inserted: 0,
            acknowledged: Seq::empty(),
            rejected: Seq::empty(),
            failed: Seq::empty(),
        }
    } else {
        drain_one(drain(table, batches.drop_last()), batches.last())
    }
}

/// The queue after the batches under the markers are acknowledged.
pub open spec fn acknowledge_all(queue: QueueView, markers: Seq<u64>) -> QueueView
    decreases markers.len(),
{
    if markers.len() == 0 {
        queue
    } else {
        acknowledge_all(queue, markers.drop_last()).acknowledged(markers.last())
    }
}

/// What one poll cycle leaves behind.
pub open spec fn cycle(queue: QueueView, table: TableView) -> DrainView {
    drain(table, queue.batches())
}

/// The queue after one poll cycle: polled, with the batches acknowledged
/// that were written, and committed.
pub open spec fn cycle_queue(queue: QueueView, table: TableView) -> QueueView {
    acknowledge_all(queue.polled(), cycle(queue, table).acknowledged).committed()
}

/// The table after one poll cycle.
pub open spec fn cycle_table(queue: QueueView, table: TableView) -> TableView {
    cycle(queue, table).table
}

/// The record of one poll cycle.
#[derive(Debug)]
pub struct CycleReport {
    /// The number of rows inserted.
    pub inserted: usize,
    /// The markers of the batches that were written and acknowledged.
    pub acknowledged: Vec<u64>,
    /// The markers of the batches that did not decode, each with its
    /// rejection.
    pub rejected: Vec<(u64, Rejection)>,
    /// The markers of the batches whose write failed.
    pub failed: Vec<u64>,
}

/// The views of a run of rejections.
pub open spec fn rejections_of(rejected: Seq<(u64, Rejection)>) -> Seq<(u64, RejectionView)> {
    rejected.map_values(|r: (u64, Rejection)| (r.0, r.1@))
}

impl CycleReport {
    /// Whether the report is the record of a run.
    pub open spec fn records(&self, run: DrainView) -> bool {
        &&& self.inserted == run.inserted
        &&& self.acknowledged@ == run.acknowledged
        &&& rejections_of(self.rejected@) == run.rejected
        &&& self.failed@ == run.failed
    }
}

/// A run keeps the table well formed, and counts the rows that it adds.
pub proof fn lemma_drain_keeps_table(table: TableView, batches: Seq<BatchView>)
    requires
        table.wf(),
    ensures
        drain(table, batches).table.wf(),
        drain(table, batches).table.limit == table.limit,
        drain(table, batches).inserted == drain(table, batches).table.rows.len()
            - table.rows.len(),
        drain(table, batches).inserted >= 0,
    decreases batches.len(),
{
    if batches.len() > 0 {
        lemma_drain_keeps_table(table, batches.drop_last());
        let before = drain(table, batches.drop_last());
        match decode_all(batches.last().payloads) {
            Ok(bars) => {
                lemma_upsert_keeps_keys_unique(before.table.rows, bars);
                lemma_upsert_keeps_rows(before.table.rows, bars);
            },
            Err(_) => {},
        }
    }
}

/// The batches of a poll carry the numbers of their partitions as markers,
/// in rising order.
pub proof fn lemma_batches_are_partitions(queue: QueueView, n: int)
    requires
        queue.wf(),
        0 <= n <= queue.partitions.len(),
    ensures
        queue.batches_upto(n).len() <= n,
        forall|i: int|
            0 <= i < queue.batches_upto(n).len() ==> {
                let marker = (#[trigger] queue.batches_upto(n)[i]).marker;
                &&& marker < n
                &&& queue.batches_upto(n)[i] == queue.batch(marker as int)
                &&& queue.partitions[marker as int].consumed
                    < queue.partitions[marker as int].log.len()
            },
        forall|i: int, j: int|
            0 <= i < j < queue.batches_upto(n).len() ==> (#[trigger] queue.batches_upto(
                n,
            )[i]).marker < (#[trigger] queue.batches_upto(n)[j]).marker,
    decreases n,
{
    if n > 0 {
        lemma_batches_are_partitions(queue, n - 1);
    }
}

/// Acknowledgements leave the number of partitions as it is.
pub proof fn lemma_acknowledge_all_keeps_shape(queue: QueueView, markers: Seq<u64>)
    requires
        queue.wf(),
    ensures
        acknowledge_all(queue, markers).wf(),
        acknowledge_all(queue, markers).partitions.len() == queue.partitions.len(),
        acknowledge_all(queue, markers).fetch == queue.fetch,
    decreases markers.len(),
{
    if markers.len() > 0 {
        lemma_acknowledge_all_keeps_shape(queue, markers.drop_last());
    }
}

/// How the cycle at hand stands to the queue and the table from which it
/// started: the batches before the cursor have left behind what their run
/// leaves behind, and the batch at the cursor is as far as the phase says.
pub open spec fn cycle_stands(
    start_queue: QueueView,
    start_table: TableView,
    state: IngestView,
    queue: QueueView,
    table: TableView,
    report: CycleReport,
) -> bool {
    let done = drain(start_table, start_queue.batches().take(state.cursor));
    &&& state.wf()
    &&& match state.phase {
        Phase::Halted(_) => false,
        Phase::Polling => {
            &&& queue == cycle_queue(start_queue, start_table)
            &&& table == cycle_table(start_queue, start_table)
            &&& report.records(cycle(start_queue, start_table))
        },
        Phase::Acknowledging => {
            let bars = decode_all(state.current().payloads)->Ok_0;
            &&& state.batches == start_queue.batches()
            &&& queue == acknowledge_all(start_queue.polled(), done.acknowledged)
            &&& done.table.upsert_outcome(bars) is Ok
            &&& table == done.table.upsert(bars)
            &&& report.records(
                DrainView {
                    inserted: done.inserted + done.table.upsert_outcome(bars)->Ok_0,
                    ..done
                },
            )
        },
        _ => {
            &&& state.batches == start_queue.batches()
            &&& queue == acknowledge_all(start_queue.polled(), done.acknowledged)
            &&& table == done.table
            &&& report.records(done)
        },
    }
}

/// Whether an action leaves outside work to do in the cycle at hand.
fn asks_for_work(action: &Action) -> (r: bool)
    ensures
        r == !(action@ is Poll || action@ is Halt),
{
    match action {
        Action::Poll => false,
        Action::Halt(_) => false,
        _ => true,
    }
}

/// Runs one poll cycle: polls the queue, decodes each batch, writes it to
/// the table and acknowledges it, and commits.
///
/// A batch with a message that is no bar is neither written nor
/// acknowledged, and neither is a batch that the table has no room for;
/// the queue delivers both anew with the next poll.
pub fn run_cycle(queue: &mut MemoryQueue, table: &mut BarTable) -> (report: CycleReport)
    ensures
        final(queue).wf(),
        final(table).wf(),
        final(queue)@ == cycle_queue(old(queue)@, old(table)@),
        final(table)@ == cycle_table(old(queue)@, old(table)@),
        report.records(cycle(old(queue)@, old(table)@)),
{
    proof {
        use_type_invariant(&*queue);
        use_type_invariant(&*table);
    }
    let ghost start_queue = queue@;
    let ghost start_table = table@;
    let ghost batches = start_queue.batches();
    let mut report = CycleReport {
        inserted: 0,
        acknowledged: Vec::new(),
        rejected: Vec::new(),
        failed: Vec::new(),
    };
    let mut machine = Ingest::new();
    let polled = queue.poll();
    let mut action = machine.step(Event::Polled(polled));
    proof {
        lemma_action_is_awaited(IngestView::idle(), crate::ingest::EventView::Polled(batches));
        assert(batches.take(0) =~= Seq::<BatchView>::empty());
        assert(rejections_of(report.rejected@) =~= Seq::<(u64, RejectionView)>::empty());
        lemma_batches_are_partitions(start_queue, start_queue.partitions.len() as int);
    }
    while asks_for_work(&action)
        invariant
            start_queue.wf(),
            start_table.wf(),
            batches == start_queue.batches(),
            queue.wf(),
            table.wf(),
            machine.wf(),
            action@ == awaited(machine@),
            cycle_stands(start_queue, start_table, machine@, queue@, table@, report),
        decreases steps_left(machine@),
    {
        let ghost state = machine@;
        let ghost cursor = state.cursor;
        let ghost done = drain(start_table, batches.take(cursor));
        proof {
            lemma_drain_keeps_table(start_table, batches.take(cursor));
            lemma_acknowledge_all_keeps_shape(start_queue.polled(), done.acknowledged);
            lemma_batches_are_partitions(start_queue, start_queue.partitions.len() as int);
            if cursor < batches.len() {
                assert(batches.take(cursor + 1).drop_last() =~= batches.take(cursor));
                assert(batches.take(cursor + 1).last() == batches[cursor]);
            } else {
                assert(batches.take(cursor) =~= batches);
            }
        }
        let event = match action {
            Action::Poll => vstd::pervasive::unreached(),
            Action::Halt(_) => vstd::pervasive::unreached(),
            Action::Warn { marker, rejection } => {
                let ghost before = rejections_of(report.rejected@);
                report.rejected.push((marker, rejection));
                assert(rejections_of(report.rejected@) =~= before.push((marker, rejection@)));
                Event::Warned
            },
            Action::Write { marker, bars } => match table.upsert(bars) {
                Ok(n) => {
                    report.inserted = report.inserted + n;
                    Event::Written(n)
                },
                Err(_) => {
                    report.failed.push(marker);
                    Event::WriteFailed
                },
            },
            Action::Acknowledge { marker } => {
                proof {
                    let n = start_queue.partitions.len() as int;
                    assert(start_queue.batches_upto(n)[cursor].marker < n);
                    assert(done.acknowledged.push(marker).drop_last() =~= done.acknowledged);
                }
                if queue.acknowledge(marker) {
                    report.acknowledged.push(marker);
                    Event::Acknowledged
                } else {
                    Event::AcknowledgeFailed
                }
            },
            Action::Commit => {
                queue.commit();
                Event::Committed
            },
        };
        proof {
            lemma_action_is_awaited(state, event@);
            lemma_cycle_ends(state, event@);
        }
        action = machine.step(event);
    }
    report
}

/// A message is persisted where it decodes and the table holds the key of
/// its bar.
pub open spec fn stored(rows: Seq<BarView>, payload: Seq<u8>) -> bool {
    &&& decode_spec(payload) is Ok
    &&& holds_key(rows, decode_spec(payload)->Ok_0.key())
}

/// The offsets never run ahead of the table: every message before the
/// consumed position of its partition, and so every message before the
/// committed position, is persisted.
pub open spec fn persisted(queue: QueueView, table: TableView) -> bool {
    forall|p: int, o: int|
        0 <= p < queue.partitions.len() && 0 <= o < queue.partitions[p].consumed ==> stored(
            table.rows,
            #[trigger] queue.partitions[p].log[o],
        )
}

/// A write keeps what is persisted.
pub proof fn lemma_write_keeps_stored(table: TableView, bars: Seq<BarView>, payload: Seq<u8>)
    requires
        stored(table.rows, payload),
    ensures
        stored(table.upsert(bars).rows, payload),
{
    lemma_upsert_keeps_keys(table.rows, bars, decode_spec(payload)->Ok_0.key());
}

/// A run keeps what is persisted.
pub proof fn lemma_drain_keeps_stored(
    table: TableView,
    batches: Seq<BatchView>,
    payload: Seq<u8>,
)
    requires
        stored(table.rows, payload),
    ensures
        stored(drain(table, batches).table.rows, payload),
    decreases batches.len(),
{
    if batches.len() > 0 {
        lemma_drain_keeps_stored(table, batches.drop_last(), payload);
        let before = drain(table, batches.drop_last());
        match decode_all(batches.last().payloads) {
            Ok(bars) => {
                lemma_write_keeps_stored(before.table, bars, payload);
            },
            Err(_) => {},
        }
    }
}

/// A batch is acknowledged only where it was decoded as a whole and
/// written: for each marker that a run acknowledges there is a batch under
/// that marker, each message of which is persisted when the run ends.
pub proof fn lemma_acknowledged_batch_is_stored(
    table: TableView,
    batches: Seq<BatchView>,
    marker: u64,
) -> (i: int)
    requires
        drain(table, batches).acknowledged.contains(marker),
    ensures
        0 <= i < batches.len(),
        batches[i].marker == marker,
        decode_all(batches[i].payloads) is Ok,
        forall|k: int|
            0 <= k < batches[i].payloads.len() ==> stored(
                drain(table, batches).table.rows,
                #[trigger] batches[i].payloads[k],
            ),
    decreases batches.len(),
{
    let after = drain(table, batches);
    if batches.len() == 0 {
        assert(false);
        0
    } else {
        let front = batches.drop_last();
        let last = batches.last();
        let before = drain(table, front);
        if before.acknowledged.contains(marker) {
            let i = lemma_acknowledged_batch_is_stored(table, front, marker);
            assert forall|k: int| 0 <= k < batches[i].payloads.len() implies stored(
                after.table.rows,
                #[trigger] batches[i].payloads[k],
            ) by {
                lemma_drain_one_keeps_stored(before, last, batches[i].payloads[k]);
            }
            i
        } else {
            let j = choose|j: int|
                0 <= j < after.acknowledged.len() && after.acknowledged[j] == marker;
            let bars = decode_all(last.payloads)->Ok_0;
            if decode_all(last.payloads) is Ok && before.table.upsert_outcome(bars) is Ok {
                if j < before.acknowledged.len() {
                    assert(before.acknowledged[j] == marker);
                    assert(false);
                }
                lemma_batch_is_atomic(last.payloads);
                assert forall|k: int| 0 <= k < last.payloads.len() implies stored(
                    after.table.rows,
                    #[trigger] last.payloads[k],
                ) by {
                    lemma_upsert_stores_keys(before.table.rows, bars, k);
                }
                batches.len() - 1
            } else {
                assert(after.acknowledged == before.acknowledged);
                assert(before.acknowledged[j] == marker);
                assert(false);
                0
            }
        }
    }
}

/// One more batch keeps what is persisted.
pub proof fn lemma_drain_one_keeps_stored(before: DrainView, batch: BatchView, payload: Seq<u8>)
    requires
        stored(before.table.rows, payload),
    ensures
        stored(drain_one(before, batch).table.rows, payload),
{
    match decode_all(batch.payloads) {
        Ok(bars) => {
            lemma_write_keeps_stored(before.table, bars, payload);
        },
        Err(_) => {},
    }
}

/// What the acknowledgements of a cycle do to one partition: where its
/// marker is among them, what the poll delivered is consumed; else nothing.
pub proof fn lemma_acknowledge_all_at(queue: QueueView, markers: Seq<u64>, p: int)
    requires
        queue.wf(),
        0 <= p < queue.partitions.len(),
    ensures
        acknowledge_all(queue, markers).partitions.len() == queue.partitions.len(),
        acknowledge_all(queue, markers).partitions[p] == if markers.contains(p as u64) {
            queue.partitions[p].acknowledged()
        } else {
            queue.partitions[p]
        },
    decreases markers.len(),
{
    if markers.len() > 0 {
        let front = markers.drop_last();
        lemma_acknowledge_all_at(queue, front, p);
        lemma_acknowledge_all_keeps_shape(queue, front);
        if markers.last() == p as u64 {
            assert(markers[markers.len() - 1] == p as u64);
        } else if markers.contains(p as u64) {
            let j = choose|j: int| 0 <= j < markers.len() && markers[j] == p as u64;
            assert(front[j] == p as u64);
        } else {
            if front.contains(p as u64) {
                let j = choose|j: int| 0 <= j < front.len() && front[j] == p as u64;
                assert(markers[j] == p as u64);
            }
        }
    }
}

/// The offsets stay behind the table through a poll cycle: if every
/// message before the consumed positions was persisted when the cycle
/// began, so it is when the cycle has ended. No acknowledgement and no
/// commit runs ahead of a confirmed write.
pub proof fn lemma_cycle_keeps_persisted(queue: QueueView, table: TableView)
    requires
        queue.wf(),
        table.wf(),
        persisted(queue, table),
    ensures
        persisted(cycle_queue(queue, table), cycle_table(queue, table)),
{
    let batches = queue.batches();
    let run = drain(table, batches);
    let after = cycle_queue(queue, table);
    let acked = acknowledge_all(queue.polled(), run.acknowledged);
    lemma_acknowledge_all_keeps_shape(queue.polled(), run.acknowledged);
    lemma_batches_are_partitions(queue, queue.partitions.len() as int);
    assert forall|p: int, o: int|
        0 <= p < after.partitions.len() && 0 <= o < after.partitions[p].consumed implies stored(
        run.table.rows,
        #[trigger] after.partitions[p].log[o],
    ) by {
        lemma_acknowledge_all_at(queue.polled(), run.acknowledged, p);
        let part = queue.partitions[p];
        assert(part.wf());
        assert(after.partitions[p] == acked.partitions[p].committed());
        assert(after.partitions[p].log == part.log);
        if o < part.consumed {
            assert(stored(table.rows, queue.partitions[p].log[o]));
            lemma_drain_keeps_stored(table, batches, part.log[o]);
        } else {
            assert(run.acknowledged.contains(p as u64));
            let i = lemma_acknowledged_batch_is_stored(table, batches, p as u64);
            assert(batches[i] == queue.batch(p));
            let k = o - part.consumed;
            assert(batches[i].payloads[k] == part.log[o]);
        }
    }
}

/// A restart keeps the offsets behind the table: it only takes back what
/// was consumed and not committed.
pub proof fn lemma_restart_keeps_persisted(queue: QueueView, table: TableView)
    requires
        queue.wf(),
        persisted(queue, table),
    ensures
        persisted(queue.restarted(), table),
{
    let after = queue.restarted();
    assert forall|p: int, o: int|
        0 <= p < after.partitions.len() && 0 <= o < after.partitions[p].consumed implies stored(
        table.rows,
        #[trigger] after.partitions[p].log[o],
    ) by {
        assert(queue.partitions[p].wf());
        assert(stored(table.rows, queue.partitions[p].log[o]));
    }
}

/// Whether batch `i` of a run decodes as a whole and is written: whether
/// the table, as the batches before it have left it, applies its write.
pub open spec fn goes_through(table: TableView, batches: Seq<BatchView>, i: int) -> bool {
    &&& decode_all(batches[i].payloads) is Ok
    &&& drain(table, batches.take(i)).table.upsert_outcome(
        decode_all(batches[i].payloads)->Ok_0,
    ) is Ok
}

/// A run acknowledges exactly the batches that go through.
pub proof fn lemma_acknowledged_iff_goes_through(
    table: TableView,
    batches: Seq<BatchView>,
    marker: u64,
)
    ensures
        drain(table, batches).acknowledged.contains(marker) <==> exists|i: int|
            0 <= i < batches.len() && batches[i].marker == marker && #[trigger] goes_through(
                table,
                batches,
                i,
            ),
    decreases batches.len(),
{
    let after = drain(table, batches);
    if batches.len() > 0 {
        let front = batches.drop_last();
        let last = batches.last();
        let before = drain(table, front);
        let n = batches.len() - 1;
        lemma_acknowledged_iff_goes_through(table, front, marker);
        assert(batches.take(n) =~= front);
        assert forall|i: int| 0 <= i < n implies goes_through(table, front, i) == goes_through(
            table,
            batches,
            i,
        ) by {
            assert(front.take(i) =~= batches.take(i));
        }
        if after.acknowledged.contains(marker) {
            if before.acknowledged.contains(marker) {
                let i = choose|i: int|
                    0 <= i < front.len() && front[i].marker == marker && #[trigger] goes_through(
                        table,
                        front,
                        i,
                    );
                assert(goes_through(table, batches, i));
            } else {
                let j = choose|j: int|
                    0 <= j < after.acknowledged.len() && after.acknowledged[j] == marker;
                if goes_through(table, batches, n) {
                    if j < before.acknowledged.len() {
                        assert(before.acknowledged[j] == marker);
                    }
                    assert(last.marker == marker);
                } else {
                    assert(before.acknowledged[j] == marker);
                }
            }
        }
        if exists|i: int|
            0 <= i < batches.len() && batches[i].marker == marker && #[trigger] goes_through(
                table,
                batches,
                i,
            ) {
            let i = choose|i: int|
                0 <= i < batches.len() && batches[i].marker == marker && #[trigger] goes_through(
                    table,
                    batches,
                    i,
                );
            if i == n {
                assert(after.acknowledged[before.acknowledged.len() as int] == marker);
            } else {
                assert(goes_through(table, front, i));
                let j = choose|j: int|
                    0 <= j < before.acknowledged.len() && before.acknowledged[j] == marker;
                assert(after.acknowledged[j] == marker);
            }
        }
    }
}

/// What a poll cycle does to the partition of a batch: where the batch goes
/// through, what was delivered is consumed and committed; where it does
/// not, because a message is no bar or because the write fails, the
/// partition is as before the poll, and the next poll delivers the same
/// batch.
pub proof fn lemma_cycle_at_batch(queue: QueueView, table: TableView, i: int)
    requires
        queue.wf(),
        table.wf(),
        0 <= i < queue.batches().len(),
    ensures
        ({
            let p = queue.batches()[i].marker as int;
            let before = queue.partitions[p];
            let after = cycle_queue(queue, table).partitions[p];
            &&& 0 <= p < queue.partitions.len()
            &&& queue.batches()[i] == queue.batch(p)
            &&& after.log == before.log
            &&& if goes_through(table, queue.batches(), i) {
                &&& after.consumed == before.fetch_end(queue.fetch)
                &&& after.committed == before.fetch_end(queue.fetch)
            } else {
                &&& after.consumed == before.consumed
                &&& cycle_queue(queue, table).batch(p) == queue.batch(p)
            }
        }),
{
    let batches = queue.batches();
    let run = drain(table, batches);
    let marker = batches[i].marker;
    let p = marker as int;
    lemma_batches_are_partitions(queue, queue.partitions.len() as int);
    lemma_acknowledge_all_at(queue.polled(), run.acknowledged, p);
    lemma_acknowledge_all_keeps_shape(queue.polled(), run.acknowledged);
    lemma_acknowledged_iff_goes_through(table, batches, marker);
    assert(queue.partitions[p].wf());
    if !goes_through(table, batches, i) {
        if run.acknowledged.contains(marker) {
            let j = choose|j: int|
                0 <= j < batches.len() && batches[j].marker == marker && #[trigger] goes_through(
                    table,
                    batches,
                    j,
                );
            if j < i {
                assert(batches[j].marker < batches[i].marker);
            } else if i < j {
                assert(batches[i].marker < batches[j].marker);
            }
            assert(false);
        }
    }
}

/// A batch with a message that is no bar leaves no trace: the run leaves
/// the table, the count of rows and the acknowledgements as if the batch
/// had not been polled.
pub proof fn lemma_malformed_batch_leaves_no_trace(
    table: TableView,
    batches: Seq<BatchView>,
    i: int,
)
    requires
        0 <= i < batches.len(),
        decode_all(batches[i].payloads) is Err,
    ensures
        drain(table, batches).table == drain(table, batches.remove(i)).table,
        drain(table, batches).inserted == drain(table, batches.remove(i)).inserted,
        drain(table, batches).acknowledged == drain(table, batches.remove(i)).acknowledged,
        drain(table, batches).failed == drain(table, batches.remove(i)).failed,
    decreases batches.len(),
{
    let n = batches.len() - 1;
    if i == n {
        assert(batches.remove(i) =~= batches.drop_last());
    } else {
        lemma_malformed_batch_leaves_no_trace(table, batches.drop_last(), i);
        assert(batches.remove(i).drop_last() =~= batches.drop_last().remove(i));
        assert(batches.remove(i).last() == batches.last());
    }
}

/// A crash between the write of a batch and its acknowledgement loses
/// nothing and doubles nothing: the consumer that starts anew finds the
/// batch unconsumed and is handed it again, and writing it again leaves
/// the table as the first write left it, with no row inserted.
pub proof fn lemma_crash_before_acknowledgement(queue: QueueView, table: TableView, p: int)
    requires
        queue.wf(),
        table.wf(),
        persisted(queue, table),
        0 <= p < queue.partitions.len(),
        queue.partitions[p].committed == queue.partitions[p].consumed,
        decode_all(queue.batch(p).payloads) is Ok,
        table.upsert_outcome(decode_all(queue.batch(p).payloads)->Ok_0) is Ok,
    ensures
        ({
            let bars = decode_all(queue.batch(p).payloads)->Ok_0;
            let written = table.upsert(bars);
            let crashed = queue.polled().restarted();
            &&& crashed.partitions[p].consumed == queue.partitions[p].consumed
            &&& crashed.batch(p) == queue.batch(p)
            &&& written.upsert(bars) == written
            &&& written.upsert_outcome(bars) == Ok::<int, WriteError>(0)
            &&& persisted(crashed, written)
        }),
{
    let bars = decode_all(queue.batch(p).payloads)->Ok_0;
    let written = table.upsert(bars);
    let crashed = queue.polled().restarted();
    lemma_upsert_is_idempotent(table.rows, bars);
    assert forall|q: int, o: int|
        0 <= q < crashed.partitions.len() && 0 <= o < crashed.partitions[q].consumed implies stored(
        written.rows,
        #[trigger] crashed.partitions[q].log[o],
    ) by {
        assert(queue.partitions[q].wf());
        assert(stored(table.rows, queue.partitions[q].log[o]));
        lemma_write_keeps_stored(table, bars, queue.partitions[q].log[o]);
    }
}

/// A poll cycle takes nothing back: it leaves the log of each partition as
/// it was, and neither the consumed nor the committed position behind
/// where it found them.
pub proof fn lemma_cycle_goes_forward(queue: QueueView, table: TableView, p: int)
    requires
        queue.wf(),
        0 <= p < queue.partitions.len(),
    ensures
        cycle_queue(queue, table).wf(),
        cycle_queue(queue, table).partitions.len() == queue.partitions.len(),
        cycle_queue(queue, table).partitions[p].log == queue.partitions[p].log,
        cycle_queue(queue, table).partitions[p].consumed >= queue.partitions[p].consumed,
        cycle_queue(queue, table).partitions[p].committed >= queue.partitions[p].committed,
        cycle_queue(queue, table).partitions[p].committed == cycle_queue(
            queue,
            table,
        ).partitions[p].consumed,
{
    let acknowledged = cycle(queue, table).acknowledged;
    lemma_acknowledge_all_keeps_shape(queue.polled(), acknowledged);
    lemma_acknowledge_all_at(queue.polled(), acknowledged, p);
    assert(queue.partitions[p].wf());
    let after = cycle_queue(queue, table);
    let parts = after.partitions;
    assert forall|q: int| 0 <= q < parts.len() implies (#[trigger] parts[q]).wf() by {
        lemma_acknowledge_all_at(queue.polled(), acknowledged, q);
        assert(queue.partitions[q].wf());
    }
}

} // verus!
