//! A message queue in memory, for one consumer group.
//!
//! The queue keeps, for each partition, a log of messages and three
//! positions in it: up to where the group's offset is committed, up to
//! where messages are marked as consumed, and up to where the last poll
//! delivered. A poll hands out, for each partition that has any, the
//! messages that follow the consumed position; so what was delivered and
//! not acknowledged is delivered again. A restart forgets what was consumed
//! and not committed.

use crate::codec::payloads_of;
use crate::ingest::Batch;
use crate::ingest::BatchView;
use crate::ingest::batches_of;
use vstd::prelude::*;

verus! {

/// The mathematical content of one partition.
pub struct PartitionView {
    pub log: Seq<Seq<u8>>,
    pub committed: int,
    pub consumed: int,
    pub delivered: int,
}

impl PartitionView {
    pub open spec fn wf(self) -> bool {
        0 <= self.committed <= self.consumed <= self.delivered <= self.log.len()
    }

    /// Where a poll of at most `fetch` messages ends.
    pub open spec fn fetch_end(self, fetch: int) -> int {
        if self.consumed + fetch <= self.log.len() {
            self.consumed + fetch
        } else {
            self.log.len() as int
        }
    }

    /// The messages that a poll hands out.
    pub open spec fn pending(self, fetch: int) -> Seq<Seq<u8>> {
        self.log.subrange(self.consumed, self.fetch_end(fetch))
    }

    pub open spec fn polled(self, fetch: int) -> PartitionView {
        PartitionView { delivered: self.fetch_end(fetch), ..self }
    }

    pub open spec fn acknowledged(self) -> PartitionView {
        PartitionView { consumed: self.delivered, ..self }
    }

    pub open spec fn committed(self) -> PartitionView {
        PartitionView { committed: self.consumed, ..self }
    }

    pub open spec fn restarted(self) -> PartitionView {
        PartitionView { consumed: self.committed, delivered: self.committed, ..self }
    }

    pub open spec fn published(self, message: Seq<u8>) -> PartitionView {
        PartitionView { log: self.log.push(message), ..self }
    }
}

/// The mathematical content of a [`MemoryQueue`].
pub struct QueueView {
    pub partitions: Seq<PartitionView>,
    pub fetch: int,
}

impl QueueView {
    pub open spec fn wf(self) -> bool {
        &&& 0 <= self.fetch <= usize::MAX
        &&& self.partitions.len() <= usize::MAX
        &&& forall|p: int| 0 <= p < self.partitions.len() ==> (#[trigger] self.partitions[p]).wf()
    }

    /// The batch that a poll hands out for a partition.
    pub open spec fn batch(self, p: int) -> BatchView {
        BatchView { marker: p as u64, payloads: self.partitions[p].pending(self.fetch) }
    }

    /// The batches that a poll hands out for the first `n` partitions: one
    /// for each partition that has messages past its consumed position.
    pub open spec fn batches_upto(self, n: int) -> Seq<BatchView>
        decreases n,
    {
        if n <= 0 {
            Seq::empty()
        } else if self.partitions[n - 1].consumed < self.partitions[n - 1].log.len() {
            self.batches_upto(n - 1).push(self.batch(n - 1))
        } else {
            self.batches_upto(n - 1)
        }
    }

    /// The batches that a poll hands out.
    pub open spec fn batches(self) -> Seq<BatchView> {
        self.batches_upto(self.partitions.len() as int)
    }

    /// The queue after a poll.
    pub open spec fn polled(self) -> QueueView {
        QueueView {
            partitions: self.partitions.map_values(|p: PartitionView| p.polled(self.fetch)),
            ..self
        }
    }

    /// The queue after the batch under a marker is acknowledged.
    pub open spec fn acknowledged(self, marker: u64) -> QueueView {
        if marker < self.partitions.len() {
            QueueView {
                partitions: self.partitions.update(
                    marker as int,
                    self.partitions[marker as int].acknowledged(),
                ),
                ..self
            }
        } else {
            self
        }
    }

    /// The queue after a commit.
    pub open spec fn committed(self) -> QueueView {
        QueueView {
            partitions: self.partitions.map_values(|p: PartitionView| p.committed()),
            ..self
        }
    }

    /// The queue as a consumer finds it that starts anew.
    pub open spec fn restarted(self) -> QueueView {
        QueueView {
            partitions: self.partitions.map_values(|p: PartitionView| p.restarted()),
            ..self
        }
    }

    /// The queue after a message is appended to a partition.
    pub open spec fn published(self, partition: int, message: Seq<u8>) -> QueueView {
        if 0 <= partition < self.partitions.len() {
            QueueView {
                partitions: self.partitions.update(
                    partition,
                    self.partitions[partition].published(message),
                ),
                ..self
            }
        } else {
            self
        }
    }
}

/// One partition of the queue.
#[derive(Debug)]
struct Partition {
    log: Vec<Vec<u8>>,
    committed: usize,
    consumed: usize,
    delivered: usize,
}

impl View for Partition {
    type V = PartitionView;

    closed spec fn view(&self) -> PartitionView {
        PartitionView {
            log: payloads_of(self.log@),
            committed: self.committed as int,
            consumed: self.consumed as int,
            delivered: self.delivered as int,
        }
    }
}

/// The views of a run of partitions.
closed spec fn partitions_of(partitions: Seq<Partition>) -> Seq<PartitionView> {
    partitions.map_values(|p: Partition| p@)
}

/// A queue in memory.
#[derive(Debug)]
pub struct MemoryQueue {
    partitions: Vec<Partition>,
    fetch: usize,
}

impl View for MemoryQueue {
    type V = QueueView;

    closed spec fn view(&self) -> QueueView {
        QueueView { partitions: partitions_of(self.partitions@), fetch: self.fetch as int }
    }
}

impl MemoryQueue {
    /// Holds of every queue: each operation sees to it.
    #[verifier::type_invariant]
    pub open spec fn wf(&self) -> bool {
        self@.wf()
    }

    /// A queue of empty partitions, whose polls hand out at most `fetch`
    /// messages of each partition.
    pub fn new(partitions: usize, fetch: usize) -> (queue: MemoryQueue)
        ensures
            queue.wf(),
            queue@.fetch == fetch,
            queue@.partitions.len() == partitions,
            forall|p: int|
                0 <= p < partitions ==> #[trigger] queue@.partitions[p] == (PartitionView {
                    log: Seq::empty(),
                    committed: 0,
                    consumed: 0,
                    delivered: 0,
                }),
    {
        let mut parts: Vec<Partition> = Vec::new();
        let mut i: usize = 0;
        while i < partitions
            invariant
                i <= partitions,
                parts@.len() == i,
                forall|p: int|
                    0 <= p < i ==> (#[trigger] parts@[p])@ == (PartitionView {
                        log: Seq::empty(),
                        committed: 0,
                        consumed: 0,
                        delivered: 0,
                    }),
            decreases partitions - i,
        {
            let part = Partition { log: Vec::new(), committed: 0, consumed: 0, delivered: 0 };
            assert(payloads_of(part.log@) =~= Seq::<Seq<u8>>::empty());
            parts.push(part);
            i += 1;
        }
        MemoryQueue { partitions: parts, fetch }
    }

    /// The number of partitions.
    pub fn partitions(&self) -> (n: usize)
        ensures
            n == self@.partitions.len(),
    {
        self.partitions.len()
    }

    /// The number of messages in a partition.
    pub fn published(&self, partition: usize) -> (n: Option<usize>)
        ensures
            n is Some <==> partition < self@.partitions.len(),
            n is Some ==> n->0 == self@.partitions[partition as int].log.len(),
    {
        if partition < self.partitions.len() {
            Some(self.partitions[partition].log.len())
        } else {
            None
        }
    }

    /// The position up to which a partition is marked as consumed.
    pub fn consumed(&self, partition: usize) -> (n: Option<usize>)
        ensures
            n is Some <==> partition < self@.partitions.len(),
            n is Some ==> n->0 == self@.partitions[partition as int].consumed,
    {
        if partition < self.partitions.len() {
            Some(self.partitions[partition].consumed)
        } else {
            None
        }
    }

    /// The position up to which the offset of a partition is committed.
    pub fn committed(&self, partition: usize) -> (n: Option<usize>)
        ensures
            n is Some <==> partition < self@.partitions.len(),
            n is Some ==> n->0 == self@.partitions[partition as int].committed,
    {
        if partition < self.partitions.len() {
            Some(self.partitions[partition].committed)
        } else {
            None
        }
    }

    /// Takes the partitions out of the queue, to work on them; the queue
    /// is left without partitions until they are put back.
    fn take_partitions(&mut self) -> (parts: Vec<Partition>)
        ensures
            parts@ == old(self).partitions@,
            final(self).partitions@.len() == 0,
            final(self).fetch == old(self).fetch,
            old(self)@.wf(),
    {
        proof {
            use_type_invariant(&*self);
        }
        let mut parts: Vec<Partition> = Vec::new();
        assert(partitions_of(parts@) =~= Seq::<PartitionView>::empty());
        std::mem::swap(&mut self.partitions, &mut parts);
        parts
    }

    /// Appends a message to a partition. Returns whether there is such a
    /// partition.
    pub fn publish(&mut self, partition: usize, message: Vec<u8>) -> (done: bool)
        ensures
            final(self).wf(),
            done == (partition < old(self)@.partitions.len()),
            final(self)@ == old(self)@.published(partition as int, message@),
    {
        let mut parts = self.take_partitions();
        let ghost start = partitions_of(parts@);
        let done = partition < parts.len();
        if done {
            let ghost before = parts@[partition as int].log@;
            parts[partition].log.push(message);
            proof {
                let after = parts@[partition as int].log@;
                assert(payloads_of(after) =~= payloads_of(before).push(message@));
                assert(partitions_of(parts@) =~= start.update(
                    partition as int,
                    start[partition as int].published(message@),
                ));
            }
        }
        self.partitions = parts;
        done
    }

    /// Polls: hands out one batch for each partition that has messages past
    /// its consumed position, with the partition's number as the marker.
    pub fn poll(&mut self) -> (batches: Vec<Batch>)
        ensures
            final(self).wf(),
            final(self)@ == old(self)@.polled(),
            batches_of(batches@) == old(self)@.batches(),
    {
        let ghost start = self@;
        let fetch: usize = self.fetch;
        let mut parts = self.take_partitions();
        let mut batches: Vec<Batch> = Vec::new();
        let n: usize = parts.len();
        let mut p: usize = 0;
        assert(batches_of(batches@) =~= start.batches_upto(0));
        while p < n
            invariant
                p <= n,
                n == parts@.len(),
                start.wf(),
                fetch == start.fetch,
                start.partitions.len() == n,
                forall|k: int|
                    0 <= k < p ==> (#[trigger] parts@[k])@ == start.partitions[k].polled(
                        start.fetch,
                    ),
                forall|k: int| p <= k < n ==> (#[trigger] parts@[k])@ == start.partitions[k],
                batches_of(batches@) == start.batches_upto(p as int),
            decreases n - p,
        {
            let ghost part = parts@[p as int]@;
            assert(part == start.partitions[p as int]);
            let consumed: usize = parts[p].consumed;
            let length: usize = parts[p].log.len();
            let room: usize = length - consumed;
            let end: usize = if fetch <= room {
                consumed + fetch
            } else {
                length
            };
            if consumed < length {
                let mut messages: Vec<Vec<u8>> = Vec::new();
                let mut i: usize = consumed;
                while i < end
                    invariant
                        consumed <= i <= end <= length,
                        p < parts@.len(),
                        length == parts@[p as int].log@.len(),
                        part == parts@[p as int]@,
                        messages@.len() == i - consumed,
                        forall|k: int|
                            0 <= k < messages@.len() ==> (#[trigger] messages@[k])@ == part.log[
                                consumed + k],
                    decreases end - i,
                {
                    let message = parts[p].log[i].clone();
                    messages.push(message);
                    i += 1;
                }
                let ghost before = batches_of(batches@);
                let batch = Batch { marker: p as u64, messages };
                assert(batch@.payloads =~= part.pending(start.fetch));
                batches.push(batch);
                assert(batches_of(batches@) =~= before.push(start.batch(p as int)));
            }
            parts[p].delivered = end;
            p += 1;
        }
        assert(partitions_of(parts@) =~= start.polled().partitions);
        self.partitions = parts;
        batches
    }

    /// Marks the batch that the last poll handed out under the marker as
    /// consumed. Returns whether there is a partition under the marker.
    pub fn acknowledge(&mut self, marker: u64) -> (done: bool)
        ensures
            final(self).wf(),
            done == (marker < old(self)@.partitions.len()),
            final(self)@ == old(self)@.acknowledged(marker),
    {
        let mut parts = self.take_partitions();
        let ghost start = partitions_of(parts@);
        let done = marker < parts.len() as u64;
        if done {
            let p: usize = marker as usize;
            assert(start[p as int].wf());
            let delivered: usize = parts[p].delivered;
            parts[p].consumed = delivered;
            assert(partitions_of(parts@) =~= start.update(p as int, start[p as int].acknowledged()));
        }
        self.partitions = parts;
        done
    }

    /// Commits the offsets: what is consumed is committed.
    pub fn commit(&mut self)
        ensures
            final(self).wf(),
            final(self)@ == old(self)@.committed(),
    {
        let ghost start = self@;
        let mut parts = self.take_partitions();
        let n: usize = parts.len();
        let mut p: usize = 0;
        while p < n
            invariant
                p <= n,
                n == parts@.len(),
                start.wf(),
                start.partitions.len() == n,
                forall|k: int|
                    0 <= k < p ==> (#[trigger] parts@[k])@ == start.partitions[k].committed(),
                forall|k: int| p <= k < n ==> (#[trigger] parts@[k])@ == start.partitions[k],
            decreases n - p,
        {
            let consumed: usize = parts[p].consumed;
            parts[p].committed = consumed;
            p += 1;
        }
        assert(partitions_of(parts@) =~= start.committed().partitions);
        self.partitions = parts;
    }

    /// Starts the consumer anew: what was consumed and not committed is
    /// forgotten, and will be delivered again.
    pub fn restart(&mut self)
        ensures
            final(self).wf(),
            final(self)@ == old(self)@.restarted(),
    {
        let ghost start = self@;
        let mut parts = self.take_partitions();
        let n: usize = parts.len();
        let mut p: usize = 0;
        while p < n
            invariant
                p <= n,
                n == parts@.len(),
                start.wf(),
                start.partitions.len() == n,
                forall|k: int|
                    0 <= k < p ==> (#[trigger] parts@[k])@ == start.partitions[k].restarted(),
                forall|k: int| p <= k < n ==> (#[trigger] parts@[k])@ == start.partitions[k],
            decreases n - p,
        {
            let committed: usize = parts[p].committed;
            parts[p].consumed = committed;
            parts[p].delivered = committed;
            p += 1;
        }
        assert(partitions_of(parts@) =~= start.restarted().partitions);
        self.partitions = parts;
    }
}

} // verus!
