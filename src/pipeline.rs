//! The genome pipeline: a bounded queue that producers keep filled with fresh
//! random genomes, so that spawning a creature never waits on making one.

use crate::dna::DNA;
use crossbeam_channel::{Receiver, RecvError, Sender};
use vstd::prelude::*;

verus! {

#[verifier::external_type_specification]
#[verifier::external_body]
#[verifier::reject_recursive_types(T)]
pub struct ExSender<T>(Sender<T>);

#[verifier::external_type_specification]
#[verifier::external_body]
#[verifier::reject_recursive_types(T)]
pub struct ExReceiver<T>(Receiver<T>);

#[verifier::external_type_specification]
#[verifier::external_body]
pub struct ExRecvError(RecvError);

/// What `crossbeam_channel::Receiver::capacity` gives: the slots a bounded
/// queue was made with, `None` for an unbounded one.
pub uninterp spec fn queue_capacity(r: Receiver<DNA>) -> Option<nat>;

/// Slots of the queue in the standard configuration.
pub const PIPELINE_CAPACITY: usize = 1024;

/// The largest queue whose slot bookkeeping fits in a `usize`.
pub const MAX_PIPELINE_CAPACITY: usize = usize::MAX / 4;

/// Relies on `crossbeam_channel::bounded`: a queue of `cap` slots, whose
/// senders wait while it is full and whose receiver waits while it is
/// empty; it panics only when `cap + 1`, rounded up to a power of two and
/// doubled, overflows.
#[verifier::external_body]
fn bounded_queue(cap: usize) -> (r: (Sender<DNA>, Receiver<DNA>))
    requires
        0 < cap <= MAX_PIPELINE_CAPACITY,
    ensures
        queue_capacity(r.1) == Some(cap as nat),
{
    crossbeam_channel::bounded(cap)
}

/// Relies on `crossbeam_channel::Sender::send`: waits for a free slot and
/// queues the genome (`true`), or fails once every receiver is gone
/// (`false`).
#[verifier::external_body]
fn send_genome(sender: &Sender<DNA>, dna: DNA) -> (sent: bool) {
    sender.send(dna).is_ok()
}

/// Relies on `crossbeam_channel::Receiver::recv`: waits for a queued genome,
/// or fails once the queue is empty and every sender is gone.
#[verifier::external_body]
fn receive_genome(receiver: &Receiver<DNA>) -> (r: Result<DNA, RecvError>) {
    receiver.recv()
}

/// Relies on `Clone` of `crossbeam_channel::Sender`: one more sender on the
/// same queue.
#[verifier::external_body]
fn clone_sender(sender: &Sender<DNA>) -> (r: Sender<DNA>) {
    sender.clone()
}

/// Relies on `crossbeam_channel::Receiver::len`: the genomes queued now,
/// never more than a bounded queue's capacity.
#[verifier::external_body]
fn queued(receiver: &Receiver<DNA>) -> (r: usize)
    ensures
        queue_capacity(*receiver) matches Some(cap) ==> r <= cap,
{
    receiver.len()
}

/// Every producer is gone and the queue is empty.
#[derive(Clone, Copy, Debug, PartialEq, Eq, Structural)]
pub struct PipelineClosed;

/// The receiving end of the pipeline.
pub struct GenomePipeline {
    receiver: Receiver<DNA>,
    capacity: usize,
}

/// A sending end of the pipeline, one per producing worker.
pub struct GenomeProducer {
    sender: Sender<DNA>,
}

impl GenomePipeline {
    pub closed spec fn spec_capacity(&self) -> nat {
        self.capacity as nat
    }

    /// The queue is bounded by the capacity the pipeline was made with.
    #[verifier::type_invariant]
    spec fn bounded_by_capacity(&self) -> bool {
        queue_capacity(self.receiver) == Some(self.capacity as nat)
    }

    /// A pipeline of `capacity` slots and its first producer.
    pub fn new(capacity: usize) -> (r: (GenomePipeline, GenomeProducer))
        requires
            0 < capacity <= MAX_PIPELINE_CAPACITY,
        ensures
            r.0.spec_capacity() == capacity,
    {
        let (sender, receiver) = bounded_queue(capacity);
        (GenomePipeline { receiver, capacity }, GenomeProducer { sender })
    }

    /// The next ready genome, waiting for one if none is queued.
    pub fn next_genome(&self) -> (r: Result<DNA, PipelineClosed>) {
        match receive_genome(&self.receiver) {
            Ok(dna) => Ok(dna),
            Err(_) => Err(PipelineClosed),
        }
    }

    /// `count` ready genomes, or `PipelineClosed` when the producers stop
    /// before that many arrived.
    pub fn take_genomes(&self, count: usize) -> (r: Result<Vec<DNA>, PipelineClosed>)
        ensures
            r matches Ok(v) ==> v@.len() == count,
            count == 0 ==> (r matches Ok(v) && v@.len() == 0),
    {
        let mut v: Vec<DNA> = Vec::new();
        let mut i: usize = 0;
        while i < count
            invariant
                i <= count,
                v@.len() == i,
            decreases count - i,
        {
            match self.next_genome() {
                Ok(dna) => v.push(dna),
                Err(e) => {
                    return Err(e);
                },
            }
            i = i + 1;
        }
        Ok(v)
    }

    pub fn capacity(&self) -> (r: usize)
        ensures
            r == self.spec_capacity(),
    {
        self.capacity
    }

    /// The genomes queued at this moment, never more than the capacity.
    pub fn pending(&self) -> (r: usize)
        ensures
            r <= self.spec_capacity(),
    {
        proof {
            use_type_invariant(self);
        }
        queued(&self.receiver)
    }
}

impl GenomeProducer {
    /// Another producer on the same pipeline.
    pub fn another(&self) -> (r: GenomeProducer) {
        GenomeProducer { sender: clone_sender(&self.sender) }
    }

    /// Makes one genome and queues it, waiting while the queue is full;
    /// `false` once the pipeline's receiving end is gone.
    pub fn produce(&self) -> (r: bool) {
        send_genome(&self.sender, DNA::generate())
    }

    /// Queues the given genome, waiting while the queue is full; `false`
    /// once the pipeline's receiving end is gone.
    pub fn offer(&self, dna: DNA) -> (r: bool) {
        send_genome(&self.sender, dna)
    }
}

impl DNA {
    /// A ready genome from the pipeline.
    pub fn generate_prechecked(pipeline: &GenomePipeline) -> (r: Result<DNA, PipelineClosed>) {
        pipeline.next_genome()
    }
}

} // verus!
