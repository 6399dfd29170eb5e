//! Sample history, ingestion count and memoized snapshot of a spectral
//! analyzer. The numeric work of an analysis is supplied by the caller; what
//! is kept here is when it runs, on what, and what becomes of its result.
use vstd::prelude::*;
use crate::circular_buffer::CircularBuffer;
use crate::circular_buffer::retained_after_push;

verus! {

/// The state around a spectral analysis of a live sample stream.
///
/// `S` is the stored sample and `A` the snapshot that one analysis yields.
/// Every ingested sample invalidates the snapshot; an analysis computes a
/// new one only if none is held.
pub struct Analyzer<S, A> {
    bin_count: usize,
    sample_rate: u32,
    buffer: CircularBuffer<S>,
    since_last_ingestion: u64,
    snapshot: Option<A>,
}

impl<S, A> Analyzer<S, A> {
    #[verifier::type_invariant]
    spec fn well_formed(&self) -> bool {
        &&& self.buffer.in_bounds()
        &&& self.buffer.capacity_spec() > 2
        &&& self.bin_count > 0
        &&& self.sample_rate > 0
    }

    /// The retained samples and their storage.
    pub closed spec fn history(&self) -> CircularBuffer<S> {
        self.buffer
    }

    /// Number of frequency bins, fixed at construction.
    pub closed spec fn bin_count_spec(&self) -> nat {
        self.bin_count as nat
    }

    /// Samples per second, fixed at construction.
    pub closed spec fn sample_rate_spec(&self) -> nat {
        self.sample_rate as nat
    }

    /// Number of samples ingested since the last computed analysis.
    pub closed spec fn pending(&self) -> nat {
        self.since_last_ingestion as nat
    }

    /// The snapshot held, if no sample has arrived since it was computed.
    pub closed spec fn cached(&self) -> Option<A> {
        self.snapshot
    }

    /// What every analyzer in use satisfies: the configuration it was
    /// constructed with is positive and the history has more than two slots.
    pub open spec fn configured(&self) -> bool {
        &&& self.history().in_bounds()
        &&& self.history().capacity_spec() > 2
        &&& self.bin_count_spec() > 0
        &&& self.sample_rate_spec() > 0
    }

    /// `after` is this analyzer once `stored` has been ingested: the sample
    /// is the newest of the history, one more ingestion is pending and no
    /// snapshot is held.
    pub open spec fn ingested(&self, stored: S, after: &Self) -> bool {
        &&& after.bin_count_spec() == self.bin_count_spec()
        &&& after.sample_rate_spec() == self.sample_rate_spec()
        &&& after.history().capacity_spec() == self.history().capacity_spec()
        &&& after.history()@ == retained_after_push(
            self.history()@,
            self.history().capacity_spec(),
            stored,
        )
        &&& after.history().storage() == self.history().storage().update(
            self.history().slot_of(self.history().size_spec() as int),
            stored,
        )
        &&& after.history().start_spec() == if self.history().size_spec()
            < self.history().capacity_spec() {
            self.history().start_spec() as int
        } else {
            self.history().slot_of(1)
        }
        &&& after.pending() == self.pending() + 1
        &&& after.cached() is None
    }

    /// `after` is this analyzer once an analysis has returned `snapshot`:
    /// a held snapshot is returned as it is and nothing changes; otherwise
    /// `snapshot` is held from now on and no ingestion is pending.
    pub open spec fn analyzed(&self, snapshot: A, after: &Self) -> bool {
        match self.cached() {
            Some(held) => snapshot == held && *after == *self,
            None => {
                &&& after.bin_count_spec() == self.bin_count_spec()
                &&& after.sample_rate_spec() == self.sample_rate_spec()
                &&& after.history() == self.history()
                &&& after.pending() == 0
                &&& after.cached() == Some(snapshot)
            },
        }
    }
}

/// Two analyses with no sample ingested between them return the same
/// snapshot, whatever the second one would have computed, and the second
/// leaves the analyzer as the first left it.
pub proof fn lemma_analysis_is_memoized<S, A>(
    before: Analyzer<S, A>,
    first: A,
    between: Analyzer<S, A>,
    second: A,
    after: Analyzer<S, A>,
)
    requires
        before.analyzed(first, &between),
        between.analyzed(second, &after),
    ensures
        between.cached() == Some(first),
        second == first,
        after == between,
{
}

/// An ingested sample invalidates the snapshot: the analysis that follows
/// holds no earlier result and keeps what is computed for it, with every
/// ingestion accounted for.
pub proof fn lemma_ingestion_invalidates<S, A>(
    before: Analyzer<S, A>,
    stored: S,
    between: Analyzer<S, A>,
    snapshot: A,
    after: Analyzer<S, A>,
)
    requires
        before.ingested(stored, &between),
        between.analyzed(snapshot, &after),
    ensures
        between.cached() is None,
        between.pending() > 0,
        after.cached() == Some(snapshot),
        after.pending() == 0,
        after.history() == between.history(),
{
}

impl<S: Copy, A> Analyzer<S, A> {
    /// An analyzer over a history of `buffer_size` slots, each holding
    /// `fill`, with nothing ingested and no snapshot held.
    pub fn new(buffer_size: usize, bin_count: usize, sample_rate: u32, fill: S) -> (analyzer: Self)
        requires
            buffer_size > 2,
            bin_count > 0,
            sample_rate > 0,
        ensures
            analyzer.configured(),
            analyzer.history().capacity_spec() == buffer_size,
            analyzer.history().storage() == Seq::new(buffer_size as nat, |i: int| fill),
            analyzer.history().start_spec() == 0,
            analyzer.history()@ == Seq::<S>::empty(),
            analyzer.bin_count_spec() == bin_count,
            analyzer.sample_rate_spec() == sample_rate,
            analyzer.pending() == 0,
            analyzer.cached() is None,
    {
        Analyzer {
            bin_count,
            sample_rate,
            buffer: CircularBuffer::new(buffer_size, fill),
            since_last_ingestion: 0,
            snapshot: None,
        }
    }

    /// The retained samples with their storage, for reading.
    pub fn get_buffer(&self) -> (buffer: &CircularBuffer<S>)
        ensures
            *buffer == self.history(),
            buffer.in_bounds(),
            buffer.capacity_spec() > 2,
    {
        proof {
            use_type_invariant(self);
        }
        &self.buffer
    }

    /// Number of frequency bins, as given at construction.
    pub fn bin_count(&self) -> (bin_count: usize)
        ensures
            bin_count == self.bin_count_spec(),
            bin_count > 0,
    {
        proof {
            use_type_invariant(self);
        }
        self.bin_count
    }

    /// Samples per second, as given at construction.
    pub fn sample_rate(&self) -> (sample_rate: u32)
        ensures
            sample_rate == self.sample_rate_spec(),
            sample_rate > 0,
    {
        proof {
            use_type_invariant(self);
        }
        self.sample_rate
    }

    /// Number of samples ingested since the last computed analysis.
    pub fn since_last_ingestion(&self) -> (count: u64)
        ensures
            count == self.pending(),
    {
        self.since_last_ingestion
    }

    /// The snapshot held, if any.
    pub fn get_cached(&self) -> (held: Option<&A>)
        ensures
            held is Some <==> self.cached() is Some,
            held matches Some(snapshot) ==> self.cached() == Some(*snapshot),
    {
        self.snapshot.as_ref()
    }

    /// Ingests one sample, already scaled for storage.
    pub fn push(&mut self, stored: S)
        requires
            old(self).pending() < u64::MAX,
        ensures
            final(self).configured(),
            old(self).ingested(stored, final(self)),
    {
        proof {
            use_type_invariant(&*self);
        }
        self.buffer.push(stored);
        self.since_last_ingestion = self.since_last_ingestion + 1;
        self.snapshot = None;
    }

    /// The snapshot of the current history: the one held, if no sample has
    /// arrived since it was computed; otherwise what `compute` makes of the
    /// history and of the number of samples ingested since the last
    /// computation, which is then held until the next sample arrives.
    pub fn analyze<F>(&mut self, compute: F) -> (snapshot: &A) where
        F: FnOnce(&CircularBuffer<S>, u64) -> A,

        requires
            old(self).cached() is None ==> compute.requires(
                (&old(self).history(), old(self).pending() as u64),
            ),
        ensures
            final(self).configured(),
            old(self).analyzed(*snapshot, final(self)),
            old(self).cached() is None ==> compute.ensures(
                (&old(self).history(), old(self).pending() as u64),
                *snapshot,
            ),
    {
        proof {
            use_type_invariant(&*self);
        }
        if self.snapshot.is_none() {
            let computed = compute(&self.buffer, self.since_last_ingestion);
            self.since_last_ingestion = 0;
            self.snapshot = Some(computed);
        }
        self.snapshot.as_ref().unwrap()
    }
}

} // verus!
