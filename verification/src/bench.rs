//! The plan of a benchmark: which prefix sizes of a corpus are measured, in
//! which order, and the samples that come of it.
//!
//! The engines and the clock are the caller's. It asks for the next size,
//! runs an engine on that many patterns and hands back the time it took.

use std::time::Duration;
use vstd::prelude::*;

verus! {

/// An engine under test.
#[derive(Clone, Copy, Debug, PartialEq, Eq, Structural)]
pub enum Engine {
    /// The native engine. One call takes the patterns and matches them.
    Quartz,
    /// The library engine. It builds a matcher first and matches then.
    Portmatching,
}

/// What the clock is to cover besides the matching itself.
#[derive(Clone, Copy, Debug, PartialEq, Eq, Structural)]
pub enum Timing {
    /// What the engine does in its one timed call, as its interface has it.
    Natural,
    /// The matching alone.
    MatchOnly,
    /// Building the matcher for the patterns, and the matching.
    WithCompilation,
}

/// Whether the clock runs while the patterns are made ready for matching.
/// Left to itself the native engine is timed with that work, the library
/// engine without it.
pub open spec fn clock_covers_compilation(engine: Engine, timing: Timing) -> bool {
    match timing {
        Timing::Natural => engine == Engine::Quartz,
        Timing::MatchOnly => false,
        Timing::WithCompilation => true,
    }
}

/// Whether the clock runs while the patterns are made ready for matching.
pub fn times_compilation(engine: Engine, timing: Timing) -> (covered: bool)
    ensures
        covered == clock_covers_compilation(engine, timing),
{
    match timing {
        Timing::Natural => engine == Engine::Quartz,
        Timing::MatchOnly => false,
        Timing::WithCompilation => true,
    }
}

/// The time that matching took against the first `corpus_size` patterns.
#[derive(Clone, Copy, Debug)]
pub struct BenchmarkSample {
    pub corpus_size: usize,
    pub elapsed: Duration,
}

/// The sizes that a corpus of `corpus_len` patterns can serve, in the order
/// in which they were asked for.
pub open spec fn usable_sizes(requested: Seq<usize>, corpus_len: nat) -> Seq<usize> {
    requested.filter(|n: usize| n <= corpus_len)
}

/// The sizes of the samples.
pub open spec fn sample_sizes(samples: Seq<BenchmarkSample>) -> Seq<usize> {
    samples.map_values(|s: BenchmarkSample| s.corpus_size)
}

/// Each size is at most the next.
pub open spec fn ascending(sizes: Seq<usize>) -> bool {
    forall|i: int, j: int| 0 <= i <= j < sizes.len() ==> sizes[i] <= sizes[j]
}

/// The sizes that a corpus of `corpus_len` patterns can serve.
pub fn bench_sizes(requested: &Vec<usize>, corpus_len: usize) -> (sizes: Vec<usize>)
    ensures
        sizes@ == usable_sizes(requested@, corpus_len as nat),
{
    let mut sizes: Vec<usize> = Vec::new();
    let mut at: usize = 0;
    let ghost fits = |n: usize| n <= corpus_len as nat;
    while at < requested.len()
        invariant
            at <= requested.len(),
            fits == |n: usize| n <= corpus_len as nat,
            sizes@ == requested@.take(at as int).filter(fits),
        decreases requested.len() - at,
    {
        proof {
            let grown = requested@.take(at + 1);
            assert(grown.drop_last() =~= requested@.take(at as int));
            reveal(Seq::filter);
        }
        if requested[at] <= corpus_len {
            sizes.push(requested[at]);
        }
        at = at + 1;
    }
    assert(requested@.take(at as int) =~= requested@);
    sizes
}

/// The sizes that are measured by default: every 200 up to 10000.
pub open spec fn default_sizes() -> Seq<usize> {
    Seq::new(50, |i: int| (200 * (i + 1)) as usize)
}

/// The sizes that are measured by default.
pub fn default_bench_sizes() -> (sizes: Vec<usize>)
    ensures
        sizes@ == default_sizes(),
{
    let mut sizes: Vec<usize> = Vec::new();
    let mut size: usize = 200;
    while size <= 10000
        invariant
            200 <= size <= 10200,
            size == 200 * (sizes@.len() + 1),
            forall|i: int| 0 <= i < sizes@.len() ==> sizes@[i] == 200 * (i + 1),
        decreases 10200 - size,
    {
        sizes.push(size);
        size = size + 200;
    }
    sizes
}

/// A benchmark under way: the sizes to measure, and the samples so far.
/// The samples never outrun the sizes, and each has the size that stands
/// in its place.
pub struct BenchmarkRun {
    sizes: Vec<usize>,
    samples: Vec<BenchmarkSample>,
}

impl BenchmarkRun {
    #[verifier::type_invariant]
    spec fn in_step(self) -> bool {
        &&& self.samples@.len() <= self.sizes@.len()
        &&& sample_sizes(self.samples@) == self.sizes@.take(self.samples@.len() as int)
    }

    /// The sizes that the run measures.
    pub closed spec fn plan(&self) -> Seq<usize> {
        self.sizes@
    }

    /// The samples taken so far.
    pub closed spec fn taken(&self) -> Seq<BenchmarkSample> {
        self.samples@
    }

    /// A run over the requested sizes that a corpus of `corpus_len` patterns
    /// can serve.
    pub fn new(requested: &Vec<usize>, corpus_len: usize) -> (run: Self)
        ensures
            run.plan() == usable_sizes(requested@, corpus_len as nat),
            run.taken().len() == 0,
    {
        let sizes = bench_sizes(requested, corpus_len);
        let samples: Vec<BenchmarkSample> = Vec::new();
        assert(sample_sizes(samples@) =~= sizes@.take(0));
        Self { sizes, samples }
    }

    /// The size to measure next, or nothing when all are measured.
    pub fn next_size(&self) -> (next: Option<usize>)
        ensures
            self.taken().len() <= self.plan().len(),
            next is Some <==> self.taken().len() < self.plan().len(),
            next matches Some(n) ==> n == self.plan()[self.taken().len() as int],
    {
        proof {
            use_type_invariant(self);
        }
        if self.samples.len() < self.sizes.len() {
            Some(self.sizes[self.samples.len()])
        } else {
            None
        }
    }

    /// Takes the time that the size given by `next_size` took, and gives the
    /// run with that sample added. When all sizes are measured the run stays
    /// as it is.
    pub fn record(self, elapsed: Duration) -> (next: Self)
        ensures
            next.plan() == self.plan(),
            self.taken().len() < self.plan().len() ==> next.taken() == self.taken().push(
                BenchmarkSample { corpus_size: self.plan()[self.taken().len() as int], elapsed },
            ),
            self.taken().len() >= self.plan().len() ==> next.taken() == self.taken(),
    {
        proof {
            use_type_invariant(&self);
        }
        let BenchmarkRun { sizes, mut samples } = self;
        if samples.len() < sizes.len() {
            let corpus_size = sizes[samples.len()];
            samples.push(BenchmarkSample { corpus_size, elapsed });
            assert(sample_sizes(samples@) =~= sizes@.take(samples@.len() as int));
        }
        BenchmarkRun { sizes, samples }
    }

    /// Whether every size of the plan has its sample.
    pub fn is_done(&self) -> (done: bool)
        ensures
            done == (self.taken().len() == self.plan().len()),
            done ==> sample_sizes(self.taken()) == self.plan(),
    {
        proof {
            use_type_invariant(self);
        }
        self.samples.len() == self.sizes.len()
    }

    /// The samples, in the order of the plan: one for each size that was
    /// measured, with that size.
    pub fn finish(self) -> (samples: Vec<BenchmarkSample>)
        ensures
            samples@ == self.taken(),
            samples@.len() <= self.plan().len(),
            sample_sizes(samples@) == self.plan().take(samples@.len() as int),
    {
        proof {
            use_type_invariant(&self);
        }
        self.samples
    }
}

/// A corpus that is large enough serves every size that was asked for.
pub proof fn law_large_corpus_serves_all(requested: Seq<usize>, corpus_len: nat)
    requires
        forall|i: int| 0 <= i < requested.len() ==> requested[i] <= corpus_len,
    ensures
        usable_sizes(requested, corpus_len) == requested,
    decreases requested.len(),
{
    reveal(Seq::filter);
    if requested.len() > 0 {
        law_large_corpus_serves_all(requested.drop_last(), corpus_len);
    }
}

/// Of ascending sizes a corpus serves the leading ones, up to the first
/// that is beyond it: the sizes served are a prefix of the sizes asked for,
/// and every size after the prefix is too large.
pub proof fn law_ascending_sizes_keep_a_prefix(requested: Seq<usize>, corpus_len: nat)
    requires
        ascending(requested),
    ensures
        usable_sizes(requested, corpus_len).len() <= requested.len(),
        usable_sizes(requested, corpus_len) == requested.take(usable_sizes(requested, corpus_len).len() as int),
        forall|i: int| usable_sizes(requested, corpus_len).len() <= i < requested.len() ==> requested[i] > corpus_len,
        ascending(usable_sizes(requested, corpus_len)),
    decreases requested.len(),
{
    reveal(Seq::filter);
    if requested.len() > 0 {
        let front = requested.drop_last();
        law_ascending_sizes_keep_a_prefix(front, corpus_len);
        let kept = usable_sizes(front, corpus_len);
        if requested.last() <= corpus_len {
            law_large_corpus_serves_all(front, corpus_len);
        } else {
            assert forall|i: int| kept.len() <= i < requested.len() implies requested[i] > corpus_len by {
                if i < front.len() {
                    assert(front[i] == requested[i]);
                }
            }
        }
    }
}

} // verus!
