//! The two execution modes: what is signed, what is recorded, and when to stop.

use crate::chart::{runs_of, Run};
use crate::pkcs11::Curve;
use crate::setup::optional_text;
use crate::signer::{
    because, check_length, explain, length_checked, unit_or_text, verification_of, KeyModel,
    Signer,
};
use crate::stats::{Phase, Samples};
use crate::text::{decimal, decimal_text};
use vstd::prelude::*;
use vstd::string::StringExecFns;

verus! {

/// `std::path::PathBuf`, carried through.
#[verifier::external_type_specification]
#[verifier::external_body]
pub struct ExPathBuf(std::path::PathBuf);

/// What a single signature is to be of.
pub struct SingleOptions {
    pub to: [u8; 32],
    pub lamports: u64,
    pub blockhash: [u8; 32],
    pub json: bool,
}

/// What a benchmark is to measure.
pub struct BenchOptions {
    pub iterations: usize,
    pub warmup: usize,
    /// The shortest time to warm up for, in seconds.
    pub warmup_time: u64,
    pub lamports: u64,
    pub to: [u8; 32],
    pub output: Option<std::path::PathBuf>,
    pub chart: Option<std::path::PathBuf>,
}

/// What judging a signature over a message gives.
pub open spec fn judged(key: KeyModel, message: Seq<u8>, signature: Seq<u8>) -> Result<
    (),
    Seq<char>,
> {
    length_checked(key.curve, signature.len(), verification_of(key, message, signature))
}

/// A message with a signature that has verified.
pub struct Signed {
    message: Vec<u8>,
    signature: Vec<u8>,
    key: Ghost<KeyModel>,
}

pub struct SignedModel {
    pub message: Seq<u8>,
    pub signature: Seq<u8>,
    pub key: KeyModel,
}

impl View for Signed {
    type V = SignedModel;

    closed spec fn view(&self) -> SignedModel {
        SignedModel { message: self.message@, signature: self.signature@, key: self.key@ }
    }
}

impl Signed {
    #[verifier::type_invariant]
    spec fn inv(self) -> bool {
        judged(self@.key, self@.message, self@.signature) is Ok
    }

    pub fn message(&self) -> (message: &[u8])
        ensures
            message@ == self@.message,
            judged(self@.key, self@.message, self@.signature) is Ok,
    {
        proof {
            use_type_invariant(self);
        }
        self.message.as_slice()
    }

    pub fn signature(&self) -> (signature: &[u8])
        ensures
            signature@ == self@.signature,
            judged(self@.key, self@.message, self@.signature) is Ok,
    {
        proof {
            use_type_invariant(self);
        }
        self.signature.as_slice()
    }
}

impl Signer {
    /// Judge a signature that the module returned: by its length, and by
    /// verifying it.
    pub fn judge(&self, message: &[u8], signature: &[u8]) -> (r: Result<(), String>)
        ensures
            unit_or_text(r) == judged(self@.key, message@, signature@),
    {
        check_length(self.curve(), signature.len(), self.verify(message, signature))
    }

    /// Take a signature that the module returned, if it verifies.
    pub fn accept(&self, message: &[u8], signature: &[u8]) -> (r: Result<Signed, String>)
        ensures
            match judged(self@.key, message@, signature@) {
                Ok(()) => r matches Ok(s) && s@ == (SignedModel {
                    message: message@,
                    signature: signature@,
                    key: self@.key,
                }),
                Err(text) => r matches Err(e) && e@ == text,
            },
    {
        match self.judge(message, signature) {
            Err(e) => Err(e),
            Ok(()) => Ok(
                Signed {
                    message: vstd::slice::slice_to_vec(message),
                    signature: vstd::slice::slice_to_vec(signature),
                    key: Ghost(self@.key),
                },
            ),
        }
    }
}

/// One timed iteration, in nanoseconds per phase.
pub struct Iteration {
    sign_init: u64,
    sign: u64,
    verify: u64,
    total: u64,
}

pub struct IterationModel {
    pub sign_init: u64,
    pub sign: u64,
    pub verify: u64,
    pub total: u64,
}

impl View for Iteration {
    type V = IterationModel;

    closed spec fn view(&self) -> IterationModel {
        IterationModel {
            sign_init: self.sign_init,
            sign: self.sign,
            verify: self.verify,
            total: self.total,
        }
    }
}

/// What an iteration took in a phase.
pub open spec fn timing_of(iteration: IterationModel, phase: Phase) -> u64 {
    match phase {
        Phase::SignInit => iteration.sign_init,
        Phase::Sign => iteration.sign,
        Phase::Verify => iteration.verify,
        Phase::Total => iteration.total,
    }
}

impl Iteration {
    #[verifier::type_invariant]
    spec fn inv(self) -> bool {
        self.total == self.sign_init + self.sign + self.verify
    }

    /// An iteration whose phases followed on each other without a gap. There
    /// is none whose total would not fit in 64 bits.
    pub fn new(sign_init: u64, sign: u64, verify: u64) -> (r: Option<Iteration>)
        ensures
            r is Some <==> sign_init + sign + verify <= u64::MAX,
            r matches Some(i) ==> i@ == (IterationModel {
                sign_init,
                sign,
                verify,
                total: (sign_init + sign + verify) as u64,
            }),
    {
        let total: u128 = sign_init as u128 + sign as u128 + verify as u128;
        if total > u64::MAX as u128 {
            return None;
        }
        Some(Iteration { sign_init, sign, verify, total: total as u64 })
    }

    /// What the iteration took in a phase.
    pub fn timing(&self, phase: Phase) -> (nanos: u64)
        ensures
            nanos == timing_of(self@, phase),
            self@.total == self@.sign_init + self@.sign + self@.verify,
    {
        proof {
            use_type_invariant(self);
        }
        match phase {
            Phase::SignInit => self.sign_init,
            Phase::Sign => self.sign,
            Phase::Verify => self.verify,
            Phase::Total => self.total,
        }
    }
}

/// The phases that are recorded per message. With one-shot message signing the
/// initialisation runs once during setup, so it is not among them.
pub open spec fn phases_for(curve: Curve) -> Seq<Phase> {
    match curve {
        Curve::Ed25519 => seq![Phase::Sign, Phase::Verify, Phase::Total],
        Curve::P256 => seq![Phase::SignInit, Phase::Sign, Phase::Verify, Phase::Total],
    }
}

/// The runs after one more iteration.
pub open spec fn recorded(runs: Seq<Run>, iteration: IterationModel) -> Seq<Run> {
    runs.map_values(|r: Run| (r.0, r.1.push(timing_of(iteration, r.0))))
}

/// What to do next in a benchmark.
#[derive(Debug, Clone, Copy, PartialEq, Eq, Structural)]
pub enum Next {
    /// Sign the payload with this number, and discard the sample.
    WarmUp(u64),
    /// The warmup is over, the measurement begins.
    Begin,
    /// Sign the payload with this number, and keep the samples.
    Measure(u64),
    /// The measurement was interrupted after this many iterations.
    Interrupted(u64),
    /// All iterations are done.
    Finish,
    /// An iteration has failed, or the warmup was interrupted: sign no more.
    Abort,
}

/// The state of a benchmark.
pub struct BenchModel {
    pub curve: Curve,
    pub iterations: nat,
    pub warmup: nat,
    /// In nanoseconds.
    pub warmup_time: nat,
    /// Whether the warmup is over.
    pub measuring: bool,
    /// The totals of the warmup iterations.
    pub warm: Seq<u64>,
    /// The samples of each phase.
    pub runs: Seq<Run>,
    /// How many iterations were measured.
    pub completed: nat,
    /// Why the run was given up, where it was.
    pub failed: Option<Seq<char>>,
}

/// What holds of a benchmark at every point: each phase has one sample per
/// measured iteration, and within an iteration no phase took longer than the
/// whole.
pub open spec fn consistent(m: BenchModel) -> bool {
    &&& 0 < m.iterations
    &&& m.warmup + m.iterations <= usize::MAX
    &&& m.completed <= m.iterations
    &&& m.runs.len() == phases_for(m.curve).len()
    &&& forall|p: int|
        0 <= p < m.runs.len() ==> (#[trigger] m.runs[p]).0 == phases_for(m.curve)[p]
            && m.runs[p].1.len() == m.completed
    &&& forall|p: int, i: int|
        0 <= p < m.runs.len() && 0 <= i < m.completed ==> #[trigger] m.runs[p].1[i]
            <= m.runs.last().1[i]
}

/// Whether the warmup is done: both as many iterations as asked for and as much
/// time have passed, or the numbers for payloads are used up.
pub open spec fn warmed_up(m: BenchModel, elapsed: nat) -> bool {
    (m.warm.len() >= m.warmup && elapsed >= m.warmup_time) || m.warm.len() + m.iterations
        >= u64::MAX
}

/// The number of the payload of warmup iteration `k`. The first ones are
/// numbered before the measured ones, any further ones after them.
pub open spec fn warmup_payload(m: BenchModel, k: nat) -> nat {
    if k < m.warmup {
        k
    } else {
        k + m.iterations
    }
}

/// The number of the payload of measured iteration `k`.
pub open spec fn measured_payload(m: BenchModel, k: nat) -> nat {
    m.warmup + k
}

/// What comes next, after `elapsed` nanoseconds of warmup.
pub open spec fn next_of(m: BenchModel, elapsed: nat, interrupted: bool) -> Next {
    if m.failed is Some {
        Next::Abort
    } else if !m.measuring {
        if warmed_up(m, elapsed) {
            Next::Begin
        } else if interrupted {
            Next::Abort
        } else {
            Next::WarmUp(warmup_payload(m, m.warm.len()) as u64)
        }
    } else if m.completed >= m.iterations {
        Next::Finish
    } else if interrupted {
        Next::Interrupted(m.completed as u64)
    } else {
        Next::Measure(measured_payload(m, m.completed) as u64)
    }
}

/// The benchmark after that. An interrupted warmup is a run given up.
pub open spec fn moved_on(m: BenchModel, elapsed: nat, interrupted: bool) -> BenchModel {
    if m.failed is Some || m.measuring {
        m
    } else if warmed_up(m, elapsed) {
        BenchModel { measuring: true, ..m }
    } else if interrupted {
        BenchModel { failed: Some("interrupted during warmup"@), ..m }
    } else {
        m
    }
}

/// The benchmark after one more iteration: of a warmup iteration the total is
/// set aside, a measured one is recorded. A run given up takes in no more.
pub open spec fn with_iteration(m: BenchModel, iteration: IterationModel) -> BenchModel {
    if m.failed is Some {
        m
    } else if !m.measuring {
        BenchModel { warm: m.warm.push(iteration.total), ..m }
    } else if m.completed < m.iterations {
        BenchModel {
            runs: recorded(m.runs, iteration),
            completed: m.completed + 1,
            ..m
        }
    } else {
        m
    }
}

/// The benchmark after an iteration that failed: given up, for that reason.
pub open spec fn with_failure(m: BenchModel, cause: Seq<char>) -> BenchModel {
    if m.failed is Some {
        m
    } else {
        BenchModel { failed: Some(failure_of(m, cause)), ..m }
    }
}

/// Whether a benchmark has a result, or why it has none.
pub open spec fn conclusion_of(m: BenchModel) -> Result<(), Seq<char>> {
    match m.failed {
        Some(reason) => Err(reason),
        None => if m.completed == 0 {
            Err("no iterations completed"@)
        } else {
            Ok(())
        },
    }
}

/// What the failure of an iteration is reported as.
pub open spec fn failure_of(m: BenchModel, cause: Seq<char>) -> Seq<char> {
    if m.measuring {
        because(
            "signing failed at iteration "@ + decimal(m.completed) + " of "@ + decimal(
                m.iterations,
            ),
            cause,
        )
    } else {
        because("warmup iteration failed"@, cause)
    }
}

/// The bookkeeping of a benchmark.
///
/// The first failure ends it: a run with retried or skipped iterations is a
/// corrupted measurement, and retries would mask the very tail latency that
/// the high percentiles exist to expose.
pub struct Benchmark {
    curve: Curve,
    iterations: usize,
    warmup: usize,
    warmup_time: u128,
    measuring: bool,
    warm: Samples,
    phases: Vec<(Phase, Samples)>,
    completed: usize,
    failed: Option<String>,
}

impl View for Benchmark {
    type V = BenchModel;

    closed spec fn view(&self) -> BenchModel {
        BenchModel {
            curve: self.curve,
            iterations: self.iterations as nat,
            warmup: self.warmup as nat,
            warmup_time: self.warmup_time as nat,
            measuring: self.measuring,
            warm: self.warm@,
            runs: runs_of(self.phases@),
            completed: self.completed as nat,
            failed: optional_text(self.failed),
        }
    }
}

/// A benchmark before its first iteration.
pub open spec fn fresh(curve: Curve, options: BenchOptions) -> BenchModel {
    BenchModel {
        curve,
        iterations: options.iterations as nat,
        warmup: options.warmup as nat,
        warmup_time: options.warmup_time as nat * 1_000_000_000,
        measuring: false,
        warm: Seq::empty(),
        runs: phases_for(curve).map_values(|p: Phase| (p, Seq::<u64>::empty())),
        completed: 0,
        failed: None,
    }
}

fn empty_phases(curve: Curve, n: usize) -> (phases: Vec<(Phase, Samples)>)
    ensures
        runs_of(phases@) == phases_for(curve).map_values(|p: Phase| (p, Seq::<u64>::empty())),
{
    let mut phases: Vec<(Phase, Samples)> = Vec::new();
    match curve {
        Curve::Ed25519 => {},
        Curve::P256 => {
            phases.push((Phase::SignInit, Samples::with_capacity(n)));
        },
    }
    phases.push((Phase::Sign, Samples::with_capacity(n)));
    phases.push((Phase::Verify, Samples::with_capacity(n)));
    phases.push((Phase::Total, Samples::with_capacity(n)));
    assert(runs_of(phases@) =~= phases_for(curve).map_values(
        |p: Phase| (p, Seq::<u64>::empty()),
    ));
    phases
}

impl Benchmark {
    #[verifier::type_invariant]
    spec fn inv(self) -> bool {
        consistent(self@)
    }

    /// A benchmark of a key on a curve. It needs at least one iteration.
    pub fn new(curve: Curve, options: &BenchOptions) -> (r: Result<Benchmark, String>)
        requires
            options.warmup + options.iterations <= usize::MAX,
        ensures
            r is Ok <==> options.iterations > 0,
            r matches Ok(b) ==> b@ == fresh(curve, *options),
            r matches Err(e) ==> e@ == "--iterations must be at least 1"@,
    {
        if options.iterations == 0 {
            return Err(String::from_str("--iterations must be at least 1"));
        }
        let phases = empty_phases(curve, options.iterations);
        Ok(
            Benchmark {
                curve,
                iterations: options.iterations,
                warmup: options.warmup,
                warmup_time: options.warmup_time as u128 * 1_000_000_000,
                measuring: false,
                warm: Samples::with_capacity(options.warmup),
                phases,
                completed: 0,
                failed: None,
            },
        )
    }

    /// What comes next, given how long the warmup has lasted and whether the
    /// run was asked to stop.
    pub fn next(self, elapsed: u128, interrupted: bool) -> (r: (Benchmark, Next))
        ensures
            r.0@ == moved_on(self@, elapsed as nat, interrupted),
            r.1 == next_of(self@, elapsed as nat, interrupted),
    {
        proof {
            use_type_invariant(&self);
        }
        let Benchmark {
            curve,
            iterations,
            warmup,
            warmup_time,
            measuring,
            warm,
            phases,
            completed,
            failed,
        } = self;
        let n: usize = warm.len();
        let used_up = n as u128 + iterations as u128 >= u64::MAX as u128;
        let over = (n >= warmup && elapsed >= warmup_time) || used_up;
        let mut measuring = measuring;
        let mut failed = failed;
        let next = if failed.is_some() {
            Next::Abort
        } else if !measuring {
            if over {
                measuring = true;
                Next::Begin
            } else if interrupted {
                failed = Some(String::from_str("interrupted during warmup"));
                Next::Abort
            } else if n < warmup {
                Next::WarmUp(n as u64)
            } else {
                Next::WarmUp(n as u64 + iterations as u64)
            }
        } else if completed >= iterations {
            Next::Finish
        } else if interrupted {
            Next::Interrupted(completed as u64)
        } else {
            Next::Measure(warmup as u64 + completed as u64)
        };
        let after = Benchmark {
            curve,
            iterations,
            warmup,
            warmup_time,
            measuring,
            warm,
            phases,
            completed,
            failed,
        };
        (after, next)
    }

    /// Take in an iteration.
    pub fn record(self, iteration: &Iteration) -> (after: Benchmark)
        ensures
            after@ == with_iteration(self@, iteration@),
    {
        proof {
            use_type_invariant(&self);
            use_type_invariant(iteration);
        }
        let ghost m = self@;
        let Benchmark {
            curve,
            iterations,
            warmup,
            warmup_time,
            measuring,
            warm,
            phases,
            completed,
            failed,
        } = self;
        let mut warm = warm;
        let mut phases = phases;
        let mut completed = completed;
        let live = failed.is_none();
        if live && !measuring {
            warm.push(iteration.total);
        } else if live && completed < iterations {
            let ghost before = phases@;
            let mut i: usize = 0;
            while i < phases.len()
                invariant
                    i <= phases@.len() == before.len(),
                    forall|p: int|
                        0 <= p < i ==> (#[trigger] phases@[p]).0 == before[p].0 && phases@[p].1@
                            == before[p].1@.push(timing_of(iteration@, before[p].0)),
                    forall|p: int| i <= p < before.len() ==> #[trigger] phases@[p] == before[p],
                decreases phases.len() - i,
            {
                let phase = phases[i].0;
                let nanos = iteration.timing(phase);
                phases[i].1.push(nanos);
                i = i + 1;
            }
            completed = completed + 1;
            proof {
                let runs = runs_of(phases@);
                assert(runs =~= recorded(m.runs, iteration@));
                assert(phases_for(curve).last() == Phase::Total);
                assert forall|p: int, k: int|
                    0 <= p < runs.len() && 0 <= k < completed implies #[trigger] runs[p].1[k]
                    <= runs.last().1[k] by {
                    let last = m.runs.len() - 1;
                    assert(m.runs[p].1.len() == m.completed);
                    assert(m.runs[last].1.len() == m.completed);
                    assert(m.runs[last].0 == Phase::Total);
                    if k < m.completed {
                        assert(m.runs[p].1[k] <= m.runs.last().1[k]);
                    }
                }
            }
        }
        Benchmark {
            curve,
            iterations,
            warmup,
            warmup_time,
            measuring,
            warm,
            phases,
            completed,
            failed,
        }
    }

    /// Take in that an iteration failed, and why: the run is given up.
    pub fn fail(self, cause: &str) -> (after: Benchmark)
        ensures
            after@ == with_failure(self@, cause@),
    {
        proof {
            use_type_invariant(&self);
        }
        let Benchmark {
            curve,
            iterations,
            warmup,
            warmup_time,
            measuring,
            warm,
            phases,
            completed,
            failed,
        } = self;
        let failed = match failed {
            Some(reason) => Some(reason),
            None => if measuring {
                let mut context = String::from_str("signing failed at iteration ");
                let done = decimal_text(completed as u128);
                context.append(done.as_str());
                context.append(" of ");
                let all = decimal_text(iterations as u128);
                context.append(all.as_str());
                Some(explain(context.as_str(), cause))
            } else {
                Some(explain("warmup iteration failed", cause))
            },
        };
        Benchmark {
            curve,
            iterations,
            warmup,
            warmup_time,
            measuring,
            warm,
            phases,
            completed,
            failed,
        }
    }

    /// The result of the run, if it was not given up and measured anything.
    pub fn conclude(self) -> (r: Result<Measured, String>)
        ensures
            match conclusion_of(self@) {
                Ok(()) => r matches Ok(measured) && measured@ == self@,
                Err(reason) => r matches Err(e) && e@ == reason,
            },
    {
        match &self.failed {
            Some(reason) => {
                return Err(String::from_str(reason.as_str()));
            },
            None => {},
        }
        if self.completed == 0 {
            return Err(String::from_str("no iterations completed"));
        }
        Ok(Measured { benchmark: self })
    }

    pub fn completed(&self) -> (n: usize)
        ensures
            n == self@.completed,
    {
        self.completed
    }
}

/// A benchmark that was not given up and has measured at least one iteration.
/// There is no report, no file of samples and no chart of any other.
pub struct Measured {
    benchmark: Benchmark,
}

impl View for Measured {
    type V = BenchModel;

    closed spec fn view(&self) -> BenchModel {
        self.benchmark@
    }
}

impl Measured {
    #[verifier::type_invariant]
    spec fn inv(self) -> bool {
        conclusion_of(self@) is Ok
    }

    pub fn curve(&self) -> (curve: Curve)
        ensures
            curve == self@.curve,
    {
        self.benchmark.curve
    }

    pub fn completed(&self) -> (n: usize)
        ensures
            n == self@.completed,
    {
        self.benchmark.completed
    }

    /// The samples of each phase.
    pub fn phases(&self) -> (phases: &[(Phase, Samples)])
        ensures
            runs_of(phases@) == self@.runs,
            consistent(self@),
            conclusion_of(self@) is Ok,
    {
        proof {
            use_type_invariant(self);
            use_type_invariant(&self.benchmark);
        }
        self.benchmark.phases.as_slice()
    }

    /// The totals of the warmup iterations.
    pub fn warmup(&self) -> (warm: &Samples)
        ensures
            warm@ == self@.warm,
    {
        &self.benchmark.warm
    }
}

/// Every step, every iteration and every failure keeps a benchmark consistent.
pub proof fn law_benchmark_stays_consistent(
    m: BenchModel,
    elapsed: nat,
    interrupted: bool,
    iteration: IterationModel,
    cause: Seq<char>,
)
    requires
        consistent(m),
        iteration.total == iteration.sign_init + iteration.sign + iteration.verify,
    ensures
        consistent(moved_on(m, elapsed, interrupted)),
        consistent(with_iteration(m, iteration)),
        consistent(with_failure(m, cause)),
{
    let after = with_iteration(m, iteration);
    assert forall|p: int, k: int|
        0 <= p < after.runs.len() && 0 <= k < after.completed implies #[trigger] after.runs[p].1[k]
        <= after.runs.last().1[k] by {
        let last = m.runs.len() - 1;
        assert(m.runs[p].1.len() == m.completed);
        assert(m.runs[last].1.len() == m.completed);
        assert(m.runs[last].0 == Phase::Total);
        if k < m.completed {
            assert(m.runs[p].1[k] <= m.runs.last().1[k]);
        }
    }
}

/// The measurement begins only after both the iterations and the time of the
/// warmup, and then no warmup iteration follows.
pub proof fn law_warmup_runs_until_both(m: BenchModel, elapsed: nat, interrupted: bool)
    requires
        m.warm.len() + m.iterations < u64::MAX,
    ensures
        next_of(m, elapsed, interrupted) is Begin <==> m.failed is None && !m.measuring
            && m.warm.len() >= m.warmup && elapsed >= m.warmup_time,
        next_of(m, elapsed, interrupted) is WarmUp ==> m.warm.len() < m.warmup || elapsed
            < m.warmup_time,
        moved_on(m, elapsed, interrupted).measuring ==> !(next_of(
            moved_on(m, elapsed, interrupted),
            elapsed,
            interrupted,
        ) is WarmUp),
{
}

/// The first failure ends the run, be it in the warmup or measured: there are
/// no retries and no skipped iterations. From then on there is nothing to sign,
/// whatever comes changes nothing, and there is no result but the reason.
pub proof fn law_failure_ends_the_run(
    m: BenchModel,
    cause: Seq<char>,
    elapsed: nat,
    interrupted: bool,
    iteration: IterationModel,
    later: Seq<char>,
)
    ensures
        ({
            let ended = with_failure(m, cause);
            &&& next_of(ended, elapsed, interrupted) is Abort
            &&& moved_on(ended, elapsed, interrupted) == ended
            &&& with_iteration(ended, iteration) == ended
            &&& with_failure(ended, later) == ended
            &&& conclusion_of(ended) is Err
            &&& m.failed is None ==> conclusion_of(ended) == Err::<(), Seq<char>>(
                failure_of(m, cause),
            )
        }),
{
}

/// A run that was given up, also by interrupting its warmup, has no result and
/// signs nothing more; nothing else is given up.
pub proof fn law_only_failures_and_interrupted_warmups_abort(
    m: BenchModel,
    elapsed: nat,
    interrupted: bool,
)
    ensures
        next_of(m, elapsed, interrupted) is Abort <==> moved_on(
            m,
            elapsed,
            interrupted,
        ).failed is Some,
        m.failed is None && moved_on(m, elapsed, interrupted).failed is Some ==> interrupted
            && !m.measuring && conclusion_of(moved_on(m, elapsed, interrupted)) == Err::<
            (),
            Seq<char>,
        >("interrupted during warmup"@),
{
}

/// No two iterations sign a payload of the same number, be they of the warmup
/// or measured.
pub proof fn law_payload_numbers_are_distinct(m: BenchModel, i: nat, j: nat)
    ensures
        i != j ==> warmup_payload(m, i) != warmup_payload(m, j),
        i != j ==> measured_payload(m, i) != measured_payload(m, j),
        j < m.iterations ==> warmup_payload(m, i) != measured_payload(m, j),
{
}

/// A recorded iteration leaves all earlier samples as they were.
pub proof fn law_samples_are_retained(m: BenchModel, iteration: IterationModel, p: int)
    requires
        consistent(m),
        0 <= p < m.runs.len(),
    ensures
        m.runs[p].1.is_prefix_of(with_iteration(m, iteration).runs[p].1),
        m.warm.is_prefix_of(with_iteration(m, iteration).warm),
{
    let after = with_iteration(m, iteration);
    assert(m.runs[p].1 =~= after.runs[p].1.take(m.runs[p].1.len() as int));
    assert(m.warm =~= after.warm.take(m.warm.len() as int));
}

/// A measured iteration adds one sample to each phase that is recorded, and it
/// is the time of that very phase: signing is filed under signing, verification
/// under verification, on either curve.
pub proof fn law_iteration_is_filed_by_phase(m: BenchModel, iteration: IterationModel, p: int)
    requires
        consistent(m),
        m.failed is None,
        m.measuring,
        m.completed < m.iterations,
        0 <= p < m.runs.len(),
    ensures
        ({
            let before = m.runs[p];
            let after = with_iteration(m, iteration).runs[p];
            &&& after.0 == before.0
            &&& after.1.len() == before.1.len() + 1
            &&& after.1.take(before.1.len() as int) == before.1
            &&& before.0 == Phase::SignInit ==> after.1.last() == iteration.sign_init
            &&& before.0 == Phase::Sign ==> after.1.last() == iteration.sign
            &&& before.0 == Phase::Verify ==> after.1.last() == iteration.verify
            &&& before.0 == Phase::Total ==> after.1.last() == iteration.total
        }),
        with_iteration(m, iteration).runs.len() == m.runs.len(),
        with_iteration(m, iteration).completed == m.completed + 1,
        with_iteration(m, iteration).warm == m.warm,
{
    let before = m.runs[p];
    let after = with_iteration(m, iteration).runs[p];
    assert(after.1.take(before.1.len() as int) =~= before.1);
}

/// The time asked for of a phase is the time of that phase.
pub proof fn law_timings_are_those_of_the_phase(iteration: IterationModel)
    ensures
        timing_of(iteration, Phase::SignInit) == iteration.sign_init,
        timing_of(iteration, Phase::Sign) == iteration.sign,
        timing_of(iteration, Phase::Verify) == iteration.verify,
        timing_of(iteration, Phase::Total) == iteration.total,
{
}

/// A warmup iteration is discarded from the measurement: only its total is set
/// aside, behind those of the earlier ones.
pub proof fn law_warmup_is_set_aside(m: BenchModel, iteration: IterationModel)
    requires
        m.failed is None,
        !m.measuring,
    ensures
        ({
            let after = with_iteration(m, iteration);
            &&& after.warm.len() == m.warm.len() + 1
            &&& after.warm.last() == iteration.total
            &&& after.warm.take(m.warm.len() as int) == m.warm
            &&& after.runs == m.runs
            &&& after.completed == m.completed
            &&& !after.measuring
        }),
{
    let after = with_iteration(m, iteration);
    assert(after.warm.take(m.warm.len() as int) =~= m.warm);
}

/// A benchmark starts with nothing measured, with the numbers that were asked
/// for, and with a place for each phase of the curve: one-shot message signing
/// has no initialisation per message.
pub proof fn law_benchmark_starts_empty(curve: Curve, options: BenchOptions, p: int)
    ensures
        ({
            let m = fresh(curve, options);
            &&& m.curve == curve
            &&& m.iterations == options.iterations
            &&& m.warmup == options.warmup
            &&& m.warmup_time == 1_000_000_000 * options.warmup_time
            &&& m.failed is None && !m.measuring && m.completed == 0
            &&& m.warm.len() == 0
            &&& curve == Curve::Ed25519 ==> m.runs.len() == 3 && m.runs[0].0 == Phase::Sign
                && m.runs[1].0 == Phase::Verify && m.runs[2].0 == Phase::Total
            &&& curve == Curve::P256 ==> m.runs.len() == 4 && m.runs[0].0 == Phase::SignInit
                && m.runs[1].0 == Phase::Sign && m.runs[2].0 == Phase::Verify && m.runs[3].0
                == Phase::Total
            &&& 0 <= p < m.runs.len() ==> m.runs[p].1.len() == 0
        }),
{
}

/// What is next: while warming up the payloads from the first on, and beyond
/// the warmup's own those behind all measured ones; while measuring the payload
/// behind as many as were measured, until all are; an interruption stops either
/// one. To ask changes nothing but where the warmup ends.
pub proof fn law_what_comes_next(m: BenchModel, elapsed: nat, interrupted: bool)
    requires
        consistent(m),
        m.failed is None,
        m.warm.len() + m.iterations < u64::MAX,
    ensures
        m.measuring && m.completed == m.iterations ==> next_of(m, elapsed, interrupted) is Finish,
        m.measuring && m.completed < m.iterations && interrupted ==> next_of(
            m,
            elapsed,
            interrupted,
        ) == Next::Interrupted(m.completed as u64),
        m.measuring && m.completed < m.iterations && !interrupted ==> (next_of(
            m,
            elapsed,
            interrupted,
        ) matches Next::Measure(number) && number == m.warmup + m.completed),
        !m.measuring && !interrupted && m.warm.len() < m.warmup ==> (next_of(
            m,
            elapsed,
            interrupted,
        ) matches Next::WarmUp(number) && number == m.warm.len()),
        !m.measuring && !interrupted && m.warm.len() >= m.warmup && elapsed < m.warmup_time ==> (
        next_of(m, elapsed, interrupted) matches Next::WarmUp(number) && number == m.warm.len()
            + m.iterations),
        !m.measuring && interrupted && (m.warm.len() < m.warmup || elapsed < m.warmup_time)
            ==> next_of(m, elapsed, interrupted) is Abort,
        moved_on(m, elapsed, interrupted).measuring <==> m.measuring || next_of(
            m,
            elapsed,
            interrupted,
        ) is Begin,
        ({
            let after = moved_on(m, elapsed, interrupted);
            &&& after.curve == m.curve && after.iterations == m.iterations
            &&& after.warmup == m.warmup && after.warmup_time == m.warmup_time
            &&& after.warm == m.warm && after.runs == m.runs && after.completed == m.completed
        }),
{
}

/// The pre-generated payloads are exactly those that are signed: each warmup
/// iteration that was asked for and each measured one has its own among the
/// first `warmup + iterations`, in order.
pub proof fn law_pregenerated_payloads_suffice(m: BenchModel, i: nat, j: nat)
    ensures
        i < m.warmup ==> warmup_payload(m, i) == i,
        i >= m.warmup ==> warmup_payload(m, i) >= m.warmup + m.iterations,
        j < m.iterations ==> m.warmup <= measured_payload(m, j) < m.warmup + m.iterations,
        measured_payload(m, j + 1) == measured_payload(m, j) + 1,
{
}

/// The failure of an iteration is reported with its cause at the end. Before it
/// stand, while measuring, the number of the iteration and of how many.
pub proof fn law_failure_says_where_and_why(m: BenchModel, cause: Seq<char>)
    ensures
        ({
            let text = failure_of(m, cause);
            let start = if m.measuring {
                "signing failed at iteration "@ + decimal(m.completed) + " of "@ + decimal(
                    m.iterations,
                )
            } else {
                "warmup iteration failed"@
            };
            &&& text.len() == start.len() + 2 + cause.len()
            &&& text.take(start.len() as int) == start
            &&& text.skip(start.len() as int + 2) == cause
        }),
{
    reveal_strlit(": ");
    let text = failure_of(m, cause);
    let start = if m.measuring {
        "signing failed at iteration "@ + decimal(m.completed) + " of "@ + decimal(m.iterations)
    } else {
        "warmup iteration failed"@
    };
    assert(text.take(start.len() as int) =~= start);
    assert(text.skip(start.len() as int + 2) =~= cause);
}

/// A benchmark has a result exactly where it was not given up and measured
/// something; why it was given up is what is reported.
pub proof fn law_conclusion(m: BenchModel)
    ensures
        conclusion_of(m) is Ok <==> m.failed is None && m.completed > 0,
        m.failed is Some ==> conclusion_of(m) == Err::<(), Seq<char>>(m.failed->0),
        m.failed is None && m.completed == 0 ==> conclusion_of(m) == Err::<(), Seq<char>>(
            "no iterations completed"@,
        ),
{
}

/// A signature is accepted exactly where it verifies and, on Ed25519, has 64
/// bytes; a wrong length is what is reported first.
pub proof fn law_accepted_signatures_verify(key: KeyModel, message: Seq<u8>, signature: Seq<u8>)
    ensures
        judged(key, message, signature) is Ok <==> verification_of(key, message, signature) is Ok
            && (key.curve == Curve::Ed25519 ==> signature.len() == 64),
        key.curve == Curve::P256 ==> judged(key, message, signature) == verification_of(
            key,
            message,
            signature,
        ),
        key.curve == Curve::Ed25519 && signature.len() == 64 ==> judged(key, message, signature)
            == verification_of(key, message, signature),
{
}

/// An iteration, a failure or a step changes nothing but what it is about: the
/// curve and the numbers that were asked for stay, an iteration leaves whether
/// the warmup is over, a failure leaves all samples.
pub proof fn law_what_stays(
    m: BenchModel,
    elapsed: nat,
    interrupted: bool,
    iteration: IterationModel,
    cause: Seq<char>,
)
    ensures
        ({
            let after = with_iteration(m, iteration);
            &&& after.curve == m.curve && after.iterations == m.iterations
            &&& after.warmup == m.warmup && after.warmup_time == m.warmup_time
            &&& after.measuring == m.measuring && after.failed == m.failed
            &&& m.measuring ==> after.warm == m.warm
            &&& m.failed is Some || (m.measuring && m.completed >= m.iterations) ==> after == m
        }),
        ({
            let after = with_failure(m, cause);
            &&& after.curve == m.curve && after.iterations == m.iterations
            &&& after.warmup == m.warmup && after.warmup_time == m.warmup_time
            &&& after.measuring == m.measuring && after.warm == m.warm
            &&& after.runs == m.runs && after.completed == m.completed
            &&& m.failed is Some ==> after.failed == m.failed
            &&& m.failed is None ==> after.failed == Some(failure_of(m, cause))
        }),
        m.failed is Some || m.measuring ==> moved_on(m, elapsed, interrupted) == m,
{
}

/// Payload numbers are never used twice: where they are used up the warmup is
/// over, whatever was asked for.
pub proof fn law_warmup_ends_with_the_numbers(m: BenchModel, elapsed: nat, interrupted: bool)
    requires
        m.failed is None,
        !m.measuring,
        m.warm.len() + m.iterations >= u64::MAX,
    ensures
        next_of(m, elapsed, interrupted) is Begin,
        moved_on(m, elapsed, interrupted).measuring,
{
}

} // verus!
