//! Bounded integer-offset search by normalized cross-correlation of naturally occurring own audio.
//!
//! A job is one endpoint calibration block and the reference segment that covers every offset of
//! the search. The host correlates the two; the decision over the correlations stands here. It is
//! conservative about which peak it takes: weak, boundary and ambiguous peaks are rejected. It says
//! nothing about gain or exactness: the engine checks the candidate on disjoint, later data before
//! any sample is subtracted.

use crate::ieee::{Double, Single, DOUBLE_INFINITY, DOUBLE_SIGN};
use crate::text::{integer, push_integer};
use vstd::prelude::*;
use vstd::string::*;

verus! {

#[derive(Clone, Copy, Debug, PartialEq, Eq, Structural)]
pub struct AlignParams {
    /// Reject where the best competing local maximum reaches this fraction of the main peak:
    /// periodic content cannot pin an integer offset.
    pub ambiguity_ratio: Double,
    /// Below this normalized correlation the peak is no evidence at all.
    pub min_peak_correlation: Double,
    /// Half-width (frames) of the main lobe, which is left out of the search for competitors.
    pub lobe_guard: usize,
    /// A peak this close to either end of the window may really lie outside it.
    pub edge_guard: usize,
}

#[derive(Clone, Debug)]
pub struct AlignJob {
    pub id: u64,
    pub generation: u32,
    /// Endpoint local index of the first frame of `endpoint`.
    pub endpoint_start: u64,
    /// Offset (reference index minus endpoint index) of correlation lag 0.
    pub base_offset: i64,
    /// Interleaved stereo.
    pub endpoint: Vec<Single>,
    /// Interleaved stereo, starting at reference index `endpoint_start + base_offset`.
    pub reference: Vec<Single>,
    pub params: AlignParams,
}

/// An [`AlignJob`] with its samples as sequences.
#[verifier::ext_equal]
pub struct JobView {
    pub id: int,
    pub generation: int,
    pub endpoint_start: int,
    pub base_offset: int,
    pub endpoint: Seq<Single>,
    pub reference: Seq<Single>,
    pub params: AlignParams,
}

impl View for AlignJob {
    type V = JobView;

    open spec fn view(&self) -> JobView {
        JobView {
            id: self.id as int,
            generation: self.generation as int,
            endpoint_start: self.endpoint_start as int,
            base_offset: self.base_offset as int,
            endpoint: self.endpoint@,
            reference: self.reference@,
            params: self.params,
        }
    }
}

/// A correlation, and the host's rendering of it with three decimals.
#[derive(Clone, Debug)]
pub struct Score {
    pub value: Double,
    pub text: String,
}

#[derive(Clone, Debug)]
pub enum AlignOutcome {
    /// `offset` is reference index minus endpoint index of the best integer alignment.
    Candidate { offset: i64, peak: Score, runner_up: Score },
    /// `mismatch` marks evidence that the endpoint does not carry the reference, as opposed to
    /// evidence that is missing or ambiguous. Only mismatches can end a session on timeout.
    Rejected { reason: String, mismatch: bool },
}

/// An [`AlignOutcome`] with its texts as characters.
#[verifier::ext_equal]
pub enum OutcomeView {
    Candidate { offset: int, peak: Double, peak_text: Seq<char>, runner_up: Double, runner_up_text: Seq<char> },
    Rejected { reason: Seq<char>, mismatch: bool },
}

impl View for AlignOutcome {
    type V = OutcomeView;

    open spec fn view(&self) -> OutcomeView {
        match *self {
            AlignOutcome::Candidate { offset, peak, runner_up } => OutcomeView::Candidate {
                offset: offset as int,
                peak: peak.value,
                peak_text: peak.text@,
                runner_up: runner_up.value,
                runner_up_text: runner_up.text@,
            },
            AlignOutcome::Rejected { reason, mismatch } => OutcomeView::Rejected {
                reason: reason@,
                mismatch,
            },
        }
    }
}

#[derive(Clone, Debug)]
pub struct AlignResult {
    pub id: u64,
    pub generation: u32,
    pub outcome: AlignOutcome,
}

/// What the correlations show.
#[derive(Clone, Copy, Debug, PartialEq, Eq)]
pub enum Survey {
    /// No endpoint frame, or a reference shorter than the endpoint block.
    Empty,
    /// The endpoint block has no energy.
    SilentEndpoint,
    /// No peak, or one below the least correlation.
    Weak,
    /// A peak too close to an end of the window.
    AtEdge { best: usize },
    /// A peak, and the best local maximum outside its lobe.
    Peak { best: usize, peak: Double, runner_up: Option<(usize, Double)> },
}

/// Minus infinity.
pub open spec fn spec_lowest() -> Double {
    Double { bits: (DOUBLE_SIGN + DOUBLE_INFINITY) as u64 }
}

fn lowest() -> (r: Double)
    ensures
        r == spec_lowest(),
{
    Double { bits: DOUBLE_SIGN + DOUBLE_INFINITY }
}

/// `r` is the first position of the greatest value among the positions below `n` that `p` admits;
/// `None` where none of them is above minus infinity.
pub open spec fn first_greatest(rho: Seq<Double>, p: spec_fn(int) -> bool, n: int, r: Option<int>) -> bool {
    match r {
        None => forall|k: int| 0 <= k < n && p(k) ==> !(#[trigger] rho[k]).above(spec_lowest()),
        Some(b) => {
            &&& 0 <= b < n
            &&& p(b)
            &&& rho[b].above(spec_lowest())
            &&& forall|k: int| 0 <= k < n && p(k) ==> !(#[trigger] rho[k]).above(rho[b])
            &&& forall|k: int| 0 <= k < b && p(k) ==> (#[trigger] rho[k]).nan() || rho[b].above(rho[k])
        },
    }
}

/// Every lag.
pub open spec fn any_lag() -> spec_fn(int) -> bool {
    |k: int| true
}

/// The correlation at `k`, minus infinity outside the window.
pub open spec fn around(rho: Seq<Double>, k: int) -> Double {
    if 0 <= k < rho.len() { rho[k] } else { spec_lowest() }
}

/// A local maximum more than `guard` lags away from `best`.
pub open spec fn competitor(rho: Seq<Double>, best: int, guard: int) -> spec_fn(int) -> bool {
    |k: int|
        {
            &&& (k - best > guard || best - k > guard)
            &&& around(rho, k - 1).at_most(rho[k])
            &&& around(rho, k + 1).at_most(rho[k])
        }
}

impl JobView {
    /// The number of lags of the search, where the job has any.
    pub open spec fn lags(self) -> Option<int> {
        let n = self.endpoint.len() / 2;
        let m = self.reference.len() / 2;
        if n == 0 || m < n { None } else { Some(m - n + 1) }
    }

    pub open spec fn usable(self, v: Double) -> bool {
        v.finite() && !self.params.min_peak_correlation.above(v)
    }

    /// What `energy` of the endpoint block and the correlations `rho` amount to.
    pub open spec fn shows(self, energy: Double, rho: Seq<Double>, s: Survey) -> bool {
        match s {
            Survey::Empty => self.lags() is None,
            Survey::SilentEndpoint => self.lags() is Some && energy.at_most(Double::spec_zero()),
            Survey::Weak => {
                &&& self.lags() is Some
                &&& !energy.at_most(Double::spec_zero())
                &&& first_greatest(rho, any_lag(), rho.len() as int, None) || exists|b: int|
                    first_greatest(rho, any_lag(), rho.len() as int, Some(b)) && !self.usable(#[trigger] rho[b])
            },
            Survey::AtEdge { best } => {
                &&& self.lags() is Some
                &&& !energy.at_most(Double::spec_zero())
                &&& first_greatest(rho, any_lag(), rho.len() as int, Some(best as int))
                &&& self.usable(rho[best as int])
                &&& best < self.params.edge_guard || best + self.params.edge_guard >= rho.len()
            },
            Survey::Peak { best, peak, runner_up } => {
                &&& self.lags() is Some
                &&& !energy.at_most(Double::spec_zero())
                &&& first_greatest(rho, any_lag(), rho.len() as int, Some(best as int))
                &&& peak == rho[best as int]
                &&& self.usable(peak)
                &&& self.params.edge_guard <= best && best + self.params.edge_guard < rho.len()
                &&& first_greatest(
                    rho,
                    competitor(rho, best as int, self.params.lobe_guard as int),
                    rho.len() as int,
                    match runner_up {
                        Some((at, v)) => Some(at as int),
                        None => None,
                    },
                )
                &&& runner_up matches Some((at, v)) ==> v == rho[at as int]
            },
        }
    }
}

/// The survey of given correlations is unique.
pub proof fn survey_is_determined(job: JobView, energy: Double, rho: Seq<Double>, a: Survey, b: Survey)
    requires
        job.lags() is Some ==> rho.len() == job.lags()->0,
        job.shows(energy, rho, a),
        job.shows(energy, rho, b),
    ensures
        a == b,
{
}

impl AlignJob {
    /// The number of lags that the host has to correlate: none for a job that is rejected unseen.
    pub fn lags(&self) -> (r: Option<usize>)
        ensures
            self@.lags() == (match r {
                Some(n) => Some(n as int),
                None => None,
            }),
    {
        let n: usize = self.endpoint.len() / 2;
        let m: usize = self.reference.len() / 2;
        if n == 0 || m < n {
            None
        } else {
            Some(m - n + 1)
        }
    }

    fn is_usable(&self, v: Double) -> (r: bool)
        ensures
            r == self@.usable(v),
    {
        v.is_finite() && !self.params.min_peak_correlation.gt(v)
    }
}

fn find_peak(rho: &[Double]) -> (r: Option<usize>)
    ensures
        first_greatest(
            rho@,
            any_lag(),
            rho@.len() as int,
            match r {
                Some(b) => Some(b as int),
                None => None,
            },
        ),
{
    let mut found: Option<usize> = None;
    let mut top = lowest();
    let mut k: usize = 0;
    while k < rho.len()
        invariant
            k <= rho@.len(),
            first_greatest(
                rho@,
                any_lag(),
                k as int,
                match found {
                    Some(b) => Some(b as int),
                    None => None,
                },
            ),
            top == (match found {
                Some(b) => rho@[b as int],
                None => spec_lowest(),
            }),
        decreases rho@.len() - k,
    {
        if rho[k].gt(top) {
            found = Some(k);
            top = rho[k];
        }
        k = k + 1;
    }
    found
}

fn find_competitor(rho: &[Double], best: usize, guard: usize) -> (r: Option<usize>)
    requires
        best < rho@.len(),
    ensures
        first_greatest(
            rho@,
            competitor(rho@, best as int, guard as int),
            rho@.len() as int,
            match r {
                Some(b) => Some(b as int),
                None => None,
            },
        ),
{
    let mut found: Option<usize> = None;
    let mut top = lowest();
    let mut k: usize = 0;
    while k < rho.len()
        invariant
            k <= rho@.len(),
            best < rho@.len(),
            first_greatest(
                rho@,
                competitor(rho@, best as int, guard as int),
                k as int,
                match found {
                    Some(b) => Some(b as int),
                    None => None,
                },
            ),
            top == (match found {
                Some(b) => rho@[b as int],
                None => spec_lowest(),
            }),
        decreases rho@.len() - k,
    {
        let away: usize = if k > best {
            k - best
        } else {
            best - k
        };
        if away > guard {
            let left = if k > 0 {
                rho[k - 1]
            } else {
                lowest()
            };
            let right = if k + 1 < rho.len() {
                rho[k + 1]
            } else {
                lowest()
            };
            assert(left == around(rho@, k - 1));
            assert(right == around(rho@, k + 1));
            if left.le(rho[k]) && right.le(rho[k]) && rho[k].gt(top) {
                found = Some(k);
                top = rho[k];
            }
        }
        k = k + 1;
    }
    found
}

/// Reads the correlations of a job: `energy` is that of the endpoint block, `rho` holds one
/// normalized correlation per lag.
pub fn survey(job: &AlignJob, energy: Double, rho: &[Double]) -> (r: Survey)
    requires
        job@.lags() is Some ==> rho@.len() == job@.lags()->0,
    ensures
        job@.shows(energy, rho@, r),
{
    if job.lags().is_none() {
        return Survey::Empty;
    }
    if energy.le(Double::zero()) {
        return Survey::SilentEndpoint;
    }
    match find_peak(rho) {
        None => Survey::Weak,
        Some(best) => {
            let peak = rho[best];
            if !job.is_usable(peak) {
                return Survey::Weak;
            }
            if best < job.params.edge_guard || job.params.edge_guard >= rho.len() - best {
                return Survey::AtEdge { best };
            }
            let runner_up = match find_competitor(rho, best, job.params.lobe_guard) {
                Some(at) => Some((at, rho[at])),
                None => None,
            };
            Survey::Peak { best, peak, runner_up }
        },
    }
}

/// The host's renderings with three decimals, for the messages.
pub struct Renderings {
    /// The greatest correlation, minus infinity where there is none.
    pub peak: String,
    /// The best competing correlation.
    pub runner_up: String,
    /// The least correlation that counts.
    pub min_peak: String,
}

pub open spec fn weak_reason(peak: Seq<char>, min_peak: Seq<char>) -> Seq<char> {
    "no correlation peak (best "@ + peak + " < "@ + min_peak
        + "); own audio not found on the endpoint"@
}

pub open spec fn edge_reason(offset: int) -> Seq<char> {
    "correlation peak at the search boundary (offset "@ + integer(offset)
        + "); the true offset may lie outside the window"@
}

pub open spec fn ambiguous_reason(peak: Seq<char>, at: int, runner_up: Seq<char>, runner_at: int) -> Seq<char> {
    "ambiguous correlation: peak "@ + peak + " at offset "@ + integer(at) + " but "@ + runner_up
        + " at offset "@ + integer(runner_at)
        + " (periodic own audio cannot pin an integer offset)"@
}

/// The outcome of a survey. `limit` is the ambiguity ratio times the peak.
pub open spec fn concluded(job: JobView, s: Survey, limit: Double, shown: Renderings) -> OutcomeView {
    match s {
        Survey::Empty => OutcomeView::Rejected { reason: "empty alignment job"@, mismatch: false },
        Survey::SilentEndpoint => OutcomeView::Rejected {
            reason: "endpoint block is digital silence while the reference is active"@,
            mismatch: true,
        },
        // Own audio drowned by other apps looks the same as own audio missing: no mismatch.
        Survey::Weak => OutcomeView::Rejected {
            reason: weak_reason(shown.peak@, shown.min_peak@),
            mismatch: false,
        },
        Survey::AtEdge { best } => OutcomeView::Rejected {
            reason: edge_reason(job.base_offset + best),
            mismatch: true,
        },
        Survey::Peak { best, peak, runner_up } => match runner_up {
            Some((at, v)) if limit.at_most(v) => OutcomeView::Rejected {
                reason: ambiguous_reason(
                    shown.peak@,
                    job.base_offset + best,
                    shown.runner_up@,
                    job.base_offset + at,
                ),
                mismatch: false,
            },
            Some((at, v)) if v.above(Double::spec_zero()) => OutcomeView::Candidate {
                offset: job.base_offset + best,
                peak,
                peak_text: shown.peak@,
                runner_up: v,
                runner_up_text: shown.runner_up@,
            },
            _ => OutcomeView::Candidate {
                offset: job.base_offset + best,
                peak,
                peak_text: shown.peak@,
                runner_up: Double::spec_zero(),
                runner_up_text: "0.000"@,
            },
        },
    }
}

/// Every offset that the survey can name fits.
pub open spec fn in_reach(job: JobView, s: Survey) -> bool {
    match s {
        Survey::AtEdge { best } => job.base_offset + best <= i64::MAX,
        Survey::Peak { best, peak, runner_up } => {
            &&& job.base_offset + best <= i64::MAX
            &&& runner_up matches Some((at, v)) ==> job.base_offset + at <= i64::MAX
        },
        _ => true,
    }
}

fn rejected(reason: String, mismatch: bool) -> (r: AlignOutcome)
    ensures
        r@ == (OutcomeView::Rejected { reason: reason@, mismatch }),
{
    AlignOutcome::Rejected { reason, mismatch }
}

/// Closes a job with what its survey amounts to.
pub fn run_align_job(job: &AlignJob, s: &Survey, limit: Double, shown: &Renderings) -> (r: AlignResult)
    requires
        in_reach(job@, *s),
    ensures
        r.id == job.id,
        r.generation == job.generation,
        r.outcome@ == concluded(job@, *s, limit, *shown),
{
    let outcome = match *s {
        Survey::Empty => rejected("empty alignment job".to_owned(), false),
        Survey::SilentEndpoint => rejected(
            "endpoint block is digital silence while the reference is active".to_owned(),
            true,
        ),
        Survey::Weak => {
            let mut reason: String = "no correlation peak (best ".to_owned();
            reason.append(shown.peak.as_str());
            reason.append(" < ");
            reason.append(shown.min_peak.as_str());
            reason.append("); own audio not found on the endpoint");
            rejected(reason, false)
        },
        Survey::AtEdge { best } => {
            let mut reason: String = "correlation peak at the search boundary (offset ".to_owned();
            push_integer(&mut reason, job.base_offset as i128 + best as i128);
            reason.append("); the true offset may lie outside the window");
            rejected(reason, true)
        },
        Survey::Peak { best, peak, runner_up } => {
            let offset: i64 = (job.base_offset as i128 + best as i128) as i64;
            match runner_up {
                Some((at, v)) if limit.le(v) => {
                    let mut reason: String = "ambiguous correlation: peak ".to_owned();
                    reason.append(shown.peak.as_str());
                    reason.append(" at offset ");
                    push_integer(&mut reason, offset as i128);
                    reason.append(" but ");
                    reason.append(shown.runner_up.as_str());
                    reason.append(" at offset ");
                    push_integer(&mut reason, job.base_offset as i128 + at as i128);
                    reason.append(" (periodic own audio cannot pin an integer offset)");
                    rejected(reason, false)
                },
                Some((at, v)) if v.gt(Double::zero()) => AlignOutcome::Candidate {
                    offset,
                    peak: Score { value: peak, text: shown.peak.clone() },
                    runner_up: Score { value: v, text: shown.runner_up.clone() },
                },
                _ => AlignOutcome::Candidate {
                    offset,
                    peak: Score { value: peak, text: shown.peak.clone() },
                    runner_up: Score { value: Double::zero(), text: "0.000".to_owned() },
                },
            }
        },
    };
    AlignResult { id: job.id, generation: job.generation, outcome }
}

/// A job has one lag for each place at which its endpoint block fits into its reference, and none
/// where the block is empty or the reference is shorter. A frame has two samples.
pub proof fn a_job_has_a_lag_for_each_place(job: JobView)
    ensures
        job.lags() is None <==> job.endpoint.len() < 2 || job.reference.len() / 2 < job.endpoint.len() / 2,
        job.lags() matches Some(n) ==> n == job.reference.len() / 2 - job.endpoint.len() / 2 + 1 && n >= 1,
{
}

/// The lag that a survey names as the peak has a finite correlation that no other lag exceeds, the
/// first of equals, not below the least one that counts, and at least `edge_guard` lags away from
/// either end; and what it names as the runner-up lies more than `lobe_guard` lags away, is no less
/// than either neighbour, and is exceeded by no other such lag.
pub proof fn a_peak_is_the_greatest_correlation(
    job: JobView,
    energy: Double,
    rho: Seq<Double>,
    best: usize,
    peak: Double,
    runner_up: Option<(usize, Double)>,
    k: int,
)
    requires
        job.shows(energy, rho, (Survey::Peak { best, peak, runner_up })),
        0 <= k < rho.len(),
    ensures
        best < rho.len() && peak == rho[best as int],
        peak.bits / 0x10_0000_0000_0000 % 0x800 != 0x7ff,
        !job.params.min_peak_correlation.above(peak),
        !rho[k].above(peak),
        k < best ==> rho[k].nan() || peak.above(rho[k]),
        best >= job.params.edge_guard && rho.len() - best > job.params.edge_guard,
        !energy.at_most(Double { bits: 0 }),
        runner_up matches Some((at, v)) ==> {
            &&& at < rho.len() && v == rho[at as int]
            &&& at - best > job.params.lobe_guard || best - at > job.params.lobe_guard
            &&& at > 0 ==> rho[at - 1].at_most(v)
            &&& at + 1 < rho.len() ==> rho[at + 1].at_most(v)
        },
        (k - best > job.params.lobe_guard || best - k > job.params.lobe_guard) && (k > 0 ==> rho[k - 1].at_most(
            rho[k],
        )) && (k + 1 < rho.len() ==> rho[k + 1].at_most(rho[k])) && !rho[k].nan() ==> match runner_up {
            Some((at, v)) => !rho[k].above(v),
            None => rho[k].bits == 0xfff0_0000_0000_0000,
        },
{
    crate::ieee::values_are_told_by_their_fields(crate::ieee::Single { bits: 0 }, peak);
    crate::ieee::values_are_told_by_their_fields(crate::ieee::Single { bits: 0 }, rho[k]);
    let c = competitor(rho, best as int, job.params.lobe_guard as int);
    if let Some((at, v)) = runner_up {
        assert(c(at as int));
    }
    if (k - best > job.params.lobe_guard || best - k > job.params.lobe_guard) && (k > 0 ==> rho[k - 1].at_most(
        rho[k],
    )) && (k + 1 < rho.len() ==> rho[k + 1].at_most(rho[k])) && !rho[k].nan() {
        assert(spec_lowest().at_most(rho[k]));
        assert(c(k));
    }
    assert(any_lag()(k));
}

/// A survey that names no peak has its ground: the job has no lags; the endpoint block has no energy;
/// no correlation is finite and at least the least one that counts and exceeded by none; or the
/// greatest lies too close to an end.
pub proof fn a_job_without_a_peak_has_its_ground(job: JobView, energy: Double, rho: Seq<Double>, s: Survey, k: int)
    requires
        job.shows(energy, rho, s),
        0 <= k < rho.len(),
    ensures
        s is Empty <==> job.lags() is None,
        s is SilentEndpoint <==> job.lags() is Some && energy.at_most(Double { bits: 0 }),
        s is Weak && rho[k].finite() && !job.params.min_peak_correlation.above(rho[k]) ==> exists|j: int|
            0 <= j < rho.len() && (#[trigger] rho[j]).above(rho[k]),
        s matches Survey::AtEdge { best } ==> {
            &&& best < rho.len()
            &&& !rho[k].above(rho[best as int])
            &&& best < job.params.edge_guard || rho.len() - best <= job.params.edge_guard
            &&& rho[best as int].finite() && !job.params.min_peak_correlation.above(rho[best as int])
        },
{
    assert(any_lag()(k));
    if s is Weak && rho[k].finite() && !job.params.min_peak_correlation.above(rho[k]) {
        assert(rho[k].above(spec_lowest()));
        let b = choose|b: int|
            first_greatest(rho, any_lag(), rho.len() as int, Some(b)) && !job.usable(#[trigger] rho[b]);
        assert(!rho[k].above(rho[b]));
        assert(rho[b].above(rho[k]));
    }
}

/// A peak becomes a candidate at the base offset of its job plus its lag, unless a runner-up reaches
/// the limit: then it is rejected, and that is no mismatch.
pub proof fn a_peak_is_a_candidate_unless_a_rival_reaches_the_limit(
    job: JobView,
    best: usize,
    peak: Double,
    runner_up: Option<(usize, Double)>,
    limit: Double,
    shown: Renderings,
)
    ensures
        ({
            let r = concluded(job, (Survey::Peak { best, peak, runner_up }), limit, shown);
            let rivalled = runner_up matches Some((at, v)) && limit.at_most(v);
            &&& rivalled ==> r is Rejected && !r->mismatch
            &&& !rivalled ==> {
                &&& r is Candidate
                &&& r->offset == job.base_offset + best
                &&& r->Candidate_peak == peak
                &&& runner_up matches Some((at, v)) ==> v.above(Double { bits: 0 }) ==> r->Candidate_runner_up == v
                &&& runner_up matches Some((at, v)) ==> !v.above(Double { bits: 0 }) ==> r->Candidate_runner_up
                    == (Double { bits: 0 })
                &&& runner_up is None ==> r->Candidate_runner_up == (Double { bits: 0 })
            }
        }),
{
}

/// A silent endpoint block and a peak at the edge are evidence against the endpoint; an empty job and
/// a weak correlation are no evidence. None of them is a candidate.
pub proof fn only_a_silent_endpoint_or_an_edge_is_a_mismatch(job: JobView, s: Survey, limit: Double, shown: Renderings)
    requires
        !(s is Peak),
    ensures
        ({
            let r = concluded(job, s, limit, shown);
            r is Rejected && (r->mismatch <==> s is SilentEndpoint || s is AtEdge)
        }),
{
}

/// What a rejected search says: what was found, and where.
pub proof fn rejections_name_what_was_found(peak: Seq<char>, least: Seq<char>, at: int, rival: Seq<char>, rival_at: int)
    ensures
        weak_reason(peak, least) == "no correlation peak (best "@ + peak + " < "@ + least
            + "); own audio not found on the endpoint"@,
        edge_reason(at) == "correlation peak at the search boundary (offset "@ + integer(at)
            + "); the true offset may lie outside the window"@,
        ambiguous_reason(peak, at, rival, rival_at) == "ambiguous correlation: peak "@ + peak + " at offset "@
            + integer(at) + " but "@ + rival + " at offset "@ + integer(rival_at)
            + " (periodic own audio cannot pin an integer offset)"@,
{
}

/// A job and its outcome are what their fields say.
pub proof fn jobs_and_outcomes_are_their_fields(job: AlignJob, outcome: AlignOutcome)
    ensures
        job@.id == job.id && job@.generation == job.generation,
        job@.endpoint_start == job.endpoint_start && job@.base_offset == job.base_offset,
        job@.endpoint == job.endpoint@ && job@.reference == job.reference@ && job@.params == job.params,
        outcome matches AlignOutcome::Candidate { offset, peak, runner_up } ==> outcome@
            == (OutcomeView::Candidate {
            offset: offset as int,
            peak: peak.value,
            peak_text: peak.text@,
            runner_up: runner_up.value,
            runner_up_text: runner_up.text@,
        }),
        outcome matches AlignOutcome::Rejected { reason, mismatch } ==> outcome@ == (OutcomeView::Rejected {
            reason: reason@,
            mismatch,
        }),
{
}

} // verus!
