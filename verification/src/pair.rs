//! The loop over both legs of a paired capture: which step follows which, and what ends it.
//!
//! One thread of the host owns both streams. It does what each [`PairStep`] says and asks the
//! function that belongs to the step for the next one. A round polls for a stop, waits for either
//! stream, drains the endpoint and then the reference into the engine, collects search results,
//! sends a waiting search job, delivers chunks, checks the route where that is due, and publishes
//! the status.

use crate::capture::{push_hresult, shown_hresult, Wait};
use crate::packet::{Fault, Leg};
use crate::timing::E_FAIL;
use vstd::prelude::*;
use vstd::string::*;

verus! {

/// Why a paired capture ended.
pub struct Failure {
    pub why: String,
    pub hresult: i32,
}

/// A [`Failure`] with its text as characters.
#[verifier::ext_equal]
pub struct FailureView {
    pub why: Seq<char>,
    pub hresult: int,
}

impl View for Failure {
    type V = FailureView;

    open spec fn view(&self) -> FailureView {
        FailureView { why: self.why@, hresult: self.hresult as int }
    }
}

/// The calls on a stream that can fail.
#[derive(Clone, Copy, Debug, PartialEq, Eq, Structural)]
pub enum StreamCall {
    GetNextPacketSize,
    GetBuffer,
    ReleaseBuffer,
}

impl StreamCall {
    pub open spec fn spec_name(self) -> Seq<char> {
        match self {
            StreamCall::GetNextPacketSize => "GetNextPacketSize"@,
            StreamCall::GetBuffer => "GetBuffer"@,
            StreamCall::ReleaseBuffer => "ReleaseBuffer"@,
        }
    }

    pub fn name(self) -> (r: &'static str)
        ensures
            r@ == self.spec_name(),
    {
        match self {
            StreamCall::GetNextPacketSize => "GetNextPacketSize",
            StreamCall::GetBuffer => "GetBuffer",
            StreamCall::ReleaseBuffer => "ReleaseBuffer",
        }
    }
}

/// What the owner does next.
pub enum PairStep {
    PollStop,
    /// Wait for a stop or either stream, for a bounded time.
    WaitEvents,
    AskSize { leg: Leg },
    /// Read the packet, push it into the engine, and give its buffer back.
    Read { leg: Leg },
    /// Fetch one search result, without waiting.
    PollResult,
    /// Send the search job that waits, where one does.
    SendJob,
    /// Deliver every chunk that waits.
    DeliverChunks,
    CheckRoute,
    Publish,
    End { failure: Option<Failure> },
}

/// A [`PairStep`] with its texts as characters.
#[verifier::ext_equal]
pub enum StepView {
    PollStop,
    WaitEvents,
    AskSize { leg: Leg },
    Read { leg: Leg },
    PollResult,
    SendJob,
    DeliverChunks,
    CheckRoute,
    Publish,
    End { failure: Option<FailureView> },
}

impl View for PairStep {
    type V = StepView;

    open spec fn view(&self) -> StepView {
        match *self {
            PairStep::PollStop => StepView::PollStop,
            PairStep::WaitEvents => StepView::WaitEvents,
            PairStep::AskSize { leg } => StepView::AskSize { leg },
            PairStep::Read { leg } => StepView::Read { leg },
            PairStep::PollResult => StepView::PollResult,
            PairStep::SendJob => StepView::SendJob,
            PairStep::DeliverChunks => StepView::DeliverChunks,
            PairStep::CheckRoute => StepView::CheckRoute,
            PairStep::Publish => StepView::Publish,
            PairStep::End { failure } => StepView::End {
                failure: match failure {
                    Some(f) => Some(f@),
                    None => None,
                },
            },
        }
    }
}

/// The loop ends for `why`.
pub open spec fn ends(why: Seq<char>, hresult: int) -> StepView {
    StepView::End { failure: Some(FailureView { why, hresult }) }
}

fn end(why: String, hresult: i32) -> (r: PairStep)
    ensures
        r@ == ends(why@, hresult as int),
{
    PairStep::End { failure: Some(Failure { why, hresult }) }
}

/// A leg as messages about its stream name it.
pub open spec fn leg_title(leg: Leg) -> Seq<char> {
    match leg {
        Leg::Endpoint => "Endpoint"@,
        Leg::Reference => "Reference"@,
    }
}

pub open spec fn call_failed(call: StreamCall, leg: Leg, hr: i32) -> Seq<char> {
    call.spec_name() + " failed on the "@ + leg_title(leg) + " leg: HRESULT 0x"@ + shown_hresult(hr)
}

fn end_call(call: StreamCall, leg: Leg, hr: i32) -> (r: PairStep)
    ensures
        r@ == ends(call_failed(call, leg, hr), hr as int),
{
    let mut s: String = call.name().to_owned();
    s.append(" failed on the ");
    match leg {
        Leg::Endpoint => s.append("Endpoint"),
        Leg::Reference => s.append("Reference"),
    }
    s.append(" leg: HRESULT 0x");
    push_hresult(&mut s, hr);
    end(s, hr)
}

/// Anything but "not yet signaled" means stop.
pub fn after_stop_poll(wait: Wait) -> (r: PairStep)
    ensures
        r@ == (match wait {
            Wait::TimedOut => StepView::WaitEvents,
            _ => StepView::End { failure: None },
        }),
{
    match wait {
        Wait::TimedOut => PairStep::WaitEvents,
        _ => PairStep::End { failure: None },
    }
}

/// The endpoint is drained first.
pub fn after_wait(failed: bool) -> (r: PairStep)
    ensures
        r@ == (if failed {
            ends("waiting on the capture events failed"@, E_FAIL as int)
        } else {
            StepView::AskSize { leg: Leg::Endpoint }
        }),
{
    if failed {
        end("waiting on the capture events failed".to_owned(), E_FAIL)
    } else {
        PairStep::AskSize { leg: Leg::Endpoint }
    }
}

/// What follows a leg with no packet left.
pub open spec fn behind(leg: Leg) -> StepView {
    match leg {
        Leg::Endpoint => StepView::AskSize { leg: Leg::Reference },
        Leg::Reference => StepView::PollResult,
    }
}

pub fn after_size(leg: Leg, size: Result<u32, i32>) -> (r: PairStep)
    ensures
        r@ == (match size {
            Err(hr) => ends(call_failed(StreamCall::GetNextPacketSize, leg, hr), hr as int),
            Ok(0) => behind(leg),
            Ok(_) => StepView::Read { leg },
        }),
{
    match size {
        Err(hr) => end_call(StreamCall::GetNextPacketSize, leg, hr),
        Ok(0) => match leg {
            Leg::Endpoint => PairStep::AskSize { leg: Leg::Reference },
            Leg::Reference => PairStep::PollResult,
        },
        Ok(_) => PairStep::Read { leg },
    }
}

/// The packet could not be read.
pub fn after_failed_read(leg: Leg, hr: i32) -> (r: PairStep)
    ensures
        r@ == ends(call_failed(StreamCall::GetBuffer, leg, hr), hr as int),
{
    end_call(StreamCall::GetBuffer, leg, hr)
}

/// The packet went into the engine and its buffer back. A fault of the engine comes first.
pub fn after_read(leg: Leg, pushed: Result<(), Fault>, released: Result<(), i32>) -> (r: PairStep)
    ensures
        r@ == (match (pushed, released) {
            (Err(f), _) => ends(f.0@, E_FAIL as int),
            (Ok(_), Err(hr)) => ends(call_failed(StreamCall::ReleaseBuffer, leg, hr), hr as int),
            (Ok(_), Ok(_)) => StepView::AskSize { leg },
        }),
{
    match pushed {
        Err(f) => end(f.0, E_FAIL),
        Ok(_) => match released {
            Err(hr) => end_call(StreamCall::ReleaseBuffer, leg, hr),
            Ok(_) => PairStep::AskSize { leg },
        },
    }
}

/// What fetching a search result came to.
pub enum ResultPoll {
    /// One was there, and the engine took it so.
    Completed { outcome: Result<(), Fault> },
    Empty,
    /// The worker is gone.
    Disconnected,
}

pub fn after_result(poll: ResultPoll) -> (r: PairStep)
    ensures
        r@ == (match poll {
            ResultPoll::Completed { outcome: Err(f) } => ends(f.0@, E_FAIL as int),
            ResultPoll::Completed { outcome: Ok(_) } => StepView::PollResult,
            ResultPoll::Empty => StepView::SendJob,
            ResultPoll::Disconnected => ends("alignment worker exited"@, E_FAIL as int),
        }),
{
    match poll {
        ResultPoll::Completed { outcome } => match outcome {
            Err(f) => end(f.0, E_FAIL),
            Ok(_) => PairStep::PollResult,
        },
        ResultPoll::Empty => PairStep::SendJob,
        ResultPoll::Disconnected => end("alignment worker exited".to_owned(), E_FAIL),
    }
}

/// `refused` where a job waited and the worker did not take it.
pub fn after_job(refused: bool) -> (r: PairStep)
    ensures
        r@ == (if refused {
            ends("alignment worker unavailable"@, E_FAIL as int)
        } else {
            StepView::DeliverChunks
        }),
{
    if refused {
        end("alignment worker unavailable".to_owned(), E_FAIL)
    } else {
        PairStep::DeliverChunks
    }
}

/// How often the route is checked, in milliseconds. Also the longest time for which playback that
/// began elsewhere stays unseen.
pub const ROUTE_GUARD_MS: u64 = 250;

pub fn after_chunks(since_check_ms: u64) -> (r: PairStep)
    ensures
        r@ == (if since_check_ms >= ROUTE_GUARD_MS {
            StepView::CheckRoute
        } else {
            StepView::Publish
        }),
        r@ is CheckRoute <==> since_check_ms >= 250,
{
    if since_check_ms >= ROUTE_GUARD_MS {
        PairStep::CheckRoute
    } else {
        PairStep::Publish
    }
}

pub fn after_route_check(verdict: Result<(), String>) -> (r: PairStep)
    ensures
        r@ == (match verdict {
            Err(why) => ends(why@, E_FAIL as int),
            Ok(_) => StepView::Publish,
        }),
{
    match verdict {
        Err(why) => end(why, E_FAIL),
        Ok(_) => PairStep::Publish,
    }
}

pub fn after_publish() -> (r: PairStep)
    ensures
        r@ == StepView::PollStop,
{
    PairStep::PollStop
}

/// How often the last message is offered to a callback whose queue is full.
pub const REPORT_ATTEMPTS: u32 = 50;

/// Whether the last message is offered again, behind `attempts` offers: only where the queue was
/// full, no stop was requested meanwhile, and the attempts are not spent.
pub fn report_again(attempts: u32, queue_full: bool, wait: Wait) -> (r: bool)
    ensures
        r == (queue_full && wait is TimedOut && attempts < REPORT_ATTEMPTS),
        r ==> attempts < 50,
        queue_full && wait is TimedOut && attempts < 50 ==> r,
{
    queue_full && wait == Wait::TimedOut && attempts < REPORT_ATTEMPTS
}

pub open spec fn failure_report(reason: Seq<char>) -> Seq<char> {
    "endpoint-minus-self capture failed: "@ + reason
}

/// The message that ends a paired capture.
pub fn write_failure_report(reason: &str) -> (r: String)
    ensures
        r@ == failure_report(reason@),
{
    let mut s: String = "endpoint-minus-self capture failed: ".to_owned();
    s.append(reason);
    s
}

/// What a start hands back, and what it leaves as the last start error.
pub struct StartReport {
    /// The session, zero where the start was refused.
    pub id: u32,
    pub last_error: Option<String>,
}

pub fn start_report(started: Result<u32, String>) -> (r: StartReport)
    ensures
        match started {
            Ok(id) => r.id == id && r.last_error is None,
            Err(why) => r.id == 0 && r.last_error is Some && r.last_error->0@ == why@,
        },
{
    match started {
        Ok(id) => StartReport { id, last_error: None },
        Err(why) => StartReport { id: 0, last_error: Some(why) },
    }
}

/// How a session's thread is waited for.
#[derive(Clone, Copy, Debug, PartialEq, Eq, Structural)]
pub enum Teardown {
    /// The thread is gone: join it, and close its stop event.
    Join,
    /// Look again a little later.
    Retry,
    /// Leave the thread, and leave its stop event open: the thread still polls it, and a closed
    /// handle could come back as another object.
    Detach,
}

/// How long a stop waits for the thread, in milliseconds.
pub const STOP_JOIN_MS: u64 = 1500;

pub fn teardown(finished: bool, waited_ms: u64) -> (r: Teardown)
    ensures
        r == (if finished {
            Teardown::Join
        } else if waited_ms >= STOP_JOIN_MS {
            Teardown::Detach
        } else {
            Teardown::Retry
        }),
        r is Join <==> finished,
        r is Detach <==> !finished && waited_ms >= 1500,
{
    if finished {
        Teardown::Join
    } else if waited_ms >= STOP_JOIN_MS {
        Teardown::Detach
    } else {
        Teardown::Retry
    }
}

/// Both legs are drained in every round, the endpoint before the reference, and results are fetched
/// behind both.
pub proof fn a_round_drains_the_endpoint_and_then_the_reference()
    ensures
        behind(Leg::Endpoint) == (StepView::AskSize { leg: Leg::Reference }),
        behind(Leg::Reference) == StepView::PollResult,
{
}

/// Whatever ends the loop by failure is handed on as it is, text and code; and a failed call on a
/// stream is named with its leg and its code.
pub proof fn a_failure_is_handed_on_as_it_is(why: Seq<char>, hresult: int, call: StreamCall, leg: Leg, hr: i32)
    ensures
        ends(why, hresult) matches StepView::End { failure } && failure is Some && failure->0.why == why
            && failure->0.hresult == hresult,
        call_failed(call, leg, hr) == match call {
            StreamCall::GetNextPacketSize => "GetNextPacketSize"@,
            StreamCall::GetBuffer => "GetBuffer"@,
            StreamCall::ReleaseBuffer => "ReleaseBuffer"@,
        } + " failed on the "@ + match leg {
            Leg::Endpoint => "Endpoint"@,
            Leg::Reference => "Reference"@,
        } + " leg: HRESULT 0x"@ + shown_hresult(hr),
        failure_report(why) == "endpoint-minus-self capture failed: "@ + why,
{
}

/// A round of the loop, step by step: a stop that was not requested leads to waiting, waiting to the
/// endpoint, a packet to reading it and then to the same leg again, a drained endpoint to the reference,
/// a drained reference to the results, no more results to the job, the job to the chunks, the chunks to
/// the route where 250 ms have passed since it was checked, and to the report else.
pub proof fn a_round_goes_step_by_step(
    wait: Wait,
    leg: Leg,
    size: u32,
    since_check_ms: u64,
    stopped: PairStep,
    waited: PairStep,
    sized: PairStep,
    read: PairStep,
    fetched: PairStep,
    none_left: PairStep,
    sent: PairStep,
    delivered: PairStep,
    checked: PairStep,
    published: PairStep,
)
    requires
        call_ensures(after_stop_poll, (wait,), stopped),
        call_ensures(after_wait, (false,), waited),
        call_ensures(after_size, (leg, Ok(size)), sized),
        call_ensures(after_read, (leg, Ok(()), Ok(())), read),
        call_ensures(after_result, (ResultPoll::Completed { outcome: Ok(()) },), fetched),
        call_ensures(after_result, (ResultPoll::Empty,), none_left),
        call_ensures(after_job, (false,), sent),
        call_ensures(after_chunks, (since_check_ms,), delivered),
        call_ensures(after_route_check, (Ok(()),), checked),
        call_ensures(after_publish, (), published),
    ensures
        stopped@ == if wait is TimedOut { StepView::WaitEvents } else { StepView::End { failure: None } },
        waited@ == (StepView::AskSize { leg: Leg::Endpoint }),
        size > 0 ==> sized@ == (StepView::Read { leg }),
        size == 0 && leg is Endpoint ==> sized@ == (StepView::AskSize { leg: Leg::Reference }),
        size == 0 && leg is Reference ==> sized@ == StepView::PollResult,
        read@ == (StepView::AskSize { leg }),
        fetched@ == StepView::PollResult,
        none_left@ == StepView::SendJob,
        sent@ == StepView::DeliverChunks,
        delivered@ == if since_check_ms >= 250 { StepView::CheckRoute } else { StepView::Publish },
        checked@ == StepView::Publish,
        published@ == StepView::PollStop,
{
}

/// Every failure on the way ends the loop with its own text: that of the fault, of the route or of the
/// call, with the code of the call and the general failure code else.
pub proof fn every_failure_ends_the_loop(
    leg: Leg,
    hr: i32,
    f: Fault,
    why: String,
    released: Result<(), i32>,
    waited: PairStep,
    sized: PairStep,
    unread: PairStep,
    refused: PairStep,
    unreleased: PairStep,
    outcome: PairStep,
    gone: PairStep,
    unsent: PairStep,
    strayed: PairStep,
)
    requires
        call_ensures(after_wait, (true,), waited),
        call_ensures(after_size, (leg, Err(hr)), sized),
        call_ensures(after_failed_read, (leg, hr), unread),
        call_ensures(after_read, (leg, Err(f), released), refused),
        call_ensures(after_read, (leg, Ok(()), Err(hr)), unreleased),
        call_ensures(after_result, (ResultPoll::Completed { outcome: Err(f) },), outcome),
        call_ensures(after_result, (ResultPoll::Disconnected,), gone),
        call_ensures(after_job, (true,), unsent),
        call_ensures(after_route_check, (Err(why),), strayed),
    ensures
        waited@ is End && waited@->failure is Some && waited@->failure->0.hresult == -2147467259,
        sized@ is End && sized@->failure is Some && sized@->failure->0.hresult == hr,
        unread@ is End && unread@->failure is Some && unread@->failure->0.hresult == hr,
        refused@ is End && refused@->failure is Some && refused@->failure->0.why == f.0@,
        unreleased@ is End && unreleased@->failure is Some && unreleased@->failure->0.hresult == hr,
        outcome@ is End && outcome@->failure is Some && outcome@->failure->0.why == f.0@,
        gone@ is End && gone@->failure is Some && gone@->failure->0.why == "alignment worker exited"@,
        unsent@ is End && unsent@->failure is Some && unsent@->failure->0.why == "alignment worker unavailable"@,
        strayed@ is End && strayed@->failure is Some && strayed@->failure->0.why == why@,
{
}

/// A start that was refused hands back zero and leaves its reason; one that succeeded hands back its
/// number and leaves none. A thread is joined where it is gone, and left alone only where it was waited
/// for in full.
pub proof fn starts_and_stops_are_reported(
    id: u32,
    why: String,
    finished: bool,
    waited_ms: u64,
    started: StartReport,
    refused: StartReport,
    how: Teardown,
)
    requires
        call_ensures(start_report, (Ok(id),), started),
        call_ensures(start_report, (Err(why),), refused),
        call_ensures(teardown, (finished, waited_ms), how),
    ensures
        started.id == id && started.last_error is None,
        refused.id == 0 && refused.last_error is Some && refused.last_error->0@ == why@,
        how == if finished {
            Teardown::Join
        } else if waited_ms < 1500 {
            Teardown::Retry
        } else {
            Teardown::Detach
        },
{
}

/// A step is what its fields say.
pub proof fn a_step_is_its_fields(step: PairStep)
    ensures
        step is PollStop <==> step@ is PollStop,
        step is WaitEvents <==> step@ is WaitEvents,
        step is PollResult <==> step@ is PollResult,
        step is SendJob <==> step@ is SendJob,
        step is DeliverChunks <==> step@ is DeliverChunks,
        step is CheckRoute <==> step@ is CheckRoute,
        step is Publish <==> step@ is Publish,
        step matches PairStep::AskSize { leg } ==> step@ == (StepView::AskSize { leg }),
        step matches PairStep::Read { leg } ==> step@ == (StepView::Read { leg }),
        step matches PairStep::End { failure } ==> step@ is End && (failure is None <==> step@->failure is None),
        step matches PairStep::End { failure } ==> failure matches Some(f) ==> step@->failure->0.why == f.why@
            && step@->failure->0.hresult == f.hresult,
{
}

} // verus!
