//! The messages of the engine: each as a sequence of characters, beside the function that writes it.

use crate::packet::Leg;
use crate::text::{
    decimal, integer, magnitude, one_decimal, push_decimal, push_integer, push_one_decimal, push_sign,
    round_625ths, rounded_625ths, sign, tenths,
};
use vstd::prelude::*;
use vstd::string::*;

verus! {

pub open spec fn starting() -> Seq<char> {
    "starting"@
}

pub open spec fn waiting_for_legs() -> Seq<char> {
    "waiting for both capture legs"@
}

pub open spec fn waiting_for_packets() -> Seq<char> {
    "waiting for packets on both legs"@
}

pub open spec fn waiting_for_own_audio() -> Seq<char> {
    "waiting for own audio to align on (reference silent)"@
}

pub open spec fn searching() -> Seq<char> {
    "searching for the integer offset"@
}

pub open spec fn history_lost() -> Seq<char> {
    "held-out history was lost before verification finished"@
}

pub open spec fn no_candidate() -> Seq<char> {
    "no candidate"@
}

/// The beginning that marks a message about a rejected candidate.
pub open spec fn not_locked_mark() -> Seq<char> {
    "not locked"@
}

pub open spec fn malformed(leg: Leg) -> Seq<char> {
    "malformed "@ + leg.spec_name() + " packet"@
}

pub fn write_malformed(leg: Leg) -> (r: String)
    ensures
        r@ == malformed(leg),
{
    let mut s: String = "malformed ".to_owned();
    s.append(leg.name());
    s.append(" packet");
    s
}

pub open spec fn discontinuity(leg: Leg) -> Seq<char> {
    "data discontinuity on the "@ + leg.spec_name() + " leg"@
}

pub fn write_discontinuity(leg: Leg) -> (r: String)
    ensures
        r@ == discontinuity(leg),
{
    let mut s: String = "data discontinuity on the ".to_owned();
    s.append(leg.name());
    s.append(" leg");
    s
}

pub open spec fn non_finite(leg: Leg) -> Seq<char> {
    "non-finite samples on the "@ + leg.spec_name() + " leg"@
}

pub fn write_non_finite(leg: Leg) -> (r: String)
    ensures
        r@ == non_finite(leg),
{
    let mut s: String = "non-finite samples on the ".to_owned();
    s.append(leg.name());
    s.append(" leg");
    s
}

/// `thirds` is the jump in thirds of 100 ns.
pub open spec fn jumped(leg: Leg, thirds: int) -> Seq<char> {
    leg.spec_name() + " leg timeline jumped "@ + sign(thirds) + one_decimal(
        tenths(magnitude(thirds), 30_000),
    ) + " ms between packets (missing packets are not silence)"@
}

pub fn write_jumped(leg: Leg, thirds: i128) -> (r: String)
    requires
        -0x100_0000_0000_0000_0000 < thirds < 0x100_0000_0000_0000_0000,
    ensures
        r@ == jumped(leg, thirds as int),
{
    let mut s: String = leg.name().to_owned();
    s.append(" leg timeline jumped ");
    push_sign(&mut s, thirds);
    let size: u128 = if thirds < 0 {
        (-thirds) as u128
    } else {
        thirds as u128
    };
    push_one_decimal(&mut s, size, 30_000);
    s.append(" ms between packets (missing packets are not silence)");
    s
}

pub open spec fn verifying(offset: int, peak: Seq<char>, runner_up: Seq<char>) -> Seq<char> {
    "verifying candidate offset "@ + integer(offset) + " on held-out audio (correlation "@ + peak
        + ", runner-up "@ + runner_up + ")"@
}

pub fn write_verifying(offset: i64, peak: &str, runner_up: &str) -> (r: String)
    ensures
        r@ == verifying(offset as int, peak@, runner_up@),
{
    let mut s: String = "verifying candidate offset ".to_owned();
    push_integer(&mut s, offset as i128);
    s.append(" on held-out audio (correlation ");
    s.append(peak);
    s.append(", runner-up ");
    s.append(runner_up);
    s.append(")");
    s
}

pub open spec fn not_locked(why: Seq<char>) -> Seq<char> {
    "not locked: "@ + why
}

pub fn write_not_locked(why: &str) -> (r: String)
    ensures
        r@ == not_locked(why@),
{
    let mut s: String = "not locked: ".to_owned();
    s.append(why);
    s
}

pub open spec fn absent(frames: nat) -> Seq<char> {
    "reference leg delivered no packets for "@ + one_decimal(tenths(frames, 48_000))
        + " s of endpoint audio (missing packets are not silence)"@
}

pub fn write_absent(frames: u64) -> (r: String)
    ensures
        r@ == absent(frames as nat),
{
    let mut s: String = "reference leg delivered no packets for ".to_owned();
    push_one_decimal(&mut s, frames as u128, 48_000);
    s.append(" s of endpoint audio (missing packets are not silence)");
    s
}

pub open spec fn overflow(pending: nat, cap: nat) -> Seq<char> {
    "overflow: "@ + decimal(pending)
        + " endpoint frames waiting for reference audio that has not arrived (cap "@ + decimal(cap)
        + "); the reference leg stalled"@
}

pub fn write_overflow(pending: u64, cap: u64) -> (r: String)
    ensures
        r@ == overflow(pending as nat, cap as nat),
{
    let mut s: String = "overflow: ".to_owned();
    push_decimal(&mut s, pending);
    s.append(" endpoint frames waiting for reference audio that has not arrived (cap ");
    push_decimal(&mut s, cap);
    s.append("); the reference leg stalled");
    s
}

pub open spec fn failed_unity(offset: int, estimates: Seq<char>) -> Seq<char> {
    "candidate offset "@ + integer(offset) + " failed the unity check on held-out audio ("@
        + estimates + ")"@
}

pub fn write_failed_unity(offset: i64, estimates: &str) -> (r: String)
    ensures
        r@ == failed_unity(offset as int, estimates@),
{
    let mut s: String = "candidate offset ".to_owned();
    push_integer(&mut s, offset as i128);
    s.append(" failed the unity check on held-out audio (");
    s.append(estimates);
    s.append(")");
    s
}

pub open spec fn inconclusive(offset: int, estimates: Seq<char>) -> Seq<char> {
    "candidate offset "@ + integer(offset) + " stayed inconclusive ("@ + estimates + ")"@
}

pub fn write_inconclusive(offset: i64, estimates: &str) -> (r: String)
    ensures
        r@ == inconclusive(offset as int, estimates@),
{
    let mut s: String = "candidate offset ".to_owned();
    push_integer(&mut s, offset as i128);
    s.append(" stayed inconclusive (");
    s.append(estimates);
    s.append(")");
    s
}

pub open spec fn unverifiable(frames: nat, last: Seq<char>) -> Seq<char> {
    "no unity-gain integer offset could be verified in "@ + one_decimal(tenths(frames, 48_000))
        + " s of own audio; the endpoint does not carry a sample-identical copy of the reference (format/DSP/route mismatch). Last: "@
        + last
}

pub fn write_unverifiable(frames: u64, last: &str) -> (r: String)
    ensures
        r@ == unverifiable(frames as nat, last@),
{
    let mut s: String = "no unity-gain integer offset could be verified in ".to_owned();
    push_one_decimal(&mut s, frames as u128, 48_000);
    s.append(
        " s of own audio; the endpoint does not carry a sample-identical copy of the reference (format/DSP/route mismatch). Last: ",
    );
    s.append(last);
    s
}

pub open spec fn still_unlocked(frames: nat, last: Seq<char>) -> Seq<char> {
    "not locked after "@ + one_decimal(tenths(frames, 48_000))
        + " s of own audio without conclusive evidence; share audio stays muted. Last: "@ + last
}

pub fn write_still_unlocked(frames: u64, last: &str) -> (r: String)
    ensures
        r@ == still_unlocked(frames as nat, last@),
{
    let mut s: String = "not locked after ".to_owned();
    push_one_decimal(&mut s, frames as u128, 48_000);
    s.append(" s of own audio without conclusive evidence; share audio stays muted. Last: ");
    s.append(last);
    s
}

/// A signed number of frames, given in 625ths, shown as a whole number.
pub open spec fn shown_625ths(n: int) -> Seq<char> {
    sign(n) + decimal(rounded_625ths(magnitude(n) as int) as nat)
}

fn push_625ths(out: &mut String, n: i128)
    requires
        -0x1_0000_0000_0000_0000_0000 < n < 0x1_0000_0000_0000_0000_0000,
        rounded_625ths(magnitude(n as int) as int) <= u64::MAX,
    ensures
        final(out)@ == old(out)@ + shown_625ths(n as int),
{
    push_sign(out, n);
    let size: i128 = if n < 0 {
        -n
    } else {
        n
    };
    push_decimal(out, round_625ths(size) as u64);
    assert(out@ =~= old(out)@ + shown_625ths(n as int));
}

pub open spec fn moved(delta: int, bound: int) -> Seq<char> {
    "content offset moved "@ + shown_625ths(delta)
        + " frames against packet timing between generations (bound ±"@ + integer(bound)
        + "); the silent-reference passthrough assumption is violated"@
}

pub fn write_moved(delta: i128, bound: i128) -> (r: String)
    requires
        -0x1_0000_0000_0000_0000_0000 < delta < 0x1_0000_0000_0000_0000_0000,
        rounded_625ths(magnitude(delta as int) as int) <= u64::MAX,
        0 <= bound <= i64::MAX,
    ensures
        r@ == moved(delta as int, bound as int),
{
    let mut s: String = "content offset moved ".to_owned();
    push_625ths(&mut s, delta);
    s.append(" frames against packet timing between generations (bound ±");
    push_integer(&mut s, bound);
    s.append("); the silent-reference passthrough assumption is violated");
    s
}

pub open spec fn locked(offset: int, bias: int, estimates: Seq<char>) -> Seq<char> {
    "locked at offset "@ + integer(offset) + " frames (content vs packet timing "@ + shown_625ths(bias)
        + "); "@ + estimates
}

pub fn write_locked(offset: i64, bias: i128, estimates: &str) -> (r: String)
    requires
        -0x1_0000_0000_0000_0000_0000 < bias < 0x1_0000_0000_0000_0000_0000,
        rounded_625ths(magnitude(bias as int) as int) <= u64::MAX,
    ensures
        r@ == locked(offset as int, bias as int, estimates@),
{
    let mut s: String = "locked at offset ".to_owned();
    push_integer(&mut s, offset as i128);
    s.append(" frames (content vs packet timing ");
    push_625ths(&mut s, bias);
    s.append("); ");
    s.append(estimates);
    s
}

pub open spec fn overrun(needed: int, start: nat) -> Seq<char> {
    "reference history overrun: frame "@ + integer(needed) + " needed but the ring starts at "@
        + decimal(start)
}

pub fn write_overrun(needed: i128, start: u64) -> (r: String)
    requires
        i64::MIN <= needed <= i64::MAX,
    ensures
        r@ == overrun(needed as int, start as nat),
{
    let mut s: String = "reference history overrun: frame ".to_owned();
    push_integer(&mut s, needed);
    s.append(" needed but the ring starts at ");
    push_decimal(&mut s, start);
    s
}

pub open spec fn lost_lock(offset: int, estimates: Seq<char>) -> Seq<char> {
    "lost lock at offset "@ + integer(offset)
        + ": the endpoint no longer carries the reference at unity gain ("@ + estimates + ")"@
}

pub fn write_lost_lock(offset: i64, estimates: &str) -> (r: String)
    ensures
        r@ == lost_lock(offset as int, estimates@),
{
    let mut s: String = "lost lock at offset ".to_owned();
    push_integer(&mut s, offset as i128);
    s.append(": the endpoint no longer carries the reference at unity gain (");
    s.append(estimates);
    s.append(")");
    s
}

/// `s` begins with `mark`.
pub open spec fn begins_with(s: Seq<char>, mark: Seq<char>) -> bool {
    mark.len() <= s.len() && s.take(mark.len() as int) == mark
}

pub fn starts_with(s: &str, mark: &str) -> (r: bool)
    ensures
        r == begins_with(s@, mark@),
{
    let n: usize = mark.unicode_len();
    if s.unicode_len() < n {
        return false;
    }
    let mut i: usize = 0;
    while i < n
        invariant
            n == mark@.len(),
            n <= s@.len(),
            i <= n,
            forall|k: int| 0 <= k < i ==> s@[k] == mark@[k],
        decreases n - i,
    {
        if s.get_char(i) != mark.get_char(i) {
            assert(s@.take(n as int)[i as int] != mark@[i as int]);
            return false;
        }
        i = i + 1;
    }
    assert(s@.take(n as int) =~= mark@);
    true
}

/// What each message of a waiting session says.
pub proof fn waiting_messages_say_what_is_waited_for()
    ensures
        starting() == "starting"@,
        waiting_for_legs() == "waiting for both capture legs"@,
        waiting_for_packets() == "waiting for packets on both legs"@,
        waiting_for_own_audio() == "waiting for own audio to align on (reference silent)"@,
        searching() == "searching for the integer offset"@,
        history_lost() == "held-out history was lost before verification finished"@,
        no_candidate() == "no candidate"@,
        not_locked_mark() == "not locked"@,
{
}

/// What the messages about a leg say: which leg it is, and for a jump its size in milliseconds with its
/// sign. A millisecond is 30000 thirds of 100 ns.
pub proof fn messages_about_a_leg_name_it(leg: Leg, thirds: int)
    ensures
        ({
            let name = match leg {
                Leg::Endpoint => "endpoint"@,
                Leg::Reference => "reference"@,
            };
            &&& malformed(leg) == "malformed "@ + name + " packet"@
            &&& discontinuity(leg) == "data discontinuity on the "@ + name + " leg"@
            &&& non_finite(leg) == "non-finite samples on the "@ + name + " leg"@
            &&& jumped(leg, thirds) == name + " leg timeline jumped "@ + sign(thirds) + one_decimal(
                tenths(if thirds < 0 { (-thirds) as nat } else { thirds as nat }, 30_000),
            ) + " ms between packets (missing packets are not silence)"@
        }),
{
}

/// What the messages about candidates and locks say: the offset, and the estimates or the distance they
/// go by. A distance in 625ths of a frame shows as the nearest whole number of frames, with its sign.
pub proof fn messages_about_offsets_show_them(offset: int, n: int, bound: int, a: Seq<char>, b: Seq<char>)
    ensures
        verifying(offset, a, b) == "verifying candidate offset "@ + integer(offset)
            + " on held-out audio (correlation "@ + a + ", runner-up "@ + b + ")"@,
        not_locked(a) == "not locked: "@ + a,
        failed_unity(offset, a) == "candidate offset "@ + integer(offset)
            + " failed the unity check on held-out audio ("@ + a + ")"@,
        inconclusive(offset, a) == "candidate offset "@ + integer(offset) + " stayed inconclusive ("@ + a + ")"@,
        moved(n, bound) == "content offset moved "@ + shown_625ths(n)
            + " frames against packet timing between generations (bound ±"@ + integer(bound)
            + "); the silent-reference passthrough assumption is violated"@,
        locked(offset, n, a) == "locked at offset "@ + integer(offset) + " frames (content vs packet timing "@
            + shown_625ths(n) + "); "@ + a,
        lost_lock(offset, a) == "lost lock at offset "@ + integer(offset)
            + ": the endpoint no longer carries the reference at unity gain ("@ + a + ")"@,
        shown_625ths(n)[0] == if n < 0 { '-' } else { '+' },
        ({
            let shown = crate::text::read_decimal(shown_625ths(n).skip(1));
            -312 <= 625 * shown - (if n < 0 { -n } else { n }) <= 312
        }),
{
    let size = rounded_625ths(magnitude(n) as int) as nat;
    crate::text::decimals_read_back(size);
    assert(shown_625ths(n).skip(1) =~= decimal(size));
}

/// What the messages about frames say: how many, in seconds at 48000 a second where they are audio that
/// was spent or missed, and one by one where they wait.
pub proof fn messages_about_frames_count_them(frames: nat, cap: nat, needed: int, start: nat, last: Seq<char>)
    ensures
        absent(frames) == "reference leg delivered no packets for "@ + one_decimal(tenths(frames, 48_000))
            + " s of endpoint audio (missing packets are not silence)"@,
        overflow(frames, cap) == "overflow: "@ + decimal(frames)
            + " endpoint frames waiting for reference audio that has not arrived (cap "@ + decimal(cap)
            + "); the reference leg stalled"@,
        unverifiable(frames, last) == "no unity-gain integer offset could be verified in "@ + one_decimal(
            tenths(frames, 48_000),
        )
            + " s of own audio; the endpoint does not carry a sample-identical copy of the reference (format/DSP/route mismatch). Last: "@
            + last,
        still_unlocked(frames, last) == "not locked after "@ + one_decimal(tenths(frames, 48_000))
            + " s of own audio without conclusive evidence; share audio stays muted. Last: "@ + last,
        overrun(needed, start) == "reference history overrun: frame "@ + integer(needed)
            + " needed but the ring starts at "@ + decimal(start),
{
}

} // verus!
