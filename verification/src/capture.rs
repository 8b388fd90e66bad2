//! The plain capture loop: packets of any size in, chunks of one size out.
//!
//! The host owns the stream and does what each [`CaptureAction`] says; what came of it goes to the
//! method that belongs to the action, which says what to do next.

use crate::packet::CHUNK_FRAMES;
use crate::text::{hexadecimal_padded, push_hexadecimal_padded};
use crate::timing::{flagged, PacketTiming, TimingSnapshot, E_FAIL, FLAG_SILENT};
use vstd::prelude::*;
use vstd::string::*;

verus! {

/// Two channels of four bytes.
pub const BYTES_PER_FRAME: usize = 8;

/// The bytes of one chunk.
pub const CHUNK_BYTES: usize = CHUNK_FRAMES * BYTES_PER_FRAME;

/// What a wait on a handle came to.
#[derive(Clone, Copy, Debug, PartialEq, Eq, Structural)]
pub enum Wait {
    Signaled,
    TimedOut,
    /// Anything else: the handle is of no use any more.
    Broken,
}

pub const WAIT_OBJECT_0: u32 = 0;

pub const WAIT_TIMEOUT: u32 = 258;

pub fn classify_wait(code: u32) -> (r: Wait)
    ensures
        r == (if code == WAIT_OBJECT_0 {
            Wait::Signaled
        } else if code == WAIT_TIMEOUT {
            Wait::TimedOut
        } else {
            Wait::Broken
        }),
{
    if code == WAIT_OBJECT_0 {
        Wait::Signaled
    } else if code == WAIT_TIMEOUT {
        Wait::TimedOut
    } else {
        Wait::Broken
    }
}

/// Bytes gathered into chunks across packet boundaries.
pub struct Rechunker {
    acc: Vec<u8>,
}

pub open spec fn zero_bytes(n: nat) -> Seq<u8> {
    Seq::new(n, |i: int| 0u8)
}

/// The bytes that a packet adds to the stream: a silent one adds zeros.
pub open spec fn packet_bytes(p: PacketTiming, data: Option<Seq<u8>>) -> Seq<u8> {
    match data {
        Some(d) if !flagged(p.flags, FLAG_SILENT) => d,
        _ => zero_bytes((BYTES_PER_FRAME * p.frames) as nat),
    }
}

/// The whole chunks at the beginning of a stream.
pub open spec fn chunks_in(s: Seq<u8>) -> Seq<Seq<u8>>
    decreases s.len(),
{
    if s.len() < CHUNK_BYTES {
        Seq::empty()
    } else {
        seq![s.take(CHUNK_BYTES as int)] + chunks_in(s.skip(CHUNK_BYTES as int))
    }
}

/// What a stream leaves behind its whole chunks.
pub open spec fn left_over(s: Seq<u8>) -> Seq<u8>
    decreases s.len(),
{
    if s.len() < CHUNK_BYTES { s } else { left_over(s.skip(CHUNK_BYTES as int)) }
}

/// Chunks do not depend on where the packets end: cutting a stream, and then what was left over
/// together with the rest, gives the chunks of the whole.
pub proof fn chunks_ignore_packet_boundaries(a: Seq<u8>, b: Seq<u8>)
    ensures
        chunks_in(a + b) == chunks_in(a) + chunks_in(left_over(a) + b),
        left_over(a + b) == left_over(left_over(a) + b),
    decreases a.len(),
{
    let n = CHUNK_BYTES as int;
    if a.len() < n {
        assert(chunks_in(a) + chunks_in(a + b) =~= chunks_in(a + b));
    } else {
        chunks_ignore_packet_boundaries(a.skip(n), b);
        assert((a + b).take(n) =~= a.take(n));
        assert((a + b).skip(n) =~= a.skip(n) + b);
        assert(chunks_in(a + b) =~= chunks_in(a) + chunks_in(left_over(a) + b));
    }
}

impl Rechunker {
    /// The bytes that wait.
    pub closed spec fn view(self) -> Seq<u8> {
        self.acc@
    }

    pub fn new() -> (r: Rechunker)
        ensures
            r@ == Seq::<u8>::empty(),
    {
        Rechunker { acc: Vec::new() }
    }

    pub fn len(&self) -> (r: usize)
        ensures
            r == self@.len(),
    {
        self.acc.len()
    }

    /// Takes in a packet, so that the timeline stays whole.
    pub fn append(&mut self, p: &PacketTiming, data: Option<&[u8]>)
        requires
            old(self)@.len() + BYTES_PER_FRAME * p.frames <= usize::MAX,
        ensures
            final(self)@ == old(self)@ + packet_bytes(
                *p,
                match data {
                    Some(d) => Some(d@),
                    None => None,
                },
            ),
            data is Some && p.flags & 2 == 0 ==> final(self)@ == old(self)@ + data->0@,
    {
        if let Some(d) = data {
            if p.flags & FLAG_SILENT == 0 {
                self.acc.extend_from_slice(d);
                return;
            }
        }
        let n: usize = BYTES_PER_FRAME * p.frames as usize;
        let mut i: usize = 0;
        while i < n
            invariant
                i <= n,
                self@ == old(self)@ + zero_bytes(i as nat),
            decreases n - i,
        {
            self.acc.push(0);
            assert(self@ =~= old(self)@ + zero_bytes((i + 1) as nat));
            i = i + 1;
        }
        assert(i == n);
    }

    /// The next whole chunk. What it leaves waits on.
    pub fn next_chunk(&mut self) -> (r: Option<Vec<u8>>)
        ensures
            match r {
                Some(c) => c@.len() == 3840 && old(self)@ == c@ + final(self)@,
                None => old(self)@.len() < 3840 && final(self)@ == old(self)@,
            },
            chunks_in(old(self)@) == (match r {
                Some(c) => seq![c@] + chunks_in(final(self)@),
                None => Seq::empty(),
            }),
    {
        if self.acc.len() < CHUNK_BYTES {
            return None;
        }
        let mut rest: Vec<u8> = self.acc.split_off(CHUNK_BYTES);
        std::mem::swap(&mut rest, &mut self.acc);
        assert(old(self)@ =~= rest@ + self@);
        assert(old(self)@.take(CHUNK_BYTES as int) =~= rest@);
        assert(old(self)@.skip(CHUNK_BYTES as int) =~= self@);
        Some(rest)
    }
}

/// What the host does next.
pub enum CaptureAction {
    /// Look whether a stop was requested, without waiting.
    PollStop,
    /// Wait for the next period of the stream, for a bounded time.
    WaitAudio,
    /// Ask for the size of the next packet.
    AskSize,
    /// Read the next packet.
    Read,
    /// Give the buffer of the packet back.
    Release { frames: u32 },
    /// Hand a chunk to the callback.
    Deliver { chunk: Vec<u8> },
    /// Stop the stream; `failure` tells what ended it, where it was no requested stop.
    End { failure: Option<i32> },
}

pub struct CaptureLoop {
    stats: TimingSnapshot,
    bytes: Rechunker,
}

impl CaptureLoop {
    pub closed spec fn stats(self) -> TimingSnapshot {
        self.stats
    }

    /// The bytes that wait for a whole chunk.
    pub closed spec fn pending(self) -> Seq<u8> {
        self.bytes@
    }

    pub open spec fn wf(self) -> bool {
        self.stats().wf()
    }

    /// A stream that has just started.
    pub fn new() -> (r: CaptureLoop)
        ensures
            r.wf(),
            r.pending() == Seq::<u8>::empty(),
            r.stats() == (TimingSnapshot { running: true, ..TimingSnapshot::blank() }),
    {
        let mut stats = TimingSnapshot::default();
        stats.running = true;
        CaptureLoop { stats, bytes: Rechunker::new() }
    }

    /// The timing so far, to be shown to others.
    pub fn snapshot(&self) -> (r: TimingSnapshot)
        ensures
            r == self.stats(),
    {
        self.stats
    }

    /// Whether a packet of `frames` frames can be taken.
    pub fn has_room(&self, frames: u32) -> (r: bool)
        ensures
            r == (self.stats().has_room(frames as int) && self.pending().len() + BYTES_PER_FRAME * frames
                <= usize::MAX),
    {
        self.stats.sequence < u64::MAX && self.stats.captured_frames <= u64::MAX - frames as u64
            && self.bytes.len() as u128 + 8 * (frames as u128) <= usize::MAX as u128
    }

    /// Anything but "not yet signaled" ends the loop, a broken handle too.
    pub fn stop_polled(&self, wait: Wait) -> (r: CaptureAction)
        ensures
            r == (match wait {
                Wait::TimedOut => CaptureAction::WaitAudio,
                _ => CaptureAction::End { failure: None },
            }),
    {
        match wait {
            Wait::TimedOut => CaptureAction::WaitAudio,
            _ => CaptureAction::End { failure: None },
        }
    }

    pub fn audio_waited(&self, wait: Wait) -> (r: CaptureAction)
        ensures
            r == (match wait {
                Wait::Broken => CaptureAction::End { failure: Some(E_FAIL) },
                _ => CaptureAction::AskSize,
            }),
    {
        match wait {
            Wait::Broken => CaptureAction::End { failure: Some(E_FAIL) },
            _ => CaptureAction::AskSize,
        }
    }

    /// An error of the stream is final: it would come again every period.
    pub fn sized(&self, size: Result<u32, i32>) -> (r: CaptureAction)
        ensures
            r == (match size {
                Err(hr) => CaptureAction::End { failure: Some(hr) },
                Ok(0) => CaptureAction::PollStop,
                Ok(_) => CaptureAction::Read,
            }),
    {
        match size {
            Err(hr) => CaptureAction::End { failure: Some(hr) },
            Ok(0) => CaptureAction::PollStop,
            Ok(_) => CaptureAction::Read,
        }
    }

    /// A packet was read; `data` is its buffer, where it has one.
    pub fn read(&mut self, p: &PacketTiming, data: Option<&[u8]>) -> (r: CaptureAction)
        requires
            old(self).wf(),
            old(self).stats().has_room(p.frames as int),
            old(self).pending().len() + BYTES_PER_FRAME * p.frames <= usize::MAX,
        ensures
            final(self).wf(),
            final(self).stats() == old(self).stats().with_packet(*p),
            final(self).pending() == old(self).pending() + packet_bytes(
                *p,
                match data {
                    Some(d) => Some(d@),
                    None => None,
                },
            ),
            data is Some && p.flags & 2 == 0 ==> final(self).pending() == old(self).pending() + data->0@,
            r == (CaptureAction::Release { frames: p.frames }),
    {
        self.stats.record_packet(p.frames, p.flags, p.device_position, p.qpc_position);
        self.bytes.append(p, data);
        CaptureAction::Release { frames: p.frames }
    }

    /// Reading failed.
    pub fn read_failed(&self, hr: i32) -> (r: CaptureAction)
        ensures
            r == (CaptureAction::End { failure: Some(hr) }),
    {
        CaptureAction::End { failure: Some(hr) }
    }

    fn flush(&mut self) -> (r: CaptureAction)
        ensures
            final(self).stats() == old(self).stats(),
            match r {
                CaptureAction::Deliver { chunk } => chunk@.len() == 3840 && old(self).pending()
                    == chunk@ + final(self).pending(),
                CaptureAction::AskSize => old(self).pending().len() < 3840 && final(self).pending()
                    == old(self).pending(),
                _ => false,
            },
    {
        match self.bytes.next_chunk() {
            Some(chunk) => CaptureAction::Deliver { chunk },
            None => CaptureAction::AskSize,
        }
    }

    /// The buffer went back.
    pub fn released(&mut self, result: Result<(), i32>) -> (r: CaptureAction)
        requires
            old(self).wf(),
        ensures
            final(self).wf(),
            final(self).stats() == old(self).stats(),
            match result {
                Err(hr) => r == (CaptureAction::End { failure: Some(hr) }) && final(self).pending()
                    == old(self).pending(),
                Ok(_) => match r {
                    CaptureAction::Deliver { chunk } => chunk@.len() == 3840 && old(self).pending() == chunk@ + final(self).pending(),
                    CaptureAction::AskSize => old(self).pending().len() < 3840 && final(self).pending() == old(self).pending(),
                    _ => false,
                },
            },
    {
        match result {
            Err(hr) => CaptureAction::End { failure: Some(hr) },
            Ok(_) => self.flush(),
        }
    }

    /// A chunk was handed over, or the callback's queue refused it.
    pub fn delivered(&mut self, accepted: bool) -> (r: CaptureAction)
        requires
            old(self).wf(),
            old(self).stats().sequence < u64::MAX,
        ensures
            final(self).wf(),
            final(self).stats() == old(self).stats().with_chunk(accepted),
            match r {
                CaptureAction::Deliver { chunk } => chunk@.len() == 3840 && old(self).pending()
                    == chunk@ + final(self).pending(),
                CaptureAction::AskSize => old(self).pending().len() < 3840 && final(self).pending()
                    == old(self).pending(),
                _ => false,
            },
    {
        self.stats.record_chunk(accepted);
        self.flush()
    }

    /// The stream was stopped. The message, where something other than a request ended it.
    pub fn ended(&mut self, failure: Option<i32>) -> (r: Option<String>)
        requires
            old(self).wf(),
            old(self).stats().sequence < u64::MAX,
        ensures
            final(self).wf(),
            final(self).stats() == old(self).stats().finished(failure),
            final(self).pending() == old(self).pending(),
            match failure {
                Some(hr) => r is Some && r->0@ == end_message(hr),
                None => r is None,
            },
    {
        self.stats.finish(failure);
        match failure {
            Some(hr) => {
                let mut s: String = "WASAPI capture stream ended: HRESULT 0x".to_owned();
                push_hresult(&mut s, hr);
                Some(s)
            },
            None => None,
        }
    }
}

/// The bits of a result code as an unsigned number.
pub open spec fn unsigned(hr: i32) -> nat {
    if hr < 0 { (hr + 0x1_0000_0000) as nat } else { hr as nat }
}

/// A result code with its eight hexadecimal digits.
pub open spec fn shown_hresult(hr: i32) -> Seq<char> {
    hexadecimal_padded(unsigned(hr), 8)
}

pub fn push_hresult(out: &mut String, hr: i32)
    ensures
        final(out)@ == old(out)@ + shown_hresult(hr),
{
    let n: u64 = if hr < 0 {
        (hr as i64 + 0x1_0000_0000) as u64
    } else {
        hr as u64
    };
    push_hexadecimal_padded(out, n, 8);
}

pub open spec fn end_message(hr: i32) -> Seq<char> {
    "WASAPI capture stream ended: HRESULT 0x"@ + shown_hresult(hr)
}

/// A packet with a buffer and without the silent flag, which is the bit of weight two, adds the
/// bytes of its buffer, whatever its other flags say. A silent packet, or one without a buffer, adds
/// eight zero bytes for each of its frames, whatever its buffer holds. So packets that differ only in
/// their other flags add the same bytes.
pub proof fn only_the_silent_flag_takes_a_buffer_away(p: PacketTiming, q: PacketTiming, data: Option<Seq<u8>>)
    ensures
        p.flags & 2 == 0 && data is Some ==> packet_bytes(p, data) == data->0,
        p.flags & 2 != 0 || data is None ==> {
            &&& packet_bytes(p, data).len() == 8 * p.frames
            &&& forall|i: int| 0 <= i < packet_bytes(p, data).len() ==> #[trigger] packet_bytes(p, data)[i] == 0
        },
        p.frames == q.frames && (p.flags & 2 == 0 <==> q.flags & 2 == 0) ==> packet_bytes(p, data)
            == packet_bytes(q, data),
{
}

/// The discontinuity flag, of weight one, and the timestamp flag, of weight four, leave the bytes of a
/// packet as they are.
pub proof fn a_glitch_keeps_the_captured_bytes(p: PacketTiming, data: Seq<u8>)
    requires
        p.flags & 2 == 0,
    ensures
        packet_bytes((PacketTiming { flags: p.flags | 1, ..p }), Some(data)) == data,
        packet_bytes((PacketTiming { flags: p.flags | 4, ..p }), Some(data)) == data,
        packet_bytes((PacketTiming { flags: p.flags | 5, ..p }), Some(data)) == data,
{
    let f = p.flags;
    assert((f | 1) & 2 == 0 && (f | 4) & 2 == 0 && (f | 5) & 2 == 0) by (bit_vector)
        requires
            f & 2 == 0,
    ;
}

/// Chunk `k` of a stream is its bytes from 3840 times `k` on, 3840 of them; there are as many chunks
/// as fit; and what is left over is what stands behind the last of them.
pub proof fn chunks_are_consecutive(s: Seq<u8>, k: int)
    requires
        0 <= k < s.len() as int / 3840,
    ensures
        chunks_in(s).len() == s.len() / 3840,
        chunks_in(s)[k] == s.subrange(3840 * k, 3840 * k + 3840),
        left_over(s) == s.skip(3840 * (s.len() as int / 3840)),
    decreases s.len(),
{
    let rest = s.skip(3840);
    assert(chunks_in(s) == seq![s.take(3840)] + chunks_in(rest));
    assert(s.len() as int / 3840 == rest.len() as int / 3840 + 1);
    if k > 0 {
        chunks_are_consecutive(rest, k - 1);
        assert(rest.subrange(3840 * (k - 1), 3840 * (k - 1) + 3840) =~= s.subrange(
            3840 * k,
            3840 * k + 3840,
        ));
        assert(rest.skip(3840 * (rest.len() as int / 3840)) =~= s.skip(3840 * (s.len() as int / 3840)));
    } else {
        assert(s.take(3840) =~= s.subrange(0, 3840));
        if rest.len() >= 3840 {
            chunks_are_consecutive(rest, 0);
            assert(rest.skip(3840 * (rest.len() as int / 3840)) =~= s.skip(
                3840 * (s.len() as int / 3840),
            ));
        } else {
            assert(chunks_in(rest).len() == 0);
            assert(s.len() as int / 3840 == 1);
            assert(chunks_in(s).len() == 1);
            assert(left_over(rest) == rest);
            assert(s.skip(3840 * (s.len() as int / 3840)) =~= rest);
        }
    }
}

/// A stream shorter than a chunk makes none, and all of it is left over.
pub proof fn a_short_stream_waits(s: Seq<u8>)
    requires
        s.len() < 3840,
    ensures
        chunks_in(s).len() == 0,
        left_over(s) == s,
{
}

/// A result code shows as eight digits, which read as the code itself, or as the code plus two to the
/// power of thirty-two where it is negative.
pub proof fn a_result_code_shows_its_bits(hr: i32)
    ensures
        shown_hresult(hr).len() == 8,
        crate::text::read_hexadecimal(shown_hresult(hr)) == if hr < 0 { hr + 0x1_0000_0000 } else { hr as int },
        end_message(hr) == "WASAPI capture stream ended: HRESULT 0x"@ + shown_hresult(hr),
{
    crate::text::padded_digits_read_back(unsigned(hr), 8);
    vstd::arithmetic::power::lemma_pow_positive(16, 8);
    assert(vstd::arithmetic::power::pow(16, 8) == 0x1_0000_0000) by {
        reveal(vstd::arithmetic::power::pow);
        reveal_with_fuel(vstd::arithmetic::power::pow, 9);
    }
    vstd::arithmetic::div_mod::lemma_small_mod(unsigned(hr), 0x1_0000_0000);
}

/// Which codes of a wait mean what: zero is a signal, 258 a time that ran out, and anything else a
/// handle that is of no use.
pub proof fn waits_are_told_by_their_codes(code: u32, r: Wait)
    requires
        call_ensures(classify_wait, (code,), r),
    ensures
        code == 0 ==> r is Signaled,
        code == 258 ==> r is TimedOut,
        code != 0 && code != 258 ==> r is Broken,
{
}

/// A round of the capture loop: a stop that was not requested leads to waiting for audio, a request and
/// a broken handle to the end without a failure; audio, and a time that ran out, lead to the next
/// packet, a broken handle to the end with a failure; a packet is read, no packet leads to the next
/// round, and an error ends the stream with its code.
pub proof fn a_capture_goes_step_by_step(
    c: &CaptureLoop,
    wait: Wait,
    size: Result<u32, i32>,
    hr: i32,
    polled: CaptureAction,
    waited: CaptureAction,
    sized: CaptureAction,
    unread: CaptureAction,
)
    requires
        call_ensures(CaptureLoop::stop_polled, (c, wait), polled),
        call_ensures(CaptureLoop::audio_waited, (c, wait), waited),
        call_ensures(CaptureLoop::sized, (c, size), sized),
        call_ensures(CaptureLoop::read_failed, (c, hr), unread),
    ensures
        wait is TimedOut ==> polled is WaitAudio,
        !(wait is TimedOut) ==> polled == (CaptureAction::End { failure: None }),
        wait is Broken ==> waited == (CaptureAction::End { failure: Some(-2147467259i32) }),
        !(wait is Broken) ==> waited is AskSize,
        size matches Err(code) ==> sized == (CaptureAction::End { failure: Some(code) }),
        size matches Ok(n) ==> n == 0 ==> sized is PollStop,
        size matches Ok(n) ==> n > 0 ==> sized is Read,
        unread == (CaptureAction::End { failure: Some(hr) }),
{
}

} // verus!
