//! Per-stream timing, taken straight from the packets of a capture.
//!
//! Diagnostics only: nothing here drives capture or subtraction. `captured_frames` counts every
//! frame that the audio engine handed over, silent packets included, so it is a clock of its own
//! that survives chunks which the host could not deliver. The timing pair is the captured-frame
//! index of the first frame of the last packet with a valid timestamp, and the performance counter
//! at which the audio engine recorded it. The device position is kept as it came but is not
//! trusted: `device_position_advances` tells whether it ever moved.

use crate::engine::Status;
use crate::ieee::Double;
use crate::packet::PacketInfo;
use vstd::prelude::*;
use vstd::std_specs::convert::FromSpecImpl;
use vstd::string::*;

verus! {

/// The general failure code.
pub const E_FAIL: i32 = -2147467259;

/// Frames were lost before this packet.
pub const FLAG_DATA_DISCONTINUITY: u32 = 1;

/// The packet is silence; its bytes mean nothing.
pub const FLAG_SILENT: u32 = 2;

/// The timestamp of the packet is invalid.
pub const FLAG_TIMESTAMP_ERROR: u32 = 4;

pub open spec fn flagged(flags: u32, flag: u32) -> bool {
    flags & flag != 0
}

/// One coherent view of a stream.
#[derive(Clone, Copy, Debug, PartialEq, Eq, Structural)]
pub struct TimingSnapshot {
    /// Bumped on every update: an unchanged value across polls means that nothing new happened.
    pub sequence: u64,
    pub running: bool,
    /// What ended the stream; zero while it runs or behind a requested stop.
    pub error_hresult: i32,
    pub packets: u64,
    pub captured_frames: u64,
    pub last_packet_frames: u32,
    pub silent_packets: u64,
    pub discontinuities: u64,
    pub timestamp_errors: u64,
    pub delivered_chunks: u64,
    pub dropped_chunks: u64,
    pub timing_valid: bool,
    pub timing_frame: u64,
    pub timing_qpc_100ns: u64,
    pub timing_device_position: u64,
    pub device_position_advances: u64,
}

impl Default for TimingSnapshot {
    fn default() -> (r: TimingSnapshot)
        ensures
            r == TimingSnapshot::blank(),
            r.wf(),
    {
        TimingSnapshot {
            sequence: 0,
            running: false,
            error_hresult: 0,
            packets: 0,
            captured_frames: 0,
            last_packet_frames: 0,
            silent_packets: 0,
            discontinuities: 0,
            timestamp_errors: 0,
            delivered_chunks: 0,
            dropped_chunks: 0,
            timing_valid: false,
            timing_frame: 0,
            timing_qpc_100ns: 0,
            timing_device_position: 0,
            device_position_advances: 0,
        }
    }
}

/// What the audio engine said of one packet.
#[derive(Clone, Copy, Debug, PartialEq, Eq, Structural)]
pub struct PacketTiming {
    pub frames: u32,
    pub flags: u32,
    pub device_position: u64,
    pub qpc_position: u64,
}

pub open spec fn one_if(b: bool) -> int {
    if b { 1 } else { 0 }
}

/// The frames of a run of packets.
pub open spec fn frames_of(packets: Seq<PacketTiming>) -> nat
    decreases packets.len(),
{
    if packets.len() == 0 {
        0
    } else {
        frames_of(packets.drop_last()) + packets.last().frames as nat
    }
}

impl PacketTiming {
    /// The packet brings a valid timestamp.
    pub open spec fn timed(self) -> bool {
        !flagged(self.flags, FLAG_TIMESTAMP_ERROR) && self.qpc_position != 0
    }
}

impl TimingSnapshot {
    pub open spec fn blank() -> TimingSnapshot {
        TimingSnapshot {
            sequence: 0,
            running: false,
            error_hresult: 0,
            packets: 0,
            captured_frames: 0,
            last_packet_frames: 0,
            silent_packets: 0,
            discontinuities: 0,
            timestamp_errors: 0,
            delivered_chunks: 0,
            dropped_chunks: 0,
            timing_valid: false,
            timing_frame: 0,
            timing_qpc_100ns: 0,
            timing_device_position: 0,
            device_position_advances: 0,
        }
    }

    /// Packets and chunks are updates, and the packets of each kind are packets.
    pub open spec fn wf(self) -> bool {
        &&& self.packets + self.delivered_chunks + self.dropped_chunks <= self.sequence
        &&& self.silent_packets <= self.packets
        &&& self.discontinuities <= self.packets
        &&& self.timestamp_errors <= self.packets
        &&& self.device_position_advances <= self.packets
        &&& self.timing_frame <= self.captured_frames
    }

    /// The counters can take a packet of `frames` frames.
    pub open spec fn has_room(self, frames: int) -> bool {
        self.sequence < u64::MAX && self.captured_frames + frames <= u64::MAX
    }

    /// The snapshot behind a packet. A packet without a valid timestamp leaves the timing pair.
    pub open spec fn with_packet(self, p: PacketTiming) -> TimingSnapshot {
        let t = TimingSnapshot {
            sequence: (self.sequence + 1) as u64,
            packets: (self.packets + 1) as u64,
            captured_frames: (self.captured_frames + p.frames) as u64,
            last_packet_frames: p.frames,
            silent_packets: (self.silent_packets + one_if(flagged(p.flags, FLAG_SILENT))) as u64,
            discontinuities: (self.discontinuities + one_if(
                flagged(p.flags, FLAG_DATA_DISCONTINUITY),
            )) as u64,
            timestamp_errors: (self.timestamp_errors + one_if(
                flagged(p.flags, FLAG_TIMESTAMP_ERROR),
            )) as u64,
            ..self
        };
        if !p.timed() {
            t
        } else {
            TimingSnapshot {
                device_position_advances: (self.device_position_advances + one_if(
                    self.timing_valid && p.device_position > self.timing_device_position,
                )) as u64,
                timing_valid: true,
                timing_frame: self.captured_frames,
                timing_qpc_100ns: p.qpc_position,
                timing_device_position: p.device_position,
                ..t
            }
        }
    }

    pub fn record_packet(&mut self, frames: u32, flags: u32, device_position: u64, qpc_position: u64)
        requires
            old(self).wf(),
            old(self).has_room(frames as int),
        ensures
            final(self).wf(),
            *final(self) == old(self).with_packet(
                (PacketTiming { frames, flags, device_position, qpc_position }),
            ),
    {
        self.sequence = self.sequence + 1;
        self.packets = self.packets + 1;
        let first_frame: u64 = self.captured_frames;
        self.captured_frames = self.captured_frames + frames as u64;
        self.last_packet_frames = frames;
        if flags & FLAG_SILENT != 0 {
            self.silent_packets = self.silent_packets + 1;
        }
        if flags & FLAG_DATA_DISCONTINUITY != 0 {
            self.discontinuities = self.discontinuities + 1;
        }
        if flags & FLAG_TIMESTAMP_ERROR != 0 {
            // The previous valid pair is kept.
            self.timestamp_errors = self.timestamp_errors + 1;
            return;
        }
        if qpc_position == 0 {
            return;
        }
        if self.timing_valid && device_position > self.timing_device_position {
            self.device_position_advances = self.device_position_advances + 1;
        }
        self.timing_valid = true;
        self.timing_frame = first_frame;
        self.timing_qpc_100ns = qpc_position;
        self.timing_device_position = device_position;
    }

    pub open spec fn with_chunk(self, delivered: bool) -> TimingSnapshot {
        TimingSnapshot {
            sequence: (self.sequence + 1) as u64,
            delivered_chunks: (self.delivered_chunks + one_if(delivered)) as u64,
            dropped_chunks: (self.dropped_chunks + one_if(!delivered)) as u64,
            ..self
        }
    }

    pub fn record_chunk(&mut self, delivered: bool)
        requires
            old(self).wf(),
            old(self).sequence < u64::MAX,
        ensures
            final(self).wf(),
            *final(self) == old(self).with_chunk(delivered),
    {
        self.sequence = self.sequence + 1;
        if delivered {
            self.delivered_chunks = self.delivered_chunks + 1;
        } else {
            self.dropped_chunks = self.dropped_chunks + 1;
        }
    }

    pub open spec fn finished(self, failure: Option<i32>) -> TimingSnapshot {
        TimingSnapshot {
            sequence: (self.sequence + 1) as u64,
            running: false,
            error_hresult: match failure {
                Some(hr) => hr,
                None => 0,
            },
            ..self
        }
    }

    pub fn finish(&mut self, failure: Option<i32>)
        requires
            old(self).wf(),
            old(self).sequence < u64::MAX,
        ensures
            final(self).wf(),
            *final(self) == old(self).finished(failure),
    {
        self.sequence = self.sequence + 1;
        self.running = false;
        self.error_hresult = match failure {
            Some(hr) => hr,
            None => 0,
        };
    }

    /// The snapshot behind a run of packets.
    pub open spec fn with_packets(self, packets: Seq<PacketTiming>) -> TimingSnapshot
        decreases packets.len(),
    {
        if packets.len() == 0 {
            self
        } else {
            self.with_packets(packets.drop_last()).with_packet(packets.last())
        }
    }
}

/// Every packet counts with all of its frames, silent and untimed ones included.
pub proof fn every_packet_counts_with_all_its_frames(s: TimingSnapshot, packets: Seq<PacketTiming>)
    requires
        s.wf(),
        s.sequence + packets.len() <= u64::MAX,
        s.captured_frames + frames_of(packets) <= u64::MAX,
    ensures
        s.with_packets(packets).wf(),
        s.with_packets(packets).captured_frames == s.captured_frames + frames_of(packets),
        s.with_packets(packets).packets == s.packets + packets.len(),
        s.with_packets(packets).sequence == s.sequence + packets.len(),
    decreases packets.len(),
{
    if packets.len() > 0 {
        every_packet_counts_with_all_its_frames(s, packets.drop_last());
    }
}

/// A packet was read, or a chunk was handed to the host.
pub enum Update {
    Packet { packet: PacketTiming },
    Chunk { delivered: bool },
}

/// The packets among a run of updates.
pub open spec fn packets_among(updates: Seq<Update>) -> Seq<PacketTiming>
    decreases updates.len(),
{
    if updates.len() == 0 {
        Seq::empty()
    } else {
        let before = packets_among(updates.drop_last());
        match updates.last() {
            Update::Packet { packet } => before.push(packet),
            Update::Chunk { delivered } => before,
        }
    }
}

/// The chunks among a run of updates whose delivery went as `delivered` says.
pub open spec fn chunks_among(updates: Seq<Update>, delivered: bool) -> nat
    decreases updates.len(),
{
    if updates.len() == 0 {
        0
    } else {
        chunks_among(updates.drop_last(), delivered) + if updates.last() == (Update::Chunk { delivered }) {
            1nat
        } else {
            0nat
        }
    }
}

impl TimingSnapshot {
    /// The snapshot behind a run of packets and chunks, in the order in which they came.
    pub open spec fn with_updates(self, updates: Seq<Update>) -> TimingSnapshot
        decreases updates.len(),
    {
        if updates.len() == 0 {
            self
        } else {
            let before = self.with_updates(updates.drop_last());
            match updates.last() {
                Update::Packet { packet } => before.with_packet(packet),
                Update::Chunk { delivered } => before.with_chunk(delivered),
            }
        }
    }
}

/// From a blank snapshot on, whatever mix of packets and chunks comes: each is counted once, and the
/// sequence number is the sum of the packets, the delivered chunks and the dropped ones.
pub proof fn the_sequence_counts_packets_and_chunks(updates: Seq<Update>)
    requires
        updates.len() <= u64::MAX,
        frames_of(packets_among(updates)) <= u64::MAX,
    ensures
        ({
            let t = TimingSnapshot::blank().with_updates(updates);
            &&& t.wf()
            &&& t.sequence == t.packets + t.delivered_chunks + t.dropped_chunks
            &&& t.sequence == updates.len()
            &&& t.packets == packets_among(updates).len()
            &&& t.delivered_chunks == chunks_among(updates, true)
            &&& t.dropped_chunks == chunks_among(updates, false)
            &&& t.captured_frames == frames_of(packets_among(updates))
        }),
    decreases updates.len(),
{
    if updates.len() > 0 {
        let before = packets_among(updates.drop_last());
        if let Update::Packet { packet } = updates.last() {
            assert(before.push(packet).drop_last() =~= before);
        }
        the_sequence_counts_packets_and_chunks(updates.drop_last());
    }
}

/// Every update is seen: the sequence number rises by one with each.
pub proof fn every_update_bumps_the_sequence(
    s: TimingSnapshot,
    p: PacketTiming,
    delivered: bool,
    failure: Option<i32>,
)
    requires
        s.sequence < u64::MAX,
    ensures
        s.with_packet(p).sequence == s.sequence + 1,
        s.with_chunk(delivered).sequence == s.sequence + 1,
        s.finished(failure).sequence == s.sequence + 1,
{
}

/// A packet without a valid timestamp keeps the previous timing pair, and one that has it sets both
/// halves of the pair.
pub proof fn the_timing_pair_comes_from_one_packet(s: TimingSnapshot, p: PacketTiming)
    ensures
        !p.timed() ==> {
            &&& s.with_packet(p).timing_valid == s.timing_valid
            &&& s.with_packet(p).timing_frame == s.timing_frame
            &&& s.with_packet(p).timing_qpc_100ns == s.timing_qpc_100ns
        },
        p.timed() ==> {
            &&& s.with_packet(p).timing_valid
            &&& s.with_packet(p).timing_frame == s.captured_frames
            &&& s.with_packet(p).timing_qpc_100ns == p.qpc_position
        },
{
}

/// A packet as the engine takes it: one without a buffer is silent, and only a valid timestamp counts.
pub open spec fn spec_packet_info(p: PacketTiming, has_data: bool, read_qpc_100ns: u64) -> PacketInfo {
    PacketInfo {
        frames: p.frames,
        silent: flagged(p.flags, FLAG_SILENT) || !has_data,
        discontinuity: flagged(p.flags, FLAG_DATA_DISCONTINUITY),
        engine_qpc_100ns: if p.timed() { Some(p.qpc_position) } else { None },
        read_qpc_100ns,
    }
}

pub fn packet_info(p: PacketTiming, has_data: bool, read_qpc_100ns: u64) -> (r: PacketInfo)
    ensures
        r == spec_packet_info(p, has_data, read_qpc_100ns),
{
    let engine_qpc_100ns = if p.flags & FLAG_TIMESTAMP_ERROR == 0 && p.qpc_position != 0 {
        Some(p.qpc_position)
    } else {
        None
    };
    PacketInfo {
        frames: p.frames,
        silent: p.flags & FLAG_SILENT != 0 || !has_data,
        discontinuity: p.flags & FLAG_DATA_DISCONTINUITY != 0,
        engine_qpc_100ns,
        read_qpc_100ns,
    }
}

/// The performance counter in units of 100 ns, at `freq` counts a second. The quotient is cut
/// towards zero and taken modulo 2^64.
pub open spec fn spec_qpc_to_100ns(count: int, freq: int) -> int {
    let scaled = count * 10_000_000;
    let per = if freq < 1 { 1 } else { freq };
    let whole = if scaled < 0 { -(-scaled / per) } else { scaled / per };
    whole % 0x1_0000_0000_0000_0000
}

proof fn lemma_negative_remainder(w: int)
    requires
        w >= 0,
    ensures
        w % 0x1_0000_0000_0000_0000 == 0 ==> (-w) % 0x1_0000_0000_0000_0000 == 0,
        w % 0x1_0000_0000_0000_0000 != 0 ==> (-w) % 0x1_0000_0000_0000_0000 == 0x1_0000_0000_0000_0000 - w
            % 0x1_0000_0000_0000_0000,
{
}

pub fn qpc_to_100ns(count: i64, freq: i64) -> (r: u64)
    ensures
        r == spec_qpc_to_100ns(count as int, freq as int),
{
    let per: u128 = if freq < 1 {
        1
    } else {
        freq as u128
    };
    let size: u128 = if count < 0 {
        (-(count as i128)) as u128
    } else {
        count as u128
    };
    let whole: u128 = (size * 10_000_000) / per;
    let rest: u128 = whole % 0x1_0000_0000_0000_0000;
    proof {
        lemma_negative_remainder(whole as int);
    }
    if count < 0 && rest != 0 {
        (0x1_0000_0000_0000_0000 - rest) as u64
    } else {
        rest as u64
    }
}

/// The timing of a session as it is shown to the outside.
#[derive(Clone, Copy, Debug, PartialEq, Eq, Structural)]
pub struct CaptureStats {
    /// Device position of the timing packet. It may never move on process loopback.
    pub device_position: u64,
    /// Performance counter at which the timing packet was recorded, in 100 ns.
    pub qpc_position100ns: u64,
    pub packets: u64,
    /// Chunks that the host's queue refused.
    pub dropped_chunks: u64,
    pub discontinuities: u64,
    pub timestamp_errors: u64,
    pub sequence: u64,
    /// False once the capture has ended.
    pub running: bool,
    pub error_hresult: i32,
    pub captured_frames: u64,
    pub last_packet_frames: u32,
    pub silent_packets: u64,
    pub delivered_chunks: u64,
    pub timing_valid: bool,
    pub timing_frame: u64,
    pub device_position_advances: u64,
}

impl From<TimingSnapshot> for CaptureStats {
    fn from(s: TimingSnapshot) -> (r: CaptureStats) {
        CaptureStats {
            device_position: s.timing_device_position,
            qpc_position100ns: s.timing_qpc_100ns,
            packets: s.packets,
            dropped_chunks: s.dropped_chunks,
            discontinuities: s.discontinuities,
            timestamp_errors: s.timestamp_errors,
            sequence: s.sequence,
            running: s.running,
            error_hresult: s.error_hresult,
            captured_frames: s.captured_frames,
            last_packet_frames: s.last_packet_frames,
            silent_packets: s.silent_packets,
            delivered_chunks: s.delivered_chunks,
            timing_valid: s.timing_valid,
            timing_frame: s.timing_frame,
            device_position_advances: s.device_position_advances,
        }
    }
}

impl FromSpecImpl<TimingSnapshot> for CaptureStats {
    open spec fn obeys_from_spec() -> bool {
        true
    }

    open spec fn from_spec(s: TimingSnapshot) -> CaptureStats {
        CaptureStats {
            device_position: s.timing_device_position,
            qpc_position100ns: s.timing_qpc_100ns,
            packets: s.packets,
            dropped_chunks: s.dropped_chunks,
            discontinuities: s.discontinuities,
            timestamp_errors: s.timestamp_errors,
            sequence: s.sequence,
            running: s.running,
            error_hresult: s.error_hresult,
            captured_frames: s.captured_frames,
            last_packet_frames: s.last_packet_frames,
            silent_packets: s.silent_packets,
            delivered_chunks: s.delivered_chunks,
            timing_valid: s.timing_valid,
            timing_frame: s.timing_frame,
            device_position_advances: s.device_position_advances,
        }
    }
}

/// The state of a subtraction as it is shown to the outside.
#[derive(Clone, Debug)]
pub struct SubtractionStatus {
    pub state: String,
    pub reason: String,
    /// Verified offset (reference index minus endpoint index) while running, else zero.
    pub offset_frames: i64,
    pub locked: bool,
    pub buffered_frames: u64,
    pub generation: u32,
    pub endpoint_id: String,
    /// The offset that packet timing gives, in 625ths of a frame.
    pub coarse_offset_625ths: Option<i128>,
    pub candidate_offset_frames: Option<i64>,
    pub gain_left: Option<Double>,
    pub gain_right: Option<Double>,
    pub delay_left: Option<Double>,
    pub delay_right: Option<Double>,
    pub endpoint_frames: u64,
    pub reference_frames: u64,
    pub subtracted_frames: u64,
    pub passthrough_frames: u64,
    pub muted_frames: u64,
    pub locks: u32,
    pub rejected_candidates: u32,
    pub discontinuities: u64,
    pub timeline_gaps: u64,
    pub dropped_chunks: u64,
}

impl SubtractionStatus {
    /// This shows the status `s` of a session on `endpoint_id`.
    pub open spec fn tells(self, s: Status, endpoint_id: Seq<char>) -> bool {
        &&& self.state@ == s.phase.spec_str()
        &&& self.reason@ == s.reason@
        &&& self.offset_frames == (match s.offset_frames {
            Some(o) => o,
            None => 0,
        })
        &&& self.locked == s.offset_frames is Some
        &&& self.buffered_frames == s.buffered_frames
        &&& self.generation == s.generation
        &&& self.endpoint_id@ == endpoint_id
        &&& self.coarse_offset_625ths == s.coarse_offset_625ths
        &&& self.candidate_offset_frames == s.candidate_offset_frames
        &&& self.gain_left == s.gain.left
        &&& self.gain_right == s.gain.right
        &&& self.delay_left == s.fractional_delay.left
        &&& self.delay_right == s.fractional_delay.right
        &&& self.endpoint_frames == s.endpoint_frames
        &&& self.reference_frames == s.reference_frames
        &&& self.subtracted_frames == s.subtracted_frames
        &&& self.passthrough_frames == s.passthrough_frames
        &&& self.muted_frames == s.muted_frames
        &&& self.locks == s.locks
        &&& self.rejected_candidates == s.rejected_candidates
        &&& self.discontinuities == s.discontinuities
        &&& self.timeline_gaps == s.timeline_gaps
        &&& self.dropped_chunks == s.dropped_chunks
    }

    pub fn from_status(s: &Status, endpoint_id: &str) -> (r: SubtractionStatus)
        ensures
            r.tells(*s, endpoint_id@),
    {
        SubtractionStatus {
            state: s.phase.as_str().to_owned(),
            reason: s.reason.clone(),
            offset_frames: match s.offset_frames {
                Some(o) => o,
                None => 0,
            },
            locked: s.offset_frames.is_some(),
            buffered_frames: s.buffered_frames,
            generation: s.generation,
            endpoint_id: endpoint_id.to_owned(),
            coarse_offset_625ths: s.coarse_offset_625ths,
            candidate_offset_frames: s.candidate_offset_frames,
            gain_left: s.gain.left,
            gain_right: s.gain.right,
            delay_left: s.fractional_delay.left,
            delay_right: s.fractional_delay.right,
            endpoint_frames: s.endpoint_frames,
            reference_frames: s.reference_frames,
            subtracted_frames: s.subtracted_frames,
            passthrough_frames: s.passthrough_frames,
            muted_frames: s.muted_frames,
            locks: s.locks,
            rejected_candidates: s.rejected_candidates,
            discontinuities: s.discontinuities,
            timeline_gaps: s.timeline_gaps,
            dropped_chunks: s.dropped_chunks,
        }
    }
}

/// A packet adds one to the packets and its frames to the captured frames; it adds one to the lost
/// stretches where bit one is set in its flags, to the silent packets where bit two is, and to the
/// timestamp errors where bit four is; and it touches no other count.
pub proof fn a_packet_is_counted_by_its_flags(s: TimingSnapshot, p: PacketTiming)
    requires
        s.wf(),
        s.has_room(p.frames as int),
    ensures
        ({
            let t = s.with_packet(p);
            &&& t.sequence == s.sequence + 1
            &&& t.packets == s.packets + 1
            &&& t.captured_frames == s.captured_frames + p.frames
            &&& t.last_packet_frames == p.frames
            &&& t.discontinuities - s.discontinuities == if p.flags & 1 != 0 { 1int } else { 0 }
            &&& t.silent_packets - s.silent_packets == if p.flags & 2 != 0 { 1int } else { 0 }
            &&& t.timestamp_errors - s.timestamp_errors == if p.flags & 4 != 0 { 1int } else { 0 }
            &&& t.delivered_chunks == s.delivered_chunks
            &&& t.dropped_chunks == s.dropped_chunks
            &&& t.running == s.running
            &&& t.error_hresult == s.error_hresult
        }),
{
}

/// A packet without the timestamp-error bit, which weighs four, and with a time other than zero sets
/// the timing pair to itself: the index of its first frame and its time; and it counts as an advance
/// where the device position lies beyond that of the pair before. Any other packet keeps the pair.
pub proof fn a_timed_packet_sets_the_timing_pair(s: TimingSnapshot, p: PacketTiming)
    requires
        s.wf(),
        s.has_room(p.frames as int),
    ensures
        p.flags & 4 == 0 && p.qpc_position != 0 ==> {
            let t = s.with_packet(p);
            &&& t.timing_valid
            &&& t.timing_frame == s.captured_frames
            &&& t.timing_qpc_100ns == p.qpc_position
            &&& t.timing_device_position == p.device_position
            &&& t.device_position_advances - s.device_position_advances == if s.timing_valid
                && p.device_position > s.timing_device_position { 1int } else { 0 }
        },
        p.flags & 4 != 0 || p.qpc_position == 0 ==> {
            let t = s.with_packet(p);
            &&& t.timing_valid == s.timing_valid
            &&& t.timing_frame == s.timing_frame
            &&& t.timing_qpc_100ns == s.timing_qpc_100ns
            &&& t.timing_device_position == s.timing_device_position
            &&& t.device_position_advances == s.device_position_advances
        },
{
}

/// A chunk is counted as delivered or as dropped, and changes nothing else but the sequence number.
pub proof fn a_chunk_is_delivered_or_dropped(s: TimingSnapshot, delivered: bool)
    requires
        s.wf(),
        s.sequence < u64::MAX,
    ensures
        ({
            let t = s.with_chunk(delivered);
            &&& t.delivered_chunks - s.delivered_chunks == if delivered { 1int } else { 0 }
            &&& t.dropped_chunks - s.dropped_chunks == if delivered { 0int } else { 1 }
            &&& t == (TimingSnapshot {
                sequence: t.sequence,
                delivered_chunks: t.delivered_chunks,
                dropped_chunks: t.dropped_chunks,
                ..s
            })
        }),
{
}

/// An ended stream no longer runs, shows the code that ended it, or zero behind a requested stop, and
/// keeps all of its counts.
pub proof fn an_ended_stream_keeps_its_counts(s: TimingSnapshot, failure: Option<i32>)
    requires
        s.sequence < u64::MAX,
    ensures
        ({
            let t = s.finished(failure);
            &&& !t.running
            &&& t.sequence == s.sequence + 1
            &&& failure matches Some(hr) ==> t.error_hresult == hr
            &&& failure is None ==> t.error_hresult == 0
            &&& t == (TimingSnapshot {
                sequence: t.sequence,
                running: t.running,
                error_hresult: t.error_hresult,
                ..s
            })
        }),
        E_FAIL + 0x1_0000_0000 == 0x8000_4005,
{
}

/// The engine is told of lost frames by bit one, of silence by bit two or a missing buffer, and of an
/// engine time only where bit four is clear and the time is not zero; each independent of the other
/// bits.
pub proof fn the_engine_is_told_what_the_flags_say(p: PacketTiming, has_data: bool, read_qpc_100ns: u64)
    ensures
        ({
            let r = spec_packet_info(p, has_data, read_qpc_100ns);
            &&& r.frames == p.frames
            &&& r.read_qpc_100ns == read_qpc_100ns
            &&& r.discontinuity <==> p.flags & 1 != 0
            &&& r.silent <==> p.flags & 2 != 0 || !has_data
            &&& p.flags & 4 == 0 && p.qpc_position != 0 ==> r.engine_qpc_100ns == Some(p.qpc_position)
            &&& p.flags & 4 != 0 || p.qpc_position == 0 ==> r.engine_qpc_100ns is None
        }),
{
}

/// A count of ticks, where it comes to less than 2^64 units, is turned into the whole units of 100 ns
/// that it holds: `r` units fit into it and `r + 1` do not. A rate below one counts as one.
pub proof fn ticks_become_whole_units(count: int, freq: int)
    requires
        0 <= count <= i64::MAX,
        freq >= 1,
    ensures
        spec_qpc_to_100ns(count, freq) <= u64::MAX,
        10_000_000 * count < 0x1_0000_0000_0000_0000 * freq ==> {
            let r = spec_qpc_to_100ns(count, freq);
            r * freq <= 10_000_000 * count < (r + 1) * freq
        },
        forall|slow: int| slow < 1 ==> #[trigger] spec_qpc_to_100ns(count, slow) == spec_qpc_to_100ns(count, 1),
{
    let n = 10_000_000 * count;
    let w = n / freq;
    assert(w * freq <= n < (w + 1) * freq && w >= 0) by (nonlinear_arith)
        requires
            freq >= 1,
            n >= 0,
            w == n / freq,
    ;
    if n < 0x1_0000_0000_0000_0000 * freq {
        assert(w < 0x1_0000_0000_0000_0000) by (nonlinear_arith)
            requires
                w * freq <= n,
                n < 0x1_0000_0000_0000_0000 * freq,
                freq >= 1,
        ;
        assert(spec_qpc_to_100ns(count, freq) == w);
    }
}

/// What is shown to the outside is what was counted, field by field.
pub proof fn shown_counts_are_the_counted_ones(s: TimingSnapshot)
    ensures
        ({
            let r = <CaptureStats as vstd::std_specs::convert::FromSpec<TimingSnapshot>>::from_spec(s);
            &&& r.device_position == s.timing_device_position
            &&& r.qpc_position100ns == s.timing_qpc_100ns
            &&& r.packets == s.packets
            &&& r.dropped_chunks == s.dropped_chunks
            &&& r.discontinuities == s.discontinuities
            &&& r.timestamp_errors == s.timestamp_errors
            &&& r.sequence == s.sequence
            &&& r.running == s.running
            &&& r.error_hresult == s.error_hresult
            &&& r.captured_frames == s.captured_frames
            &&& r.last_packet_frames == s.last_packet_frames
            &&& r.silent_packets == s.silent_packets
            &&& r.delivered_chunks == s.delivered_chunks
            &&& r.timing_valid == s.timing_valid
            &&& r.timing_frame == s.timing_frame
            &&& r.device_position_advances == s.device_position_advances
        }),
{
}

/// The shown state of a session is that of its status: the offset and the mark of a lock go together,
/// the words for the phases are these, and every count and estimate is taken over as it is.
pub proof fn a_shown_status_tells_the_session(r: SubtractionStatus, s: Status, endpoint_id: Seq<char>)
    requires
        r.tells(s, endpoint_id),
    ensures
        s.phase is Aligning ==> r.state@ == "aligning"@,
        s.phase is Running ==> r.state@ == "running"@,
        s.phase is Failed ==> r.state@ == "failed"@,
        r.reason@ == s.reason@,
        s.offset_frames matches Some(o) ==> r.locked && r.offset_frames == o,
        s.offset_frames is None ==> !r.locked && r.offset_frames == 0,
        r.endpoint_id@ == endpoint_id,
        r.buffered_frames == s.buffered_frames && r.generation == s.generation,
        r.coarse_offset_625ths == s.coarse_offset_625ths,
        r.candidate_offset_frames == s.candidate_offset_frames,
        r.gain_left == s.gain.left && r.gain_right == s.gain.right,
        r.delay_left == s.fractional_delay.left && r.delay_right == s.fractional_delay.right,
        r.endpoint_frames == s.endpoint_frames && r.reference_frames == s.reference_frames,
        r.subtracted_frames == s.subtracted_frames && r.passthrough_frames == s.passthrough_frames,
        r.muted_frames == s.muted_frames && r.locks == s.locks,
        r.rejected_candidates == s.rejected_candidates && r.discontinuities == s.discontinuities,
        r.timeline_gaps == s.timeline_gaps && r.dropped_chunks == s.dropped_chunks,
{
}

/// What `packet_info` hands to the engine, bit by bit: lost frames by bit one of the flags, silence by
/// bit two or a missing buffer, and the engine's time where bit four is clear and it is not zero.
pub proof fn packet_info_reads_the_flags(p: PacketTiming, has_data: bool, read: u64, r: PacketInfo)
    requires
        call_ensures(packet_info, (p, has_data, read), r),
    ensures
        r.frames == p.frames && r.read_qpc_100ns == read,
        r.discontinuity <==> p.flags & 1 != 0,
        r.silent <==> p.flags & 2 != 0 || !has_data,
        r.engine_qpc_100ns == if p.flags & 4 == 0 && p.qpc_position != 0 { Some(p.qpc_position) } else { None },
{
}

} // verus!
