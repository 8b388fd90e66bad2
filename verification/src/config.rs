//! The limits of the engine.

use crate::ieee::Double;
use crate::packet::{Kinds, TimeKind};
use crate::stats::Limits;
use vstd::prelude::*;

verus! {

/// Frame indices stay below this, so that signed 64-bit arithmetic on them is exact: more than
/// seven hundred thousand years of audio.
pub const MAX_FRAMES: u64 = 0x1000_0000_0000_0000;

/// All engine limits. Every buffer is bounded by one of these.
#[derive(Clone, Copy, Debug, PartialEq, Eq, Structural)]
pub struct Config {
    /// Per-leg history ring (frames).
    pub history_frames: usize,
    /// Endpoint frames allowed to wait for the reference before the session faults.
    pub max_pending_frames: usize,
    /// Correlation search half-width around the timing estimate (frames).
    pub search_radius: usize,
    /// Correlation block length (frames).
    pub calib_frames: usize,
    /// Verification and monitor sub-block length (frames).
    pub sub_block_frames: usize,
    /// Sub-blocks per channel before a gain or delay verdict is allowed.
    pub min_sub_blocks: usize,
    /// A candidate still inconclusive after this many valid held-out sub-blocks is dropped.
    pub max_verify_sub_blocks: usize,
    /// Allowed distance of the gain from one.
    pub gain_tolerance: Double,
    /// Allowed fractional delay (samples).
    pub delay_tolerance: Double,
    /// Interval half-width multiplier for accepting a candidate.
    pub verify_z: Double,
    /// Interval half-width multiplier for declaring loss of lock.
    pub monitor_z: Double,
    /// Valid sub-blocks per (non-overlapping) monitor window.
    pub monitor_window: usize,
    /// Consecutive rejecting monitor windows before the lock is declared lost.
    pub monitor_consecutive: u32,
    /// A reference channel below this RMS in a sub-block contributes no evidence.
    pub min_ref_rms: Double,
    pub ambiguity_ratio: Double,
    pub min_peak_correlation: Double,
    pub lobe_guard: usize,
    pub edge_guard: usize,
    /// Packet-start disagreement that counts as a gap, engine time (100 ns).
    pub gap_tolerance_engine_100ns: u64,
    /// The same where only the host's read time is available.
    pub gap_tolerance_read_100ns: u64,
    /// Extra frames added to the silent-reference passthrough window.
    pub passthrough_margin_frames: usize,
    /// Own-audio frames spent aligning without a lock before the evidence is judged.
    pub align_timeout_frames: u64,
    /// Endpoint frames in a generation with no reference packet at all before faulting.
    pub reference_absent_frames: u64,
    /// Output chunks held for the host; the oldest is dropped past this.
    pub max_output_chunks: usize,
}

impl Default for Config {
    fn default() -> (r: Config)
        ensures
            r == Config::spec_default(),
            r.sound(),
            r.history_frames == 131_072 && r.max_pending_frames == 24_000 && r.search_radius == 12_000,
            r.calib_frames == 24_000 && r.sub_block_frames == 2_400,
            r.min_sub_blocks == 8 && r.max_verify_sub_blocks == 200,
            r.monitor_window == 20 && r.monitor_consecutive == 2,
            r.lobe_guard == 32 && r.edge_guard == 64,
            r.gap_tolerance_engine_100ns == 50_000 && r.gap_tolerance_read_100ns == 400_000,
            r.passthrough_margin_frames == 480,
            r.align_timeout_frames == 20 * 48_000 && r.reference_absent_frames == 2 * 48_000,
            r.max_output_chunks == 64,
            r.gain_tolerance.bits == 0x3f9e_b851_eb85_1eb8 && r.delay_tolerance.bits == 0x3fa9_9999_9999_999a,
            r.verify_z.bits == 0x4000_0000_0000_0000 && r.monitor_z.bits == 0x4010_0000_0000_0000,
            r.min_ref_rms.bits == 0x3f50_624d_d2f1_a9fc,
            r.ambiguity_ratio.bits == 0x3fec_cccc_cccc_cccd,
            r.min_peak_correlation.bits == 0x3fa9_9999_9999_999a,
    {
        Config {
            history_frames: 131_072,
            max_pending_frames: 24_000,
            search_radius: 12_000,
            calib_frames: 24_000,
            sub_block_frames: 2_400,
            min_sub_blocks: 8,
            max_verify_sub_blocks: 200,
            // 0.03
            gain_tolerance: Double { bits: 0x3f9e_b851_eb85_1eb8 },
            // 0.05
            delay_tolerance: Double { bits: 0x3fa9_9999_9999_999a },
            // 2.0
            verify_z: Double { bits: 0x4000_0000_0000_0000 },
            // 4.0
            monitor_z: Double { bits: 0x4010_0000_0000_0000 },
            monitor_window: 20,
            monitor_consecutive: 2,
            // 0.001
            min_ref_rms: Double { bits: 0x3f50_624d_d2f1_a9fc },
            // 0.9
            ambiguity_ratio: Double { bits: 0x3fec_cccc_cccc_cccd },
            // 0.05
            min_peak_correlation: Double { bits: 0x3fa9_9999_9999_999a },
            lobe_guard: 32,
            edge_guard: 64,
            gap_tolerance_engine_100ns: 50_000,
            gap_tolerance_read_100ns: 400_000,
            passthrough_margin_frames: 480,
            align_timeout_frames: 960_000,
            reference_absent_frames: 96_000,
            max_output_chunks: 64,
        }
    }
}

/// A tolerance in whole frames, rounded up: three frames last 625 units of 100 ns.
pub open spec fn spec_tolerance_frames(tolerance: u64) -> int {
    (3 * tolerance + 624) / 625
}

impl Config {
    /// The limits a session starts with.
    pub open spec fn spec_default() -> Config {
        Config {
            history_frames: 131_072,
            max_pending_frames: 24_000,
            search_radius: 12_000,
            calib_frames: 24_000,
            sub_block_frames: 2_400,
            min_sub_blocks: 8,
            max_verify_sub_blocks: 200,
            gain_tolerance: Double { bits: 0x3f9e_b851_eb85_1eb8 },
            delay_tolerance: Double { bits: 0x3fa9_9999_9999_999a },
            verify_z: Double { bits: 0x4000_0000_0000_0000 },
            monitor_z: Double { bits: 0x4010_0000_0000_0000 },
            monitor_window: 20,
            monitor_consecutive: 2,
            min_ref_rms: Double { bits: 0x3f50_624d_d2f1_a9fc },
            ambiguity_ratio: Double { bits: 0x3fec_cccc_cccc_cccd },
            min_peak_correlation: Double { bits: 0x3fa9_9999_9999_999a },
            lobe_guard: 32,
            edge_guard: 64,
            gap_tolerance_engine_100ns: 50_000,
            gap_tolerance_read_100ns: 400_000,
            passthrough_margin_frames: 480,
            align_timeout_frames: 960_000,
            reference_absent_frames: 96_000,
            max_output_chunks: 64,
        }
    }

    /// What a session demands of its limits: the history holds what may wait and one whole search,
    /// it can be allocated, and the passthrough window is a 64-bit number of frames.
    pub open spec fn sound(self) -> bool {
        &&& self.max_pending_frames < self.history_frames
        &&& self.calib_frames + 2 * self.search_radius < self.history_frames
        &&& 8 * self.history_frames <= isize::MAX
        &&& 4 * spec_tolerance_frames(self.gap_tolerance_engine_100ns) + self.passthrough_margin_frames
            <= i64::MAX
        &&& 4 * spec_tolerance_frames(self.gap_tolerance_read_100ns) + self.passthrough_margin_frames
            <= i64::MAX
    }

    /// Whether a session can start with these limits.
    pub fn is_sound(&self) -> (r: bool)
        ensures
            r == self.sound(),
    {
        let engine: u128 = (3 * (self.gap_tolerance_engine_100ns as u128) + 624) / 625;
        let read: u128 = (3 * (self.gap_tolerance_read_100ns as u128) + 624) / 625;
        let margin: u128 = self.passthrough_margin_frames as u128;
        let fits: u128 = i64::MAX as u128;
        self.max_pending_frames < self.history_frames
            && (self.calib_frames as u128) + 2 * (self.search_radius as u128) < self.history_frames as u128
            && 8 * (self.history_frames as u128) <= isize::MAX as u128
            && 4 * engine + margin <= fits
            && 4 * read + margin <= fits
    }

    pub open spec fn spec_tolerance(self, kind: TimeKind) -> u64 {
        match kind {
            TimeKind::Engine => self.gap_tolerance_engine_100ns,
            TimeKind::Read => self.gap_tolerance_read_100ns,
        }
    }

    /// The packet-start disagreement that the clock of a packet allows.
    pub fn tolerance(&self, kind: TimeKind) -> (r: u64)
        ensures
            r == self.spec_tolerance(kind),
    {
        match kind {
            TimeKind::Engine => self.gap_tolerance_engine_100ns,
            TimeKind::Read => self.gap_tolerance_read_100ns,
        }
    }

    fn tolerance_frames(&self, kind: TimeKind) -> (r: i128)
        ensures
            r == spec_tolerance_frames(self.spec_tolerance(kind)),
            0 <= r <= 0x200_0000_0000_0000,
    {
        (3 * (self.tolerance(kind) as i128) + 624) / 625
    }

    /// Half the width of the stretch of reference frames that must be silent around a mapped frame.
    pub open spec fn spec_passthrough_window(self, kinds: Kinds) -> int {
        2 * (spec_tolerance_frames(self.spec_tolerance(kinds.endpoint)) + spec_tolerance_frames(
            self.spec_tolerance(kinds.reference),
        )) + self.passthrough_margin_frames
    }

    pub fn passthrough_window(&self, kinds: Kinds) -> (r: i128)
        requires
            self.sound(),
        ensures
            r == self.spec_passthrough_window(kinds),
            0 <= r <= i64::MAX,
    {
        2 * (self.tolerance_frames(kinds.endpoint) + self.tolerance_frames(kinds.reference))
            + self.passthrough_margin_frames as i128
    }

    pub open spec fn spec_limits(self) -> Limits {
        Limits {
            gain_tolerance: self.gain_tolerance,
            delay_tolerance: self.delay_tolerance,
            min_sub_blocks: self.min_sub_blocks,
        }
    }

    /// The tolerances of a stereo verdict.
    pub fn limits(&self) -> (r: Limits)
        ensures
            r == self.spec_limits(),
    {
        Limits {
            gain_tolerance: self.gain_tolerance,
            delay_tolerance: self.delay_tolerance,
            min_sub_blocks: self.min_sub_blocks,
        }
    }
}

/// A tolerance becomes the least number of whole frames that last as long: a frame lasts 625 thirds
/// of 100 ns.
pub proof fn a_tolerance_is_rounded_up_to_frames(tolerance: u64)
    ensures
        625 * spec_tolerance_frames(tolerance) >= 3 * tolerance,
        625 * (spec_tolerance_frames(tolerance) - 1) < 3 * tolerance,
{
}

/// Each clock has its own tolerance, for packets of either leg; and the passthrough window is twice
/// the frames of both tolerances together, and the margin. `e` and `r` are the tolerances of the two
/// clocks in whole frames.
pub proof fn windows_follow_from_the_clocks(cfg: Config, kinds: Kinds, e: int, r: int)
    requires
        625 * e >= 3 * cfg.gap_tolerance_engine_100ns > 625 * (e - 1),
        625 * r >= 3 * cfg.gap_tolerance_read_100ns > 625 * (r - 1),
    ensures
        cfg.spec_tolerance(TimeKind::Engine) == cfg.gap_tolerance_engine_100ns,
        cfg.spec_tolerance(TimeKind::Read) == cfg.gap_tolerance_read_100ns,
        kinds.endpoint is Engine && kinds.reference is Engine ==> cfg.spec_passthrough_window(kinds) == 4 * e
            + cfg.passthrough_margin_frames,
        kinds.endpoint is Engine && kinds.reference is Read ==> cfg.spec_passthrough_window(kinds) == 2 * e + 2
            * r + cfg.passthrough_margin_frames,
        kinds.endpoint is Read && kinds.reference is Engine ==> cfg.spec_passthrough_window(kinds) == 2 * e + 2
            * r + cfg.passthrough_margin_frames,
        kinds.endpoint is Read && kinds.reference is Read ==> cfg.spec_passthrough_window(kinds) == 4 * r
            + cfg.passthrough_margin_frames,
{
}

/// A verdict goes by the limits of the session.
pub proof fn verdicts_go_by_the_limits(cfg: Config)
    ensures
        cfg.spec_limits().gain_tolerance == cfg.gain_tolerance,
        cfg.spec_limits().delay_tolerance == cfg.delay_tolerance,
        cfg.spec_limits().min_sub_blocks == cfg.min_sub_blocks,
{
}

/// Limits are sound exactly where the history is longer than what may wait and than one block with
/// the search on both sides, can be allocated, and the window of either clock is a 64-bit number.
pub proof fn sound_limits_leave_room_for_a_search(cfg: Config, e: int, r: int)
    requires
        625 * e >= 3 * cfg.gap_tolerance_engine_100ns > 625 * (e - 1),
        625 * r >= 3 * cfg.gap_tolerance_read_100ns > 625 * (r - 1),
    ensures
        cfg.sound() <==> {
            &&& cfg.history_frames > cfg.max_pending_frames
            &&& cfg.history_frames > cfg.calib_frames + cfg.search_radius + cfg.search_radius
            &&& 8 * cfg.history_frames <= isize::MAX
            &&& 4 * e + cfg.passthrough_margin_frames <= i64::MAX
            &&& 4 * r + cfg.passthrough_margin_frames <= i64::MAX
        },
{
}

} // verus!
