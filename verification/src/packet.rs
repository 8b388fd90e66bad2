//! What passes between the capture host and the engine: packets in, faults and frames out.

use crate::ieee::Frame;
use vstd::prelude::*;

verus! {

pub const SAMPLE_RATE: u32 = 48_000;

pub const CHANNELS: usize = 2;

pub const CHUNK_FRAMES: usize = 480;

/// The two captures: the endpoint loopback, and the process loopback of the own tree.
#[derive(Clone, Copy, Debug, PartialEq, Eq, Structural)]
pub enum Leg {
    Endpoint,
    Reference,
}

impl Leg {
    pub open spec fn spec_name(self) -> Seq<char> {
        match self {
            Leg::Endpoint => "endpoint"@,
            Leg::Reference => "reference"@,
        }
    }

    pub fn name(self) -> (r: &'static str)
        ensures
            r@ == self.spec_name(),
    {
        match self {
            Leg::Endpoint => "endpoint",
            Leg::Reference => "reference",
        }
    }
}

/// Everything that the audio engine says about one packet when it is read.
#[derive(Clone, Copy, Debug, PartialEq, Eq, Structural)]
pub struct PacketInfo {
    pub frames: u32,
    /// Valid zero samples.
    pub silent: bool,
    /// Frames were lost before this packet.
    pub discontinuity: bool,
    /// Engine time of the packet's first frame (100 ns), where it is valid.
    pub engine_qpc_100ns: Option<u64>,
    /// Host time when the packet was read (100 ns, same base).
    pub read_qpc_100ns: u64,
}

impl Default for PacketInfo {
    fn default() -> (r: PacketInfo)
        ensures
            r == (PacketInfo {
                frames: 0,
                silent: false,
                discontinuity: false,
                engine_qpc_100ns: None,
                read_qpc_100ns: 0,
            }),
    {
        PacketInfo {
            frames: 0,
            silent: false,
            discontinuity: false,
            engine_qpc_100ns: None,
            read_qpc_100ns: 0,
        }
    }
}

/// Why a session ended.
#[derive(Clone, Debug, PartialEq, Eq)]
pub struct Fault(pub String);

#[derive(Clone, Copy, Debug, PartialEq, Eq, Structural)]
pub enum Phase {
    Aligning,
    Running,
    Failed,
}

impl Phase {
    pub open spec fn spec_str(self) -> Seq<char> {
        match self {
            Phase::Aligning => "aligning"@,
            Phase::Running => "running"@,
            Phase::Failed => "failed"@,
        }
    }

    pub fn as_str(self) -> (r: &'static str)
        ensures
            r@ == self.spec_str(),
    {
        match self {
            Phase::Aligning => "aligning",
            Phase::Running => "running",
            Phase::Failed => "failed",
        }
    }
}

/// Which clock stamped a packet.
#[derive(Clone, Copy, Debug, PartialEq, Eq, Structural)]
pub enum TimeKind {
    Engine,
    Read,
}

/// A packet's place on its leg: the index of its first frame, and the time of that frame.
#[derive(Clone, Copy, Debug, PartialEq, Eq, Structural)]
pub struct Stamp {
    pub index: u64,
    pub t: u64,
    pub kind: TimeKind,
}

/// The clocks of the first packets of a generation, endpoint and reference.
#[derive(Clone, Copy, Debug, PartialEq, Eq, Structural)]
pub struct Kinds {
    pub endpoint: TimeKind,
    pub reference: TimeKind,
}

/// One frame of the output.
#[derive(Clone, Copy, Debug, PartialEq, Eq, Structural)]
pub enum OutFrame {
    /// Two zeros.
    Muted,
    /// The endpoint frame as it was captured.
    Passed { endpoint: Frame },
    /// Endpoint minus reference, channel by channel.
    Difference { endpoint: Frame, reference: Frame },
}

/// The legs and the phases are told apart by these words, in messages and to the outside; a chunk is
/// ten milliseconds of audio.
pub proof fn legs_and_phases_have_their_words(leg: Leg, phase: Phase)
    ensures
        leg.spec_name() == match leg {
            Leg::Endpoint => "endpoint"@,
            Leg::Reference => "reference"@,
        },
        phase.spec_str() == match phase {
            Phase::Aligning => "aligning"@,
            Phase::Running => "running"@,
            Phase::Failed => "failed"@,
        },
        SAMPLE_RATE == 48_000 && CHANNELS == 2 && 100 * CHUNK_FRAMES == SAMPLE_RATE,
{
}

} // verus!
