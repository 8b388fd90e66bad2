//! Verified core of a WASAPI loopback capture addon.
//!
//! The centre is the [`Engine`]: it takes the packets of two captures, the mix of a render endpoint
//! and the own playback in it, and puts out the endpoint minus the own playback at a verified
//! integer offset. Its behaviour is the state machine in [`state`], its invariant stands in
//! [`validity`], and what it promises over all events in [`laws`]. What single events do is stated
//! once more in plain numbers: packets in [`timeline`], searches and locks in [`locking`], output and
//! monitor in [`running`]. Around the engine stand the decisions of the host: the capture loops, the
//! route guard, the device lists, the timing diagnostics.
//!
//! Nothing here does arithmetic on samples: they are bit patterns ([`ieee`]), and the sums and
//! statistics over them are asked of the host.

pub mod align;
pub mod capture;
pub mod config;
pub mod devices;
pub mod engine;
pub mod fft;
pub mod ieee;
pub mod laws;
pub mod leg;
pub mod locking;
pub mod output;
pub mod packet;
pub mod pair;
pub mod reasons;
pub mod ring;
pub mod route;
pub mod running;
pub mod samples;
pub mod sessions;
pub mod state;
pub mod stats;
pub mod text;
pub mod timeline;
pub mod timing;
pub mod validity;

pub use align::{run_align_job, AlignJob, AlignOutcome, AlignParams, AlignResult};
pub use config::Config;
pub use engine::{Engine, Status};
pub use packet::{Fault, Leg, PacketInfo, Phase, CHANNELS, CHUNK_FRAMES, SAMPLE_RATE};
