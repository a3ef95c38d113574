//! Staged data pipelines: the decisions of a pipeline that scales its own
//! workers, the graphs that it runs, and what it tells about itself.
//!
//! - `graph` checks a graph of stages and links and lays out how it runs.
//! - `trend` and `control` turn readings and samples into what is known of links
//!   and stages; `scaling` decides what is resized next.
//! - `crew` and `supervisor` keep who works where; `worker` and `pipe` say what a
//!   worker does next.
//! - `channel`, `link` and `lease` are the queues that items and buffers move on.
//! - `telemetry` and `csv` describe a running pipeline.
//! - `tokens`, `feed`, `syntax`, `joints` and `expansion` read the declaration of
//!   a pipeline and lay its links.
pub mod accumulation;
pub mod channel;
pub mod config;
pub mod control;
pub mod crew;
pub mod csv;
pub mod cycles;
pub mod error;
pub mod expansion;
pub mod feed;
pub mod graph;
pub mod joints;
pub mod lease;
pub mod link;
pub mod pipe;
pub mod scaling;
pub mod search;
pub mod supervisor;
pub mod syntax;
pub mod telemetry;
pub mod text;
pub mod time;
pub mod tokens;
pub mod trend;
pub mod worker;

pub use config::{CsvTelemetryConfig, PipeConfig, PiperConfig};
pub use control::{AnchorProbeOutcome, AnchorProbeReason, AnchorProbeState, StageScalingState};
pub use error::{
    panic_payload_to_string, PiperError, RecvOutputError, SendInputError, TryRecvOutputError,
};
pub use graph::{anchor, stage, GraphLink, PipelineGraph, PipelineGraphBuilder, StageSpec};
pub use lease::{BufferLease, BufferLeaseOutput, Recycle};
pub use link::{PiperReceiver, PiperSender, StageContext};
pub use telemetry::{AnchorSnapshot, LinkSnapshot, PiperSnapshot, StageSnapshot};
pub use trend::QueueTrend;
