//! Command-line arguments, as the rest of the library takes them.

use vstd::prelude::*;

verus! {

/// The command line: a JSON config file with flat keys mirroring the long flag
/// names, and a command. Keys given on the command line or in the environment
/// take precedence over the file.
pub struct Cli {
    pub config: Option<String>,
    pub command: Commands,
}

/// Options shared by `replay` and `synthetic-today`. Optional-valued fields
/// distinguish "not provided" (fall through env/config/default) from explicit
/// CLI values.
pub struct RunArgs {
    /// Directory to discover log files in
    pub log_dir: Option<String>,
    /// Number of events to generate
    pub lines: Option<u64>,
    /// Deterministic PRNG seed (default: derived from time)
    pub seed: Option<u64>,
    /// Restrict sampling to a single file (skips random selection)
    pub file: Option<String>,
    /// Transport: otel | hec | stdout
    pub transport: Option<String>,
    /// Transport endpoint URL (OTLP logs or HEC base URL)
    pub endpoint: Option<String>,
    /// Events per batch
    pub batch_size: Option<usize>,
    /// Concurrent send workers
    pub workers: Option<usize>,
    /// Global events/sec limit, as the IEEE 754 bits of a double; 0 = unlimited
    pub rate: Option<u64>,
    /// Per-request timeout in seconds
    pub timeout: Option<u64>,
    /// Max retries per batch for transient failures
    pub retries: Option<u32>,
    /// Disable TLS certificate verification (development only)
    pub insecure: bool,
    /// Abort the run on the first batch failure
    pub fail_fast: bool,
    /// Suppress progress output
    pub quiet: bool,
    /// Detailed per-batch logging
    pub verbose: bool,
    /// Machine-readable (JSON) summary output
    pub json: bool,
    /// Start position in the replayed file: random | start
    pub start_offset: Option<String>,
    /// Stop at EOF instead of wrapping around
    pub no_loop: bool,
    /// Window for synthetic timestamps: now | Ns | Nm | Nh | Nd | today
    pub recent_window: Option<String>,
    /// Distribution of timestamps inside the window (only `uniform` is implemented)
    pub ts_distribution: Option<String>,
    /// HEC token (prefer the LOGPUSHI_HEC_TOKEN environment variable)
    pub hec_token: Option<String>,
    /// HEC index
    pub index: Option<String>,
    /// HEC source override
    pub source: Option<String>,
    /// HEC sourcetype override
    pub sourcetype: Option<String>,
    /// Override the host field on all events
    pub host: Option<String>,
    /// OTLP wire protocol: http (default) | grpc
    pub otel_protocol: Option<String>,
    /// Resource service.name
    pub service_name: Option<String>,
}

pub struct DiscoverArgs {
    /// Directory to discover log files in
    pub log_dir: Option<String>,
    /// Also count lines per file (full-corpus scan; slow)
    pub lines: bool,
    /// Machine-readable output
    pub json: bool,
}

pub struct ValidateArgs {
    /// Directory to validate
    pub log_dir: Option<String>,
    /// Restrict validation to a single file
    pub file: Option<String>,
    /// Lines sampled per file for detection coverage
    pub sample: Option<u64>,
    /// Machine-readable output
    pub json: bool,
}

pub enum Commands {
    /// Replay events from a randomly chosen log file, bodies untouched
    Replay(RunArgs),
    /// Rewrite detected timestamps into a recent window, bodies otherwise preserved
    SyntheticToday(RunArgs),
    /// Print the discovered corpus inventory
    Discover(DiscoverArgs),
    /// Check corpus health: readability, timestamp-detection coverage
    Validate(ValidateArgs),
}

} // verus!
