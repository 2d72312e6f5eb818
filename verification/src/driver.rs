use vstd::prelude::*;

use crate::text::push_str;

verus! {

/// Guest-side mount point under which the corpus root appears inside the
/// driver sandbox. Drivers receive it as the corpus root.
pub const GUEST_CORPUS_ROOT: &'static str = "/corpus";

/// Self-description a driver returns from `init`.
#[derive(Debug, Clone)]
pub struct DriverMetadata {
    pub name: String,
    pub description: String,
    /// Glob patterns this driver knows how to ingest (e.g. "*.md").
    pub accepts: Vec<String>,
}

/// Configuration handed to a driver's `init`.
#[derive(Debug, Clone)]
pub struct CorpusConfig {
    /// Path the driver reads from (granted read-only).
    pub root: String,
    /// Free-form key/value options.
    pub options: Vec<(String, String)>,
}

/// A normalized chunk a driver emits.
#[derive(Debug, Clone)]
pub struct Chunk {
    /// Stable identifier for this chunk.
    pub id: String,
    /// Normalized text passed to the librarian's forward pass.
    pub text: String,
    /// Back-reference for source resolution.
    pub source_ref: String,
    /// Provenance metadata kept alongside the chunk.
    pub metadata: Vec<(String, String)>,
}

/// The structured error a driver reports from one of its exports.
#[derive(Debug, Clone)]
pub struct IngestErrorRecord {
    pub kind: String,
    pub message: String,
    /// Optional path or id pointing at the source of the error.
    pub context: Option<String>,
}

/// Errors from driver loading and invocation.
#[derive(Debug)]
pub enum DriverError {
    /// The sandbox runtime failed.
    Runtime(String),
    /// The corpus path does not exist.
    CorpusNotFound(String),
    /// The runtime failed invoking an export (trap, link error, ...).
    Trap { export: &'static str, message: String },
    /// The driver returned a structured error from an export.
    Driver { export: &'static str, kind: String, message: String, context: Option<String> },
}

impl DriverError {
    /// Wrap a driver-reported error, keeping its fields.
    pub fn from_ingest_error(export: &'static str, e: IngestErrorRecord) -> (r: Self)
        ensures
            r matches DriverError::Driver { export: x, kind, message, context } && x == export
                && kind == e.kind && message == e.message && context == e.context,
    {
        DriverError::Driver { export, kind: e.kind, message: e.message, context: e.context }
    }

    pub open spec fn message_spec(self) -> Seq<char> {
        match self {
            DriverError::Runtime(m) => "agentos-wasm runtime error: "@ + m@,
            DriverError::CorpusNotFound(p) => "corpus path does not exist: "@ + p@,
            DriverError::Trap { export, message } => "wasm call failed ("@ + export@ + "): "@ + message@,
            DriverError::Driver { kind, message, context, .. } => "driver reported "@ + kind@ + ": "@
                + message@ + match context {
                Some(c) => " (context: "@ + c@ + ")"@,
                None => Seq::empty(),
            },
        }
    }

    /// The one-line description of the error.
    pub fn message(&self) -> (s: String)
        ensures
            s@ == self.message_spec(),
    {
        match self {
            DriverError::Runtime(m) => {
                let mut s = "agentos-wasm runtime error: ".to_owned();
                push_str(&mut s, m.as_str());
                s
            },
            DriverError::CorpusNotFound(p) => {
                let mut s = "corpus path does not exist: ".to_owned();
                push_str(&mut s, p.as_str());
                s
            },
            DriverError::Trap { export, message } => {
                let mut s = "wasm call failed (".to_owned();
                push_str(&mut s, export);
                push_str(&mut s, "): ");
                push_str(&mut s, message.as_str());
                s
            },
            DriverError::Driver { kind, message, context, .. } => {
                let mut s = "driver reported ".to_owned();
                push_str(&mut s, kind.as_str());
                push_str(&mut s, ": ");
                push_str(&mut s, message.as_str());
                match context {
                    Some(c) => {
                        push_str(&mut s, " (context: ");
                        push_str(&mut s, c.as_str());
                        push_str(&mut s, ")");
                    },
                    None => {},
                }
                s
            },
        }
    }
}

/// One filesystem grant of the driver sandbox.
#[derive(Debug, Clone)]
pub struct FsGrant {
    pub host_path: String,
    pub guest_path: String,
    pub read_only: bool,
}

/// What a driver sandbox may touch.
#[derive(Debug, Clone)]
pub struct WasmCapabilities {
    pub filesystem: Vec<FsGrant>,
    pub env_vars: Vec<(String, String)>,
    pub stdio: bool,
}

/// The ingestion capability set: one read-only filesystem grant of the
/// corpus root, mounted at `GUEST_CORPUS_ROOT`. Nothing else is granted.
pub fn ingest_capabilities(corpus_root: &str) -> (caps: WasmCapabilities)
    ensures
        caps.filesystem@.len() == 1,
        caps.filesystem@[0].host_path@ == corpus_root@,
        caps.filesystem@[0].guest_path@ == GUEST_CORPUS_ROOT@,
        caps.filesystem@[0].read_only,
        caps.env_vars@.len() == 0,
        !caps.stdio,
{
    let mut filesystem: Vec<FsGrant> = Vec::new();
    filesystem.push(FsGrant {
        host_path: corpus_root.to_owned(),
        guest_path: GUEST_CORPUS_ROOT.to_owned(),
        read_only: true,
    });
    WasmCapabilities { filesystem, env_vars: Vec::new(), stdio: false }
}

} // verus!
