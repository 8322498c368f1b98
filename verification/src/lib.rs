//! Reading and writing ZeroClaw SOP sources: the `SOP.md` step list, the
//! diagnostics produced while reading, the key check on `SOP.toml`, and
//! how a SOP is resolved from its two files and split back into them.

pub mod diagnostic;
pub mod grammar;
pub mod json;
pub mod manifest;
pub mod model;
pub mod parsed;
pub mod parse;
pub mod print;
pub mod roundtrip;
pub mod sop;
pub mod text;

pub use diagnostic::{Diagnostic, DiagnosticKind, Location, Severity};
pub use manifest::{collect_unknown_keys, trigger_keys, unknown_manifest_keys, RawValue};
pub use model::{
    FilesystemEventKind, PlannedToolCall, Sop, SopAdmissionPolicy, SopExecutionMode, SopManifest,
    SopMeta, SopPriority, SopStep, SopStepKind, SopTrigger, StepFailure, StepPos, StepPosition,
    StepRouting, StepSchema, StepToolScope, SwitchRule,
};
pub use parse::parse_steps;
pub use print::print_steps;
pub use sop::{merge_positions, normalize_manifest_steps, render_parts, resolve_sop};
