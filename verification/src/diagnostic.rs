//! Diagnostics emitted while reading and writing SOP sources.
//!
//! A diagnostic reports something noteworthy about a source that was
//! nevertheless read (or written) successfully. Anything that prevents
//! producing a value is an error instead, never a diagnostic.

use vstd::prelude::*;
use crate::text::{
    chars_of, decimal, decimal_usize, decimal_vec, join, push_all, slice_of, string_of, vec_join, views,
};

verus! {

/// How much a diagnostic should worry the reader. There is no error level.
#[derive(Debug, Clone, Copy, PartialEq, Eq, PartialOrd, Ord, Hash, Structural)]
pub enum Severity {
    /// Something was read, but information was lost or not understood.
    Warning,
    /// Worth surfacing, but nothing was lost.
    Note,
}

pub open spec fn severity_text(s: Severity) -> Seq<char> {
    match s {
        Severity::Warning => "warning"@,
        Severity::Note => "note"@,
    }
}

impl Severity {
    /// What `Display` writes: `warning` or `note`.
    pub fn text(&self) -> (r: Vec<char>)
        ensures
            r@ == severity_text(*self),
    {
        match self {
            Severity::Warning => chars_of("warning"),
            Severity::Note => chars_of("note"),
        }
    }

    /// The display form as a `String`.
    pub fn to_text(&self) -> (r: String)
        ensures
            r@ == severity_text(*self),
    {
        let v = self.text();
        string_of(&v)
    }
}

/// Where in a SOP source a diagnostic came from.
#[derive(Debug, Clone, PartialEq, Eq)]
pub enum Location {
    /// Somewhere in `SOP.toml`, at a dotted key path.
    Manifest { key_path: String },
    /// Somewhere in the prose of `SOP.md`, outside any step.
    Document { line: Option<usize> },
    /// Within a specific step of `SOP.md`.
    Step { number: u32, line: Option<usize> },
}

pub enum LocationV {
    Manifest { key_path: Seq<char> },
    Document { line: Option<usize> },
    Step { number: u32, line: Option<usize> },
}

impl View for Location {
    type V = LocationV;

    open spec fn view(&self) -> LocationV {
        match self {
            Location::Manifest { key_path } => LocationV::Manifest { key_path: key_path@ },
            Location::Document { line } => LocationV::Document { line: *line },
            Location::Step { number, line } => LocationV::Step { number: *number, line: *line },
        }
    }
}

pub open spec fn location_text(l: LocationV) -> Seq<char> {
    match l {
        LocationV::Manifest { key_path } => "SOP.toml: "@ + key_path,
        LocationV::Document { line } => match line {
            Some(n) => "SOP.md:"@ + decimal(n as nat),
            None => "SOP.md"@,
        },
        LocationV::Step { number, line } => match line {
            Some(n) => "SOP.md:"@ + decimal(n as nat) + ": step "@ + decimal(number as nat),
            None => "SOP.md: step "@ + decimal(number as nat),
        },
    }
}

impl Location {
    /// What `Display` writes, e.g. `SOP.md:31: step 4` or
    /// `SOP.toml: triggers[0].topic`.
    pub fn text(&self) -> (r: Vec<char>)
        ensures
            r@ == location_text(self@),
    {
        match self {
            Location::Manifest { key_path } => {
                let mut r = chars_of("SOP.toml: ");
                let k = chars_of(key_path.as_str());
                push_all(&mut r, &k);
                r
            },
            Location::Document { line } => match line {
                Some(n) => {
                    let mut r = chars_of("SOP.md:");
                    push_all(&mut r, &decimal_usize(*n));
                    r
                },
                None => chars_of("SOP.md"),
            },
            Location::Step { number, line } => match line {
                Some(n) => {
                    let mut r = chars_of("SOP.md:");
                    push_all(&mut r, &decimal_usize(*n));
                    push_all(&mut r, &chars_of(": step "));
                    push_all(&mut r, &decimal_vec(*number));
                    r
                },
                None => {
                    let mut r = chars_of("SOP.md: step ");
                    push_all(&mut r, &decimal_vec(*number));
                    r
                },
            },
        }
    }

    /// The display form as a `String`.
    pub fn to_text(&self) -> (r: String)
        ensures
            r@ == location_text(self@),
    {
        let v = self.text();
        string_of(&v)
    }
}

/// What kind of thing happened, as a machine-readable discriminant.
#[derive(Debug, Clone, PartialEq, Eq)]
pub enum DiagnosticKind {
    /// A manifest key that is not modeled. Carried through, not interpreted.
    UnknownManifestKey { key: String },
    /// A step sub-bullet whose prefix matched nothing known; its text is
    /// appended to the step body.
    UnrecognizedBullet { text: String },
    /// A recognized bullet whose value did not parse.
    MalformedBullet { key: String, reason: String },
    /// Step numbers in the source are not a gapless ascending run.
    NumberingIrregularity { written: Vec<u32> },
    /// A construct was understood but cannot survive a round trip unchanged.
    LossyConstruct { construct: String, detail: String },
}

pub enum KindV {
    UnknownManifestKey { key: Seq<char> },
    UnrecognizedBullet { text: Seq<char> },
    MalformedBullet { key: Seq<char>, reason: Seq<char> },
    NumberingIrregularity { written: Seq<u32> },
    LossyConstruct { construct: Seq<char>, detail: Seq<char> },
}

impl View for DiagnosticKind {
    type V = KindV;

    open spec fn view(&self) -> KindV {
        match self {
            DiagnosticKind::UnknownManifestKey { key } => KindV::UnknownManifestKey { key: key@ },
            DiagnosticKind::UnrecognizedBullet { text } => KindV::UnrecognizedBullet {
                text: text@,
            },
            DiagnosticKind::MalformedBullet { key, reason } => KindV::MalformedBullet {
                key: key@,
                reason: reason@,
            },
            DiagnosticKind::NumberingIrregularity { written } => KindV::NumberingIrregularity {
                written: written@,
            },
            DiagnosticKind::LossyConstruct { construct, detail } => KindV::LossyConstruct {
                construct: construct@,
                detail: detail@,
            },
        }
    }
}

pub open spec fn code_text(k: KindV) -> Seq<char> {
    match k {
        KindV::UnknownManifestKey { .. } => "unknown_manifest_key"@,
        KindV::UnrecognizedBullet { .. } => "unrecognized_bullet"@,
        KindV::MalformedBullet { .. } => "malformed_bullet"@,
        KindV::NumberingIrregularity { .. } => "numbering_irregularity"@,
        KindV::LossyConstruct { .. } => "lossy_construct"@,
    }
}

pub open spec fn kind_severity(k: KindV) -> Severity {
    match k {
        KindV::NumberingIrregularity { .. } => Severity::Note,
        _ => Severity::Warning,
    }
}

/// At most `max` characters, then an ellipsis when something was cut.
pub open spec fn truncated(s: Seq<char>, max: nat) -> Seq<char> {
    if s.len() > max {
        s.take(max as int).push('\u{2026}')
    } else {
        s
    }
}

/// The decimal renderings of numbers, joined by `, `.
pub open spec fn number_list(ns: Seq<u32>) -> Seq<char> {
    join(ns.map_values(|n: u32| decimal(n as nat)), ", "@)
}

pub open spec fn message_text(k: KindV) -> Seq<char> {
    match k {
        KindV::UnknownManifestKey { key } => "unknown manifest key `"@ + key
            + "`; carried through but not interpreted"@,
        KindV::UnrecognizedBullet { text } => "unrecognized bullet `"@ + truncated(text, 60)
            + "`; appended to the step body"@,
        KindV::MalformedBullet { key, reason } => "could not parse `"@ + key + "` bullet: "@
            + reason,
        KindV::NumberingIrregularity { written } => "step numbers are not a gapless ascending run ("@
            + number_list(written) + "); steps are renumbered by position"@,
        KindV::LossyConstruct { construct, detail } => "`"@ + construct
            + "` will not survive a round trip unchanged: "@ + detail,
    }
}

impl DiagnosticKind {
    /// A short, stable identifier for this kind, for grouping and filtering.
    pub fn code(&self) -> (r: &'static str)
        ensures
            r@ == code_text(self@),
    {
        match self {
            DiagnosticKind::UnknownManifestKey { .. } => "unknown_manifest_key",
            DiagnosticKind::UnrecognizedBullet { .. } => "unrecognized_bullet",
            DiagnosticKind::MalformedBullet { .. } => "malformed_bullet",
            DiagnosticKind::NumberingIrregularity { .. } => "numbering_irregularity",
            DiagnosticKind::LossyConstruct { .. } => "lossy_construct",
        }
    }

    /// The severity this kind carries by default: a note for irregular
    /// numbering, a warning for everything else.
    pub fn default_severity(&self) -> (r: Severity)
        ensures
            r == kind_severity(self@),
    {
        match self {
            DiagnosticKind::NumberingIrregularity { .. } => Severity::Note,
            _ => Severity::Warning,
        }
    }

    /// Copy with the same view.
    pub fn duplicate(&self) -> (r: DiagnosticKind)
        ensures
            r@ == self@,
    {
        match self {
            DiagnosticKind::UnknownManifestKey { key } => DiagnosticKind::UnknownManifestKey {
                key: key.clone(),
            },
            DiagnosticKind::UnrecognizedBullet { text } => DiagnosticKind::UnrecognizedBullet {
                text: text.clone(),
            },
            DiagnosticKind::MalformedBullet { key, reason } => DiagnosticKind::MalformedBullet {
                key: key.clone(),
                reason: reason.clone(),
            },
            DiagnosticKind::NumberingIrregularity { written } => {
                let mut w: Vec<u32> = Vec::new();
                let mut k: usize = 0;
                while k < written.len()
                    invariant
                        k <= written@.len(),
                        w@ == written@.take(k as int),
                    decreases written@.len() - k,
                {
                    w.push(written[k]);
                    assert(w@ =~= written@.take(k + 1));
                    k = k + 1;
                }
                assert(w@ =~= written@);
                DiagnosticKind::NumberingIrregularity { written: w }
            },
            DiagnosticKind::LossyConstruct { construct, detail } => DiagnosticKind::LossyConstruct {
                construct: construct.clone(),
                detail: detail.clone(),
            },
        }
    }
}

/// Something worth telling the caller about a SOP source that was
/// nevertheless read successfully.
#[derive(Debug, Clone, PartialEq, Eq)]
pub struct Diagnostic {
    /// How much this should worry the reader.
    pub severity: Severity,
    /// What happened, machine-readable.
    pub kind: DiagnosticKind,
    /// Where it happened.
    pub location: Location,
    /// A human-readable sentence derived from `kind`.
    pub message: String,
}

pub struct DiagV {
    pub severity: Severity,
    pub kind: KindV,
    pub location: LocationV,
    pub message: Seq<char>,
}

impl View for Diagnostic {
    type V = DiagV;

    open spec fn view(&self) -> DiagV {
        DiagV {
            severity: self.severity,
            kind: self.kind@,
            location: self.location@,
            message: self.message@,
        }
    }
}

impl DeepView for Diagnostic {
    type V = DiagV;

    open spec fn deep_view(&self) -> DiagV {
        self@
    }
}

/// The diagnostic `Diagnostic::new` builds from a kind and a location.
pub open spec fn diag(kind: KindV, location: LocationV) -> DiagV {
    DiagV {
        severity: kind_severity(kind),
        kind,
        location,
        message: message_text(kind),
    }
}

pub open spec fn diagnostic_text(d: DiagV) -> Seq<char> {
    severity_text(d.severity) + "["@ + code_text(d.kind) + "]: "@ + d.message + " ("@
        + location_text(d.location) + ")"@
}

fn truncate_vec(s: &Vec<char>, max: usize) -> (r: Vec<char>)
    ensures
        r@ == truncated(s@, max as nat),
{
    if s.len() > max {
        let mut r = slice_of(s, 0, max);
        r.push('\u{2026}');
        r
    } else {
        slice_of(s, 0, s.len())
    }
}

/// At most `max` characters of `s`, then an ellipsis when something was
/// cut. Counts characters, never splitting one.
pub fn truncate(s: &str, max: usize) -> (r: String)
    ensures
        r@ == truncated(s@, max as nat),
{
    string_of(&truncate_vec(&chars_of(s), max))
}

fn number_list_vec(ns: &Vec<u32>) -> (r: Vec<char>)
    ensures
        r@ == number_list(ns@),
{
    let mut parts: Vec<Vec<char>> = Vec::new();
    let mut k: usize = 0;
    while k < ns.len()
        invariant
            k <= ns@.len(),
            parts@.len() == k,
            forall|m: int| 0 <= m < k ==> (#[trigger] parts@[m])@ == decimal(ns@[m] as nat),
        decreases ns@.len() - k,
    {
        parts.push(decimal_vec(ns[k]));
        k = k + 1;
    }
    assert(views(parts@) =~= ns@.map_values(|n: u32| decimal(n as nat)));
    vec_join(&parts, &chars_of(", "))
}

fn message_vec(kind: &DiagnosticKind) -> (r: Vec<char>)
    ensures
        r@ == message_text(kind@),
{
    match kind {
        DiagnosticKind::UnknownManifestKey { key } => {
            let mut r = chars_of("unknown manifest key `");
            push_all(&mut r, &chars_of(key.as_str()));
            push_all(&mut r, &chars_of("`; carried through but not interpreted"));
            r
        },
        DiagnosticKind::UnrecognizedBullet { text } => {
            let mut r = chars_of("unrecognized bullet `");
            push_all(&mut r, &truncate_vec(&chars_of(text.as_str()), 60));
            push_all(&mut r, &chars_of("`; appended to the step body"));
            r
        },
        DiagnosticKind::MalformedBullet { key, reason } => {
            let mut r = chars_of("could not parse `");
            push_all(&mut r, &chars_of(key.as_str()));
            push_all(&mut r, &chars_of("` bullet: "));
            push_all(&mut r, &chars_of(reason.as_str()));
            r
        },
        DiagnosticKind::NumberingIrregularity { written } => {
            let mut r = chars_of("step numbers are not a gapless ascending run (");
            push_all(&mut r, &number_list_vec(written));
            push_all(&mut r, &chars_of("); steps are renumbered by position"));
            r
        },
        DiagnosticKind::LossyConstruct { construct, detail } => {
            let mut r = chars_of("`");
            push_all(&mut r, &chars_of(construct.as_str()));
            push_all(&mut r, &chars_of("` will not survive a round trip unchanged: "));
            push_all(&mut r, &chars_of(detail.as_str()));
            r
        },
    }
}

impl Diagnostic {
    /// Build a diagnostic, taking severity and message from the kind.
    pub fn new(kind: DiagnosticKind, location: Location) -> (r: Self)
        ensures
            r@ == diag(kind@, location@),
    {
        let severity = kind.default_severity();
        let message = string_of(&message_vec(&kind));
        Diagnostic { severity, kind, location, message }
    }

    /// What `Display` writes: `severity[code]: message (location)`.
    pub fn text(&self) -> (r: Vec<char>)
        ensures
            r@ == diagnostic_text(self@),
    {
        let mut r = self.severity.text();
        push_all(&mut r, &chars_of("["));
        push_all(&mut r, &chars_of(self.kind.code()));
        push_all(&mut r, &chars_of("]: "));
        push_all(&mut r, &chars_of(self.message.as_str()));
        push_all(&mut r, &chars_of(" ("));
        push_all(&mut r, &self.location.text());
        push_all(&mut r, &chars_of(")"));
        r
    }

    /// The display form as a `String`.
    pub fn to_text(&self) -> (r: String)
        ensures
            r@ == diagnostic_text(self@),
    {
        let v = self.text();
        string_of(&v)
    }
}

} // verus!
