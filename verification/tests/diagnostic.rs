use egeria_adapter_zeroclaw::diagnostic::truncate;
use egeria_adapter_zeroclaw::{Diagnostic, DiagnosticKind, Location, Severity};

#[test]
fn severity_is_derived_from_kind() {
    let d = Diagnostic::new(
        DiagnosticKind::UnknownManifestKey { key: "meta.wobble".into() },
        Location::Manifest { key_path: "meta.wobble".into() },
    );
    assert_eq!(d.severity, Severity::Warning);

    let d = Diagnostic::new(
        DiagnosticKind::NumberingIrregularity { written: vec![1, 3] },
        Location::Document { line: None },
    );
    assert_eq!(d.severity, Severity::Note);
}

#[test]
fn codes_are_stable_and_distinct() {
    let kinds = [
        DiagnosticKind::UnknownManifestKey { key: "k".into() },
        DiagnosticKind::UnrecognizedBullet { text: "t".into() },
        DiagnosticKind::MalformedBullet { key: "k".into(), reason: "r".into() },
        DiagnosticKind::NumberingIrregularity { written: vec![1] },
        DiagnosticKind::LossyConstruct { construct: "c".into(), detail: "d".into() },
    ];
    let codes: Vec<_> = kinds.iter().map(DiagnosticKind::code).collect();
    let unique: std::collections::BTreeSet<_> = codes.iter().collect();
    assert_eq!(codes.len(), unique.len(), "codes must be distinct");
}

#[test]
fn location_renders_readably() {
    assert_eq!(Location::Step { number: 4, line: Some(31) }.to_text(), "SOP.md:31: step 4");
    assert_eq!(
        Location::Manifest { key_path: "triggers[0].topic".into() }.to_text(),
        "SOP.toml: triggers[0].topic"
    );
    assert_eq!(Location::Document { line: None }.to_text(), "SOP.md");
}

#[test]
fn display_includes_code_and_location() {
    let d = Diagnostic::new(
        DiagnosticKind::MalformedBullet {
            key: "switch".into(),
            reason: "expected `name>condition>step`".into(),
        },
        Location::Step { number: 2, line: None },
    );
    let s = d.to_text();
    assert!(s.contains("malformed_bullet"), "{s}");
    assert!(s.contains("step 2"), "{s}");
    assert!(s.contains("expected `name>condition>step`"), "{s}");
}

#[test]
fn truncation_respects_char_boundaries() {
    let s = "é".repeat(80);
    let out = truncate(&s, 60);
    assert_eq!(out.chars().count(), 61, "60 chars plus the ellipsis");
    assert!(out.ends_with('…'));
}

#[test]
fn a_short_text_is_not_truncated() {
    assert_eq!(truncate("abc", 60), "abc");
    assert_eq!(truncate("abcd", 3), "abc…");
}

#[test]
fn messages_are_rendered_from_the_kind() {
    let d = Diagnostic::new(
        DiagnosticKind::UnknownManifestKey { key: "wobble".into() },
        Location::Manifest { key_path: "wobble".into() },
    );
    assert_eq!(d.message, "unknown manifest key `wobble`; carried through but not interpreted");
    assert_eq!(
        d.to_text(),
        "warning[unknown_manifest_key]: unknown manifest key `wobble`; carried through but not interpreted (SOP.toml: wobble)"
    );
    let d = Diagnostic::new(
        DiagnosticKind::NumberingIrregularity { written: vec![1, 3] },
        Location::Document { line: Some(2) },
    );
    assert_eq!(
        d.message,
        "step numbers are not a gapless ascending run (1, 3); steps are renumbered by position"
    );
    assert_eq!(d.location.to_text(), "SOP.md:2");
    let d = Diagnostic::new(
        DiagnosticKind::LossyConstruct { construct: "c".into(), detail: "d".into() },
        Location::Step { number: 7, line: None },
    );
    assert_eq!(d.message, "`c` will not survive a round trip unchanged: d");
    assert_eq!(d.location.to_text(), "SOP.md: step 7");
    assert_eq!(Severity::Note.to_text(), "note");
}

#[test]
fn an_unrecognized_bullet_message_truncates_its_preview() {
    let text = "x".repeat(70);
    let d = Diagnostic::new(
        DiagnosticKind::UnrecognizedBullet { text },
        Location::Step { number: 1, line: Some(3) },
    );
    let expected = format!("unrecognized bullet `{}…`; appended to the step body", "x".repeat(60));
    assert_eq!(d.message, expected);
}
