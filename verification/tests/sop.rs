use egeria_adapter_zeroclaw::{
    merge_positions, normalize_manifest_steps, render_parts, resolve_sop, Sop, SopAdmissionPolicy,
    SopManifest, SopMeta, SopPriority, SopStep, SopStepKind, SopTrigger, StepFailure, StepPos,
    StepPosition,
};

fn rich_manifest() -> SopManifest {
    let mut meta = SopMeta::new("deploy-prod", "Production deploy with approval");
    meta.version = "1.4.2".into();
    meta.priority = SopPriority::Critical;
    meta.admission_policy = SopAdmissionPolicy::Hold;
    meta.agent = Some("release-bot".into());
    SopManifest {
        sop: meta,
        triggers: vec![
            SopTrigger::Channel {
                channel: "git".into(),
                alias: Some("main".into()),
                condition: Some("$.event_type == \"pull_request.opened\"".into()),
            },
            SopTrigger::Manual,
        ],
        positions: vec![StepPosition { step: 1, x: 320.5f64.to_bits(), y: (-48.0f64).to_bits() }],
        steps: Vec::new(),
    }
}

const RICH_MARKDOWN: &str = r#"## Steps

1. **Preflight** — Check service health.
   - tools: http_request
   - output: {"type":"object"}

2. **Deploy** — Run the deployment.
   - allow-tools: shell
   - deny-tools: git_operations
   - requires_confirmation: true
   - on_failure: retry:2
   - next: 3

3. **Approve** — Human review before publishing.
   - kind: checkpoint
   - policy: prod
   - edit: body
   - prompt: Approve the deploy?

4. **Publish** — Post the result.
   - kind: capability
   - capability: forge.comment
   - with: {"repo":"o/r"}
   - depends_on: 2, 3
   - terminal: true
"#;

fn rich_sop() -> Sop {
    let (sop, diagnostics) = resolve_sop(rich_manifest(), Vec::new(), Some(RICH_MARKDOWN));
    assert!(diagnostics.is_empty(), "{diagnostics:?}");
    sop
}

fn manifest_with_steps(steps: Vec<SopStep>) -> SopManifest {
    SopManifest { steps, ..SopManifest::new(SopMeta::new("s", "d")) }
}

#[test]
fn a_rich_sop_reads_as_expected() {
    let sop = rich_sop();
    assert_eq!(sop.meta.name, "deploy-prod");
    assert_eq!(sop.triggers.len(), 2);
    assert_eq!(sop.steps.len(), 4);
    assert_eq!(sop.steps[2].kind, SopStepKind::Checkpoint);
    assert_eq!(sop.steps[3].kind, SopStepKind::Capability);
    assert_eq!(sop.steps[1].on_failure, StepFailure::Retry { max: 2 });
    assert!(sop.steps[0].pos.is_some());
    assert!(sop.steps[1].pos.is_none());
}

#[test]
fn positions_never_leak_into_the_markdown() {
    let sop = rich_sop();
    let (manifest, markdown, _) = render_parts(&sop);
    assert_eq!(
        manifest.positions,
        vec![StepPosition { step: 1, x: 320.5f64.to_bits(), y: (-48.0f64).to_bits() }]
    );
    assert!(!markdown.contains("320.5"), "{markdown}");
}

#[test]
fn steps_are_never_written_to_the_manifest() {
    let sop = rich_sop();
    let (manifest, _, _) = render_parts(&sop);
    assert!(manifest.steps.is_empty());
}

#[test]
fn markdown_wins_over_manifest_steps_and_the_conflict_is_reported() {
    let manifest = manifest_with_steps(vec![SopStep {
        number: 1,
        title: "From TOML".into(),
        ..Default::default()
    }]);
    let (sop, diagnostics) =
        resolve_sop(manifest, Vec::new(), Some("## Steps\n1. **From markdown** - x\n"));
    assert_eq!(sop.steps.len(), 1);
    assert_eq!(sop.steps[0].title, "From markdown");
    assert!(diagnostics.iter().any(|d| d.kind.code() == "lossy_construct"), "{diagnostics:?}");
}

#[test]
fn an_empty_markdown_file_still_beats_manifest_steps() {
    let manifest = manifest_with_steps(vec![SopStep {
        number: 1,
        title: "From TOML".into(),
        ..Default::default()
    }]);
    let (sop, _) = resolve_sop(manifest, Vec::new(), Some(""));
    assert!(sop.steps.is_empty());
}

#[test]
fn manifest_steps_are_used_when_there_is_no_markdown() {
    let manifest = manifest_with_steps(vec![
        SopStep { title: "First".into(), ..Default::default() },
        SopStep {
            kind: SopStepKind::Capability,
            capability: Some("git.status".into()),
            ..Default::default()
        },
    ]);
    let (sop, _) = resolve_sop(manifest, Vec::new(), None);
    assert_eq!(sop.steps.len(), 2);
    assert_eq!(sop.steps[0].number, 1);
    assert_eq!(sop.steps[1].number, 2);
    assert_eq!(sop.steps[1].title, "git.status");
}

#[test]
fn manifest_steps_keep_their_authored_numbers() {
    let manifest = manifest_with_steps(vec![SopStep {
        number: 5,
        title: "Five".into(),
        ..Default::default()
    }]);
    let (sop, _) = resolve_sop(manifest, Vec::new(), None);
    assert_eq!(sop.steps[0].number, 5);
}

#[test]
fn an_unattachable_position_is_reported() {
    let manifest = SopManifest {
        positions: vec![StepPosition { step: 9, x: 1.0f64.to_bits(), y: 2.0f64.to_bits() }],
        ..SopManifest::new(SopMeta::new("s", "d"))
    };
    let (_, diagnostics) = resolve_sop(manifest, Vec::new(), Some("## Steps\n1. **A** - x\n"));
    assert!(
        diagnostics.iter().any(|d| d.message.contains("no step numbered 9")),
        "{diagnostics:?}"
    );
}

// ── Further cases ───────────────────────────────────────────────

#[test]
fn the_discarded_steps_are_counted_in_the_diagnostic() {
    let manifest = manifest_with_steps(vec![SopStep::default(), SopStep::default()]);
    let (_, diagnostics) =
        resolve_sop(manifest, Vec::new(), Some("## Steps\n1. **A** - x\n"));
    assert_eq!(diagnostics.len(), 1);
    assert_eq!(
        diagnostics[0].message,
        "`steps` will not survive a round trip unchanged: SOP.toml declares 2 step(s) and SOP.md declares 1; SOP.md wins and the manifest steps are discarded"
    );
}

#[test]
fn earlier_diagnostics_are_kept_first() {
    let earlier = egeria_adapter_zeroclaw::Diagnostic::new(
        egeria_adapter_zeroclaw::DiagnosticKind::UnknownManifestKey { key: "k".into() },
        egeria_adapter_zeroclaw::Location::Manifest { key_path: "k".into() },
    );
    let (_, diagnostics) = resolve_sop(
        SopManifest::new(SopMeta::new("s", "d")),
        vec![earlier.clone()],
        Some("## Steps\n1. **A** - x\n   - next: abc\n"),
    );
    assert_eq!(diagnostics.len(), 2);
    assert_eq!(diagnostics[0], earlier);
    assert_eq!(diagnostics[1].kind.code(), "malformed_bullet");
}

#[test]
fn a_later_position_for_the_same_step_wins() {
    let mut steps = vec![
        SopStep { number: 1, ..Default::default() },
        SopStep { number: 1, ..Default::default() },
    ];
    let mut diags = Vec::new();
    merge_positions(
        &mut steps,
        &[StepPosition { step: 1, x: 1, y: 2 }, StepPosition { step: 1, x: 3, y: 4 }],
        &mut diags,
    );
    assert!(diags.is_empty());
    assert_eq!(steps[0].pos, Some(StepPos { x: 3, y: 4 }));
    assert_eq!(steps[1].pos, None);
}

#[test]
fn normalizing_fills_only_what_is_empty() {
    let steps = normalize_manifest_steps(vec![
        SopStep { number: 0, title: String::new(), ..Default::default() },
        SopStep { number: 7, title: "Kept".into(), ..Default::default() },
        SopStep { number: 0, kind: SopStepKind::Checkpoint, ..Default::default() },
    ]);
    assert_eq!(steps[0].number, 1);
    assert_eq!(steps[0].title, "execute");
    assert_eq!(steps[1].number, 7);
    assert_eq!(steps[1].title, "Kept");
    assert_eq!(steps[2].number, 3);
    assert_eq!(steps[2].title, "checkpoint");
}

#[test]
fn rendered_parts_resolve_back_to_the_same_sop() {
    let sop = rich_sop();
    let (manifest, markdown, lossy) = render_parts(&sop);
    assert!(lossy.is_empty(), "{lossy:?}");
    assert_eq!(manifest.sop, sop.meta);
    assert_eq!(manifest.triggers, sop.triggers);
    let (back, diagnostics) = resolve_sop(manifest, Vec::new(), Some(&markdown));
    assert!(diagnostics.is_empty(), "{diagnostics:?}");
    assert_eq!(back, sop);
}
