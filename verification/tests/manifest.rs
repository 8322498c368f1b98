use egeria_adapter_zeroclaw::{
    collect_unknown_keys, trigger_keys, unknown_manifest_keys, Diagnostic, Location, RawValue,
};

fn unknown_keys(text: &str) -> Vec<Diagnostic> {
    unknown_manifest_keys(text).expect("the text is TOML")
}

fn paths(diags: &[Diagnostic]) -> Vec<String> {
    diags
        .iter()
        .map(|d| match &d.location {
            Location::Manifest { key_path } => key_path.clone(),
            other => panic!("wrong location: {other:?}"),
        })
        .collect()
}

#[test]
fn every_trigger_variant_has_a_key_list() {
    for tag in [
        "mqtt", "webhook", "cron", "peripheral", "filesystem", "calendar", "channel", "manual",
        "amqp",
    ] {
        let keys = trigger_keys(tag).unwrap_or_else(|| panic!("no key list for {tag}"));
        assert!(keys.contains(&"type"), "{tag} must accept its own tag");
    }
    assert!(trigger_keys("telepathy").is_none());
}

#[test]
fn minimal_manifest_parses_without_diagnostics() {
    let diags = unknown_keys("[sop]\nname = \"s\"\ndescription = \"d\"\n");
    assert!(diags.is_empty(), "{diags:?}");
}

#[test]
fn maximal_manifest_parses_every_field() {
    let text = r#"
[sop]
name = "deploy-prod"
description = "Production deploy with approval"
version = "1.4.2"
priority = "critical"
execution_mode = "step_by_step"
cooldown_secs = 300
max_concurrent = 2
deterministic = false
admission_policy = "hold"
max_pending_approvals = 8
agent = "release-bot"
"#;
    let diags = unknown_keys(text);
    assert!(diags.is_empty(), "{diags:?}");
}

#[test]
fn all_nine_trigger_variants_parse_from_toml() {
    let text = r#"
[sop]
name = "everything"
description = "every trigger"

[[triggers]]
type = "mqtt"
topic = "facility/+/pressure/#"
condition = "$.value > 85"

[[triggers]]
type = "webhook"
path = "/sop/everything"

[[triggers]]
type = "cron"
expression = "0 */5 * * *"

[[triggers]]
type = "peripheral"
board = "nucleo-f401re-0"
signal = "pin_3"
condition = "> 0"

[[triggers]]
type = "filesystem"
path = "/var/inbox/**/*.json"
events = ["created", "modified"]

[[triggers]]
type = "calendar"
calendar_source = "microsoft365"
calendar_ids = ["primary", "team"]

[[triggers]]
type = "channel"
channel = "git"
alias = "main"
condition = "$.event_type == \"pull_request.opened\""

[[triggers]]
type = "manual"

[[triggers]]
type = "amqp"
routing_key = "org.release.*.version.#"
"#;
    let diags = unknown_keys(text);
    assert!(diags.is_empty(), "{diags:?}");
}

#[test]
fn unknown_top_level_key_is_a_diagnostic_not_an_error() {
    let text = "[sop]\nname = \"s\"\ndescription = \"d\"\n\n[wobble]\nx = 1\n";
    let diags = unknown_keys(text);
    assert_eq!(diags.len(), 1);
    assert_eq!(diags[0].kind.code(), "unknown_manifest_key");
    assert!(diags[0].message.contains("wobble"), "{:?}", diags[0]);
}

#[test]
fn unknown_sop_key_is_reported_with_its_path() {
    let text = "[sop]\nname = \"s\"\ndescription = \"d\"\nsome_future_key = 42\n";
    let diags = unknown_keys(text);
    assert_eq!(diags.len(), 1);
    match &diags[0].location {
        Location::Manifest { key_path } => assert_eq!(key_path, "sop.some_future_key"),
        other => panic!("wrong location: {other:?}"),
    }
}

#[test]
fn condition_on_webhook_is_reported() {
    let text = r#"
[sop]
name = "s"
description = "d"

[[triggers]]
type = "webhook"
path = "/p"
condition = "$.x > 1"
"#;
    let diags = unknown_keys(text);
    assert_eq!(diags.len(), 1, "{diags:?}");
    match &diags[0].location {
        Location::Manifest { key_path } => assert_eq!(key_path, "triggers[0].condition"),
        other => panic!("wrong location: {other:?}"),
    }
}

#[test]
fn condition_on_cron_is_reported() {
    let text = "[sop]\nname = \"s\"\ndescription = \"d\"\n\n[[triggers]]\ntype = \"cron\"\nexpression = \"* * * * *\"\ncondition = \"$.x\"\n";
    let diags = unknown_keys(text);
    assert_eq!(diags.len(), 1, "{diags:?}");
}

#[test]
fn condition_on_mqtt_is_not_reported() {
    let text = "[sop]\nname = \"s\"\ndescription = \"d\"\n\n[[triggers]]\ntype = \"mqtt\"\ntopic = \"t\"\ncondition = \"$.x > 1\"\n";
    let diags = unknown_keys(text);
    assert!(diags.is_empty(), "{diags:?}");
}

#[test]
fn unknown_keys_in_positions_and_steps_are_reported() {
    let text = r#"
[sop]
name = "s"
description = "d"

[[positions]]
step = 1
x = 0.0
y = 0.0
z = 3.0

[[steps]]
number = 1
title = "t"
unexpected = true
"#;
    let diags = unknown_keys(text);
    let paths = paths(&diags);
    assert!(paths.contains(&"positions[0].z".to_string()), "{paths:?}");
    assert!(paths.contains(&"steps[0].unexpected".to_string()), "{paths:?}");
}

#[test]
fn every_sop_key_constant_is_actually_accepted() {
    let values = [
        ("name", "\"s\""),
        ("description", "\"d\""),
        ("version", "\"1.0\""),
        ("priority", "\"high\""),
        ("execution_mode", "\"auto\""),
        ("cooldown_secs", "5"),
        ("max_concurrent", "3"),
        ("deterministic", "true"),
        ("admission_policy", "\"drop\""),
        ("max_pending_approvals", "2"),
        ("agent", "\"a\""),
    ];
    let body: String = values.iter().map(|(k, v)| format!("{k} = {v}\n")).collect();
    let diags = unknown_keys(&format!("[sop]\n{body}"));
    assert!(diags.is_empty(), "{diags:?}");
}

#[test]
fn an_unknown_trigger_tag_checks_no_keys() {
    let text = "[sop]\nname = \"s\"\ndescription = \"d\"\n\n[[triggers]]\ntype = \"telepathy\"\nwhatever = 1\n";
    assert!(unknown_keys(text).is_empty());
}

#[test]
fn the_second_trigger_is_indexed_by_position() {
    let text = "[[triggers]]\ntype = \"manual\"\n\n[[triggers]]\ntype = \"manual\"\nextra = 1\n";
    let diags = unknown_keys(text);
    assert_eq!(paths(&diags), vec!["triggers[1].extra".to_string()]);
    match &diags[0].kind {
        egeria_adapter_zeroclaw::DiagnosticKind::UnknownManifestKey { key } => assert_eq!(key, "extra"),
        other => panic!("wrong kind: {other:?}"),
    }
}

#[test]
fn a_document_that_is_not_a_table_has_no_unknown_keys() {
    let mut out = Vec::new();
    collect_unknown_keys(&RawValue::Other, &mut out);
    assert!(out.is_empty());
    collect_unknown_keys(
        &RawValue::Table(vec![("top".into(), RawValue::Str("x".into()))]),
        &mut out,
    );
    assert_eq!(paths(&out), vec!["top".to_string()]);
}

#[test]
fn the_key_check_reads_the_manifest_text() {
    let d = unknown_manifest_keys("[sop]\nname = \"s\"\ndescription = \"d\"\n\n[wobble]\nx = 1\n")
        .unwrap();
    assert_eq!(d.len(), 1);
    assert_eq!(d[0].kind.code(), "unknown_manifest_key");
    assert!(matches!(&d[0].location, Location::Manifest { key_path } if key_path == "wobble"));
    assert!(unknown_manifest_keys("[sop]\nname = \"s\"\n").unwrap().is_empty());
    assert!(unknown_manifest_keys("this is = = not toml").is_none());
}
