use egeria_adapter_zeroclaw::grammar::{
    call_from_entries, lookup_entry, object_keys_exec, planned_call_exec, value_fragment_exec,
};
use egeria_adapter_zeroclaw::{
    parse_steps, SopExecutionMode, SopStep, SopStepKind, StepFailure,
};

fn steps(md: &str) -> Vec<SopStep> {
    parse_steps(md).0
}

fn one(md: &str) -> SopStep {
    let s = steps(md);
    assert_eq!(s.len(), 1, "expected exactly one step, got {}", s.len());
    s.into_iter().next().unwrap()
}

fn codes(md: &str) -> Vec<&'static str> {
    parse_steps(md).1.iter().map(|d| d.kind.code()).collect()
}

fn json(text: &str) -> serde_json::Value {
    serde_json::from_str(text).unwrap()
}

// ── Section location ────────────────────────────────────────────

#[test]
fn steps_heading_is_ascii_case_insensitive() {
    for heading in ["## Steps", "## steps", "## STEPS"] {
        let md = format!("{heading}\n\n1. **A** - body\n");
        assert_eq!(steps(&md).len(), 1, "failed for {heading}");
    }
}

#[test]
fn near_miss_headings_do_not_open_the_section() {
    for heading in ["##  Steps", "## Steps:", "## Steps ##", "### Steps", "# Steps"] {
        let md = format!("{heading}\n\n1. **A** - body\n");
        assert!(steps(&md).is_empty(), "{heading} should not open a section");
    }
}

#[test]
fn content_before_the_section_is_discarded() {
    let md = "# Title\n\n1. **Not a step** - x\n\n## Steps\n\n1. **Real** - y\n";
    let s = steps(md);
    assert_eq!(s.len(), 1);
    assert_eq!(s[0].title, "Real");
}

#[test]
fn another_h2_terminates_the_section_and_flushes() {
    let md = "## Steps\n\n1. **A** - body\n\n## Notes\n\nignored\n\n2. **B** - x\n";
    let s = steps(md);
    assert_eq!(s.len(), 1);
    assert_eq!(s[0].title, "A");
    assert_eq!(s[0].body, "body");
}

#[test]
fn h1_and_h3_do_not_terminate_and_become_body() {
    let md = "## Steps\n\n1. **A** - body\n\n### Sub\n\nmore\n";
    let s = one(md);
    assert_eq!(s.body, "body\n### Sub\nmore");
}

#[test]
fn a_second_steps_heading_does_not_flush_the_open_step() {
    let md = "## Steps\n\n1. **A** - body\n\n## Steps\n\ncontinued\n";
    let s = one(md);
    assert_eq!(s.body, "body\ncontinued");
}

#[test]
fn a_bare_double_hash_is_body_not_a_heading() {
    let md = "## Steps\n\n1. **A** - body\n\n## \n\nmore\n";
    let s = one(md);
    assert!(s.body.contains("##"), "{}", s.body);
}

#[test]
fn a_section_left_open_at_eof_still_yields_its_step() {
    let s = one("## Steps\n\n1. **A** - body");
    assert_eq!(s.title, "A");
}

// ── Step items ──────────────────────────────────────────────────

#[test]
fn only_number_dot_space_starts_a_step() {
    assert_eq!(steps("## Steps\n1. **A** - x\n").len(), 1);
    assert!(steps("## Steps\n1) **A** - x\n").is_empty());
    assert!(steps("## Steps\n1.\n").is_empty());
    assert!(steps("## Steps\n1.**A** - x\n").is_empty());
    assert!(steps("## Steps\n- 1. **A** - x\n").is_empty());
}

#[test]
fn authored_numbers_are_discarded_and_steps_renumbered_positionally() {
    let md = "## Steps\n\n3. **First** - a\n\n1. **Second** - b\n\n9. **Third** - c\n";
    let s = steps(md);
    assert_eq!(s.iter().map(|x| x.number).collect::<Vec<_>>(), vec![1, 2, 3]);
    assert_eq!(
        s.iter().map(|x| x.title.as_str()).collect::<Vec<_>>(),
        vec!["First", "Second", "Third"]
    );
}

#[test]
fn irregular_numbering_is_reported_even_though_upstream_cannot() {
    assert!(codes("## Steps\n1. **A** - x\n5. **B** - y\n").contains(&"numbering_irregularity"));
    assert!(!codes("## Steps\n1. **A** - x\n2. **B** - y\n").contains(&"numbering_irregularity"));
}

#[test]
fn leading_zeros_are_accepted() {
    assert_eq!(steps("## Steps\n007. **A** - x\n").len(), 1);
}

#[test]
fn a_numeric_continuation_line_starts_a_new_step() {
    let md = "## Steps\n\n1. **A** - body\n2024. was a good year\n";
    assert_eq!(steps(md).len(), 2);
}

#[test]
fn indentation_is_meaningless_so_nested_items_are_steps() {
    let md = "## Steps\n\n1. **A** - body\n    1. **Nested** - x\n";
    assert_eq!(steps(md).len(), 2);
}

// ── Titles ──────────────────────────────────────────────────────

#[test]
fn title_and_body_split_on_bold_and_separator() {
    for sep in ["-", "\u{2014}", "\u{2013}"] {
        let md = format!("## Steps\n1. **Deploy** {sep} Ship it.\n");
        let s = one(&md);
        assert_eq!(s.title, "Deploy");
        assert_eq!(s.body, "Ship it.", "separator {sep:?}");
    }
}

#[test]
fn separator_is_optional() {
    let s = one("## Steps\n1. **Resolve** Do the first step\n");
    assert_eq!(s.title, "Resolve");
    assert_eq!(s.body, "Do the first step");
}

#[test]
fn absent_bold_makes_the_whole_line_the_title() {
    let s = one("## Steps\n1. Just prose here\n");
    assert_eq!(s.title, "Just prose here");
    assert_eq!(s.body, "");
}

#[test]
fn unterminated_bold_keeps_the_asterisks() {
    let s = one("## Steps\n1. **Deploy\n");
    assert_eq!(s.title, "**Deploy");
}

#[test]
fn bold_is_found_anywhere_and_discards_the_prefix() {
    let s = one("## Steps\n1. Do the **thing** now\n");
    assert_eq!(s.title, "thing");
    assert_eq!(s.body, "now");
}

#[test]
fn title_is_not_trimmed_but_body_is() {
    let s = one("## Steps\n1. ** Spaced ** -   body  \n");
    assert_eq!(s.title, " Spaced ");
    assert_eq!(s.body, "body");
}

#[test]
fn only_the_first_bold_pair_is_consumed() {
    let s = one("## Steps\n1. **A** and **B** - x\n");
    assert_eq!(s.title, "A");
    assert_eq!(s.body, "and **B** - x");
}

#[test]
fn multibyte_titles_do_not_panic() {
    let s = one("## Steps\n1. **Déployer — étape** - café ☕\n");
    assert_eq!(s.title, "Déployer — étape");
    assert_eq!(s.body, "café ☕");
}

// ── Bullets: every key ──────────────────────────────────────────

#[test]
fn tools_is_comma_separated_only() {
    let s = one("## Steps\n1. **A** - x\n   - tools: file_read, shell\n");
    assert_eq!(s.suggested_tools, vec!["file_read", "shell"]);
    let s = one("## Steps\n1. **A** - x\n   - tools: file_read shell\n");
    assert_eq!(s.suggested_tools, vec!["file_read shell"]);
    let s = one("## Steps\n1. **A** - x\n   - tools: a,,b,\n");
    assert_eq!(s.suggested_tools, vec!["a", "b"]);
}

#[test]
fn allow_and_deny_tools_accept_both_spellings() {
    for key in ["allow-tools", "allow_tools"] {
        let md = format!("## Steps\n1. **A** - x\n   - {key}: shell\n");
        let s = one(&md);
        assert_eq!(s.scope.unwrap().allow, Some(vec!["shell".to_string()]));
    }
    for key in ["deny-tools", "deny_tools"] {
        let md = format!("## Steps\n1. **A** - x\n   - {key}: shell\n");
        let s = one(&md);
        assert_eq!(s.scope.unwrap().deny, vec!["shell"]);
    }
}

#[test]
fn an_empty_allow_list_is_present_not_absent() {
    let s = one("## Steps\n1. **A** - x\n   - allow-tools:\n");
    assert_eq!(s.scope.unwrap().allow, Some(vec![]));
}

#[test]
fn deny_tools_materializes_the_scope_even_when_empty() {
    let s = one("## Steps\n1. **A** - x\n   - deny-tools:\n");
    assert!(s.scope.is_some());
}

#[test]
fn requires_confirmation_has_no_hyphen_alias() {
    let s = one("## Steps\n1. **A** - x\n   - requires_confirmation: true\n");
    assert!(s.requires_confirmation);
    let s = one("## Steps\n1. **A** - x\n   - requires-confirmation: true\n");
    assert!(!s.requires_confirmation);
    assert!(s.body.contains("requires-confirmation"));
}

#[test]
fn requires_confirmation_only_accepts_true() {
    for (value, expected) in [("true", true), ("TRUE", true), ("yes", false), ("1", false)] {
        let md = format!("## Steps\n1. **A** - x\n   - requires_confirmation: {value}\n");
        assert_eq!(one(&md).requires_confirmation, expected, "value {value}");
    }
}

#[test]
fn kind_accepts_approval_as_a_checkpoint_spelling() {
    for value in ["checkpoint", "approval", "CHECKPOINT"] {
        let md = format!("## Steps\n1. **A** - x\n   - kind: {value}\n");
        assert_eq!(one(&md).kind, SopStepKind::Checkpoint, "value {value}");
    }
    let s = one("## Steps\n1. **A** - x\n   - kind: capability\n");
    assert_eq!(s.kind, SopStepKind::Capability);
}

#[test]
fn an_unknown_kind_degrades_to_execute_but_is_reported() {
    let md = "## Steps\n1. **A** - x\n   - kind: chekpoint\n";
    assert_eq!(one(md).kind, SopStepKind::Execute);
    assert!(codes(md).contains(&"malformed_bullet"));
    assert!(!codes("## Steps\n1. **A** - x\n   - kind: execute\n").contains(&"malformed_bullet"));
}

#[test]
fn capability_keeps_an_empty_value_as_some() {
    let s = one("## Steps\n1. **A** - x\n   - capability:\n");
    assert_eq!(s.capability, Some(String::new()));
}

#[test]
fn when_and_prompt_treat_empty_as_a_no_op() {
    let md = "## Steps\n1. **A** - x\n   - when: $.a == 1\n   - when:\n   - prompt: hi\n   - prompt:\n";
    let s = one(md);
    assert_eq!(s.routing.when.as_deref(), Some("$.a == 1"));
    assert_eq!(s.gate_prompt.as_deref(), Some("hi"));
}

#[test]
fn agent_policy_and_edit_treat_empty_as_a_clear() {
    let md = "## Steps\n1. **A** - x\n   - agent: bot\n   - agent:\n   - policy: p\n   - policy:\n   - edit: body\n   - edit:\n";
    let s = one(md);
    assert_eq!(s.agent, None);
    assert_eq!(s.policy, None);
    assert_eq!(s.edit, None);
}

#[test]
fn next_parses_and_a_bad_value_clears_it() {
    let s = one("## Steps\n1. **A** - x\n   - next: 3\n");
    assert_eq!(s.routing.next, Some(3));
    let md = "## Steps\n1. **A** - x\n   - next: 3\n   - next: abc\n";
    assert_eq!(one(md).routing.next, None);
    assert!(codes(md).contains(&"malformed_bullet"));
}

#[test]
fn terminal_is_true_or_false() {
    assert!(one("## Steps\n1. **A** - x\n   - terminal: true\n").routing.terminal);
    assert!(!one("## Steps\n1. **A** - x\n   - terminal: yes\n").routing.terminal);
}

#[test]
fn depends_on_accepts_both_spellings_and_reports_dropped_items() {
    for key in ["depends_on", "depends-on"] {
        let md = format!("## Steps\n1. **A** - x\n   - {key}: 1, 2\n");
        assert_eq!(one(&md).routing.depends_on, vec![1, 2]);
    }
    let md = "## Steps\n1. **A** - x\n   - depends_on: 1, two, 3\n";
    assert_eq!(one(md).routing.depends_on, vec![1, 3]);
    assert!(codes(md).contains(&"malformed_bullet"));
}

#[test]
fn switch_parses_ports_in_order_with_a_catch_all() {
    let md = "## Steps\n1. **A** - x\n   - switch: pull_request>$.event>3; catch_all>>2\n";
    let s = one(md);
    assert_eq!(s.routing.switch.len(), 2);
    assert_eq!(s.routing.switch[0].name, "pull_request");
    assert_eq!(s.routing.switch[0].when.as_deref(), Some("$.event"));
    assert_eq!(s.routing.switch[0].goto, Some(3));
    assert_eq!(s.routing.switch[1].name, "catch_all");
    assert_eq!(s.routing.switch[1].when, None);
    assert_eq!(s.routing.switch[1].goto, Some(2));
}

#[test]
fn a_greater_than_inside_a_switch_guard_truncates_and_is_reported() {
    let md = "## Steps\n1. **A** - x\n   - switch: hot>$.n > 5>3\n";
    let s = one(md);
    assert_eq!(s.routing.switch[0].when.as_deref(), Some("$.n"));
    assert_eq!(s.routing.switch[0].goto, None);
    assert!(codes(md).contains(&"malformed_bullet"));
}

#[test]
fn a_switch_port_with_an_empty_name_is_dropped_and_reported() {
    let md = "## Steps\n1. **A** - x\n   - switch: >$.x>2; ok>>3\n";
    let s = one(md);
    assert_eq!(s.routing.switch.len(), 1);
    assert_eq!(s.routing.switch[0].name, "ok");
    assert!(codes(md).contains(&"malformed_bullet"));
}

#[test]
fn on_failure_accepts_both_spellings_and_both_forms() {
    for key in ["on_failure", "on-failure"] {
        for (value, expected) in [
            ("fail", StepFailure::Fail),
            ("FAIL", StepFailure::Fail),
            ("retry:2", StepFailure::Retry { max: 2 }),
            ("retry: 2", StepFailure::Retry { max: 2 }),
            ("retry 2", StepFailure::Retry { max: 2 }),
            ("goto:4", StepFailure::Goto { step: 4 }),
            ("goto 4", StepFailure::Goto { step: 4 }),
        ] {
            let md = format!("## Steps\n1. **A** - x\n   - {key}: {value}\n");
            assert_eq!(one(&md).on_failure, expected, "{key}: {value}");
        }
    }
}

#[test]
fn retry_and_goto_prefixes_are_case_sensitive() {
    let md = "## Steps\n1. **A** - x\n   - on_failure: RETRY:2\n";
    assert_eq!(one(md).on_failure, StepFailure::Fail);
    assert!(codes(md).contains(&"malformed_bullet"));
}

#[test]
fn mode_always_assigns_some_and_reports_unknown_values() {
    let s = one("## Steps\n1. **A** - x\n   - mode: deterministic\n");
    assert_eq!(s.mode, Some(SopExecutionMode::Deterministic));
    let md = "## Steps\n1. **A** - x\n   - mode: wobble\n";
    assert_eq!(one(md).mode, Some(SopExecutionMode::Supervised));
    assert!(codes(md).contains(&"malformed_bullet"));
}

#[test]
fn call_accumulates_and_a_bad_call_is_dropped_with_a_diagnostic() {
    let md = "## Steps\n1. **A** - x\n   - call: {\"tool\":\"shell\",\"args\":{\"cmd\":\"ls\"}}\n   - call: {\"tool\":\"file_read\"}\n";
    let s = one(md);
    assert_eq!(s.calls.len(), 2, "call is the only appending key");
    assert_eq!(s.calls[0].tool, "shell");

    let md = "## Steps\n1. **A** - x\n   - call: {not json}\n";
    assert!(one(md).calls.is_empty());
    assert!(codes(md).contains(&"malformed_bullet"));
}

#[test]
fn with_input_and_output_try_json_then_toml_then_string() {
    let s = one("## Steps\n1. **A** - x\n   - with: {\"a\": 1}\n");
    assert_eq!(s.capability_input.as_deref(), Some(r#"{"a":1}"#));

    let s = one("## Steps\n1. **A** - x\n   - with: { require_clean = true }\n");
    assert_eq!(s.capability_input.as_deref(), Some(r#"{"require_clean":true}"#));

    let s = one("## Steps\n1. **A** - x\n   - input: not json at all\n");
    assert_eq!(s.schema.unwrap().input.as_deref(), Some(r#""not json at all""#));

    let s = one("## Steps\n1. **A** - x\n   - output: 42\n");
    assert_eq!(s.schema.unwrap().output.as_deref(), Some("42"));
}

#[test]
fn a_toml_comment_in_a_value_swallows_the_tail() {
    let s = one("## Steps\n1. **A** - x\n   - input: 1 # note\n");
    assert_eq!(s.schema.unwrap().input.as_deref(), Some("1"));
}

// ── Bullet recognition edges ────────────────────────────────────

#[test]
fn keys_are_case_sensitive_and_the_colon_must_be_attached() {
    for bad in ["- Tools: shell", "- WHEN: x", "- tools : shell"] {
        let md = format!("## Steps\n1. **A** - x\n   {bad}\n");
        let s = one(&md);
        assert!(s.suggested_tools.is_empty(), "{bad} should not parse");
        assert!(s.body.contains(bad.trim_start_matches("- ")) || s.body.contains(bad));
    }
}

#[test]
fn extra_spaces_after_the_bullet_hyphen_are_tolerated() {
    for prefix in ["- ", "-  ", "- - "] {
        let md = format!("## Steps\n1. **A** - x\n   {prefix}tools: shell\n");
        assert_eq!(one(&md).suggested_tools, vec!["shell"], "prefix {prefix:?}");
    }
}

#[test]
fn non_hyphen_markers_are_not_bullets() {
    for marker in ["* tools: shell", "+ tools: shell", "-tools: shell"] {
        let md = format!("## Steps\n1. **A** - x\n   {marker}\n");
        assert!(one(&md).suggested_tools.is_empty(), "{marker}");
    }
}

#[test]
fn bullets_before_the_first_step_are_discarded() {
    let md = "## Steps\n\n- tools: shell\n\n1. **A** - x\n";
    let s = one(md);
    assert!(s.suggested_tools.is_empty());
}

#[test]
fn an_unrecognized_bullet_keeps_its_marker_in_the_body() {
    let md = "## Steps\n1. **A** - x\n   - notakey: value\n";
    let s = one(md);
    assert_eq!(s.body, "x\n- notakey: value");
    assert!(codes(md).contains(&"unrecognized_bullet"));
}

// ── Body accumulation ───────────────────────────────────────────

#[test]
fn body_drops_blank_lines_and_trims_each_line() {
    let md = "## Steps\n1. **A** - first\n\n   second\n\n\n     third   \n";
    let s = one(md);
    assert_eq!(s.body, "first\nsecond\nthird");
}

#[test]
fn repeated_scalar_bullets_take_the_last_value() {
    let md = "## Steps\n1. **A** - x\n   - next: 2\n   - next: 5\n";
    assert_eq!(one(md).routing.next, Some(5));
}

#[test]
fn repeated_list_bullets_replace_rather_than_merge() {
    let md = "## Steps\n1. **A** - x\n   - tools: a\n   - tools: b\n";
    assert_eq!(one(md).suggested_tools, vec!["b"]);
}

// ── Whole documents ─────────────────────────────────────────────

#[test]
fn the_capability_form_from_the_upstream_test_parses() {
    let md = "## Steps\n\n1. **Status** - Check the repository.\n   - kind: capability\n   - capability: git.status\n   - with: { require_clean = true }\n";
    let s = one(md);
    assert_eq!(s.kind, SopStepKind::Capability);
    assert_eq!(s.capability.as_deref(), Some("git.status"));
    assert_eq!(s.capability_input.as_deref(), Some(r#"{"require_clean":true}"#));
}

#[test]
fn the_capability_form_from_the_docs_does_not_parse() {
    let md = "## Steps\n\n1. **Draft** - kind: capability / capability: llm.generate\n";
    let s = one(md);
    assert_eq!(s.kind, SopStepKind::Execute);
    assert_eq!(s.capability, None);
    assert!(s.body.contains("kind: capability"));
}

#[test]
fn a_realistic_multi_step_document_parses() {
    let md = r#"
# Deploy

Some prose that is discarded.

## Steps

1. **Triage** — Classify the incoming issue.
   - tools: file_read
   - output: {"type": "object", "properties": {"simple": {"type": "boolean"}}}
   - when: $.action == "opened"

2. **Fix** - Attempt a patch in the sandbox.
   - allow-tools: file_write, shell
   - deny-tools: git_operations
   - on_failure: retry:2

3. **Approve** - Human review.
   - kind: checkpoint
   - policy: prod
   - edit: body
   - prompt: Approve the patch for {{repo}}?

4. **Open PR** - Publish.
   - kind: capability
   - capability: forge.comment
   - depends_on: 2, 3
   - terminal: true
"#;
    let (s, diags) = parse_steps(md);
    assert_eq!(s.len(), 4);
    assert!(diags.is_empty(), "{diags:?}");

    assert_eq!(s[0].title, "Triage");
    assert_eq!(s[0].routing.when.as_deref(), Some(r#"$.action == "opened""#));
    assert!(s[0].schema.as_ref().unwrap().output.is_some());

    assert_eq!(s[1].on_failure, StepFailure::Retry { max: 2 });
    let scope = s[1].scope.as_ref().unwrap();
    assert_eq!(scope.allow, Some(vec!["file_write".to_string(), "shell".to_string()]));
    assert_eq!(scope.deny, vec!["git_operations"]);

    assert_eq!(s[2].kind, SopStepKind::Checkpoint);
    assert_eq!(s[2].policy.as_deref(), Some("prod"));
    assert_eq!(s[2].edit.as_deref(), Some("body"));
    assert!(s[2].gate_prompt.is_some());

    assert_eq!(s[3].kind, SopStepKind::Capability);
    assert_eq!(s[3].routing.depends_on, vec![2, 3]);
    assert!(s[3].routing.terminal);
}

#[test]
fn every_accepted_spelling_is_recognized() {
    let spellings: &[(&str, &str)] = &[
        ("tools", "shell"),
        ("allow-tools", "shell"),
        ("allow_tools", "shell"),
        ("deny-tools", "shell"),
        ("deny_tools", "shell"),
        ("requires_confirmation", "true"),
        ("kind", "checkpoint"),
        ("capability", "git.status"),
        ("with", "{}"),
        ("input", "{}"),
        ("output", "{}"),
        ("when", "$.a == 1"),
        ("next", "2"),
        ("terminal", "true"),
        ("depends_on", "1"),
        ("depends-on", "1"),
        ("switch", "ok>>2"),
        ("on_failure", "fail"),
        ("on-failure", "fail"),
        ("mode", "auto"),
        ("agent", "bot"),
        ("call", r#"{"tool":"shell"}"#),
        ("prompt", "ok?"),
        ("policy", "prod"),
        ("edit", "body"),
    ];
    assert_eq!(spellings.len(), 25, "the reader accepts 25 spellings");

    for (key, value) in spellings {
        let md = format!("## Steps\n1. **A** - x\n   - {key}: {value}\n");
        let step = one(&md);
        assert_eq!(step.body, "x", "`{key}` was not recognized and leaked into the body");
    }
}

#[test]
fn the_deploy_example_from_syntax_md_parses() {
    let md = r#"## Steps

1. **Preflight** — Check service health and release window.
   - tools: http_request

2. **Deploy** — Run deployment command.
   - tools: shell
   - requires_confirmation: true
   - policy: prod
   - input: {"type":"object","required":["version"],"properties":{"version":{"type":"string"}}}
   - output: {"type":"object","required":["digest"],"properties":{"digest":{"type":"string"}}}
   - next: 3
"#;
    let (s, diags) = parse_steps(md);
    assert!(diags.is_empty(), "{diags:?}");
    assert_eq!(s.len(), 2);

    assert_eq!(s[0].title, "Preflight");
    assert_eq!(s[0].body, "Check service health and release window.");
    assert_eq!(s[0].suggested_tools, vec!["http_request"]);

    assert_eq!(s[1].title, "Deploy");
    assert!(s[1].requires_confirmation);
    assert_eq!(s[1].policy.as_deref(), Some("prod"));
    assert_eq!(s[1].routing.next, Some(3));
    let schema = s[1].schema.as_ref().unwrap();
    assert_eq!(
        json(schema.input.as_ref().unwrap())["required"],
        serde_json::Value::Array(vec![serde_json::Value::String("version".into())])
    );
    assert_eq!(
        json(schema.output.as_ref().unwrap())["required"],
        serde_json::Value::Array(vec![serde_json::Value::String("digest".into())])
    );
    assert!(s.len() < 3);
}

#[test]
fn the_combined_routing_example_from_syntax_md_parses() {
    let md = r#"## Steps

1. **Classify event** — Inspect the incoming payload.
   - output: {"type":"object","required":["severity"],"properties":{"severity":{"type":"string"}}}
   - when: $.steps.1.severity == "critical"
   - next: 2

2. **Prepare summary** — Build the operator-facing remediation plan.
   - depends_on: 1
   - on_failure: retry:2
   - next: 3

3. **Approval gate** — Require explicit approval before changing state.
   - kind: checkpoint
   - requires_confirmation: true
   - next: 4

4. **Apply remediation** — Execute the approved action.
   - tools: shell
   - allow-tools: shell
   - on_failure: goto:5

5. **Notify operator** — Send a failure notice for follow-up.
   - tools: http_request
"#;
    let (s, diags) = parse_steps(md);
    assert!(diags.is_empty(), "{diags:?}");
    assert_eq!(s.len(), 5);
    assert_eq!(s.iter().map(|x| x.number).collect::<Vec<_>>(), vec![1, 2, 3, 4, 5]);

    assert_eq!(s[0].routing.when.as_deref(), Some(r#"$.steps.1.severity == "critical""#));
    assert_eq!(s[1].routing.depends_on, vec![1]);
    assert_eq!(s[1].on_failure, StepFailure::Retry { max: 2 });
    assert_eq!(s[2].kind, SopStepKind::Checkpoint);
    assert!(s[2].requires_confirmation);
    assert_eq!(s[3].on_failure, StepFailure::Goto { step: 5 });
    assert_eq!(s[3].suggested_tools, vec!["shell"]);
    assert_eq!(s[3].scope.as_ref().unwrap().allow, Some(vec!["shell".to_string()]));
    assert_eq!(s[4].title, "Notify operator");
}

#[test]
fn no_input_panics() {
    let hostile = [
        "",
        "## Steps",
        "## Steps\n1. ",
        "## Steps\n1. **",
        "## Steps\n1. ****",
        "## Steps\n1. **A**\n   - switch: >>>>>>\n",
        "## Steps\n1. **A**\n   - call: \n",
        "## Steps\n1. **A**\n   - depends_on: ,,,\n",
        "## Steps\n999999999999999999999. **A** - x\n",
        "## Steps\n1. **é** - ☕\n   - with: {broken\n",
        "## Steps\n1. **A**\n   - :\n",
        "## Steps\n1. **A**\n   - : x\n",
    ];
    for md in hostile {
        let _ = parse_steps(md);
    }
}

// ── Further cases ───────────────────────────────────────────────

#[test]
fn parsed_steps_are_numbered_by_position() {
    let (s, _) = parse_steps("## Steps\n4. **A** - a\n4. **B** - b\n2. **C** - c\n");
    assert_eq!(s.iter().map(|x| x.number).collect::<Vec<_>>(), vec![1, 2, 3]);
}

#[test]
fn a_malformed_bullet_names_its_step_and_line() {
    let (_, diags) = parse_steps("## Steps\n1. **A** - x\n   - next: abc\n");
    assert_eq!(diags.len(), 1);
    assert_eq!(diags[0].location.to_text(), "SOP.md:3: step 1");
    assert_eq!(diags[0].message, "could not parse `next` bullet: `abc` is not a step number");
}

#[test]
fn a_call_with_pinned_output_keeps_it() {
    let s = one("## Steps\n1. **A** - x\n   - call: {\"tool\":\"t\",\"pinned\":[1,2]}\n");
    assert_eq!(s.calls[0].args, "null");
    assert_eq!(s.calls[0].pinned.as_deref(), Some("[1,2]"));
}

#[test]
fn a_call_whose_tool_is_not_a_string_is_reported() {
    let md = "## Steps\n1. **A** - x\n   - call: {\"tool\":3}\n";
    assert!(one(md).calls.is_empty());
    assert!(codes(md).contains(&"malformed_bullet"));
}

#[test]
fn the_last_entry_of_a_name_wins() {
    let entries = vec![
        ("a".to_string(), "1".to_string()),
        ("b".to_string(), "2".to_string()),
        ("a".to_string(), "3".to_string()),
    ];
    assert_eq!(lookup_entry(&entries, "a").as_deref(), Some("3"));
    assert_eq!(lookup_entry(&entries, "c"), None);
}

#[test]
fn a_call_is_built_from_its_entries() {
    let entries = vec![
        ("pinned".to_string(), "null".to_string()),
        ("tool".to_string(), "\"x\"".to_string()),
    ];
    let c = call_from_entries(&entries, "x".to_string());
    assert_eq!(c.tool, "x");
    assert_eq!(c.args, "null");
    assert_eq!(c.pinned, None);
    let entries = vec![
        ("args".to_string(), "[1]".to_string()),
        ("pinned".to_string(), "{}".to_string()),
    ];
    let c = call_from_entries(&entries, "y".to_string());
    assert_eq!(c.args, "[1]");
    assert_eq!(c.pinned.as_deref(), Some("{}"));
}

fn call(text: &str) -> Result<(String, String, Option<String>), String> {
    let v: Vec<char> = text.chars().collect();
    match planned_call_exec(&v) {
        Ok(c) => Ok((c.tool, c.args, c.pinned)),
        Err(e) => Err(e.into_iter().collect()),
    }
}

#[test]
fn a_call_written_as_an_array_is_read_in_field_order() {
    let s = one("## Steps\n1. **A** - x\n   - call: [\"shell\", {\"cmd\": \"ls\"}]\n");
    assert_eq!(s.calls.len(), 1);
    assert_eq!(s.calls[0].tool, "shell");
    assert_eq!(s.calls[0].args, "{\"cmd\":\"ls\"}");
    assert_eq!(s.calls[0].pinned, None);
    assert_eq!(call(r#"["t"]"#), Ok(("t".into(), "null".into(), None)));
    assert_eq!(call(r#"["t", null, [1]]"#), Ok(("t".into(), "null".into(), Some("[1]".into()))));
    assert_eq!(call(r#"["t", 1, null]"#), Ok(("t".into(), "1".into(), None)));
    assert!(call("[]").is_err());
    assert!(call(r#"["t", 1, 2, 3]"#).is_err());
    assert!(call("[3]").is_err());
}

#[test]
fn a_call_that_writes_a_field_twice_is_refused() {
    let md = "## Steps\n1. **A** - x\n   - call: {\"tool\":\"a\",\"tool\":\"b\"}\n";
    assert!(one(md).calls.is_empty());
    assert!(codes(md).contains(&"malformed_bullet"));
    assert_eq!(call(r#"{"tool":"a","tool":"b"}"#), Err("duplicate field `tool`".into()));
    assert_eq!(call(r#"{"tool":"a","\u0074ool":"b"}"#), Err("duplicate field `tool`".into()));
    assert_eq!(call(r#"{"tool":"a","args":1,"args":2}"#), Err("duplicate field `args`".into()));
    assert_eq!(
        call(r#"{"tool":"a","pinned":1,"pinned":2}"#),
        Err("duplicate field `pinned`".into())
    );
    assert_eq!(call(r#"{"x":1,"x":2,"tool":"a"}"#), Ok(("a".into(), "null".into(), None)));
    assert_eq!(
        call(r#"{"tool":"a","args":{"tool":1,"tool":2}}"#),
        Ok(("a".into(), "{\"tool\":2}".into(), None))
    );
}

#[test]
fn the_outer_keys_of_an_object_are_read_as_written() {
    let v: Vec<char> = r#"{"a": {"b": 1}, "c": "d,\"e\":", "a": [{"f": 2}]}"#.chars().collect();
    let keys: Vec<String> = object_keys_exec(&v).into_iter().map(|k| k.into_iter().collect()).collect();
    assert_eq!(keys, vec!["\"a\"", "\"c\"", "\"a\""]);
}

#[test]
fn text_that_is_neither_json_nor_toml_is_kept_as_a_json_string() {
    let v: Vec<char> = "say \"hi\" \\ now\u{1}".chars().collect();
    let expected = serde_json::Value::String("say \"hi\" \\ now\u{1}".into()).to_string();
    assert_eq!(value_fragment_exec(&v), expected);
    assert_eq!(value_fragment_exec(&v), "\"say \\\"hi\\\" \\\\ now\\u0001\"");
}
