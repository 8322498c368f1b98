use egeria_adapter_zeroclaw::{
    parse_steps, print_steps, PlannedToolCall, SopExecutionMode, SopStep, SopStepKind,
    StepFailure, StepRouting, StepSchema, StepToolScope, SwitchRule,
};

fn assert_round_trips(md: &str) -> Vec<SopStep> {
    let (steps, _) = parse_steps(md);
    let (printed, lossy) = print_steps(&steps);
    assert!(lossy.is_empty(), "unexpected loss: {lossy:?}\n{printed}");
    let (again, _) = parse_steps(&printed);
    assert_eq!(steps, again, "round trip changed the steps.\n--- printed ---\n{printed}");
    steps
}

#[test]
fn a_minimal_step_round_trips() {
    assert_round_trips("## Steps\n1. **A** - body\n");
}

#[test]
fn an_empty_body_omits_the_separator() {
    let (printed, _) =
        print_steps(&[SopStep { number: 1, title: "A".into(), ..Default::default() }]);
    assert!(printed.contains("1. **A**\n"), "{printed}");
    assert!(!printed.contains("**A** -"), "{printed}");
    assert_round_trips(&printed);
}

#[test]
fn every_bullet_key_survives_a_round_trip() {
    let md = r#"## Steps

1. **Everything** - the body
   - tools: file_read, shell
   - allow-tools: shell
   - deny-tools: git_operations
   - requires_confirmation: true
   - kind: capability
   - capability: forge.comment
   - with: {"repo":"o/r"}
   - input: {"type":"object"}
   - output: {"type":"string"}
   - when: $.a == 1
   - next: 2
   - terminal: true
   - depends_on: 1, 2
   - switch: hot>$.sev>3; other>>4
   - on_failure: retry:2
   - mode: deterministic
   - agent: bot
   - call: {"tool":"shell","args":{"cmd":"ls"}}
   - prompt: approve?
   - policy: prod
   - edit: body
"#;
    let steps = assert_round_trips(md);
    let s = &steps[0];
    assert_eq!(s.kind, SopStepKind::Capability);
    assert_eq!(s.capability.as_deref(), Some("forge.comment"));
    assert!(s.capability_input.is_some());
    assert_eq!(s.policy.as_deref(), Some("prod"));
    assert_eq!(s.gate_prompt.as_deref(), Some("approve?"));
    assert_eq!(s.edit.as_deref(), Some("body"));
}

#[test]
fn a_capability_step_does_not_decay_into_an_execute_step() {
    let md = "## Steps\n1. **Status** - Check.\n   - kind: capability\n   - capability: git.status\n   - with: { require_clean = true }\n";
    let (steps, _) = parse_steps(md);
    let (printed, _) = print_steps(&steps);
    assert!(printed.contains("kind: capability"), "{printed}");
    assert!(printed.contains("capability: git.status"), "{printed}");
    assert!(printed.contains("with:"), "{printed}");
    let (again, _) = parse_steps(&printed);
    assert_eq!(again[0].kind, SopStepKind::Capability);
    assert_eq!(again[0].capability.as_deref(), Some("git.status"));
}

#[test]
fn canonical_spellings_match_upstream_where_it_emits_them() {
    let md = "## Steps\n1. **A** - x\n   - allow_tools: shell\n   - deny_tools: git\n   - depends-on: 1\n   - on-failure: retry 3\n";
    let (steps, _) = parse_steps(md);
    let (printed, _) = print_steps(&steps);
    assert!(printed.contains("- allow-tools: shell"), "{printed}");
    assert!(printed.contains("- deny-tools: git"), "{printed}");
    assert!(printed.contains("- depends_on: 1"), "{printed}");
    assert!(printed.contains("- on_failure: retry: 3"), "{printed}");
}

#[test]
fn both_failure_forms_round_trip() {
    for value in ["retry:0", "retry:2", "goto:5", "fail"] {
        let md = format!("## Steps\n1. **A** - x\n   - on_failure: {value}\n");
        assert_round_trips(&md);
    }
}

#[test]
fn an_empty_allow_list_stays_present() {
    let md = "## Steps\n1. **A** - x\n   - allow-tools:\n";
    let steps = assert_round_trips(md);
    assert_eq!(steps[0].scope.as_ref().unwrap().allow, Some(vec![]));
}

#[test]
fn switch_ports_round_trip_including_the_catch_all() {
    let md = "## Steps\n1. **A** - x\n   - switch: hot>$.sev>3; catch>>4; bare>>\n";
    let steps = assert_round_trips(md);
    let switch = &steps[0].routing.switch;
    assert_eq!(switch.len(), 3);
    assert_eq!(switch[1].when, None);
    assert_eq!(switch[2].goto, None);
}

#[test]
fn multiline_bodies_round_trip() {
    let md = "## Steps\n1. **A** - first line\n   second line\n   third line\n";
    let steps = assert_round_trips(md);
    assert_eq!(steps[0].body, "first line\nsecond line\nthird line");
}

#[test]
fn unrecognized_bullets_in_a_body_round_trip() {
    let md = "## Steps\n1. **A** - x\n   - notakey: value\n";
    let steps = assert_round_trips(md);
    assert_eq!(steps[0].body, "x\n- notakey: value");
}

#[test]
fn value_fragments_round_trip_through_json() {
    for value in [r#"{"a":1}"#, "42", "true", "null", r#""a string""#, "[1,2,3]"] {
        let md = format!("## Steps\n1. **A** - x\n   - input: {value}\n");
        assert_round_trips(&md);
    }
}

#[test]
fn a_bare_string_fragment_round_trips() {
    let md = "## Steps\n1. **A** - x\n   - input: not json at all\n";
    let steps = assert_round_trips(md);
    assert_eq!(
        steps[0].schema.as_ref().unwrap().input.as_deref(),
        Some(r#""not json at all""#)
    );
}

#[test]
fn multiple_calls_round_trip_in_order() {
    let md = "## Steps\n1. **A** - x\n   - call: {\"tool\":\"shell\"}\n   - call: {\"tool\":\"file_read\"}\n";
    let steps = assert_round_trips(md);
    assert_eq!(steps[0].calls.len(), 2);
    assert_eq!(steps[0].calls[0].tool, "shell");
    assert_eq!(steps[0].calls[1].tool, "file_read");
}

#[test]
fn the_syntax_md_examples_round_trip() {
    assert_round_trips(
        r#"## Steps

1. **Preflight** — Check service health and release window.
   - tools: http_request

2. **Deploy** — Run deployment command.
   - tools: shell
   - requires_confirmation: true
   - policy: prod
   - next: 3
"#,
    );
    assert_round_trips(
        r#"## Steps

1. **Classify event** — Inspect the incoming payload.
   - when: $.steps.1.severity == "critical"
   - next: 2

2. **Prepare summary** — Build the plan.
   - depends_on: 1
   - on_failure: retry:2

3. **Approval gate** — Require approval.
   - kind: checkpoint
   - requires_confirmation: true

4. **Apply remediation** — Execute.
   - tools: shell
   - allow-tools: shell
   - on_failure: goto:5

5. **Notify operator** — Send a notice.
   - tools: http_request
"#,
    );
}

#[test]
fn printing_is_stable() {
    let md = "## Steps\n1. **A** - x\n   - tools: shell\n   - next: 2\n";
    let (steps, _) = parse_steps(md);
    let (a, _) = print_steps(&steps);
    let (b, _) = print_steps(&steps);
    assert_eq!(a, b);
}

#[test]
fn a_body_line_that_looks_like_a_step_is_reported() {
    let step = SopStep {
        number: 1,
        title: "A".into(),
        body: "first\n2024. was a good year".into(),
        ..Default::default()
    };
    let (_, lossy) = print_steps(&[step]);
    assert_eq!(lossy.len(), 1, "{lossy:?}");
    assert_eq!(lossy[0].kind.code(), "lossy_construct");
}

#[test]
fn a_switch_guard_containing_a_separator_is_reported() {
    let step = SopStep {
        number: 1,
        title: "A".into(),
        routing: StepRouting {
            switch: vec![SwitchRule {
                name: "hot".into(),
                when: Some("$.n > 5".into()),
                goto: Some(3),
            }],
            ..Default::default()
        },
        ..Default::default()
    };
    let (_, lossy) = print_steps(&[step]);
    assert_eq!(lossy.len(), 1, "{lossy:?}");
    assert!(lossy[0].message.contains("separator"), "{:?}", lossy[0]);
}

#[test]
fn a_tool_name_containing_a_comma_is_reported() {
    let step = SopStep {
        number: 1,
        title: "A".into(),
        suggested_tools: vec!["a,b".into()],
        ..Default::default()
    };
    let (_, lossy) = print_steps(&[step]);
    assert_eq!(lossy.len(), 1, "{lossy:?}");
}

fn everything() -> SopStep {
    SopStep {
        number: 1,
        title: "Everything".into(),
        body: "line one\nline two".into(),
        suggested_tools: vec!["file_read".into()],
        requires_confirmation: true,
        kind: SopStepKind::Capability,
        schema: Some(StepSchema {
            input: Some(r#"{"type":"object"}"#.into()),
            output: Some(r#"{"type":"string"}"#.into()),
        }),
        scope: Some(StepToolScope { allow: Some(vec!["shell".into()]), deny: vec!["git".into()] }),
        routing: StepRouting {
            when: Some("$.a == 1".into()),
            next: Some(2),
            terminal: true,
            depends_on: vec![1, 2],
            switch: vec![SwitchRule {
                name: "hot".into(),
                when: Some("$.sev".into()),
                goto: Some(3),
            }],
        },
        on_failure: StepFailure::Retry { max: 2 },
        mode: Some(SopExecutionMode::Deterministic),
        calls: vec![PlannedToolCall {
            tool: "shell".into(),
            args: r#"{"cmd":"ls"}"#.into(),
            pinned: None,
        }],
        pos: None,
        agent: Some("bot".into()),
        capability: Some("forge.comment".into()),
        capability_input: Some(r#"{"repo":"o/r"}"#.into()),
        policy: Some("prod".into()),
        gate_prompt: Some("approve?".into()),
        edit: Some("body".into()),
    }
}

#[test]
fn a_hand_built_step_with_every_field_round_trips() {
    let step = everything();
    let (printed, lossy) = print_steps(std::slice::from_ref(&step));
    assert!(lossy.is_empty(), "{lossy:?}");
    let (again, _) = parse_steps(&printed);
    assert_eq!(again.len(), 1);
    assert_eq!(again[0], step, "--- printed ---\n{printed}");
}

#[test]
fn the_printed_form_of_every_field_is_exact() {
    let (printed, _) = print_steps(&[everything()]);
    let expected = [
        "## Steps\n",
        "\n",
        "1. **Everything** - line one\n",
        "   line two\n",
        "   - tools: file_read\n",
        "   - allow-tools: shell\n",
        "   - deny-tools: git\n",
        "   - requires_confirmation: true\n",
        "   - kind: capability\n",
        "   - capability: forge.comment\n",
        "   - with: {\"repo\":\"o/r\"}\n",
        "   - input: {\"type\":\"object\"}\n",
        "   - output: {\"type\":\"string\"}\n",
        "   - when: $.a == 1\n",
        "   - next: 2\n",
        "   - terminal: true\n",
        "   - depends_on: 1, 2\n",
        "   - switch: hot>$.sev>3\n",
        "   - on_failure: retry: 2\n",
        "   - mode: deterministic\n",
        "   - agent: bot\n",
        "   - call: {\"tool\":\"shell\",\"args\":{\"cmd\":\"ls\"}}\n",
        "   - prompt: approve?\n",
        "   - policy: prod\n",
        "   - edit: body\n",
    ]
    .concat();
    assert_eq!(printed, expected);
}

#[test]
fn printing_nothing_writes_only_the_heading() {
    let (printed, lossy) = print_steps(&[]);
    assert_eq!(printed, "## Steps\n");
    assert!(lossy.is_empty());
}

#[test]
fn a_title_with_a_bold_marker_is_reported() {
    let step = SopStep { number: 3, title: "a **b".into(), ..Default::default() };
    let (_, lossy) = print_steps(&[step]);
    assert_eq!(lossy.len(), 1);
    assert_eq!(
        lossy[0].message,
        "`title` will not survive a round trip unchanged: a title containing `**` re-reads as a shorter title"
    );
    assert_eq!(lossy[0].location.to_text(), "SOP.md: step 3");
}

#[test]
fn an_empty_port_name_is_reported() {
    let step = SopStep {
        number: 1,
        title: "A".into(),
        routing: StepRouting {
            switch: vec![SwitchRule { name: String::new(), when: None, goto: None }],
            ..Default::default()
        },
        ..Default::default()
    };
    let (printed, lossy) = print_steps(&[step]);
    assert!(printed.contains("   - switch: >>\n"), "{printed}");
    assert_eq!(lossy.len(), 1);
    assert!(lossy[0].message.contains("empty name"));
}

#[test]
fn a_quoted_tool_name_is_escaped_in_a_call() {
    let step = SopStep {
        number: 1,
        title: "A".into(),
        calls: vec![PlannedToolCall { tool: "a\"b".into(), args: "null".into(), pinned: Some("1".into()) }],
        ..Default::default()
    };
    let (printed, _) = print_steps(std::slice::from_ref(&step));
    assert!(printed.contains(r#"   - call: {"tool":"a\"b","args":null,"pinned":1}"#), "{printed}");
    let (again, _) = parse_steps(&printed);
    assert_eq!(again[0], step);
}

#[test]
fn printing_a_parsed_document_reaches_a_fixed_point_at_once() {
    let md = "## Steps\n3. **A** —   body  \n\n   more\n   - tools: a ,b\n   - on-failure: goto 2\n   - notakey: v\n";
    let (steps, _) = parse_steps(md);
    let (first, _) = print_steps(&steps);
    let (again, _) = parse_steps(&first);
    let (second, _) = print_steps(&again);
    assert_eq!(first, second);
    assert_eq!(steps, again);
}

#[test]
fn a_scope_with_neither_list_survives_a_round_trip() {
    let steps = assert_round_trips("## Steps\n1. **A**\n   - deny-tools:\n");
    let scope = steps[0].scope.as_ref().expect("the bullet opens a scope");
    assert_eq!(scope.allow, None);
    assert!(scope.deny.is_empty());
    let (printed, _) = print_steps(&steps);
    assert!(printed.contains("   - deny-tools:"), "{printed}");
}

#[test]
fn an_allow_list_alone_writes_no_deny_bullet() {
    let steps = assert_round_trips("## Steps\n1. **A**\n   - allow-tools: shell\n");
    let (printed, _) = print_steps(&steps);
    assert!(!printed.contains("deny-tools"), "{printed}");
}

#[test]
fn a_title_ending_in_a_star_is_reported() {
    let (steps, _) = parse_steps("## Steps\n1. Deploy*\n");
    assert_eq!(steps[0].title, "Deploy*");
    let (printed, lossy) = print_steps(&steps);
    assert_eq!(lossy.len(), 1, "{lossy:?}");
    assert_eq!(lossy[0].kind.code(), "lossy_construct");
    assert!(lossy[0].message.contains("ending in `*`"), "{lossy:?}");
    let (again, _) = parse_steps(&printed);
    assert_eq!(again[0].title, "Deploy");
}
