use egeria_adapter_zeroclaw::{
    trigger_keys, Sop, SopExecutionMode, SopMeta, SopPriority, SopAdmissionPolicy, SopStep, SopStepKind,
    SopTrigger, StepFailure, StepRouting,
};

#[test]
fn default_routing_is_recognized_as_default() {
    assert!(StepRouting::default().is_default());
    assert!(!StepRouting { next: Some(3), ..Default::default() }.is_default());
    assert!(!StepRouting { terminal: true, ..Default::default() }.is_default());
}

#[test]
fn webhook_and_cron_are_the_only_variants_without_conditions() {
    let without: Vec<&str> = [
        SopTrigger::Mqtt { topic: "t".into(), condition: None },
        SopTrigger::Webhook { path: "/p".into() },
        SopTrigger::Cron { expression: "* * * * *".into() },
        SopTrigger::Peripheral { board: "b".into(), signal: "s".into(), condition: None },
        SopTrigger::Filesystem { path: "/p".into(), events: vec![], condition: None },
        SopTrigger::Calendar { calendar_source: "c".into(), calendar_ids: vec![], condition: None },
        SopTrigger::Channel { channel: "c".into(), alias: None, condition: None },
        SopTrigger::Manual,
        SopTrigger::Amqp { routing_key: "r".into(), condition: None },
    ]
    .iter()
    .filter(|t| !t.supports_condition())
    .map(|t| t.tag())
    .collect();
    assert_eq!(without, vec!["webhook", "cron"]);
}

#[test]
fn deterministic_overrides_authored_execution_mode() {
    let mut m = SopMeta::new("s", "d");
    m.execution_mode = Some(SopExecutionMode::Auto);
    m.deterministic = true;
    assert_eq!(
        m.effective_execution_mode(SopExecutionMode::Supervised),
        SopExecutionMode::Deterministic
    );

    m.deterministic = false;
    assert_eq!(m.effective_execution_mode(SopExecutionMode::Supervised), SopExecutionMode::Auto);

    m.execution_mode = None;
    assert_eq!(
        m.effective_execution_mode(SopExecutionMode::StepByStep),
        SopExecutionMode::StepByStep
    );
}

#[test]
fn sop_finds_steps_by_number() {
    let mut sop = Sop::new(SopMeta::new("s", "d"));
    sop.steps = vec![
        SopStep { number: 1, title: "First".into(), ..Default::default() },
        SopStep { number: 2, title: "Second".into(), ..Default::default() },
    ];
    assert_eq!(sop.step(2).unwrap().title, "Second");
    assert!(sop.step(3).is_none());
}

#[test]
fn step_finds_the_first_of_duplicate_numbers() {
    let mut sop = Sop::new(SopMeta::new("s", "d"));
    sop.steps = vec![
        SopStep { number: 5, title: "A".into(), ..Default::default() },
        SopStep { number: 5, title: "B".into(), ..Default::default() },
    ];
    assert_eq!(sop.step(5).unwrap().title, "A");
}

#[test]
fn meta_new_sets_the_documented_defaults() {
    let m = SopMeta::new("s", "d");
    assert_eq!(m.name, "s");
    assert_eq!(m.description, "d");
    assert_eq!(m.version, "0.1.0");
    assert_eq!(m.priority, SopPriority::Normal);
    assert_eq!(m.execution_mode, None);
    assert_eq!(m.cooldown_secs, 0);
    assert_eq!(m.max_concurrent, 1);
    assert!(!m.deterministic);
    assert_eq!(m.admission_policy, SopAdmissionPolicy::Parallel);
    assert_eq!(m.max_pending_approvals, 0);
    assert_eq!(m.agent, None);
}

#[test]
fn enum_defaults_match_the_format() {
    assert_eq!(SopPriority::default(), SopPriority::Normal);
    assert_eq!(SopExecutionMode::default(), SopExecutionMode::Supervised);
    assert_eq!(SopAdmissionPolicy::default(), SopAdmissionPolicy::Parallel);
    assert_eq!(SopStepKind::default(), SopStepKind::Execute);
    assert_eq!(StepFailure::default(), StepFailure::Fail);
    assert!(StepFailure::Fail.is_fail());
    assert!(!StepFailure::Retry { max: 1 }.is_fail());
    assert_eq!(SopStepKind::Checkpoint.to_text(), "checkpoint");
}

#[test]
fn every_trigger_has_its_tag() {
    let tags: Vec<&str> = [
        SopTrigger::Mqtt { topic: "t".into(), condition: None },
        SopTrigger::Peripheral { board: "b".into(), signal: "s".into(), condition: None },
        SopTrigger::Filesystem { path: "/p".into(), events: vec![], condition: None },
        SopTrigger::Calendar { calendar_source: "c".into(), calendar_ids: vec![], condition: None },
        SopTrigger::Channel { channel: "c".into(), alias: None, condition: None },
        SopTrigger::Manual,
        SopTrigger::Amqp { routing_key: "r".into(), condition: None },
    ]
    .iter()
    .map(|t| t.tag())
    .collect();
    assert_eq!(tags, vec!["mqtt", "peripheral", "filesystem", "calendar", "channel", "manual", "amqp"]);
    let t = SopTrigger::Channel { channel: "git".into(), alias: Some("main".into()), condition: None };
    assert_eq!(t.duplicate(), t);
}

#[test]
fn every_trigger_lists_condition_exactly_when_it_supports_one() {
    let all = [
        SopTrigger::Mqtt { topic: "t".into(), condition: None },
        SopTrigger::Webhook { path: "/p".into() },
        SopTrigger::Cron { expression: "* * * * *".into() },
        SopTrigger::Peripheral { board: "b".into(), signal: "s".into(), condition: None },
        SopTrigger::Filesystem { path: "/p".into(), events: vec![], condition: None },
        SopTrigger::Calendar { calendar_source: "c".into(), calendar_ids: vec![], condition: None },
        SopTrigger::Channel { channel: "c".into(), alias: None, condition: None },
        SopTrigger::Manual,
        SopTrigger::Amqp { routing_key: "r".into(), condition: None },
    ];
    for t in all.iter() {
        let keys = trigger_keys(t.tag()).expect("every tag has a key list");
        assert_eq!(keys[0], "type");
        if t.tag() == "manual" {
            assert_eq!(keys, vec!["type"]);
        } else {
            assert_eq!(keys.contains(&"condition"), t.supports_condition(), "{}", t.tag());
        }
    }
}
