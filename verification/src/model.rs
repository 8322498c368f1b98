//! The SOP file format's data model: enums, step components, steps,
//! triggers, and the procedure as a whole.
//!
//! Two representation choices keep everything here plain data:
//!
//! * A JSON-valued field (`input`, `output`, `with`, a call's `args` and
//!   `pinned`) holds the value's compact JSON text, exactly as `serde_json`
//!   writes it. Equal texts mean equal values, and printing a step writes the
//!   text back unchanged.
//! * A canvas coordinate holds the IEEE-754 bit pattern of the `f64` it
//!   stands for (`f64::to_bits`), so positions are copied and compared
//!   without floating point.

use vstd::prelude::*;

verus! {

// ── Enums ───────────────────────────────────────────────────────

/// Scheduling priority; also gates steps under priority-based execution.
#[derive(Debug, Clone, Copy, PartialEq, Eq, Hash, Structural)]
pub enum SopPriority {
    Low,
    Normal,
    High,
    Critical,
}

impl Default for SopPriority {
    fn default() -> (r: Self)
        ensures
            r == SopPriority::Normal,
    {
        SopPriority::Normal
    }
}

/// How a procedure's steps are driven.
#[derive(Debug, Clone, Copy, PartialEq, Eq, Hash, Structural)]
pub enum SopExecutionMode {
    Auto,
    Supervised,
    StepByStep,
    PriorityBased,
    Deterministic,
}

impl Default for SopExecutionMode {
    fn default() -> (r: Self)
        ensures
            r == SopExecutionMode::Supervised,
    {
        SopExecutionMode::Supervised
    }
}

/// What to do when a trigger fires while the procedure is already running.
#[derive(Debug, Clone, Copy, PartialEq, Eq, Hash, Structural)]
pub enum SopAdmissionPolicy {
    Parallel,
    Hold,
    Coalesce,
    Drop,
}

impl Default for SopAdmissionPolicy {
    fn default() -> (r: Self)
        ensures
            r == SopAdmissionPolicy::Parallel,
    {
        SopAdmissionPolicy::Parallel
    }
}

/// Filesystem events a watch trigger reacts to.
#[derive(Debug, Clone, Copy, PartialEq, Eq, Hash, Structural)]
pub enum FilesystemEventKind {
    Created,
    Modified,
    Deleted,
    Renamed,
}

/// What a step is.
#[derive(Debug, Clone, Copy, PartialEq, Eq, Hash, Structural)]
pub enum SopStepKind {
    Execute,
    Checkpoint,
    Capability,
}

impl Default for SopStepKind {
    fn default() -> (r: Self)
        ensures
            r == SopStepKind::Execute,
    {
        SopStepKind::Execute
    }
}

/// The lowercase spelling of a step kind.
pub open spec fn kind_text(k: SopStepKind) -> Seq<char> {
    match k {
        SopStepKind::Execute => seq!['e', 'x', 'e', 'c', 'u', 't', 'e'],
        SopStepKind::Checkpoint => seq!['c', 'h', 'e', 'c', 'k', 'p', 'o', 'i', 'n', 't'],
        SopStepKind::Capability => seq!['c', 'a', 'p', 'a', 'b', 'i', 'l', 'i', 't', 'y'],
    }
}

impl SopStepKind {
    /// The kind's lowercase spelling, as written in `SOP.md` and `SOP.toml`.
    pub fn text(&self) -> (r: Vec<char>)
        ensures
            r@ == kind_text(*self),
    {
        match self {
            SopStepKind::Execute => vec!['e', 'x', 'e', 'c', 'u', 't', 'e'],
            SopStepKind::Checkpoint => vec!['c', 'h', 'e', 'c', 'k', 'p', 'o', 'i', 'n', 't'],
            SopStepKind::Capability => vec!['c', 'a', 'p', 'a', 'b', 'i', 'l', 'i', 't', 'y'],
        }
    }

    /// The kind's lowercase spelling as a `String` (what `Display` writes).
    pub fn to_text(&self) -> (r: String)
        ensures
            r@ == kind_text(*self),
    {
        let v = self.text();
        crate::text::string_of(&v)
    }
}

// ── Step components ─────────────────────────────────────────────

/// One named output port on a switch step. Ports are evaluated top to
/// bottom; a port with no `when` is the catch-all.
#[derive(Debug, Clone, PartialEq, Eq)]
pub struct SwitchRule {
    /// Port label.
    pub name: String,
    /// Guard expression; `None` makes this the catch-all.
    pub when: Option<String>,
    /// Step this port routes to.
    pub goto: Option<u32>,
}

#[verifier::ext_equal]
pub struct SwitchRuleV {
    pub name: Seq<char>,
    pub when: Option<Seq<char>>,
    pub goto: Option<u32>,
}

impl View for SwitchRule {
    type V = SwitchRuleV;

    open spec fn view(&self) -> SwitchRuleV {
        SwitchRuleV { name: self.name@, when: self.when.deep_view(), goto: self.goto }
    }
}

impl DeepView for SwitchRule {
    type V = SwitchRuleV;

    open spec fn deep_view(&self) -> SwitchRuleV {
        self@
    }
}

/// Where a step goes next.
#[derive(Debug, Clone, PartialEq, Eq)]
pub struct StepRouting {
    /// Guard on this step running at all.
    pub when: Option<String>,
    /// Explicit successor.
    pub next: Option<u32>,
    /// Ends this branch: no implicit fallthrough.
    pub terminal: bool,
    /// Steps that must have completed before this one runs.
    pub depends_on: Vec<u32>,
    /// Ordered switch ports.
    pub switch: Vec<SwitchRule>,
}

#[verifier::ext_equal]
pub struct RoutingV {
    pub when: Option<Seq<char>>,
    pub next: Option<u32>,
    pub terminal: bool,
    pub depends_on: Seq<u32>,
    pub switch: Seq<SwitchRuleV>,
}

impl View for StepRouting {
    type V = RoutingV;

    open spec fn view(&self) -> RoutingV {
        RoutingV {
            when: self.when.deep_view(),
            next: self.next,
            terminal: self.terminal,
            depends_on: self.depends_on@,
            switch: self.switch.deep_view(),
        }
    }
}

pub open spec fn default_routing() -> RoutingV {
    RoutingV {
        when: None,
        next: None,
        terminal: false,
        depends_on: Seq::empty(),
        switch: Seq::empty(),
    }
}

impl Default for StepRouting {
    fn default() -> (r: Self)
        ensures
            r@ == default_routing(),
    {
        StepRouting {
            when: None,
            next: None,
            terminal: false,
            depends_on: Vec::new(),
            switch: Vec::new(),
        }
    }
}

impl StepRouting {
    /// Whether this is entirely default, i.e. plain linear fallthrough.
    pub fn is_default(&self) -> (r: bool)
        ensures
            r == (self@ == default_routing()),
    {
        let r = self.when.is_none() && self.next.is_none() && !self.terminal
            && self.depends_on.len() == 0 && self.switch.len() == 0;
        proof {
            if r {
                assert(self@ =~= default_routing());
            }
            if self@ == default_routing() {
                assert(self.switch.deep_view().len() == self.switch@.len());
                assert(self.depends_on@.len() == 0);
            }
        }
        r
    }
}

/// What happens when a step fails.
#[derive(Debug, Clone, Copy, PartialEq, Eq, Structural)]
pub enum StepFailure {
    /// Fail the run.
    Fail,
    /// Retry this step up to `max` times.
    Retry { max: u32 },
    /// Jump to another step.
    Goto { step: u32 },
}

impl Default for StepFailure {
    fn default() -> (r: Self)
        ensures
            r == StepFailure::Fail,
    {
        StepFailure::Fail
    }
}

impl StepFailure {
    /// Whether this is the default fail-the-run policy.
    pub fn is_fail(&self) -> (r: bool)
        ensures
            r == (*self == StepFailure::Fail),
    {
        match self {
            StepFailure::Fail => true,
            _ => false,
        }
    }
}

/// Typed input and output contracts for a step, each as compact JSON text.
#[derive(Debug, Clone, PartialEq, Eq)]
pub struct StepSchema {
    pub input: Option<String>,
    pub output: Option<String>,
}

#[verifier::ext_equal]
pub struct SchemaV {
    pub input: Option<Seq<char>>,
    pub output: Option<Seq<char>>,
}

impl View for StepSchema {
    type V = SchemaV;

    open spec fn view(&self) -> SchemaV {
        SchemaV { input: self.input.deep_view(), output: self.output.deep_view() }
    }
}

/// Per-step tool allow/deny scope. An absent allow-list differs from an
/// empty one: the first permits everything not denied, the second nothing.
#[derive(Debug, Clone, PartialEq, Eq)]
pub struct StepToolScope {
    pub allow: Option<Vec<String>>,
    pub deny: Vec<String>,
}

#[verifier::ext_equal]
pub struct ScopeV {
    pub allow: Option<Seq<Seq<char>>>,
    pub deny: Seq<Seq<char>>,
}

impl View for StepToolScope {
    type V = ScopeV;

    open spec fn view(&self) -> ScopeV {
        ScopeV { allow: self.allow.deep_view(), deny: self.deny.deep_view() }
    }
}

impl Default for StepToolScope {
    fn default() -> (r: Self)
        ensures
            r@ == (ScopeV { allow: None, deny: Seq::empty() }),
    {
        StepToolScope { allow: None, deny: Vec::new() }
    }
}

/// A tool invocation planned for a step. `args` and `pinned` are compact
/// JSON text.
#[derive(Debug, Clone, PartialEq, Eq)]
pub struct PlannedToolCall {
    pub tool: String,
    /// Argument template (`null` when absent).
    pub args: String,
    /// Pinned sample output.
    pub pinned: Option<String>,
}

#[verifier::ext_equal]
pub struct CallV {
    pub tool: Seq<char>,
    pub args: Seq<char>,
    pub pinned: Option<Seq<char>>,
}

impl View for PlannedToolCall {
    type V = CallV;

    open spec fn view(&self) -> CallV {
        CallV { tool: self.tool@, args: self.args@, pinned: self.pinned.deep_view() }
    }
}

impl DeepView for PlannedToolCall {
    type V = CallV;

    open spec fn deep_view(&self) -> CallV {
        self@
    }
}

/// A step's canvas coordinate, as the bit patterns of two `f64` values.
/// View data, never semantic.
#[derive(Debug, Clone, Copy, PartialEq, Eq, Structural)]
pub struct StepPos {
    pub x: u64,
    pub y: u64,
}

// ── Step ────────────────────────────────────────────────────────

/// A single step.
#[derive(Debug, Clone, PartialEq, Eq)]
pub struct SopStep {
    /// Position within the procedure, 1-based.
    pub number: u32,
    pub title: String,
    /// The instruction body, in Markdown.
    pub body: String,
    /// Advisory tool names.
    pub suggested_tools: Vec<String>,
    /// Pause for confirmation before running.
    pub requires_confirmation: bool,
    pub kind: SopStepKind,
    pub schema: Option<StepSchema>,
    pub scope: Option<StepToolScope>,
    pub routing: StepRouting,
    pub on_failure: StepFailure,
    /// Per-step execution mode override.
    pub mode: Option<SopExecutionMode>,
    pub calls: Vec<PlannedToolCall>,
    /// Canvas coordinate. View data only.
    pub pos: Option<StepPos>,
    /// Agent alias running this step.
    pub agent: Option<String>,
    /// Capability identifier, used when the kind is `capability`.
    pub capability: Option<String>,
    /// Capability arguments (written `with`), as compact JSON text.
    pub capability_input: Option<String>,
    /// Approval policy name.
    pub policy: Option<String>,
    /// Gate-notice template for a human approval step.
    pub gate_prompt: Option<String>,
    /// Field an approver may amend before the run resumes.
    pub edit: Option<String>,
}

#[verifier::ext_equal]
pub struct StepV {
    pub number: u32,
    pub title: Seq<char>,
    pub body: Seq<char>,
    pub suggested_tools: Seq<Seq<char>>,
    pub requires_confirmation: bool,
    pub kind: SopStepKind,
    pub schema: Option<SchemaV>,
    pub scope: Option<ScopeV>,
    pub routing: RoutingV,
    pub on_failure: StepFailure,
    pub mode: Option<SopExecutionMode>,
    pub calls: Seq<CallV>,
    pub pos: Option<StepPos>,
    pub agent: Option<Seq<char>>,
    pub capability: Option<Seq<char>>,
    pub capability_input: Option<Seq<char>>,
    pub policy: Option<Seq<char>>,
    pub gate_prompt: Option<Seq<char>>,
    pub edit: Option<Seq<char>>,
}

pub open spec fn schema_view(s: Option<StepSchema>) -> Option<SchemaV> {
    match s {
        Some(x) => Some(x@),
        None => None,
    }
}

pub open spec fn scope_view(s: Option<StepToolScope>) -> Option<ScopeV> {
    match s {
        Some(x) => Some(x@),
        None => None,
    }
}

impl View for SopStep {
    type V = StepV;

    open spec fn view(&self) -> StepV {
        StepV {
            number: self.number,
            title: self.title@,
            body: self.body@,
            suggested_tools: self.suggested_tools.deep_view(),
            requires_confirmation: self.requires_confirmation,
            kind: self.kind,
            schema: schema_view(self.schema),
            scope: scope_view(self.scope),
            routing: self.routing@,
            on_failure: self.on_failure,
            mode: self.mode,
            calls: self.calls.deep_view(),
            pos: self.pos,
            agent: self.agent.deep_view(),
            capability: self.capability.deep_view(),
            capability_input: self.capability_input.deep_view(),
            policy: self.policy.deep_view(),
            gate_prompt: self.gate_prompt.deep_view(),
            edit: self.edit.deep_view(),
        }
    }
}

impl DeepView for SopStep {
    type V = StepV;

    open spec fn deep_view(&self) -> StepV {
        self@
    }
}

/// A step with every field at its default.
pub open spec fn default_step() -> StepV {
    StepV {
        number: 0,
        title: Seq::empty(),
        body: Seq::empty(),
        suggested_tools: Seq::empty(),
        requires_confirmation: false,
        kind: SopStepKind::Execute,
        schema: None,
        scope: None,
        routing: default_routing(),
        on_failure: StepFailure::Fail,
        mode: None,
        calls: Seq::empty(),
        pos: None,
        agent: None,
        capability: None,
        capability_input: None,
        policy: None,
        gate_prompt: None,
        edit: None,
    }
}

impl Default for SopStep {
    fn default() -> (r: Self)
        ensures
            r@ == default_step(),
    {
        let r = SopStep {
            number: 0,
            title: String::new(),
            body: String::new(),
            suggested_tools: Vec::new(),
            requires_confirmation: false,
            kind: SopStepKind::Execute,
            schema: None,
            scope: None,
            routing: StepRouting::default(),
            on_failure: StepFailure::Fail,
            mode: None,
            calls: Vec::new(),
            pos: None,
            agent: None,
            capability: None,
            capability_input: None,
            policy: None,
            gate_prompt: None,
            edit: None,
        };
        assert(r@ =~= default_step());
        r
    }
}


// ── Copies ──────────────────────────────────────────────────────

/// A copy of an optional string.
pub fn copy_opt(o: &Option<String>) -> (r: Option<String>)
    ensures
        r.deep_view() == o.deep_view(),
{
    match o {
        Some(t) => Some(t.clone()),
        None => None,
    }
}

/// A copy of a list of strings.
pub fn copy_strings(v: &Vec<String>) -> (r: Vec<String>)
    ensures
        r.deep_view() == v.deep_view(),
{
    let mut r: Vec<String> = Vec::new();
    let mut k: usize = 0;
    while k < v.len()
        invariant
            k <= v@.len(),
            r.deep_view() == v.deep_view().take(k as int),
        decreases v@.len() - k,
    {
        let ghost before = r.deep_view();
        r.push(v[k].clone());
        assert(r.deep_view() =~= before.push(v@[k as int]@));
        assert(v.deep_view().take(k + 1) =~= v.deep_view().take(k as int).push(v@[k as int]@));
        k = k + 1;
    }
    assert(v.deep_view().take(v@.len() as int) =~= v.deep_view());
    r
}

// ── Triggers ────────────────────────────────────────────────────

/// What starts a procedure. `webhook` and `cron` are the only variants with
/// no `condition`.
#[derive(Debug, Clone, PartialEq, Eq)]
pub enum SopTrigger {
    /// MQTT message arrival. `+` matches one topic level, `#` the rest.
    Mqtt { topic: String, condition: Option<String> },
    /// Inbound HTTP request on a gateway path.
    Webhook { path: String },
    /// Schedule.
    Cron { expression: String },
    /// Hardware signal from a board.
    Peripheral { board: String, signal: String, condition: Option<String> },
    /// Filesystem change. An empty `events` list matches every event kind.
    Filesystem { path: String, events: Vec<FilesystemEventKind>, condition: Option<String> },
    /// Calendar event.
    Calendar { calendar_source: String, calendar_ids: Vec<String>, condition: Option<String> },
    /// Message on a configured channel.
    Channel { channel: String, alias: Option<String>, condition: Option<String> },
    /// Started by hand.
    Manual,
    /// AMQP message. `*` matches one word, `#` zero or more.
    Amqp { routing_key: String, condition: Option<String> },
}

pub enum TriggerV {
    Mqtt { topic: Seq<char>, condition: Option<Seq<char>> },
    Webhook { path: Seq<char> },
    Cron { expression: Seq<char> },
    Peripheral { board: Seq<char>, signal: Seq<char>, condition: Option<Seq<char>> },
    Filesystem { path: Seq<char>, events: Seq<FilesystemEventKind>, condition: Option<Seq<char>> },
    Calendar { calendar_source: Seq<char>, calendar_ids: Seq<Seq<char>>, condition: Option<Seq<char>> },
    Channel { channel: Seq<char>, alias: Option<Seq<char>>, condition: Option<Seq<char>> },
    Manual,
    Amqp { routing_key: Seq<char>, condition: Option<Seq<char>> },
}

impl View for SopTrigger {
    type V = TriggerV;

    open spec fn view(&self) -> TriggerV {
        match self {
            SopTrigger::Mqtt { topic, condition } => TriggerV::Mqtt {
                topic: topic@,
                condition: condition.deep_view(),
            },
            SopTrigger::Webhook { path } => TriggerV::Webhook { path: path@ },
            SopTrigger::Cron { expression } => TriggerV::Cron { expression: expression@ },
            SopTrigger::Peripheral { board, signal, condition } => TriggerV::Peripheral {
                board: board@,
                signal: signal@,
                condition: condition.deep_view(),
            },
            SopTrigger::Filesystem { path, events, condition } => TriggerV::Filesystem {
                path: path@,
                events: events@,
                condition: condition.deep_view(),
            },
            SopTrigger::Calendar { calendar_source, calendar_ids, condition } => TriggerV::Calendar {
                calendar_source: calendar_source@,
                calendar_ids: calendar_ids.deep_view(),
                condition: condition.deep_view(),
            },
            SopTrigger::Channel { channel, alias, condition } => TriggerV::Channel {
                channel: channel@,
                alias: alias.deep_view(),
                condition: condition.deep_view(),
            },
            SopTrigger::Manual => TriggerV::Manual,
            SopTrigger::Amqp { routing_key, condition } => TriggerV::Amqp {
                routing_key: routing_key@,
                condition: condition.deep_view(),
            },
        }
    }
}

impl DeepView for SopTrigger {
    type V = TriggerV;

    open spec fn deep_view(&self) -> TriggerV {
        self@
    }
}

/// The `type` tag of a trigger, as written in `SOP.toml`.
pub open spec fn trigger_tag(t: TriggerV) -> Seq<char> {
    match t {
        TriggerV::Mqtt { .. } => "mqtt"@,
        TriggerV::Webhook { .. } => "webhook"@,
        TriggerV::Cron { .. } => "cron"@,
        TriggerV::Peripheral { .. } => "peripheral"@,
        TriggerV::Filesystem { .. } => "filesystem"@,
        TriggerV::Calendar { .. } => "calendar"@,
        TriggerV::Channel { .. } => "channel"@,
        TriggerV::Manual => "manual"@,
        TriggerV::Amqp { .. } => "amqp"@,
    }
}

impl SopTrigger {
    /// The `type` tag as it appears in TOML.
    pub fn tag(&self) -> (r: &'static str)
        ensures
            r@ == trigger_tag(self@),
    {
        match self {
            SopTrigger::Mqtt { .. } => "mqtt",
            SopTrigger::Webhook { .. } => "webhook",
            SopTrigger::Cron { .. } => "cron",
            SopTrigger::Peripheral { .. } => "peripheral",
            SopTrigger::Filesystem { .. } => "filesystem",
            SopTrigger::Calendar { .. } => "calendar",
            SopTrigger::Channel { .. } => "channel",
            SopTrigger::Manual => "manual",
            SopTrigger::Amqp { .. } => "amqp",
        }
    }

    /// Whether this variant has a `condition` field at all: every variant
    /// but `webhook` and `cron`.
    pub fn supports_condition(&self) -> (r: bool)
        ensures
            r == !(self@ is Webhook || self@ is Cron),
    {
        match self {
            SopTrigger::Webhook { .. } => false,
            SopTrigger::Cron { .. } => false,
            _ => true,
        }
    }

    /// A copy with the same view.
    pub fn duplicate(&self) -> (r: SopTrigger)
        ensures
            r@ == self@,
    {
        match self {
            SopTrigger::Mqtt { topic, condition } => SopTrigger::Mqtt {
                topic: topic.clone(),
                condition: copy_opt(condition),
            },
            SopTrigger::Webhook { path } => SopTrigger::Webhook { path: path.clone() },
            SopTrigger::Cron { expression } => SopTrigger::Cron { expression: expression.clone() },
            SopTrigger::Peripheral { board, signal, condition } => SopTrigger::Peripheral {
                board: board.clone(),
                signal: signal.clone(),
                condition: copy_opt(condition),
            },
            SopTrigger::Filesystem { path, events, condition } => {
                let mut ev: Vec<FilesystemEventKind> = Vec::new();
                let mut k: usize = 0;
                while k < events.len()
                    invariant
                        k <= events@.len(),
                        ev@ == events@.take(k as int),
                    decreases events@.len() - k,
                {
                    ev.push(events[k]);
                    assert(ev@ =~= events@.take(k + 1));
                    k = k + 1;
                }
                assert(ev@ =~= events@);
                SopTrigger::Filesystem { path: path.clone(), events: ev, condition: copy_opt(condition) }
            },
            SopTrigger::Calendar { calendar_source, calendar_ids, condition } => SopTrigger::Calendar {
                calendar_source: calendar_source.clone(),
                calendar_ids: copy_strings(calendar_ids),
                condition: copy_opt(condition),
            },
            SopTrigger::Channel { channel, alias, condition } => SopTrigger::Channel {
                channel: channel.clone(),
                alias: copy_opt(alias),
                condition: copy_opt(condition),
            },
            SopTrigger::Manual => SopTrigger::Manual,
            SopTrigger::Amqp { routing_key, condition } => SopTrigger::Amqp {
                routing_key: routing_key.clone(),
                condition: copy_opt(condition),
            },
        }
    }
}

// ── Whole procedure ─────────────────────────────────────────────

/// A procedure's canvas coordinate entry, keyed by step number. The
/// coordinates are `f64` bit patterns, as in [`StepPos`].
#[derive(Debug, Clone, Copy, PartialEq, Eq, Structural)]
pub struct StepPosition {
    pub step: u32,
    pub x: u64,
    pub y: u64,
}

/// The `[sop]` table. Only `name` and `description` are required.
#[derive(Debug, Clone, PartialEq, Eq)]
pub struct SopMeta {
    /// Unique procedure name.
    pub name: String,
    /// Free text; never executed.
    pub description: String,
    /// Opaque version string.
    pub version: String,
    pub priority: SopPriority,
    /// Absent means "fall back to the daemon default".
    pub execution_mode: Option<SopExecutionMode>,
    /// Minimum seconds between runs; `0` disables.
    pub cooldown_secs: u64,
    /// Maximum simultaneously executing runs.
    pub max_concurrent: u32,
    /// Opt-in deterministic execution; overrides `execution_mode`.
    pub deterministic: bool,
    pub admission_policy: SopAdmissionPolicy,
    /// Cap on runs parked at an approval; `0` is unlimited.
    pub max_pending_approvals: u32,
    /// Parent agent alias.
    pub agent: Option<String>,
}

#[verifier::ext_equal]
pub struct MetaV {
    pub name: Seq<char>,
    pub description: Seq<char>,
    pub version: Seq<char>,
    pub priority: SopPriority,
    pub execution_mode: Option<SopExecutionMode>,
    pub cooldown_secs: u64,
    pub max_concurrent: u32,
    pub deterministic: bool,
    pub admission_policy: SopAdmissionPolicy,
    pub max_pending_approvals: u32,
    pub agent: Option<Seq<char>>,
}

impl View for SopMeta {
    type V = MetaV;

    open spec fn view(&self) -> MetaV {
        MetaV {
            name: self.name@,
            description: self.description@,
            version: self.version@,
            priority: self.priority,
            execution_mode: self.execution_mode,
            cooldown_secs: self.cooldown_secs,
            max_concurrent: self.max_concurrent,
            deterministic: self.deterministic,
            admission_policy: self.admission_policy,
            max_pending_approvals: self.max_pending_approvals,
            agent: self.agent.deep_view(),
        }
    }
}

/// The execution mode that applies, given the daemon default.
pub open spec fn effective_mode(m: MetaV, daemon_default: SopExecutionMode) -> SopExecutionMode {
    if m.deterministic {
        SopExecutionMode::Deterministic
    } else {
        match m.execution_mode {
            Some(mode) => mode,
            None => daemon_default,
        }
    }
}

impl SopMeta {
    /// A minimal valid manifest table: version `0.1.0`, one concurrent run,
    /// everything else at its default.
    pub fn new(name: &str, description: &str) -> (r: Self)
        ensures
            r@ == (MetaV {
                name: name@,
                description: description@,
                version: "0.1.0"@,
                priority: SopPriority::Normal,
                execution_mode: None,
                cooldown_secs: 0,
                max_concurrent: 1,
                deterministic: false,
                admission_policy: SopAdmissionPolicy::Parallel,
                max_pending_approvals: 0,
                agent: None,
            }),
    {
        SopMeta {
            name: name.to_string(),
            description: description.to_string(),
            version: "0.1.0".to_string(),
            priority: SopPriority::Normal,
            execution_mode: None,
            cooldown_secs: 0,
            max_concurrent: 1,
            deterministic: false,
            admission_policy: SopAdmissionPolicy::Parallel,
            max_pending_approvals: 0,
            agent: None,
        }
    }

    /// The execution mode that actually applies: `deterministic` wins
    /// unconditionally, then the authored mode, then the daemon default.
    pub fn effective_execution_mode(&self, daemon_default: SopExecutionMode) -> (r:
        SopExecutionMode)
        ensures
            r == effective_mode(self@, daemon_default),
    {
        if self.deterministic {
            SopExecutionMode::Deterministic
        } else {
            match self.execution_mode {
                Some(m) => m,
                None => daemon_default,
            }
        }
    }

    /// A copy with the same view.
    pub fn duplicate(&self) -> (r: SopMeta)
        ensures
            r@ == self@,
    {
        SopMeta {
            name: self.name.clone(),
            description: self.description.clone(),
            version: self.version.clone(),
            priority: self.priority,
            execution_mode: self.execution_mode,
            cooldown_secs: self.cooldown_secs,
            max_concurrent: self.max_concurrent,
            deterministic: self.deterministic,
            admission_policy: self.admission_policy,
            max_pending_approvals: self.max_pending_approvals,
            agent: copy_opt(&self.agent),
        }
    }
}

/// The whole of `SOP.toml`. `steps` is consulted only when `SOP.md` is
/// absent.
#[derive(Debug, Clone, PartialEq, Eq)]
pub struct SopManifest {
    pub sop: SopMeta,
    pub triggers: Vec<SopTrigger>,
    /// Persisted canvas coordinates, merged onto steps by number.
    pub positions: Vec<StepPosition>,
    /// Steps, used only when `SOP.md` does not exist.
    pub steps: Vec<SopStep>,
}

impl SopManifest {
    /// A manifest with metadata and nothing else.
    pub fn new(meta: SopMeta) -> (r: Self)
        ensures
            r.sop == meta,
            r.triggers@.len() == 0,
            r.positions@.len() == 0,
            r.steps@.len() == 0,
    {
        SopManifest { sop: meta, triggers: Vec::new(), positions: Vec::new(), steps: Vec::new() }
    }
}

/// A procedure as read: metadata, triggers in authored order, and resolved
/// steps with positions merged onto them.
#[derive(Debug, Clone, PartialEq, Eq)]
pub struct Sop {
    pub meta: SopMeta,
    pub triggers: Vec<SopTrigger>,
    pub steps: Vec<SopStep>,
}

/// The index of the first step carrying `number`.
pub open spec fn first_numbered(steps: Seq<StepV>, number: u32) -> Option<int>
    decreases steps.len(),
{
    if steps.len() == 0 {
        None
    } else {
        match first_numbered(steps.drop_last(), number) {
            Some(i) => Some(i),
            None => if steps.last().number == number {
                Some(steps.len() - 1)
            } else {
                None
            },
        }
    }
}

pub proof fn lemma_first_numbered(steps: Seq<StepV>, number: u32)
    ensures
        first_numbered(steps, number) matches Some(i) ==> 0 <= i < steps.len()
            && steps[i].number == number && forall|j: int|
            0 <= j < i ==> steps[j].number != number,
        first_numbered(steps, number) is None ==> forall|j: int|
            0 <= j < steps.len() ==> steps[j].number != number,
    decreases steps.len(),
{
    if steps.len() > 0 {
        lemma_first_numbered(steps.drop_last(), number);
        assert forall|j: int| 0 <= j < steps.len() - 1 implies steps.drop_last()[j] == steps[j] by {}
    }
}

pub open spec fn steps_view(v: Seq<SopStep>) -> Seq<StepV> {
    v.map_values(|s: SopStep| s@)
}

impl Sop {
    /// A procedure with metadata and no triggers or steps.
    pub fn new(meta: SopMeta) -> (r: Self)
        ensures
            r.meta == meta,
            r.triggers@.len() == 0,
            r.steps@.len() == 0,
    {
        Sop { meta, triggers: Vec::new(), steps: Vec::new() }
    }

    /// The first step carrying `number`, if any.
    pub fn step(&self, number: u32) -> (r: Option<&SopStep>)
        ensures
            match first_numbered(steps_view(self.steps@), number) {
                Some(i) => r == Some(&self.steps@[i]),
                None => r is None,
            },
    {
        let ghost sv = steps_view(self.steps@);
        let mut k: usize = 0;
        while k < self.steps.len()
            invariant
                sv == steps_view(self.steps@),
                k <= sv.len(),
                first_numbered(sv.take(k as int), number) is None,
            decreases sv.len() - k,
        {
            assert(sv.take(k + 1).drop_last() =~= sv.take(k as int));
            if self.steps[k].number == number {
                assert(first_numbered(sv.take(k + 1), number) == Some(k as int));
                proof {
                    lemma_first_numbered_prefix(sv, number, k + 1);
                }
                return Some(&self.steps[k]);
            }
            k = k + 1;
        }
        assert(sv.take(sv.len() as int) =~= sv);
        None
    }
}

/// A prefix that holds the number decides where it first occurs.
pub proof fn lemma_first_numbered_prefix(steps: Seq<StepV>, number: u32, n: int)
    requires
        0 <= n <= steps.len(),
        first_numbered(steps.take(n), number) is Some,
    ensures
        first_numbered(steps, number) == first_numbered(steps.take(n), number),
    decreases steps.len() - n,
{
    if n < steps.len() {
        assert(steps.take(n + 1).drop_last() =~= steps.take(n));
        lemma_first_numbered_prefix(steps, number, n + 1);
    } else {
        assert(steps.take(n) =~= steps);
    }
}
} // verus!
