//! Parsing the `## Steps` section of a `SOP.md` document.
//!
//! The grammar is line-oriented, with no lookahead, no nesting and no
//! recovery: the parser never fails, it only degrades, and it reports with a
//! diagnostic each place where it degrades. Three behaviours look like bugs
//! and are not:
//!
//! * Authored step numbers are discarded; steps are renumbered by position.
//! * Indentation is stripped before anything else, so nesting carries no
//!   meaning.
//! * There is no code-fence awareness.

use vstd::prelude::*;
use crate::diagnostic::{diag, DiagV, Diagnostic, DiagnosticKind, KindV, Location, LocationV};
use crate::grammar::{
    bold_title, bold_title_exec, csv_list, csv_list_exec, execution_mode, execution_mode_exec,
    is_execute_spelling, is_known_mode, numbered_item, numbered_item_exec, planned_call,
    planned_call_exec, quoted, quoted_exec, split_bullet, split_bullet_exec, step_failure,
    step_failure_exec, step_kind, step_kind_exec, switch_rules, switch_rules_exec, u32_list,
    u32_list_exec, value_fragment, value_fragment_exec,
};
use crate::model::{
    default_step, RoutingV, SchemaV, ScopeV, SopStep, SopStepKind, StepFailure, StepSchema,
    StepToolScope, StepV,
};
use crate::text::{
    chars_of, eq_ignore_ascii_case, parse_u32, push_all, slice_of, starts_with, string_of, trim,
    trim_start_matches, trim_vec, vec_eq, vec_eq_ignore_ascii_case, vec_lines, vec_parse_u32,
    vec_starts_with, vec_trim_start_matches, views, lines,
};

verus! {

// ── Bullet effects ──────────────────────────────────────────────

pub open spec fn scope_or_default(s: Option<ScopeV>) -> ScopeV {
    match s {
        Some(x) => x,
        None => ScopeV { allow: None, deny: Seq::empty() },
    }
}

pub open spec fn schema_or_default(s: Option<SchemaV>) -> SchemaV {
    match s {
        Some(x) => x,
        None => SchemaV { input: None, output: None },
    }
}

pub open spec fn nonempty(v: Seq<char>) -> Option<Seq<char>> {
    if v.len() > 0 {
        Some(v)
    } else {
        None
    }
}

/// A malformed-bullet report: the key and the reason.
pub type Problem = (Seq<char>, Seq<char>);

pub open spec fn keep(step: StepV) -> Option<(StepV, Seq<Problem>)> {
    Some((step, Seq::empty()))
}

pub open spec fn with_routing(step: StepV, routing: RoutingV) -> StepV {
    StepV { routing, ..step }
}

/// What a recognized bullet does to the step, with the problems it reports;
/// `None` when the key is not one of the recognized spellings. Keys are
/// matched exactly (case-sensitively).
pub open spec fn bullet_effect(step: StepV, key: Seq<char>, val: Seq<char>) -> Option<
    (StepV, Seq<Problem>),
> {
    if key == "tools"@ {
        keep(StepV { suggested_tools: csv_list(val), ..step })
    } else if key == "allow-tools"@ || key == "allow_tools"@ {
        keep(
            StepV {
                scope: Some(ScopeV { allow: Some(csv_list(val)), ..scope_or_default(step.scope) }),
                ..step
            },
        )
    } else if key == "deny-tools"@ || key == "deny_tools"@ {
        keep(
            StepV {
                scope: Some(ScopeV { deny: csv_list(val), ..scope_or_default(step.scope) }),
                ..step
            },
        )
    } else if key == "requires_confirmation"@ {
        keep(StepV { requires_confirmation: eq_ignore_ascii_case(val, "true"@), ..step })
    } else if key == "kind"@ {
        let k = step_kind(val);
        Some(
            (
                StepV { kind: k, ..step },
                if k == SopStepKind::Execute && !is_execute_spelling(val) {
                    seq![("kind"@, "unknown kind `"@ + val + "`; treated as execute"@)]
                } else {
                    Seq::empty()
                },
            ),
        )
    } else if key == "capability"@ {
        keep(StepV { capability: Some(val), ..step })
    } else if key == "with"@ {
        keep(StepV { capability_input: Some(value_fragment(val)), ..step })
    } else if key == "input"@ {
        keep(
            StepV {
                schema: Some(
                    SchemaV { input: Some(value_fragment(val)), ..schema_or_default(step.schema) },
                ),
                ..step
            },
        )
    } else if key == "output"@ {
        keep(
            StepV {
                schema: Some(
                    SchemaV { output: Some(value_fragment(val)), ..schema_or_default(step.schema) },
                ),
                ..step
            },
        )
    } else if key == "when"@ {
        if val.len() > 0 {
            keep(with_routing(step, RoutingV { when: Some(val), ..step.routing }))
        } else {
            keep(step)
        }
    } else if key == "next"@ {
        let parsed = parse_u32(val);
        Some(
            (
                with_routing(step, RoutingV { next: parsed, ..step.routing }),
                if parsed is None && val.len() > 0 {
                    seq![("next"@, "`"@ + val + "` is not a step number"@)]
                } else {
                    Seq::empty()
                },
            ),
        )
    } else if key == "terminal"@ {
        keep(
            with_routing(
                step,
                RoutingV { terminal: eq_ignore_ascii_case(val, "true"@), ..step.routing },
            ),
        )
    } else if key == "depends_on"@ || key == "depends-on"@ {
        let (list, dropped) = u32_list(val);
        Some(
            (
                with_routing(step, RoutingV { depends_on: list, ..step.routing }),
                if dropped.len() > 0 {
                    seq![("depends_on"@, "dropped non-numeric "@ + quoted(dropped))]
                } else {
                    Seq::empty()
                },
            ),
        )
    } else if key == "switch"@ {
        let (rules, problems) = switch_rules(val);
        Some(
            (
                with_routing(step, RoutingV { switch: rules, ..step.routing }),
                problems.map_values(|p: Seq<char>| ("switch"@, p)),
            ),
        )
    } else if key == "on_failure"@ || key == "on-failure"@ {
        let f = step_failure(val);
        Some(
            (
                StepV { on_failure: f, ..step },
                if f == StepFailure::Fail && !eq_ignore_ascii_case(val, "fail"@) {
                    seq![("on_failure"@, "unrecognized policy `"@ + val + "`; treated as fail"@)]
                } else {
                    Seq::empty()
                },
            ),
        )
    } else if key == "mode"@ {
        Some(
            (
                StepV { mode: Some(execution_mode(val)), ..step },
                if !is_known_mode(val) {
                    seq![("mode"@, "unknown mode `"@ + val + "`; treated as supervised"@)]
                } else {
                    Seq::empty()
                },
            ),
        )
    } else if key == "agent"@ {
        keep(StepV { agent: nonempty(val), ..step })
    } else if key == "call"@ {
        match planned_call(val) {
            Ok(c) => keep(StepV { calls: step.calls.push(c), ..step }),
            Err(e) => Some((step, seq![("call"@, e + "; the call is dropped"@)])),
        }
    } else if key == "prompt"@ {
        if val.len() > 0 {
            keep(StepV { gate_prompt: Some(val), ..step })
        } else {
            keep(step)
        }
    } else if key == "policy"@ {
        keep(StepV { policy: nonempty(val), ..step })
    } else if key == "edit"@ {
        keep(StepV { edit: nonempty(val), ..step })
    } else {
        None
    }
}


pub open spec fn problems_view(v: Seq<(Vec<char>, Vec<char>)>) -> Seq<Problem> {
    v.map_values(|p: (Vec<char>, Vec<char>)| (p.0@, p.1@))
}

pub fn key_is(key: &Vec<char>, lit: &str) -> (r: bool)
    ensures
        r == (key@ == lit@),
{
    vec_eq(key, &chars_of(lit))
}

fn one_problem(key: &str, reason: Vec<char>) -> (r: Vec<(Vec<char>, Vec<char>)>)
    ensures
        problems_view(r@) == seq![(key@, reason@)],
{
    let mut v = Vec::new();
    v.push((chars_of(key), reason));
    assert(problems_view(v@) =~= seq![(key@, reason@)]);
    v
}

fn no_problems() -> (r: Vec<(Vec<char>, Vec<char>)>)
    ensures
        problems_view(r@) == Seq::<Problem>::empty(),
{
    let v: Vec<(Vec<char>, Vec<char>)> = Vec::new();
    assert(problems_view(v@) =~= Seq::<Problem>::empty());
    v
}

/// `lit + val + lit2`.
fn framed(a: &str, val: &Vec<char>, b: &str) -> (r: Vec<char>)
    ensures
        r@ == a@ + val@ + b@,
{
    let mut r = chars_of(a);
    push_all(&mut r, val);
    push_all(&mut r, &chars_of(b));
    r
}

fn opt_string(val: &Vec<char>) -> (r: Option<String>)
    ensures
        r.deep_view() == nonempty(val@),
{
    if val.len() > 0 {
        Some(string_of(val))
    } else {
        None
    }
}

/// Tool-list bullets (`tools`, `allow-tools`, `deny-tools` and their
/// spellings).
fn apply_tools(step: &mut SopStep, key: &Vec<char>, val: &Vec<char>) -> (r: bool)
    ensures
        r ==> bullet_effect(old(step)@, key@, val@) == Some(
            (final(step)@, Seq::<Problem>::empty()),
        ),
        !r ==> final(step)@ == old(step)@ && !(key@ == "tools"@ || key@ == "allow-tools"@
            || key@ == "allow_tools"@ || key@ == "deny-tools"@ || key@ == "deny_tools"@),
{
    if key_is(key, "tools") {
        step.suggested_tools = csv_list_exec(val);
        assert(final(step)@ =~= StepV { suggested_tools: csv_list(val@), ..old(step)@ });
        true
    } else if key_is(key, "allow-tools") || key_is(key, "allow_tools") {
        let list = csv_list_exec(val);
        let mut sc = match step.scope.take() {
            Some(sc) => sc,
            None => StepToolScope::default(),
        };
        sc.allow = Some(list);
        step.scope = Some(sc);
        assert(final(step)@ =~= StepV {
            scope: Some(
                ScopeV { allow: Some(csv_list(val@)), ..scope_or_default(old(step)@.scope) },
            ),
            ..old(step)@
        });
        true
    } else if key_is(key, "deny-tools") || key_is(key, "deny_tools") {
        let list = csv_list_exec(val);
        let mut sc = match step.scope.take() {
            Some(sc) => sc,
            None => StepToolScope::default(),
        };
        sc.deny = list;
        step.scope = Some(sc);
        assert(final(step)@ =~= StepV {
            scope: Some(ScopeV { deny: csv_list(val@), ..scope_or_default(old(step)@.scope) }),
            ..old(step)@
        });
        true
    } else {
        false
    }
}

/// Flag, kind and plain-text bullets.
fn apply_plain(step: &mut SopStep, key: &Vec<char>, val: &Vec<char>) -> (r: Option<
    Vec<(Vec<char>, Vec<char>)>,
>)
    requires
        !(key@ == "tools"@ || key@ == "allow-tools"@ || key@ == "allow_tools"@ || key@
            == "deny-tools"@ || key@ == "deny_tools"@),
    ensures
        match r {
            Some(ps) => bullet_effect(old(step)@, key@, val@) == Some(
                (final(step)@, problems_view(ps@)),
            ),
            None => final(step)@ == old(step)@ && !(key@ == "requires_confirmation"@ || key@
                == "kind"@ || key@ == "capability"@ || key@ == "with"@ || key@ == "input"@
                || key@ == "output"@),
        },
{
    if key_is(key, "requires_confirmation") {
        step.requires_confirmation = vec_eq_ignore_ascii_case(val, &chars_of("true"));
        assert(final(step)@ =~= StepV {
            requires_confirmation: eq_ignore_ascii_case(val@, "true"@),
            ..old(step)@
        });
        Some(no_problems())
    } else if key_is(key, "kind") {
        let k = step_kind_exec(val);
        let is_exec = vec_eq_ignore_ascii_case(&trim_vec(val), &chars_of("execute"));
        step.kind = k;
        assert(final(step)@ =~= StepV { kind: k, ..old(step)@ });
        if k == SopStepKind::Execute && !is_exec {
            Some(one_problem("kind", framed("unknown kind `", val, "`; treated as execute")))
        } else {
            Some(no_problems())
        }
    } else if key_is(key, "capability") {
        step.capability = Some(string_of(val));
        assert(final(step)@ =~= StepV { capability: Some(val@), ..old(step)@ });
        Some(no_problems())
    } else if key_is(key, "with") {
        step.capability_input = Some(value_fragment_exec(val));
        assert(final(step)@ =~= StepV {
            capability_input: Some(value_fragment(val@)),
            ..old(step)@
        });
        Some(no_problems())
    } else if key_is(key, "input") || key_is(key, "output") {
        let is_input = key_is(key, "input");
        let v = value_fragment_exec(val);
        let mut sc = match step.schema.take() {
            Some(sc) => sc,
            None => StepSchema { input: None, output: None },
        };
        if is_input {
            sc.input = Some(v);
        } else {
            sc.output = Some(v);
        }
        step.schema = Some(sc);
        if is_input {
            assert(final(step)@ =~= StepV {
                schema: Some(
                    SchemaV {
                        input: Some(value_fragment(val@)),
                        ..schema_or_default(old(step)@.schema)
                    },
                ),
                ..old(step)@
            });
        } else {
            assert(final(step)@ =~= StepV {
                schema: Some(
                    SchemaV {
                        output: Some(value_fragment(val@)),
                        ..schema_or_default(old(step)@.schema)
                    },
                ),
                ..old(step)@
            });
        }
        Some(no_problems())
    } else {
        None
    }
}

/// Routing bullets.
fn apply_routing(step: &mut SopStep, key: &Vec<char>, val: &Vec<char>) -> (r: Option<
    Vec<(Vec<char>, Vec<char>)>,
>)
    requires
        !(key@ == "tools"@ || key@ == "allow-tools"@ || key@ == "allow_tools"@ || key@
            == "deny-tools"@ || key@ == "deny_tools"@),
        !(key@ == "requires_confirmation"@ || key@ == "kind"@ || key@ == "capability"@ || key@
            == "with"@ || key@ == "input"@ || key@ == "output"@),
    ensures
        match r {
            Some(ps) => bullet_effect(old(step)@, key@, val@) == Some(
                (final(step)@, problems_view(ps@)),
            ),
            None => final(step)@ == old(step)@ && !(key@ == "when"@ || key@ == "next"@ || key@
                == "terminal"@ || key@ == "depends_on"@ || key@ == "depends-on"@ || key@
                == "switch"@),
        },
{
    if key_is(key, "when") {
        if val.len() > 0 {
            step.routing.when = Some(string_of(val));
        }
        assert(final(step)@ =~= if val@.len() > 0 {
            with_routing(old(step)@, RoutingV { when: Some(val@), ..old(step)@.routing })
        } else {
            old(step)@
        });
        Some(no_problems())
    } else if key_is(key, "next") {
        let parsed = vec_parse_u32(val);
        step.routing.next = parsed;
        assert(final(step)@ =~= with_routing(
            old(step)@,
            RoutingV { next: parse_u32(val@), ..old(step)@.routing },
        ));
        if parsed.is_none() && val.len() > 0 {
            Some(one_problem("next", framed("`", val, "` is not a step number")))
        } else {
            Some(no_problems())
        }
    } else if key_is(key, "terminal") {
        step.routing.terminal = vec_eq_ignore_ascii_case(val, &chars_of("true"));
        assert(final(step)@ =~= with_routing(
            old(step)@,
            RoutingV { terminal: eq_ignore_ascii_case(val@, "true"@), ..old(step)@.routing },
        ));
        Some(no_problems())
    } else if key_is(key, "depends_on") || key_is(key, "depends-on") {
        let (list, dropped) = u32_list_exec(val);
        let has_dropped = dropped.len() > 0;
        let reason = if has_dropped {
            let mut r = chars_of("dropped non-numeric ");
            push_all(&mut r, &quoted_exec(&dropped));
            r
        } else {
            Vec::new()
        };
        step.routing.depends_on = list;
        assert(final(step)@ =~= with_routing(
            old(step)@,
            RoutingV { depends_on: u32_list(val@).0, ..old(step)@.routing },
        ));
        if has_dropped {
            Some(one_problem("depends_on", reason))
        } else {
            Some(no_problems())
        }
    } else if key_is(key, "switch") {
        let (rules, problems) = switch_rules_exec(val);
        step.routing.switch = rules;
        assert(final(step)@ =~= with_routing(
            old(step)@,
            RoutingV { switch: switch_rules(val@).0, ..old(step)@.routing },
        ));
        let mut ps: Vec<(Vec<char>, Vec<char>)> = Vec::new();
        let ghost pv = views(problems@);
        let mut k: usize = 0;
        while k < problems.len()
            invariant
                pv == views(problems@),
                k <= pv.len(),
                ps@.len() == k,
                forall|m: int|
                    0 <= m < k ==> (#[trigger] ps@[m]).0@ == "switch"@ && ps@[m].1@ == pv[m],
            decreases pv.len() - k,
        {
            ps.push((chars_of("switch"), slice_of(&problems[k], 0, problems[k].len())));
            assert(problems[k as int]@.subrange(0, problems[k as int]@.len() as int)
                =~= problems[k as int]@);
            k = k + 1;
        }
        assert(problems_view(ps@) =~= pv.map_values(|p: Seq<char>| ("switch"@, p)));
        Some(ps)
    } else {
        None
    }
}

/// Failure, mode, agent, call and approval bullets.
fn apply_rest(step: &mut SopStep, key: &Vec<char>, val: &Vec<char>) -> (r: Option<
    Vec<(Vec<char>, Vec<char>)>,
>)
    requires
        !(key@ == "tools"@ || key@ == "allow-tools"@ || key@ == "allow_tools"@ || key@
            == "deny-tools"@ || key@ == "deny_tools"@),
        !(key@ == "requires_confirmation"@ || key@ == "kind"@ || key@ == "capability"@ || key@
            == "with"@ || key@ == "input"@ || key@ == "output"@),
        !(key@ == "when"@ || key@ == "next"@ || key@ == "terminal"@ || key@ == "depends_on"@
            || key@ == "depends-on"@ || key@ == "switch"@),
    ensures
        match r {
            Some(ps) => bullet_effect(old(step)@, key@, val@) == Some(
                (final(step)@, problems_view(ps@)),
            ),
            None => final(step)@ == old(step)@ && bullet_effect(old(step)@, key@, val@) is None,
        },
{
    if key_is(key, "on_failure") || key_is(key, "on-failure") {
        let f = step_failure_exec(val);
        let is_fail_word = vec_eq_ignore_ascii_case(val, &chars_of("fail"));
        step.on_failure = f;
        assert(final(step)@ =~= StepV { on_failure: f, ..old(step)@ });
        if f.is_fail() && !is_fail_word {
            Some(one_problem("on_failure", framed("unrecognized policy `", val, "`; treated as fail")))
        } else {
            Some(no_problems())
        }
    } else if key_is(key, "mode") {
        let (m, known) = execution_mode_exec(val);
        step.mode = Some(m);
        assert(final(step)@ =~= StepV { mode: Some(execution_mode(val@)), ..old(step)@ });
        if !known {
            Some(one_problem("mode", framed("unknown mode `", val, "`; treated as supervised")))
        } else {
            Some(no_problems())
        }
    } else if key_is(key, "agent") {
        step.agent = opt_string(val);
        assert(final(step)@ =~= StepV { agent: nonempty(val@), ..old(step)@ });
        Some(no_problems())
    } else if key_is(key, "call") {
        match planned_call_exec(val) {
            Ok(c) => {
                let ghost before = old(step)@.calls;
                step.calls.push(c);
                assert(step.calls.deep_view() =~= before.push(c@));
                assert(final(step)@ =~= StepV { calls: before.push(c@), ..old(step)@ });
                Some(no_problems())
            },
            Err(e) => {
                let mut reason = e;
                push_all(&mut reason, &chars_of("; the call is dropped"));
                Some(one_problem("call", reason))
            },
        }
    } else if key_is(key, "prompt") {
        if val.len() > 0 {
            step.gate_prompt = Some(string_of(val));
        }
        assert(final(step)@ =~= if val@.len() > 0 {
            StepV { gate_prompt: Some(val@), ..old(step)@ }
        } else {
            old(step)@
        });
        Some(no_problems())
    } else if key_is(key, "policy") {
        step.policy = opt_string(val);
        assert(final(step)@ =~= StepV { policy: nonempty(val@), ..old(step)@ });
        Some(no_problems())
    } else if key_is(key, "edit") {
        step.edit = opt_string(val);
        assert(final(step)@ =~= StepV { edit: nonempty(val@), ..old(step)@ });
        Some(no_problems())
    } else {
        None
    }
}

/// Apply a bullet's key and (trimmed) value to a step. `None`, with the step
/// unchanged, when the key is not recognized.
pub fn apply_key(step: &mut SopStep, key: &Vec<char>, val: &Vec<char>) -> (r: Option<
    Vec<(Vec<char>, Vec<char>)>,
>)
    ensures
        match r {
            Some(ps) => bullet_effect(old(step)@, key@, val@) == Some(
                (final(step)@, problems_view(ps@)),
            ),
            None => final(step)@ == old(step)@ && bullet_effect(old(step)@, key@, val@) is None,
        },
{
    if apply_tools(step, key, val) {
        return Some(no_problems());
    }
    match apply_plain(step, key, val) {
        Some(ps) => {
            return Some(ps);
        },
        None => {},
    }
    match apply_routing(step, key, val) {
        Some(ps) => {
            return Some(ps);
        },
        None => {},
    }
    apply_rest(step, key, val)
}


// ── The line machine ────────────────────────────────────────────

/// The parser's state between lines.
pub struct ParseState {
    /// Finished steps, renumbered by position.
    pub steps: Seq<StepV>,
    pub diags: Seq<DiagV>,
    /// The step under construction.
    pub current: Option<StepV>,
    /// Whether the lines are inside the `## Steps` section.
    pub in_section: bool,
    /// Step numbers as the author wrote them, in file order.
    pub written: Seq<u32>,
}

pub open spec fn initial_state() -> ParseState {
    ParseState {
        steps: Seq::empty(),
        diags: Seq::empty(),
        current: None,
        in_section: false,
        written: Seq::empty(),
    }
}

/// Close the open step, trimming its body as a whole (the title is not).
pub open spec fn flushed(st: ParseState) -> ParseState {
    match st.current {
        Some(step) => ParseState {
            steps: st.steps.push(StepV { body: trim(step.body), ..step }),
            current: None,
            ..st
        },
        None => st,
    }
}

/// Positional numbering from 1, saturating at `u32::MAX`.
pub open spec fn next_number(len: nat) -> u32 {
    if len < u32::MAX {
        (len + 1) as u32
    } else {
        u32::MAX
    }
}

/// The step a numbered item opens: the bold title and what follows it, or
/// the whole remainder as the title.
pub open spec fn new_step(number: u32, rest: Seq<char>) -> StepV {
    match bold_title(rest) {
        Some((t, b)) => StepV { number, title: t, body: b, ..default_step() },
        None => StepV { number, title: rest, ..default_step() },
    }
}

/// Append a line to the open step's body, newline-separated.
pub open spec fn pushed_body(st: ParseState, text: Seq<char>) -> ParseState {
    match st.current {
        Some(step) => ParseState {
            current: Some(
                StepV {
                    body: if step.body.len() == 0 {
                        text
                    } else {
                        step.body + seq!['\n'] + text
                    },
                    ..step
                },
            ),
            ..st
        },
        None => st,
    }
}

pub open spec fn current_number(st: ParseState) -> u32 {
    match st.current {
        Some(s) => s.number,
        None => 0,
    }
}

pub open spec fn step_location(st: ParseState, line_no: nat) -> LocationV {
    LocationV::Step { number: current_number(st), line: Some(line_no as usize) }
}

pub open spec fn malformed_diag(p: Problem, loc: LocationV) -> DiagV {
    diag(KindV::MalformedBullet { key: p.0, reason: p.1 }, loc)
}

/// A recognized bullet applied to the open step, with its reports; `None`
/// when the bullet is not recognized.
pub open spec fn bullet_applied(st: ParseState, bullet: Seq<char>, line_no: nat) -> Option<
    ParseState,
> {
    match split_bullet(bullet) {
        None => None,
        Some((key, value)) => match st.current {
            None => None,
            Some(step) => match bullet_effect(step, key, trim(value)) {
                None => None,
                Some((s2, problems)) => Some(
                    ParseState {
                        current: Some(s2),
                        diags: st.diags + problems.map_values(
                            |p: Problem| malformed_diag(p, step_location(st, line_no)),
                        ),
                        ..st
                    },
                ),
            },
        },
    }
}

/// What applying a bullet to the open step keeps: the finished steps, the
/// numbers written, whether the lines are in the steps section, and the
/// step's number, title and body; the diagnostics only grow, and each one
/// added points at the step and the bullet's line.
pub open spec fn bullet_frame(st: ParseState, s2: ParseState, line_no: nat) -> bool {
    &&& st.current is Some
    &&& s2.steps == st.steps
    &&& s2.written == st.written
    &&& s2.in_section == st.in_section
    &&& s2.current matches Some(c) && c.number == st.current->0.number && c.title
        == st.current->0.title && c.body == st.current->0.body
    &&& s2.diags.take(st.diags.len() as int) == st.diags
    &&& forall|k: int|
        st.diags.len() <= k < s2.diags.len() ==> (#[trigger] s2.diags[k]).location
            == LocationV::Step { number: st.current->0.number, line: Some(line_no as usize) }
}

/// One line of the document.
pub open spec fn process_line(st: ParseState, line: Seq<char>, line_no: nat) -> ParseState {
    let t = trim(line);
    if starts_with(t, "## "@) {
        if eq_ignore_ascii_case(t, "## steps"@) {
            // A second `## Steps` does not close the open step.
            ParseState { in_section: true, ..st }
        } else if st.in_section {
            ParseState { in_section: false, ..flushed(st) }
        } else {
            st
        }
    } else if !st.in_section {
        st
    } else {
        match numbered_item(t) {
            Some((written, rest)) => {
                let f = flushed(st);
                ParseState {
                    written: f.written.push(written),
                    current: Some(new_step(next_number(f.steps.len()), rest)),
                    ..f
                }
            },
            None => if st.current is Some && starts_with(t, "- "@) {
                let bullet = trim(trim_start_matches(t, "- "@));
                match bullet_applied(st, bullet, line_no) {
                    Some(s2) => s2,
                    None => pushed_body(
                        ParseState {
                            diags: st.diags.push(
                                diag(
                                    KindV::UnrecognizedBullet { text: bullet },
                                    step_location(st, line_no),
                                ),
                            ),
                            ..st
                        },
                        t,
                    ),
                }
            } else if st.current is Some && t.len() > 0 {
                pushed_body(st, t)
            } else {
                st
            },
        }
    }
}

/// The lines, numbered from `first_no`.
pub open spec fn run_lines(st: ParseState, ls: Seq<Seq<char>>, first_no: nat) -> ParseState
    decreases ls.len(),
{
    if ls.len() == 0 {
        st
    } else {
        run_lines(process_line(st, ls[0], first_no), ls.drop_first(), first_no + 1)
    }
}

pub open spec fn irregular(written: Seq<u32>) -> bool {
    exists|i: int| 0 <= i < written.len() && written[i] as int != i + 1
}

/// The finished steps and diagnostics, with a note when the written numbers
/// are not a gapless ascending run from 1.
pub open spec fn finished(st: ParseState) -> (Seq<StepV>, Seq<DiagV>) {
    if irregular(st.written) {
        (
            st.steps,
            st.diags.push(
                diag(
                    KindV::NumberingIrregularity { written: st.written },
                    LocationV::Document { line: None },
                ),
            ),
        )
    } else {
        (st.steps, st.diags)
    }
}

/// What `parse_steps` returns for a document.
pub open spec fn parse_steps_spec(md: Seq<char>) -> (Seq<StepV>, Seq<DiagV>) {
    finished(flushed(run_lines(initial_state(), lines(md), 1)))
}

struct Parser {
    steps: Vec<SopStep>,
    diagnostics: Vec<Diagnostic>,
    current: Option<SopStep>,
    in_section: bool,
    written: Vec<u32>,
}

impl View for Parser {
    type V = ParseState;

    closed spec fn view(&self) -> ParseState {
        ParseState {
            steps: self.steps.deep_view(),
            diags: self.diagnostics.deep_view(),
            current: self.current.deep_view(),
            in_section: self.in_section,
            written: self.written@,
        }
    }
}

impl Parser {
    fn flush(&mut self)
        ensures
            final(self)@ == flushed(old(self)@),
    {
        match self.current.take() {
            Some(mut step) => {
                let b = trim_vec(&chars_of(step.body.as_str()));
                step.body = string_of(&b);
                let ghost before = self.steps.deep_view();
                self.steps.push(step);
                assert(self.steps.deep_view() =~= before.push(
                    StepV { body: trim(old(self)@.current->0.body), ..old(self)@.current->0 },
                ));
            },
            None => {},
        }
    }

    fn push_body(&mut self, text: &Vec<char>)
        ensures
            final(self)@ == pushed_body(old(self)@, text@),
    {
        match self.current.take() {
            Some(mut step) => {
                let ghost s0 = step@;
                let mut b = chars_of(step.body.as_str());
                if b.len() > 0 {
                    b.push('\n');
                }
                push_all(&mut b, text);
                assert(b@ =~= if s0.body.len() == 0 {
                    text@
                } else {
                    s0.body + seq!['\n'] + text@
                });
                step.body = string_of(&b);
                assert(step@ =~= StepV { body: b@, ..s0 });
                self.current = Some(step);
                assert(self@ =~= pushed_body(old(self)@, text@));
            },
            None => {},
        }
    }

    fn location(&self, line_no: usize) -> (r: Location)
        ensures
            r@ == step_location(self@, line_no as nat),
    {
        let number = match &self.current {
            Some(p) => p.number,
            None => 0,
        };
        Location::Step { number, line: Some(line_no) }
    }

    fn push_diag(&mut self, d: Diagnostic)
        ensures
            final(self)@ == (ParseState { diags: old(self)@.diags.push(d@), ..old(self)@ }),
    {
        let ghost before = self.diagnostics.deep_view();
        self.diagnostics.push(d);
        assert(self.diagnostics.deep_view() =~= before.push(d@));
    }

    /// A recognized bullet, applied; `false` and no change otherwise.
    fn apply_bullet(&mut self, bullet: &Vec<char>, line_no: usize) -> (r: bool)
        ensures
            match bullet_applied(old(self)@, bullet@, line_no as nat) {
                Some(s2) => r && final(self)@ == s2,
                None => !r && final(self)@ == old(self)@,
            },
            r ==> bullet_frame(old(self)@, final(self)@, line_no as nat),
    {
        proof {
            if old(self)@.current is Some {
                crate::parsed::lemma_bullet_keeps_the_rest(old(self)@, bullet@, line_no as nat);
            }
        }
        let (key, value) = match split_bullet_exec(bullet) {
            Some(kv) => kv,
            None => {
                return false;
            },
        };
        let val = trim_vec(&value);
        let loc0 = self.location(line_no);
        let mut step = match self.current.take() {
            Some(step) => step,
            None => {
                return false;
            },
        };
        let ghost st0 = old(self)@;
        match apply_key(&mut step, &key, &val) {
            None => {
                self.current = Some(step);
                assert(self@ =~= old(self)@);
                false
            },
            Some(problems) => {
                let ghost s2 = step@;
                self.current = Some(step);
                let ghost pv = problems_view(problems@);
                let mut k: usize = 0;
                while k < problems.len()
                    invariant
                        pv == problems_view(problems@),
                        k <= pv.len(),
                        loc0@ == step_location(st0, line_no as nat),
                        self@.current == Some(s2),
                        self@ == (ParseState {
                            current: self@.current,
                            diags: st0.diags + pv.take(k as int).map_values(
                                |p: Problem| malformed_diag(p, step_location(st0, line_no as nat)),
                            ),
                            ..st0
                        }),
                    decreases pv.len() - k,
                {
                    let (pk, pr) = &problems[k];
                    let kind = DiagnosticKind::MalformedBullet {
                        key: string_of(pk),
                        reason: string_of(pr),
                    };
                    let loc = match &loc0 {
                        Location::Step { number, line } => Location::Step {
                            number: *number,
                            line: *line,
                        },
                        Location::Manifest { key_path } => Location::Manifest {
                            key_path: key_path.clone(),
                        },
                        Location::Document { line } => Location::Document { line: *line },
                    };
                    let d = Diagnostic::new(kind, loc);
                    let ghost before = self.diagnostics.deep_view();
                    self.diagnostics.push(d);
                    assert(self.diagnostics.deep_view() =~= before.push(d@));
                    assert(st0.diags + pv.take(k + 1).map_values(
                        |p: Problem| malformed_diag(p, step_location(st0, line_no as nat)),
                    ) =~= (st0.diags + pv.take(k as int).map_values(
                        |p: Problem| malformed_diag(p, step_location(st0, line_no as nat)),
                    )).push(d@));
                    k = k + 1;
                }
                assert(pv.take(pv.len() as int) =~= pv);
                assert(self@ =~= bullet_applied(st0, bullet@, line_no as nat)->0);
                true
            },
        }
    }

    fn process_line(&mut self, line: &Vec<char>, line_no: usize)
        ensures
            final(self)@ == process_line(old(self)@, line@, line_no as nat),
    {
        let t = trim_vec(line);
        if vec_starts_with(&t, &chars_of("## ")) {
            if vec_eq_ignore_ascii_case(&t, &chars_of("## steps")) {
                self.in_section = true;
            } else if self.in_section {
                self.flush();
                self.in_section = false;
            }
            return;
        }
        if !self.in_section {
            return;
        }
        match numbered_item_exec(&t) {
            Some((written, rest)) => {
                self.flush();
                self.written.push(written);
                let n = self.steps.len();
                let number: u32 = if n < 0xFFFF_FFFF {
                    (n + 1) as u32
                } else {
                    0xFFFF_FFFF
                };
                let mut step = SopStep::default();
                step.number = number;
                match bold_title_exec(&rest) {
                    Some((title, body)) => {
                        step.title = string_of(&title);
                        step.body = string_of(&body);
                    },
                    None => {
                        step.title = string_of(&rest);
                    },
                }
                assert(step@ =~= new_step(number, rest@));
                self.current = Some(step);
            },
            None => {
                let has_current = self.current.is_some();
                if has_current && vec_starts_with(&t, &chars_of("- ")) {
                    proof {
                        reveal_strlit("- ");
                    }
                    let bullet = trim_vec(&vec_trim_start_matches(&t, &chars_of("- ")));
                    if self.apply_bullet(&bullet, line_no) {
                        return;
                    }
                    let loc = self.location(line_no);
                    let d = Diagnostic::new(
                        DiagnosticKind::UnrecognizedBullet { text: string_of(&bullet) },
                        loc,
                    );
                    self.push_diag(d);
                    self.push_body(&t);
                } else if has_current && t.len() > 0 {
                    self.push_body(&t);
                }
            },
        }
    }

    fn finish(self) -> (r: (Vec<SopStep>, Vec<Diagnostic>))
        ensures
            (r.0.deep_view(), r.1.deep_view()) == finished(self@),
    {
        let Parser { steps, mut diagnostics, current, in_section, written } = self;
        let ghost w = written@;
        let mut irregular_found = false;
        let mut i: usize = 0;
        while i < written.len()
            invariant
                w == written@,
                i <= w.len(),
                irregular_found == (exists|j: int| 0 <= j < i && w[j] as int != j + 1),
            decreases w.len() - i,
        {
            if written[i] as usize != i + 1 {
                irregular_found = true;
            }
            i = i + 1;
        }
        if irregular_found {
            let d = Diagnostic::new(
                DiagnosticKind::NumberingIrregularity { written },
                Location::Document { line: None },
            );
            let ghost before = diagnostics.deep_view();
            diagnostics.push(d);
            assert(diagnostics.deep_view() =~= before.push(d@));
        }
        (steps, diagnostics)
    }
}

/// Parse the `## Steps` section of a `SOP.md` document.
///
/// Never fails. Steps are returned renumbered from 1 in file order, with
/// diagnostics for the places the format degrades silently.
pub fn parse_steps(markdown: &str) -> (r: (Vec<SopStep>, Vec<Diagnostic>))
    ensures
        (r.0.deep_view(), r.1.deep_view()) == parse_steps_spec(markdown@),
{
    let md = chars_of(markdown);
    let ls = vec_lines(&md);
    let ghost lv = views(ls@);
    let mut p = Parser {
        steps: Vec::new(),
        diagnostics: Vec::new(),
        current: None,
        in_section: false,
        written: Vec::new(),
    };
    assert(p.steps.deep_view() =~= Seq::<StepV>::empty());
    assert(p.diagnostics.deep_view() =~= Seq::<DiagV>::empty());
    assert(p@ =~= initial_state());
    assert(lv.skip(0) =~= lv);
    let mut i: usize = 0;
    while i < ls.len()
        invariant
            lv == views(ls@),
            lv == lines(markdown@),
            i <= lv.len(),
            run_lines(p@, lv.skip(i as int), (i + 1) as nat) == run_lines(
                initial_state(),
                lv,
                1,
            ),
        decreases lv.len() - i,
    {
        assert(lv.skip(i as int)[0] == lv[i as int]);
        assert(lv.skip(i as int).drop_first() =~= lv.skip(i + 1));
        p.process_line(&ls[i], i + 1);
        i = i + 1;
    }
    assert(lv.skip(i as int) =~= Seq::<Seq<char>>::empty());
    p.flush();
    p.finish()
}

} // verus!
