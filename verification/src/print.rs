//! Writing the step list back out as `SOP.md`.
//!
//! Every bullet key is emitted, once, in the order the parser's key table
//! lists them, with the canonical spellings: hyphens for `allow-tools` and
//! `deny-tools`, underscores for `requires_confirmation`, `depends_on` and
//! `on_failure`, and the space-after-colon form for failure policies.
//! What the format cannot express is reported as a lossy construct rather
//! than written silently.

use vstd::prelude::*;
use crate::diagnostic::{diag, DiagV, Diagnostic, DiagnosticKind, KindV, Location, LocationV};
use crate::grammar::all_digits_exec;
use crate::json::{json_quote, json_quoted};
use crate::model::{
    kind_text, CallV, PlannedToolCall, SopExecutionMode, SopStep, SopStepKind, StepFailure,
    StepV, SwitchRule, SwitchRuleV,
};
use crate::text::{
    all_digits, chars_of, decimal, decimal_vec, find, has_char, join, lines, push_all,
    slice_of, string_of, trim, trim_vec, unlines, vec_find, vec_find_char, vec_join, vec_lines,
    views,
};

verus! {

// ── Bullets ─────────────────────────────────────────────────────

pub open spec fn mode_text(m: SopExecutionMode) -> Seq<char> {
    match m {
        SopExecutionMode::Auto => "auto"@,
        SopExecutionMode::Supervised => "supervised"@,
        SopExecutionMode::StepByStep => "step_by_step"@,
        SopExecutionMode::PriorityBased => "priority_based"@,
        SopExecutionMode::Deterministic => "deterministic"@,
    }
}

pub fn mode_str(m: SopExecutionMode) -> (r: &'static str)
    ensures
        r@ == mode_text(m),
{
    match m {
        SopExecutionMode::Auto => "auto",
        SopExecutionMode::Supervised => "supervised",
        SopExecutionMode::StepByStep => "step_by_step",
        SopExecutionMode::PriorityBased => "priority_based",
        SopExecutionMode::Deterministic => "deterministic",
    }
}

/// `name>when>goto`, with absent parts empty.
pub open spec fn port_text(r: SwitchRuleV) -> Seq<char> {
    r.name + seq!['>'] + match r.when {
        Some(w) => w,
        None => Seq::empty(),
    } + seq!['>'] + match r.goto {
        Some(g) => decimal(g as nat),
        None => Seq::empty(),
    }
}

/// The compact JSON text of a planned call: `tool`, `args`, then `pinned`
/// when present.
pub open spec fn call_text(c: CallV) -> Seq<char> {
    "{\"tool\":"@ + json_quoted(c.tool) + ",\"args\":"@ + c.args + match c.pinned {
        Some(p) => ",\"pinned\":"@ + p,
        None => Seq::empty(),
    } + "}"@
}

/// One bullet's text, without its `- ` marker: `key: value`.
pub open spec fn bullet(key: Seq<char>, value: Seq<char>) -> Seq<char> {
    key + ": "@ + value
}

pub open spec fn push_if(b: Seq<Seq<char>>, cond: bool, l: Seq<char>) -> Seq<Seq<char>> {
    if cond {
        b.push(l)
    } else {
        b
    }
}

pub open spec fn opt_text(o: Option<Seq<char>>) -> Seq<char> {
    match o {
        Some(t) => t,
        None => Seq::empty(),
    }
}

/// Tool-list bullets. A scope with neither list still writes an empty
/// `deny-tools` bullet, so that it reads back as a scope.
pub open spec fn bullets_tools(s: StepV, b: Seq<Seq<char>>) -> Seq<Seq<char>> {
    let b = push_if(
        b,
        s.suggested_tools.len() > 0,
        bullet("tools"@, join(s.suggested_tools, ", "@)),
    );
    match s.scope {
        Some(sc) => {
            let b = match sc.allow {
                Some(a) => b.push(bullet("allow-tools"@, join(a, ", "@))),
                None => b,
            };
            push_if(
                b,
                sc.deny.len() > 0 || sc.allow is None,
                bullet("deny-tools"@, join(sc.deny, ", "@)),
            )
        },
        None => b,
    }
}

/// Confirmation, kind, capability and schema bullets.
pub open spec fn bullets_kind(s: StepV, b: Seq<Seq<char>>) -> Seq<Seq<char>> {
    let b = push_if(b, s.requires_confirmation, bullet("requires_confirmation"@, "true"@));
    let b = push_if(b, s.kind != SopStepKind::Execute, bullet("kind"@, kind_text(s.kind)));
    let b = push_if(b, s.capability is Some, bullet("capability"@, opt_text(s.capability)));
    let b = push_if(b, s.capability_input is Some, bullet("with"@, opt_text(s.capability_input)));
    match s.schema {
        Some(sc) => {
            let b = push_if(b, sc.input is Some, bullet("input"@, opt_text(sc.input)));
            push_if(b, sc.output is Some, bullet("output"@, opt_text(sc.output)))
        },
        None => b,
    }
}

/// Routing bullets.
pub open spec fn bullets_routing(s: StepV, b: Seq<Seq<char>>) -> Seq<Seq<char>> {
    let b = push_if(b, s.routing.when is Some, bullet("when"@, opt_text(s.routing.when)));
    let b = match s.routing.next {
        Some(n) => b.push(bullet("next"@, decimal(n as nat))),
        None => b,
    };
    let b = push_if(b, s.routing.terminal, bullet("terminal"@, "true"@));
    let b = push_if(
        b,
        s.routing.depends_on.len() > 0,
        bullet(
            "depends_on"@,
            join(s.routing.depends_on.map_values(|n: u32| decimal(n as nat)), ", "@),
        ),
    );
    push_if(
        b,
        s.routing.switch.len() > 0,
        bullet("switch"@, join(s.routing.switch.map_values(|r: SwitchRuleV| port_text(r)), "; "@)),
    )
}

/// Failure, mode, agent, call and approval bullets.
pub open spec fn bullets_tail(s: StepV, b: Seq<Seq<char>>) -> Seq<Seq<char>> {
    let b = match s.on_failure {
        StepFailure::Fail => b,
        StepFailure::Retry { max } => b.push(bullet("on_failure"@, "retry: "@ + decimal(max as nat))),
        StepFailure::Goto { step } => b.push(bullet("on_failure"@, "goto: "@ + decimal(step as nat))),
    };
    let b = match s.mode {
        Some(m) => b.push(bullet("mode"@, mode_text(m))),
        None => b,
    };
    let b = push_if(b, s.agent is Some, bullet("agent"@, opt_text(s.agent)));
    let b = b + s.calls.map_values(|c: CallV| bullet("call"@, call_text(c)));
    let b = push_if(b, s.gate_prompt is Some, bullet("prompt"@, opt_text(s.gate_prompt)));
    let b = push_if(b, s.policy is Some, bullet("policy"@, opt_text(s.policy)));
    push_if(b, s.edit is Some, bullet("edit"@, opt_text(s.edit)))
}

/// A step's bullets, without their `- ` markers, in emission order.
pub open spec fn step_bullets(s: StepV) -> Seq<Seq<char>> {
    bullets_tail(s, bullets_routing(s, bullets_kind(s, bullets_tools(s, Seq::empty()))))
}

/// All lines but the first.
pub open spec fn tail_lines(ls: Seq<Seq<char>>) -> Seq<Seq<char>> {
    if ls.len() > 0 {
        ls.drop_first()
    } else {
        Seq::empty()
    }
}

/// The lines of one step: a blank separator, the item line carrying the
/// body's first line, the body's other lines indented, then the bullets.
pub open spec fn step_lines(s: StepV) -> Seq<Seq<char>> {
    let ls = lines(trim(s.body));
    let head = if ls.len() > 0 {
        decimal(s.number as nat) + ". **"@ + s.title + "** - "@ + ls[0]
    } else {
        decimal(s.number as nat) + ". **"@ + s.title + "**"@
    };
    seq![Seq::<char>::empty(), head] + tail_lines(ls).map_values(|l: Seq<char>| "   "@ + l)
        + step_bullets(s).map_values(|b: Seq<char>| "   - "@ + b)
}

pub open spec fn all_step_lines(steps: Seq<StepV>) -> Seq<Seq<char>>
    decreases steps.len(),
{
    if steps.len() == 0 {
        Seq::empty()
    } else {
        all_step_lines(steps.drop_last()) + step_lines(steps.last())
    }
}

/// The lines of the whole `## Steps` section.
pub open spec fn doc_lines(steps: Seq<StepV>) -> Seq<Seq<char>> {
    seq!["## Steps"@] + all_step_lines(steps)
}

// ── Lossy constructs ────────────────────────────────────────────

/// `(construct, detail)` for a value the format cannot carry.
pub type Loss = (Seq<char>, Seq<char>);

pub open spec fn has_sep(s: Seq<char>) -> bool {
    has_char(s, '>') || has_char(s, ';')
}

pub open spec fn port_losses(r: SwitchRuleV) -> Seq<Loss> {
    let l = Seq::<Loss>::empty();
    let l = if r.name.len() == 0 {
        l.push(("switch"@, "a port with an empty name is dropped when re-read"@))
    } else {
        l
    };
    let l = if has_sep(r.name) {
        l.push(("switch"@, "port name `"@ + r.name + "` contains a separator"@))
    } else {
        l
    };
    match r.when {
        Some(w) => if has_sep(w) {
            l.push(
                ("switch"@, "guard `"@ + w + "` contains a separator; the port would be truncated"@),
            )
        } else {
            l
        },
        None => l,
    }
}

pub open spec fn ports_losses(rs: Seq<SwitchRuleV>) -> Seq<Loss>
    decreases rs.len(),
{
    if rs.len() == 0 {
        Seq::empty()
    } else {
        ports_losses(rs.drop_last()) + port_losses(rs.last())
    }
}

/// A line that would read back as a numbered step item.
pub open spec fn looks_numbered(l: Seq<char>) -> bool {
    match find(l, seq!['.', ' ']) {
        Some(dot) => dot > 0 && all_digits(l.take(dot)),
        None => false,
    }
}

pub open spec fn body_losses(ls: Seq<Seq<char>>) -> Seq<Loss>
    decreases ls.len(),
{
    if ls.len() == 0 {
        Seq::empty()
    } else {
        let l = trim(ls.last());
        let rest = body_losses(ls.drop_last());
        if looks_numbered(l) {
            rest.push(("body"@, "the line `"@ + l + "` would re-read as a new step"@))
        } else {
            rest
        }
    }
}

pub open spec fn tool_losses(names: Seq<Seq<char>>) -> Seq<Loss>
    decreases names.len(),
{
    if names.len() == 0 {
        Seq::empty()
    } else {
        let n = names.last();
        let rest = tool_losses(names.drop_last());
        if has_char(n, ',') {
            rest.push(("tools"@, "tool name `"@ + n + "` contains a comma"@))
        } else {
            rest
        }
    }
}

/// Every tool name a step carries: suggested, allowed, denied.
pub open spec fn tool_names(s: StepV) -> Seq<Seq<char>> {
    let scoped = match s.scope {
        Some(sc) => {
            let allowed = match sc.allow {
                Some(a) => a,
                None => Seq::empty(),
            };
            allowed + sc.deny
        },
        None => Seq::empty(),
    };
    s.suggested_tools + scoped
}

/// What of a step cannot survive a round trip.
pub open spec fn step_losses(s: StepV) -> Seq<Loss> {
    ports_losses(s.routing.switch) + title_losses(s.title) + body_losses(tail_lines(lines(trim(s.body)))) + tool_losses(tool_names(s))
}

pub open spec fn has_title_marker(t: Seq<char>) -> bool {
    find(t, seq!['*', '*']) is Some
}

pub open spec fn ends_with_star(t: Seq<char>) -> bool {
    t.len() > 0 && t.last() == '*'
}

/// A title is read back up to the first `**` after the opening bold, so a
/// `**` inside it, or a `*` at its end, shortens it.
pub open spec fn title_losses(t: Seq<char>) -> Seq<Loss> {
    if has_title_marker(t) {
        seq![("title"@, "a title containing `**` re-reads as a shorter title"@)]
    } else if ends_with_star(t) {
        seq![("title"@, "a title ending in `*` re-reads as a shorter title"@)]
    } else {
        Seq::empty()
    }
}

pub open spec fn loss_diags(s: StepV) -> Seq<DiagV> {
    step_losses(s).map_values(
        |l: Loss|
            diag(
                KindV::LossyConstruct { construct: l.0, detail: l.1 },
                LocationV::Step { number: s.number, line: None },
            ),
    )
}

pub open spec fn all_loss_diags(steps: Seq<StepV>) -> Seq<DiagV>
    decreases steps.len(),
{
    if steps.len() == 0 {
        Seq::empty()
    } else {
        all_loss_diags(steps.drop_last()) + loss_diags(steps.last())
    }
}

/// What `print_steps` returns: the markdown and the lossy constructs.
pub open spec fn print_spec(steps: Seq<StepV>) -> (Seq<char>, Seq<DiagV>) {
    (unlines(doc_lines(steps)), all_loss_diags(steps))
}


// ── Printing ────────────────────────────────────────────────────

/// The characters of each string.
pub fn strings_chars(v: &Vec<String>) -> (r: Vec<Vec<char>>)
    ensures
        views(r@) == v.deep_view(),
{
    let mut r: Vec<Vec<char>> = Vec::new();
    let mut k: usize = 0;
    while k < v.len()
        invariant
            k <= v@.len(),
            r@.len() == k,
            forall|m: int| 0 <= m < k ==> (#[trigger] r@[m])@ == v@[m]@,
        decreases v@.len() - k,
    {
        r.push(chars_of(v[k].as_str()));
        k = k + 1;
    }
    assert(views(r@) =~= v.deep_view());
    r
}

fn lit_then(a: &str, b: &Vec<char>) -> (r: Vec<char>)
    ensures
        r@ == a@ + b@,
{
    let mut r = chars_of(a);
    push_all(&mut r, b);
    r
}

fn kv(key: &str, value: &Vec<char>) -> (r: Vec<char>)
    ensures
        r@ == bullet(key@, value@),
{
    let mut r = chars_of(key);
    push_all(&mut r, &chars_of(": "));
    push_all(&mut r, value);
    r
}

fn opt_chars(o: &Option<String>) -> (r: Vec<char>)
    ensures
        r@ == opt_text(o.deep_view()),
{
    match o {
        Some(t) => chars_of(t.as_str()),
        None => Vec::new(),
    }
}

fn port_text_exec(r: &SwitchRule) -> (t: Vec<char>)
    ensures
        t@ == port_text(r@),
{
    let mut t = chars_of(r.name.as_str());
    t.push('>');
    push_all(&mut t, &opt_chars(&r.when));
    t.push('>');
    match r.goto {
        Some(g) => push_all(&mut t, &decimal_vec(g)),
        None => {},
    }
    assert(t@ =~= port_text(r@));
    t
}

pub fn call_text_exec(c: &PlannedToolCall) -> (t: Vec<char>)
    ensures
        t@ == call_text(c@),
{
    let mut t = chars_of("{\"tool\":");
    push_all(&mut t, &chars_of(json_quote(c.tool.as_str()).as_str()));
    push_all(&mut t, &chars_of(",\"args\":"));
    push_all(&mut t, &chars_of(c.args.as_str()));
    match &c.pinned {
        Some(p) => {
            push_all(&mut t, &chars_of(",\"pinned\":"));
            push_all(&mut t, &chars_of(p.as_str()));
        },
        None => {},
    }
    push_all(&mut t, &chars_of("}"));
    assert(t@ =~= call_text(c@));
    t
}

fn push_line(b: &mut Vec<Vec<char>>, l: Vec<char>)
    ensures
        views(final(b)@) == views(old(b)@).push(l@),
{
    b.push(l);
    assert(views(b@) =~= views(old(b)@).push(l@));
}

fn bullets_tools_exec(s: &SopStep, b: &mut Vec<Vec<char>>)
    ensures
        views(final(b)@) == bullets_tools(s@, views(old(b)@)),
{
    if s.suggested_tools.len() > 0 {
        push_line(b, kv("tools", &vec_join(&strings_chars(&s.suggested_tools), &chars_of(", "))));
    }
    match &s.scope {
        Some(sc) => {
            match &sc.allow {
                Some(a) => push_line(b, kv("allow-tools", &vec_join(&strings_chars(a), &chars_of(", ")))),
                None => {},
            }
            if sc.deny.len() > 0 || sc.allow.is_none() {
                push_line(b, kv("deny-tools", &vec_join(&strings_chars(&sc.deny), &chars_of(", "))));
            }
        },
        None => {},
    }
}

fn bullets_kind_exec(s: &SopStep, b: &mut Vec<Vec<char>>)
    ensures
        views(final(b)@) == bullets_kind(s@, views(old(b)@)),
{
    if s.requires_confirmation {
        push_line(b, kv("requires_confirmation", &chars_of("true")));
    }
    if s.kind != SopStepKind::Execute {
        push_line(b, kv("kind", &s.kind.text()));
    }
    if s.capability.is_some() {
        push_line(b, kv("capability", &opt_chars(&s.capability)));
    }
    if s.capability_input.is_some() {
        push_line(b, kv("with", &opt_chars(&s.capability_input)));
    }
    match &s.schema {
        Some(sc) => {
            if sc.input.is_some() {
                push_line(b, kv("input", &opt_chars(&sc.input)));
            }
            if sc.output.is_some() {
                push_line(b, kv("output", &opt_chars(&sc.output)));
            }
        },
        None => {},
    }
}

fn bullets_routing_exec(s: &SopStep, b: &mut Vec<Vec<char>>)
    ensures
        views(final(b)@) == bullets_routing(s@, views(old(b)@)),
{
    if s.routing.when.is_some() {
        push_line(b, kv("when", &opt_chars(&s.routing.when)));
    }
    match s.routing.next {
        Some(n) => push_line(b, kv("next", &decimal_vec(n))),
        None => {},
    }
    if s.routing.terminal {
        push_line(b, kv("terminal", &chars_of("true")));
    }
    if s.routing.depends_on.len() > 0 {
        let mut parts: Vec<Vec<char>> = Vec::new();
        let mut k: usize = 0;
        while k < s.routing.depends_on.len()
            invariant
                k <= s.routing.depends_on@.len(),
                parts@.len() == k,
                forall|m: int|
                    0 <= m < k ==> (#[trigger] parts@[m])@ == decimal(
                        s.routing.depends_on@[m] as nat,
                    ),
            decreases s.routing.depends_on@.len() - k,
        {
            parts.push(decimal_vec(s.routing.depends_on[k]));
            k = k + 1;
        }
        assert(views(parts@) =~= s.routing.depends_on@.map_values(|n: u32| decimal(n as nat)));
        push_line(b, kv("depends_on", &vec_join(&parts, &chars_of(", "))));
    }
    if s.routing.switch.len() > 0 {
        let mut parts: Vec<Vec<char>> = Vec::new();
        let mut k: usize = 0;
        while k < s.routing.switch.len()
            invariant
                k <= s.routing.switch@.len(),
                parts@.len() == k,
                forall|m: int|
                    0 <= m < k ==> (#[trigger] parts@[m])@ == port_text(s.routing.switch@[m]@),
            decreases s.routing.switch@.len() - k,
        {
            parts.push(port_text_exec(&s.routing.switch[k]));
            k = k + 1;
        }
        assert(views(parts@) =~= s.routing.switch.deep_view().map_values(
            |r: SwitchRuleV| port_text(r),
        ));
        push_line(b, kv("switch", &vec_join(&parts, &chars_of("; "))));
    }
}

fn push_call_bullets(calls: &Vec<PlannedToolCall>, b: &mut Vec<Vec<char>>)
    ensures
        views(final(b)@) == views(old(b)@) + calls.deep_view().map_values(
            |c: CallV| bullet("call"@, call_text(c)),
        ),
{
    let ghost before_calls = views(b@);
    let ghost cv = calls.deep_view();
    let mut k: usize = 0;
    while k < calls.len()
        invariant
            cv == calls.deep_view(),
            k <= cv.len(),
            views(b@) == before_calls + cv.take(k as int).map_values(
                |c: CallV| bullet("call"@, call_text(c)),
            ),
        decreases cv.len() - k,
    {
        push_line(b, kv("call", &call_text_exec(&calls[k])));
        assert(cv.take(k + 1) =~= cv.take(k as int).push(cv[k as int]));
        assert(views(b@) =~= before_calls + cv.take(k + 1).map_values(
            |c: CallV| bullet("call"@, call_text(c)),
        ));
        k = k + 1;
    }
    assert(cv.take(cv.len() as int) =~= cv);
}

fn bullets_tail_exec(s: &SopStep, b: &mut Vec<Vec<char>>)
    ensures
        views(final(b)@) == bullets_tail(s@, views(old(b)@)),
{
    match s.on_failure {
        StepFailure::Fail => {},
        StepFailure::Retry { max } => push_line(b, kv("on_failure", &lit_then("retry: ", &decimal_vec(max)))),
        StepFailure::Goto { step } => push_line(b, kv("on_failure", &lit_then("goto: ", &decimal_vec(step)))),
    }
    match s.mode {
        Some(m) => push_line(b, kv("mode", &chars_of(mode_str(m)))),
        None => {},
    }
    if s.agent.is_some() {
        push_line(b, kv("agent", &opt_chars(&s.agent)));
    }
    push_call_bullets(&s.calls, b);
    if s.gate_prompt.is_some() {
        push_line(b, kv("prompt", &opt_chars(&s.gate_prompt)));
    }
    if s.policy.is_some() {
        push_line(b, kv("policy", &opt_chars(&s.policy)));
    }
    if s.edit.is_some() {
        push_line(b, kv("edit", &opt_chars(&s.edit)));
    }
}

fn step_bullets_exec(s: &SopStep) -> (r: Vec<Vec<char>>)
    ensures
        views(r@) == step_bullets(s@),
{
    let mut b: Vec<Vec<char>> = Vec::new();
    assert(views(b@) =~= Seq::<Seq<char>>::empty());
    bullets_tools_exec(s, &mut b);
    bullets_kind_exec(s, &mut b);
    bullets_routing_exec(s, &mut b);
    bullets_tail_exec(s, &mut b);
    b
}

fn step_lines_exec(s: &SopStep) -> (r: Vec<Vec<char>>)
    ensures
        views(r@) == step_lines(s@),
{
    let body = trim_vec(&chars_of(s.body.as_str()));
    let ls = vec_lines(&body);
    let mut out: Vec<Vec<char>> = Vec::new();
    push_line(&mut out, Vec::new());
    let mut head = decimal_vec(s.number);
    push_all(&mut head, &chars_of(". **"));
    push_all(&mut head, &chars_of(s.title.as_str()));
    if ls.len() > 0 {
        push_all(&mut head, &chars_of("** - "));
        push_all(&mut head, &ls[0]);
    } else {
        push_all(&mut head, &chars_of("**"));
    }
    push_line(&mut out, head);
    let ghost lv = views(ls@);
    let ghost prefix = views(out@);
    if ls.len() > 1 {
        let mut k: usize = 1;
        while k < ls.len()
            invariant
                lv == views(ls@),
                1 <= k <= lv.len(),
                views(out@) == prefix + lv.subrange(1, k as int).map_values(
                    |l: Seq<char>| "   "@ + l,
                ),
            decreases lv.len() - k,
        {
            push_line(&mut out, lit_then("   ", &ls[k]));
            assert(lv.subrange(1, k + 1) =~= lv.subrange(1, k as int).push(lv[k as int]));
            assert(views(out@) =~= prefix + lv.subrange(1, k + 1).map_values(
                |l: Seq<char>| "   "@ + l,
            ));
            k = k + 1;
        }
        assert(lv.subrange(1, lv.len() as int) =~= tail_lines(lv));
    } else {
        assert(tail_lines(lv).len() == 0);
        assert(views(out@) =~= prefix + tail_lines(lv).map_values(|l: Seq<char>| "   "@ + l));
    }
    let ghost mid = views(out@);
    assert(mid =~= prefix + tail_lines(lv).map_values(|l: Seq<char>| "   "@ + l));
    let bullets = step_bullets_exec(s);
    let ghost bv = views(bullets@);
    let mut j: usize = 0;
    while j < bullets.len()
        invariant
            bv == views(bullets@),
            j <= bv.len(),
            views(out@) == mid + bv.take(j as int).map_values(|b: Seq<char>| "   - "@ + b),
        decreases bv.len() - j,
    {
        push_line(&mut out, lit_then("   - ", &bullets[j]));
        assert(bv.take(j + 1) =~= bv.take(j as int).push(bv[j as int]));
        assert(views(out@) =~= mid + bv.take(j + 1).map_values(|b: Seq<char>| "   - "@ + b));
        j = j + 1;
    }
    assert(bv.take(bv.len() as int) =~= bv);
    assert(views(out@) =~= step_lines(s@));
    out
}

/// Every line followed by a newline.
pub fn unlines_exec(ls: &Vec<Vec<char>>) -> (r: Vec<char>)
    ensures
        r@ == unlines(views(ls@)),
{
    let ghost lv = views(ls@);
    let mut out: Vec<char> = Vec::new();
    let mut k: usize = 0;
    while k < ls.len()
        invariant
            lv == views(ls@),
            k <= lv.len(),
            out@ == unlines(lv.take(k as int)),
        decreases lv.len() - k,
    {
        push_all(&mut out, &ls[k]);
        out.push('\n');
        proof {
            crate::text::lemma_unlines_append(lv.take(k as int), seq![lv[k as int]]);
            assert(lv.take(k + 1) =~= lv.take(k as int) + seq![lv[k as int]]);
            assert(seq![lv[k as int]].drop_first() =~= Seq::<Seq<char>>::empty());
            assert(unlines(Seq::<Seq<char>>::empty()) =~= Seq::<char>::empty());
            assert(seq![lv[k as int]][0] == lv[k as int]);
            assert(unlines(seq![lv[k as int]]) =~= lv[k as int] + seq!['\n']);
        }
        k = k + 1;
    }
    assert(lv.take(lv.len() as int) =~= lv);
    out
}


// ── Loss detection ──────────────────────────────────────────────

pub open spec fn losses_view(v: Seq<(Vec<char>, Vec<char>)>) -> Seq<Loss> {
    v.map_values(|p: (Vec<char>, Vec<char>)| (p.0@, p.1@))
}

fn push_loss(out: &mut Vec<(Vec<char>, Vec<char>)>, construct: &str, detail: Vec<char>)
    ensures
        losses_view(final(out)@) == losses_view(old(out)@).push((construct@, detail@)),
{
    out.push((chars_of(construct), detail));
    assert(losses_view(out@) =~= losses_view(old(out)@).push((construct@, detail@)));
}

fn has_sep_exec(s: &Vec<char>) -> (r: bool)
    ensures
        r == has_sep(s@),
{
    proof {
        crate::text::lemma_find_char(s@, '>');
        crate::text::lemma_find_char(s@, ';');
    }
    vec_find_char(s, '>').is_some() || vec_find_char(s, ';').is_some()
}

fn port_losses_exec(r: &SwitchRule, out: &mut Vec<(Vec<char>, Vec<char>)>)
    ensures
        losses_view(final(out)@) == losses_view(old(out)@) + port_losses(r@),
{
    let ghost l0 = losses_view(out@);
    let name = chars_of(r.name.as_str());
    if name.len() == 0 {
        push_loss(out, "switch", chars_of("a port with an empty name is dropped when re-read"));
    }
    if has_sep_exec(&name) {
        let mut d = chars_of("port name `");
        push_all(&mut d, &name);
        push_all(&mut d, &chars_of("` contains a separator"));
        push_loss(out, "switch", d);
    }
    match &r.when {
        Some(w) => {
            let wv = chars_of(w.as_str());
            if has_sep_exec(&wv) {
                let mut d = chars_of("guard `");
                push_all(&mut d, &wv);
                push_all(&mut d, &chars_of("` contains a separator; the port would be truncated"));
                push_loss(out, "switch", d);
            }
        },
        None => {},
    }
    assert(losses_view(out@) =~= l0 + port_losses(r@));
}

fn looks_numbered_exec(l: &Vec<char>) -> (r: bool)
    ensures
        r == looks_numbered(l@),
{
    let pat = vec!['.', ' '];
    assert(pat@ =~= seq!['.', ' ']);
    match vec_find(l, &pat) {
        Some(dot) => {
            proof {
                crate::text::lemma_find_from(l@, pat@, 0);
            }
            dot > 0 && all_digits_exec(&slice_of(l, 0, dot))
        },
        None => false,
    }
}

pub fn step_losses_exec(s: &SopStep) -> (r: Vec<(Vec<char>, Vec<char>)>)
    ensures
        losses_view(r@) == step_losses(s@),
{
    let mut out: Vec<(Vec<char>, Vec<char>)> = Vec::new();
    assert(losses_view(out@) =~= Seq::<Loss>::empty());
    let ghost rules = s.routing.switch.deep_view();
    let mut k: usize = 0;
    while k < s.routing.switch.len()
        invariant
            rules == s.routing.switch.deep_view(),
            k <= rules.len(),
            losses_view(out@) == ports_losses(rules.take(k as int)),
        decreases rules.len() - k,
    {
        port_losses_exec(&s.routing.switch[k], &mut out);
        assert(rules.take(k + 1).drop_last() =~= rules.take(k as int));
        k = k + 1;
    }
    assert(rules.take(rules.len() as int) =~= rules);
    let ghost after_ports = losses_view(out@);
    let pat = vec!['*', '*'];
    assert(pat@ =~= seq!['*', '*']);
    let title = chars_of(s.title.as_str());
    if vec_find(&title, &pat).is_some() {
        push_loss(&mut out, "title", chars_of("a title containing `**` re-reads as a shorter title"));
    } else if title.len() > 0 && title[title.len() - 1] == '*' {
        push_loss(&mut out, "title", chars_of("a title ending in `*` re-reads as a shorter title"));
    }
    let ghost after_title = losses_view(out@);
    assert(after_title == ports_losses(rules) + title_losses(s@.title));
    let body = trim_vec(&chars_of(s.body.as_str()));
    let ls = vec_lines(&body);
    let ghost lv = views(ls@);
    if ls.len() > 1 {
        let mut k: usize = 1;
        while k < ls.len()
            invariant
                lv == views(ls@),
                1 <= k <= lv.len(),
                losses_view(out@) == after_title + body_losses(lv.subrange(1, k as int)),
            decreases lv.len() - k,
        {
            let l = trim_vec(&ls[k]);
            assert(lv.subrange(1, k + 1).drop_last() =~= lv.subrange(1, k as int));
            if looks_numbered_exec(&l) {
                let mut d = chars_of("the line `");
                push_all(&mut d, &l);
                push_all(&mut d, &chars_of("` would re-read as a new step"));
                push_loss(&mut out, "body", d);
            }
            k = k + 1;
        }
        assert(lv.subrange(1, lv.len() as int) =~= tail_lines(lv));
    } else {
        assert(tail_lines(lv) =~= Seq::<Seq<char>>::empty());
    }
    tool_losses_exec(&s.suggested_tools, &mut out);
    match &s.scope {
        Some(sc) => {
            match &sc.allow {
                Some(a) => tool_losses_exec(a, &mut out),
                None => {},
            }
            tool_losses_exec(&sc.deny, &mut out);
        },
        None => {},
    }
    proof {
        let sv = s@;
        match sv.scope {
            Some(sc) => {
                let allowed = match sc.allow {
                    Some(a) => a,
                    None => Seq::<Seq<char>>::empty(),
                };
                lemma_tool_losses_concat(allowed, sc.deny);
                lemma_tool_losses_concat(sv.suggested_tools, allowed + sc.deny);
                assert(tool_losses(Seq::<Seq<char>>::empty()) =~= Seq::<Loss>::empty());
            },
            None => {
                lemma_tool_losses_concat(sv.suggested_tools, Seq::empty());
                assert(tool_losses(Seq::<Seq<char>>::empty()) =~= Seq::<Loss>::empty());
            },
        }
    }
    assert(losses_view(out@) =~= step_losses(s@));
    out
}

pub proof fn lemma_tool_losses_concat(a: Seq<Seq<char>>, b: Seq<Seq<char>>)
    ensures
        tool_losses(a + b) == tool_losses(a) + tool_losses(b),
    decreases b.len(),
{
    if b.len() == 0 {
        assert(a + b =~= a);
        assert(tool_losses(a) + tool_losses(b) =~= tool_losses(a));
    } else {
        lemma_tool_losses_concat(a, b.drop_last());
        assert((a + b).drop_last() =~= a + b.drop_last());
        assert((a + b).last() == b.last());
        if has_char(b.last(), ',') {
            assert(tool_losses(a + b) =~= tool_losses(a) + tool_losses(b));
        } else {
            assert(tool_losses(a + b) =~= tool_losses(a) + tool_losses(b));
        }
    }
}

fn tool_losses_exec(names: &Vec<String>, out: &mut Vec<(Vec<char>, Vec<char>)>)
    ensures
        losses_view(final(out)@) == losses_view(old(out)@) + tool_losses(names.deep_view()),
{
    let ghost l0 = losses_view(out@);
    let ghost nv = names.deep_view();
    let mut k: usize = 0;
    while k < names.len()
        invariant
            nv == names.deep_view(),
            k <= nv.len(),
            losses_view(out@) == l0 + tool_losses(nv.take(k as int)),
        decreases nv.len() - k,
    {
        let n = chars_of(names[k].as_str());
        proof {
            crate::text::lemma_find_char(n@, ',');
        }
        assert(nv.take(k + 1).drop_last() =~= nv.take(k as int));
        if vec_find_char(&n, ',').is_some() {
            let mut d = chars_of("tool name `");
            push_all(&mut d, &n);
            push_all(&mut d, &chars_of("` contains a comma"));
            push_loss(out, "tools", d);
        }
        k = k + 1;
    }
    assert(nv.take(nv.len() as int) =~= nv);
}


fn loss_diags_exec(s: &SopStep, out: &mut Vec<Diagnostic>)
    ensures
        final(out).deep_view() == old(out).deep_view() + loss_diags(s@),
{
    let ghost d0 = out.deep_view();
    let losses = step_losses_exec(s);
    let ghost lv = losses_view(losses@);
    let mut k: usize = 0;
    while k < losses.len()
        invariant
            lv == losses_view(losses@),
            lv == step_losses(s@),
            k <= lv.len(),
            out.deep_view() == d0 + loss_diags(s@).take(k as int),
        decreases lv.len() - k,
    {
        let (c, d) = &losses[k];
        let kind = DiagnosticKind::LossyConstruct { construct: string_of(c), detail: string_of(d) };
        let loc = Location::Step { number: s.number, line: None };
        let dg = Diagnostic::new(kind, loc);
        let ghost before = out.deep_view();
        out.push(dg);
        assert(out.deep_view() =~= before.push(dg@));
        assert(loss_diags(s@).take(k + 1) =~= loss_diags(s@).take(k as int).push(
            loss_diags(s@)[k as int],
        ));
        k = k + 1;
    }
    assert(loss_diags(s@).take(lv.len() as int) =~= loss_diags(s@));
}

/// Render steps as the `## Steps` section of a `SOP.md`, with a diagnostic
/// for each value the format cannot carry.
pub fn print_steps(steps: &[SopStep]) -> (r: (String, Vec<Diagnostic>))
    ensures
        (r.0@, r.1.deep_view()) == print_spec(steps@.map_values(|s: SopStep| s@)),
{
    let ghost sv = steps@.map_values(|s: SopStep| s@);
    let mut ls: Vec<Vec<char>> = Vec::new();
    push_line(&mut ls, chars_of("## Steps"));
    let mut diags: Vec<Diagnostic> = Vec::new();
    assert(views(ls@) =~= seq!["## Steps"@]);
    assert(diags.deep_view() =~= Seq::<DiagV>::empty());
    let mut k: usize = 0;
    while k < steps.len()
        invariant
            sv == steps@.map_values(|s: SopStep| s@),
            k <= sv.len(),
            views(ls@) == seq!["## Steps"@] + all_step_lines(sv.take(k as int)),
            diags.deep_view() == all_loss_diags(sv.take(k as int)),
        decreases sv.len() - k,
    {
        let step = &steps[k];
        assert(sv.take(k + 1).drop_last() =~= sv.take(k as int));
        assert(sv.take(k + 1).last() == step@);
        loss_diags_exec(step, &mut diags);
        let sl = step_lines_exec(step);
        let ghost before = views(ls@);
        let ghost slv = views(sl@);
        let mut j: usize = 0;
        while j < sl.len()
            invariant
                slv == views(sl@),
                j <= slv.len(),
                views(ls@) == before + slv.take(j as int),
            decreases slv.len() - j,
        {
            push_line(&mut ls, slice_of(&sl[j], 0, sl[j].len()));
            assert(sl@[j as int]@.subrange(0, sl@[j as int]@.len() as int) =~= slv[j as int]);
            assert(slv.take(j + 1) =~= slv.take(j as int).push(slv[j as int]));
            j = j + 1;
        }
        assert(slv.take(slv.len() as int) =~= slv);
        assert(views(ls@) =~= seq!["## Steps"@] + all_step_lines(sv.take(k + 1)));
        k = k + 1;
    }
    assert(sv.take(sv.len() as int) =~= sv);
    let text = string_of(&unlines_exec(&ls));
    (text, diags)
}

} // verus!
