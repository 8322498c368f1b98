//! The line-level grammar of a `SOP.md` step list: step items, bold titles,
//! bullet keys, and the values that bullets carry.

use vstd::prelude::*;
use crate::json::{
    json_array_items, json_decode, json_decoded, json_entries, json_items, json_object_entries,
    json_quote, json_quoted, json_string_content, json_string_of, toml_as_json, toml_document_json,
};
use crate::model::{
    CallV, PlannedToolCall, SopExecutionMode, SopStepKind, StepFailure, SwitchRule, SwitchRuleV,
};
use crate::text::{
    all_digits, chars_of, eq_ignore_ascii_case, find, find_char, is_ws, join, parse_u32, push_all,
    slice_of, split_char, string_of, strip_prefix, trim, vec_eq, vec_eq_ignore_ascii_case, vec_find,
    vec_find_char, vec_join, vec_lower, vec_parse_u32, vec_split_char, vec_starts_with, views,
    lower_seq, trim_vec, char_is_ws,
};

verus! {

// ── Step items ──────────────────────────────────────────────────

/// `N. rest`: an item needs the literal `. `, an all-ASCII-digit number
/// before it, and gives the written number (saturating at `u32::MAX`) and
/// the trimmed remainder.
pub open spec fn numbered_item(line: Seq<char>) -> Option<(u32, Seq<char>)> {
    match find(line, seq!['.', ' ']) {
        None => None,
        Some(dot) => {
            let prefix = line.take(dot);
            if prefix.len() == 0 || !all_digits(prefix) {
                None
            } else {
                let written = match parse_u32(prefix) {
                    Some(n) => n,
                    None => u32::MAX,
                };
                Some((written, trim(line.skip(dot + 2))))
            }
        },
    }
}

pub fn all_digits_exec(s: &Vec<char>) -> (r: bool)
    ensures
        r == all_digits(s@),
{
    let mut k: usize = 0;
    while k < s.len()
        invariant
            k <= s@.len(),
            forall|m: int| 0 <= m < k ==> crate::text::is_digit(#[trigger] s@[m]),
        decreases s@.len() - k,
    {
        let u = s[k] as u32;
        if !(48 <= u && u <= 57) {
            assert(!crate::text::is_digit(s@[k as int]));
            return false;
        }
        k = k + 1;
    }
    true
}

pub fn numbered_item_exec(line: &Vec<char>) -> (r: Option<(u32, Vec<char>)>)
    ensures
        match r {
            Some((n, rest)) => numbered_item(line@) == Some((n, rest@)),
            None => numbered_item(line@) is None,
        },
{
    let pat = vec!['.', ' '];
    assert(pat@ =~= seq!['.', ' ']);
    match vec_find(line, &pat) {
        None => None,
        Some(dot) => {
            proof {
                crate::text::lemma_find_from(line@, pat@, 0);
            }
            let prefix = slice_of(line, 0, dot);
            assert(prefix@ =~= line@.take(dot as int));
            assert(dot + 2 <= line.len());
            if !all_digits_exec(&prefix) {
                return None;
            }
            if prefix.len() == 0 {
                return None;
            }
            let written = match vec_parse_u32(&prefix) {
                Some(n) => n,
                None => u32::MAX,
            };
            let tail = slice_of(line, dot + 2, line.len());
            assert(tail@ =~= line@.skip(dot + 2));
            Some((written, trim_vec(&tail)))
        },
    }
}

/// Strip one title separator: an em dash, else an en dash, else a hyphen.
pub open spec fn strip_separator(rest: Seq<char>) -> Seq<char> {
    match strip_prefix(rest, seq!['\u{2014}']) {
        Some(r) => r,
        None => match strip_prefix(rest, seq!['\u{2013}']) {
            Some(r) => r,
            None => match strip_prefix(rest, seq!['-']) {
                Some(r) => r,
                None => rest,
            },
        },
    }
}

/// A `**title**` found anywhere in the line: the text before it is dropped,
/// the title is not trimmed, and the rest loses one separator and is trimmed.
pub open spec fn bold_title(text: Seq<char>) -> Option<(Seq<char>, Seq<char>)> {
    match find(text, seq!['*', '*']) {
        None => None,
        Some(start) => {
            let after = start + 2;
            match find(text.skip(after), seq!['*', '*']) {
                None => None,
                Some(end) => {
                    let title = text.subrange(after, after + end);
                    let rest = trim(text.skip(after + end + 2));
                    Some((title, trim(strip_separator(rest))))
                },
            }
        },
    }
}

fn strip_separator_exec(rest: &Vec<char>) -> (r: Vec<char>)
    ensures
        r@ == strip_separator(rest@),
{
    let n = rest.len();
    if n > 0 && (rest[0] == '\u{2014}' || rest[0] == '\u{2013}' || rest[0] == '-') {
        proof {
            if rest@[0] == '\u{2014}' {
                assert(rest@.take(1) =~= seq!['\u{2014}']);
            } else if rest@[0] == '\u{2013}' {
                assert(rest@.take(1) =~= seq!['\u{2013}']);
                assert(rest@.take(1)[0] != seq!['\u{2014}'][0]);
            } else {
                assert(rest@.take(1) =~= seq!['-']);
                assert(rest@.take(1)[0] != seq!['\u{2014}'][0]);
                assert(rest@.take(1)[0] != seq!['\u{2013}'][0]);
            }
        }
        let r = slice_of(rest, 1, n);
        assert(r@ =~= rest@.skip(1));
        r
    } else {
        proof {
            if n > 0 {
                assert(rest@.take(1)[0] == rest@[0]);
                assert(rest@.take(1)[0] != seq!['\u{2014}'][0]);
                assert(rest@.take(1)[0] != seq!['\u{2013}'][0]);
                assert(rest@.take(1)[0] != seq!['-'][0]);
            }
        }
        slice_of(rest, 0, n)
    }
}

pub fn bold_title_exec(text: &Vec<char>) -> (r: Option<(Vec<char>, Vec<char>)>)
    ensures
        match r {
            Some((t, b)) => bold_title(text@) == Some((t@, b@)),
            None => bold_title(text@) is None,
        },
{
    let pat = vec!['*', '*'];
    assert(pat@ =~= seq!['*', '*']);
    match vec_find(text, &pat) {
        None => None,
        Some(start) => {
            proof {
                crate::text::lemma_find_from(text@, pat@, 0);
            }
            assert(start + 2 <= text.len());
            let after = start + 2;
            let tail = slice_of(text, after, text.len());
            assert(tail@ =~= text@.skip(after as int));
            match vec_find(&tail, &pat) {
                None => None,
                Some(end) => {
                    proof {
                        crate::text::lemma_find_from(tail@, pat@, 0);
                    }
                    let title = slice_of(text, after, after + end);
                    let rest0 = slice_of(text, after + end + 2, text.len());
                    assert(rest0@ =~= text@.skip(after + end + 2));
                    let rest = trim_vec(&rest0);
                    let body = trim_vec(&strip_separator_exec(&rest));
                    Some((title, body))
                },
            }
        },
    }
}

// ── Bullets ─────────────────────────────────────────────────────

pub open spec fn has_ws(s: Seq<char>) -> bool {
    exists|k: int| 0 <= k < s.len() && is_ws(s[k])
}

/// `key: value`, split at the first colon. The key must be non-empty and
/// free of whitespace, so `tools : x` is no bullet key.
pub open spec fn split_bullet(bullet: Seq<char>) -> Option<(Seq<char>, Seq<char>)> {
    match find_char(bullet, ':') {
        None => None,
        Some(colon) => {
            let key = bullet.take(colon);
            if key.len() == 0 || has_ws(key) {
                None
            } else {
                Some((key, bullet.skip(colon + 1)))
            }
        },
    }
}

pub fn has_ws_exec(s: &Vec<char>) -> (r: bool)
    ensures
        r == has_ws(s@),
{
    let mut k: usize = 0;
    while k < s.len()
        invariant
            k <= s@.len(),
            forall|m: int| 0 <= m < k ==> !is_ws(s@[m]),
        decreases s@.len() - k,
    {
        if char_is_ws(s[k]) {
            assert(is_ws(s@[k as int]));
            return true;
        }
        k = k + 1;
    }
    false
}

pub fn split_bullet_exec(bullet: &Vec<char>) -> (r: Option<(Vec<char>, Vec<char>)>)
    ensures
        match r {
            Some((k, v)) => split_bullet(bullet@) == Some((k@, v@)),
            None => split_bullet(bullet@) is None,
        },
{
    match vec_find_char(bullet, ':') {
        None => None,
        Some(colon) => {
            proof {
                crate::text::lemma_find_char(bullet@, ':');
            }
            assert(colon < bullet.len());
            let key = slice_of(bullet, 0, colon);
            assert(key@ =~= bullet@.take(colon as int));
            if key.len() == 0 {
                return None;
            }
            if has_ws_exec(&key) {
                return None;
            }
            let value = slice_of(bullet, colon + 1, bullet.len());
            assert(value@ =~= bullet@.skip(colon + 1));
            Some((key, value))
        },
    }
}

// ── List values ─────────────────────────────────────────────────

/// The trimmed, non-empty pieces, in order.
pub open spec fn nonempty_trimmed(pieces: Seq<Seq<char>>) -> Seq<Seq<char>>
    decreases pieces.len(),
{
    if pieces.len() == 0 {
        Seq::empty()
    } else {
        let rest = nonempty_trimmed(pieces.drop_last());
        let t = trim(pieces.last());
        if t.len() == 0 {
            rest
        } else {
            rest.push(t)
        }
    }
}

/// A comma-separated list: comma is the only separator; items are trimmed
/// and empty ones dropped.
pub open spec fn csv_list(value: Seq<char>) -> Seq<Seq<char>> {
    nonempty_trimmed(split_char(value, ','))
}

pub fn csv_list_exec(value: &Vec<char>) -> (r: Vec<String>)
    ensures
        r.deep_view() == csv_list(value@),
{
    let pieces = vec_split_char(value, ',');
    let ghost ps = views(pieces@);
    let mut out: Vec<String> = Vec::new();
    let mut k: usize = 0;
    while k < pieces.len()
        invariant
            ps == views(pieces@),
            k <= ps.len(),
            out.deep_view() == nonempty_trimmed(ps.take(k as int)),
        decreases ps.len() - k,
    {
        let t = trim_vec(&pieces[k]);
        assert(ps.take(k + 1).drop_last() =~= ps.take(k as int));
        if t.len() > 0 {
            let ghost before = out.deep_view();
            out.push(string_of(&t));
            assert(out.deep_view() =~= before.push(t@));
        }
        k = k + 1;
    }
    assert(ps.take(ps.len() as int) =~= ps);
    out
}

/// Comma-separated step numbers: what parsed, and the items that did not.
pub open spec fn u32_items(pieces: Seq<Seq<char>>) -> (Seq<u32>, Seq<Seq<char>>)
    decreases pieces.len(),
{
    if pieces.len() == 0 {
        (Seq::empty(), Seq::empty())
    } else {
        let (kept, dropped) = u32_items(pieces.drop_last());
        let t = trim(pieces.last());
        if t.len() == 0 {
            (kept, dropped)
        } else {
            match parse_u32(t) {
                Some(n) => (kept.push(n), dropped),
                None => (kept, dropped.push(t)),
            }
        }
    }
}

pub open spec fn u32_list(value: Seq<char>) -> (Seq<u32>, Seq<Seq<char>>) {
    u32_items(split_char(value, ','))
}

pub fn u32_list_exec(value: &Vec<char>) -> (r: (Vec<u32>, Vec<Vec<char>>))
    ensures
        (r.0@, views(r.1@)) == u32_list(value@),
{
    let pieces = vec_split_char(value, ',');
    let ghost ps = views(pieces@);
    let mut kept: Vec<u32> = Vec::new();
    let mut dropped: Vec<Vec<char>> = Vec::new();
    let mut k: usize = 0;
    while k < pieces.len()
        invariant
            ps == views(pieces@),
            k <= ps.len(),
            (kept@, views(dropped@)) == u32_items(ps.take(k as int)),
        decreases ps.len() - k,
    {
        let t = trim_vec(&pieces[k]);
        assert(ps.take(k + 1).drop_last() =~= ps.take(k as int));
        if t.len() > 0 {
            match vec_parse_u32(&t) {
                Some(n) => {
                    kept.push(n);
                },
                None => {
                    let ghost before = views(dropped@);
                    dropped.push(t);
                    assert(views(dropped@) =~= before.push(t@));
                },
            }
        }
        k = k + 1;
    }
    assert(ps.take(ps.len() as int) =~= ps);
    (kept, dropped)
}

/// Each item in backquotes, joined by `, `.
pub open spec fn quoted(items: Seq<Seq<char>>) -> Seq<char> {
    join(items.map_values(|i: Seq<char>| "`"@ + i + "`"@), ", "@)
}

pub fn quoted_exec(items: &Vec<Vec<char>>) -> (r: Vec<char>)
    ensures
        r@ == quoted(views(items@)),
{
    let mut parts: Vec<Vec<char>> = Vec::new();
    let mut k: usize = 0;
    while k < items.len()
        invariant
            k <= items@.len(),
            parts@.len() == k,
            forall|m: int|
                0 <= m < k ==> (#[trigger] parts@[m])@ == "`"@ + items@[m]@ + "`"@,
        decreases items@.len() - k,
    {
        let mut p = chars_of("`");
        push_all(&mut p, &items[k]);
        push_all(&mut p, &chars_of("`"));
        parts.push(p);
        k = k + 1;
    }
    assert(views(parts@) =~= views(items@).map_values(|i: Seq<char>| "`"@ + i + "`"@));
    vec_join(&parts, &chars_of(", "))
}

// ── Switch ports ────────────────────────────────────────────────

/// `str::splitn(3, c)`: up to three pieces, absent ones empty.
pub open spec fn splitn3(s: Seq<char>, c: char) -> (Seq<char>, Seq<char>, Seq<char>) {
    match find_char(s, c) {
        None => (s, Seq::empty(), Seq::empty()),
        Some(i) => {
            let r = s.skip(i + 1);
            match find_char(r, c) {
                None => (s.take(i), r, Seq::empty()),
                Some(j) => (s.take(i), r.take(j), r.skip(j + 1)),
            }
        },
    }
}

fn splitn3_exec(s: &Vec<char>, c: char) -> (r: (Vec<char>, Vec<char>, Vec<char>))
    ensures
        (r.0@, r.1@, r.2@) == splitn3(s@, c),
{
    proof {
        crate::text::lemma_find_char(s@, c);
    }
    match vec_find_char(s, c) {
        None => {
            let a = slice_of(s, 0, s.len());
            assert(a@ =~= s@);
            (a, Vec::new(), Vec::new())
        },
        Some(i) => {
            assert(i < s.len());
            let r = slice_of(s, i + 1, s.len());
            assert(r@ =~= s@.skip(i + 1));
            proof {
                crate::text::lemma_find_char(r@, c);
            }
            let a = slice_of(s, 0, i);
            match vec_find_char(&r, c) {
                None => (a, r, Vec::new()),
                Some(j) => {
                    let b = slice_of(&r, 0, j);
                    let d = slice_of(&r, j + 1, r.len());
                    assert(d@ =~= r@.skip(j + 1));
                    (a, b, d)
                },
            }
        },
    }
}

/// One `;`-separated segment of a switch bullet: a rule, a problem, both,
/// or nothing (for a blank segment).
pub open spec fn switch_segment(segment: Seq<char>) -> (Option<SwitchRuleV>, Option<Seq<char>>) {
    if trim(segment).len() == 0 {
        (None, None)
    } else {
        let (a, b, c) = splitn3(segment, '>');
        let name = trim(a);
        if name.len() == 0 {
            (None, Some("dropped port with an empty name in `"@ + segment + "`"@))
        } else {
            let when = trim(b);
            let goto_raw = trim(c);
            let goto = parse_u32(goto_raw);
            let problem = if goto is None && goto_raw.len() > 0 {
                Some(
                    "port `"@ + name + "` has target `"@ + goto_raw
                        + "`, which is not a step number; a `>` inside a guard truncates the port"@,
                )
            } else {
                None
            };
            (
                Some(
                    SwitchRuleV {
                        name,
                        when: if when.len() > 0 {
                            Some(when)
                        } else {
                            None
                        },
                        goto,
                    },
                ),
                problem,
            )
        }
    }
}

pub open spec fn opt_push<T>(s: Seq<T>, x: Option<T>) -> Seq<T> {
    match x {
        Some(v) => s.push(v),
        None => s,
    }
}

pub open spec fn switch_items(segments: Seq<Seq<char>>) -> (Seq<SwitchRuleV>, Seq<Seq<char>>)
    decreases segments.len(),
{
    if segments.len() == 0 {
        (Seq::empty(), Seq::empty())
    } else {
        let (rules, problems) = switch_items(segments.drop_last());
        let (rule, problem) = switch_segment(segments.last());
        (opt_push(rules, rule), opt_push(problems, problem))
    }
}

/// Switch ports: `name>when>goto`, `;`-separated, with the problems worth
/// reporting (a dropped unnamed port; a target that is not a number).
pub open spec fn switch_rules(value: Seq<char>) -> (Seq<SwitchRuleV>, Seq<Seq<char>>) {
    switch_items(split_char(value, ';'))
}

fn switch_segment_exec(segment: &Vec<char>) -> (r: (Option<SwitchRule>, Option<Vec<char>>))
    ensures
        (match r.0 {
            Some(x) => Some(x@),
            None => None::<SwitchRuleV>,
        }, match r.1 {
            Some(p) => Some(p@),
            None => None::<Seq<char>>,
        }) == switch_segment(segment@),
{
    let ts = trim_vec(segment);
    if ts.len() == 0 {
        return (None, None);
    }
    let (a, b, c) = splitn3_exec(segment, '>');
    let name = trim_vec(&a);
    if name.len() == 0 {
        let mut p = chars_of("dropped port with an empty name in `");
        push_all(&mut p, segment);
        push_all(&mut p, &chars_of("`"));
        return (None, Some(p));
    }
    let when = trim_vec(&b);
    let goto_raw = trim_vec(&c);
    let goto = vec_parse_u32(&goto_raw);
    let problem = if goto.is_none() && goto_raw.len() > 0 {
        let mut p = chars_of("port `");
        push_all(&mut p, &name);
        push_all(&mut p, &chars_of("` has target `"));
        push_all(&mut p, &goto_raw);
        push_all(
            &mut p,
            &chars_of("`, which is not a step number; a `>` inside a guard truncates the port"),
        );
        Some(p)
    } else {
        None
    };
    let rule = SwitchRule {
        name: string_of(&name),
        when: if when.len() > 0 {
            Some(string_of(&when))
        } else {
            None
        },
        goto,
    };
    (Some(rule), problem)
}

pub fn switch_rules_exec(value: &Vec<char>) -> (r: (Vec<SwitchRule>, Vec<Vec<char>>))
    ensures
        (r.0.deep_view(), views(r.1@)) == switch_rules(value@),
{
    let segments = vec_split_char(value, ';');
    let ghost ss = views(segments@);
    let mut rules: Vec<SwitchRule> = Vec::new();
    let mut problems: Vec<Vec<char>> = Vec::new();
    let mut k: usize = 0;
    while k < segments.len()
        invariant
            ss == views(segments@),
            k <= ss.len(),
            (rules.deep_view(), views(problems@)) == switch_items(ss.take(k as int)),
        decreases ss.len() - k,
    {
        let (rule, problem) = switch_segment_exec(&segments[k]);
        assert(ss.take(k + 1).drop_last() =~= ss.take(k as int));
        let ghost r0 = rules.deep_view();
        let ghost p0 = views(problems@);
        match rule {
            Some(x) => {
                rules.push(x);
                assert(rules.deep_view() =~= r0.push(x@));
            },
            None => {},
        }
        match problem {
            Some(p) => {
                problems.push(p);
                assert(views(problems@) =~= p0.push(p@));
            },
            None => {},
        }
        k = k + 1;
    }
    assert(ss.take(ss.len() as int) =~= ss);
    (rules, problems)
}

// ── Scalar values ───────────────────────────────────────────────

/// Failure policy: `fail` in any ASCII case; `retry:N`/`retry N` and
/// `goto:N`/`goto N` with case-sensitive prefixes; anything else is `Fail`.
pub open spec fn step_failure(value: Seq<char>) -> StepFailure {
    let v = trim(value);
    if eq_ignore_ascii_case(v, "fail"@) {
        StepFailure::Fail
    } else {
        let retry = match strip_prefix(v, "retry:"@) {
            Some(raw) => Some(raw),
            None => strip_prefix(v, "retry "@),
        };
        match retry {
            Some(raw) if parse_u32(trim(raw)) is Some => StepFailure::Retry {
                max: parse_u32(trim(raw))->0,
            },
            _ => {
                let goto = match strip_prefix(v, "goto:"@) {
                    Some(raw) => Some(raw),
                    None => strip_prefix(v, "goto "@),
                };
                match goto {
                    Some(raw) if parse_u32(trim(raw)) is Some => StepFailure::Goto {
                        step: parse_u32(trim(raw))->0,
                    },
                    _ => StepFailure::Fail,
                }
            },
        }
    }
}

fn strip_either(v: &Vec<char>, a: &str, b: &str) -> (r: Option<Vec<char>>)
    ensures
        match r {
            Some(x) => Some(x@) == (match strip_prefix(v@, a@) {
                Some(raw) => Some(raw),
                None => strip_prefix(v@, b@),
            }),
            None => (match strip_prefix(v@, a@) {
                Some(raw) => Some(raw),
                None => strip_prefix(v@, b@),
            }) is None,
        },
{
    let pa = chars_of(a);
    let pb = chars_of(b);
    if vec_starts_with(v, &pa) {
        let x = slice_of(v, pa.len(), v.len());
        assert(x@ =~= v@.skip(pa@.len() as int));
        Some(x)
    } else if vec_starts_with(v, &pb) {
        let x = slice_of(v, pb.len(), v.len());
        assert(x@ =~= v@.skip(pb@.len() as int));
        Some(x)
    } else {
        None
    }
}

pub fn step_failure_exec(value: &Vec<char>) -> (r: StepFailure)
    ensures
        r == step_failure(value@),
{
    let v = trim_vec(value);
    if vec_eq_ignore_ascii_case(&v, &chars_of("fail")) {
        return StepFailure::Fail;
    }
    match strip_either(&v, "retry:", "retry ") {
        Some(raw) => match vec_parse_u32(&trim_vec(&raw)) {
            Some(max) => {
                return StepFailure::Retry { max };
            },
            None => {},
        },
        None => {},
    }
    match strip_either(&v, "goto:", "goto ") {
        Some(raw) => match vec_parse_u32(&trim_vec(&raw)) {
            Some(step) => StepFailure::Goto { step },
            None => StepFailure::Fail,
        },
        None => StepFailure::Fail,
    }
}

/// Step kind: `checkpoint` or `approval`, `capability`, in any ASCII case;
/// everything else is `Execute`.
pub open spec fn step_kind(value: Seq<char>) -> SopStepKind {
    let l = lower_seq(trim(value));
    if l == "checkpoint"@ || l == "approval"@ {
        SopStepKind::Checkpoint
    } else if l == "capability"@ {
        SopStepKind::Capability
    } else {
        SopStepKind::Execute
    }
}

pub fn step_kind_exec(value: &Vec<char>) -> (r: SopStepKind)
    ensures
        r == step_kind(value@),
{
    let l = vec_lower(&trim_vec(value));
    if vec_eq(&l, &chars_of("checkpoint")) || vec_eq(&l, &chars_of("approval")) {
        SopStepKind::Checkpoint
    } else if vec_eq(&l, &chars_of("capability")) {
        SopStepKind::Capability
    } else {
        SopStepKind::Execute
    }
}

pub open spec fn is_execute_spelling(value: Seq<char>) -> bool {
    eq_ignore_ascii_case(trim(value), "execute"@)
}

/// Execution mode, case-insensitively, falling back to `Supervised`.
///
/// The spellings are compared after lowercasing. ASCII lowercasing decides
/// the same as full Unicode lowercasing here: the only non-ASCII characters
/// whose lowercase form is ASCII are U+212A KELVIN SIGN (to `k`) and U+0130
/// (to `i` and a combining dot), and no spelling contains `k` or a combining
/// dot.
pub open spec fn execution_mode(value: Seq<char>) -> SopExecutionMode {
    let l = lower_seq(trim(value));
    if l == "auto"@ {
        SopExecutionMode::Auto
    } else if l == "step_by_step"@ {
        SopExecutionMode::StepByStep
    } else if l == "priority_based"@ {
        SopExecutionMode::PriorityBased
    } else if l == "deterministic"@ {
        SopExecutionMode::Deterministic
    } else {
        SopExecutionMode::Supervised
    }
}

pub open spec fn is_known_mode(value: Seq<char>) -> bool {
    let l = lower_seq(trim(value));
    l == "auto"@ || l == "step_by_step"@ || l == "priority_based"@ || l == "deterministic"@ || l
        == "supervised"@
}

pub fn execution_mode_exec(value: &Vec<char>) -> (r: (SopExecutionMode, bool))
    ensures
        r.0 == execution_mode(value@),
        r.1 == is_known_mode(value@),
{
    let l = vec_lower(&trim_vec(value));
    if vec_eq(&l, &chars_of("auto")) {
        (SopExecutionMode::Auto, true)
    } else if vec_eq(&l, &chars_of("step_by_step")) {
        (SopExecutionMode::StepByStep, true)
    } else if vec_eq(&l, &chars_of("priority_based")) {
        (SopExecutionMode::PriorityBased, true)
    } else if vec_eq(&l, &chars_of("deterministic")) {
        (SopExecutionMode::Deterministic, true)
    } else {
        let known = vec_eq(&l, &chars_of("supervised"));
        (SopExecutionMode::Supervised, known)
    }
}

// ── JSON-valued bullets ─────────────────────────────────────────

/// The value of the entry named `key`, if the entries have one.
pub open spec fn lookup(entries: Seq<(Seq<char>, Seq<char>)>, key: Seq<char>) -> Option<Seq<char>>
    decreases entries.len(),
{
    if entries.len() == 0 {
        None
    } else if entries.last().0 == key {
        Some(entries.last().1)
    } else {
        lookup(entries.drop_last(), key)
    }
}

/// The value of the entry named `key`, the last such entry when there are
/// several.
pub fn lookup_entry(entries: &Vec<(String, String)>, key: &str) -> (r: Option<String>)
    ensures
        r.deep_view() == lookup(entries_view(entries@), key@),
{
    let ghost es = entries@.map_values(|e: (String, String)| (e.0@, e.1@));
    let kv = chars_of(key);
    let mut k = entries.len();
    assert(es.take(es.len() as int) =~= es);
    while k > 0
        invariant
            k <= entries@.len(),
            kv@ == key@,
            es == entries@.map_values(|e: (String, String)| (e.0@, e.1@)),
            lookup(es, key@) == lookup(es.take(k as int), key@),
        decreases k,
    {
        let e = &entries[k - 1];
        let ghost t = es.take(k as int);
        assert(t.len() == k);
        assert(t.last() == es[k - 1]);
        assert(es[k - 1] == (e.0@, e.1@));
        assert(t.drop_last() =~= es.take(k - 1));
        let ek = chars_of(e.0.as_str());
        if vec_eq(&ek, &kv) {
            assert(ek@ == e.0@);
            assert(t.last().0 == key@);
            assert(t.last().1 == e.1@);
            assert(lookup(t, key@) == Some(e.1@));
            return Some(e.1.clone());
        }
        assert(lookup(t, key@) == lookup(es.take(k - 1), key@));
        k = k - 1;
    }
    assert(es.take(0) =~= Seq::<(Seq<char>, Seq<char>)>::empty());
    None
}

/// A `with:`, `input:` or `output:` value: JSON first, then the fragment as
/// the right-hand side of a TOML `value = ...` line, then the raw text as a
/// JSON string. Never fails.
pub open spec fn value_fragment(value: Seq<char>) -> Seq<char> {
    match json_decoded(value) {
        Ok(t) => t,
        Err(_) => {
            let from_toml = match toml_as_json("value = "@ + value) {
                Some(doc) => match json_entries(doc) {
                    Some(es) => lookup(es, "value"@),
                    None => None,
                },
                None => None,
            };
            match from_toml {
                Some(t) => t,
                None => json_quoted(value),
            }
        },
    }
}

pub fn value_fragment_exec(value: &Vec<char>) -> (r: String)
    ensures
        r@ == value_fragment(value@),
{
    let text = string_of(value);
    match json_decode(text.as_str()) {
        Ok(t) => t,
        Err(_) => {
            let mut doc = chars_of("value = ");
            push_all(&mut doc, value);
            let doc_s = string_of(&doc);
            let from_toml = match toml_document_json(doc_s.as_str()) {
                Some(j) => match json_object_entries(j.as_str()) {
                    Some(es) => lookup_entry(&es, "value"),
                    None => None,
                },
                None => None,
            };
            match from_toml {
                Some(t) => t,
                None => json_quote(text.as_str()),
            }
        },
    }
}

/// A planned call from the entries of its JSON object and its tool name:
/// `args` is the `args` entry (`null` when absent) and `pinned` the
/// `pinned` entry unless that is absent or `null`.
pub open spec fn call_of(entries: Seq<(Seq<char>, Seq<char>)>, tool: Seq<char>) -> CallV {
    CallV {
        tool,
        args: match lookup(entries, "args"@) {
            Some(a) => a,
            None => "null"@,
        },
        pinned: match lookup(entries, "pinned"@) {
            Some(p) => if p == "null"@ {
                None
            } else {
                Some(p)
            },
            None => None,
        },
    }
}

pub open spec fn entries_view(entries: Seq<(String, String)>) -> Seq<(Seq<char>, Seq<char>)> {
    entries.map_values(|e: (String, String)| (e.0@, e.1@))
}

/// The planned call that the entries of a JSON object and its tool name
/// describe.
pub fn call_from_entries(entries: &Vec<(String, String)>, tool: String) -> (r: PlannedToolCall)
    ensures
        r@ == call_of(entries_view(entries@), tool@),
{
    let args = match lookup_entry(entries, "args") {
        Some(a) => a,
        None => string_of(&chars_of("null")),
    };
    let pinned = match lookup_entry(entries, "pinned") {
        Some(p) => if vec_eq(&chars_of(p.as_str()), &chars_of("null")) {
            None
        } else {
            Some(p)
        },
        None => None,
    };
    PlannedToolCall { tool, args, pinned }
}

// ── The outer keys of a JSON object, as written ─────────────────

/// Where a left-to-right pass over a JSON text stands: the nesting depth;
/// whether it is inside a string, and just after a backslash there; whether
/// a key may come next at the outer level; where the string being read
/// started and whether it is an outer key; and the outer keys read so far,
/// each with its quotes.
pub struct KeyScan {
    pub depth: nat,
    pub in_str: bool,
    pub esc: bool,
    pub expect_key: bool,
    pub start: int,
    pub recording: bool,
    pub keys: Seq<Seq<char>>,
}

pub open spec fn scan_start() -> KeyScan {
    KeyScan {
        depth: 0,
        in_str: false,
        esc: false,
        expect_key: false,
        start: 0,
        recording: false,
        keys: Seq::empty(),
    }
}

pub open spec fn json_ws(c: char) -> bool {
    c == ' ' || c == '\t' || c == '\n' || c == '\r'
}

/// One character more of the pass.
pub open spec fn scan_char(st: KeyScan, s: Seq<char>, i: int) -> KeyScan {
    let c = s[i];
    if st.in_str {
        if st.esc {
            KeyScan { esc: false, ..st }
        } else if c == '\\' {
            KeyScan { esc: true, ..st }
        } else if c == '"' {
            KeyScan {
                in_str: false,
                recording: false,
                keys: if st.recording {
                    st.keys.push(s.subrange(st.start, i + 1))
                } else {
                    st.keys
                },
                ..st
            }
        } else {
            st
        }
    } else if c == '"' {
        KeyScan {
            in_str: true,
            recording: st.depth == 1 && st.expect_key,
            start: i,
            expect_key: false,
            ..st
        }
    } else if c == '{' || c == '[' {
        KeyScan { depth: st.depth + 1, expect_key: c == '{' && st.depth == 0, ..st }
    } else if c == '}' || c == ']' {
        KeyScan {
            depth: if st.depth > 0 {
                (st.depth - 1) as nat
            } else {
                0
            },
            expect_key: false,
            ..st
        }
    } else if c == ',' {
        KeyScan { expect_key: st.depth == 1, ..st }
    } else if json_ws(c) {
        st
    } else {
        KeyScan { expect_key: false, ..st }
    }
}

pub open spec fn scan(s: Seq<char>, k: int) -> KeyScan
    decreases k,
{
    if k <= 0 {
        scan_start()
    } else {
        scan_char(scan(s, k - 1), s, k - 1)
    }
}

/// The keys written at the outer level of a JSON object text, each as its
/// quoted text, in the order written, repeats included.
pub open spec fn object_keys(s: Seq<char>) -> Seq<Seq<char>> {
    scan(s, s.len() as int).keys
}

pub fn object_keys_exec(s: &Vec<char>) -> (r: Vec<Vec<char>>)
    ensures
        views(r@) == object_keys(s@),
{
    let mut depth: usize = 0;
    let mut in_str = false;
    let mut esc = false;
    let mut expect_key = false;
    let mut start: usize = 0;
    let mut recording = false;
    let mut keys: Vec<Vec<char>> = Vec::new();
    let mut i: usize = 0;
    assert(views(keys@) =~= Seq::<Seq<char>>::empty());
    while i < s.len()
        invariant
            i <= s@.len(),
            depth <= i,
            start <= i,
            scan(s@, i as int) == (KeyScan {
                depth: depth as nat,
                in_str,
                esc,
                expect_key,
                start: start as int,
                recording,
                keys: views(keys@),
            }),
        decreases s@.len() - i,
    {
        let c = s[i];
        if in_str {
            if esc {
                esc = false;
            } else if c == '\\' {
                esc = true;
            } else if c == '"' {
                if recording {
                    let k = slice_of(s, start, i + 1);
                    let ghost before = views(keys@);
                    keys.push(k);
                    assert(views(keys@) =~= before.push(s@.subrange(start as int, i + 1)));
                }
                in_str = false;
                recording = false;
            }
        } else if c == '"' {
            recording = depth == 1 && expect_key;
            in_str = true;
            start = i;
            expect_key = false;
        } else if c == '{' || c == '[' {
            expect_key = c == '{' && depth == 0;
            depth = depth + 1;
        } else if c == '}' || c == ']' {
            if depth > 0 {
                depth = depth - 1;
            }
            expect_key = false;
        } else if c == ',' {
            expect_key = depth == 1;
        } else if !(c == ' ' || c == '\t' || c == '\n' || c == '\r') {
            expect_key = false;
        }
        i = i + 1;
    }
    keys
}

/// How many of the names are `f`.
pub open spec fn occurrences(names: Seq<Option<Seq<char>>>, f: Seq<char>) -> nat
    decreases names.len(),
{
    if names.len() == 0 {
        0
    } else {
        occurrences(names.drop_last(), f) + if names.last() == Some(f) {
            1nat
        } else {
            0nat
        }
    }
}

/// The field names the outer keys of an object text spell.
pub open spec fn key_names(value: Seq<char>) -> Seq<Option<Seq<char>>> {
    object_keys(value).map_values(|t: Seq<char>| json_string_content(t))
}

/// The first of `tool`, `args` and `pinned` that a call object writes more
/// than once.
pub open spec fn repeated_field(value: Seq<char>) -> Option<Seq<char>> {
    let names = key_names(value);
    if occurrences(names, "tool"@) > 1 {
        Some("tool"@)
    } else if occurrences(names, "args"@) > 1 {
        Some("args"@)
    } else if occurrences(names, "pinned"@) > 1 {
        Some("pinned"@)
    } else {
        None
    }
}

pub fn repeated_field_exec(value: &Vec<char>) -> (r: Option<&'static str>)
    ensures
        match r {
            Some(f) => repeated_field(value@) == Some(f@),
            None => repeated_field(value@) is None,
        },
{
    let keys = object_keys_exec(value);
    let ghost names = key_names(value@);
    let ghost texts = object_keys(value@);
    let mut nt: usize = 0;
    let mut na: usize = 0;
    let mut np: usize = 0;
    let mut k: usize = 0;
    assert(names.take(0) =~= Seq::<Option<Seq<char>>>::empty());
    proof {
        reveal_strlit("tool");
        reveal_strlit("args");
        reveal_strlit("pinned");
        assert("tool"@[0] != "args"@[0]);
        assert("tool"@ != "args"@ && "tool"@ != "pinned"@ && "args"@ != "pinned"@);
    }
    while k < keys.len()
        invariant
            k <= keys@.len(),
            views(keys@) == texts,
            texts == object_keys(value@),
            names == key_names(value@),
            names.len() == keys@.len(),
            nt <= k,
            na <= k,
            np <= k,
            nt == occurrences(names.take(k as int), "tool"@),
            na == occurrences(names.take(k as int), "args"@),
            np == occurrences(names.take(k as int), "pinned"@),
            "tool"@ != "args"@ && "tool"@ != "pinned"@ && "args"@ != "pinned"@,
        decreases keys@.len() - k,
    {
        assert(names.take(k + 1).drop_last() =~= names.take(k as int));
        assert(keys@[k as int]@ == texts[k as int]);
        let text = string_of(&keys[k]);
        let name = json_string_of(text.as_str());
        assert(names.take(k + 1).last() == names[k as int]);
        match name {
            Some(n) => {
                let c = chars_of(n.as_str());
                if vec_eq(&c, &chars_of("tool")) {
                    nt = nt + 1;
                } else if vec_eq(&c, &chars_of("args")) {
                    na = na + 1;
                } else if vec_eq(&c, &chars_of("pinned")) {
                    np = np + 1;
                }
            },
            None => {},
        }
        k = k + 1;
    }
    assert(names.take(names.len() as int) =~= names);
    if nt > 1 {
        Some("tool")
    } else if na > 1 {
        Some("args")
    } else if np > 1 {
        Some("pinned")
    } else {
        None
    }
}

/// A planned call from the items of a JSON array, in field order: one to
/// three items, a string `tool` first.
pub open spec fn call_of_items(items: Seq<Seq<char>>) -> Result<CallV, Seq<char>> {
    if items.len() == 0 {
        Err("invalid length 0, expected a call with 3 elements"@)
    } else if items.len() > 3 {
        Err("trailing characters after the third element of a call"@)
    } else {
        match json_string_content(items[0]) {
            None => Err("invalid type for `tool`: expected a string"@),
            Some(tool) => Ok(
                CallV {
                    tool,
                    args: if items.len() > 1 {
                        items[1]
                    } else {
                        "null"@
                    },
                    pinned: if items.len() > 2 && items[2] != "null"@ {
                        Some(items[2])
                    } else {
                        None
                    },
                },
            ),
        }
    }
}

fn call_from_items(items: &Vec<String>) -> (r: Result<PlannedToolCall, Vec<char>>)
    ensures
        match r {
            Ok(c) => call_of_items(items@.map_values(|e: String| e@)) == Ok::<CallV, Seq<char>>(c@),
            Err(e) => call_of_items(items@.map_values(|e: String| e@)) == Err::<CallV, Seq<char>>(e@),
        },
{
    let ghost iv = items@.map_values(|e: String| e@);
    let n = items.len();
    if n == 0 {
        Err(chars_of("invalid length 0, expected a call with 3 elements"))
    } else if n > 3 {
        Err(chars_of("trailing characters after the third element of a call"))
    } else {
        assert(iv[0] == items@[0]@);
        match json_string_of(items[0].as_str()) {
            None => Err(chars_of("invalid type for `tool`: expected a string")),
            Some(tool) => {
                let args = if n > 1 {
                    assert(iv[1] == items@[1]@);
                    items[1].clone()
                } else {
                    string_of(&chars_of("null"))
                };
                let pinned = if n > 2 {
                    assert(iv[2] == items@[2]@);
                    if vec_eq(&chars_of(items[2].as_str()), &chars_of("null")) {
                        None
                    } else {
                        Some(items[2].clone())
                    }
                } else {
                    None
                };
                Ok(PlannedToolCall { tool, args, pinned })
            },
        }
    }
}

/// A `call:` value, read as the planned-call shape reads it: a JSON object
/// that writes none of `tool`, `args` and `pinned` twice, with a string
/// `tool`, an optional `args` (`null` when absent) and an optional `pinned`
/// (absent when `null`), other keys ignored; or a JSON array of one to
/// three items in that field order. `Err` carries the reason it was neither.
///
/// Which values are accepted, and the call read from them, are those of the
/// derived serde reading of a planned call. The reasons are not all serde's:
/// text that is not JSON gets `serde_json`'s own message, but a JSON value of
/// the wrong shape gets one of the fixed reasons below, with no line and
/// column and no description of the value found. The reasons are also
/// checked in a fixed order (a repeated field first, then a missing `tool`,
/// then a `tool` that is not a string), where serde reports whichever it
/// meets first in the text: `{"tool": 5, "tool": "x"}` is reported here as
/// a repeated field, by serde as a `tool` of the wrong type.
pub open spec fn planned_call(value: Seq<char>) -> Result<CallV, Seq<char>> {
    match json_decoded(value) {
        Err(e) => Err(e),
        Ok(t) => match json_entries(t) {
            Some(es) => match repeated_field(value) {
                Some(f) => Err("duplicate field `"@ + f + "`"@),
                None => match lookup(es, "tool"@) {
                    None => Err("missing field `tool`"@),
                    Some(tool_text) => match json_string_content(tool_text) {
                        None => Err("invalid type for `tool`: expected a string"@),
                        Some(tool) => Ok(call_of(es, tool)),
                    },
                },
            },
            None => match json_items(t) {
                Some(items) => call_of_items(items),
                None => Err("invalid type: expected a JSON object or array"@),
            },
        },
    }
}

/// Reads a `call:` value as [`planned_call`] says, reasons included.
pub fn planned_call_exec(value: &Vec<char>) -> (r: Result<PlannedToolCall, Vec<char>>)
    ensures
        match r {
            Ok(c) => planned_call(value@) == Ok::<CallV, Seq<char>>(c@),
            Err(e) => planned_call(value@) == Err::<CallV, Seq<char>>(e@),
        },
{
    let text = string_of(value);
    match json_decode(text.as_str()) {
        Err(e) => Err(chars_of(e.as_str())),
        Ok(t) => match json_object_entries(t.as_str()) {
            Some(es) => match repeated_field_exec(value) {
                Some(f) => {
                    let mut m = chars_of("duplicate field `");
                    push_all(&mut m, &chars_of(f));
                    push_all(&mut m, &chars_of("`"));
                    Err(m)
                },
                None => match lookup_entry(&es, "tool") {
                    None => Err(chars_of("missing field `tool`")),
                    Some(tool_text) => match json_string_of(tool_text.as_str()) {
                        None => Err(chars_of("invalid type for `tool`: expected a string")),
                        Some(tool) => Ok(call_from_entries(&es, tool)),
                    },
                },
            },
            None => match json_array_items(t.as_str()) {
                Some(items) => call_from_items(&items),
                None => Err(chars_of("invalid type: expected a JSON object or array")),
            },
        },
    }
}

} // verus!
