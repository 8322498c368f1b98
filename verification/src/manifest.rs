//! The key check on `SOP.toml`.
//!
//! Nothing in the SOP tree refuses an unknown key: the typed reading keeps
//! what it models and drops the rest. The file is still worth reading
//! against the modeled key lists, so that what was dropped is reported
//! rather than lost in silence. The check walks the document as written,
//! held as a [`RawValue`], and produces one `unknown_manifest_key`
//! diagnostic per key that no modeled table accepts.

use vstd::prelude::*;
use crate::diagnostic::{diag, DiagV, Diagnostic, DiagnosticKind, KindV, Location, LocationV};
use crate::parse::key_is;
use crate::model::{trigger_tag, TriggerV};
use crate::text::{chars_of, decimal, decimal_usize, push_all, string_of};

verus! {

/// A TOML value as the key check reads it: tables keep their entries in
/// the order the table holds them, arrays their items; of the other values only strings
/// matter (a trigger's `type`).
pub enum RawValue {
    Table(Vec<(String, RawValue)>),
    Array(Vec<RawValue>),
    Str(String),
    Other,
}

#[verifier::external_type_specification]
#[verifier::external_body]
pub struct ExTomlValue(toml::Value);

/// The document `toml` reads a text as, held as a [`RawValue`]; `None` when
/// the text does not parse as TOML.
pub uninterp spec fn toml_raw(text: Seq<char>) -> Option<RawValue>;

/// Turns a `toml::Value` into a [`RawValue`] variant by variant: a table
/// keeps its entries in the order `toml`'s map walks them, an array its
/// items, a string its text, and every other value becomes `Other`. It is
/// the conversion half of [`toml_raw_value`] and claims nothing itself.
#[verifier::external_body]
fn raw_of(v: &toml::Value) -> RawValue {
    match v {
        toml::Value::Table(t) => RawValue::Table(t.iter().map(|(k, x)| (k.clone(), raw_of(x))).collect()),
        toml::Value::Array(a) => RawValue::Array(a.iter().map(raw_of).collect()),
        toml::Value::String(s) => RawValue::Str(s.clone()),
        _ => RawValue::Other,
    }
}

/// Parses `text` with `toml::from_str::<toml::Value>` and converts the value
/// with `raw_of`. The contract claims only that the outcome is a function of
/// the text, named [`toml_raw`].
#[verifier::external_body]
pub(crate) fn toml_raw_value(text: &str) -> (r: Option<RawValue>)
    ensures
        r == toml_raw(text@),
{
    match toml::from_str::<toml::Value>(text) {
        Ok(v) => Some(raw_of(&v)),
        Err(_) => None,
    }
}

// ── Key lists ───────────────────────────────────────────────────

/// The keys `[sop]` accepts.
pub open spec fn sop_keys() -> Seq<Seq<char>> {
    seq![
        "name"@,
        "description"@,
        "version"@,
        "priority"@,
        "execution_mode"@,
        "cooldown_secs"@,
        "max_concurrent"@,
        "deterministic"@,
        "admission_policy"@,
        "max_pending_approvals"@,
        "agent"@,
    ]
}

/// The keys a `[[positions]]` entry accepts.
pub open spec fn position_keys() -> Seq<Seq<char>> {
    seq!["step"@, "x"@, "y"@]
}

/// The keys a `[[steps]]` entry accepts (`with` is the TOML spelling of the
/// capability input).
pub open spec fn step_keys() -> Seq<Seq<char>> {
    seq![
        "number"@,
        "title"@,
        "body"@,
        "suggested_tools"@,
        "requires_confirmation"@,
        "kind"@,
        "schema"@,
        "scope"@,
        "routing"@,
        "on_failure"@,
        "mode"@,
        "calls"@,
        "pos"@,
        "agent"@,
        "capability"@,
        "with"@,
        "policy"@,
        "gate_prompt"@,
        "edit"@,
    ]
}

/// The top-level keys the manifest accepts.
pub open spec fn top_keys() -> Seq<Seq<char>> {
    seq!["sop"@, "triggers"@, "positions"@, "steps"@]
}

/// The keys each trigger variant accepts, by its `type` tag; `webhook` and
/// `cron` have no `condition`.
pub open spec fn trigger_key_list(tag: Seq<char>) -> Option<Seq<Seq<char>>> {
    if tag == "mqtt"@ {
        Some(seq!["type"@, "topic"@, "condition"@])
    } else if tag == "webhook"@ {
        Some(seq!["type"@, "path"@])
    } else if tag == "cron"@ {
        Some(seq!["type"@, "expression"@])
    } else if tag == "peripheral"@ {
        Some(seq!["type"@, "board"@, "signal"@, "condition"@])
    } else if tag == "filesystem"@ {
        Some(seq!["type"@, "path"@, "events"@, "condition"@])
    } else if tag == "calendar"@ {
        Some(seq!["type"@, "calendar_source"@, "calendar_ids"@, "condition"@])
    } else if tag == "channel"@ {
        Some(seq!["type"@, "channel"@, "alias"@, "condition"@])
    } else if tag == "manual"@ {
        Some(seq!["type"@])
    } else if tag == "amqp"@ {
        Some(seq!["type"@, "routing_key"@, "condition"@])
    } else {
        None
    }
}

/// Every trigger variant's tag has a key list, and `type` comes first in it.
/// `manual` accepts `type` alone; every other variant lists `condition`
/// exactly when it supports one.
pub proof fn lemma_trigger_keys_cover(t: TriggerV)
    ensures
        trigger_key_list(trigger_tag(t)) is Some,
        trigger_key_list(trigger_tag(t))->0[0] == "type"@,
        t is Manual ==> trigger_key_list(trigger_tag(t)) == Some(seq!["type"@]),
        !(t is Manual) ==> (trigger_key_list(trigger_tag(t))->0.contains("condition"@) <==> !(
        t is Webhook || t is Cron)),
{
    reveal_strlit("mqtt");
    reveal_strlit("webhook");
    reveal_strlit("cron");
    reveal_strlit("peripheral");
    reveal_strlit("filesystem");
    reveal_strlit("calendar");
    reveal_strlit("channel");
    reveal_strlit("manual");
    reveal_strlit("amqp");
    reveal_strlit("condition");
    reveal_strlit("type");
    reveal_strlit("topic");
    reveal_strlit("path");
    reveal_strlit("expression");
    reveal_strlit("board");
    reveal_strlit("signal");
    reveal_strlit("events");
    reveal_strlit("calendar_source");
    reveal_strlit("calendar_ids");
    reveal_strlit("alias");
    reveal_strlit("routing_key");
    let tag = trigger_tag(t);
    let names = seq!["mqtt"@, "webhook"@, "cron"@, "peripheral"@, "filesystem"@, "calendar"@,
        "channel"@, "manual"@, "amqp"@];
    assert forall|a: int, b: int| 0 <= a < b < 9 implies #[trigger] names[a] != #[trigger] names[b] by {
        assert(names[a].len() != names[b].len() || names[a][0] != names[b][0]);
    }
    assert(names[0] == "mqtt"@ && names[1] == "webhook"@ && names[2] == "cron"@);
    assert(names[3] == "peripheral"@ && names[4] == "filesystem"@ && names[5] == "calendar"@);
    assert(names[6] == "channel"@ && names[7] == "manual"@ && names[8] == "amqp"@);
    let c = "condition"@;
    let others = seq!["type"@, "topic"@, "path"@, "expression"@, "board"@, "signal"@, "events"@,
        "calendar_source"@, "calendar_ids"@, "channel"@, "alias"@, "routing_key"@];
    assert forall|a: int| 0 <= a < 12 implies #[trigger] others[a] != c by {
        assert(others[a].len() != c.len());
    }
    assert(others[0] != c && others[1] != c && others[2] != c && others[3] != c);
    assert(others[4] != c && others[5] != c && others[6] != c && others[7] != c);
    assert(others[8] != c && others[9] != c && others[10] != c && others[11] != c);
    let ks = trigger_key_list(tag)->0;
    match t {
        TriggerV::Webhook { .. } => {
            assert(ks == seq!["type"@, "path"@]);
            assert(!ks.contains(c)) by {
                if ks.contains(c) {
                    let k = choose|k: int| 0 <= k < ks.len() && ks[k] == c;
                }
            }
        },
        TriggerV::Cron { .. } => {
            assert(ks == seq!["type"@, "expression"@]);
            assert(!ks.contains(c)) by {
                if ks.contains(c) {
                    let k = choose|k: int| 0 <= k < ks.len() && ks[k] == c;
                }
            }
        },
        TriggerV::Manual => {},
        TriggerV::Mqtt { .. } => {
            assert(ks[2] == c);
        },
        TriggerV::Amqp { .. } => {
            assert(ks[2] == c);
        },
        TriggerV::Peripheral { .. } => {
            assert(ks[3] == c);
        },
        TriggerV::Filesystem { .. } => {
            assert(ks[3] == c);
        },
        TriggerV::Calendar { .. } => {
            assert(ks[3] == c);
        },
        TriggerV::Channel { .. } => {
            assert(ks[3] == c);
        },
    }
}

pub open spec fn strs_view(v: Seq<&str>) -> Seq<Seq<char>> {
    v.map_values(|s: &str| s@)
}

fn sop_key_vec() -> (r: Vec<&'static str>)
    ensures
        strs_view(r@) == sop_keys(),
{
    let r = vec![
        "name",
        "description",
        "version",
        "priority",
        "execution_mode",
        "cooldown_secs",
        "max_concurrent",
        "deterministic",
        "admission_policy",
        "max_pending_approvals",
        "agent",
    ];
    assert(strs_view(r@) =~= sop_keys());
    r
}

fn position_key_vec() -> (r: Vec<&'static str>)
    ensures
        strs_view(r@) == position_keys(),
{
    let r = vec!["step", "x", "y"];
    assert(strs_view(r@) =~= position_keys());
    r
}

fn step_key_vec() -> (r: Vec<&'static str>)
    ensures
        strs_view(r@) == step_keys(),
{
    let r = vec![
        "number",
        "title",
        "body",
        "suggested_tools",
        "requires_confirmation",
        "kind",
        "schema",
        "scope",
        "routing",
        "on_failure",
        "mode",
        "calls",
        "pos",
        "agent",
        "capability",
        "with",
        "policy",
        "gate_prompt",
        "edit",
    ];
    assert(strs_view(r@) =~= step_keys());
    r
}

/// The keys a trigger with this `type` tag accepts; `None` for an unknown
/// tag.
pub fn trigger_keys(tag: &str) -> (r: Option<Vec<&'static str>>)
    ensures
        match trigger_key_list(tag@) {
            Some(l) => r matches Some(v) && strs_view(v@) == l,
            None => r is None,
        },
{
    let t = chars_of(tag);
    if key_is(&t, "mqtt") {
        let v = vec!["type", "topic", "condition"];
        assert(strs_view(v@) =~= seq!["type"@, "topic"@, "condition"@]);
        Some(v)
    } else if key_is(&t, "webhook") {
        let v = vec!["type", "path"];
        assert(strs_view(v@) =~= seq!["type"@, "path"@]);
        Some(v)
    } else if key_is(&t, "cron") {
        let v = vec!["type", "expression"];
        assert(strs_view(v@) =~= seq!["type"@, "expression"@]);
        Some(v)
    } else if key_is(&t, "peripheral") {
        let v = vec!["type", "board", "signal", "condition"];
        assert(strs_view(v@) =~= seq!["type"@, "board"@, "signal"@, "condition"@]);
        Some(v)
    } else if key_is(&t, "filesystem") {
        let v = vec!["type", "path", "events", "condition"];
        assert(strs_view(v@) =~= seq!["type"@, "path"@, "events"@, "condition"@]);
        Some(v)
    } else if key_is(&t, "calendar") {
        let v = vec!["type", "calendar_source", "calendar_ids", "condition"];
        assert(strs_view(v@) =~= seq!["type"@, "calendar_source"@, "calendar_ids"@, "condition"@]);
        Some(v)
    } else if key_is(&t, "channel") {
        let v = vec!["type", "channel", "alias", "condition"];
        assert(strs_view(v@) =~= seq!["type"@, "channel"@, "alias"@, "condition"@]);
        Some(v)
    } else if key_is(&t, "manual") {
        let v = vec!["type"];
        assert(strs_view(v@) =~= seq!["type"@]);
        Some(v)
    } else if key_is(&t, "amqp") {
        let v = vec!["type", "routing_key", "condition"];
        assert(strs_view(v@) =~= seq!["type"@, "routing_key"@, "condition"@]);
        Some(v)
    } else {
        None
    }
}

fn contains_key(list: &Vec<&'static str>, key: &Vec<char>) -> (r: bool)
    ensures
        r == strs_view(list@).contains(key@),
{
    let mut k: usize = 0;
    while k < list.len()
        invariant
            k <= list@.len(),
            forall|m: int| 0 <= m < k ==> strs_view(list@)[m] != key@,
        decreases list@.len() - k,
    {
        if key_is(key, list[k]) {
            assert(strs_view(list@)[k as int] == key@);
            return true;
        }
        k = k + 1;
    }
    false
}

// ── What the check reports ──────────────────────────────────────

/// The diagnostic for one unknown key.
pub open spec fn unknown_diag(key_path: Seq<char>, key: Seq<char>) -> DiagV {
    diag(KindV::UnknownManifestKey { key }, LocationV::Manifest { key_path })
}

/// One diagnostic per key, in order, that `known` does not list; the key
/// path is `prefix.key`.
pub open spec fn keys_unknown(
    prefix: Seq<char>,
    keys: Seq<Seq<char>>,
    known: Seq<Seq<char>>,
) -> Seq<DiagV>
    decreases keys.len(),
{
    if keys.len() == 0 {
        Seq::empty()
    } else {
        let k = keys.last();
        let rest = keys_unknown(prefix, keys.drop_last(), known);
        if known.contains(k) {
            rest
        } else {
            rest.push(unknown_diag(prefix + "."@ + k, k))
        }
    }
}

pub open spec fn entry_keys(t: Seq<(String, RawValue)>) -> Seq<Seq<char>> {
    t.map_values(|e: (String, RawValue)| e.0@)
}

/// A table's unknown keys; a value that is not a table has none.
pub open spec fn table_unknown(v: RawValue, known: Seq<Seq<char>>, prefix: Seq<char>) -> Seq<
    DiagV,
> {
    match v {
        RawValue::Table(t) => keys_unknown(prefix, entry_keys(t@), known),
        _ => Seq::empty(),
    }
}

pub open spec fn indexed(prefix: Seq<char>, i: int) -> Seq<char> {
    prefix + "["@ + decimal(i as nat) + "]"@
}

pub open spec fn items_unknown(items: Seq<RawValue>, known: Seq<Seq<char>>, prefix: Seq<char>) -> Seq<
    DiagV,
>
    decreases items.len(),
{
    if items.len() == 0 {
        Seq::empty()
    } else {
        items_unknown(items.drop_last(), known, prefix) + table_unknown(
            items.last(),
            known,
            indexed(prefix, items.len() - 1),
        )
    }
}

/// Each table of an array checked against `known`, as `prefix[i]`.
pub open spec fn array_unknown(v: RawValue, known: Seq<Seq<char>>, prefix: Seq<char>) -> Seq<
    DiagV,
> {
    match v {
        RawValue::Array(items) => items_unknown(items@, known, prefix),
        _ => Seq::empty(),
    }
}

/// The value of the first entry named `key`.
pub open spec fn entry_value(t: Seq<(String, RawValue)>, key: Seq<char>) -> Option<RawValue>
    decreases t.len(),
{
    if t.len() == 0 {
        None
    } else if t[0].0@ == key {
        Some(t[0].1)
    } else {
        entry_value(t.drop_first(), key)
    }
}

/// A trigger table's unknown keys, by the list its `type` selects; nothing
/// when the entry is not a table or its tag is missing, not a string, or
/// unknown.
pub open spec fn trigger_unknown(item: RawValue, prefix: Seq<char>) -> Seq<DiagV> {
    match item {
        RawValue::Table(t) => match entry_value(t@, "type"@) {
            Some(RawValue::Str(tag)) => match trigger_key_list(tag@) {
                Some(known) => keys_unknown(prefix, entry_keys(t@), known),
                None => Seq::empty(),
            },
            _ => Seq::empty(),
        },
        _ => Seq::empty(),
    }
}

pub open spec fn triggers_items_unknown(items: Seq<RawValue>) -> Seq<DiagV>
    decreases items.len(),
{
    if items.len() == 0 {
        Seq::empty()
    } else {
        triggers_items_unknown(items.drop_last()) + trigger_unknown(
            items.last(),
            indexed("triggers"@, items.len() - 1),
        )
    }
}

pub open spec fn triggers_unknown(v: RawValue) -> Seq<DiagV> {
    match v {
        RawValue::Array(items) => triggers_items_unknown(items@),
        _ => Seq::empty(),
    }
}

/// What one top-level entry contributes.
pub open spec fn top_entry_unknown(key: Seq<char>, v: RawValue) -> Seq<DiagV> {
    if !top_keys().contains(key) {
        seq![unknown_diag(key, key)]
    } else if key == "sop"@ {
        table_unknown(v, sop_keys(), "sop"@)
    } else if key == "positions"@ {
        array_unknown(v, position_keys(), "positions"@)
    } else if key == "steps"@ {
        array_unknown(v, step_keys(), "steps"@)
    } else {
        triggers_unknown(v)
    }
}

pub open spec fn top_unknown(t: Seq<(String, RawValue)>) -> Seq<DiagV>
    decreases t.len(),
{
    if t.len() == 0 {
        Seq::empty()
    } else {
        top_unknown(t.drop_last()) + top_entry_unknown(t.last().0@, t.last().1)
    }
}

/// Every unknown key of a manifest document, in the order the tables hold them.
pub open spec fn unknown_keys(raw: RawValue) -> Seq<DiagV> {
    match raw {
        RawValue::Table(t) => top_unknown(t@),
        _ => Seq::empty(),
    }
}

// ── What the check accepts ──────────────────────────────────────

/// The check reports a table's key exactly when the key is not among the
/// keys the table accepts: nothing is reported when every key is known.
pub proof fn lemma_known_keys_unreported(prefix: Seq<char>, keys: Seq<Seq<char>>, known: Seq<Seq<char>>)
    ensures
        keys_unknown(prefix, keys, known).len() == 0 <==> forall|k: int|
            0 <= k < keys.len() ==> known.contains(#[trigger] keys[k]),
    decreases keys.len(),
{
    if keys.len() > 0 {
        let init = keys.drop_last();
        lemma_known_keys_unreported(prefix, init, known);
        assert forall|k: int| 0 <= k < init.len() implies #[trigger] init[k] == keys[k] by {}
        if keys_unknown(prefix, keys, known).len() == 0 {
            assert forall|k: int| 0 <= k < keys.len() implies known.contains(#[trigger] keys[k]) by {
                if k < init.len() {
                    assert(init[k] == keys[k]);
                }
            }
        }
    }
}

/// Whether every key of a table is among `allowed`; a value that is not a
/// table has no keys.
pub open spec fn keys_within(v: RawValue, allowed: Seq<Seq<char>>) -> bool {
    match v {
        RawValue::Table(t) => forall|k: int| 0 <= k < t@.len() ==> allowed.contains(#[trigger] t@[k].0@),
        _ => true,
    }
}

proof fn lemma_items_within(items: Seq<RawValue>, known: Seq<Seq<char>>, prefix: Seq<char>)
    requires
        forall|j: int| 0 <= j < items.len() ==> keys_within(#[trigger] items[j], known),
    ensures
        items_unknown(items, known, prefix).len() == 0,
    decreases items.len(),
{
    if items.len() > 0 {
        let init = items.drop_last();
        assert forall|j: int| 0 <= j < init.len() implies keys_within(#[trigger] init[j], known) by {
            assert(init[j] == items[j]);
        }
        lemma_items_within(init, known, prefix);
        let last = items.last();
        assert(keys_within(items[items.len() - 1], known));
        match last {
            RawValue::Table(t) => {
                let ks = entry_keys(t@);
                lemma_known_keys_unreported(indexed(prefix, items.len() - 1), ks, known);
                assert forall|k: int| 0 <= k < ks.len() implies known.contains(#[trigger] ks[k]) by {
                    assert(ks[k] == t@[k].0@);
                }
            },
            _ => {},
        }
    }
}

/// A `positions` array whose entries use only `step`, `x` and `y`, the
/// fields of a step position, draws no unknown-key report.
pub proof fn lemma_position_entries_accepted(v: RawValue)
    requires
        v matches RawValue::Array(items) && forall|j: int|
            0 <= j < items@.len() ==> keys_within(#[trigger] items@[j], seq!["step"@, "x"@, "y"@]),
    ensures
        top_entry_unknown("positions"@, v).len() == 0,
{
    reveal_strlit("sop");
    reveal_strlit("positions");
    reveal_strlit("triggers");
    reveal_strlit("steps");
    assert(top_keys()[2] == "positions"@);
    assert("positions"@ != "sop"@) by {
        assert("positions"@.len() != "sop"@.len());
    }
    let allowed = seq!["step"@, "x"@, "y"@];
    let known = position_keys();
    assert forall|x: Seq<char>| allowed.contains(x) implies known.contains(x) by {
        let j = choose|j: int| 0 <= j < allowed.len() && allowed[j] == x;
        assert(known[j] == allowed[j]);
    }
    match v {
        RawValue::Array(items) => {
            assert forall|j: int| 0 <= j < items@.len() implies keys_within(#[trigger] items@[j], known) by {
                assert(keys_within(items@[j], allowed));
                match items@[j] {
                    RawValue::Table(t) => {
                        assert forall|k: int| 0 <= k < t@.len() implies known.contains(#[trigger] t@[k].0@) by {
                            assert(allowed.contains(t@[k].0@));
                        }
                    },
                    _ => {},
                }
            }
            lemma_items_within(items@, known, "positions"@);
        },
        _ => {},
    }
}

// ── The check ───────────────────────────────────────────────────

fn unknown(key_path: &Vec<char>, key: &Vec<char>) -> (r: Diagnostic)
    ensures
        r@ == unknown_diag(key_path@, key@),
{
    Diagnostic::new(
        DiagnosticKind::UnknownManifestKey { key: string_of(key) },
        Location::Manifest { key_path: string_of(key_path) },
    )
}

fn push_diag(out: &mut Vec<Diagnostic>, d: Diagnostic)
    ensures
        final(out).deep_view() == old(out).deep_view().push(d@),
{
    let ghost before = out.deep_view();
    out.push(d);
    assert(out.deep_view() =~= before.push(d@));
}

fn check_keys(
    t: &Vec<(String, RawValue)>,
    known: &Vec<&'static str>,
    prefix: &Vec<char>,
    out: &mut Vec<Diagnostic>,
)
    ensures
        final(out).deep_view() == old(out).deep_view() + keys_unknown(
            prefix@,
            entry_keys(t@),
            strs_view(known@),
        ),
{
    let ghost d0 = out.deep_view();
    let ghost keys = entry_keys(t@);
    let mut k: usize = 0;
    while k < t.len()
        invariant
            keys == entry_keys(t@),
            k <= keys.len(),
            out.deep_view() == d0 + keys_unknown(prefix@, keys.take(k as int), strs_view(known@)),
        decreases keys.len() - k,
    {
        let key = chars_of(t[k].0.as_str());
        assert(keys.take(k + 1).drop_last() =~= keys.take(k as int));
        assert(keys.take(k + 1).last() == key@);
        if !contains_key(known, &key) {
            let mut path = prefix.clone();
            push_all(&mut path, &chars_of("."));
            push_all(&mut path, &key);
            push_diag(out, unknown(&path, &key));
        }
        k = k + 1;
    }
    assert(keys.take(keys.len() as int) =~= keys);
}

fn check_table(
    value: &RawValue,
    known: &Vec<&'static str>,
    prefix: &Vec<char>,
    out: &mut Vec<Diagnostic>,
)
    ensures
        final(out).deep_view() == old(out).deep_view() + table_unknown(
            *value,
            strs_view(known@),
            prefix@,
        ),
{
    match value {
        RawValue::Table(t) => check_keys(t, known, prefix, out),
        _ => {
            assert(out.deep_view() =~= out.deep_view() + Seq::<DiagV>::empty());
        },
    }
}

fn indexed_exec(prefix: &str, i: usize) -> (r: Vec<char>)
    ensures
        r@ == indexed(prefix@, i as int),
{
    let mut r = chars_of(prefix);
    push_all(&mut r, &chars_of("["));
    push_all(&mut r, &decimal_usize(i));
    push_all(&mut r, &chars_of("]"));
    r
}

fn check_array(value: &RawValue, known: &Vec<&'static str>, prefix: &str, out: &mut Vec<Diagnostic>)
    ensures
        final(out).deep_view() == old(out).deep_view() + array_unknown(
            *value,
            strs_view(known@),
            prefix@,
        ),
{
    match value {
        RawValue::Array(items) => {
            let ghost d0 = out.deep_view();
            let mut k: usize = 0;
            while k < items.len()
                invariant
                    k <= items@.len(),
                    out.deep_view() == d0 + items_unknown(
                        items@.take(k as int),
                        strs_view(known@),
                        prefix@,
                    ),
                decreases items@.len() - k,
            {
                assert(items@.take(k + 1).drop_last() =~= items@.take(k as int));
                check_table(&items[k], known, &indexed_exec(prefix, k), out);
                k = k + 1;
            }
            assert(items@.take(items@.len() as int) =~= items@);
        },
        _ => {
            assert(out.deep_view() =~= out.deep_view() + Seq::<DiagV>::empty());
        },
    }
}

fn type_tag(t: &Vec<(String, RawValue)>) -> (r: Option<&String>)
    ensures
        match entry_value(t@, "type"@) {
            Some(RawValue::Str(tag)) => r == Some(&tag),
            _ => r is None,
        },
{
    let mut k: usize = 0;
    assert(t@.skip(0) =~= t@);
    while k < t.len()
        invariant
            k <= t@.len(),
            entry_value(t@.skip(k as int), "type"@) == entry_value(t@, "type"@),
        decreases t@.len() - k,
    {
        assert(t@.skip(k as int)[0] == t@[k as int]);
        assert(t@.skip(k as int).drop_first() =~= t@.skip(k + 1));
        if key_is(&chars_of(t[k].0.as_str()), "type") {
            return match &t[k].1 {
                RawValue::Str(s) => Some(s),
                _ => None,
            };
        }
        k = k + 1;
    }
    assert(t@.skip(k as int) =~= Seq::<(String, RawValue)>::empty());
    None
}

fn check_triggers(value: &RawValue, out: &mut Vec<Diagnostic>)
    ensures
        final(out).deep_view() == old(out).deep_view() + triggers_unknown(*value),
{
    match value {
        RawValue::Array(items) => {
            let ghost d0 = out.deep_view();
            let mut k: usize = 0;
            while k < items.len()
                invariant
                    k <= items@.len(),
                    out.deep_view() == d0 + triggers_items_unknown(items@.take(k as int)),
                decreases items@.len() - k,
            {
                assert(items@.take(k + 1).drop_last() =~= items@.take(k as int));
                let prefix = indexed_exec("triggers", k);
                match &items[k] {
                    RawValue::Table(t) => {
                        match type_tag(t) {
                            Some(tag) => {
                                match trigger_keys(tag.as_str()) {
                                    Some(known) => check_keys(t, &known, &prefix, out),
                                    None => {
                                        assert(out.deep_view() =~= out.deep_view() + Seq::<DiagV>::empty());
                                    },
                                }
                            },
                            None => {
                                assert(out.deep_view() =~= out.deep_view() + Seq::<DiagV>::empty());
                            },
                        }
                    },
                    _ => {
                        assert(out.deep_view() =~= out.deep_view() + Seq::<DiagV>::empty());
                    },
                }
                k = k + 1;
            }
            assert(items@.take(items@.len() as int) =~= items@);
        },
        _ => {
            assert(out.deep_view() =~= out.deep_view() + Seq::<DiagV>::empty());
        },
    }
}

/// Append a diagnostic for every key of a manifest document that no
/// modeled table accepts, in the order the tables hold them.
pub fn collect_unknown_keys(raw: &RawValue, out: &mut Vec<Diagnostic>)
    ensures
        final(out).deep_view() == old(out).deep_view() + unknown_keys(*raw),
{
    match raw {
        RawValue::Table(t) => {
            let ghost d0 = out.deep_view();
            let top = vec!["sop", "triggers", "positions", "steps"];
            assert(strs_view(top@) =~= top_keys());
            let mut k: usize = 0;
            while k < t.len()
                invariant
                    k <= t@.len(),
                    strs_view(top@) == top_keys(),
                    out.deep_view() == d0 + top_unknown(t@.take(k as int)),
                decreases t@.len() - k,
            {
                assert(t@.take(k + 1).drop_last() =~= t@.take(k as int));
                let key = chars_of(t[k].0.as_str());
                let value = &t[k].1;
                let ghost before = out.deep_view();
                if !contains_key(&top, &key) {
                    push_diag(out, unknown(&key, &key));
                    assert(out.deep_view() =~= before + seq![unknown_diag(key@, key@)]);
                } else if key_is(&key, "sop") {
                    check_table(value, &sop_key_vec(), &chars_of("sop"), out);
                } else if key_is(&key, "positions") {
                    check_array(value, &position_key_vec(), "positions", out);
                } else if key_is(&key, "steps") {
                    check_array(value, &step_key_vec(), "steps", out);
                } else {
                    check_triggers(value, out);
                }
                k = k + 1;
            }
            assert(t@.take(t@.len() as int) =~= t@);
        },
        _ => {
            assert(out.deep_view() =~= out.deep_view() + Seq::<DiagV>::empty());
        },
    }
}

/// The unknown-key diagnostics of a manifest text, in the order
/// [`collect_unknown_keys`] gives them; `None` when the text is not TOML.
pub fn unknown_manifest_keys(text: &str) -> (r: Option<Vec<Diagnostic>>)
    ensures
        match toml_raw(text@) {
            Some(v) => r matches Some(d) && d.deep_view() == unknown_keys(v),
            None => r is None,
        },
{
    match toml_raw_value(text) {
        Some(v) => {
            let mut d: Vec<Diagnostic> = Vec::new();
            collect_unknown_keys(&v, &mut d);
            assert(d.deep_view() =~= unknown_keys(v));
            Some(d)
        },
        None => None,
    }
}

} // verus!
