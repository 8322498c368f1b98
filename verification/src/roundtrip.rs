//! Printing steps and reading them back.
//!
//! The step format is meant to be lossless: what the printer writes, the
//! reader reads back as the same steps. This module states which steps
//! that holds for and proves it, line by line: the printed document is a
//! `## Steps` heading, then per step a blank line, the item line carrying
//! the title and the body's first line, the body's other lines, and one
//! bullet per field that differs from its default.

use vstd::prelude::*;
use crate::grammar::{
    bold_title, csv_list, execution_mode, nonempty_trimmed, numbered_item, planned_call,
    split_bullet, step_failure, step_kind, switch_rules, u32_list, value_fragment,
};
use crate::model::{
    default_routing, default_step, CallV, RoutingV, SchemaV, ScopeV, SopExecutionMode, StepV,
    SwitchRuleV,
};
use crate::parse::{nonempty, schema_or_default, scope_or_default};
use crate::parse::{
    bullet_applied, bullet_effect, flushed, initial_state, new_step, next_number, parse_steps_spec,
    process_line, run_lines, ParseState,
};
use crate::print::{bullet, call_text, has_sep, mode_text, port_text, print_spec, step_lines};
use crate::text::{
    all_digits, all_ws, decimal, eq_ignore_ascii_case, find, has_char, is_trimmed, is_ws, join,
    lines, parse_u32, starts_with, trim, trim_end, trim_start, trim_start_matches,
};

verus! {

// ── Reading lines in sequence ───────────────────────────────────

/// Reading two runs of lines is reading the first, then the second.
pub proof fn lemma_run_lines_append(st: ParseState, a: Seq<Seq<char>>, b: Seq<Seq<char>>, n: nat)
    ensures
        run_lines(st, a + b, n) == run_lines(run_lines(st, a, n), b, n + a.len()),
    decreases a.len(),
{
    if a.len() == 0 {
        assert(a + b =~= b);
    } else {
        assert((a + b)[0] == a[0]);
        assert((a + b).drop_first() =~= a.drop_first() + b);
        lemma_run_lines_append(process_line(st, a[0], n), a.drop_first(), b, n + 1);
    }
}

pub proof fn lemma_run_lines_push(st: ParseState, a: Seq<Seq<char>>, l: Seq<char>, n: nat)
    ensures
        run_lines(st, a.push(l), n) == process_line(run_lines(st, a, n), l, n + a.len()),
{
    lemma_run_lines_append(st, a, seq![l], n);
    assert(a + seq![l] =~= a.push(l));
    let mid = run_lines(st, a, n);
    assert(seq![l].drop_first() =~= Seq::<Seq<char>>::empty());
    assert(run_lines(mid, seq![l], n + a.len()) == run_lines(
        process_line(mid, l, n + a.len()),
        Seq::<Seq<char>>::empty(),
        n + a.len() + 1,
    ));
}

/// Bullet lines as printed: indented, with the `- ` marker.
pub open spec fn marked(bs: Seq<Seq<char>>) -> Seq<Seq<char>> {
    bs.map_values(|b: Seq<char>| "   - "@ + b)
}

pub proof fn lemma_marked_push(bs: Seq<Seq<char>>, b: Seq<char>)
    ensures
        marked(bs.push(b)) == marked(bs).push("   - "@ + b),
{
    assert(marked(bs.push(b)) =~= marked(bs).push("   - "@ + b));
}

// ── Bullet keys ─────────────────────────────────────────────────

/// The bullet keys the reader recognizes, in every accepted spelling.
pub open spec fn is_key(k: Seq<char>) -> bool {
    k == "tools"@ || k == "allow-tools"@ || k == "allow_tools"@ || k == "deny-tools"@ || k
        == "deny_tools"@ || k == "requires_confirmation"@ || k == "kind"@ || k == "capability"@
        || k == "with"@ || k == "input"@ || k == "output"@ || k == "when"@ || k == "next"@ || k
        == "terminal"@ || k == "depends_on"@ || k == "depends-on"@ || k == "switch"@ || k
        == "on_failure"@ || k == "on-failure"@ || k == "mode"@ || k == "agent"@ || k == "call"@
        || k == "prompt"@ || k == "policy"@ || k == "edit"@
}

/// A recognized key always has an effect; any other key has none.
pub proof fn lemma_effect_iff_key(step: StepV, key: Seq<char>, v: Seq<char>)
    ensures
        bullet_effect(step, key, v) is Some <==> is_key(key),
{
}

/// The step a recognized bullet leaves behind.
pub open spec fn effect_step(step: StepV, key: Seq<char>, v: Seq<char>) -> StepV {
    match bullet_effect(step, key, v) {
        Some((s2, _)) => s2,
        None => step,
    }
}

/// A key as the printer writes it: non-empty, without whitespace or a
/// colon.
pub open spec fn key_shape(k: Seq<char>) -> bool {
    k.len() > 0 && (forall|i: int| 0 <= i < k.len() ==> !is_ws(#[trigger] k[i]) && k[i] != ':')
}

/// What a bullet line reads as, when the line is a printed `key: value`.
pub open spec fn bullet_text_ok(key: Seq<char>, v: Seq<char>) -> bool {
    key_shape(key) && is_key(key) && is_trimmed(v) && !has_char(v, '\n')
}

pub open spec fn is_line(l: Seq<char>) -> bool {
    crate::text::is_line(l)
}

pub open spec fn all_lines(ls: Seq<Seq<char>>) -> bool {
    forall|j: int| 0 <= j < ls.len() ==> is_line(#[trigger] ls[j])
}

/// The text of a printed bullet once the line is trimmed and its marker
/// removed.
pub open spec fn bullet_body(key: Seq<char>, v: Seq<char>) -> Seq<char> {
    if v.len() > 0 {
        key + seq![':', ' '] + v
    } else {
        key + seq![':']
    }
}

proof fn lemma_bullet_trim(key: Seq<char>, v: Seq<char>)
    requires
        bullet_text_ok(key, v),
    ensures
        trim("   - "@ + bullet(key, v)) == seq!['-', ' '] + bullet_body(key, v),
        is_line("   - "@ + bullet(key, v)),
{
    reveal_strlit("   - ");
    reveal_strlit(": ");
    assert("   - "@ =~= seq![' ', ' ', ' ', '-', ' ']);
    assert(": "@ =~= seq![':', ' ']);
    let line = "   - "@ + bullet(key, v);
    let t = seq!['-', ' '] + bullet_body(key, v);
    assert(line =~= seq![' ', ' ', ' ', '-', ' '] + key + seq![':', ' '] + v);
    let u = line.skip(3);
    assert(u =~= seq!['-', ' '] + key + seq![':', ' '] + v);
    assert(all_ws(line.take(3))) by {
        assert forall|k: int| 0 <= k < 3 implies is_ws(#[trigger] line.take(3)[k]) by {
            assert(line.take(3)[k] == ' ');
        }
    }
    crate::text::lemma_trim_start_skip(line, 3);
    if v.len() > 0 {
        assert(u =~= (seq!['-', ' '] + key + seq![':', ' ']) + v);
        crate::text::lemma_trim_end_nonws_tail(seq!['-', ' '] + key + seq![':', ' '], v);
        assert(u =~= t);
    } else {
        assert(all_ws(u.skip(u.len() - 1))) by {
            assert forall|k: int| 0 <= k < u.skip(u.len() - 1).len() implies is_ws(
                #[trigger] u.skip(u.len() - 1)[k],
            ) by {
                assert(u.skip(u.len() - 1)[k] == ' ');
            }
        }
        assert(u[u.len() - 2] == ':');
        crate::text::lemma_trim_end_take(u, u.len() - 1);
        assert(u.take(u.len() - 1) =~= t);
    }
    assert(!has_char(line, '\n')) by {
        if has_char(line, '\n') {
            let k = choose|k: int| 0 <= k < line.len() && line[k] == '\n';
            if k < 5 {
            } else if k < 5 + key.len() {
                assert(line[k] == key[k - 5]);
                assert(is_ws(key[k - 5]));
            } else if k < 7 + key.len() {
            } else {
                assert(line[k] == v[k - 7 - key.len()]);
            }
        }
    }
    assert(!(line.len() > 0 && line.last() == '\r')) by {
        if v.len() > 0 {
            assert(line.last() == v.last());
        } else {
            assert(line.last() == ' ');
        }
    }
}

proof fn lemma_bullet_marker(key: Seq<char>, v: Seq<char>)
    requires
        bullet_text_ok(key, v),
    ensures
        ({
            let t = seq!['-', ' '] + bullet_body(key, v);
            &&& !starts_with(t, "## "@)
            &&& numbered_item(t) is None
            &&& starts_with(t, "- "@)
            &&& trim(trim_start_matches(t, "- "@)) == bullet_body(key, v)
        }),
{
    reveal_strlit("- ");
    reveal_strlit("## ");
    assert("- "@ =~= seq!['-', ' ']);
    assert("## "@ =~= seq!['#', '#', ' ']);
    let b = bullet_body(key, v);
    let t = seq!['-', ' '] + b;
    assert(t[0] == '-');
    assert(!starts_with(t, "## "@)) by {
        if starts_with(t, "## "@) {
            assert(t.take(3)[0] == t[0]);
        }
    }
    assert(numbered_item(t) is None) by {
        match find(t, seq!['.', ' ']) {
            Some(dot) => {
                crate::text::lemma_find_from(t, seq!['.', ' '], 0);
                if dot > 0 {
                    assert(!crate::text::is_digit(t.take(dot)[0]));
                    assert(!all_digits(t.take(dot)));
                }
            },
            None => {},
        }
    }
    assert(t.take(2) =~= seq!['-', ' ']);
    assert(t.skip(2) =~= b);
    assert(!starts_with(b, "- "@)) by {
        if starts_with(b, "- "@) {
            assert(b.take(2)[1] == ' ');
            if key.len() > 1 {
                assert(b[1] == key[1]);
            } else {
                assert(b[1] == ':');
            }
        }
    }
    assert(trim_start_matches(t, "- "@) == trim_start_matches(t.skip(2), "- "@));
    assert(b[0] == key[0]);
    assert(is_trimmed(b)) by {
        if v.len() > 0 {
            assert(b.last() == v.last());
        } else {
            assert(b.last() == ':');
        }
    }
    crate::text::lemma_trim_trimmed(b);
}

proof fn lemma_bullet_split(key: Seq<char>, v: Seq<char>)
    requires
        bullet_text_ok(key, v),
    ensures
        split_bullet(bullet_body(key, v)) matches Some((k, value)) && k == key && trim(value) == v,
{
    let b = bullet_body(key, v);
    assert(b[key.len() as int] == ':');
    assert forall|j: int| 0 <= j < key.len() implies b[j] != ':' by {
        assert(b[j] == key[j]);
    }
    crate::text::lemma_find_char_is(b, ':', key.len() as int);
    assert(b.take(key.len() as int) =~= key);
    assert(!crate::grammar::has_ws(key)) by {
        if crate::grammar::has_ws(key) {
            let k = choose|k: int| 0 <= k < key.len() && is_ws(key[k]);
            assert(!is_ws(key[k]));
        }
    }
    let value = b.skip(key.len() as int + 1);
    if v.len() > 0 {
        assert(value =~= seq![' '] + v);
        assert(all_ws(value.take(1))) by {
            assert(value.take(1)[0] == ' ');
        }
        crate::text::lemma_trim_start_skip(value, 1);
        assert(value.skip(1) =~= v);
        crate::text::lemma_trim_trimmed(v);
    } else {
        assert(value =~= Seq::<char>::empty());
    }
}

/// One printed bullet line applies its key's effect to the open step.
pub proof fn lemma_bullet_line(st: ParseState, key: Seq<char>, v: Seq<char>, n: nat)
    requires
        st.in_section,
        st.current is Some,
        bullet_text_ok(key, v),
    ensures
        is_line("   - "@ + bullet(key, v)),
        process_line(st, "   - "@ + bullet(key, v), n).in_section,
        process_line(st, "   - "@ + bullet(key, v), n).steps == st.steps,
        process_line(st, "   - "@ + bullet(key, v), n).current == Some(
            effect_step(st.current->0, key, v),
        ),
{
    lemma_bullet_trim(key, v);
    lemma_bullet_marker(key, v);
    lemma_bullet_split(key, v);
    lemma_effect_iff_key(st.current->0, key, v);
    let b = bullet_body(key, v);
    assert(bullet_applied(st, b, n) is Some);
}

/// The keys the printer writes have the shape the reader needs.
pub proof fn lemma_printed_keys()
    ensures
        bullet_key_ok("tools"@),
        bullet_key_ok("allow-tools"@),
        bullet_key_ok("deny-tools"@),
        bullet_key_ok("requires_confirmation"@),
        bullet_key_ok("kind"@),
        bullet_key_ok("capability"@),
        bullet_key_ok("with"@),
        bullet_key_ok("input"@),
        bullet_key_ok("output"@),
        bullet_key_ok("when"@),
        bullet_key_ok("next"@),
        bullet_key_ok("terminal"@),
        bullet_key_ok("depends_on"@),
        bullet_key_ok("switch"@),
        bullet_key_ok("on_failure"@),
        bullet_key_ok("mode"@),
        bullet_key_ok("agent"@),
        bullet_key_ok("call"@),
        bullet_key_ok("prompt"@),
        bullet_key_ok("policy"@),
        bullet_key_ok("edit"@),
{
    reveal_strlit("tools");
    reveal_strlit("allow-tools");
    reveal_strlit("deny-tools");
    reveal_strlit("requires_confirmation");
    reveal_strlit("kind");
    reveal_strlit("capability");
    reveal_strlit("with");
    reveal_strlit("input");
    reveal_strlit("output");
    reveal_strlit("when");
    reveal_strlit("next");
    reveal_strlit("terminal");
    reveal_strlit("depends_on");
    reveal_strlit("switch");
    reveal_strlit("on_failure");
    reveal_strlit("mode");
    reveal_strlit("agent");
    reveal_strlit("call");
    reveal_strlit("prompt");
    reveal_strlit("policy");
    reveal_strlit("edit");
}

pub open spec fn bullet_key_ok(k: Seq<char>) -> bool {
    key_shape(k) && is_key(k)
}

// ── Lists ───────────────────────────────────────────────────────

/// Non-empty, trimmed text on one line.
pub open spec fn filled(s: Seq<char>) -> bool {
    s.len() > 0 && is_trimmed(s) && !has_char(s, '\n')
}

/// Splitting after a separator that the last part does not contain.
pub proof fn lemma_split_append(a: Seq<char>, y: Seq<char>, c: char)
    requires
        !has_char(y, c),
    ensures
        crate::text::split_char(a + seq![c] + y, c) == crate::text::split_char(a, c).push(y),
    decreases a.len(),
{
    let s = a + seq![c] + y;
    if a.len() == 0 {
        assert(s =~= Seq::<char>::empty() + seq![c] + y);
        crate::text::lemma_split_concat(Seq::<char>::empty(), y, c);
        crate::text::lemma_split_no_char(y, c);
        assert(crate::text::split_char(a, c) =~= seq![Seq::<char>::empty()]);
        assert(crate::text::split_char(s, c) =~= crate::text::split_char(a, c).push(y));
    } else {
        let t = a.drop_first();
        assert(s.drop_first() =~= t + seq![c] + y);
        lemma_split_append(t, y, c);
        crate::text::lemma_split_len(t, c);
        let st = crate::text::split_char(t, c);
        assert(s[0] == a[0]);
        if a[0] == c {
            assert(crate::text::split_char(s, c) =~= crate::text::split_char(a, c).push(y));
        } else {
            assert(crate::text::split_char(s, c) =~= crate::text::split_char(a, c).push(y));
        }
    }
}

/// The pieces of a list joined with `sep` + space, split at `sep`: the first
/// item, then each later item behind a space.
pub open spec fn spaced(xs: Seq<Seq<char>>) -> Seq<Seq<char>> {
    Seq::new(xs.len(), |i: int| if i == 0 { xs[0] } else { seq![' '] + xs[i] })
}

pub proof fn lemma_split_join(xs: Seq<Seq<char>>, c: char)
    requires
        xs.len() > 0,
        c != ' ',
        forall|i: int| 0 <= i < xs.len() ==> !has_char(#[trigger] xs[i], c),
    ensures
        crate::text::split_char(join(xs, seq![c, ' ']), c) == spaced(xs),
    decreases xs.len(),
{
    if xs.len() == 1 {
        crate::text::lemma_split_no_char(xs[0], c);
        assert(spaced(xs) =~= seq![xs[0]]);
    } else {
        let init = xs.drop_last();
        lemma_split_join(init, c);
        let y = seq![' '] + xs.last();
        assert(!has_char(y, c)) by {
            if has_char(y, c) {
                let k = choose|k: int| 0 <= k < y.len() && y[k] == c;
                if k > 0 {
                    assert(xs.last()[k - 1] == c);
                    assert(has_char(xs[xs.len() - 1], c));
                }
            }
        }
        assert(join(xs, seq![c, ' ']) =~= join(init, seq![c, ' ']) + seq![c] + y);
        lemma_split_append(join(init, seq![c, ' ']), y, c);
        assert(spaced(xs) =~= spaced(init).push(y));
    }
}

pub proof fn lemma_trim_spaced(x: Seq<char>)
    requires
        filled(x),
    ensures
        trim(seq![' '] + x) == x,
{
    let y = seq![' '] + x;
    assert(all_ws(y.take(1))) by {
        assert(y.take(1)[0] == ' ');
    }
    crate::text::lemma_trim_start_skip(y, 1);
    assert(y.skip(1) =~= x);
    crate::text::lemma_trim_trimmed(x);
}

/// A joined list starts with its first item's start and ends with its last
/// item's end, and has no newline when no item has one.
pub proof fn lemma_join_ends(xs: Seq<Seq<char>>, sep: Seq<char>)
    requires
        xs.len() > 0,
        forall|i: int| 0 <= i < xs.len() ==> (#[trigger] xs[i]).len() > 0,
    ensures
        join(xs, sep).len() > 0,
        join(xs, sep)[0] == xs[0][0],
        join(xs, sep).last() == xs.last().last(),
    decreases xs.len(),
{
    if xs.len() > 1 {
        lemma_join_ends(xs.drop_last(), sep);
        let j = join(xs.drop_last(), sep);
        assert((j + sep + xs.last())[0] == j[0]);
    }
}

pub proof fn lemma_join_one_line(xs: Seq<Seq<char>>, sep: Seq<char>)
    requires
        !has_char(sep, '\n'),
        forall|i: int| 0 <= i < xs.len() ==> !has_char(#[trigger] xs[i], '\n'),
    ensures
        !has_char(join(xs, sep), '\n'),
    decreases xs.len(),
{
    if xs.len() > 1 {
        lemma_join_one_line(xs.drop_last(), sep);
        let j = join(xs.drop_last(), sep);
        let r = j + sep + xs.last();
        if has_char(r, '\n') {
            let k = choose|k: int| 0 <= k < r.len() && r[k] == '\n';
            if k < j.len() {
                assert(j[k] == '\n');
            } else if k < j.len() + sep.len() {
                assert(sep[k - j.len()] == '\n');
            } else {
                assert(xs.last()[k - j.len() - sep.len()] == '\n');
                assert(has_char(xs[xs.len() - 1], '\n'));
            }
        }
    } else if xs.len() == 1 {
        assert(!has_char(xs[0], '\n'));
    }
}

/// Tool names as the printer writes them.
pub open spec fn names_ok(ns: Seq<Seq<char>>) -> bool {
    forall|i: int| 0 <= i < ns.len() ==> filled(#[trigger] ns[i]) && !has_char(ns[i], ',')
}

pub proof fn lemma_nonempty_trimmed_spaced(xs: Seq<Seq<char>>)
    requires
        forall|i: int| 0 <= i < xs.len() ==> filled(#[trigger] xs[i]),
    ensures
        nonempty_trimmed(spaced(xs)) == xs,
    decreases xs.len(),
{
    if xs.len() > 0 {
        let init = xs.drop_last();
        lemma_nonempty_trimmed_spaced(init);
        assert(spaced(xs).drop_last() =~= spaced(init));
        if xs.len() == 1 {
            crate::text::lemma_trim_trimmed(xs[0]);
        } else {
            lemma_trim_spaced(xs.last());
        }
        assert(nonempty_trimmed(spaced(xs)) =~= xs);
    } else {
        assert(nonempty_trimmed(spaced(xs)) =~= xs);
    }
}

/// A list of names reads back as itself, from a trimmed single line.
pub proof fn lemma_names_round_trip(ns: Seq<Seq<char>>)
    requires
        names_ok(ns),
    ensures
        csv_list(join(ns, ", "@)) == ns,
        is_trimmed(join(ns, ", "@)),
        !has_char(join(ns, ", "@), '\n'),
{
    reveal_strlit(", ");
    assert(", "@ =~= seq![',', ' ']);
    if ns.len() == 0 {
        crate::text::lemma_split_len(Seq::<char>::empty(), ',');
        assert(crate::text::split_char(Seq::<char>::empty(), ',') =~= seq![Seq::<char>::empty()]);
        assert(nonempty_trimmed(seq![Seq::<char>::empty()]) =~= Seq::<Seq<char>>::empty()) by {
            assert(seq![Seq::<char>::empty()].drop_last() =~= Seq::<Seq<char>>::empty());
            assert(seq![Seq::<char>::empty()].last() == Seq::<char>::empty());
            assert(trim(Seq::<char>::empty()) =~= Seq::<char>::empty());
            assert(nonempty_trimmed(Seq::<Seq<char>>::empty()) =~= Seq::<Seq<char>>::empty());
        }
    } else {
        lemma_split_join(ns, ',');
        lemma_nonempty_trimmed_spaced(ns);
        lemma_join_ends(ns, ", "@);
        assert(is_trimmed(ns[0]) && ns[0].len() > 0);
        assert(is_trimmed(ns.last()) && ns.last().len() > 0) by {
            assert(filled(ns[ns.len() - 1]));
        }
    }
    lemma_join_one_line(ns, ", "@);
}

/// A decimal rendering is filled text free of the list separators.
pub proof fn lemma_decimal_text(n: nat)
    ensures
        filled(decimal(n)),
        !has_char(decimal(n), ','),
        !has_char(decimal(n), ';'),
        !has_char(decimal(n), '>'),
        crate::text::all_digits(decimal(n)),
{
    crate::text::lemma_decimal(n);
    let d = decimal(n);
    assert(crate::text::is_digit(d[0]));
    assert(crate::text::is_digit(d.last()));
    crate::text::lemma_decimal_no_char(n, ',');
    crate::text::lemma_decimal_no_char(n, ';');
    crate::text::lemma_decimal_no_char(n, '>');
    crate::text::lemma_decimal_no_char(n, '\n');
}

pub open spec fn decimals(ns: Seq<u32>) -> Seq<Seq<char>> {
    ns.map_values(|n: u32| decimal(n as nat))
}

pub proof fn lemma_u32_items_spaced(ns: Seq<u32>)
    ensures
        crate::grammar::u32_items(spaced(decimals(ns))) == (ns, Seq::<Seq<char>>::empty()),
    decreases ns.len(),
{
    if ns.len() > 0 {
        let init = ns.drop_last();
        lemma_u32_items_spaced(init);
        assert(decimals(ns).drop_last() =~= decimals(init));
        assert(spaced(decimals(ns)).drop_last() =~= spaced(decimals(init)));
        lemma_decimal_text(ns.last() as nat);
        crate::text::lemma_parse_decimal(ns.last());
        if ns.len() == 1 {
            crate::text::lemma_trim_trimmed(decimal(ns.last() as nat));
        } else {
            lemma_trim_spaced(decimal(ns.last() as nat));
        }
        assert(init.push(ns.last()) =~= ns);
    } else {
        assert(spaced(decimals(ns)) =~= Seq::<Seq<char>>::empty());
    }
}

/// A list of step numbers reads back as itself.
pub proof fn lemma_numbers_round_trip(ns: Seq<u32>)
    requires
        ns.len() > 0,
    ensures
        u32_list(join(decimals(ns), ", "@)).0 == ns,
        is_trimmed(join(decimals(ns), ", "@)),
        !has_char(join(decimals(ns), ", "@), '\n'),
{
    reveal_strlit(", ");
    assert(", "@ =~= seq![',', ' ']);
    let ds = decimals(ns);
    assert forall|i: int| 0 <= i < ds.len() implies filled(#[trigger] ds[i]) && !has_char(ds[i], ',') by {
        lemma_decimal_text(ns[i] as nat);
    }
    lemma_split_join(ds, ',');
    lemma_u32_items_spaced(ns);
    lemma_join_ends(ds, ", "@);
    assert(filled(ds[0]));
    assert(filled(ds[ds.len() - 1]));
    lemma_join_one_line(ds, ", "@);
}

/// A switch port as the printer writes it.
pub open spec fn port_ok(r: SwitchRuleV) -> bool {
    &&& filled(r.name)
    &&& !has_sep(r.name)
    &&& match r.when {
        Some(w) => filled(w) && !has_sep(w),
        None => true,
    }
}

pub open spec fn opt_text(o: Option<Seq<char>>) -> Seq<char> {
    match o {
        Some(t) => t,
        None => Seq::empty(),
    }
}

pub open spec fn goto_text(g: Option<u32>) -> Seq<char> {
    match g {
        Some(n) => decimal(n as nat),
        None => Seq::empty(),
    }
}

pub proof fn lemma_port_parts(r: SwitchRuleV)
    requires
        port_ok(r),
    ensures
        port_text(r) == r.name + seq!['>'] + opt_text(r.when) + seq!['>'] + goto_text(r.goto),
        !has_char(port_text(r), ';'),
        !has_char(port_text(r), '\n'),
        filled(goto_text(r.goto)) || goto_text(r.goto).len() == 0,
        !has_char(goto_text(r.goto), '>'),
        port_text(r).len() > 0,
        !is_ws(port_text(r)[0]),
{
    let t = port_text(r);
    let w = opt_text(r.when);
    let g = goto_text(r.goto);
    assert(t =~= r.name + seq!['>'] + w + seq!['>'] + g) by {
        assert(crate::print::opt_text(r.when) == w);
    }
    match r.goto {
        Some(n) => lemma_decimal_text(n as nat),
        None => {},
    }
    assert(!has_char(w, ';') && !has_char(w, '\n')) by {
        match r.when {
            Some(x) => {},
            None => {},
        }
    }
    assert(!has_char(g, ';') && !has_char(g, '\n'));
    assert forall|k: int| 0 <= k < t.len() implies t[k] != ';' && t[k] != '\n' by {
        let nl = r.name.len();
        if k < nl {
            assert(t[k] == r.name[k]);
        } else if k == nl {
        } else if k < nl + 1 + w.len() {
            assert(t[k] == w[k - nl - 1]);
        } else if k == nl + 1 + w.len() {
        } else {
            assert(t[k] == g[k - nl - 2 - w.len()]);
        }
    }
    assert(t[0] == r.name[0]);
}

#[verifier::spinoff_prover]
#[verifier::rlimit(50)]
proof fn lemma_port_splitn3(p: Seq<char>, r: SwitchRuleV)
    requires
        port_ok(r),
        p == Seq::<char>::empty() || p == seq![' '],
    ensures
        crate::grammar::splitn3(p + port_text(r), '>') == (
            p + r.name,
            opt_text(r.when),
            goto_text(r.goto),
        ),
{
    lemma_port_parts(r);
    let w = opt_text(r.when);
    let g = goto_text(r.goto);
    let seg = p + port_text(r);
    let i: int = (p.len() + r.name.len()) as int;
    assert(seg =~= (p + r.name) + seq!['>'] + (w + seq!['>'] + g));
    assert(seg[i] == '>');
    assert forall|j: int| 0 <= j < i implies seg[j] != '>' by {
        if j >= p.len() {
            assert(seg[j] == r.name[j - p.len()]);
            if r.name[j - p.len()] == '>' {
                assert(has_char(r.name, '>'));
            }
        }
    }
    crate::text::lemma_find_char_is(seg, '>', i);
    let rest = seg.skip(i + 1);
    assert(rest =~= w + seq!['>'] + g);
    assert(rest[w.len() as int] == '>');
    assert forall|j: int| 0 <= j < w.len() implies rest[j] != '>' by {
        assert(rest[j] == w[j]);
        match r.when {
            Some(x) => {
                if x[j] == '>' {
                    assert(has_char(x, '>'));
                }
            },
            None => {},
        }
    }
    crate::text::lemma_find_char_is(rest, '>', w.len() as int);
    assert(seg.take(i) =~= p + r.name);
    assert(rest.take(w.len() as int) =~= w);
    assert(rest.skip(w.len() as int + 1) =~= g);
}

proof fn lemma_port_nonblank(p: Seq<char>, r: SwitchRuleV)
    requires
        port_ok(r),
        p == Seq::<char>::empty() || p == seq![' '],
    ensures
        trim(p + port_text(r)).len() > 0,
{
    lemma_port_parts(r);
    let seg = p + port_text(r);
    if p.len() == 0 {
        assert(seg =~= port_text(r));
        crate::text::lemma_trim_start_nonws_head(seg, Seq::<char>::empty());
        assert(seg + Seq::<char>::empty() =~= seg);
    } else {
        assert(all_ws(seg.take(1))) by {
            assert(seg.take(1)[0] == ' ');
        }
        assert(seg[1] == port_text(r)[0]);
        crate::text::lemma_trim_start_skip(seg, 1);
    }
    let ts = trim_start(seg);
    assert(ts.len() > 0 && !is_ws(ts[0]));
    lemma_trim_end_keeps_head(ts);
}

pub proof fn lemma_switch_segment(p: Seq<char>, r: SwitchRuleV)
    requires
        port_ok(r),
        p == Seq::<char>::empty() || p == seq![' '],
    ensures
        crate::grammar::switch_segment(p + port_text(r)) == (Some(r), None::<Seq<char>>),
{
    lemma_port_parts(r);
    lemma_port_splitn3(p, r);
    lemma_port_nonblank(p, r);
    let w = opt_text(r.when);
    let g = goto_text(r.goto);
    assert(trim(p + r.name) == r.name) by {
        if p.len() == 0 {
            assert(p + r.name =~= r.name);
            crate::text::lemma_trim_trimmed(r.name);
        } else {
            lemma_trim_spaced(r.name);
        }
    }
    match r.when {
        Some(x) => crate::text::lemma_trim_trimmed(x),
        None => {
            assert(trim(w) =~= Seq::<char>::empty());
        },
    }
    match r.goto {
        Some(n) => {
            crate::text::lemma_trim_trimmed(g);
            crate::text::lemma_parse_decimal(n);
        },
        None => {
            assert(trim(g) =~= Seq::<char>::empty());
        },
    }
}

pub proof fn lemma_trim_end_keeps_head(s: Seq<char>)
    requires
        s.len() > 0,
        !is_ws(s[0]),
    ensures
        trim_end(s).len() > 0,
    decreases s.len(),
{
    if is_ws(s.last()) {
        assert(s.len() > 1);
        assert(s.drop_last()[0] == s[0]);
        lemma_trim_end_keeps_head(s.drop_last());
    }
}

pub open spec fn ports(rs: Seq<SwitchRuleV>) -> Seq<Seq<char>> {
    rs.map_values(|r: SwitchRuleV| port_text(r))
}

pub proof fn lemma_switch_items_spaced(rs: Seq<SwitchRuleV>)
    requires
        forall|i: int| 0 <= i < rs.len() ==> port_ok(#[trigger] rs[i]),
    ensures
        crate::grammar::switch_items(spaced(ports(rs))) == (rs, Seq::<Seq<char>>::empty()),
    decreases rs.len(),
{
    if rs.len() > 0 {
        let init = rs.drop_last();
        lemma_switch_items_spaced(init);
        assert(ports(rs).drop_last() =~= ports(init));
        assert(spaced(ports(rs)).drop_last() =~= spaced(ports(init)));
        assert(port_ok(rs[rs.len() - 1]));
        if rs.len() == 1 {
            assert(spaced(ports(rs)).last() =~= Seq::<char>::empty() + port_text(rs.last()));
            lemma_switch_segment(Seq::<char>::empty(), rs.last());
        } else {
            assert(spaced(ports(rs)).last() =~= seq![' '] + port_text(rs.last()));
            lemma_switch_segment(seq![' '], rs.last());
        }
        assert(init.push(rs.last()) =~= rs);
    } else {
        assert(spaced(ports(rs)) =~= Seq::<Seq<char>>::empty());
    }
}

/// Switch ports read back as themselves.
pub proof fn lemma_ports_round_trip(rs: Seq<SwitchRuleV>)
    requires
        rs.len() > 0,
        forall|i: int| 0 <= i < rs.len() ==> port_ok(#[trigger] rs[i]),
    ensures
        switch_rules(join(ports(rs), "; "@)).0 == rs,
        is_trimmed(join(ports(rs), "; "@)),
        !has_char(join(ports(rs), "; "@), '\n'),
{
    reveal_strlit("; ");
    assert("; "@ =~= seq![';', ' ']);
    let ps = ports(rs);
    assert forall|i: int| 0 <= i < ps.len() implies !has_char(#[trigger] ps[i], ';') && !has_char(
        ps[i],
        '\n',
    ) && ps[i].len() > 0 by {
        lemma_port_parts(rs[i]);
    }
    lemma_split_join(ps, ';');
    lemma_switch_items_spaced(rs);
    lemma_join_ends(ps, "; "@);
    lemma_port_parts(rs[0]);
    lemma_port_parts(rs[rs.len() - 1]);
    let last = rs[rs.len() - 1];
    assert(!is_ws(ps.last().last())) by {
        let t = port_text(last);
        if last.goto is Some {
            assert(t.last() == goto_text(last.goto).last());
        } else {
            assert(t.last() == '>');
        }
    }
    lemma_join_one_line(ps, "; "@);
}

// ── What each printed key does ──────────────────────────────────

pub proof fn lemma_effect_tools(step: StepV, v: Seq<char>)
    ensures
        effect_step(step, "tools"@, v) == (StepV { suggested_tools: csv_list(v), ..step }),
{
    reveal_strlit("tools");
}

pub proof fn lemma_effect_allow_tools(step: StepV, v: Seq<char>)
    ensures
        effect_step(step, "allow-tools"@, v) == (StepV { scope: Some(ScopeV { allow: Some(csv_list(v)), ..scope_or_default(step.scope) }), ..step }),
{
    reveal_strlit("tools");
    reveal_strlit("allow-tools");
    assert("allow-tools"@ != "tools"@) by {
        assert("allow-tools"@.len() != "tools"@.len());
    }
}

pub proof fn lemma_effect_deny_tools(step: StepV, v: Seq<char>)
    ensures
        effect_step(step, "deny-tools"@, v) == (StepV { scope: Some(ScopeV { deny: csv_list(v), ..scope_or_default(step.scope) }), ..step }),
{
    reveal_strlit("tools");
    reveal_strlit("allow-tools");
    reveal_strlit("allow_tools");
    reveal_strlit("deny-tools");
    assert("deny-tools"@ != "tools"@) by {
        assert("deny-tools"@.len() != "tools"@.len());
    }
    assert("deny-tools"@ != "allow-tools"@) by {
        assert("deny-tools"@.len() != "allow-tools"@.len());
    }
    assert("deny-tools"@ != "allow_tools"@) by {
        assert("deny-tools"@.len() != "allow_tools"@.len());
    }
}

pub proof fn lemma_effect_requires_confirmation(step: StepV, v: Seq<char>)
    ensures
        effect_step(step, "requires_confirmation"@, v) == (StepV { requires_confirmation: eq_ignore_ascii_case(v, "true"@), ..step }),
{
    reveal_strlit("tools");
    reveal_strlit("allow-tools");
    reveal_strlit("allow_tools");
    reveal_strlit("deny-tools");
    reveal_strlit("deny_tools");
    reveal_strlit("requires_confirmation");
    assert("requires_confirmation"@ != "tools"@) by {
        assert("requires_confirmation"@.len() != "tools"@.len());
    }
    assert("requires_confirmation"@ != "allow-tools"@) by {
        assert("requires_confirmation"@.len() != "allow-tools"@.len());
    }
    assert("requires_confirmation"@ != "allow_tools"@) by {
        assert("requires_confirmation"@.len() != "allow_tools"@.len());
    }
    assert("requires_confirmation"@ != "deny-tools"@) by {
        assert("requires_confirmation"@.len() != "deny-tools"@.len());
    }
    assert("requires_confirmation"@ != "deny_tools"@) by {
        assert("requires_confirmation"@.len() != "deny_tools"@.len());
    }
}

pub proof fn lemma_effect_kind(step: StepV, v: Seq<char>)
    ensures
        effect_step(step, "kind"@, v) == (StepV { kind: step_kind(v), ..step }),
{
    reveal_strlit("tools");
    reveal_strlit("allow-tools");
    reveal_strlit("allow_tools");
    reveal_strlit("deny-tools");
    reveal_strlit("deny_tools");
    reveal_strlit("requires_confirmation");
    reveal_strlit("kind");
    assert("kind"@ != "tools"@) by {
        assert("kind"@.len() != "tools"@.len());
    }
    assert("kind"@ != "allow-tools"@) by {
        assert("kind"@.len() != "allow-tools"@.len());
    }
    assert("kind"@ != "allow_tools"@) by {
        assert("kind"@.len() != "allow_tools"@.len());
    }
    assert("kind"@ != "deny-tools"@) by {
        assert("kind"@.len() != "deny-tools"@.len());
    }
    assert("kind"@ != "deny_tools"@) by {
        assert("kind"@.len() != "deny_tools"@.len());
    }
    assert("kind"@ != "requires_confirmation"@) by {
        assert("kind"@.len() != "requires_confirmation"@.len());
    }
}

pub proof fn lemma_effect_capability(step: StepV, v: Seq<char>)
    ensures
        effect_step(step, "capability"@, v) == (StepV { capability: Some(v), ..step }),
{
    reveal_strlit("tools");
    reveal_strlit("allow-tools");
    reveal_strlit("allow_tools");
    reveal_strlit("deny-tools");
    reveal_strlit("deny_tools");
    reveal_strlit("requires_confirmation");
    reveal_strlit("kind");
    reveal_strlit("capability");
    assert("capability"@ != "tools"@) by {
        assert("capability"@.len() != "tools"@.len());
    }
    assert("capability"@ != "allow-tools"@) by {
        assert("capability"@.len() != "allow-tools"@.len());
    }
    assert("capability"@ != "allow_tools"@) by {
        assert("capability"@.len() != "allow_tools"@.len());
    }
    assert("capability"@ != "deny-tools"@) by {
        assert("capability"@[0] != "deny-tools"@[0]);
    }
    assert("capability"@ != "deny_tools"@) by {
        assert("capability"@[0] != "deny_tools"@[0]);
    }
    assert("capability"@ != "requires_confirmation"@) by {
        assert("capability"@.len() != "requires_confirmation"@.len());
    }
    assert("capability"@ != "kind"@) by {
        assert("capability"@.len() != "kind"@.len());
    }
}

pub proof fn lemma_effect_with(step: StepV, v: Seq<char>)
    ensures
        effect_step(step, "with"@, v) == (StepV { capability_input: Some(value_fragment(v)), ..step }),
{
    reveal_strlit("tools");
    reveal_strlit("allow-tools");
    reveal_strlit("allow_tools");
    reveal_strlit("deny-tools");
    reveal_strlit("deny_tools");
    reveal_strlit("requires_confirmation");
    reveal_strlit("kind");
    reveal_strlit("capability");
    reveal_strlit("with");
    assert("with"@ != "tools"@) by {
        assert("with"@.len() != "tools"@.len());
    }
    assert("with"@ != "allow-tools"@) by {
        assert("with"@.len() != "allow-tools"@.len());
    }
    assert("with"@ != "allow_tools"@) by {
        assert("with"@.len() != "allow_tools"@.len());
    }
    assert("with"@ != "deny-tools"@) by {
        assert("with"@.len() != "deny-tools"@.len());
    }
    assert("with"@ != "deny_tools"@) by {
        assert("with"@.len() != "deny_tools"@.len());
    }
    assert("with"@ != "requires_confirmation"@) by {
        assert("with"@.len() != "requires_confirmation"@.len());
    }
    assert("with"@ != "kind"@) by {
        assert("with"@[0] != "kind"@[0]);
    }
    assert("with"@ != "capability"@) by {
        assert("with"@.len() != "capability"@.len());
    }
}

pub proof fn lemma_effect_input(step: StepV, v: Seq<char>)
    ensures
        effect_step(step, "input"@, v) == (StepV { schema: Some(SchemaV { input: Some(value_fragment(v)), ..schema_or_default(step.schema) }), ..step }),
{
    reveal_strlit("tools");
    reveal_strlit("allow-tools");
    reveal_strlit("allow_tools");
    reveal_strlit("deny-tools");
    reveal_strlit("deny_tools");
    reveal_strlit("requires_confirmation");
    reveal_strlit("kind");
    reveal_strlit("capability");
    reveal_strlit("with");
    reveal_strlit("input");
    assert("input"@ != "tools"@) by {
        assert("input"@[0] != "tools"@[0]);
    }
    assert("input"@ != "allow-tools"@) by {
        assert("input"@.len() != "allow-tools"@.len());
    }
    assert("input"@ != "allow_tools"@) by {
        assert("input"@.len() != "allow_tools"@.len());
    }
    assert("input"@ != "deny-tools"@) by {
        assert("input"@.len() != "deny-tools"@.len());
    }
    assert("input"@ != "deny_tools"@) by {
        assert("input"@.len() != "deny_tools"@.len());
    }
    assert("input"@ != "requires_confirmation"@) by {
        assert("input"@.len() != "requires_confirmation"@.len());
    }
    assert("input"@ != "kind"@) by {
        assert("input"@.len() != "kind"@.len());
    }
    assert("input"@ != "capability"@) by {
        assert("input"@.len() != "capability"@.len());
    }
    assert("input"@ != "with"@) by {
        assert("input"@.len() != "with"@.len());
    }
}

pub proof fn lemma_effect_output(step: StepV, v: Seq<char>)
    ensures
        effect_step(step, "output"@, v) == (StepV { schema: Some(SchemaV { output: Some(value_fragment(v)), ..schema_or_default(step.schema) }), ..step }),
{
    reveal_strlit("tools");
    reveal_strlit("allow-tools");
    reveal_strlit("allow_tools");
    reveal_strlit("deny-tools");
    reveal_strlit("deny_tools");
    reveal_strlit("requires_confirmation");
    reveal_strlit("kind");
    reveal_strlit("capability");
    reveal_strlit("with");
    reveal_strlit("input");
    reveal_strlit("output");
    assert("output"@ != "tools"@) by {
        assert("output"@.len() != "tools"@.len());
    }
    assert("output"@ != "allow-tools"@) by {
        assert("output"@.len() != "allow-tools"@.len());
    }
    assert("output"@ != "allow_tools"@) by {
        assert("output"@.len() != "allow_tools"@.len());
    }
    assert("output"@ != "deny-tools"@) by {
        assert("output"@.len() != "deny-tools"@.len());
    }
    assert("output"@ != "deny_tools"@) by {
        assert("output"@.len() != "deny_tools"@.len());
    }
    assert("output"@ != "requires_confirmation"@) by {
        assert("output"@.len() != "requires_confirmation"@.len());
    }
    assert("output"@ != "kind"@) by {
        assert("output"@.len() != "kind"@.len());
    }
    assert("output"@ != "capability"@) by {
        assert("output"@.len() != "capability"@.len());
    }
    assert("output"@ != "with"@) by {
        assert("output"@.len() != "with"@.len());
    }
    assert("output"@ != "input"@) by {
        assert("output"@.len() != "input"@.len());
    }
}

pub proof fn lemma_effect_when(step: StepV, v: Seq<char>)
    ensures
        effect_step(step, "when"@, v) == (if v.len() > 0 { StepV { routing: RoutingV { when: Some(v), ..step.routing }, ..step } } else { step }),
{
    reveal_strlit("tools");
    reveal_strlit("allow-tools");
    reveal_strlit("allow_tools");
    reveal_strlit("deny-tools");
    reveal_strlit("deny_tools");
    reveal_strlit("requires_confirmation");
    reveal_strlit("kind");
    reveal_strlit("capability");
    reveal_strlit("with");
    reveal_strlit("input");
    reveal_strlit("output");
    reveal_strlit("when");
    assert("when"@ != "tools"@) by {
        assert("when"@.len() != "tools"@.len());
    }
    assert("when"@ != "allow-tools"@) by {
        assert("when"@.len() != "allow-tools"@.len());
    }
    assert("when"@ != "allow_tools"@) by {
        assert("when"@.len() != "allow_tools"@.len());
    }
    assert("when"@ != "deny-tools"@) by {
        assert("when"@.len() != "deny-tools"@.len());
    }
    assert("when"@ != "deny_tools"@) by {
        assert("when"@.len() != "deny_tools"@.len());
    }
    assert("when"@ != "requires_confirmation"@) by {
        assert("when"@.len() != "requires_confirmation"@.len());
    }
    assert("when"@ != "kind"@) by {
        assert("when"@[0] != "kind"@[0]);
    }
    assert("when"@ != "capability"@) by {
        assert("when"@.len() != "capability"@.len());
    }
    assert("when"@ != "with"@) by {
        assert("when"@[1] != "with"@[1]);
    }
    assert("when"@ != "input"@) by {
        assert("when"@.len() != "input"@.len());
    }
    assert("when"@ != "output"@) by {
        assert("when"@.len() != "output"@.len());
    }
}

pub proof fn lemma_effect_next(step: StepV, v: Seq<char>)
    ensures
        effect_step(step, "next"@, v) == (StepV { routing: RoutingV { next: parse_u32(v), ..step.routing }, ..step }),
{
    reveal_strlit("tools");
    reveal_strlit("allow-tools");
    reveal_strlit("allow_tools");
    reveal_strlit("deny-tools");
    reveal_strlit("deny_tools");
    reveal_strlit("requires_confirmation");
    reveal_strlit("kind");
    reveal_strlit("capability");
    reveal_strlit("with");
    reveal_strlit("input");
    reveal_strlit("output");
    reveal_strlit("when");
    reveal_strlit("next");
    assert("next"@ != "tools"@) by {
        assert("next"@.len() != "tools"@.len());
    }
    assert("next"@ != "allow-tools"@) by {
        assert("next"@.len() != "allow-tools"@.len());
    }
    assert("next"@ != "allow_tools"@) by {
        assert("next"@.len() != "allow_tools"@.len());
    }
    assert("next"@ != "deny-tools"@) by {
        assert("next"@.len() != "deny-tools"@.len());
    }
    assert("next"@ != "deny_tools"@) by {
        assert("next"@.len() != "deny_tools"@.len());
    }
    assert("next"@ != "requires_confirmation"@) by {
        assert("next"@.len() != "requires_confirmation"@.len());
    }
    assert("next"@ != "kind"@) by {
        assert("next"@[0] != "kind"@[0]);
    }
    assert("next"@ != "capability"@) by {
        assert("next"@.len() != "capability"@.len());
    }
    assert("next"@ != "with"@) by {
        assert("next"@[0] != "with"@[0]);
    }
    assert("next"@ != "input"@) by {
        assert("next"@.len() != "input"@.len());
    }
    assert("next"@ != "output"@) by {
        assert("next"@.len() != "output"@.len());
    }
    assert("next"@ != "when"@) by {
        assert("next"@[0] != "when"@[0]);
    }
}

pub proof fn lemma_effect_terminal(step: StepV, v: Seq<char>)
    ensures
        effect_step(step, "terminal"@, v) == (StepV { routing: RoutingV { terminal: eq_ignore_ascii_case(v, "true"@), ..step.routing }, ..step }),
{
    reveal_strlit("tools");
    reveal_strlit("allow-tools");
    reveal_strlit("allow_tools");
    reveal_strlit("deny-tools");
    reveal_strlit("deny_tools");
    reveal_strlit("requires_confirmation");
    reveal_strlit("kind");
    reveal_strlit("capability");
    reveal_strlit("with");
    reveal_strlit("input");
    reveal_strlit("output");
    reveal_strlit("when");
    reveal_strlit("next");
    reveal_strlit("terminal");
    assert("terminal"@ != "tools"@) by {
        assert("terminal"@.len() != "tools"@.len());
    }
    assert("terminal"@ != "allow-tools"@) by {
        assert("terminal"@.len() != "allow-tools"@.len());
    }
    assert("terminal"@ != "allow_tools"@) by {
        assert("terminal"@.len() != "allow_tools"@.len());
    }
    assert("terminal"@ != "deny-tools"@) by {
        assert("terminal"@.len() != "deny-tools"@.len());
    }
    assert("terminal"@ != "deny_tools"@) by {
        assert("terminal"@.len() != "deny_tools"@.len());
    }
    assert("terminal"@ != "requires_confirmation"@) by {
        assert("terminal"@.len() != "requires_confirmation"@.len());
    }
    assert("terminal"@ != "kind"@) by {
        assert("terminal"@.len() != "kind"@.len());
    }
    assert("terminal"@ != "capability"@) by {
        assert("terminal"@.len() != "capability"@.len());
    }
    assert("terminal"@ != "with"@) by {
        assert("terminal"@.len() != "with"@.len());
    }
    assert("terminal"@ != "input"@) by {
        assert("terminal"@.len() != "input"@.len());
    }
    assert("terminal"@ != "output"@) by {
        assert("terminal"@.len() != "output"@.len());
    }
    assert("terminal"@ != "when"@) by {
        assert("terminal"@.len() != "when"@.len());
    }
    assert("terminal"@ != "next"@) by {
        assert("terminal"@.len() != "next"@.len());
    }
}

pub proof fn lemma_effect_depends_on(step: StepV, v: Seq<char>)
    ensures
        effect_step(step, "depends_on"@, v) == (StepV { routing: RoutingV { depends_on: u32_list(v).0, ..step.routing }, ..step }),
{
    reveal_strlit("tools");
    reveal_strlit("allow-tools");
    reveal_strlit("allow_tools");
    reveal_strlit("deny-tools");
    reveal_strlit("deny_tools");
    reveal_strlit("requires_confirmation");
    reveal_strlit("kind");
    reveal_strlit("capability");
    reveal_strlit("with");
    reveal_strlit("input");
    reveal_strlit("output");
    reveal_strlit("when");
    reveal_strlit("next");
    reveal_strlit("terminal");
    reveal_strlit("depends_on");
    assert("depends_on"@ != "tools"@) by {
        assert("depends_on"@.len() != "tools"@.len());
    }
    assert("depends_on"@ != "allow-tools"@) by {
        assert("depends_on"@.len() != "allow-tools"@.len());
    }
    assert("depends_on"@ != "allow_tools"@) by {
        assert("depends_on"@.len() != "allow_tools"@.len());
    }
    assert("depends_on"@ != "deny-tools"@) by {
        assert("depends_on"@[2] != "deny-tools"@[2]);
    }
    assert("depends_on"@ != "deny_tools"@) by {
        assert("depends_on"@[2] != "deny_tools"@[2]);
    }
    assert("depends_on"@ != "requires_confirmation"@) by {
        assert("depends_on"@.len() != "requires_confirmation"@.len());
    }
    assert("depends_on"@ != "kind"@) by {
        assert("depends_on"@.len() != "kind"@.len());
    }
    assert("depends_on"@ != "capability"@) by {
        assert("depends_on"@[0] != "capability"@[0]);
    }
    assert("depends_on"@ != "with"@) by {
        assert("depends_on"@.len() != "with"@.len());
    }
    assert("depends_on"@ != "input"@) by {
        assert("depends_on"@.len() != "input"@.len());
    }
    assert("depends_on"@ != "output"@) by {
        assert("depends_on"@.len() != "output"@.len());
    }
    assert("depends_on"@ != "when"@) by {
        assert("depends_on"@.len() != "when"@.len());
    }
    assert("depends_on"@ != "next"@) by {
        assert("depends_on"@.len() != "next"@.len());
    }
    assert("depends_on"@ != "terminal"@) by {
        assert("depends_on"@.len() != "terminal"@.len());
    }
}

pub proof fn lemma_effect_switch(step: StepV, v: Seq<char>)
    ensures
        effect_step(step, "switch"@, v) == (StepV { routing: RoutingV { switch: switch_rules(v).0, ..step.routing }, ..step }),
{
    reveal_strlit("tools");
    reveal_strlit("allow-tools");
    reveal_strlit("allow_tools");
    reveal_strlit("deny-tools");
    reveal_strlit("deny_tools");
    reveal_strlit("requires_confirmation");
    reveal_strlit("kind");
    reveal_strlit("capability");
    reveal_strlit("with");
    reveal_strlit("input");
    reveal_strlit("output");
    reveal_strlit("when");
    reveal_strlit("next");
    reveal_strlit("terminal");
    reveal_strlit("depends_on");
    reveal_strlit("depends-on");
    reveal_strlit("switch");
    assert("switch"@ != "tools"@) by {
        assert("switch"@.len() != "tools"@.len());
    }
    assert("switch"@ != "allow-tools"@) by {
        assert("switch"@.len() != "allow-tools"@.len());
    }
    assert("switch"@ != "allow_tools"@) by {
        assert("switch"@.len() != "allow_tools"@.len());
    }
    assert("switch"@ != "deny-tools"@) by {
        assert("switch"@.len() != "deny-tools"@.len());
    }
    assert("switch"@ != "deny_tools"@) by {
        assert("switch"@.len() != "deny_tools"@.len());
    }
    assert("switch"@ != "requires_confirmation"@) by {
        assert("switch"@.len() != "requires_confirmation"@.len());
    }
    assert("switch"@ != "kind"@) by {
        assert("switch"@.len() != "kind"@.len());
    }
    assert("switch"@ != "capability"@) by {
        assert("switch"@.len() != "capability"@.len());
    }
    assert("switch"@ != "with"@) by {
        assert("switch"@.len() != "with"@.len());
    }
    assert("switch"@ != "input"@) by {
        assert("switch"@.len() != "input"@.len());
    }
    assert("switch"@ != "output"@) by {
        assert("switch"@[0] != "output"@[0]);
    }
    assert("switch"@ != "when"@) by {
        assert("switch"@.len() != "when"@.len());
    }
    assert("switch"@ != "next"@) by {
        assert("switch"@.len() != "next"@.len());
    }
    assert("switch"@ != "terminal"@) by {
        assert("switch"@.len() != "terminal"@.len());
    }
    assert("switch"@ != "depends_on"@) by {
        assert("switch"@.len() != "depends_on"@.len());
    }
    assert("switch"@ != "depends-on"@) by {
        assert("switch"@.len() != "depends-on"@.len());
    }
}

pub proof fn lemma_effect_on_failure(step: StepV, v: Seq<char>)
    ensures
        effect_step(step, "on_failure"@, v) == (StepV { on_failure: step_failure(v), ..step }),
{
    reveal_strlit("tools");
    reveal_strlit("allow-tools");
    reveal_strlit("allow_tools");
    reveal_strlit("deny-tools");
    reveal_strlit("deny_tools");
    reveal_strlit("requires_confirmation");
    reveal_strlit("kind");
    reveal_strlit("capability");
    reveal_strlit("with");
    reveal_strlit("input");
    reveal_strlit("output");
    reveal_strlit("when");
    reveal_strlit("next");
    reveal_strlit("terminal");
    reveal_strlit("depends_on");
    reveal_strlit("depends-on");
    reveal_strlit("switch");
    reveal_strlit("on_failure");
    assert("on_failure"@ != "tools"@) by {
        assert("on_failure"@.len() != "tools"@.len());
    }
    assert("on_failure"@ != "allow-tools"@) by {
        assert("on_failure"@.len() != "allow-tools"@.len());
    }
    assert("on_failure"@ != "allow_tools"@) by {
        assert("on_failure"@.len() != "allow_tools"@.len());
    }
    assert("on_failure"@ != "deny-tools"@) by {
        assert("on_failure"@[0] != "deny-tools"@[0]);
    }
    assert("on_failure"@ != "deny_tools"@) by {
        assert("on_failure"@[0] != "deny_tools"@[0]);
    }
    assert("on_failure"@ != "requires_confirmation"@) by {
        assert("on_failure"@.len() != "requires_confirmation"@.len());
    }
    assert("on_failure"@ != "kind"@) by {
        assert("on_failure"@.len() != "kind"@.len());
    }
    assert("on_failure"@ != "capability"@) by {
        assert("on_failure"@[0] != "capability"@[0]);
    }
    assert("on_failure"@ != "with"@) by {
        assert("on_failure"@.len() != "with"@.len());
    }
    assert("on_failure"@ != "input"@) by {
        assert("on_failure"@.len() != "input"@.len());
    }
    assert("on_failure"@ != "output"@) by {
        assert("on_failure"@.len() != "output"@.len());
    }
    assert("on_failure"@ != "when"@) by {
        assert("on_failure"@.len() != "when"@.len());
    }
    assert("on_failure"@ != "next"@) by {
        assert("on_failure"@.len() != "next"@.len());
    }
    assert("on_failure"@ != "terminal"@) by {
        assert("on_failure"@.len() != "terminal"@.len());
    }
    assert("on_failure"@ != "depends_on"@) by {
        assert("on_failure"@[0] != "depends_on"@[0]);
    }
    assert("on_failure"@ != "depends-on"@) by {
        assert("on_failure"@[0] != "depends-on"@[0]);
    }
    assert("on_failure"@ != "switch"@) by {
        assert("on_failure"@.len() != "switch"@.len());
    }
}

pub proof fn lemma_effect_mode(step: StepV, v: Seq<char>)
    ensures
        effect_step(step, "mode"@, v) == (StepV { mode: Some(execution_mode(v)), ..step }),
{
    reveal_strlit("tools");
    reveal_strlit("allow-tools");
    reveal_strlit("allow_tools");
    reveal_strlit("deny-tools");
    reveal_strlit("deny_tools");
    reveal_strlit("requires_confirmation");
    reveal_strlit("kind");
    reveal_strlit("capability");
    reveal_strlit("with");
    reveal_strlit("input");
    reveal_strlit("output");
    reveal_strlit("when");
    reveal_strlit("next");
    reveal_strlit("terminal");
    reveal_strlit("depends_on");
    reveal_strlit("depends-on");
    reveal_strlit("switch");
    reveal_strlit("on_failure");
    reveal_strlit("on-failure");
    reveal_strlit("mode");
    assert("mode"@ != "tools"@) by {
        assert("mode"@.len() != "tools"@.len());
    }
    assert("mode"@ != "allow-tools"@) by {
        assert("mode"@.len() != "allow-tools"@.len());
    }
    assert("mode"@ != "allow_tools"@) by {
        assert("mode"@.len() != "allow_tools"@.len());
    }
    assert("mode"@ != "deny-tools"@) by {
        assert("mode"@.len() != "deny-tools"@.len());
    }
    assert("mode"@ != "deny_tools"@) by {
        assert("mode"@.len() != "deny_tools"@.len());
    }
    assert("mode"@ != "requires_confirmation"@) by {
        assert("mode"@.len() != "requires_confirmation"@.len());
    }
    assert("mode"@ != "kind"@) by {
        assert("mode"@[0] != "kind"@[0]);
    }
    assert("mode"@ != "capability"@) by {
        assert("mode"@.len() != "capability"@.len());
    }
    assert("mode"@ != "with"@) by {
        assert("mode"@[0] != "with"@[0]);
    }
    assert("mode"@ != "input"@) by {
        assert("mode"@.len() != "input"@.len());
    }
    assert("mode"@ != "output"@) by {
        assert("mode"@.len() != "output"@.len());
    }
    assert("mode"@ != "when"@) by {
        assert("mode"@[0] != "when"@[0]);
    }
    assert("mode"@ != "next"@) by {
        assert("mode"@[0] != "next"@[0]);
    }
    assert("mode"@ != "terminal"@) by {
        assert("mode"@.len() != "terminal"@.len());
    }
    assert("mode"@ != "depends_on"@) by {
        assert("mode"@.len() != "depends_on"@.len());
    }
    assert("mode"@ != "depends-on"@) by {
        assert("mode"@.len() != "depends-on"@.len());
    }
    assert("mode"@ != "switch"@) by {
        assert("mode"@.len() != "switch"@.len());
    }
    assert("mode"@ != "on_failure"@) by {
        assert("mode"@.len() != "on_failure"@.len());
    }
    assert("mode"@ != "on-failure"@) by {
        assert("mode"@.len() != "on-failure"@.len());
    }
}

pub proof fn lemma_effect_agent(step: StepV, v: Seq<char>)
    ensures
        effect_step(step, "agent"@, v) == (StepV { agent: nonempty(v), ..step }),
{
    reveal_strlit("tools");
    reveal_strlit("allow-tools");
    reveal_strlit("allow_tools");
    reveal_strlit("deny-tools");
    reveal_strlit("deny_tools");
    reveal_strlit("requires_confirmation");
    reveal_strlit("kind");
    reveal_strlit("capability");
    reveal_strlit("with");
    reveal_strlit("input");
    reveal_strlit("output");
    reveal_strlit("when");
    reveal_strlit("next");
    reveal_strlit("terminal");
    reveal_strlit("depends_on");
    reveal_strlit("depends-on");
    reveal_strlit("switch");
    reveal_strlit("on_failure");
    reveal_strlit("on-failure");
    reveal_strlit("mode");
    reveal_strlit("agent");
    assert("agent"@ != "tools"@) by {
        assert("agent"@[0] != "tools"@[0]);
    }
    assert("agent"@ != "allow-tools"@) by {
        assert("agent"@.len() != "allow-tools"@.len());
    }
    assert("agent"@ != "allow_tools"@) by {
        assert("agent"@.len() != "allow_tools"@.len());
    }
    assert("agent"@ != "deny-tools"@) by {
        assert("agent"@.len() != "deny-tools"@.len());
    }
    assert("agent"@ != "deny_tools"@) by {
        assert("agent"@.len() != "deny_tools"@.len());
    }
    assert("agent"@ != "requires_confirmation"@) by {
        assert("agent"@.len() != "requires_confirmation"@.len());
    }
    assert("agent"@ != "kind"@) by {
        assert("agent"@.len() != "kind"@.len());
    }
    assert("agent"@ != "capability"@) by {
        assert("agent"@.len() != "capability"@.len());
    }
    assert("agent"@ != "with"@) by {
        assert("agent"@.len() != "with"@.len());
    }
    assert("agent"@ != "input"@) by {
        assert("agent"@[0] != "input"@[0]);
    }
    assert("agent"@ != "output"@) by {
        assert("agent"@.len() != "output"@.len());
    }
    assert("agent"@ != "when"@) by {
        assert("agent"@.len() != "when"@.len());
    }
    assert("agent"@ != "next"@) by {
        assert("agent"@.len() != "next"@.len());
    }
    assert("agent"@ != "terminal"@) by {
        assert("agent"@.len() != "terminal"@.len());
    }
    assert("agent"@ != "depends_on"@) by {
        assert("agent"@.len() != "depends_on"@.len());
    }
    assert("agent"@ != "depends-on"@) by {
        assert("agent"@.len() != "depends-on"@.len());
    }
    assert("agent"@ != "switch"@) by {
        assert("agent"@.len() != "switch"@.len());
    }
    assert("agent"@ != "on_failure"@) by {
        assert("agent"@.len() != "on_failure"@.len());
    }
    assert("agent"@ != "on-failure"@) by {
        assert("agent"@.len() != "on-failure"@.len());
    }
    assert("agent"@ != "mode"@) by {
        assert("agent"@.len() != "mode"@.len());
    }
}

pub proof fn lemma_effect_call(step: StepV, v: Seq<char>)
    ensures
        effect_step(step, "call"@, v) == (match planned_call(v) { Ok(c) => StepV { calls: step.calls.push(c), ..step }, Err(_) => step }),
{
    reveal_strlit("tools");
    reveal_strlit("allow-tools");
    reveal_strlit("allow_tools");
    reveal_strlit("deny-tools");
    reveal_strlit("deny_tools");
    reveal_strlit("requires_confirmation");
    reveal_strlit("kind");
    reveal_strlit("capability");
    reveal_strlit("with");
    reveal_strlit("input");
    reveal_strlit("output");
    reveal_strlit("when");
    reveal_strlit("next");
    reveal_strlit("terminal");
    reveal_strlit("depends_on");
    reveal_strlit("depends-on");
    reveal_strlit("switch");
    reveal_strlit("on_failure");
    reveal_strlit("on-failure");
    reveal_strlit("mode");
    reveal_strlit("agent");
    reveal_strlit("call");
    assert("call"@ != "tools"@) by {
        assert("call"@.len() != "tools"@.len());
    }
    assert("call"@ != "allow-tools"@) by {
        assert("call"@.len() != "allow-tools"@.len());
    }
    assert("call"@ != "allow_tools"@) by {
        assert("call"@.len() != "allow_tools"@.len());
    }
    assert("call"@ != "deny-tools"@) by {
        assert("call"@.len() != "deny-tools"@.len());
    }
    assert("call"@ != "deny_tools"@) by {
        assert("call"@.len() != "deny_tools"@.len());
    }
    assert("call"@ != "requires_confirmation"@) by {
        assert("call"@.len() != "requires_confirmation"@.len());
    }
    assert("call"@ != "kind"@) by {
        assert("call"@[0] != "kind"@[0]);
    }
    assert("call"@ != "capability"@) by {
        assert("call"@.len() != "capability"@.len());
    }
    assert("call"@ != "with"@) by {
        assert("call"@[0] != "with"@[0]);
    }
    assert("call"@ != "input"@) by {
        assert("call"@.len() != "input"@.len());
    }
    assert("call"@ != "output"@) by {
        assert("call"@.len() != "output"@.len());
    }
    assert("call"@ != "when"@) by {
        assert("call"@[0] != "when"@[0]);
    }
    assert("call"@ != "next"@) by {
        assert("call"@[0] != "next"@[0]);
    }
    assert("call"@ != "terminal"@) by {
        assert("call"@.len() != "terminal"@.len());
    }
    assert("call"@ != "depends_on"@) by {
        assert("call"@.len() != "depends_on"@.len());
    }
    assert("call"@ != "depends-on"@) by {
        assert("call"@.len() != "depends-on"@.len());
    }
    assert("call"@ != "switch"@) by {
        assert("call"@.len() != "switch"@.len());
    }
    assert("call"@ != "on_failure"@) by {
        assert("call"@.len() != "on_failure"@.len());
    }
    assert("call"@ != "on-failure"@) by {
        assert("call"@.len() != "on-failure"@.len());
    }
    assert("call"@ != "mode"@) by {
        assert("call"@[0] != "mode"@[0]);
    }
    assert("call"@ != "agent"@) by {
        assert("call"@.len() != "agent"@.len());
    }
}

pub proof fn lemma_effect_prompt(step: StepV, v: Seq<char>)
    ensures
        effect_step(step, "prompt"@, v) == (if v.len() > 0 { StepV { gate_prompt: Some(v), ..step } } else { step }),
{
    reveal_strlit("tools");
    reveal_strlit("allow-tools");
    reveal_strlit("allow_tools");
    reveal_strlit("deny-tools");
    reveal_strlit("deny_tools");
    reveal_strlit("requires_confirmation");
    reveal_strlit("kind");
    reveal_strlit("capability");
    reveal_strlit("with");
    reveal_strlit("input");
    reveal_strlit("output");
    reveal_strlit("when");
    reveal_strlit("next");
    reveal_strlit("terminal");
    reveal_strlit("depends_on");
    reveal_strlit("depends-on");
    reveal_strlit("switch");
    reveal_strlit("on_failure");
    reveal_strlit("on-failure");
    reveal_strlit("mode");
    reveal_strlit("agent");
    reveal_strlit("call");
    reveal_strlit("prompt");
    assert("prompt"@ != "tools"@) by {
        assert("prompt"@.len() != "tools"@.len());
    }
    assert("prompt"@ != "allow-tools"@) by {
        assert("prompt"@.len() != "allow-tools"@.len());
    }
    assert("prompt"@ != "allow_tools"@) by {
        assert("prompt"@.len() != "allow_tools"@.len());
    }
    assert("prompt"@ != "deny-tools"@) by {
        assert("prompt"@.len() != "deny-tools"@.len());
    }
    assert("prompt"@ != "deny_tools"@) by {
        assert("prompt"@.len() != "deny_tools"@.len());
    }
    assert("prompt"@ != "requires_confirmation"@) by {
        assert("prompt"@.len() != "requires_confirmation"@.len());
    }
    assert("prompt"@ != "kind"@) by {
        assert("prompt"@.len() != "kind"@.len());
    }
    assert("prompt"@ != "capability"@) by {
        assert("prompt"@.len() != "capability"@.len());
    }
    assert("prompt"@ != "with"@) by {
        assert("prompt"@.len() != "with"@.len());
    }
    assert("prompt"@ != "input"@) by {
        assert("prompt"@.len() != "input"@.len());
    }
    assert("prompt"@ != "output"@) by {
        assert("prompt"@[0] != "output"@[0]);
    }
    assert("prompt"@ != "when"@) by {
        assert("prompt"@.len() != "when"@.len());
    }
    assert("prompt"@ != "next"@) by {
        assert("prompt"@.len() != "next"@.len());
    }
    assert("prompt"@ != "terminal"@) by {
        assert("prompt"@.len() != "terminal"@.len());
    }
    assert("prompt"@ != "depends_on"@) by {
        assert("prompt"@.len() != "depends_on"@.len());
    }
    assert("prompt"@ != "depends-on"@) by {
        assert("prompt"@.len() != "depends-on"@.len());
    }
    assert("prompt"@ != "switch"@) by {
        assert("prompt"@[0] != "switch"@[0]);
    }
    assert("prompt"@ != "on_failure"@) by {
        assert("prompt"@.len() != "on_failure"@.len());
    }
    assert("prompt"@ != "on-failure"@) by {
        assert("prompt"@.len() != "on-failure"@.len());
    }
    assert("prompt"@ != "mode"@) by {
        assert("prompt"@.len() != "mode"@.len());
    }
    assert("prompt"@ != "agent"@) by {
        assert("prompt"@.len() != "agent"@.len());
    }
    assert("prompt"@ != "call"@) by {
        assert("prompt"@.len() != "call"@.len());
    }
}

pub proof fn lemma_effect_policy(step: StepV, v: Seq<char>)
    ensures
        effect_step(step, "policy"@, v) == (StepV { policy: nonempty(v), ..step }),
{
    reveal_strlit("tools");
    reveal_strlit("allow-tools");
    reveal_strlit("allow_tools");
    reveal_strlit("deny-tools");
    reveal_strlit("deny_tools");
    reveal_strlit("requires_confirmation");
    reveal_strlit("kind");
    reveal_strlit("capability");
    reveal_strlit("with");
    reveal_strlit("input");
    reveal_strlit("output");
    reveal_strlit("when");
    reveal_strlit("next");
    reveal_strlit("terminal");
    reveal_strlit("depends_on");
    reveal_strlit("depends-on");
    reveal_strlit("switch");
    reveal_strlit("on_failure");
    reveal_strlit("on-failure");
    reveal_strlit("mode");
    reveal_strlit("agent");
    reveal_strlit("call");
    reveal_strlit("prompt");
    reveal_strlit("policy");
    assert("policy"@ != "tools"@) by {
        assert("policy"@.len() != "tools"@.len());
    }
    assert("policy"@ != "allow-tools"@) by {
        assert("policy"@.len() != "allow-tools"@.len());
    }
    assert("policy"@ != "allow_tools"@) by {
        assert("policy"@.len() != "allow_tools"@.len());
    }
    assert("policy"@ != "deny-tools"@) by {
        assert("policy"@.len() != "deny-tools"@.len());
    }
    assert("policy"@ != "deny_tools"@) by {
        assert("policy"@.len() != "deny_tools"@.len());
    }
    assert("policy"@ != "requires_confirmation"@) by {
        assert("policy"@.len() != "requires_confirmation"@.len());
    }
    assert("policy"@ != "kind"@) by {
        assert("policy"@.len() != "kind"@.len());
    }
    assert("policy"@ != "capability"@) by {
        assert("policy"@.len() != "capability"@.len());
    }
    assert("policy"@ != "with"@) by {
        assert("policy"@.len() != "with"@.len());
    }
    assert("policy"@ != "input"@) by {
        assert("policy"@.len() != "input"@.len());
    }
    assert("policy"@ != "output"@) by {
        assert("policy"@[0] != "output"@[0]);
    }
    assert("policy"@ != "when"@) by {
        assert("policy"@.len() != "when"@.len());
    }
    assert("policy"@ != "next"@) by {
        assert("policy"@.len() != "next"@.len());
    }
    assert("policy"@ != "terminal"@) by {
        assert("policy"@.len() != "terminal"@.len());
    }
    assert("policy"@ != "depends_on"@) by {
        assert("policy"@.len() != "depends_on"@.len());
    }
    assert("policy"@ != "depends-on"@) by {
        assert("policy"@.len() != "depends-on"@.len());
    }
    assert("policy"@ != "switch"@) by {
        assert("policy"@[0] != "switch"@[0]);
    }
    assert("policy"@ != "on_failure"@) by {
        assert("policy"@.len() != "on_failure"@.len());
    }
    assert("policy"@ != "on-failure"@) by {
        assert("policy"@.len() != "on-failure"@.len());
    }
    assert("policy"@ != "mode"@) by {
        assert("policy"@.len() != "mode"@.len());
    }
    assert("policy"@ != "agent"@) by {
        assert("policy"@.len() != "agent"@.len());
    }
    assert("policy"@ != "call"@) by {
        assert("policy"@.len() != "call"@.len());
    }
    assert("policy"@ != "prompt"@) by {
        assert("policy"@[1] != "prompt"@[1]);
    }
}

pub proof fn lemma_effect_edit(step: StepV, v: Seq<char>)
    ensures
        effect_step(step, "edit"@, v) == (StepV { edit: nonempty(v), ..step }),
{
    reveal_strlit("tools");
    reveal_strlit("allow-tools");
    reveal_strlit("allow_tools");
    reveal_strlit("deny-tools");
    reveal_strlit("deny_tools");
    reveal_strlit("requires_confirmation");
    reveal_strlit("kind");
    reveal_strlit("capability");
    reveal_strlit("with");
    reveal_strlit("input");
    reveal_strlit("output");
    reveal_strlit("when");
    reveal_strlit("next");
    reveal_strlit("terminal");
    reveal_strlit("depends_on");
    reveal_strlit("depends-on");
    reveal_strlit("switch");
    reveal_strlit("on_failure");
    reveal_strlit("on-failure");
    reveal_strlit("mode");
    reveal_strlit("agent");
    reveal_strlit("call");
    reveal_strlit("prompt");
    reveal_strlit("policy");
    reveal_strlit("edit");
    assert("edit"@ != "tools"@) by {
        assert("edit"@.len() != "tools"@.len());
    }
    assert("edit"@ != "allow-tools"@) by {
        assert("edit"@.len() != "allow-tools"@.len());
    }
    assert("edit"@ != "allow_tools"@) by {
        assert("edit"@.len() != "allow_tools"@.len());
    }
    assert("edit"@ != "deny-tools"@) by {
        assert("edit"@.len() != "deny-tools"@.len());
    }
    assert("edit"@ != "deny_tools"@) by {
        assert("edit"@.len() != "deny_tools"@.len());
    }
    assert("edit"@ != "requires_confirmation"@) by {
        assert("edit"@.len() != "requires_confirmation"@.len());
    }
    assert("edit"@ != "kind"@) by {
        assert("edit"@[0] != "kind"@[0]);
    }
    assert("edit"@ != "capability"@) by {
        assert("edit"@.len() != "capability"@.len());
    }
    assert("edit"@ != "with"@) by {
        assert("edit"@[0] != "with"@[0]);
    }
    assert("edit"@ != "input"@) by {
        assert("edit"@.len() != "input"@.len());
    }
    assert("edit"@ != "output"@) by {
        assert("edit"@.len() != "output"@.len());
    }
    assert("edit"@ != "when"@) by {
        assert("edit"@[0] != "when"@[0]);
    }
    assert("edit"@ != "next"@) by {
        assert("edit"@[0] != "next"@[0]);
    }
    assert("edit"@ != "terminal"@) by {
        assert("edit"@.len() != "terminal"@.len());
    }
    assert("edit"@ != "depends_on"@) by {
        assert("edit"@.len() != "depends_on"@.len());
    }
    assert("edit"@ != "depends-on"@) by {
        assert("edit"@.len() != "depends-on"@.len());
    }
    assert("edit"@ != "switch"@) by {
        assert("edit"@.len() != "switch"@.len());
    }
    assert("edit"@ != "on_failure"@) by {
        assert("edit"@.len() != "on_failure"@.len());
    }
    assert("edit"@ != "on-failure"@) by {
        assert("edit"@.len() != "on-failure"@.len());
    }
    assert("edit"@ != "mode"@) by {
        assert("edit"@[0] != "mode"@[0]);
    }
    assert("edit"@ != "agent"@) by {
        assert("edit"@.len() != "agent"@.len());
    }
    assert("edit"@ != "call"@) by {
        assert("edit"@[0] != "call"@[0]);
    }
    assert("edit"@ != "prompt"@) by {
        assert("edit"@.len() != "prompt"@.len());
    }
    assert("edit"@ != "policy"@) by {
        assert("edit"@.len() != "policy"@.len());
    }
}

// ── Scalar values ───────────────────────────────────────────────

pub proof fn lemma_lower_plain(x: Seq<char>)
    requires
        forall|i: int| 0 <= i < x.len() ==> !('A' <= #[trigger] x[i] && x[i] <= 'Z'),
    ensures
        crate::text::lower_seq(x) == x,
{
    assert(crate::text::lower_seq(x) =~= x);
}

pub proof fn lemma_true_text()
    ensures
        filled("true"@),
        eq_ignore_ascii_case("true"@, "true"@),
{
    reveal_strlit("true");
}

pub proof fn lemma_kind_round_trip(k: crate::model::SopStepKind)
    ensures
        step_kind(crate::model::kind_text(k)) == k,
        filled(crate::model::kind_text(k)),
{
    reveal_strlit("checkpoint");
    reveal_strlit("approval");
    reveal_strlit("capability");
    let t = crate::model::kind_text(k);
    assert(is_trimmed(t));
    crate::text::lemma_trim_trimmed(t);
    lemma_lower_plain(t);
    match k {
        crate::model::SopStepKind::Execute => {
            assert(t.len() != "checkpoint"@.len());
            assert(t.len() != "approval"@.len());
            assert(t.len() != "capability"@.len());
        },
        crate::model::SopStepKind::Checkpoint => {
            assert(t =~= "checkpoint"@);
        },
        crate::model::SopStepKind::Capability => {
            assert(t[1] != "checkpoint"@[1]);
            assert(t.len() != "approval"@.len());
            assert(t =~= "capability"@);
        },
    }
}

pub proof fn lemma_mode_round_trip(m: SopExecutionMode)
    ensures
        execution_mode(mode_text(m)) == m,
        filled(mode_text(m)),
{
    reveal_strlit("auto");
    reveal_strlit("supervised");
    reveal_strlit("step_by_step");
    reveal_strlit("priority_based");
    reveal_strlit("deterministic");
    let t = mode_text(m);
    assert(is_trimmed(t));
    crate::text::lemma_trim_trimmed(t);
    lemma_lower_plain(t);
    match m {
        SopExecutionMode::Auto => {},
        SopExecutionMode::Supervised => {
            assert(t.len() != "auto"@.len());
            assert(t.len() != "step_by_step"@.len());
            assert(t.len() != "priority_based"@.len());
            assert(t.len() != "deterministic"@.len());
        },
        SopExecutionMode::StepByStep => {
            assert(t.len() != "auto"@.len());
        },
        SopExecutionMode::PriorityBased => {
            assert(t.len() != "auto"@.len());
            assert(t.len() != "step_by_step"@.len());
        },
        SopExecutionMode::Deterministic => {
            assert(t.len() != "auto"@.len());
            assert(t.len() != "step_by_step"@.len());
            assert(t.len() != "priority_based"@.len());
        },
    }
}

pub proof fn lemma_failure_round_trip(f: crate::model::StepFailure)
    requires
        f != crate::model::StepFailure::Fail,
    ensures
        ({
            let v = match f {
                crate::model::StepFailure::Retry { max } => "retry: "@ + decimal(max as nat),
                crate::model::StepFailure::Goto { step } => "goto: "@ + decimal(step as nat),
                crate::model::StepFailure::Fail => Seq::empty(),
            };
            &&& step_failure(v) == f
            &&& filled(v)
        }),
{
    reveal_strlit("retry: ");
    reveal_strlit("goto: ");
    reveal_strlit("retry:");
    reveal_strlit("retry ");
    reveal_strlit("goto:");
    reveal_strlit("goto ");
    reveal_strlit("fail");
    let (p, n) = match f {
        crate::model::StepFailure::Retry { max } => ("retry: "@, max),
        crate::model::StepFailure::Goto { step } => ("goto: "@, step),
        crate::model::StepFailure::Fail => (Seq::empty(), 0u32),
    };
    let d = decimal(n as nat);
    let v = p + d;
    lemma_decimal_text(n as nat);
    crate::text::lemma_parse_decimal(n);
    assert(is_trimmed(v)) by {
        assert(v[0] == p[0]);
        assert(v.last() == d.last());
    }
    assert(!has_char(v, '\n')) by {
        if has_char(v, '\n') {
            let k = choose|k: int| 0 <= k < v.len() && v[k] == '\n';
            if k >= p.len() {
                assert(d[k - p.len()] == '\n');
            }
        }
    }
    crate::text::lemma_trim_trimmed(v);
    assert(!eq_ignore_ascii_case(v, "fail"@)) by {
        assert(crate::text::lower_seq(v).len() != crate::text::lower_seq("fail"@).len());
    }
    let colon = p.take(p.len() - 1);
    assert(v.take(colon.len() as int) =~= colon);
    let raw = v.skip(colon.len() as int);
    assert(raw =~= seq![' '] + d);
    lemma_trim_spaced(d);
    match f {
        crate::model::StepFailure::Retry { max } => {
            assert(colon =~= "retry:"@);
        },
        crate::model::StepFailure::Goto { step } => {
            assert(colon =~= "goto:"@);
            assert(!starts_with(v, "retry:"@)) by {
                if starts_with(v, "retry:"@) {
                    assert(v.take(6)[0] == v[0]);
                }
            }
            assert(!starts_with(v, "retry "@)) by {
                if starts_with(v, "retry "@) {
                    assert(v.take(6)[0] == v[0]);
                }
            }
        },
        crate::model::StepFailure::Fail => {},
    }
}

pub proof fn lemma_call_text_ends(c: CallV)
    ensures
        is_trimmed(call_text(c)),
        call_text(c).len() > 0,
{
    reveal_strlit("{\"tool\":");
    reveal_strlit("}");
    let t = call_text(c);
    assert(t[0] == '{');
    assert(t.last() == '}');
}

// ── Reading a step's bullets ────────────────────────────────────

/// The reader is inside the section, has finished `steps`, and is building
/// `cur`.
pub open spec fn open_at(r: ParseState, steps: Seq<StepV>, cur: StepV) -> bool {
    r.in_section && r.steps == steps && r.current == Some(cur)
}

pub proof fn lemma_push_bullet(
    st: ParseState,
    b: Seq<Seq<char>>,
    key: Seq<char>,
    v: Seq<char>,
    n: nat,
    steps: Seq<StepV>,
    cur: StepV,
)
    requires
        open_at(run_lines(st, marked(b), n), steps, cur),
        bullet_text_ok(key, v),
    ensures
        open_at(run_lines(st, marked(b.push(bullet(key, v))), n), steps, effect_step(cur, key, v)),
        is_line("   - "@ + bullet(key, v)),
        all_lines(marked(b)) ==> all_lines(marked(b.push(bullet(key, v)))),
{
    lemma_marked_push(b, bullet(key, v));
    lemma_run_lines_push(st, marked(b), "   - "@ + bullet(key, v), n);
    lemma_bullet_line(run_lines(st, marked(b), n), key, v, n + marked(b).len());
}

pub proof fn lemma_push_if_bullet(
    st: ParseState,
    b: Seq<Seq<char>>,
    cond: bool,
    key: Seq<char>,
    v: Seq<char>,
    n: nat,
    steps: Seq<StepV>,
    cur: StepV,
)
    requires
        open_at(run_lines(st, marked(b), n), steps, cur),
        cond ==> bullet_text_ok(key, v),
    ensures
        open_at(
            run_lines(st, marked(crate::print::push_if(b, cond, bullet(key, v))), n),
            steps,
            if cond {
                effect_step(cur, key, v)
            } else {
                cur
            },
        ),
        all_lines(marked(b)) ==> all_lines(marked(crate::print::push_if(b, cond, bullet(key, v)))),
{
    if cond {
        lemma_push_bullet(st, b, key, v, n, steps, cur);
    }
}

pub open spec fn scope_ok(sc: Option<ScopeV>) -> bool {
    match sc {
        Some(x) => names_ok(x.deny) && match x.allow {
            Some(a) => names_ok(a),
            None => true,
        },
        None => true,
    }
}

pub proof fn lemma_tools_group(
    st: ParseState,
    s: StepV,
    b: Seq<Seq<char>>,
    n: nat,
    steps: Seq<StepV>,
    cur: StepV,
)
    requires
        all_lines(marked(b)),
        open_at(run_lines(st, marked(b), n), steps, cur),
        cur.suggested_tools.len() == 0,
        cur.scope is None,
        names_ok(s.suggested_tools),
        scope_ok(s.scope),
    ensures
        all_lines(marked(crate::print::bullets_tools(s, b))),
        open_at(
            run_lines(st, marked(crate::print::bullets_tools(s, b)), n),
            steps,
            StepV { suggested_tools: s.suggested_tools, scope: s.scope, ..cur },
        ),
{
    lemma_printed_keys();
    let t = join(s.suggested_tools, ", "@);
    lemma_names_round_trip(s.suggested_tools);
    let cond = s.suggested_tools.len() > 0;
    let b1 = crate::print::push_if(b, cond, bullet("tools"@, t));
    lemma_push_if_bullet(st, b, cond, "tools"@, t, n, steps, cur);
    lemma_effect_tools(cur, t);
    let cur1 = StepV { suggested_tools: s.suggested_tools, ..cur };
    assert(s.suggested_tools.len() == 0 ==> s.suggested_tools =~= cur.suggested_tools);
    assert(open_at(run_lines(st, marked(b1), n), steps, cur1));
    match s.scope {
        None => {
            assert(cur1 == StepV { suggested_tools: s.suggested_tools, scope: s.scope, ..cur });
        },
        Some(sc) => {
            let (b2, cur2) = match sc.allow {
                Some(a) => {
                    let ta = join(a, ", "@);
                    lemma_names_round_trip(a);
                    lemma_push_bullet(st, b1, "allow-tools"@, ta, n, steps, cur1);
                    lemma_effect_allow_tools(cur1, ta);
                    (
                        b1.push(bullet("allow-tools"@, ta)),
                        StepV {
                            scope: Some(ScopeV { allow: Some(a), deny: Seq::empty() }),
                            ..cur1
                        },
                    )
                },
                None => (b1, cur1),
            };
            assert(open_at(run_lines(st, marked(b2), n), steps, cur2));
            let td = join(sc.deny, ", "@);
            lemma_names_round_trip(sc.deny);
            let dcond = sc.deny.len() > 0 || sc.allow is None;
            lemma_push_if_bullet(st, b2, dcond, "deny-tools"@, td, n, steps, cur2);
            lemma_effect_deny_tools(cur2, td);
            let b3 = crate::print::push_if(b2, dcond, bullet("deny-tools"@, td));
            assert(b3 == crate::print::bullets_tools(s, b));
            if dcond {
                assert(sc.deny.len() == 0 ==> sc.deny =~= Seq::<Seq<char>>::empty());
                assert(effect_step(cur2, "deny-tools"@, td) =~= StepV {
                    suggested_tools: s.suggested_tools,
                    scope: s.scope,
                    ..cur
                });
            } else {
                assert(sc.deny =~= Seq::<Seq<char>>::empty());
                assert(cur2 =~= StepV { suggested_tools: s.suggested_tools, scope: s.scope, ..cur });
            }
        },
    }
}

pub open spec fn json_ok(t: Seq<char>) -> bool {
    is_trimmed(t) && !has_char(t, '\n') && value_fragment(t) == t
}

pub open spec fn opt_json_ok(o: Option<Seq<char>>) -> bool {
    match o {
        Some(t) => json_ok(t),
        None => true,
    }
}

pub open spec fn opt_filled(o: Option<Seq<char>>) -> bool {
    match o {
        Some(t) => filled(t),
        None => true,
    }
}

pub open spec fn opt_plain(o: Option<Seq<char>>) -> bool {
    match o {
        Some(t) => is_trimmed(t) && !has_char(t, '\n'),
        None => true,
    }
}

pub open spec fn schema_ok(sc: Option<SchemaV>) -> bool {
    match sc {
        Some(x) => (x.input is Some || x.output is Some) && opt_json_ok(x.input) && opt_json_ok(
            x.output,
        ),
        None => true,
    }
}

pub proof fn lemma_kind_group(
    st: ParseState,
    s: StepV,
    b: Seq<Seq<char>>,
    n: nat,
    steps: Seq<StepV>,
    cur: StepV,
)
    requires
        all_lines(marked(b)),
        open_at(run_lines(st, marked(b), n), steps, cur),
        !cur.requires_confirmation,
        cur.kind == crate::model::SopStepKind::Execute,
        cur.capability is None,
        cur.capability_input is None,
        cur.schema is None,
        opt_plain(s.capability),
        opt_json_ok(s.capability_input),
        schema_ok(s.schema),
    ensures
        all_lines(marked(crate::print::bullets_kind(s, b))),
        open_at(
            run_lines(st, marked(crate::print::bullets_kind(s, b)), n),
            steps,
            StepV {
                requires_confirmation: s.requires_confirmation,
                kind: s.kind,
                capability: s.capability,
                capability_input: s.capability_input,
                schema: s.schema,
                ..cur
            },
        ),
{
    lemma_printed_keys();
    lemma_true_text();
    lemma_kind_round_trip(s.kind);
    let b1 = crate::print::push_if(b, s.requires_confirmation, bullet("requires_confirmation"@, "true"@));
    lemma_push_if_bullet(st, b, s.requires_confirmation, "requires_confirmation"@, "true"@, n, steps, cur);
    lemma_effect_requires_confirmation(cur, "true"@);
    let c1 = StepV { requires_confirmation: s.requires_confirmation, ..cur };
    assert(open_at(run_lines(st, marked(b1), n), steps, c1));
    let kt = crate::model::kind_text(s.kind);
    let kc = s.kind != crate::model::SopStepKind::Execute;
    let b2 = crate::print::push_if(b1, kc, bullet("kind"@, kt));
    lemma_push_if_bullet(st, b1, kc, "kind"@, kt, n, steps, c1);
    lemma_effect_kind(c1, kt);
    let c2 = StepV { kind: s.kind, ..c1 };
    assert(open_at(run_lines(st, marked(b2), n), steps, c2));
    let ct = crate::print::opt_text(s.capability);
    let cc = s.capability is Some;
    let b3 = crate::print::push_if(b2, cc, bullet("capability"@, ct));
    lemma_push_if_bullet(st, b2, cc, "capability"@, ct, n, steps, c2);
    lemma_effect_capability(c2, ct);
    let c3 = StepV { capability: s.capability, ..c2 };
    assert(open_at(run_lines(st, marked(b3), n), steps, c3));
    let wt = crate::print::opt_text(s.capability_input);
    let wc = s.capability_input is Some;
    let b4 = crate::print::push_if(b3, wc, bullet("with"@, wt));
    lemma_push_if_bullet(st, b3, wc, "with"@, wt, n, steps, c3);
    lemma_effect_with(c3, wt);
    let c4 = StepV { capability_input: s.capability_input, ..c3 };
    assert(open_at(run_lines(st, marked(b4), n), steps, c4));
    match s.schema {
        None => {
            assert(c4 =~= StepV {
                requires_confirmation: s.requires_confirmation,
                kind: s.kind,
                capability: s.capability,
                capability_input: s.capability_input,
                schema: s.schema,
                ..cur
            });
        },
        Some(sc) => {
            let it = crate::print::opt_text(sc.input);
            let ic = sc.input is Some;
            let b5 = crate::print::push_if(b4, ic, bullet("input"@, it));
            lemma_push_if_bullet(st, b4, ic, "input"@, it, n, steps, c4);
            lemma_effect_input(c4, it);
            let c5 = if ic {
                StepV { schema: Some(SchemaV { input: sc.input, output: None }), ..c4 }
            } else {
                c4
            };
            assert(open_at(run_lines(st, marked(b5), n), steps, c5));
            let ot = crate::print::opt_text(sc.output);
            let oc = sc.output is Some;
            lemma_push_if_bullet(st, b5, oc, "output"@, ot, n, steps, c5);
            lemma_effect_output(c5, ot);
            assert(crate::print::push_if(b5, oc, bullet("output"@, ot)) == crate::print::bullets_kind(s, b));
        },
    }
}

pub proof fn lemma_routing_group(
    st: ParseState,
    s: StepV,
    b: Seq<Seq<char>>,
    n: nat,
    steps: Seq<StepV>,
    cur: StepV,
)
    requires
        all_lines(marked(b)),
        open_at(run_lines(st, marked(b), n), steps, cur),
        cur.routing == default_routing(),
        opt_filled(s.routing.when),
        forall|i: int| 0 <= i < s.routing.switch.len() ==> port_ok(#[trigger] s.routing.switch[i]),
    ensures
        all_lines(marked(crate::print::bullets_routing(s, b))),
        open_at(
            run_lines(st, marked(crate::print::bullets_routing(s, b)), n),
            steps,
            StepV { routing: s.routing, ..cur },
        ),
{
    lemma_printed_keys();
    lemma_true_text();
    let r = s.routing;
    let wt = crate::print::opt_text(r.when);
    let wc = r.when is Some;
    let b1 = crate::print::push_if(b, wc, bullet("when"@, wt));
    lemma_push_if_bullet(st, b, wc, "when"@, wt, n, steps, cur);
    lemma_effect_when(cur, wt);
    let c1 = StepV { routing: RoutingV { when: r.when, ..cur.routing }, ..cur };
    assert(open_at(run_lines(st, marked(b1), n), steps, c1));
    let (b2, c2) = match r.next {
        Some(x) => {
            lemma_decimal_text(x as nat);
            crate::text::lemma_parse_decimal(x);
            lemma_push_bullet(st, b1, "next"@, decimal(x as nat), n, steps, c1);
            lemma_effect_next(c1, decimal(x as nat));
            (
                b1.push(bullet("next"@, decimal(x as nat))),
                StepV { routing: RoutingV { next: r.next, ..c1.routing }, ..c1 },
            )
        },
        None => (b1, c1),
    };
    assert(open_at(run_lines(st, marked(b2), n), steps, c2));
    let b3 = crate::print::push_if(b2, r.terminal, bullet("terminal"@, "true"@));
    lemma_push_if_bullet(st, b2, r.terminal, "terminal"@, "true"@, n, steps, c2);
    lemma_effect_terminal(c2, "true"@);
    let c3 = StepV { routing: RoutingV { terminal: r.terminal, ..c2.routing }, ..c2 };
    assert(open_at(run_lines(st, marked(b3), n), steps, c3));
    let dt = join(r.depends_on.map_values(|x: u32| decimal(x as nat)), ", "@);
    let dc = r.depends_on.len() > 0;
    assert(r.depends_on.map_values(|x: u32| decimal(x as nat)) =~= decimals(r.depends_on));
    if dc {
        lemma_numbers_round_trip(r.depends_on);
    }
    let b4 = crate::print::push_if(b3, dc, bullet("depends_on"@, dt));
    lemma_push_if_bullet(st, b3, dc, "depends_on"@, dt, n, steps, c3);
    lemma_effect_depends_on(c3, dt);
    let c4 = StepV { routing: RoutingV { depends_on: r.depends_on, ..c3.routing }, ..c3 };
    assert(!dc ==> r.depends_on =~= c3.routing.depends_on);
    assert(open_at(run_lines(st, marked(b4), n), steps, c4));
    let stext = join(r.switch.map_values(|x: SwitchRuleV| port_text(x)), "; "@);
    let sc = r.switch.len() > 0;
    assert(r.switch.map_values(|x: SwitchRuleV| port_text(x)) =~= ports(r.switch));
    if sc {
        lemma_ports_round_trip(r.switch);
    }
    lemma_push_if_bullet(st, b4, sc, "switch"@, stext, n, steps, c4);
    lemma_effect_switch(c4, stext);
    assert(!sc ==> r.switch =~= c4.routing.switch);
    assert(crate::print::push_if(b4, sc, bullet("switch"@, stext)) == crate::print::bullets_routing(s, b));
    let c5 = StepV { routing: RoutingV { switch: r.switch, ..c4.routing }, ..c4 };
    assert(c5 =~= StepV { routing: s.routing, ..cur });
}

/// A planned call as the printer writes it, read back by `serde_json` as
/// itself.
pub open spec fn call_ok(c: CallV) -> bool {
    !has_char(call_text(c), '\n') && planned_call(call_text(c)) == Ok::<CallV, Seq<char>>(c)
}

pub open spec fn call_bullets(cs: Seq<CallV>) -> Seq<Seq<char>> {
    cs.map_values(|c: CallV| bullet("call"@, call_text(c)))
}

pub proof fn lemma_calls_group(
    st: ParseState,
    cs: Seq<CallV>,
    b: Seq<Seq<char>>,
    n: nat,
    steps: Seq<StepV>,
    cur: StepV,
)
    requires
        all_lines(marked(b)),
        open_at(run_lines(st, marked(b), n), steps, cur),
        forall|i: int| 0 <= i < cs.len() ==> call_ok(#[trigger] cs[i]),
    ensures
        all_lines(marked(b + call_bullets(cs))),
        open_at(
            run_lines(st, marked(b + call_bullets(cs)), n),
            steps,
            StepV { calls: cur.calls + cs, ..cur },
        ),
    decreases cs.len(),
{
    if cs.len() == 0 {
        assert(b + call_bullets(cs) =~= b);
        assert(cur.calls + cs =~= cur.calls);
    } else {
        let init = cs.drop_last();
        lemma_calls_group(st, init, b, n, steps, cur);
        let prev = StepV { calls: cur.calls + init, ..cur };
        let c = cs.last();
        assert(call_ok(cs[cs.len() - 1]));
        lemma_call_text_ends(c);
        lemma_printed_keys();
        lemma_push_bullet(st, b + call_bullets(init), "call"@, call_text(c), n, steps, prev);
        lemma_effect_call(prev, call_text(c));
        assert((b + call_bullets(init)).push(bullet("call"@, call_text(c))) =~= b + call_bullets(cs));
        assert((cur.calls + init).push(c) =~= cur.calls + cs);
    }
}

#[verifier::spinoff_prover]
#[verifier::rlimit(80)]
pub proof fn lemma_tail_group(
    st: ParseState,
    s: StepV,
    b: Seq<Seq<char>>,
    n: nat,
    steps: Seq<StepV>,
    cur: StepV,
)
    requires
        all_lines(marked(b)),
        open_at(run_lines(st, marked(b), n), steps, cur),
        cur.on_failure == crate::model::StepFailure::Fail,
        cur.mode is None,
        cur.agent is None,
        cur.calls.len() == 0,
        cur.gate_prompt is None,
        cur.policy is None,
        cur.edit is None,
        opt_filled(s.agent),
        forall|i: int| 0 <= i < s.calls.len() ==> call_ok(#[trigger] s.calls[i]),
        opt_filled(s.gate_prompt),
        opt_filled(s.policy),
        opt_filled(s.edit),
    ensures
        all_lines(marked(crate::print::bullets_tail(s, b))),
        open_at(
            run_lines(st, marked(crate::print::bullets_tail(s, b)), n),
            steps,
            StepV {
                on_failure: s.on_failure,
                mode: s.mode,
                agent: s.agent,
                calls: s.calls,
                gate_prompt: s.gate_prompt,
                policy: s.policy,
                edit: s.edit,
                ..cur
            },
        ),
{
    lemma_printed_keys();
    let (b1, c1) = match s.on_failure {
        crate::model::StepFailure::Fail => (b, cur),
        crate::model::StepFailure::Retry { max } => {
            lemma_failure_round_trip(s.on_failure);
            let v = "retry: "@ + decimal(max as nat);
            lemma_push_bullet(st, b, "on_failure"@, v, n, steps, cur);
            lemma_effect_on_failure(cur, v);
            (b.push(bullet("on_failure"@, v)), StepV { on_failure: s.on_failure, ..cur })
        },
        crate::model::StepFailure::Goto { step } => {
            lemma_failure_round_trip(s.on_failure);
            let v = "goto: "@ + decimal(step as nat);
            lemma_push_bullet(st, b, "on_failure"@, v, n, steps, cur);
            lemma_effect_on_failure(cur, v);
            (b.push(bullet("on_failure"@, v)), StepV { on_failure: s.on_failure, ..cur })
        },
    };
    assert(open_at(run_lines(st, marked(b1), n), steps, c1));
    assert(c1 == StepV { on_failure: s.on_failure, ..cur });
    let (b2, c2) = match s.mode {
        Some(m) => {
            lemma_mode_round_trip(m);
            lemma_push_bullet(st, b1, "mode"@, mode_text(m), n, steps, c1);
            lemma_effect_mode(c1, mode_text(m));
            (b1.push(bullet("mode"@, mode_text(m))), StepV { mode: s.mode, ..c1 })
        },
        None => (b1, c1),
    };
    assert(open_at(run_lines(st, marked(b2), n), steps, c2));
    let at = crate::print::opt_text(s.agent);
    let ac = s.agent is Some;
    let b3 = crate::print::push_if(b2, ac, bullet("agent"@, at));
    lemma_push_if_bullet(st, b2, ac, "agent"@, at, n, steps, c2);
    lemma_effect_agent(c2, at);
    let c3 = StepV { agent: s.agent, ..c2 };
    assert(open_at(run_lines(st, marked(b3), n), steps, c3));
    lemma_calls_group(st, s.calls, b3, n, steps, c3);
    assert(s.calls.map_values(|c: CallV| bullet("call"@, call_text(c))) =~= call_bullets(s.calls));
    let b4 = b3 + call_bullets(s.calls);
    let c4 = StepV { calls: s.calls, ..c3 };
    assert(c3.calls + s.calls =~= s.calls);
    assert(open_at(run_lines(st, marked(b4), n), steps, c4));
    let pt = crate::print::opt_text(s.gate_prompt);
    let pc = s.gate_prompt is Some;
    let b5 = crate::print::push_if(b4, pc, bullet("prompt"@, pt));
    lemma_push_if_bullet(st, b4, pc, "prompt"@, pt, n, steps, c4);
    lemma_effect_prompt(c4, pt);
    let c5 = StepV { gate_prompt: s.gate_prompt, ..c4 };
    assert(open_at(run_lines(st, marked(b5), n), steps, c5));
    let lt = crate::print::opt_text(s.policy);
    let lc = s.policy is Some;
    let b6 = crate::print::push_if(b5, lc, bullet("policy"@, lt));
    lemma_push_if_bullet(st, b5, lc, "policy"@, lt, n, steps, c5);
    lemma_effect_policy(c5, lt);
    let c6 = StepV { policy: s.policy, ..c5 };
    assert(open_at(run_lines(st, marked(b6), n), steps, c6));
    let et = crate::print::opt_text(s.edit);
    let ec = s.edit is Some;
    lemma_push_if_bullet(st, b6, ec, "edit"@, et, n, steps, c6);
    lemma_effect_edit(c6, et);
    assert(crate::print::push_if(b6, ec, bullet("edit"@, et)) == crate::print::bullets_tail(s, b));
}

// ── Titles and bodies ───────────────────────────────────────────

/// A title the item line carries unchanged: one line, no `**` inside and
/// no `*` at its end (either would end the bold early on reading).
pub open spec fn title_ok(t: Seq<char>) -> bool {
    !has_char(t, '\n') && find(t, seq!['*', '*']) is None && !(t.len() > 0 && t.last() == '*')
}

/// A bullet the reader recognizes.
pub open spec fn recognized(bul: Seq<char>) -> bool {
    match split_bullet(bul) {
        Some((k, _)) => is_key(k),
        None => false,
    }
}

/// A body line after the first, as the reader takes it into the body: not
/// a heading, not a step item, and not a recognized bullet.
pub open spec fn continuation_ok(l: Seq<char>) -> bool {
    &&& !starts_with(l, "## "@)
    &&& numbered_item(l) is None
    &&& starts_with(l, "- "@) ==> !recognized(trim(trim_start_matches(l, "- "@)))
}

/// A body made of non-empty trimmed lines joined by newlines, whose lines
/// after the first each read as body text.
pub open spec fn body_ok(b: Seq<char>) -> bool {
    &&& b == join(lines(b), seq!['\n'])
    &&& forall|i: int| 0 <= i < lines(b).len() ==> filled(#[trigger] lines(b)[i])
    &&& forall|i: int| 1 <= i < lines(b).len() ==> continuation_ok(#[trigger] lines(b)[i])
}

pub proof fn lemma_body_trimmed(b: Seq<char>)
    requires
        body_ok(b),
    ensures
        trim(b) == b,
{
    let ls = lines(b);
    if ls.len() > 0 {
        assert forall|i: int| 0 <= i < ls.len() implies (#[trigger] ls[i]).len() > 0 by {
            assert(filled(ls[i]));
        }
        lemma_join_ends(ls, seq!['\n']);
        assert(filled(ls[0]));
        assert(filled(ls[ls.len() - 1]));
    } else {
        assert(b =~= Seq::<char>::empty());
    }
    crate::text::lemma_trim_trimmed(b);
}

/// The item line the printer writes for a step.
pub open spec fn head_line(s: StepV) -> Seq<char> {
    let ls = lines(trim(s.body));
    if ls.len() > 0 {
        decimal(s.number as nat) + ". **"@ + s.title + "** - "@ + ls[0]
    } else {
        decimal(s.number as nat) + ". **"@ + s.title + "**"@
    }
}

/// The step an item line opens.
pub open spec fn opened(s: StepV) -> StepV {
    let ls = lines(s.body);
    StepV {
        number: s.number,
        title: s.title,
        body: if ls.len() > 0 {
            ls[0]
        } else {
            Seq::empty()
        },
        ..default_step()
    }
}

proof fn lemma_title_bold(title: Seq<char>, tail: Seq<char>)
    requires
        title_ok(title),
        tail.len() >= 2,
        tail[0] == '*',
        tail[1] == '*',
    ensures
        find(seq!['*', '*'] + title + tail, seq!['*', '*']) == Some(0int),
        find(title + tail, seq!['*', '*']) == Some(title.len() as int),
{
    let x = seq!['*', '*'] + title + tail;
    assert(x.subrange(0, 2) =~= seq!['*', '*']);
    crate::text::lemma_find_is(x, seq!['*', '*'], 0);
    let y = title + tail;
    assert(y.subrange(title.len() as int, title.len() as int + 2) =~= seq!['*', '*']) by {
        assert(y[title.len() as int] == '*');
        assert(y[title.len() as int + 1] == '*');
    }
    crate::text::lemma_find_from(title, seq!['*', '*'], 0);
    assert forall|j: int| 0 <= j < title.len() implies !crate::text::occurs_at(
        y,
        seq!['*', '*'],
        j,
    ) by {
        if crate::text::occurs_at(y, seq!['*', '*'], j) {
            assert(y.subrange(j, j + 2)[0] == '*');
            assert(y.subrange(j, j + 2)[1] == '*');
            if j + 1 < title.len() {
                assert(title.subrange(j, j + 2) =~= seq!['*', '*']);
                assert(crate::text::occurs_at(title, seq!['*', '*'], j));
            } else {
                assert(title.last() == y[j]);
            }
        }
    }
    crate::text::lemma_find_is(y, seq!['*', '*'], title.len() as int);
}

/// What follows the number on a printed item line.
pub open spec fn head_rest(title: Seq<char>, first: Option<Seq<char>>) -> Seq<char> {
    match first {
        Some(f) => seq!['*', '*'] + title + seq!['*', '*', ' ', '-', ' '] + f,
        None => seq!['*', '*'] + title + seq!['*', '*'],
    }
}

proof fn lemma_head_bold(title: Seq<char>, first: Option<Seq<char>>)
    requires
        title_ok(title),
        opt_filled(first),
    ensures
        bold_title(head_rest(title, first)) == Some(
            (
                title,
                match first {
                    Some(f) => f,
                    None => Seq::<char>::empty(),
                },
            ),
        ),
        is_trimmed(head_rest(title, first)),
        !has_char(head_rest(title, first), '\n'),
        head_rest(title, first).last() != '\r',
{
    let rest = head_rest(title, first);
    let tail = match first {
        Some(f) => seq!['*', '*', ' ', '-', ' '] + f,
        None => seq!['*', '*'],
    };
    assert(rest =~= seq!['*', '*'] + title + tail);
    lemma_title_bold(title, tail);
    assert(rest.skip(2) =~= title + tail);
    assert(rest.subrange(2, 2 + title.len() as int) =~= title);
    let after = rest.skip(2 + title.len() as int + 2);
    match first {
        Some(f) => {
            assert(after =~= seq![' ', '-', ' '] + f);
            assert(all_ws(after.take(1))) by {
                assert(after.take(1)[0] == ' ');
            }
            crate::text::lemma_trim_start_skip(after, 1);
            let a1 = after.skip(1);
            assert(a1 =~= seq!['-', ' '] + f);
            crate::text::lemma_trim_end_nonws_tail(seq!['-', ' '], f);
            assert(trim(after) == a1);
            assert(crate::text::strip_prefix(a1, seq!['\u{2014}']) is None) by {
                assert(a1.take(1)[0] == '-');
            }
            assert(crate::text::strip_prefix(a1, seq!['\u{2013}']) is None) by {
                assert(a1.take(1)[0] == '-');
            }
            assert(a1.take(1) =~= seq!['-']);
            assert(a1.skip(1) =~= seq![' '] + f);
            lemma_trim_spaced(f);
            assert(rest.last() == f.last());
            assert(!has_char(rest, '\n')) by {
                if has_char(rest, '\n') {
                    let k = choose|k: int| 0 <= k < rest.len() && rest[k] == '\n';
                    if 2 <= k < 2 + title.len() {
                        assert(title[k - 2] == '\n');
                    } else if k >= 7 + title.len() {
                        assert(f[k - 7 - title.len()] == '\n');
                    }
                }
            }
        },
        None => {
            assert(after =~= Seq::<char>::empty());
            assert(trim(after) =~= Seq::<char>::empty());
            assert(crate::grammar::strip_separator(Seq::<char>::empty()) =~= Seq::<char>::empty());
            assert(!has_char(rest, '\n')) by {
                if has_char(rest, '\n') {
                    let k = choose|k: int| 0 <= k < rest.len() && rest[k] == '\n';
                    if 2 <= k < 2 + title.len() {
                        assert(title[k - 2] == '\n');
                    }
                }
            }
        },
    }
}

/// The printed item line, as its number and what follows.
pub proof fn lemma_head_line_text(s: StepV)
    requires
        body_ok(s.body),
    ensures
        head_line(s) == decimal(s.number as nat) + seq!['.', ' '] + head_rest(
            s.title,
            if lines(s.body).len() > 0 {
                Some(lines(s.body)[0])
            } else {
                None
            },
        ),
{
    reveal_strlit(". **");
    reveal_strlit("** - ");
    reveal_strlit("**");
    lemma_body_trimmed(s.body);
    let ls = lines(s.body);
    if ls.len() > 0 {
        assert(head_line(s) =~= decimal(s.number as nat) + seq!['.', ' '] + head_rest(
            s.title,
            Some(ls[0]),
        ));
    } else {
        assert(head_line(s) =~= decimal(s.number as nat) + seq!['.', ' '] + head_rest(
            s.title,
            None,
        ));
    }
}

proof fn lemma_numbered(d: Seq<char>, rest: Seq<char>, number: u32)
    requires
        d == decimal(number as nat),
        is_trimmed(rest),
        rest.len() > 0,
        rest[0] == '*',
    ensures
        numbered_item(d + seq!['.', ' '] + rest) == Some((number, rest)),
        is_trimmed(d + seq!['.', ' '] + rest),
{
    lemma_decimal_text(number as nat);
    crate::text::lemma_parse_decimal(number);
    let line = d + seq!['.', ' '] + rest;
    let p = seq!['.', ' '];
    assert(line.subrange(d.len() as int, d.len() as int + 2) =~= p);
    assert forall|j: int| 0 <= j < d.len() implies !crate::text::occurs_at(line, p, j) by {
        if crate::text::occurs_at(line, p, j) {
            assert(line.subrange(j, j + 2)[0] == '.');
            assert(line[j] == d[j]);
            assert(crate::text::is_digit(d[j]));
        }
    }
    crate::text::lemma_find_is(line, p, d.len() as int);
    assert(line.take(d.len() as int) =~= d);
    assert(line.skip(d.len() as int + 2) =~= rest);
    crate::text::lemma_trim_trimmed(rest);
    assert(line[0] == d[0]);
    assert(line.last() == rest.last());
}

pub proof fn lemma_head_line(st: ParseState, s: StepV, i: nat, n: nat)
    requires
        st.in_section,
        flushed(st).steps.len() == i,
        s.number == next_number(i),
        title_ok(s.title),
        body_ok(s.body),
    ensures
        is_line(head_line(s)),
        open_at(process_line(st, head_line(s), n), flushed(st).steps, opened(s)),
{
    reveal_strlit("## ");
    lemma_head_line_text(s);
    let ls = lines(s.body);
    let first = if ls.len() > 0 {
        Some(ls[0])
    } else {
        None
    };
    assert(opt_filled(first)) by {
        if ls.len() > 0 {
            assert(filled(ls[0]));
        }
    }
    lemma_head_bold(s.title, first);
    let rest = head_rest(s.title, first);
    let d = decimal(s.number as nat);
    let line = head_line(s);
    lemma_numbered(d, rest, s.number);
    lemma_decimal_text(s.number as nat);
    crate::text::lemma_trim_trimmed(line);
    assert(!starts_with(line, "## "@)) by {
        if starts_with(line, "## "@) {
            assert(line.take(3)[0] == line[0]);
            assert(line[0] == d[0]);
            assert(crate::text::is_digit(d[0]));
        }
    }
    assert(new_step(next_number(flushed(st).steps.len()), rest) == opened(s));
    assert(!has_char(line, '\n')) by {
        if has_char(line, '\n') {
            let k = choose|k: int| 0 <= k < line.len() && line[k] == '\n';
            if k < d.len() {
                assert(line[k] == d[k]);
            } else if k >= d.len() + 2 {
                assert(rest[k - d.len() - 2] == '\n');
            }
        }
    }
    assert(line.last() == rest.last());
}

/// The blank line before each item changes nothing.
pub proof fn lemma_blank_line(st: ParseState, n: nat)
    requires
        st.in_section,
    ensures
        process_line(st, Seq::<char>::empty(), n) == st,
        is_line(Seq::<char>::empty()),
{
    reveal_strlit("## ");
    reveal_strlit("- ");
    let e = Seq::<char>::empty();
    assert(trim(e) =~= e);
    assert(find(e, seq!['.', ' ']) is None);
    assert(!has_char(e, '\n'));
}

/// A body line after the first joins the open step's body.
pub proof fn lemma_cont_line(st: ParseState, l: Seq<char>, n: nat, steps: Seq<StepV>, cur: StepV)
    requires
        open_at(st, steps, cur),
        filled(l),
        continuation_ok(l),
    ensures
        is_line("   "@ + l),
        open_at(
            process_line(st, "   "@ + l, n),
            steps,
            StepV {
                body: if cur.body.len() == 0 {
                    l
                } else {
                    cur.body + seq!['\n'] + l
                },
                ..cur
            },
        ),
{
    reveal_strlit("   ");
    assert("   "@ =~= seq![' ', ' ', ' ']);
    let line = "   "@ + l;
    assert(all_ws(line.take(3))) by {
        assert forall|k: int| 0 <= k < 3 implies is_ws(#[trigger] line.take(3)[k]) by {
            assert(line.take(3)[k] == ' ');
        }
    }
    crate::text::lemma_trim_start_skip(line, 3);
    assert(line.skip(3) =~= l);
    crate::text::lemma_trim_trimmed(l);
    assert(trim(line) == l);
    let bul = trim(trim_start_matches(l, "- "@));
    match split_bullet(bul) {
        Some((k, v)) => {
            lemma_effect_iff_key(cur, k, trim(v));
        },
        None => {},
    }
    assert(!has_char(line, '\n')) by {
        if has_char(line, '\n') {
            let k = choose|k: int| 0 <= k < line.len() && line[k] == '\n';
            if k >= 3 {
                assert(l[k - 3] == '\n');
            }
        }
    }
    assert(line.last() == l.last());
}

pub open spec fn indented(ls: Seq<Seq<char>>) -> Seq<Seq<char>> {
    ls.map_values(|l: Seq<char>| "   "@ + l)
}

/// The body's later lines rebuild the body.
pub proof fn lemma_cont_lines(
    st: ParseState,
    ls: Seq<Seq<char>>,
    k: int,
    n: nat,
    steps: Seq<StepV>,
    cur: StepV,
)
    requires
        1 <= k <= ls.len(),
        open_at(st, steps, StepV { body: ls[0], ..cur }),
        forall|i: int| 0 <= i < ls.len() ==> filled(#[trigger] ls[i]),
        forall|i: int| 1 <= i < ls.len() ==> continuation_ok(#[trigger] ls[i]),
    ensures
        open_at(
            run_lines(st, indented(ls.subrange(1, k)), n),
            steps,
            StepV { body: join(ls.take(k), seq!['\n']), ..cur },
        ),
        all_lines(indented(ls.subrange(1, k))),
    decreases k,
{
    if k == 1 {
        assert(indented(ls.subrange(1, 1)) =~= Seq::<Seq<char>>::empty());
        assert(ls.take(1) =~= seq![ls[0]]);
    } else {
        lemma_cont_lines(st, ls, k - 1, n, steps, cur);
        let prev = indented(ls.subrange(1, k - 1));
        assert(indented(ls.subrange(1, k)) =~= prev.push("   "@ + ls[k - 1]));
        lemma_run_lines_push(st, prev, "   "@ + ls[k - 1], n);
        let body = join(ls.take(k - 1), seq!['\n']);
        assert(body.len() > 0) by {
            assert forall|i: int| 0 <= i < ls.take(k - 1).len() implies (#[trigger] ls.take(
                k - 1,
            )[i]).len() > 0 by {
                assert(filled(ls[i]));
            }
            lemma_join_ends(ls.take(k - 1), seq!['\n']);
        }
        assert(filled(ls[k - 1]));
        assert(continuation_ok(ls[k - 1]));
        lemma_cont_line(
            run_lines(st, prev, n),
            ls[k - 1],
            n + prev.len(),
            steps,
            StepV { body, ..cur },
        );
        assert(ls.take(k).drop_last() =~= ls.take(k - 1));
        assert(join(ls.take(k), seq!['\n']) == body + seq!['\n'] + ls[k - 1]);
    }
}

// ── Whole steps ─────────────────────────────────────────────────

/// A step that the printer writes and the reader reads back unchanged, at
/// position `i` of its list. Values carried as JSON are ones that
/// `serde_json` reads back as the same text.
#[verifier::opaque]
pub open spec fn step_ok(s: StepV, i: nat) -> bool {
    &&& s.number == next_number(i)
    &&& title_ok(s.title)
    &&& body_ok(s.body)
    &&& names_ok(s.suggested_tools)
    &&& scope_ok(s.scope)
    &&& opt_plain(s.capability)
    &&& opt_json_ok(s.capability_input)
    &&& schema_ok(s.schema)
    &&& opt_filled(s.routing.when)
    &&& (forall|k: int| 0 <= k < s.routing.switch.len() ==> port_ok(#[trigger] s.routing.switch[k]))
    &&& opt_filled(s.agent)
    &&& (forall|k: int| 0 <= k < s.calls.len() ==> call_ok(#[trigger] s.calls[k]))
    &&& opt_filled(s.gate_prompt)
    &&& opt_filled(s.policy)
    &&& opt_filled(s.edit)
    &&& s.pos is None
}

proof fn lemma_all_lines_concat(a: Seq<Seq<char>>, b: Seq<Seq<char>>)
    requires
        all_lines(a),
        all_lines(b),
    ensures
        all_lines(a + b),
{
    assert forall|j: int| 0 <= j < (a + b).len() implies is_line(#[trigger] (a + b)[j]) by {
        if j < a.len() {
            assert((a + b)[j] == a[j]);
        } else {
            assert((a + b)[j] == b[j - a.len()]);
        }
    }
}

/// The bullets of a step, read onto the step its item line and body opened,
/// give back the step.
proof fn lemma_step_bullets(st: ParseState, s: StepV, i: nat, n: nat, steps: Seq<StepV>)
    requires
        open_at(st, steps, StepV { body: s.body, ..opened(s) }),
        step_ok(s, i),
    ensures
        open_at(run_lines(st, marked(crate::print::step_bullets(s)), n), steps, s),
        all_lines(marked(crate::print::step_bullets(s))),
{
    reveal(step_ok);
    let e = Seq::<Seq<char>>::empty();
    assert(marked(e) =~= e);
    assert(run_lines(st, marked(e), n) == st);
    let c0 = StepV { body: s.body, ..opened(s) };
    lemma_tools_group(st, s, e, n, steps, c0);
    let b1 = crate::print::bullets_tools(s, e);
    let c1 = StepV { suggested_tools: s.suggested_tools, scope: s.scope, ..c0 };
    lemma_kind_group(st, s, b1, n, steps, c1);
    let b2 = crate::print::bullets_kind(s, b1);
    let c2 = StepV {
        requires_confirmation: s.requires_confirmation,
        kind: s.kind,
        capability: s.capability,
        capability_input: s.capability_input,
        schema: s.schema,
        ..c1
    };
    lemma_routing_group(st, s, b2, n, steps, c2);
    let b3 = crate::print::bullets_routing(s, b2);
    let c3 = StepV { routing: s.routing, ..c2 };
    lemma_tail_group(st, s, b3, n, steps, c3);
    let c4 = StepV {
        on_failure: s.on_failure,
        mode: s.mode,
        agent: s.agent,
        calls: s.calls,
        gate_prompt: s.gate_prompt,
        policy: s.policy,
        edit: s.edit,
        ..c3
    };
    assert(c4 =~= s);
}

/// Reading a printed step, after the steps before it, adds it.
pub proof fn lemma_step(st: ParseState, s: StepV, i: nat, n: nat)
    requires
        st.in_section,
        flushed(st).steps.len() == i,
        step_ok(s, i),
    ensures
        open_at(run_lines(st, step_lines(s), n), flushed(st).steps, s),
        all_lines(step_lines(s)),
{
    reveal(step_ok);
    lemma_body_trimmed(s.body);
    let ls = lines(s.body);
    let steps = flushed(st).steps;
    let a = seq![Seq::<char>::empty(), head_line(s)];
    let c = indented(crate::print::tail_lines(ls));
    let d = marked(crate::print::step_bullets(s));
    assert(step_lines(s) =~= a + c + d);
    lemma_run_lines_append(st, a + c, d, n);
    lemma_run_lines_append(st, a, c, n);
    // the blank line and the item line
    lemma_blank_line(st, n);
    lemma_head_line(st, s, i, n + 1);
    assert(a.drop_first() =~= seq![head_line(s)]);
    assert(seq![head_line(s)].drop_first() =~= Seq::<Seq<char>>::empty());
    let st2 = run_lines(st, a, n);
    assert(a[0] == Seq::<char>::empty());
    assert(st2 == run_lines(process_line(st, a[0], n), a.drop_first(), n + 1));
    assert(st2 == run_lines(st, seq![head_line(s)], n + 1));
    let e = Seq::<Seq<char>>::empty();
    assert(run_lines(st, seq![head_line(s)], n + 1) == run_lines(
        process_line(st, head_line(s), n + 1),
        e,
        n + 2,
    ));
    assert(st2 == process_line(st, head_line(s), n + 1));
    assert(open_at(st2, steps, opened(s)));
    assert(all_lines(a)) by {
        assert forall|j: int| 0 <= j < a.len() implies is_line(#[trigger] a[j]) by {
            if j == 0 {
                assert(a[0] == Seq::<char>::empty());
            } else {
                assert(a[1] == head_line(s));
            }
        }
    }
    // the body's later lines
    let st3 = run_lines(st2, c, n + 2);
    if ls.len() > 0 {
        assert(crate::print::tail_lines(ls) =~= ls.subrange(1, ls.len() as int));
        assert(StepV { body: ls[0], ..opened(s) } == opened(s));
        lemma_cont_lines(st2, ls, ls.len() as int, n + 2, steps, opened(s));
        assert(ls.take(ls.len() as int) =~= ls);
    } else {
        assert(c =~= Seq::<Seq<char>>::empty());
        assert(s.body =~= Seq::<char>::empty());
        assert(StepV { body: s.body, ..opened(s) } =~= opened(s));
    }
    assert(open_at(st3, steps, StepV { body: s.body, ..opened(s) }));
    assert(all_lines(c));
    // the bullets
    lemma_step_bullets(st3, s, i, n + 2 + c.len(), steps);
    lemma_all_lines_concat(a, c);
    lemma_all_lines_concat(a + c, d);
}

// ── Whole documents ─────────────────────────────────────────────

pub open spec fn steps_ok(steps: Seq<StepV>) -> bool {
    forall|i: int| 0 <= i < steps.len() ==> step_ok(#[trigger] steps[i], i as nat)
}

proof fn lemma_heading_line()
    ensures
        process_line(initial_state(), "## Steps"@, 1) == (ParseState {
            in_section: true,
            ..initial_state()
        }),
        is_line("## Steps"@),
{
    reveal_strlit("## Steps");
    reveal_strlit("## ");
    reveal_strlit("## steps");
    let h = "## Steps"@;
    assert(is_trimmed(h));
    crate::text::lemma_trim_trimmed(h);
    assert(h.take(3) =~= "## "@);
    assert(crate::text::lower_seq(h) =~= crate::text::lower_seq("## steps"@));
    assert(!has_char(h, '\n'));
}

proof fn lemma_step_ok_body(s: StepV, i: nat)
    requires
        step_ok(s, i),
    ensures
        trim(s.body) == s.body,
{
    reveal(step_ok);
    lemma_body_trimmed(s.body);
}

pub open spec fn reads_prefix(steps: Seq<StepV>, k: int) -> bool {
    let r = run_lines(initial_state(), crate::print::doc_lines(steps.take(k)), 1);
    &&& r.in_section
    &&& k == 0 ==> r.steps.len() == 0 && (r.current is None)
    &&& k > 0 ==> open_at(r, steps.take(k - 1), steps[k - 1])
    &&& all_lines(crate::print::doc_lines(steps.take(k)))
}

proof fn lemma_doc_start(steps: Seq<StepV>)
    ensures
        reads_prefix(steps, 0),
{
    lemma_heading_line();
    assert(steps.take(0) =~= Seq::<StepV>::empty());
    let dl = crate::print::doc_lines(steps.take(0));
    assert(crate::print::all_step_lines(Seq::<StepV>::empty()) =~= Seq::<Seq<char>>::empty());
    assert(dl =~= seq!["## Steps"@]);
    assert(dl.drop_first() =~= Seq::<Seq<char>>::empty());
    assert(run_lines(initial_state(), dl, 1) == run_lines(
        process_line(initial_state(), dl[0], 1),
        dl.drop_first(),
        2,
    ));
    assert(all_lines(dl)) by {
        assert forall|j: int| 0 <= j < dl.len() implies is_line(#[trigger] dl[j]) by {
            assert(dl[0] == "## Steps"@);
        }
    }
}

proof fn lemma_doc_next(steps: Seq<StepV>, k: int)
    requires
        steps_ok(steps),
        0 < k <= steps.len(),
        reads_prefix(steps, k - 1),
    ensures
        reads_prefix(steps, k),
{
    let prev = crate::print::doc_lines(steps.take(k - 1));
    let r = run_lines(initial_state(), prev, 1);
    let s = steps[k - 1];
    assert(steps.take(k).drop_last() =~= steps.take(k - 1));
    assert(steps.take(k).last() == s);
    assert(crate::print::doc_lines(steps.take(k)) =~= prev + step_lines(s));
    lemma_run_lines_append(initial_state(), prev, step_lines(s), 1);
    assert(step_ok(steps[k - 1], (k - 1) as nat));
    if k > 1 {
        assert(step_ok(steps[k - 2], (k - 2) as nat));
        lemma_step_ok_body(steps[k - 2], (k - 2) as nat);
        assert(open_at(r, steps.take(k - 2), steps[k - 2]));
        assert(StepV { body: trim(steps[k - 2].body), ..steps[k - 2] } == steps[k - 2]);
        assert(flushed(r).steps =~= steps.take(k - 1)) by {
            assert(steps.take(k - 2).push(steps[k - 2]) =~= steps.take(k - 1));
        }
    } else {
        assert(flushed(r) == r);
        assert(steps.take(0) =~= Seq::<StepV>::empty());
        assert(flushed(r).steps =~= steps.take(k - 1));
    }
    lemma_step(r, s, (k - 1) as nat, 1 + prev.len());
    lemma_all_lines_concat(prev, step_lines(s));
    let r2 = run_lines(initial_state(), crate::print::doc_lines(steps.take(k)), 1);
    assert(r2 == run_lines(r, step_lines(s), 1 + prev.len()));
    assert(open_at(r2, steps.take(k - 1), steps[k - 1]));
    assert(r2.in_section);
    assert(all_lines(crate::print::doc_lines(steps.take(k))));
}

/// After the heading and the first `k` printed steps, the reader has the
/// steps before the last, and the last open.
proof fn lemma_doc_prefix(steps: Seq<StepV>, k: int)
    requires
        steps_ok(steps),
        0 <= k <= steps.len(),
    ensures
        reads_prefix(steps, k),
    decreases k,
{
    if k == 0 {
        lemma_doc_start(steps);
    } else {
        lemma_doc_prefix(steps, k - 1);
        lemma_doc_next(steps, k);
    }
}

/// Printing steps and reading the text back gives the same steps, when
/// every step is one the format carries (see [`step_ok`]).
pub proof fn lemma_printed_steps_read_back(steps: Seq<StepV>)
    requires
        steps_ok(steps),
    ensures
        parse_steps_spec(print_spec(steps).0).0 == steps,
{
    let k = steps.len() as int;
    lemma_doc_prefix(steps, k);
    assert(steps.take(k) =~= steps);
    assert(reads_prefix(steps, k));
    let dl = crate::print::doc_lines(steps);
    crate::text::lemma_lines_unlines(dl);
    let r = run_lines(initial_state(), dl, 1);
    if k > 0 {
        assert(step_ok(steps[k - 1], (k - 1) as nat));
        lemma_step_ok_body(steps[k - 1], (k - 1) as nat);
        assert(flushed(r).steps =~= steps) by {
            assert(steps.take(k - 1).push(steps[k - 1]) =~= steps);
        }
    } else {
        assert(flushed(r) == r);
        assert(r.steps =~= steps);
    }
}

// ── What is reported ────────────────────────────────────────────

/// A port whose name holds `>` or `;` cannot be written as one port (the
/// separators split it on reading), and printing reports it, by name.
pub proof fn lemma_separator_port_reported(r: SwitchRuleV)
    ensures
        (has_char(r.name, '>') || has_char(r.name, ';')) ==> crate::print::port_losses(r).contains(
            ("switch"@, "port name `"@ + r.name + "` contains a separator"@),
        ),
{
    let l = crate::print::port_losses(r);
    let x = ("switch"@, "port name `"@ + r.name + "` contains a separator"@);
    if has_char(r.name, '>') || has_char(r.name, ';') {
        let l0 = if r.name.len() == 0 {
            Seq::<crate::print::Loss>::empty().push(
                ("switch"@, "a port with an empty name is dropped when re-read"@),
            )
        } else {
            Seq::<crate::print::Loss>::empty()
        };
        let l1 = l0.push(x);
        assert(l1[l1.len() - 1] == x);
        match r.when {
            Some(w) => {
                if has_sep(w) {
                    let l2 = l1.push(
                        (
                            "switch"@,
                            "guard `"@ + w + "` contains a separator; the port would be truncated"@,
                        ),
                    );
                    assert(l2[l1.len() - 1] == x);
                }
            },
            None => {},
        }
    }
}

proof fn lemma_ports_losses_cover(rs: Seq<SwitchRuleV>, k: int)
    requires
        0 <= k < rs.len(),
    ensures
        forall|x: crate::print::Loss| #[trigger] crate::print::port_losses(rs[k]).contains(x)
            ==> crate::print::ports_losses(rs).contains(x),
    decreases rs.len(),
{
    let init = rs.drop_last();
    assert forall|x: crate::print::Loss| #[trigger] crate::print::port_losses(rs[k]).contains(x)
        implies crate::print::ports_losses(rs).contains(x) by {
        let a = crate::print::ports_losses(init);
        let b = crate::print::port_losses(rs.last());
        if k < rs.len() - 1 {
            lemma_ports_losses_cover(init, k);
            assert(init[k] == rs[k]);
            let j = choose|j: int| 0 <= j < a.len() && a[j] == x;
            assert((a + b)[j] == x);
        } else {
            let j = choose|j: int| 0 <= j < b.len() && b[j] == x;
            assert((a + b)[a.len() + j] == x);
        }
    }
}

proof fn lemma_all_losses_cover(steps: Seq<StepV>, i: int)
    requires
        0 <= i < steps.len(),
    ensures
        crate::print::all_loss_diags(steps).len() >= crate::print::step_losses(steps[i]).len(),
    decreases steps.len(),
{
    if i < steps.len() - 1 {
        lemma_all_losses_cover(steps.drop_last(), i);
        assert(steps.drop_last()[i] == steps[i]);
    }
}

/// Printing reports a lossy construct whenever some step has a port whose
/// name holds `>` or `;`.
pub proof fn lemma_separator_ports_make_printing_lossy(steps: Seq<StepV>, i: int, k: int)
    requires
        0 <= i < steps.len(),
        0 <= k < steps[i].routing.switch.len(),
        has_char(steps[i].routing.switch[k].name, '>') || has_char(
            steps[i].routing.switch[k].name,
            ';',
        ),
    ensures
        print_spec(steps).1.len() > 0,
{
    let rs = steps[i].routing.switch;
    lemma_separator_port_reported(rs[k]);
    lemma_ports_losses_cover(rs, k);
    let x = ("switch"@, "port name `"@ + rs[k].name + "` contains a separator"@);
    assert(crate::print::port_losses(rs[k]).contains(x));
    assert(crate::print::ports_losses(rs).len() > 0);
    assert(crate::print::step_losses(steps[i]).len() > 0);
    lemma_all_losses_cover(steps, i);
}

// ── Nothing to report ───────────────────────────────────────────

proof fn lemma_no_port_losses(rs: Seq<SwitchRuleV>)
    requires
        forall|k: int| 0 <= k < rs.len() ==> port_ok(#[trigger] rs[k]),
    ensures
        crate::print::ports_losses(rs).len() == 0,
    decreases rs.len(),
{
    if rs.len() > 0 {
        lemma_no_port_losses(rs.drop_last());
        assert(port_ok(rs[rs.len() - 1]));
        let r = rs.last();
        assert(crate::print::port_losses(r).len() == 0) by {
            match r.when {
                Some(w) => {},
                None => {},
            }
        }
    }
}

proof fn lemma_no_body_losses(ls: Seq<Seq<char>>)
    requires
        forall|k: int| 0 <= k < ls.len() ==> filled(#[trigger] ls[k]) && continuation_ok(ls[k]),
    ensures
        crate::print::body_losses(ls).len() == 0,
    decreases ls.len(),
{
    if ls.len() > 0 {
        lemma_no_body_losses(ls.drop_last());
        let l = ls.last();
        assert(filled(ls[ls.len() - 1]) && continuation_ok(ls[ls.len() - 1]));
        crate::text::lemma_trim_trimmed(l);
        crate::text::lemma_find_from(l, seq!['.', ' '], 0);
        assert(!crate::print::looks_numbered(l));
    }
}

proof fn lemma_no_tool_losses(ns: Seq<Seq<char>>)
    requires
        names_ok(ns),
    ensures
        crate::print::tool_losses(ns).len() == 0,
    decreases ns.len(),
{
    if ns.len() > 0 {
        let init = ns.drop_last();
        assert(names_ok(init)) by {
            assert forall|i: int| 0 <= i < init.len() implies filled(#[trigger] init[i]) && !has_char(
                init[i],
                ',',
            ) by {
                assert(init[i] == ns[i]);
            }
        }
        lemma_no_tool_losses(init);
        assert(filled(ns[ns.len() - 1]));
    }
}

proof fn lemma_names_concat(a: Seq<Seq<char>>, b: Seq<Seq<char>>)
    requires
        names_ok(a),
        names_ok(b),
    ensures
        names_ok(a + b),
{
    assert forall|i: int| 0 <= i < (a + b).len() implies filled(#[trigger] (a + b)[i]) && !has_char(
        (a + b)[i],
        ',',
    ) by {
        if i < a.len() {
            assert((a + b)[i] == a[i]);
        } else {
            assert((a + b)[i] == b[i - a.len()]);
        }
    }
}

pub proof fn lemma_no_step_losses(s: StepV, i: nat)
    requires
        step_ok(s, i),
    ensures
        crate::print::step_losses(s).len() == 0,
{
    reveal(step_ok);
    lemma_no_port_losses(s.routing.switch);
    lemma_body_trimmed(s.body);
    let ls = lines(s.body);
    let tl = crate::print::tail_lines(ls);
    assert forall|k: int| 0 <= k < tl.len() implies filled(#[trigger] tl[k]) && continuation_ok(
        tl[k],
    ) by {
        assert(tl[k] == ls[k + 1]);
    }
    lemma_no_body_losses(tl);
    let e = Seq::<Seq<char>>::empty();
    assert(names_ok(e));
    match s.scope {
        Some(sc) => {
            let allowed = match sc.allow {
                Some(a) => a,
                None => e,
            };
            lemma_names_concat(allowed, sc.deny);
            lemma_names_concat(s.suggested_tools, allowed + sc.deny);
        },
        None => {
            lemma_names_concat(s.suggested_tools, e);
        },
    }
    lemma_no_tool_losses(crate::print::tool_names(s));
}

/// Printing steps the format carries reports nothing lossy.
pub proof fn lemma_printable_steps_lose_nothing(steps: Seq<StepV>)
    requires
        steps_ok(steps),
    ensures
        print_spec(steps).1.len() == 0,
    decreases steps.len(),
{
    if steps.len() > 0 {
        let init = steps.drop_last();
        assert(steps_ok(init)) by {
            assert forall|i: int| 0 <= i < init.len() implies step_ok(#[trigger] init[i], i as nat) by {
                assert(init[i] == steps[i]);
            }
        }
        lemma_printable_steps_lose_nothing(init);
        assert(step_ok(steps[steps.len() - 1], (steps.len() - 1) as nat));
        lemma_no_step_losses(steps.last(), (steps.len() - 1) as nat);
    }
}

// ── Positions are not printed ───────────────────────────────────

pub open spec fn unplaced(s: StepV) -> StepV {
    StepV { pos: None, ..s }
}

pub open spec fn all_unplaced(steps: Seq<StepV>) -> Seq<StepV> {
    steps.map_values(|s: StepV| unplaced(s))
}

proof fn lemma_step_ignores_pos(s: StepV)
    ensures
        step_lines(s) == step_lines(unplaced(s)),
        crate::print::loss_diags(s) == crate::print::loss_diags(unplaced(s)),
{
    let u = unplaced(s);
    assert(crate::print::bullets_tools(s, Seq::empty()) == crate::print::bullets_tools(u, Seq::empty()));
    let b1 = crate::print::bullets_tools(s, Seq::empty());
    assert(crate::print::bullets_kind(s, b1) == crate::print::bullets_kind(u, b1));
    let b2 = crate::print::bullets_kind(s, b1);
    assert(crate::print::bullets_routing(s, b2) == crate::print::bullets_routing(u, b2));
    let b3 = crate::print::bullets_routing(s, b2);
    assert(crate::print::bullets_tail(s, b3) == crate::print::bullets_tail(u, b3));
    assert(crate::print::step_bullets(s) == crate::print::step_bullets(u));
    assert(crate::print::step_losses(s) == crate::print::step_losses(u));
}

proof fn lemma_all_ignore_pos(steps: Seq<StepV>)
    ensures
        crate::print::all_step_lines(steps) == crate::print::all_step_lines(all_unplaced(steps)),
        crate::print::all_loss_diags(steps) == crate::print::all_loss_diags(all_unplaced(steps)),
    decreases steps.len(),
{
    if steps.len() > 0 {
        let init = steps.drop_last();
        lemma_all_ignore_pos(init);
        assert(all_unplaced(steps).drop_last() =~= all_unplaced(init));
        assert(all_unplaced(steps).last() == unplaced(steps.last()));
        lemma_step_ignores_pos(steps.last());
    } else {
        assert(all_unplaced(steps) =~= steps);
    }
}

/// The printed text and its diagnostics do not depend on canvas positions.
pub proof fn lemma_print_ignores_positions(steps: Seq<StepV>)
    ensures
        print_spec(steps) == print_spec(all_unplaced(steps)),
{
    lemma_all_ignore_pos(steps);
    assert(crate::print::doc_lines(steps) =~= crate::print::doc_lines(all_unplaced(steps)));
}

pub proof fn lemma_step_ok_number(s: StepV, i: nat)
    requires
        step_ok(s, i),
    ensures
        s.number == next_number(i),
{
    reveal(step_ok);
}

} // verus!
