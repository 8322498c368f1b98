//! What the reader produces.
//!
//! Every step `parse_steps` returns has the shape the printer writes back
//! unchanged, except for three things the reader cannot rule out: a title
//! written without a bold pair may hold `**` or end in `*`; a `deny-tools:`
//! with an empty list and no allow-list leaves an empty scope that prints
//! as nothing; and JSON-valued fields are only as stable as `serde_json`'s
//! reading of its own output. Together with the printer's own law this
//! gives the format's promise: a parsed document, printed and read again,
//! gives the same steps.

use vstd::prelude::*;
use crate::grammar::{csv_list, nonempty_trimmed, numbered_item, split_bullet, switch_rules};
use crate::model::{ScopeV, StepV};
use crate::diagnostic::LocationV;
use crate::parse::{
    bullet_applied, bullet_effect, bullet_frame, flushed, initial_state, malformed_diag, new_step, next_number,
    parse_steps_spec, process_line, run_lines, step_location, ParseState, Problem,
};
use crate::print::print_spec;
use crate::roundtrip::{
    body_ok, continuation_ok, filled, names_ok, opt_filled, opt_plain, port_ok, recognized,
};
use crate::text::{has_char, is_trimmed, is_ws, join, lines, split_char, trim, trim_end, trim_start};

verus! {

// ── Text that holds no newline ──────────────────────────────────

pub proof fn lemma_split_pieces(s: Seq<char>, c: char, d: char)
    requires
        d == c || !has_char(s, d),
    ensures
        forall|k: int| 0 <= k < split_char(s, c).len() ==> !has_char(#[trigger] split_char(s, c)[k], d),
    decreases s.len(),
{
    crate::text::lemma_split_len(s, c);
    if s.len() > 0 {
        let t = s.drop_first();
        assert(d == c || !has_char(t, d)) by {
            if d != c && has_char(t, d) {
                let k = choose|k: int| 0 <= k < t.len() && t[k] == d;
                assert(s[k + 1] == d);
            }
        }
        lemma_split_pieces(t, c, d);
        crate::text::lemma_split_len(t, c);
        let rest = split_char(t, c);
        if s[0] == c {
            assert forall|k: int| 0 <= k < split_char(s, c).len() implies !has_char(
                #[trigger] split_char(s, c)[k],
                d,
            ) by {
                if k > 0 {
                    assert(split_char(s, c)[k] == rest[k - 1]);
                } else {
                    assert(split_char(s, c)[0] =~= Seq::<char>::empty());
                }
            }
        } else {
            let first = seq![s[0]] + rest[0];
            assert(!has_char(first, d)) by {
                if has_char(first, d) {
                    let k = choose|k: int| 0 <= k < first.len() && first[k] == d;
                    if k == 0 {
                        assert(s[0] == d);
                        if d != c {
                            assert(has_char(s, d));
                        }
                    } else {
                        assert(rest[0][k - 1] == d);
                    }
                }
            }
            assert forall|k: int| 0 <= k < split_char(s, c).len() implies !has_char(
                #[trigger] split_char(s, c)[k],
                d,
            ) by {
                if k > 0 {
                    assert(split_char(s, c)[k] == rest[k]);
                }
            }
        }
    }
}

pub proof fn lemma_lines_one_line(md: Seq<char>)
    ensures
        forall|k: int| 0 <= k < lines(md).len() ==> !has_char(#[trigger] lines(md)[k], '\n'),
{
    lemma_split_pieces(md, '\n', '\n');
    let ps = split_char(md, '\n');
    crate::text::lemma_split_len(md, '\n');
    assert forall|k: int| 0 <= k < lines(md).len() implies !has_char(#[trigger] lines(md)[k], '\n') by {
        if k < ps.len() - 1 {
            let p = ps[k];
            assert(lines(md)[k] == crate::text::strip_cr(p));
            assert(!has_char(p, '\n'));
            if has_char(crate::text::strip_cr(p), '\n') {
                let j = choose|j: int| 0 <= j < crate::text::strip_cr(p).len() && crate::text::strip_cr(p)[j] == '\n';
                assert(p[j] == '\n');
            }
        } else {
            assert(lines(md)[k] == ps.last());
            assert(!has_char(ps[ps.len() - 1], '\n'));
        }
    }
}

pub proof fn lemma_trim_start_sub(s: Seq<char>, d: char)
    requires
        !has_char(s, d),
    ensures
        !has_char(trim_start(s), d),
        trim_start(s).len() > 0 ==> !is_ws(trim_start(s)[0]),
    decreases s.len(),
{
    if s.len() > 0 && is_ws(s[0]) {
        let t = s.drop_first();
        assert(!has_char(t, d)) by {
            if has_char(t, d) {
                let k = choose|k: int| 0 <= k < t.len() && t[k] == d;
                assert(s[k + 1] == d);
            }
        }
        lemma_trim_start_sub(t, d);
    }
}

pub proof fn lemma_trim_end_sub(s: Seq<char>, d: char)
    requires
        !has_char(s, d),
    ensures
        !has_char(trim_end(s), d),
        trim_end(s).len() > 0 ==> !is_ws(trim_end(s).last()),
        trim_end(s).len() > 0 ==> trim_end(s)[0] == s[0],
    decreases s.len(),
{
    if s.len() > 0 && is_ws(s.last()) {
        let t = s.drop_last();
        assert(!has_char(t, d)) by {
            if has_char(t, d) {
                let k = choose|k: int| 0 <= k < t.len() && t[k] == d;
                assert(s[k] == d);
            }
        }
        lemma_trim_end_sub(t, d);
    }
}

/// Trimming keeps a text free of a character, and leaves it trimmed.
pub proof fn lemma_trim_sub(s: Seq<char>, d: char)
    requires
        !has_char(s, d),
    ensures
        !has_char(trim(s), d),
        is_trimmed(trim(s)),
{
    lemma_trim_start_sub(s, d);
    lemma_trim_end_sub(trim_start(s), d);
}

pub proof fn lemma_skip_sub(s: Seq<char>, i: int, d: char)
    requires
        !has_char(s, d),
        0 <= i <= s.len(),
    ensures
        !has_char(s.skip(i), d),
        !has_char(s.take(i), d),
{
    if has_char(s.skip(i), d) {
        let k = choose|k: int| 0 <= k < s.skip(i).len() && s.skip(i)[k] == d;
        assert(s[k + i] == d);
    }
    if has_char(s.take(i), d) {
        let k = choose|k: int| 0 <= k < s.take(i).len() && s.take(i)[k] == d;
        assert(s[k] == d);
    }
}

pub proof fn lemma_trim_start_matches_sub(s: Seq<char>, p: Seq<char>, d: char)
    requires
        !has_char(s, d),
    ensures
        !has_char(crate::text::trim_start_matches(s, p), d),
    decreases s.len(),
{
    if p.len() > 0 && crate::text::starts_with(s, p) {
        lemma_skip_sub(s, p.len() as int, d);
        lemma_trim_start_matches_sub(s.skip(p.len() as int), p, d);
    }
}

// ── Lists ───────────────────────────────────────────────────────

pub proof fn lemma_nonempty_trimmed_names(ps: Seq<Seq<char>>)
    requires
        forall|k: int| 0 <= k < ps.len() ==> !has_char(#[trigger] ps[k], ',') && !has_char(ps[k], '\n'),
    ensures
        names_ok(nonempty_trimmed(ps)),
    decreases ps.len(),
{
    if ps.len() > 0 {
        let init = ps.drop_last();
        assert forall|k: int| 0 <= k < init.len() implies !has_char(#[trigger] init[k], ',') && !has_char(
            init[k],
            '\n',
        ) by {
            assert(init[k] == ps[k]);
        }
        lemma_nonempty_trimmed_names(init);
        let last = ps[ps.len() - 1];
        lemma_trim_sub(last, ',');
        lemma_trim_sub(last, '\n');
        let rest = nonempty_trimmed(init);
        let t = trim(last);
        if t.len() > 0 {
            assert forall|k: int| 0 <= k < rest.push(t).len() implies filled(#[trigger] rest.push(t)[k])
                && !has_char(rest.push(t)[k], ',') by {
                if k < rest.len() {
                    assert(rest.push(t)[k] == rest[k]);
                }
            }
        }
    }
}

/// Every item of a comma list is a name the printer writes back.
pub proof fn lemma_csv_names(v: Seq<char>)
    requires
        !has_char(v, '\n'),
    ensures
        names_ok(csv_list(v)),
{
    lemma_split_pieces(v, ',', ',');
    lemma_split_pieces(v, ',', '\n');
    let ps = split_char(v, ',');
    assert forall|k: int| 0 <= k < ps.len() implies !has_char(#[trigger] ps[k], ',') && !has_char(
        ps[k],
        '\n',
    ) by {}
    lemma_nonempty_trimmed_names(ps);
}

pub proof fn lemma_splitn3_parts(s: Seq<char>, c: char, d: char)
    requires
        d == c || !has_char(s, d),
    ensures
        !has_char(crate::grammar::splitn3(s, c).0, d),
        !has_char(crate::grammar::splitn3(s, c).1, d),
{
    crate::text::lemma_find_char(s, c);
    match crate::text::find_char(s, c) {
        None => {
            if d != c {
            }
        },
        Some(i) => {
            let r = s.skip(i + 1);
            assert(!has_char(s.take(i), d)) by {
                if has_char(s.take(i), d) {
                    let k = choose|k: int| 0 <= k < s.take(i).len() && s.take(i)[k] == d;
                    assert(s[k] == d);
                }
            }
            assert(d == c || !has_char(r, d)) by {
                if d != c && has_char(r, d) {
                    let k = choose|k: int| 0 <= k < r.len() && r[k] == d;
                    assert(s[k + i + 1] == d);
                }
            }
            crate::text::lemma_find_char(r, c);
            match crate::text::find_char(r, c) {
                None => {
                    if d == c {
                        assert(!has_char(r, c));
                    }
                },
                Some(j) => {
                    assert(!has_char(r.take(j), d)) by {
                        if has_char(r.take(j), d) {
                            let k = choose|k: int| 0 <= k < r.take(j).len() && r.take(j)[k] == d;
                            assert(r[k] == d);
                        }
                    }
                },
            }
        },
    }
}

pub proof fn lemma_segment_port(seg: Seq<char>)
    requires
        !has_char(seg, ';'),
        !has_char(seg, '\n'),
    ensures
        crate::grammar::switch_segment(seg).0 matches Some(r) ==> port_ok(r),
{
    lemma_splitn3_parts(seg, '>', '>');
    lemma_splitn3_parts(seg, '>', ';');
    lemma_splitn3_parts(seg, '>', '\n');
    let (a, b, c) = crate::grammar::splitn3(seg, '>');
    lemma_trim_sub(a, '>');
    lemma_trim_sub(a, ';');
    lemma_trim_sub(a, '\n');
    lemma_trim_sub(b, '>');
    lemma_trim_sub(b, ';');
    lemma_trim_sub(b, '\n');
}

pub proof fn lemma_switch_items_ports(segs: Seq<Seq<char>>)
    requires
        forall|k: int| 0 <= k < segs.len() ==> !has_char(#[trigger] segs[k], ';') && !has_char(
            segs[k],
            '\n',
        ),
    ensures
        forall|k: int| 0 <= k < crate::grammar::switch_items(segs).0.len() ==> port_ok(
            #[trigger] crate::grammar::switch_items(segs).0[k],
        ),
    decreases segs.len(),
{
    if segs.len() > 0 {
        let init = segs.drop_last();
        assert forall|k: int| 0 <= k < init.len() implies !has_char(#[trigger] init[k], ';') && !has_char(
            init[k],
            '\n',
        ) by {
            assert(init[k] == segs[k]);
        }
        lemma_switch_items_ports(init);
        let last = segs[segs.len() - 1];
        lemma_segment_port(last);
        let rules = crate::grammar::switch_items(init).0;
        let (rule, _) = crate::grammar::switch_segment(last);
        let all = crate::grammar::opt_push(rules, rule);
        assert forall|k: int| 0 <= k < all.len() implies port_ok(#[trigger] all[k]) by {
            if k < rules.len() {
                match rule {
                    Some(x) => assert(all[k] == rules[k]),
                    None => {},
                }
            }
        }
    }
}

/// Every switch port the reader builds is one the printer writes back.
pub proof fn lemma_switch_ports(v: Seq<char>)
    requires
        !has_char(v, '\n'),
    ensures
        forall|k: int| 0 <= k < switch_rules(v).0.len() ==> port_ok(#[trigger] switch_rules(v).0[k]),
{
    lemma_split_pieces(v, ';', ';');
    lemma_split_pieces(v, ';', '\n');
    lemma_switch_items_ports(split_char(v, ';'));
}

// ── Bodies ──────────────────────────────────────────────────────

/// Lines joined by newlines split back into the same lines.
pub proof fn lemma_lines_join(ls: Seq<Seq<char>>)
    requires
        forall|k: int| 0 <= k < ls.len() ==> filled(#[trigger] ls[k]),
    ensures
        lines(join(ls, seq!['\n'])) == ls,
{
    if ls.len() == 0 {
        crate::text::lemma_split_len(Seq::<char>::empty(), '\n');
        assert(split_char(Seq::<char>::empty(), '\n') =~= seq![Seq::<char>::empty()]);
        assert(lines(join(ls, seq!['\n'])) =~= ls);
    } else {
        lemma_split_join_lines(ls);
        assert forall|k: int| 0 <= k < ls.len() implies crate::text::strip_cr(#[trigger] ls[k]) == ls[k] by {
            assert(filled(ls[k]));
        }
        assert(filled(ls[ls.len() - 1]));
        assert(lines(join(ls, seq!['\n'])) =~= ls);
    }
}

proof fn lemma_split_join_lines(ls: Seq<Seq<char>>)
    requires
        ls.len() > 0,
        forall|k: int| 0 <= k < ls.len() ==> filled(#[trigger] ls[k]),
    ensures
        split_char(join(ls, seq!['\n']), '\n') == ls,
    decreases ls.len(),
{
    if ls.len() == 1 {
        assert(filled(ls[0]));
        crate::text::lemma_split_no_char(ls[0], '\n');
        assert(seq![ls[0]] =~= ls);
    } else {
        let init = ls.drop_last();
        assert forall|k: int| 0 <= k < init.len() implies filled(#[trigger] init[k]) by {
            assert(init[k] == ls[k]);
        }
        lemma_split_join_lines(init);
        assert(filled(ls[ls.len() - 1]));
        crate::roundtrip::lemma_split_append(join(init, seq!['\n']), ls.last(), '\n');
        assert(init.push(ls.last()) =~= ls);
    }
}

pub proof fn lemma_body_empty()
    ensures
        body_ok(Seq::<char>::empty()),
{
    lemma_lines_join(Seq::<Seq<char>>::empty());
    assert(join(Seq::<Seq<char>>::empty(), seq!['\n']) =~= Seq::<char>::empty());
}

/// A body that grows by one line stays a body the printer writes back.
pub proof fn lemma_body_push(b: Seq<char>, l: Seq<char>)
    requires
        body_ok(b),
        filled(l),
        continuation_ok(l) || b.len() == 0,
    ensures
        body_ok(
            if b.len() == 0 {
                l
            } else {
                b + seq!['\n'] + l
            },
        ),
{
    let ls = lines(b);
    let nl = if b.len() == 0 {
        seq![l]
    } else {
        ls.push(l)
    };
    if b.len() == 0 {
        assert(join(nl, seq!['\n']) =~= l);
    } else {
        assert(ls.len() > 0) by {
            if ls.len() == 0 {
                assert(join(ls, seq!['\n']) =~= Seq::<char>::empty());
            }
        }
        assert(nl.drop_last() =~= ls);
        assert(join(nl, seq!['\n']) == b + seq!['\n'] + l);
    }
    assert forall|k: int| 0 <= k < nl.len() implies filled(#[trigger] nl[k]) by {
        if b.len() > 0 && k < ls.len() {
            assert(nl[k] == ls[k]);
        }
    }
    lemma_lines_join(nl);
    assert forall|k: int| 1 <= k < nl.len() implies continuation_ok(#[trigger] nl[k]) by {
        if k < ls.len() {
            assert(nl[k] == ls[k]);
        }
    }
}

pub proof fn lemma_body_single(f: Seq<char>)
    requires
        is_trimmed(f),
        !has_char(f, '\n'),
    ensures
        body_ok(f),
{
    lemma_body_empty();
    let e = Seq::<char>::empty();
    if f.len() > 0 {
        assert(filled(f));
        lemma_body_push(e, f);
        assert(e.len() == 0);
    } else {
        assert(f =~= e);
    }
}

// ── The shape of what the reader builds ────────────────────────

/// What every step the reader builds looks like, at position `i`.
pub open spec fn read_shape(s: StepV, i: nat) -> bool {
    &&& s.number == next_number(i)
    &&& !has_char(s.title, '\n')
    &&& body_ok(s.body)
    &&& names_ok(s.suggested_tools)
    &&& match s.scope {
        Some(x) => names_ok(x.deny) && match x.allow {
            Some(a) => names_ok(a),
            None => true,
        },
        None => true,
    }
    &&& opt_plain(s.capability)
    &&& match s.schema {
        Some(x) => x.input is Some || x.output is Some,
        None => true,
    }
    &&& opt_filled(s.routing.when)
    &&& (forall|k: int| 0 <= k < s.routing.switch.len() ==> port_ok(#[trigger] s.routing.switch[k]))
    &&& opt_filled(s.agent)
    &&& opt_filled(s.gate_prompt)
    &&& opt_filled(s.policy)
    &&& opt_filled(s.edit)
    &&& s.pos is None
}

/// A recognized bullet keeps the shape.
#[verifier::spinoff_prover]
#[verifier::rlimit(60)]
pub proof fn lemma_effect_keeps_shape(step: StepV, key: Seq<char>, val: Seq<char>, i: nat)
    requires
        read_shape(step, i),
        is_trimmed(val),
        !has_char(val, '\n'),
    ensures
        bullet_effect(step, key, val) matches Some((s2, _)) ==> read_shape(s2, i),
{
    match bullet_effect(step, key, val) {
        None => {},
        Some((s2, _)) => {
            if key == "tools"@ {
                lemma_csv_names(val);
            } else if key == "allow-tools"@ || key == "allow_tools"@ {
                lemma_csv_names(val);
            } else if key == "deny-tools"@ || key == "deny_tools"@ {
                lemma_csv_names(val);
            } else if key == "requires_confirmation"@ || key == "kind"@ || key == "capability"@ || key
                == "with"@ || key == "input"@ || key == "output"@ {
            } else if key == "when"@ || key == "next"@ || key == "terminal"@ || key == "depends_on"@
                || key == "depends-on"@ {
            } else if key == "switch"@ {
                lemma_switch_ports(val);
                assert(s2.routing.switch == switch_rules(val).0);
            } else {
            }
        },
    }
}

/// A recognized bullet changes neither the step's number nor its title nor
/// its body.
#[verifier::spinoff_prover]
#[verifier::rlimit(60)]
proof fn lemma_effect_keeps_head(step: StepV, key: Seq<char>, val: Seq<char>)
    ensures
        bullet_effect(step, key, val) matches Some((s2, _)) ==> s2.number == step.number
            && s2.title == step.title && s2.body == step.body,
{
}

/// Applying a bullet to the open step leaves everything but that step and
/// the diagnostics as it was: the finished steps, the numbers written, and
/// whether the lines are in the steps section. The step keeps its number,
/// title and body; the diagnostics only grow, and each one added points at
/// the step and the bullet's line.
pub proof fn lemma_bullet_keeps_the_rest(st: ParseState, bullet: Seq<char>, line_no: nat)
    requires
        st.current is Some,
    ensures
        bullet_applied(st, bullet, line_no) matches Some(s2) ==> bullet_frame(st, s2, line_no),
{
    match split_bullet(bullet) {
        None => {},
        Some((key, value)) => {
            let step = st.current->0;
            lemma_effect_keeps_head(step, key, trim(value));
            match bullet_effect(step, key, trim(value)) {
                None => {},
                Some((s2, problems)) => {
                    let added = problems.map_values(
                        |p: Problem| malformed_diag(p, step_location(st, line_no)),
                    );
                    let d = st.diags + added;
                    assert(d.take(st.diags.len() as int) =~= st.diags);
                    assert forall|k: int| st.diags.len() <= k < d.len() implies (#[trigger] d[k]).location
                        == LocationV::Step { number: step.number, line: Some(line_no as usize) } by {
                        assert(d[k] == added[k - st.diags.len()]);
                    }
                },
            }
        },
    }
}

/// The spellings the reader accepts for one bullet have one effect:
/// `allow-tools` and `allow_tools`, `deny-tools` and `deny_tools`,
/// `depends_on` and `depends-on`, `on_failure` and `on-failure`. An allow
/// bullet sets the allow list and keeps the deny list the step had (none
/// when it had no scope); a deny bullet sets the deny list and keeps the
/// allow list. Neither reports anything or touches the rest of the step.
pub proof fn lemma_key_spellings_agree(step: StepV, v: Seq<char>)
    ensures
        bullet_effect(step, "allow_tools"@, v) == bullet_effect(step, "allow-tools"@, v),
        bullet_effect(step, "deny_tools"@, v) == bullet_effect(step, "deny-tools"@, v),
        bullet_effect(step, "depends-on"@, v) == bullet_effect(step, "depends_on"@, v),
        bullet_effect(step, "on-failure"@, v) == bullet_effect(step, "on_failure"@, v),
        bullet_effect(step, "allow-tools"@, v) == Some(
            (
                StepV {
                    scope: Some(
                        ScopeV {
                            allow: Some(csv_list(v)),
                            deny: match step.scope {
                                Some(x) => x.deny,
                                None => Seq::empty(),
                            },
                        },
                    ),
                    ..step
                },
                Seq::<Problem>::empty(),
            ),
        ),
        bullet_effect(step, "deny-tools"@, v) == Some(
            (
                StepV {
                    scope: Some(
                        ScopeV {
                            allow: match step.scope {
                                Some(x) => x.allow,
                                None => None,
                            },
                            deny: csv_list(v),
                        },
                    ),
                    ..step
                },
                Seq::<Problem>::empty(),
            ),
        ),
{
    reveal_strlit("tools");
    reveal_strlit("allow-tools");
    reveal_strlit("allow_tools");
    reveal_strlit("deny-tools");
    reveal_strlit("deny_tools");
    reveal_strlit("requires_confirmation");
    reveal_strlit("kind");
    reveal_strlit("capability");
    reveal_strlit("with");
    reveal_strlit("input");
    reveal_strlit("output");
    reveal_strlit("when");
    reveal_strlit("next");
    reveal_strlit("terminal");
    reveal_strlit("depends_on");
    reveal_strlit("depends-on");
    reveal_strlit("switch");
    reveal_strlit("on_failure");
    reveal_strlit("on-failure");
    let ks = seq!["tools"@, "allow-tools"@, "allow_tools"@, "deny-tools"@, "deny_tools"@,
        "requires_confirmation"@, "kind"@, "capability"@, "with"@, "input"@, "output"@, "when"@,
        "next"@, "terminal"@, "depends_on"@, "depends-on"@, "switch"@, "on_failure"@,
        "on-failure"@];
    assert forall|a: int, b: int| 0 <= a < 19 && 0 <= b < 19 && #[trigger] ks[a] == #[trigger] ks[b]
        && (a <= 2 || b <= 2 || a + b != 7) implies a == b || (a == 1 && b == 2) || (a == 2
        && b == 1) || (a == 3 && b == 4) || (a == 4 && b == 3) || (a == 14 && b == 15) || (a
        == 15 && b == 14) || (a == 17 && b == 18) || (a == 18 && b == 17) by {
        if !(a == b || (a == 1 && b == 2) || (a == 2 && b == 1) || (a == 3 && b == 4) || (a == 4
            && b == 3) || (a == 14 && b == 15) || (a == 15 && b == 14) || (a == 17 && b == 18) || (
        a == 18 && b == 17)) {
            assert(ks[a].len() != ks[b].len() || ks[a][0] != ks[b][0] || ks[a][2] != ks[b][2]
                || ks[a][5] != ks[b][5] || ks[a][7] != ks[b][7]);
        }
    }
    assert(ks[0] == "tools"@ && ks[1] == "allow-tools"@ && ks[2] == "allow_tools"@);
    assert(ks[3] == "deny-tools"@ && ks[4] == "deny_tools"@ && ks[5] == "requires_confirmation"@);
    assert(ks[6] == "kind"@ && ks[7] == "capability"@ && ks[8] == "with"@ && ks[9] == "input"@);
    assert(ks[10] == "output"@ && ks[11] == "when"@ && ks[12] == "next"@ && ks[13] == "terminal"@);
    assert(ks[14] == "depends_on"@ && ks[15] == "depends-on"@ && ks[16] == "switch"@);
    assert(ks[17] == "on_failure"@ && ks[18] == "on-failure"@);
}

pub proof fn lemma_bold_parts(text: Seq<char>)
    requires
        !has_char(text, '\n'),
    ensures
        crate::grammar::bold_title(text) matches Some((t, b)) ==> !has_char(t, '\n') && !has_char(
            b,
            '\n',
        ) && is_trimmed(b),
{
    let p = seq!['*', '*'];
    match crate::text::find(text, p) {
        None => {},
        Some(start) => {
            crate::text::lemma_find_from(text, p, 0);
            let after = start + 2;
            lemma_skip_sub(text, after, '\n');
            let rest0 = text.skip(after);
            match crate::text::find(rest0, p) {
                None => {},
                Some(end) => {
                    crate::text::lemma_find_from(rest0, p, 0);
                    let title = text.subrange(after, after + end);
                    assert(title =~= rest0.take(end));
                    lemma_skip_sub(rest0, end, '\n');
                    let tail = text.skip(after + end + 2);
                    lemma_skip_sub(text, after + end + 2, '\n');
                    lemma_trim_sub(tail, '\n');
                    let r = trim(tail);
                    let sep = crate::grammar::strip_separator(r);
                    assert(!has_char(sep, '\n')) by {
                        if sep != r {
                            assert(r.len() > 0);
                            lemma_skip_sub(r, 1, '\n');
                            assert(sep =~= r.skip(1));
                        }
                    }
                    lemma_trim_sub(sep, '\n');
                },
            }
        },
    }
}

/// The step an item line opens has the shape.
pub proof fn lemma_new_step_shape(rest: Seq<char>, i: nat)
    requires
        !has_char(rest, '\n'),
    ensures
        read_shape(new_step(next_number(i), rest), i),
{
    lemma_bold_parts(rest);
    lemma_body_empty();
    match crate::grammar::bold_title(rest) {
        Some((t, b)) => {
            lemma_body_single(b);
        },
        None => {},
    }
    let e = Seq::<Seq<char>>::empty();
    assert(names_ok(e));
}

/// The reader's state: finished steps and the open one have the shape.
pub open spec fn reader_ok(st: ParseState) -> bool {
    &&& forall|i: int| 0 <= i < st.steps.len() ==> read_shape(#[trigger] st.steps[i], i as nat)
    &&& st.current matches Some(c) ==> read_shape(c, st.steps.len())
}

pub proof fn lemma_flush_keeps(st: ParseState)
    requires
        reader_ok(st),
    ensures
        reader_ok(flushed(st)),
        flushed(st).current is None,
        flushed(st).in_section == st.in_section,
{
    match st.current {
        Some(c) => {
            crate::roundtrip::lemma_body_trimmed(c.body);
            let c2 = StepV { body: trim(c.body), ..c };
            assert(c2 == c);
            let f = flushed(st);
            assert forall|i: int| 0 <= i < f.steps.len() implies read_shape(#[trigger] f.steps[i], i as nat) by {
                if i < st.steps.len() {
                    assert(f.steps[i] == st.steps[i]);
                }
            }
        },
        None => {},
    }
}

proof fn lemma_item_keeps(st: ParseState, t: Seq<char>)
    requires
        reader_ok(st),
        !has_char(t, '\n'),
        numbered_item(t) is Some,
    ensures
        ({
            let (written, rest) = numbered_item(t)->0;
            let f = flushed(st);
            reader_ok(
                ParseState {
                    written: f.written.push(written),
                    current: Some(new_step(next_number(f.steps.len()), rest)),
                    ..f
                },
            )
        }),
{
    lemma_flush_keeps(st);
    let f = flushed(st);
    match crate::text::find(t, seq!['.', ' ']) {
        Some(dot) => {
            crate::text::lemma_find_from(t, seq!['.', ' '], 0);
            lemma_skip_sub(t, dot + 2, '\n');
            lemma_trim_sub(t.skip(dot + 2), '\n');
            let rest = trim(t.skip(dot + 2));
            lemma_new_step_shape(rest, f.steps.len());
        },
        None => {},
    }
}

proof fn lemma_bullet_keeps(st: ParseState, t: Seq<char>, n: nat)
    requires
        reader_ok(st),
        st.current is Some,
        !has_char(t, '\n'),
        is_trimmed(t),
        crate::text::starts_with(t, "- "@),
        !crate::text::starts_with(t, "## "@),
        numbered_item(t) is None,
    ensures
        ({
            let bullet = trim(crate::text::trim_start_matches(t, "- "@));
            match bullet_applied(st, bullet, n) {
                Some(s2) => reader_ok(s2),
                None => !recognized(bullet) && filled(t) && continuation_ok(t),
            }
        }),
{
    reveal_strlit("- ");
    let bullet = trim(crate::text::trim_start_matches(t, "- "@));
    lemma_trim_start_matches_sub(t, "- "@, '\n');
    lemma_trim_sub(crate::text::trim_start_matches(t, "- "@), '\n');
    let cur = st.current->0;
    assert(t.len() >= 2) by {
        assert("- "@.len() == 2);
    }
    match split_bullet(bullet) {
        Some((key, value)) => {
            crate::text::lemma_find_char(bullet, ':');
            let colon = crate::text::find_char(bullet, ':')->0;
            lemma_skip_sub(bullet, colon + 1, '\n');
            lemma_trim_sub(value, '\n');
            lemma_effect_keeps_shape(cur, key, trim(value), st.steps.len());
            crate::roundtrip::lemma_effect_iff_key(cur, key, trim(value));
        },
        None => {},
    }
}

/// One line keeps the reader's state in shape.
pub proof fn lemma_line_keeps(st: ParseState, line: Seq<char>, n: nat)
    requires
        reader_ok(st),
        !has_char(line, '\n'),
    ensures
        reader_ok(process_line(st, line, n)),
{
    lemma_trim_sub(line, '\n');
    let t = trim(line);
    lemma_flush_keeps(st);
    if crate::text::starts_with(t, "## "@) {
    } else if !st.in_section {
    } else {
        match numbered_item(t) {
            Some(_) => {
                lemma_item_keeps(st, t);
            },
            None => {
                if st.current is Some && crate::text::starts_with(t, "- "@) {
                    lemma_bullet_keeps(st, t, n);
                    let bullet = trim(crate::text::trim_start_matches(t, "- "@));
                    match bullet_applied(st, bullet, n) {
                        Some(s2) => {},
                        None => {
                            let c = st.current->0;
                            lemma_body_push(c.body, t);
                        },
                    }
                } else if st.current is Some && t.len() > 0 {
                    let c = st.current->0;
                    assert(filled(t));
                    assert(continuation_ok(t));
                    lemma_body_push(c.body, t);
                }
            },
        }
    }
}

pub proof fn lemma_lines_keep(st: ParseState, ls: Seq<Seq<char>>, n: nat)
    requires
        reader_ok(st),
        forall|k: int| 0 <= k < ls.len() ==> !has_char(#[trigger] ls[k], '\n'),
    ensures
        reader_ok(run_lines(st, ls, n)),
    decreases ls.len(),
{
    if ls.len() > 0 {
        lemma_line_keeps(st, ls[0], n);
        let rest = ls.drop_first();
        assert forall|k: int| 0 <= k < rest.len() implies !has_char(#[trigger] rest[k], '\n') by {
            assert(rest[k] == ls[k + 1]);
        }
        lemma_lines_keep(process_line(st, ls[0], n), rest, n + 1);
    }
}

/// Every step the reader returns has the shape, at its position.
pub proof fn lemma_parsed_shape(md: Seq<char>)
    ensures
        forall|i: int| 0 <= i < parse_steps_spec(md).0.len() ==> read_shape(
            #[trigger] parse_steps_spec(md).0[i],
            i as nat,
        ),
{
    lemma_lines_one_line(md);
    assert(reader_ok(initial_state()));
    lemma_lines_keep(initial_state(), lines(md), 1);
    let r = run_lines(initial_state(), lines(md), 1);
    lemma_flush_keeps(r);
}

// ── Reading, printing, reading again ────────────────────────────

/// What a parsed step must also be for the format to carry it: JSON values
/// and calls that `serde_json` reads back as written.
pub open spec fn carried(s: StepV) -> bool {
    &&& crate::roundtrip::opt_json_ok(s.capability_input)
    &&& match s.schema {
        Some(x) => crate::roundtrip::opt_json_ok(x.input) && crate::roundtrip::opt_json_ok(x.output),
        None => true,
    }
    &&& forall|k: int| 0 <= k < s.calls.len() ==> crate::roundtrip::call_ok(#[trigger] s.calls[k])
}

proof fn lemma_shape_carried(s: StepV, i: nat)
    requires
        read_shape(s, i),
        carried(s),
        crate::print::title_losses(s.title).len() == 0,
    ensures
        crate::roundtrip::step_ok(s, i),
{
    reveal(crate::roundtrip::step_ok);
}

/// A parsed step loses nothing in printing but what its title loses.
proof fn lemma_shape_losses(s: StepV, i: nat)
    requires
        read_shape(s, i),
        carried(s),
    ensures
        crate::print::step_losses(s) == crate::print::title_losses(s.title),
{
    let u = StepV { title: Seq::empty(), ..s };
    assert(!has_char(u.title, '\n'));
    assert(crate::print::title_losses(u.title) =~= Seq::empty());
    lemma_shape_carried(u, i);
    crate::roundtrip::lemma_no_step_losses(u, i);
    assert(crate::print::step_losses(s) =~= crate::print::title_losses(s.title));
}

proof fn lemma_losses_none(steps: Seq<StepV>)
    ensures
        crate::print::all_loss_diags(steps).len() == 0 <==> forall|i: int|
            0 <= i < steps.len() ==> (#[trigger] crate::print::step_losses(steps[i])).len() == 0,
    decreases steps.len(),
{
    if steps.len() > 0 {
        let init = steps.drop_last();
        lemma_losses_none(init);
        assert forall|i: int| 0 <= i < init.len() implies #[trigger] crate::print::step_losses(init[i])
            == crate::print::step_losses(steps[i]) by {
            assert(init[i] == steps[i]);
        }
        if crate::print::all_loss_diags(steps).len() == 0 {
            assert forall|i: int| 0 <= i < steps.len() implies (
            #[trigger] crate::print::step_losses(steps[i])).len() == 0 by {
                if i < init.len() {
                    assert(crate::print::step_losses(init[i]) == crate::print::step_losses(steps[i]));
                }
            }
        } else {
            if crate::print::loss_diags(steps.last()).len() > 0 {
                assert(crate::print::step_losses(steps[steps.len() - 1]).len() > 0);
            } else {
                let k = choose|k: int| 0 <= k < init.len() && (#[trigger] crate::print::step_losses(init[k])).len() > 0;
                assert(crate::print::step_losses(steps[k]).len() > 0);
            }
        }
    }
}

/// Printing what a document reads as reports a lossy construct exactly when
/// some step's title cannot be written in bold (it holds `**` or ends in
/// `*`, which only a title read without a bold pair can); when nothing is
/// reported, reading the printed text gives the same steps. JSON values and
/// calls must be ones the format carries (see [`carried`]).
pub proof fn lemma_parsed_steps_print_back(md: Seq<char>)
    requires
        forall|i: int| 0 <= i < parse_steps_spec(md).0.len() ==> carried(
            #[trigger] parse_steps_spec(md).0[i],
        ),
    ensures
        print_spec(parse_steps_spec(md).0).1.len() == 0 <==> forall|i: int|
            0 <= i < parse_steps_spec(md).0.len() ==> (#[trigger] crate::print::title_losses(
                parse_steps_spec(md).0[i].title,
            )).len() == 0,
        print_spec(parse_steps_spec(md).0).1.len() == 0 ==> parse_steps_spec(
            print_spec(parse_steps_spec(md).0).0,
        ).0 == parse_steps_spec(md).0,
{
    lemma_parsed_shape(md);
    let steps = parse_steps_spec(md).0;
    assert forall|i: int| 0 <= i < steps.len() implies #[trigger] crate::print::step_losses(steps[i])
        == crate::print::title_losses(steps[i].title) by {
        lemma_shape_losses(steps[i], i as nat);
    }
    lemma_losses_none(steps);
    assert(print_spec(steps).1 == crate::print::all_loss_diags(steps));
    if print_spec(steps).1.len() == 0 {
        assert forall|i: int| 0 <= i < steps.len() implies (#[trigger] crate::print::title_losses(
            steps[i].title,
        )).len() == 0 by {
            assert(crate::print::step_losses(steps[i]).len() == 0);
            assert(crate::print::step_losses(steps[i]) == crate::print::title_losses(steps[i].title));
        }
        assert forall|i: int| 0 <= i < steps.len() implies crate::roundtrip::step_ok(
            #[trigger] steps[i],
            i as nat,
        ) by {
            assert(crate::print::step_losses(steps[i]) == crate::print::title_losses(steps[i].title));
            lemma_shape_carried(steps[i], i as nat);
        }
        assert(crate::roundtrip::steps_ok(steps));
        crate::roundtrip::lemma_printed_steps_read_back(steps);
    }
    if forall|i: int| 0 <= i < steps.len() ==> (#[trigger] crate::print::title_losses(steps[i].title)).len() == 0 {
        assert forall|i: int| 0 <= i < steps.len() implies (#[trigger] crate::print::step_losses(steps[i])).len() == 0 by {
            assert(crate::print::title_losses(steps[i].title).len() == 0);
        }
    }
}

/// Steps are numbered by position: the `i`-th step read carries `i + 1`
/// (saturating at `u32::MAX`), whatever numbers the author wrote.
pub proof fn lemma_parsed_numbering(md: Seq<char>)
    ensures
        forall|i: int| 0 <= i < parse_steps_spec(md).0.len() ==> (#[trigger] parse_steps_spec(md).0[i]).number
            == next_number(i as nat),
{
    lemma_parsed_shape(md);
}

/// Printing a parsed document with nothing reported lossy reaches a fixed
/// point at once: printing what reading the printed text gives writes the
/// same text.
pub proof fn lemma_printing_is_a_fixed_point(md: Seq<char>)
    requires
        forall|i: int| 0 <= i < parse_steps_spec(md).0.len() ==> carried(
            #[trigger] parse_steps_spec(md).0[i],
        ),
    ensures
        print_spec(parse_steps_spec(md).0).1.len() == 0 ==> print_spec(
            parse_steps_spec(print_spec(parse_steps_spec(md).0).0).0,
        ).0 == print_spec(parse_steps_spec(md).0).0,
{
    lemma_parsed_steps_print_back(md);
}

} // verus!
