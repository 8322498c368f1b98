//! Resolving a SOP from its two files, and splitting one back into them.
//!
//! The manifest carries metadata, triggers and canvas positions; the
//! markdown carries the steps. When both carry steps the markdown wins, and
//! it wins by existing: a `SOP.md` that yields no steps still beats a
//! populated `[[steps]]` table. Positions are merged onto steps by step
//! number after the steps are resolved. Steps are never written to the
//! manifest: the markdown alone carries them.

use vstd::prelude::*;
use crate::diagnostic::{diag, DiagV, Diagnostic, DiagnosticKind, KindV, Location, LocationV};
use crate::model::{
    first_numbered, kind_text, lemma_first_numbered, steps_view, Sop, SopManifest, SopStep, StepPos,
    StepPosition, StepV, TriggerV,
};
use crate::parse::{parse_steps, parse_steps_spec};
use crate::print::{print_spec, print_steps};
use crate::text::{chars_of, decimal, decimal_usize, decimal_vec, push_all, string_of};

verus! {

// ── Manifest steps ──────────────────────────────────────────────

/// A `[[steps]]` entry at index `i`, with its number filled in when it is
/// zero (`i + 1`, saturating) and its title filled in when it is empty
/// (the capability, else the kind).
pub open spec fn normalized(s: StepV, i: int) -> StepV {
    StepV {
        number: if s.number == 0 {
            if i < u32::MAX {
                (i + 1) as u32
            } else {
                u32::MAX
            }
        } else {
            s.number
        },
        title: if s.title.len() == 0 {
            match s.capability {
                Some(c) => c,
                None => kind_text(s.kind),
            }
        } else {
            s.title
        },
        ..s
    }
}

pub open spec fn normalized_all(steps: Seq<StepV>) -> Seq<StepV> {
    Seq::new(steps.len(), |i: int| normalized(steps[i], i))
}

/// Fill in numbers and titles for steps that came from `[[steps]]`. Only a
/// zero number is filled, so authored numbers survive, gaps and
/// duplicates included.
pub fn normalize_manifest_steps(steps: Vec<SopStep>) -> (r: Vec<SopStep>)
    ensures
        steps_view(r@) == normalized_all(steps_view(steps@)),
{
    let ghost sv = steps_view(steps@);
    let mut steps = steps;
    let mut k: usize = 0;
    while k < steps.len()
        invariant
            sv.len() == steps@.len(),
            k <= sv.len(),
            forall|j: int| 0 <= j < k ==> (#[trigger] steps@[j])@ == normalized(sv[j], j),
            forall|j: int| k <= j < sv.len() ==> (#[trigger] steps@[j])@ == sv[j],
        decreases sv.len() - k,
    {
        if steps[k].number == 0 {
            steps[k].number = if k < 4294967295usize {
                (k + 1) as u32
            } else {
                4294967295u32
            };
        }
        if chars_of(steps[k].title.as_str()).len() == 0 {
            let t = match &steps[k].capability {
                Some(c) => c.clone(),
                None => steps[k].kind.to_text(),
            };
            steps[k].title = t;
        }
        assert(steps@[k as int]@ =~= normalized(sv[k as int], k as int));
        k = k + 1;
    }
    assert(steps_view(steps@) =~= normalized_all(sv));
    steps
}

// ── Positions ───────────────────────────────────────────────────

/// The diagnostic for a position no step carries the number of.
/// A `[[steps]]` entry with no title takes the name of its capability when
/// it names one, whatever its kind, and otherwise the name of its kind; a
/// written title stays. A zero number becomes the entry's position from
/// one (saturating); a written number stays. Nothing else changes.
pub proof fn lemma_untitled_steps_are_named(steps: Seq<StepV>)
    ensures
        normalized_all(steps).len() == steps.len(),
        forall|i: int|
            0 <= i < steps.len() ==> (#[trigger] normalized_all(steps)[i]) == (StepV {
                number: normalized_all(steps)[i].number,
                title: normalized_all(steps)[i].title,
                ..steps[i]
            }),
        forall|i: int|
            0 <= i < steps.len() && steps[i].title.len() == 0 && steps[i].capability is Some
                ==> (#[trigger] normalized_all(steps)[i]).title == steps[i].capability->0,
        forall|i: int|
            0 <= i < steps.len() && steps[i].title.len() == 0 && steps[i].capability is None
                ==> (#[trigger] normalized_all(steps)[i]).title == kind_text(steps[i].kind),
        forall|i: int|
            0 <= i < steps.len() && steps[i].title.len() > 0 ==> (#[trigger] normalized_all(
                steps,
            )[i]).title == steps[i].title,
        forall|i: int|
            0 <= i < steps.len() && steps[i].number != 0 ==> (#[trigger] normalized_all(
                steps,
            )[i]).number == steps[i].number,
        forall|i: int|
            0 <= i < steps.len() && steps[i].number == 0 && i + 1 <= u32::MAX ==> (
            #[trigger] normalized_all(steps)[i]).number == i + 1,
{
}

pub open spec fn unattached(p: StepPosition) -> DiagV {
    diag(
        KindV::LossyConstruct {
            construct: "positions"@,
            detail: "no step numbered "@ + decimal(p.step as nat) + " to attach to"@,
        },
        LocationV::Manifest { key_path: "positions"@ },
    )
}

/// One position merged: onto the first step with its number, or reported.
pub open spec fn merge_one(steps: Seq<StepV>, p: StepPosition) -> (Seq<StepV>, Seq<DiagV>) {
    match first_numbered(steps, p.step) {
        Some(i) => (
            steps.update(i, StepV { pos: Some(StepPos { x: p.x, y: p.y }), ..steps[i] }),
            Seq::empty(),
        ),
        None => (steps, seq![unattached(p)]),
    }
}

/// Positions merged in order; a later position for the same step wins.
pub open spec fn merged(steps: Seq<StepV>, ps: Seq<StepPosition>) -> (Seq<StepV>, Seq<DiagV>)
    decreases ps.len(),
{
    if ps.len() == 0 {
        (steps, Seq::empty())
    } else {
        let (s1, d1) = merged(steps, ps.drop_last());
        let (s2, d2) = merge_one(s1, ps.last());
        (s2, d1 + d2)
    }
}

fn push_diag(out: &mut Vec<Diagnostic>, d: Diagnostic)
    ensures
        final(out).deep_view() == old(out).deep_view().push(d@),
{
    let ghost before = out.deep_view();
    out.push(d);
    assert(out.deep_view() =~= before.push(d@));
}

fn first_numbered_exec(steps: &Vec<SopStep>, number: u32) -> (r: Option<usize>)
    ensures
        match first_numbered(steps_view(steps@), number) {
            Some(i) => r matches Some(j) && j == i,
            None => r is None,
        },
{
    let ghost sv = steps_view(steps@);
    proof {
        lemma_first_numbered(sv, number);
    }
    let mut k: usize = 0;
    while k < steps.len()
        invariant
            sv == steps_view(steps@),
            k <= sv.len(),
            forall|j: int| 0 <= j < k ==> sv[j].number != number,
        decreases sv.len() - k,
    {
        if steps[k].number == number {
            proof {
                lemma_first_numbered(sv, number);
                assert(sv[k as int].number == number);
                match first_numbered(sv, number) {
                    Some(i) => {
                        if i < k {
                            assert(sv[i].number == number);
                        } else if i > k {
                            assert(sv[k as int].number != number);
                        }
                    },
                    None => {
                        assert(sv[k as int].number != number);
                    },
                }
            }
            return Some(k);
        }
        k = k + 1;
    }
    None
}

/// Attach each position to the first step carrying its number; report the
/// positions that match no step.
pub fn merge_positions(
    steps: &mut Vec<SopStep>,
    positions: &[StepPosition],
    diagnostics: &mut Vec<Diagnostic>,
)
    ensures
        (steps_view(final(steps)@), final(diagnostics).deep_view()) == ({
            let (s, d) = merged(steps_view(old(steps)@), positions@);
            (s, old(diagnostics).deep_view() + d)
        }),
{
    let ghost s0 = steps_view(steps@);
    let ghost d0 = diagnostics.deep_view();
    let mut k: usize = 0;
    while k < positions.len()
        invariant
            k <= positions@.len(),
            steps_view(steps@) == merged(s0, positions@.take(k as int)).0,
            diagnostics.deep_view() == d0 + merged(s0, positions@.take(k as int)).1,
        decreases positions@.len() - k,
    {
        let p = positions[k];
        assert(positions@.take(k + 1).drop_last() =~= positions@.take(k as int));
        assert(positions@.take(k + 1).last() == p);
        let ghost before = steps_view(steps@);
        let ghost dbefore = diagnostics.deep_view();
        proof {
            lemma_first_numbered(before, p.step);
        }
        match first_numbered_exec(steps, p.step) {
            Some(i) => {
                assert(first_numbered(before, p.step) == Some(i as int));
                steps[i].pos = Some(StepPos { x: p.x, y: p.y });
                assert(steps_view(steps@) =~= before.update(
                    i as int,
                    StepV { pos: Some(StepPos { x: p.x, y: p.y }), ..before[i as int] },
                ));
                assert(merge_one(before, p).0 == steps_view(steps@));
                assert(diagnostics.deep_view() =~= dbefore + Seq::<DiagV>::empty());
            },
            None => {
                let mut detail = chars_of("no step numbered ");
                push_all(&mut detail, &decimal_vec(p.step));
                push_all(&mut detail, &chars_of(" to attach to"));
                push_diag(
                    diagnostics,
                    Diagnostic::new(
                        DiagnosticKind::LossyConstruct {
                            construct: string_of(&chars_of("positions")),
                            detail: string_of(&detail),
                        },
                        Location::Manifest { key_path: string_of(&chars_of("positions")) },
                    ),
                );
                assert(diagnostics.deep_view() =~= dbefore + seq![unattached(p)]);
            },
        }
        k = k + 1;
    }
    assert(positions@.take(positions@.len() as int) =~= positions@);
}

// ── Resolving ───────────────────────────────────────────────────

/// The diagnostic for manifest steps discarded in favour of the markdown.
pub open spec fn discarded(manifest_steps: nat, markdown_steps: nat) -> DiagV {
    diag(
        KindV::LossyConstruct {
            construct: "steps"@,
            detail: "SOP.toml declares "@ + decimal(manifest_steps) + " step(s) and SOP.md declares "@
                + decimal(markdown_steps) + "; SOP.md wins and the manifest steps are discarded"@,
        },
        LocationV::Manifest { key_path: "steps"@ },
    )
}

/// The steps before positions are merged, and what choosing them reported.
pub open spec fn chosen_steps(manifest_steps: Seq<StepV>, markdown: Option<Seq<char>>) -> (
    Seq<StepV>,
    Seq<DiagV>,
) {
    match markdown {
        Some(md) => {
            let (steps, diags) = parse_steps_spec(md);
            (
                steps,
                if manifest_steps.len() > 0 {
                    diags.push(discarded(manifest_steps.len(), steps.len()))
                } else {
                    diags
                },
            )
        },
        None => (normalized_all(manifest_steps), Seq::empty()),
    }
}

/// The steps a SOP resolves to, and the diagnostics resolving added.
pub open spec fn resolved(
    manifest_steps: Seq<StepV>,
    positions: Seq<StepPosition>,
    markdown: Option<Seq<char>>,
) -> (Seq<StepV>, Seq<DiagV>) {
    let (steps, d1) = chosen_steps(manifest_steps, markdown);
    let (merged_steps, d2) = merged(steps, positions);
    (merged_steps, d1 + d2)
}

proof fn lemma_merge_one_frame(steps: Seq<StepV>, p: StepPosition)
    ensures
        merge_one(steps, p).0.len() == steps.len(),
        forall|j: int|
            0 <= j < steps.len() ==> (#[trigger] merge_one(steps, p).0[j]) == (StepV {
                pos: merge_one(steps, p).0[j].pos,
                ..steps[j]
            }),
        forall|j: int|
            0 <= j < steps.len() && steps[j].number != p.step ==> #[trigger] merge_one(steps, p).0[j]
                == steps[j],
{
    lemma_first_numbered(steps, p.step);
}

proof fn lemma_merged_frame(steps: Seq<StepV>, ps: Seq<StepPosition>)
    ensures
        merged(steps, ps).0.len() == steps.len(),
        forall|i: int|
            0 <= i < steps.len() ==> (#[trigger] merged(steps, ps).0[i]) == (StepV {
                pos: merged(steps, ps).0[i].pos,
                ..steps[i]
            }),
    decreases ps.len(),
{
    if ps.len() > 0 {
        lemma_merged_frame(steps, ps.drop_last());
        let s1 = merged(steps, ps.drop_last()).0;
        lemma_merge_one_frame(s1, ps.last());
        assert forall|i: int| 0 <= i < steps.len() implies (#[trigger] merged(steps, ps).0[i]) == (
        StepV { pos: merged(steps, ps).0[i].pos, ..steps[i] }) by {
            assert(merge_one(s1, ps.last()).0[i] == (StepV {
                pos: merge_one(s1, ps.last()).0[i].pos,
                ..s1[i]
            }));
            assert(s1[i] == (StepV { pos: s1[i].pos, ..steps[i] }));
        }
    }
}

proof fn lemma_merged_untouched(steps: Seq<StepV>, ps: Seq<StepPosition>, i: int)
    requires
        0 <= i < steps.len(),
        forall|k: int| 0 <= k < ps.len() ==> (#[trigger] ps[k]).step != steps[i].number,
    ensures
        merged(steps, ps).0[i].pos == steps[i].pos,
    decreases ps.len(),
{
    if ps.len() > 0 {
        let init = ps.drop_last();
        assert forall|k: int| 0 <= k < init.len() implies (#[trigger] init[k]).step != steps[i].number by {
            assert(init[k] == ps[k]);
        }
        lemma_merged_untouched(steps, init, i);
        lemma_merged_frame(steps, init);
        let s1 = merged(steps, init).0;
        assert(s1[i] == (StepV { pos: s1[i].pos, ..steps[i] }));
        lemma_merge_one_frame(s1, ps.last());
        assert(ps[ps.len() - 1].step != steps[i].number);
        assert(merge_one(s1, ps.last()).0[i] == s1[i]);
    }
}

proof fn lemma_merged_lands(steps: Seq<StepV>, ps: Seq<StepPosition>, i: int, k: int)
    requires
        0 <= i < steps.len(),
        0 <= k < ps.len(),
        steps[i].number == ps[k].step,
        forall|j: int| 0 <= j < i ==> (#[trigger] steps[j]).number != ps[k].step,
        forall|m: int| k < m < ps.len() ==> (#[trigger] ps[m]).step != ps[k].step,
    ensures
        merged(steps, ps).0[i].pos == Some(StepPos { x: ps[k].x, y: ps[k].y }),
    decreases ps.len(),
{
    let init = ps.drop_last();
    let p = ps.last();
    lemma_merged_frame(steps, init);
    let s1 = merged(steps, init).0;
    lemma_merge_one_frame(s1, p);
    if k == ps.len() - 1 {
        assert forall|j: int| 0 <= j < i implies s1[j].number != p.step by {
            assert(s1[j] == (StepV { pos: s1[j].pos, ..steps[j] }));
            assert(steps[j].number != ps[k].step);
        }
        assert(s1[i] == (StepV { pos: s1[i].pos, ..steps[i] }));
        lemma_first_numbered_at(s1, p.step, i);
    } else {
        assert(init[k] == ps[k]);
        assert forall|m: int| k < m < init.len() implies (#[trigger] init[m]).step != init[k].step by {
            assert(init[m] == ps[m]);
        }
        lemma_merged_lands(steps, init, i, k);
        assert(ps[ps.len() - 1].step != ps[k].step);
        assert(s1[i] == (StepV { pos: s1[i].pos, ..steps[i] }));
        assert(merge_one(s1, p).0[i] == s1[i]);
    }
}

/// Merging positions keeps every step but its position; the last position
/// given for a number lands on the first step carrying that number; and a
/// step whose number no position names keeps the position it had.
pub proof fn lemma_positions_land(steps: Seq<StepV>, ps: Seq<StepPosition>)
    ensures
        merged(steps, ps).0.len() == steps.len(),
        forall|i: int|
            0 <= i < steps.len() ==> (#[trigger] merged(steps, ps).0[i]) == (StepV {
                pos: merged(steps, ps).0[i].pos,
                ..steps[i]
            }),
        forall|i: int, k: int|
            0 <= i < steps.len() && 0 <= k < ps.len() && steps[i].number == ps[k].step && (forall|
                j: int,
            | 0 <= j < i ==> (#[trigger] steps[j]).number != ps[k].step) && (forall|m: int|
                k < m < ps.len() ==> (#[trigger] ps[m]).step != ps[k].step) ==> (#[trigger] merged(
                steps,
                ps,
            ).0[i]).pos == Some(StepPos { x: (#[trigger] ps[k]).x, y: ps[k].y }),
        forall|i: int|
            0 <= i < steps.len() && (forall|k: int|
                0 <= k < ps.len() ==> (#[trigger] ps[k]).step != steps[i].number) ==> (
            #[trigger] merged(steps, ps).0[i]).pos == steps[i].pos,
{
    lemma_merged_frame(steps, ps);
    assert forall|i: int, k: int|
        0 <= i < steps.len() && 0 <= k < ps.len() && steps[i].number == ps[k].step && (forall|j: int|
            0 <= j < i ==> (#[trigger] steps[j]).number != ps[k].step) && (forall|m: int|
            k < m < ps.len() ==> (#[trigger] ps[m]).step != ps[k].step) implies (#[trigger] merged(
        steps,
        ps,
    ).0[i]).pos == Some(StepPos { x: (#[trigger] ps[k]).x, y: ps[k].y }) by {
        lemma_merged_lands(steps, ps, i, k);
    }
    assert forall|i: int|
        0 <= i < steps.len() && (forall|k: int|
            0 <= k < ps.len() ==> (#[trigger] ps[k]).step != steps[i].number) implies (
    #[trigger] merged(steps, ps).0[i]).pos == steps[i].pos by {
        lemma_merged_untouched(steps, ps, i);
    }
}

/// Resolving merges the positions onto the chosen steps whether or not
/// `SOP.md` is there: the resolved steps are the chosen ones, placed; the
/// last position given for a number lands on the first chosen step with
/// that number; and what resolving reports is what choosing reported, then
/// what placing reported.
pub proof fn lemma_resolved_places_positions(
    manifest_steps: Seq<StepV>,
    positions: Seq<StepPosition>,
    markdown: Option<Seq<char>>,
)
    ensures
        resolved(manifest_steps, positions, markdown).0 == merged(
            chosen_steps(manifest_steps, markdown).0,
            positions,
        ).0,
        resolved(manifest_steps, positions, markdown).1 == chosen_steps(manifest_steps, markdown).1
            + merged(chosen_steps(manifest_steps, markdown).0, positions).1,
        markdown is None ==> chosen_steps(manifest_steps, markdown).0 == normalized_all(
            manifest_steps,
        ),
        forall|i: int, k: int|
            0 <= i < chosen_steps(manifest_steps, markdown).0.len() && 0 <= k < positions.len()
                && chosen_steps(manifest_steps, markdown).0[i].number == positions[k].step && (forall|
                j: int,
            | 0 <= j < i ==> (#[trigger] chosen_steps(manifest_steps, markdown).0[j]).number
                != positions[k].step) && (forall|m: int|
                k < m < positions.len() ==> (#[trigger] positions[m]).step != positions[k].step)
                ==> (#[trigger] resolved(manifest_steps, positions, markdown).0[i]).pos == Some(
                StepPos { x: (#[trigger] positions[k]).x, y: positions[k].y },
            ),
{
    lemma_positions_land(chosen_steps(manifest_steps, markdown).0, positions);
}

pub open spec fn opt_str_view(o: Option<&str>) -> Option<Seq<char>> {
    match o {
        Some(s) => Some(s@),
        None => None,
    }
}

/// Resolve a SOP from its parsed manifest (with the diagnostics reading it
/// produced) and the text of `SOP.md`, `None` when that file does not
/// exist. The markdown's steps win whenever it exists; the manifest's
/// `[[steps]]` are used, normalized, only without it.
pub fn resolve_sop(
    manifest: SopManifest,
    diagnostics: Vec<Diagnostic>,
    markdown: Option<&str>,
) -> (r: (Sop, Vec<Diagnostic>))
    ensures
        r.0.meta == manifest.sop,
        r.0.triggers == manifest.triggers,
        (steps_view(r.0.steps@), r.1.deep_view()) == ({
            let (s, d) = resolved(
                steps_view(manifest.steps@),
                manifest.positions@,
                opt_str_view(markdown),
            );
            (s, diagnostics.deep_view() + d)
        }),
{
    let SopManifest { sop, triggers, positions, steps: manifest_steps } = manifest;
    let mut diags = diagnostics;
    let ghost d0 = diags.deep_view();
    let ghost ms = steps_view(manifest_steps@);
    let n_manifest = manifest_steps.len();
    let mut steps = match markdown {
        Some(md) => {
            let (steps, mut step_diags) = parse_steps(md);
            let ghost before = diags.deep_view();
            let ghost sd = step_diags.deep_view();
            let ghost sdv = step_diags@;
            let ghost dv = diags@;
            diags.append(&mut step_diags);
            assert(diags@ =~= dv + sdv);
            assert(diags.deep_view() =~= before + sd);
            if n_manifest > 0 {
                let mut detail = chars_of("SOP.toml declares ");
                push_all(&mut detail, &decimal_usize(n_manifest));
                push_all(&mut detail, &chars_of(" step(s) and SOP.md declares "));
                push_all(&mut detail, &decimal_usize(steps.len()));
                push_all(
                    &mut detail,
                    &chars_of("; SOP.md wins and the manifest steps are discarded"),
                );
                push_diag(
                    &mut diags,
                    Diagnostic::new(
                        DiagnosticKind::LossyConstruct {
                            construct: string_of(&chars_of("steps")),
                            detail: string_of(&detail),
                        },
                        Location::Manifest { key_path: string_of(&chars_of("steps")) },
                    ),
                );
            }
            assert(steps_view(steps@) =~= steps.deep_view());
            steps
        },
        None => {
            assert(diags.deep_view() =~= d0 + Seq::<DiagV>::empty());
            normalize_manifest_steps(manifest_steps)
        },
    };
    assert(steps_view(steps@) == chosen_steps(ms, opt_str_view(markdown)).0);
    assert(diags.deep_view() =~= d0 + chosen_steps(ms, opt_str_view(markdown)).1);
    merge_positions(&mut steps, positions.as_slice(), &mut diags);
    (Sop { meta: sop, triggers, steps }, diags)
}

// ── Rendering ───────────────────────────────────────────────────

/// The canvas positions the steps carry, by step number, in step order.
pub open spec fn positions_of(steps: Seq<StepV>) -> Seq<StepPosition>
    decreases steps.len(),
{
    if steps.len() == 0 {
        Seq::empty()
    } else {
        let rest = positions_of(steps.drop_last());
        match steps.last().pos {
            Some(p) => rest.push(StepPosition { step: steps.last().number, x: p.x, y: p.y }),
            None => rest,
        }
    }
}

/// The `[[positions]]` entries for a step list.
pub fn step_positions(steps: &Vec<SopStep>) -> (r: Vec<StepPosition>)
    ensures
        r@ == positions_of(steps_view(steps@)),
{
    let ghost sv = steps_view(steps@);
    let mut r: Vec<StepPosition> = Vec::new();
    let mut k: usize = 0;
    while k < steps.len()
        invariant
            sv == steps_view(steps@),
            k <= sv.len(),
            r@ == positions_of(sv.take(k as int)),
        decreases sv.len() - k,
    {
        assert(sv.take(k + 1).drop_last() =~= sv.take(k as int));
        match steps[k].pos {
            Some(p) => r.push(StepPosition { step: steps[k].number, x: p.x, y: p.y }),
            None => {},
        }
        k = k + 1;
    }
    assert(sv.take(sv.len() as int) =~= sv);
    r
}

pub open spec fn triggers_view(v: Seq<crate::model::SopTrigger>) -> Seq<TriggerV> {
    v.map_values(|t: crate::model::SopTrigger| t@)
}

/// The manifest, markdown and lossy-construct diagnostics a SOP is written
/// as. The manifest carries the metadata, the triggers and the steps'
/// positions, never the steps; the markdown carries the steps.
pub fn render_parts(sop: &Sop) -> (r: (SopManifest, String, Vec<Diagnostic>))
    ensures
        r.0.sop@ == sop.meta@,
        triggers_view(r.0.triggers@) == triggers_view(sop.triggers@),
        r.0.positions@ == positions_of(steps_view(sop.steps@)),
        r.0.steps@.len() == 0,
        (r.1@, r.2.deep_view()) == print_spec(steps_view(sop.steps@)),
{
    let mut triggers: Vec<crate::model::SopTrigger> = Vec::new();
    let mut k: usize = 0;
    while k < sop.triggers.len()
        invariant
            k <= sop.triggers@.len(),
            triggers_view(triggers@) == triggers_view(sop.triggers@).take(k as int),
        decreases sop.triggers@.len() - k,
    {
        let t = sop.triggers[k].duplicate();
        let ghost before = triggers_view(triggers@);
        triggers.push(t);
        assert(triggers_view(triggers@) =~= before.push(t@));
        assert(triggers_view(sop.triggers@).take(k + 1) =~= triggers_view(sop.triggers@).take(
            k as int,
        ).push(sop.triggers@[k as int]@));
        k = k + 1;
    }
    assert(triggers_view(sop.triggers@).take(sop.triggers@.len() as int) =~= triggers_view(
        sop.triggers@,
    ));
    let manifest = SopManifest {
        sop: sop.meta.duplicate(),
        triggers,
        positions: step_positions(&sop.steps),
        steps: Vec::new(),
    };
    let (markdown, diagnostics) = print_steps(sop.steps.as_slice());
    (manifest, markdown, diagnostics)
}

// ── Writing and reading back ────────────────────────────────────

proof fn lemma_first_numbered_at(steps: Seq<StepV>, number: u32, k: int)
    requires
        0 <= k < steps.len(),
        steps[k].number == number,
        forall|j: int| 0 <= j < k ==> steps[j].number != number,
    ensures
        first_numbered(steps, number) == Some(k),
{
    lemma_first_numbered(steps, number);
    match first_numbered(steps, number) {
        Some(i) => {
            if i < k {
                assert(steps[i].number == number);
            } else if i > k {
                assert(steps[k].number != number);
            }
        },
        None => {
            assert(steps[k].number != number);
        },
    }
}

/// The steps with the first `k` positions merged back.
pub open spec fn placed_prefix(sv: Seq<StepV>, k: int) -> Seq<StepV> {
    sv.take(k) + crate::roundtrip::all_unplaced(sv).skip(k)
}

proof fn lemma_merge_positions_back(sv: Seq<StepV>, k: int)
    requires
        0 <= k <= sv.len(),
        forall|i: int| 0 <= i < sv.len() ==> (#[trigger] sv[i]).number == i + 1,
    ensures
        merged(crate::roundtrip::all_unplaced(sv), positions_of(sv.take(k))).0 == placed_prefix(sv, k),
    decreases k,
{
    let u = crate::roundtrip::all_unplaced(sv);
    if k == 0 {
        assert(sv.take(0) =~= Seq::<StepV>::empty());
        assert(placed_prefix(sv, 0) =~= u);
    } else {
        lemma_merge_positions_back(sv, k - 1);
        let prev = placed_prefix(sv, k - 1);
        let s = sv[k - 1];
        assert(sv.take(k).drop_last() =~= sv.take(k - 1));
        assert(sv.take(k).last() == s);
        assert forall|j: int| 0 <= j < prev.len() implies (#[trigger] prev[j]).number == j + 1 by {
            if j < k - 1 {
                assert(prev[j] == sv[j]);
            } else {
                assert(prev[j] == crate::roundtrip::unplaced(sv[j]));
            }
        }
        assert(prev[k - 1] == crate::roundtrip::unplaced(s));
        match s.pos {
            None => {
                assert(crate::roundtrip::unplaced(s) == s);
                assert(placed_prefix(sv, k) =~= prev);
            },
            Some(q) => {
                let p = StepPosition { step: s.number, x: q.x, y: q.y };
                assert(positions_of(sv.take(k)) == positions_of(sv.take(k - 1)).push(p));
                assert(positions_of(sv.take(k)).drop_last() =~= positions_of(sv.take(k - 1)));
                assert(positions_of(sv.take(k)).last() == p);
                lemma_first_numbered_at(prev, s.number, k - 1);
                assert(StepV { pos: Some(StepPos { x: p.x, y: p.y }), ..prev[k - 1] } == s);
                assert(placed_prefix(sv, k) =~= prev.update(k - 1, s));
            },
        }
    }
}

/// A SOP's rendered markdown and positions, read back, give its steps
/// again: the markdown carries the steps and the positions attach to them
/// by number. This holds when every step, positions aside, is one the
/// format carries, and there are fewer steps than `u32::MAX` (so that step
/// numbers are distinct).
pub proof fn lemma_rendered_steps_read_back(sv: Seq<StepV>)
    requires
        crate::roundtrip::steps_ok(crate::roundtrip::all_unplaced(sv)),
        sv.len() < u32::MAX,
    ensures
        resolved(Seq::empty(), positions_of(sv), Some(print_spec(sv).0)).0 == sv,
{
    let u = crate::roundtrip::all_unplaced(sv);
    crate::roundtrip::lemma_print_ignores_positions(sv);
    crate::roundtrip::lemma_printed_steps_read_back(u);
    assert forall|i: int| 0 <= i < sv.len() implies (#[trigger] sv[i]).number == i + 1 by {
        assert(crate::roundtrip::step_ok(u[i], i as nat));
        crate::roundtrip::lemma_step_ok_number(u[i], i as nat);
        assert(u[i].number == sv[i].number);
    }
    lemma_merge_positions_back(sv, sv.len() as int);
    assert(sv.take(sv.len() as int) =~= sv);
    assert(placed_prefix(sv, sv.len() as int) =~= sv);
}

} // verus!
