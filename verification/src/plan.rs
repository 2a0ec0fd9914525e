use vstd::prelude::*;
use crate::autodoc::{ADPrompt, ADSummary, PromptSection};

verus! {

/// A step of a plan, in the stage it has reached: waiting for the summaries
/// its prompt needs, ready to run with its prompt, running, holding its
/// summary until it is saved, or done.
#[derive(Debug)]
pub enum PlanStep {
    AwaitingPrompt(Vec<PromptSection>),
    PendingExecution(ADPrompt),
    Executing(ADPrompt),
    PendingSave(ADSummary),
    Done(ADSummary),
}

/// A prompt section as text or as the index of the step whose summary it stands for.
pub enum SectionView {
    Text(Seq<char>),
    Ref(int),
}

/// A plan step by the texts it holds.
pub enum StepView {
    Awaiting(Seq<SectionView>),
    Pending(Seq<char>),
    Executing(Seq<char>),
    Saving(Seq<char>),
    Done(Seq<char>),
}

pub open spec fn section_view(s: PromptSection) -> SectionView {
    match s {
        PromptSection::StaticString(t) => SectionView::Text(t@),
        PromptSection::Placeholder(i) => SectionView::Ref(i as int),
    }
}

pub open spec fn sections_view(ss: Seq<PromptSection>) -> Seq<SectionView> {
    ss.map_values(|s: PromptSection| section_view(s))
}

pub open spec fn step_view(s: PlanStep) -> StepView {
    match s {
        PlanStep::AwaitingPrompt(ss) => StepView::Awaiting(sections_view(ss@)),
        PlanStep::PendingExecution(p) => StepView::Pending(p.0@),
        PlanStep::Executing(p) => StepView::Executing(p.0@),
        PlanStep::PendingSave(s) => StepView::Saving(s.text()),
        PlanStep::Done(s) => StepView::Done(s.text()),
    }
}

/// A plan by the texts its steps hold.
pub open spec fn plan_view(p: Seq<PlanStep>) -> Seq<StepView> {
    p.map_values(|s: PlanStep| step_view(s))
}

/// Texts joined with `sep` between each two of them.
pub open spec fn join(texts: Seq<Seq<char>>, sep: Seq<char>) -> Seq<char>
    decreases texts.len(),
{
    if texts.len() == 0 {
        Seq::empty()
    } else if texts.len() == 1 {
        texts[0]
    } else {
        join(texts.drop_last(), sep) + sep + texts.last()
    }
}

/// The texts of some sections (a reference counts as empty).
pub open spec fn section_texts(ss: Seq<SectionView>) -> Seq<Seq<char>> {
    ss.map_values(
        |s: SectionView|
            match s {
                SectionView::Text(t) => t,
                SectionView::Ref(_) => Seq::empty(),
            },
    )
}

/// Every section is text.
pub open spec fn all_text(ss: Seq<SectionView>) -> bool {
    forall|k: int| 0 <= k < ss.len() ==> #[trigger] ss[k] is Text
}

/// The separator between the sections of a prompt: an empty line.
pub open spec fn section_separator() -> Seq<char> {
    seq!['\n', '\n']
}

/// Joins resolved prompt sections into a prompt, an empty line between each two.
pub fn join_prompt_sections(sections: &Vec<PromptSection>) -> (p: ADPrompt)
    requires
        all_text(sections_view(sections@)),
    ensures
        p.0@ == join(section_texts(sections_view(sections@)), section_separator()),
{
    let ghost texts = section_texts(sections_view(sections@));
    let mut out = String::new();
    let mut i: usize = 0;
    proof {
        assert(texts.take(0) =~= Seq::<Seq<char>>::empty());
    }
    while i < sections.len()
        invariant
            i <= sections@.len(),
            texts == section_texts(sections_view(sections@)),
            all_text(sections_view(sections@)),
            out@ == join(texts.take(i as int), section_separator()),
        decreases sections@.len() - i,
    {
        proof {
            assert(sections_view(sections@)[i as int] is Text);
        }
        match &sections[i] {
            PromptSection::StaticString(t) => {
                if i > 0 {
                    out.append("\n\n");
                    proof {
                        reveal_strlit("\n\n");
                        assert("\n\n"@ =~= section_separator());
                    }
                }
                out.append(t.as_str());
                proof {
                    assert(texts[i as int] == t@);
                    let tk = texts.take(i + 1);
                    assert(tk.drop_last() =~= texts.take(i as int));
                    if i == 0 {
                        assert(out@ =~= tk[0]);
                    } else {
                        assert(out@ =~= join(tk.drop_last(), section_separator()) + section_separator()
                            + tk.last());
                    }
                }
            },
            PromptSection::Placeholder(_) => {
                proof {
                    assert(false);
                }
            },
        }
        i = i + 1;
    }
    proof {
        assert(texts.take(sections@.len() as int) =~= texts);
    }
    ADPrompt(out)
}

/// The summary a step holds, once it has one.
pub open spec fn summary_of(s: StepView) -> Option<Seq<char>> {
    match s {
        StepView::Saving(t) => Some(t),
        StepView::Done(t) => Some(t),
        _ => None,
    }
}

/// The sections of a step waiting for its prompt (none for other steps).
pub open spec fn sections_of(s: StepView) -> Seq<SectionView> {
    match s {
        StepView::Awaiting(ss) => ss,
        _ => Seq::empty(),
    }
}

/// How far a step has come, from 0 (waiting for its prompt) to 4 (done).
pub open spec fn stage_of(s: StepView) -> int {
    match s {
        StepView::Awaiting(_) => 0,
        StepView::Pending(_) => 1,
        StepView::Executing(_) => 2,
        StepView::Saving(_) => 3,
        StepView::Done(_) => 4,
    }
}

/// Every section that stands for a summary names another step of the plan.
pub open spec fn refs_ok(plan: Seq<StepView>) -> bool {
    forall|i: int, k: int|
        0 <= i < plan.len() && 0 <= k < sections_of(plan[i]).len() && (#[trigger] sections_of(
            plan[i],
        )[k]) is Ref ==> 0 <= sections_of(plan[i])[k]->Ref_0 < plan.len()
            && sections_of(plan[i])[k]->Ref_0 != i
}

/// A section with its reference replaced by the summary it stands for, once that exists.
pub open spec fn resolve(s: SectionView, plan: Seq<StepView>) -> SectionView {
    match s {
        SectionView::Ref(t) => match summary_of(plan[t]) {
            Some(x) => SectionView::Text(x),
            None => SectionView::Ref(t),
        },
        SectionView::Text(x) => SectionView::Text(x),
    }
}

pub open spec fn resolve_all(ss: Seq<SectionView>, plan: Seq<StepView>) -> Seq<SectionView> {
    ss.map_values(|s: SectionView| resolve(s, plan))
}

/// What one pass does to a step, the plan being `plan` at that moment: a
/// step waiting for its prompt takes the summaries that exist, and once all
/// are there its prompt is built; a step ready to run starts running.
pub open spec fn advance(s: StepView, plan: Seq<StepView>) -> StepView {
    match s {
        StepView::Awaiting(ss) => {
            let r = resolve_all(ss, plan);
            if all_text(r) {
                StepView::Pending(join(section_texts(r), section_separator()))
            } else {
                StepView::Awaiting(r)
            }
        },
        StepView::Pending(p) => StepView::Executing(p),
        _ => s,
    }
}

/// The plan after one pass has handled its first `k` steps, in order.
pub open spec fn tick_prefix(plan: Seq<StepView>, k: nat) -> Seq<StepView>
    decreases k,
{
    if k == 0 || k > plan.len() {
        plan
    } else {
        let prev = tick_prefix(plan, (k - 1) as nat);
        prev.update(k - 1, advance(prev[k - 1], prev))
    }
}

/// The plan after one pass over all its steps.
pub open spec fn tick_result(plan: Seq<StepView>) -> Seq<StepView> {
    tick_prefix(plan, plan.len())
}

/// The indices, in order, of the first `k` steps that are ready to run.
pub open spec fn pending_indices(plan: Seq<StepView>, k: nat) -> Seq<usize>
    decreases k,
{
    if k == 0 {
        Seq::empty()
    } else {
        let r = pending_indices(plan, (k - 1) as nat);
        if plan[k - 1] is Pending {
            r.push((k - 1) as usize)
        } else {
            r
        }
    }
}

/// What a pass over a plan did.
#[derive(Debug)]
pub struct TickOutcome {
    /// The steps that started running, whose summaries are now to be fetched.
    pub started: Vec<usize>,
    /// Whether some step moved on to a later stage.
    pub progressed: bool,
    /// Whether every step is done.
    pub all_done: bool,
}

proof fn lemma_tick_prefix_rest(plan: Seq<StepView>, k: nat, j: int)
    requires
        k <= plan.len(),
        k <= j < plan.len(),
    ensures
        tick_prefix(plan, k).len() == plan.len(),
        tick_prefix(plan, k)[j] == plan[j],
    decreases k,
{
    if k > 0 {
        lemma_tick_prefix_rest(plan, (k - 1) as nat, j);
        lemma_tick_prefix_len(plan, (k - 1) as nat);
    }
}

proof fn lemma_tick_prefix_len(plan: Seq<StepView>, k: nat)
    ensures
        tick_prefix(plan, k).len() == plan.len(),
    decreases k,
{
    if k > 0 && k <= plan.len() {
        lemma_tick_prefix_len(plan, (k - 1) as nat);
    }
}

/// Resolving references keeps every reference naming another step.
proof fn lemma_advance_refs_ok(plan: Seq<StepView>, i: int)
    requires
        refs_ok(plan),
        0 <= i < plan.len(),
    ensures
        refs_ok(plan.update(i, advance(plan[i], plan))),
{
    let np = plan.update(i, advance(plan[i], plan));
    assert forall|a: int, k: int|
        0 <= a < np.len() && 0 <= k < sections_of(np[a]).len() && (#[trigger] sections_of(
            np[a],
        )[k]) is Ref implies 0 <= sections_of(np[a])[k]->Ref_0 < np.len()
        && sections_of(np[a])[k]->Ref_0 != a by {
        if a == i {
            assert(sections_of(plan[i])[k] is Ref);
        }
    }
}

/// Makes one pass over the plan, handling its steps in order: a step waiting
/// for its prompt takes the summaries that exist by then, and its prompt is
/// built once they all do; a step ready to run starts running.
pub fn tick(plan: &mut Vec<PlanStep>) -> (out: TickOutcome)
    requires
        refs_ok(plan_view(old(plan)@)),
    ensures
        plan_view(final(plan)@) == tick_result(plan_view(old(plan)@)),
        refs_ok(plan_view(final(plan)@)),
        out.started@ == pending_indices(plan_view(old(plan)@), old(plan)@.len()),
        out.progressed == exists|j: int|
            0 <= j < old(plan)@.len() && stage_of(#[trigger] plan_view(final(plan)@)[j]) != stage_of(
                plan_view(old(plan)@)[j],
            ),
        out.all_done == forall|j: int|
            0 <= j < final(plan)@.len() ==> #[trigger] plan_view(final(plan)@)[j] is Done,
{
    let ghost orig = plan_view(plan@);
    let n = plan.len();
    let mut started: Vec<usize> = Vec::new();
    let mut progressed = false;
    let mut i: usize = 0;
    while i < n
        invariant
            i <= n,
            n == plan@.len(),
            orig.len() == n,
            plan_view(plan@) == tick_prefix(orig, i as nat),
            refs_ok(plan_view(plan@)),
            started@ == pending_indices(orig, i as nat),
            progressed == exists|j: int|
                0 <= j < i && stage_of(#[trigger] plan_view(plan@)[j]) != stage_of(orig[j]),
        decreases n - i,
    {
        let ghost cur = plan_view(plan@);
        proof {
            lemma_tick_prefix_rest(orig, i as nat, i as int);
            assert(cur[i as int] == step_view(plan@[i as int]));
        }
        let next: Option<(PlanStep, bool)> = match &plan[i] {
            PlanStep::AwaitingPrompt(secs) => {
                let ghost sv = sections_view(secs@);
                let mut new_secs: Vec<PromptSection> = Vec::new();
                let mut unresolved: usize = 0;
                let mut j: usize = 0;
                proof {
                    assert(sections_view(new_secs@) =~= resolve_all(sv.take(0), cur));
                }
                while j < secs.len()
                    invariant
                        j <= secs@.len(),
                        sv == sections_view(secs@),
                        cur == plan_view(plan@),
                        cur[i as int] == StepView::Awaiting(sv),
                        refs_ok(cur),
                        i < cur.len(),
                        cur.len() == plan@.len(),
                        sections_view(new_secs@) == resolve_all(sv.take(j as int), cur),
                        (unresolved == 0) == all_text(sections_view(new_secs@)),
                        unresolved <= j,
                    decreases secs@.len() - j,
                {
                    let ghost before = sections_view(new_secs@);
                    proof {
                        assert(sections_of(cur[i as int])[j as int] == sv[j as int]);
                    }
                    let resolved = match &secs[j] {
                        PromptSection::StaticString(t) => PromptSection::StaticString(t.clone()),
                        PromptSection::Placeholder(t) => {
                            let t = *t;
                            proof {
                                assert(sections_of(cur[i as int])[j as int] is Ref);
                            }
                            match &plan[t] {
                                PlanStep::PendingSave(s) => PromptSection::StaticString(
                                    String::from_str(s.as_str()),
                                ),
                                PlanStep::Done(s) => PromptSection::StaticString(
                                    String::from_str(s.as_str()),
                                ),
                                _ => {
                                    unresolved = unresolved + 1;
                                    PromptSection::Placeholder(t)
                                },
                            }
                        },
                    };
                    new_secs.push(resolved);
                    proof {
                        assert(section_view(resolved) == resolve(sv[j as int], cur));
                        assert(sections_view(new_secs@) =~= before.push(section_view(resolved)));
                        assert(resolve_all(sv.take(j + 1), cur) =~= resolve_all(sv.take(j as int), cur).push(
                            resolve(sv[j as int], cur),
                        ));
                        if section_view(resolved) is Text {
                            assert(all_text(sections_view(new_secs@)) == all_text(before)) by {
                                if all_text(before) {
                                    assert forall|k: int| 0 <= k < sections_view(new_secs@).len() implies #[trigger] sections_view(new_secs@)[k] is Text by {
                                        if k < before.len() {
                                            assert(sections_view(new_secs@)[k] == before[k]);
                                        }
                                    }
                                } else {
                                    let k = choose|k: int| 0 <= k < before.len() && !(#[trigger] before[k] is Text);
                                    assert(sections_view(new_secs@)[k] == before[k]);
                                }
                            }
                        } else {
                            assert(!(sections_view(new_secs@)[j as int] is Text));
                        }
                    }
                    j = j + 1;
                }
                proof {
                    assert(sv.take(secs@.len() as int) =~= sv);
                }
                if unresolved == 0 {
                    Some((PlanStep::PendingExecution(join_prompt_sections(&new_secs)), true))
                } else {
                    Some((PlanStep::AwaitingPrompt(new_secs), false))
                }
            },
            PlanStep::PendingExecution(p) => {
                started.push(i);
                Some((PlanStep::Executing(ADPrompt(p.0.clone())), true))
            },
            _ => None,
        };
        match next {
            Some((st, moved)) => {
                proof {
                    assert(moved == (stage_of(step_view(st)) != stage_of(cur[i as int])));
                }
                if moved {
                    progressed = true;
                }
                plan.set(i, st);
            },
            None => {},
        }
        proof {
            assert(plan_view(plan@) =~= cur.update(i as int, advance(cur[i as int], cur)));
            lemma_advance_refs_ok(cur, i as int);
            assert(orig[i as int] == cur[i as int]);
            let np = plan_view(plan@);
            assert(pending_indices(orig, (i + 1) as nat) == if orig[i as int] is Pending {
                pending_indices(orig, i as nat).push(i)
            } else {
                pending_indices(orig, i as nat)
            });
            assert(progressed == exists|j: int| 0 <= j < i + 1 && stage_of(#[trigger] np[j]) != stage_of(orig[j])) by {
                if progressed {
                    if stage_of(np[i as int]) == stage_of(orig[i as int]) {
                        let j = choose|j: int| 0 <= j < i && stage_of(#[trigger] cur[j]) != stage_of(orig[j]);
                        assert(np[j] == cur[j]);
                    }
                } else {
                    assert forall|j: int| 0 <= j < i + 1 implies stage_of(#[trigger] np[j]) == stage_of(orig[j]) by {
                        if j < i {
                            assert(np[j] == cur[j]);
                        }
                    }
                }
            }
        }
        i = i + 1;
    }
    let mut all_done = true;
    let mut k: usize = 0;
    while k < n
        invariant
            k <= n,
            n == plan@.len(),
            all_done == forall|j: int| 0 <= j < k ==> #[trigger] plan_view(plan@)[j] is Done,
        decreases n - k,
    {
        let d = match &plan[k] {
            PlanStep::Done(_) => true,
            _ => false,
        };
        proof {
            assert(plan_view(plan@)[k as int] == step_view(plan@[k as int]));
        }
        if !d {
            all_done = false;
        }
        k = k + 1;
    }
    TickOutcome { started, progressed, all_done }
}

proof fn lemma_refs_ok_set_summary(plan: Seq<StepView>, i: int, v: StepView)
    requires
        refs_ok(plan),
        0 <= i < plan.len(),
        v is Saving || v is Done,
    ensures
        refs_ok(plan.update(i, v)),
{
    let np = plan.update(i, v);
    assert forall|a: int, k: int|
        0 <= a < np.len() && 0 <= k < sections_of(np[a]).len() && (#[trigger] sections_of(
            np[a],
        )[k]) is Ref implies 0 <= sections_of(np[a])[k]->Ref_0 < np.len()
        && sections_of(np[a])[k]->Ref_0 != a by {
        assert(a != i);
        assert(np[a] == plan[a]);
    }
}

/// The summary of the running step `i` has arrived: the step holds it until it is saved.
pub fn record_summary(plan: &mut Vec<PlanStep>, i: usize, summary: ADSummary)
    requires
        i < old(plan)@.len(),
        plan_view(old(plan)@)[i as int] is Executing,
        refs_ok(plan_view(old(plan)@)),
    ensures
        plan_view(final(plan)@) == plan_view(old(plan)@).update(i as int, StepView::Saving(summary.text())),
        refs_ok(plan_view(final(plan)@)),
{
    let ghost before = plan_view(plan@);
    plan.set(i, PlanStep::PendingSave(summary));
    proof {
        assert(plan_view(plan@) =~= before.update(i as int, StepView::Saving(summary.text())));
        lemma_refs_ok_set_summary(before, i as int, StepView::Saving(summary.text()));
    }
}

/// The summary of step `i` is saved: the step is done. Gives the summary's text.
pub fn mark_saved(plan: &mut Vec<PlanStep>, i: usize) -> (text: String)
    requires
        i < old(plan)@.len(),
        plan_view(old(plan)@)[i as int] is Saving,
        refs_ok(plan_view(old(plan)@)),
    ensures
        plan_view(final(plan)@) == plan_view(old(plan)@).update(i as int, StepView::Done(text@)),
        StepView::Saving(text@) == plan_view(old(plan)@)[i as int],
        refs_ok(plan_view(final(plan)@)),
{
    let ghost before = plan_view(plan@);
    proof {
        assert(before[i as int] == step_view(plan@[i as int]));
    }
    let text = match &plan[i] {
        PlanStep::PendingSave(s) => String::from_str(s.as_str()),
        _ => {
            proof {
                assert(false);
            }
            String::new()
        },
    };
    let summary = ADSummary::new(text.clone());
    plan.set(i, PlanStep::Done(summary));
    proof {
        assert(plan_view(plan@) =~= before.update(i as int, StepView::Done(text@)));
        lemma_refs_ok_set_summary(before, i as int, StepView::Done(text@));
    }
    text
}

proof fn lemma_tick_prefix_monotone(plan: Seq<StepView>, k: nat, j: int)
    requires
        k <= plan.len(),
        0 <= j < plan.len(),
    ensures
        stage_of(tick_prefix(plan, k)[j]) >= stage_of(plan[j]),
        stage_of(plan[j]) >= 2 ==> tick_prefix(plan, k)[j] == plan[j],
        plan[j] is Pending ==> stage_of(tick_prefix(plan, k)[j]) <= 2,
    decreases k,
{
    lemma_tick_prefix_len(plan, k);
    if k > 0 {
        let prev = tick_prefix(plan, (k - 1) as nat);
        lemma_tick_prefix_monotone(plan, (k - 1) as nat, j);
        lemma_tick_prefix_len(plan, (k - 1) as nat);
        if j == k - 1 {
            lemma_tick_prefix_rest(plan, (k - 1) as nat, j);
        }
    }
}

/// One pass moves no step back: each step stays at its stage or moves on,
/// and a step that is running, holds its summary or is done stays as it is.
pub proof fn law_tick_never_regresses(plan: Seq<StepView>, j: int)
    requires
        0 <= j < plan.len(),
    ensures
        stage_of(tick_result(plan)[j]) >= stage_of(plan[j]),
        stage_of(plan[j]) >= 2 ==> tick_result(plan)[j] == plan[j],
{
    lemma_tick_prefix_monotone(plan, plan.len(), j);
}

/// After one pass, a step that was waiting for its prompt has one only if
/// every section of its prompt was resolved into text, and its prompt is
/// those texts joined.
pub proof fn law_prompt_built_only_when_resolved(plan: Seq<StepView>, j: int)
    requires
        0 <= j < plan.len(),
        plan[j] is Awaiting,
        !(tick_result(plan)[j] is Awaiting),
    ensures
        ({
            let before = tick_prefix(plan, j as nat);
            let r = resolve_all(sections_of(plan[j]), before);
            &&& all_text(r)
            &&& tick_result(plan)[j] == StepView::Pending(join(section_texts(r), section_separator()))
        }),
{
    lemma_tick_prefix_at(plan, plan.len(), j);
}

/// The step at `j` after a pass is what advancing it gave, against the plan
/// as the pass had left it by then.
proof fn lemma_tick_prefix_at(plan: Seq<StepView>, k: nat, j: int)
    requires
        0 <= j < k <= plan.len(),
    ensures
        tick_prefix(plan, k)[j] == advance(plan[j], tick_prefix(plan, j as nat)),
    decreases k,
{
    lemma_tick_prefix_len(plan, (k - 1) as nat);
    if j == k - 1 {
        lemma_tick_prefix_rest(plan, (k - 1) as nat, j);
    } else {
        lemma_tick_prefix_at(plan, (k - 1) as nat, j);
    }
}

/// Whether every section that stands for a summary names another step of the plan.
pub fn check_refs(plan: &Vec<PlanStep>) -> (b: bool)
    ensures
        b == refs_ok(plan_view(plan@)),
{
    let n = plan.len();
    let mut i: usize = 0;
    while i < n
        invariant
            i <= n,
            n == plan@.len(),
            forall|a: int, k: int|
                0 <= a < i && 0 <= k < sections_of(plan_view(plan@)[a]).len() && (#[trigger] sections_of(
                    plan_view(plan@)[a],
                )[k]) is Ref ==> 0 <= sections_of(plan_view(plan@)[a])[k]->Ref_0 < n
                    && sections_of(plan_view(plan@)[a])[k]->Ref_0 != a,
        decreases n - i,
    {
        proof {
            assert(plan_view(plan@)[i as int] == step_view(plan@[i as int]));
        }
        match &plan[i] {
            PlanStep::AwaitingPrompt(secs) => {
                let mut j: usize = 0;
                while j < secs.len()
                    invariant
                        j <= secs@.len(),
                        i < n,
                        n == plan@.len(),
                        plan_view(plan@)[i as int] == StepView::Awaiting(sections_view(secs@)),
                        forall|k: int|
                            0 <= k < j && (#[trigger] sections_view(secs@)[k]) is Ref
                                ==> 0 <= sections_view(secs@)[k]->Ref_0 < n
                                && sections_view(secs@)[k]->Ref_0 != i,
                    decreases secs@.len() - j,
                {
                    match &secs[j] {
                        PromptSection::Placeholder(t) => {
                            if *t >= n || *t == i {
                                proof {
                                    assert(sections_of(plan_view(plan@)[i as int])[j as int] is Ref);
                                }
                                return false;
                            }
                        },
                        PromptSection::StaticString(_) => {},
                    }
                    j = j + 1;
                }
            },
            _ => {},
        }
        i = i + 1;
    }
    true
}

/// One move of a run of a plan: a pass over a sound plan, a running step
/// receiving its summary, or a step holding its summary being saved.
pub open spec fn plan_move(p: Seq<StepView>, q: Seq<StepView>) -> bool {
    ||| refs_ok(p) && q == tick_result(p)
    ||| exists|i: int, x: Seq<char>|
        0 <= i < p.len() && p[i] is Executing && q == p.update(i, StepView::Saving(x))
    ||| exists|i: int|
        0 <= i < p.len() && p[i] is Saving && q == p.update(i, StepView::Done(p[i]->Saving_0))
}

proof fn lemma_move_forward(p: Seq<StepView>, q: Seq<StepView>)
    requires
        plan_move(p, q),
    ensures
        q.len() == p.len(),
        forall|j: int| 0 <= j < p.len() ==> stage_of(#[trigger] q[j]) >= stage_of(p[j]),
        forall|j: int| 0 <= j < p.len() && p[j] is Done ==> #[trigger] q[j] == p[j],
{
    if refs_ok(p) && q == tick_result(p) {
        lemma_tick_prefix_len(p, p.len());
        assert forall|j: int| 0 <= j < p.len() implies stage_of(#[trigger] q[j]) >= stage_of(p[j]) && (
        p[j] is Done ==> q[j] == p[j]) by {
            law_tick_never_regresses(p, j);
        }
    } else if exists|i: int, x: Seq<char>|
        0 <= i < p.len() && p[i] is Executing && q == p.update(i, StepView::Saving(x)) {
        let (i, x) = choose|i: int, x: Seq<char>|
            0 <= i < p.len() && p[i] is Executing && q == p.update(i, StepView::Saving(x));
        assert forall|j: int| 0 <= j < p.len() implies stage_of(#[trigger] q[j]) >= stage_of(p[j]) && (
        p[j] is Done ==> q[j] == p[j]) by {
            if j != i {
                assert(q[j] == p[j]);
            }
        }
    } else {
        let i = choose|i: int|
            0 <= i < p.len() && p[i] is Saving && q == p.update(i, StepView::Done(p[i]->Saving_0));
        assert forall|j: int| 0 <= j < p.len() implies stage_of(#[trigger] q[j]) >= stage_of(p[j]) && (
        p[j] is Done ==> q[j] == p[j]) by {
            if j != i {
                assert(q[j] == p[j]);
            }
        }
    }
}

/// Over a whole run of a plan (passes, summaries arriving, summaries saved),
/// every step only moves forward: at every point it is at least at the stage
/// it started at, so a step that was running, holding its summary or done at
/// the start is never started again, and a step that was done stays as it was.
pub proof fn law_run_moves_forward(run: Seq<Seq<StepView>>, k: int, j: int)
    requires
        run.len() > 0,
        forall|m: int| 0 <= m < run.len() - 1 ==> plan_move(#[trigger] run[m], run[m + 1]),
        0 <= k < run.len(),
        0 <= j < run[0].len(),
    ensures
        run[k].len() == run[0].len(),
        stage_of(run[k][j]) >= stage_of(run[0][j]),
        run[0][j] is Done ==> run[k][j] == run[0][j],
    decreases k,
{
    if k > 0 {
        law_run_moves_forward(run, k - 1, j);
        lemma_move_forward(run[k - 1], run[k]);
    }
}

/// The references between steps form no cycle: the steps can be ranked so
/// that every section standing for a summary names a step of lower rank.
pub open spec fn refs_acyclic(plan: Seq<StepView>) -> bool {
    exists|rank: spec_fn(int) -> nat| #[trigger] ranks(plan, rank)
}

/// Every section that stands for a summary names a step of lower rank.
pub open spec fn ranks(plan: Seq<StepView>, rank: spec_fn(int) -> nat) -> bool {
    forall|i: int, k: int|
        0 <= i < plan.len() && 0 <= k < sections_of(plan[i]).len() && (#[trigger] sections_of(
            plan[i],
        )[k]) is Ref ==> rank(sections_of(plan[i])[k]->Ref_0) < rank(i)
}

/// A step waiting for its prompt whose references name no other waiting step.
pub open spec fn ready_to_build(plan: Seq<StepView>, a: int) -> bool {
    &&& 0 <= a < plan.len()
    &&& plan[a] is Awaiting
    &&& forall|k: int|
        0 <= k < sections_of(plan[a]).len() && (#[trigger] sections_of(plan[a])[k]) is Ref
            ==> !(plan[sections_of(plan[a])[k]->Ref_0] is Awaiting)
}

proof fn lemma_some_ready(plan: Seq<StepView>, rank: spec_fn(int) -> nat, i: int)
    requires
        refs_ok(plan),
        ranks(plan, rank),
        0 <= i < plan.len(),
        plan[i] is Awaiting,
    ensures
        exists|a: int| ready_to_build(plan, a),
    decreases rank(i),
{
    if ready_to_build(plan, i) {
    } else {
        let k = choose|k: int|
            0 <= k < sections_of(plan[i]).len() && (#[trigger] sections_of(plan[i])[k]) is Ref
                && plan[sections_of(plan[i])[k]->Ref_0] is Awaiting;
        let t = sections_of(plan[i])[k]->Ref_0;
        lemma_some_ready(plan, rank, t);
    }
}

/// A pass makes progress: where the references form no cycle, no summary is
/// being fetched and some step has no summary yet, a pass moves some step on
/// to a later stage.
pub proof fn law_pass_makes_progress(plan: Seq<StepView>)
    requires
        refs_ok(plan),
        refs_acyclic(plan),
        forall|j: int| 0 <= j < plan.len() ==> !(#[trigger] plan[j] is Executing),
        exists|j: int| 0 <= j < plan.len() && stage_of(#[trigger] plan[j]) < 3,
    ensures
        moves_on(plan, tick_result(plan)),
{
    lemma_tick_prefix_len(plan, plan.len());
    if exists|j: int| 0 <= j < plan.len() && #[trigger] plan[j] is Pending {
        let j = choose|j: int| 0 <= j < plan.len() && #[trigger] plan[j] is Pending;
        lemma_tick_prefix_at(plan, plan.len(), j);
        assert(stage_of(tick_result(plan)[j]) != stage_of(plan[j]));
    } else {
        let j = choose|j: int| 0 <= j < plan.len() && stage_of(#[trigger] plan[j]) < 3;
        let rank = choose|rank: spec_fn(int) -> nat| #[trigger] ranks(plan, rank);
        lemma_some_ready(plan, rank, j);
        let a = choose|a: int| ready_to_build(plan, a);
        let pre = tick_prefix(plan, a as nat);
        lemma_tick_prefix_len(plan, a as nat);
        lemma_tick_prefix_at(plan, plan.len(), a);
        let ss = sections_of(plan[a]);
        let r = resolve_all(ss, pre);
        assert forall|k: int| 0 <= k < r.len() implies #[trigger] r[k] is Text by {
            if ss[k] is Ref {
                let t = ss[k]->Ref_0;
                assert(sections_of(plan[a])[k] is Ref);
                assert(!(plan[t] is Awaiting));
                assert(!(plan[t] is Pending));
                assert(!(plan[t] is Executing));
                lemma_tick_prefix_monotone(plan, a as nat, t);
                assert(pre[t] == plan[t]);
            }
        }
        assert(all_text(r));
        assert(stage_of(tick_result(plan)[a]) != stage_of(plan[a]));
    }
}

/// Some step is at another stage in `q` than in `p`.
pub open spec fn moves_on(p: Seq<StepView>, q: Seq<StepView>) -> bool {
    exists|j: int| 0 <= j < p.len() && stage_of(#[trigger] q[j]) != stage_of(p[j])
}

/// The stages of all steps added up.
pub open spec fn total_stage(plan: Seq<StepView>) -> int
    decreases plan.len(),
{
    if plan.len() == 0 {
        0
    } else {
        total_stage(plan.drop_last()) + stage_of(plan.last())
    }
}

proof fn lemma_total_stage_bounds(p: Seq<StepView>)
    ensures
        0 <= total_stage(p) <= 4 * p.len(),
    decreases p.len(),
{
    if p.len() > 0 {
        lemma_total_stage_bounds(p.drop_last());
    }
}

proof fn lemma_total_stage_rises(p: Seq<StepView>, q: Seq<StepView>)
    requires
        p.len() == q.len(),
        forall|j: int| 0 <= j < p.len() ==> stage_of(#[trigger] q[j]) >= stage_of(p[j]),
    ensures
        total_stage(q) >= total_stage(p),
        moves_on(p, q) ==> total_stage(q) > total_stage(p),
    decreases p.len(),
{
    if p.len() > 0 {
        let p1 = p.drop_last();
        let q1 = q.drop_last();
        assert forall|j: int| 0 <= j < p1.len() implies stage_of(#[trigger] q1[j]) >= stage_of(p1[j]) by {
            assert(q1[j] == q[j]);
            assert(p1[j] == p[j]);
        }
        lemma_total_stage_rises(p1, q1);
        if moves_on(p, q) {
            let j = choose|j: int| 0 <= j < p.len() && stage_of(#[trigger] q[j]) != stage_of(p[j]);
            if j < p.len() - 1 {
                assert(q1[j] == q[j]);
                assert(p1[j] == p[j]);
            }
        }
    }
}

/// A run of a plan ends: a run in which every move (a pass, a summary
/// arriving, a summary saved) moves some step on has at most four moves per
/// step, so once no pass makes progress and nothing is in flight, every step
/// is done.
pub proof fn law_run_is_bounded(run: Seq<Seq<StepView>>)
    requires
        run.len() > 0,
        forall|m: int|
            0 <= m < run.len() - 1 ==> plan_move(#[trigger] run[m], run[m + 1]) && moves_on(
                run[m],
                run[m + 1],
            ),
    ensures
        run.len() <= 4 * run[0].len() + 1,
{
    assert forall|k: int| 0 <= k < run.len() implies run[k].len() == run[0].len()
        && #[trigger] total_stage(run[k]) >= total_stage(run[0]) + k by {
        lemma_run_total(run, k);
    }
    let last = run.len() - 1;
    assert(total_stage(run[last]) >= total_stage(run[0]) + last);
    lemma_total_stage_bounds(run[last]);
    lemma_total_stage_bounds(run[0]);
}

proof fn lemma_run_total(run: Seq<Seq<StepView>>, k: int)
    requires
        run.len() > 0,
        forall|m: int|
            0 <= m < run.len() - 1 ==> plan_move(#[trigger] run[m], run[m + 1]) && moves_on(
                run[m],
                run[m + 1],
            ),
        0 <= k < run.len(),
    ensures
        run[k].len() == run[0].len(),
        total_stage(run[k]) >= total_stage(run[0]) + k,
    decreases k,
{
    if k > 0 {
        lemma_run_total(run, k - 1);
        assert(plan_move(run[k - 1], run[k]));
        lemma_move_forward(run[k - 1], run[k]);
        lemma_total_stage_rises(run[k - 1], run[k]);
    }
}

/// A pass starts each step that was ready to run with the very prompt it
/// held: the running step holds the same prompt text, and it is among the
/// steps the pass hands out to be summarised.
pub proof fn law_pass_starts_with_same_prompt(plan: Seq<StepView>, j: int)
    requires
        0 <= j < plan.len(),
        plan[j] is Pending,
    ensures
        tick_result(plan)[j] == StepView::Executing(plan[j]->Pending_0),
        pending_indices(plan, plan.len()).contains(j as usize),
{
    lemma_tick_prefix_at(plan, plan.len(), j);
    lemma_pending_indices_has(plan, plan.len(), j);
}

proof fn lemma_pending_indices_has(plan: Seq<StepView>, k: nat, j: int)
    requires
        0 <= j < k <= plan.len(),
        plan[j] is Pending,
    ensures
        pending_indices(plan, k).contains(j as usize),
    decreases k,
{
    let r = pending_indices(plan, (k - 1) as nat);
    if j == k - 1 {
        assert(r.push(j as usize)[r.len() as int] == j as usize);
    } else {
        lemma_pending_indices_has(plan, (k - 1) as nat, j);
        let a = choose|a: int| 0 <= a < r.len() && r[a] == j as usize;
        if plan[k - 1] is Pending {
            assert(r.push((k - 1) as usize)[a] == j as usize);
        }
    }
}

/// A reference renumbered for the plan listed backwards.
pub open spec fn mirror_section(s: SectionView, n: int) -> SectionView {
    match s {
        SectionView::Ref(t) => SectionView::Ref(n - 1 - t),
        SectionView::Text(x) => SectionView::Text(x),
    }
}

/// A step with its references renumbered for the plan listed backwards.
pub open spec fn mirror_step(s: StepView, n: int) -> StepView {
    match s {
        StepView::Awaiting(ss) => StepView::Awaiting(
            ss.map_values(|x: SectionView| mirror_section(x, n)),
        ),
        _ => s,
    }
}

/// The plan with its steps listed backwards and every reference renumbered to match.
pub open spec fn mirrored(plan: Seq<StepView>) -> Seq<StepView> {
    Seq::new(plan.len(), |i: int| mirror_step(plan[plan.len() - 1 - i], plan.len() as int))
}

proof fn lemma_mirror_keeps_ok(plan: Seq<StepView>)
    requires
        refs_ok(plan),
    ensures
        refs_ok(mirrored(plan)),
{
    let n = plan.len() as int;
    let m = mirrored(plan);
    assert forall|i: int, k: int|
        0 <= i < m.len() && 0 <= k < sections_of(m[i]).len() && (#[trigger] sections_of(
            m[i],
        )[k]) is Ref implies 0 <= sections_of(m[i])[k]->Ref_0 < m.len()
        && sections_of(m[i])[k]->Ref_0 != i by {
        let o = n - 1 - i;
        assert(m[i] == mirror_step(plan[o], n));
        assert(sections_of(plan[o])[k] is Ref);
    }
}

/// Whether a plan's references are accepted does not depend on the order its
/// steps are listed in: the plan listed backwards, each reference renumbered
/// to match, is accepted exactly when the plan is, so a reference to an
/// earlier step is as good as one to a later step.
pub proof fn law_refs_ok_order_free(plan: Seq<StepView>)
    ensures
        refs_ok(mirrored(plan)) == refs_ok(plan),
        mirrored(mirrored(plan)) == plan,
{
    let n = plan.len() as int;
    let m = mirrored(plan);
    assert forall|i: int| 0 <= i < n implies #[trigger] mirrored(m)[i] == plan[i] by {
        assert(mirrored(m)[i] == mirror_step(m[n - 1 - i], n));
        assert(m[n - 1 - i] == mirror_step(plan[i], n));
        match plan[i] {
            StepView::Awaiting(ss) => {
                let once = ss.map_values(|x: SectionView| mirror_section(x, n));
                let twice = once.map_values(|x: SectionView| mirror_section(x, n));
                assert(twice =~= ss) by {
                    assert forall|k: int| 0 <= k < ss.len() implies twice[k] == ss[k] by {
                        match ss[k] {
                            SectionView::Ref(t) => {},
                            SectionView::Text(x) => {},
                        }
                    }
                }
            },
            _ => {},
        }
    }
    assert(mirrored(m) =~= plan);
    if refs_ok(plan) {
        lemma_mirror_keeps_ok(plan);
    }
    if refs_ok(m) {
        lemma_mirror_keeps_ok(m);
    }
}

} // verus!
