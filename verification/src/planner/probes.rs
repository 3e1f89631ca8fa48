//! Probe answers: what the stores said about output paths, and what follows.

use vstd::prelude::*;

use crate::error::Result;
use crate::planner::plan::{
    ActionView, HintView, OutputAction, ProbeResult, ProbeView, RouteHintSpec,
};
use crate::sorted::{
    ascending, is_ascending, lemma_ascending_distinct, lookup, SortedMap, SortedSet,
};
use crate::text;

verus! {

// ---------------------------------------------------------------------------
// One derivation
// ---------------------------------------------------------------------------

/// The stores whose failure left some action of the derivation undecided.
pub open spec fn probe_errors(actions: Seq<ActionView>) -> Set<Seq<char>>
    decreases actions.len(),
{
    if actions.len() == 0 {
        Set::empty()
    } else {
        let earlier = probe_errors(actions.drop_last());
        match actions.last().probe {
            ProbeView::Indeterminate { errors } => earlier.union(errors.to_set()),
            _ => earlier,
        }
    }
}

/// The first store that has one of the outputs.
pub open spec fn first_hit(actions: Seq<ActionView>) -> Option<Seq<char>>
    decreases actions.len(),
{
    if actions.len() == 0 {
        None
    } else {
        match actions[0].probe {
            ProbeView::Present { substituter } => Some(substituter),
            _ => first_hit(actions.drop_first()),
        }
    }
}

/// The probe result that stands for all actions of a derivation.
pub open spec fn summary_probe(actions: Seq<ActionView>) -> ProbeView {
    let errors = ascending(probe_errors(actions));
    if errors.len() > 0 {
        ProbeView::Indeterminate { errors }
    } else if exists|i: int| 0 <= i < actions.len() && #[trigger] actions[i].probe is Missing {
        ProbeView::Missing
    } else if forall|i: int| 0 <= i < actions.len() ==> #[trigger] actions[i].probe is LocalPresent {
        ProbeView::LocalPresent
    } else if forall|i: int|
        0 <= i < actions.len() ==> #[trigger] actions[i].probe is SkippedKnownLocal {
        ProbeView::SkippedKnownLocal
    } else {
        match first_hit(actions) {
            Some(substituter) => ProbeView::Present { substituter },
            None => ProbeView::Indeterminate { errors: seq!["no output actions"@] },
        }
    }
}

/// The probe result that stands for all actions of a derivation.
pub fn summarize_probes(actions: &[OutputAction]) -> (result: ProbeResult)
    ensures
        result@ == summary_probe(actions.deep_view()),
{
    let ghost all = actions.deep_view();
    let mut errors = SortedSet::new();
    let mut missing = false;
    let mut local = true;
    let mut skipped = true;
    assert(all.take(0) =~= Seq::<ActionView>::empty());
    for i in 0..actions.len()
        invariant
            all == actions.deep_view(),
            errors@ == probe_errors(all.take(i as int)),
            missing == (exists|k: int| 0 <= k < i && #[trigger] all[k].probe is Missing),
            local == (forall|k: int| 0 <= k < i ==> #[trigger] all[k].probe is LocalPresent),
            skipped == (forall|k: int|
                0 <= k < i ==> #[trigger] all[k].probe is SkippedKnownLocal),
    {
        assert(all[i as int] == actions@[i as int]@);
        assert(all.take(i + 1).drop_last() =~= all.take(i as int));
        assert(all.take(i + 1).last() == all[i as int]);
        assert(all[i as int].probe == actions@[i as int].probe@);
        match &actions[i].probe {
            ProbeResult::Indeterminate { errors: more } => {
                let ghost before = errors@;
                assert(before.union(more.deep_view().take(0).to_set()) =~= before);
                for j in 0..more.len()
                    invariant
                        errors@ == before.union(more.deep_view().take(j as int).to_set()),
                {
                    errors.insert(more[j].clone());
                    proof {
                        lemma_to_set_push(more.deep_view(), j as int);
                        assert(errors@ =~= before.union(more.deep_view().take(j + 1).to_set()));
                    }
                }
                assert(more.deep_view().take(more.len() as int) =~= more.deep_view());
                local = false;
                skipped = false;
            },
            ProbeResult::Missing => {
                missing = true;
                local = false;
                skipped = false;
            },
            ProbeResult::LocalPresent => {
                skipped = false;
            },
            ProbeResult::SkippedKnownLocal => {
                local = false;
            },
            ProbeResult::Present { .. } => {
                local = false;
                skipped = false;
            },
        }
    }
    assert(all.take(actions.len() as int) =~= all);
    if errors.len() > 0 {
        return ProbeResult::Indeterminate { errors: errors.to_list() };
    }
    if missing {
        return ProbeResult::Missing;
    }
    if local {
        return ProbeResult::LocalPresent;
    }
    if skipped {
        return ProbeResult::SkippedKnownLocal;
    }
    assert(all.skip(0) =~= all);
    for i in 0..actions.len()
        invariant
            all == actions.deep_view(),
            first_hit(all) == first_hit(all.skip(i as int)),
            summary_probe(all) == (match first_hit(all) {
                Some(substituter) => ProbeView::Present { substituter },
                None => ProbeView::Indeterminate { errors: seq!["no output actions"@] },
            }),
    {
        assert(all[i as int] == actions@[i as int]@);
        assert(all.skip(i as int)[0] == all[i as int]);
        assert(all.skip(i as int).drop_first() =~= all.skip(i + 1));
        if let ProbeResult::Present { substituter } = &actions[i].probe {
            return ProbeResult::Present { substituter: substituter.clone() };
        }
    }
    let errors = vec!["no output actions".to_owned()];
    assert(errors.deep_view() =~= seq!["no output actions"@]);
    ProbeResult::Indeterminate { errors }
}

proof fn lemma_to_set_push(items: Seq<Seq<char>>, at: int)
    requires
        0 <= at < items.len(),
    ensures
        items.take(at + 1).to_set() == items.take(at).to_set().insert(items[at]),
{
    let done = items.take(at);
    assert(items.take(at + 1) =~= done.push(items[at]));
    assert(done.push(items[at]).to_set() =~= done.to_set().insert(items[at])) by {
        broadcast use vstd::seq_lib::group_seq_properties;

        assert forall|t: Seq<char>|
            done.push(items[at]).contains(t) == (done.contains(t) || t == items[at]) by {}
    }
}

// ---------------------------------------------------------------------------
// Several stores
// ---------------------------------------------------------------------------

/// What one store answered: which outputs it has, or nothing when it failed.
pub type StoreView = (Seq<char>, Option<Map<Seq<char>, bool>>);

/// What a probe reported, or nothing when it failed.
pub open spec fn reported(probe: Result<SortedMap<bool>>) -> Option<Map<Seq<char>, bool>> {
    match probe {
        Ok(answers) => Some(answers@),
        Err(_) => None,
    }
}

/// Model of one store's probe.
pub open spec fn answer_of(probe: (String, Result<SortedMap<bool>>)) -> StoreView {
    (probe.0@, reported(probe.1))
}

/// Model of the stores' probes.
pub open spec fn answers_of(probes: Seq<(String, Result<SortedMap<bool>>)>) -> Seq<StoreView> {
    probes.map_values(|probe: (String, Result<SortedMap<bool>>)| answer_of(probe))
}

/// The answers say that the output is there.
pub open spec fn reports_hit(answers: Option<Map<Seq<char>, bool>>, output: Seq<char>) -> bool {
    match answers {
        Some(answers) => answers.contains_key(output) && answers[output],
        None => false,
    }
}

/// The store said that it has the output.
pub open spec fn confirms(store: StoreView, output: Seq<char>) -> bool {
    reports_hit(store.1, output)
}

/// The first store that has the output.
pub open spec fn first_store_with(stores: Seq<StoreView>, output: Seq<char>) -> Option<Seq<char>>
    decreases stores.len(),
{
    if stores.len() == 0 {
        None
    } else if confirms(stores[0], output) {
        Some(stores[0].0)
    } else {
        first_store_with(stores.drop_first(), output)
    }
}

/// The stores whose probe failed, in order.
pub open spec fn failed_stores(stores: Seq<StoreView>) -> Seq<Seq<char>>
    decreases stores.len(),
{
    if stores.len() == 0 {
        Seq::empty()
    } else if stores.last().1 is None {
        failed_stores(stores.drop_last()).push(stores.last().0)
    } else {
        failed_stores(stores.drop_last())
    }
}

/// The failed probes that leave a miss undecided, the local store in front.
pub open spec fn undecided(stores: Seq<StoreView>, local_failed: bool) -> Seq<Seq<char>> {
    if local_failed {
        seq!["daemon"@] + failed_stores(stores)
    } else {
        failed_stores(stores)
    }
}

/// The verdict on an output: a hit in the first store that has it; otherwise a
/// miss, unless some probe failed.
pub open spec fn verdict(
    output: Seq<char>,
    stores: Seq<StoreView>,
    local_failed: bool,
) -> ProbeView {
    match first_store_with(stores, output) {
        Some(substituter) => ProbeView::Present { substituter },
        None => {
            let errors = undecided(stores, local_failed);
            if errors.len() == 0 {
                ProbeView::Missing
            } else {
                ProbeView::Indeterminate { errors }
            }
        },
    }
}

/// The verdicts on a set of outputs.
pub open spec fn verdicts(
    outputs: Set<Seq<char>>,
    stores: Seq<StoreView>,
    local_failed: bool,
) -> Map<Seq<char>, ProbeView> {
    Map::new(
        |output: Seq<char>| outputs.contains(output),
        |output: Seq<char>| verdict(output, stores, local_failed),
    )
}

/// A failed probe never turns into a cache miss: an output is missing exactly
/// when every store answered, the local one too, and none has it.
pub proof fn law_missing_only_if_every_store_answered(
    output: Seq<char>,
    stores: Seq<StoreView>,
    local_failed: bool,
)
    ensures
        verdict(output, stores, local_failed) is Missing <==> !local_failed && forall|i: int|
            0 <= i < stores.len() ==> (#[trigger] stores[i]).1 is Some && !confirms(
                stores[i],
                output,
            ),
{
    lemma_first_store(stores, output);
    lemma_failed_stores(stores);
    if local_failed {
        assert(undecided(stores, local_failed).len() > 0);
    }
}

/// A hit is always reported, whatever other stores answered, and names a store
/// that has the output.
pub proof fn law_hit_wins(output: Seq<char>, stores: Seq<StoreView>, local_failed: bool)
    ensures
        verdict(output, stores, local_failed) is Present <==> exists|i: int|
            0 <= i < stores.len() && confirms(#[trigger] stores[i], output),
        verdict(output, stores, local_failed) matches ProbeView::Present { substituter }
            ==> exists|i: int|
            0 <= i < stores.len() && (#[trigger] stores[i]).0 == substituter && confirms(
                stores[i],
                output,
            ) && forall|k: int| 0 <= k < i ==> !confirms(#[trigger] stores[k], output),
{
    lemma_first_store(stores, output);
}

proof fn lemma_first_store(stores: Seq<StoreView>, output: Seq<char>)
    ensures
        match first_store_with(stores, output) {
            Some(store) => exists|i: int|
                0 <= i < stores.len() && (#[trigger] stores[i]).0 == store && confirms(
                    stores[i],
                    output,
                ) && forall|k: int| 0 <= k < i ==> !confirms(#[trigger] stores[k], output),
            None => forall|i: int|
                0 <= i < stores.len() ==> !confirms(#[trigger] stores[i], output),
        },
    decreases stores.len(),
{
    if stores.len() > 0 && !confirms(stores[0], output) {
        let rest = stores.drop_first();
        lemma_first_store(rest, output);
        match first_store_with(rest, output) {
            Some(store) => {
                let i = choose|i: int|
                    0 <= i < rest.len() && (#[trigger] rest[i]).0 == store && confirms(
                        rest[i],
                        output,
                    ) && forall|k: int| 0 <= k < i ==> !confirms(#[trigger] rest[k], output);
                assert(stores[i + 1] == rest[i]);
                assert forall|k: int| 0 <= k < i + 1 implies !confirms(
                    #[trigger] stores[k],
                    output,
                ) by {
                    if k > 0 {
                        assert(rest[k - 1] == stores[k]);
                    }
                }
            },
            None => {
                assert forall|i: int| 0 <= i < stores.len() implies !confirms(
                    #[trigger] stores[i],
                    output,
                ) by {
                    if i > 0 {
                        assert(rest[i - 1] == stores[i]);
                    }
                }
            },
        }
    } else if stores.len() > 0 {
        assert(stores[0].0 == first_store_with(stores, output)->0);
    }
}

proof fn lemma_failed_stores(stores: Seq<StoreView>)
    ensures
        failed_stores(stores).len() == 0 <==> forall|i: int|
            0 <= i < stores.len() ==> (#[trigger] stores[i]).1 is Some,
    decreases stores.len(),
{
    if stores.len() > 0 {
        let rest = stores.drop_last();
        lemma_failed_stores(rest);
        assert(stores[stores.len() - 1] == stores.last());
        if stores.last().1 is Some && forall|i: int|
            0 <= i < rest.len() ==> (#[trigger] rest[i]).1 is Some {
            assert forall|i: int| 0 <= i < stores.len() implies (
            #[trigger] stores[i]).1 is Some by {
                if i < rest.len() {
                    assert(rest[i] == stores[i]);
                }
            }
        } else if stores.last().1 is Some {
            let i = choose|i: int| 0 <= i < rest.len() && (#[trigger] rest[i]).1 is None;
            assert(stores[i] == rest[i]);
        }
    }
}

/// Merges the answers of the stores, in the order in which they are listed.
pub fn merge_store_probe_results(
    outputs: &[String],
    probes: &[(String, Result<SortedMap<bool>>)],
    local_probe_failed: bool,
) -> (result: SortedMap<ProbeResult>)
    ensures
        result.deep_view() == verdicts(
            outputs.deep_view().to_set(),
            answers_of(probes@),
            local_probe_failed,
        ),
{
    let ghost stores = answers_of(probes@);
    let mut result: SortedMap<ProbeResult> = SortedMap::new();
    assert(result.deep_view() =~= verdicts(
        outputs.deep_view().take(0).to_set(),
        stores,
        local_probe_failed,
    ));
    for i in 0..outputs.len()
        invariant
            stores == answers_of(probes@),
            result.deep_view() == verdicts(
                outputs.deep_view().take(i as int).to_set(),
                stores,
                local_probe_failed,
            ),
    {
        let ghost before = result.deep_view();
        let output = &outputs[i];
        let decided = merged_verdict(output.as_str(), probes, local_probe_failed);
        result.insert(output.clone(), decided);
        proof {
            lemma_to_set_push(outputs.deep_view(), i as int);
            assert(outputs.deep_view()[i as int] == output@);
            assert(result.deep_view() =~= before.insert(output@, decided@));
            assert(result.deep_view() =~= verdicts(
                outputs.deep_view().take(i + 1).to_set(),
                stores,
                local_probe_failed,
            ));
        }
    }
    assert(outputs.deep_view().take(outputs.len() as int) =~= outputs.deep_view());
    result
}

fn merged_verdict(
    output: &str,
    probes: &[(String, Result<SortedMap<bool>>)],
    local_probe_failed: bool,
) -> (result: ProbeResult)
    ensures
        result@ == verdict(output@, answers_of(probes@), local_probe_failed),
{
    let ghost stores = answers_of(probes@);
    assert(stores.skip(0) =~= stores);
    for i in 0..probes.len()
        invariant
            stores == answers_of(probes@),
            first_store_with(stores, output@) == first_store_with(stores.skip(i as int), output@),
    {
        assert(stores[i as int] == answer_of(probes@[i as int]));
        assert(stores.skip(i as int)[0] == stores[i as int]);
        assert(stores.skip(i as int).drop_first() =~= stores.skip(i + 1));
        if let Ok(answers) = &probes[i].1 {
            if let Some(present) = answers.get(output) {
                if *present {
                    return ProbeResult::Present { substituter: probes[i].0.clone() };
                }
            }
        }
    }
    let mut errors: Vec<String> = Vec::new();
    if local_probe_failed {
        errors.push("daemon".to_owned());
    }
    let ghost head = errors.deep_view();
    assert(head =~= if local_probe_failed {
        seq!["daemon"@]
    } else {
        Seq::empty()
    });
    assert(head + failed_stores(stores.take(0)) =~= head);
    for i in 0..probes.len()
        invariant
            stores == answers_of(probes@),
            errors.deep_view() == head + failed_stores(stores.take(i as int)),
    {
        assert(stores[i as int] == answer_of(probes@[i as int]));
        assert(stores.take(i + 1).drop_last() =~= stores.take(i as int));
        assert(stores.take(i + 1).last() == stores[i as int]);
        if probes[i].1.is_err() {
            text::add_item(&mut errors, probes[i].0.clone());
            assert(errors.deep_view() =~= head + failed_stores(stores.take(i + 1)));
        }
    }
    assert(stores.take(probes.len() as int) =~= stores);
    assert(errors.deep_view() =~= undecided(stores, local_probe_failed));
    if errors.len() == 0 {
        ProbeResult::Missing
    } else {
        ProbeResult::Indeterminate { errors }
    }
}

// ---------------------------------------------------------------------------
// The local store
// ---------------------------------------------------------------------------

/// The outputs that the local store is not known to have, in order.
pub open spec fn not_local(outputs: Seq<Seq<char>>, local: Option<Map<Seq<char>, bool>>) -> Seq<
    Seq<char>,
> {
    outputs.filter(|output: Seq<char>| !reports_hit(local, output))
}

/// The outputs that the local store has.
pub open spec fn local_hits(local: Option<Map<Seq<char>, bool>>) -> Map<Seq<char>, ProbeView> {
    Map::new(
        |output: Seq<char>| reports_hit(local, output),
        |output: Seq<char>| ProbeView::LocalPresent,
    )
}

/// What is known of the outputs once the local store and the substituters
/// have answered.
pub open spec fn availability_of(
    local: Option<Map<Seq<char>, bool>>,
    pending: Seq<Seq<char>>,
    stores: Seq<StoreView>,
) -> Map<Seq<char>, ProbeView> {
    local_hits(local).union_prefer_right(verdicts(pending.to_set(), stores, local is None))
}

/// The items in order, each where it first occurs.
pub open spec fn distinct(items: Seq<Seq<char>>) -> Seq<Seq<char>>
    decreases items.len(),
{
    if items.len() == 0 {
        Seq::empty()
    } else {
        let earlier = distinct(items.drop_last());
        if earlier.contains(items.last()) {
            earlier
        } else {
            earlier.push(items.last())
        }
    }
}

/// The outputs that still have to be looked for in the substituters.
pub fn pending_outputs(outputs: &[String], local: &Result<SortedMap<bool>>) -> (result: Vec<String>)
    ensures
        result.deep_view() == not_local(outputs.deep_view(), reported(*local)),
{
    let ghost all = outputs.deep_view();
    let ghost wanted = |output: Seq<char>| !reports_hit(reported(*local), output);
    let mut pending: Vec<String> = Vec::new();
    reveal(Seq::filter);
    assert(all.take(0).filter(wanted) =~= Seq::empty());
    for i in 0..outputs.len()
        invariant
            all == outputs.deep_view(),
            wanted == (|output: Seq<char>| !reports_hit(reported(*local), output)),
            pending.deep_view() == all.take(i as int).filter(wanted),
    {
        reveal(Seq::filter);
        assert(all.take(i + 1).drop_last() =~= all.take(i as int));
        assert(all.take(i + 1).last() == all[i as int]);
        assert(all[i as int] == outputs@[i as int]@);
        let found = match local {
            Ok(answers) => match answers.get(outputs[i].as_str()) {
                Some(present) => *present,
                None => false,
            },
            Err(_) => false,
        };
        assert(wanted(all[i as int]) == !found);
        if !found {
            text::add_item(&mut pending, outputs[i].clone());
        }
    }
    assert(all.take(outputs.len() as int) =~= all);
    pending
}

/// The stores to ask, each of them once.
pub fn unique_stores(substituters: &[String]) -> (result: Vec<String>)
    ensures
        result.deep_view() == distinct(substituters.deep_view()),
{
    let ghost all = substituters.deep_view();
    let mut unique: Vec<String> = Vec::new();
    for i in 0..substituters.len()
        invariant
            all == substituters.deep_view(),
            unique.deep_view() == distinct(all.take(i as int)),
    {
        assert(all.take(i + 1).drop_last() =~= all.take(i as int));
        assert(all.take(i + 1).last() == all[i as int]);
        assert(all[i as int] == substituters@[i as int]@);
        if !text::list_contains(unique.as_slice(), substituters[i].as_str()) {
            text::add_item(&mut unique, substituters[i].clone());
        }
    }
    assert(all.take(substituters.len() as int) =~= all);
    unique
}

/// Combines the answers of the local store and of the substituters.
pub fn probed_availability(
    local: &Result<SortedMap<bool>>,
    pending: &[String],
    probes: &[(String, Result<SortedMap<bool>>)],
) -> (result: SortedMap<ProbeResult>)
    ensures
        result.deep_view() == availability_of(
            reported(*local),
            pending.deep_view(),
            answers_of(probes@),
        ),
{
    let mut availability: SortedMap<ProbeResult> = SortedMap::new();
    if let Ok(answers) = local {
        let count = answers.len();
        let ghost order = answers.order();
        let mut i: usize = 0;
        while i < count
            invariant
                order == answers.order(),
                is_ascending(order),
                count == order.len(),
                i <= count,
                forall|output: Seq<char>| #[trigger]
                    availability@.contains_key(output) <==> order.take(i as int).contains(output)
                        && answers@[output],
                forall|output: Seq<char>| #[trigger]
                    availability@.contains_key(output) ==> availability@[output]@
                        == ProbeView::LocalPresent,
            decreases count - i,
        {
            let output = answers.key_at(i);
            let present = answers.value_at(i);
            let ghost before = availability@;
            let ghost done = order.take(i as int);
            assert(order.take(i + 1) =~= done.push(output@));
            assert forall|t: Seq<char>|
                done.push(output@).contains(t) == (done.contains(t) || t == output@) by {
                broadcast use vstd::seq_lib::group_seq_properties;

            }
            proof {
                lemma_ascending_distinct(order, i as int);
            }
            if *present {
                availability.insert(output.clone(), ProbeResult::LocalPresent);
            }
            i += 1;
        }
        proof {
            assert(order.take(count as int) =~= order);
            assert forall|output: Seq<char>| availability@.contains_key(output) <==> reports_hit(
                reported(*local),
                output,
            ) by {
                assert(order.to_set().contains(output) == answers@.contains_key(output));
            }
        }
    }
    assert(availability.deep_view() =~= local_hits(reported(*local)));
    let merged = merge_store_probe_results(pending, probes, local.is_err());
    let ghost before = availability.deep_view();
    availability.extend(merged);
    assert(availability.deep_view() =~= before.union_prefer_right(merged.deep_view()));
    availability
}

// ---------------------------------------------------------------------------
// Merging by hand
// ---------------------------------------------------------------------------

/// The stores with the answers that belong to them, as far as both go.
pub open spec fn paired(stores: Seq<Seq<char>>, probes: Seq<Map<Seq<char>, bool>>) -> Seq<
    StoreView,
> {
    Seq::new(
        if stores.len() < probes.len() {
            stores.len()
        } else {
            probes.len()
        },
        |i: int| (stores[i], Some(probes[i])),
    )
}

/// The outputs that some store was asked for.
pub open spec fn asked(probes: Seq<Map<Seq<char>, bool>>) -> Set<Seq<char>>
    decreases probes.len(),
{
    if probes.len() == 0 {
        Set::empty()
    } else {
        asked(probes.drop_last()).union(probes.last().dom())
    }
}

/// The verdict on an output, given the stores that failed.
pub open spec fn verdict_with_errors(
    output: Seq<char>,
    stores: Seq<StoreView>,
    failed: Seq<Seq<char>>,
) -> ProbeView {
    match first_store_with(stores, output) {
        Some(substituter) => ProbeView::Present { substituter },
        None => if failed.len() == 0 {
            ProbeView::Missing
        } else {
            ProbeView::Indeterminate { errors: failed }
        },
    }
}

/// The verdicts on a set of outputs, given the stores that failed.
pub open spec fn verdicts_with_errors(
    outputs: Set<Seq<char>>,
    stores: Seq<StoreView>,
    failed: Seq<Seq<char>>,
) -> Map<Seq<char>, ProbeView> {
    Map::new(
        |output: Seq<char>| outputs.contains(output),
        |output: Seq<char>| verdict_with_errors(output, stores, failed),
    )
}

/// Merges per-store probe maps into one output-to-result map.
pub fn merge_store_probes(stores: &[&str], probes: &[SortedMap<bool>]) -> (result: SortedMap<
    ProbeResult,
>)
    ensures
        result.deep_view() == verdicts_with_errors(
            asked(probes.deep_view()),
            paired(stores.deep_view(), probes.deep_view()),
            Seq::empty(),
        ),
{
    let none: [&str; 0] = [];
    let result = merge_store_probes_with_errors(stores, probes, &none);
    assert(none.deep_view() =~= Seq::<Seq<char>>::empty());
    result
}

/// Merges per-store probe maps and marks store failures as indeterminate.
pub fn merge_store_probes_with_errors(
    stores: &[&str],
    probes: &[SortedMap<bool>],
    failed_stores: &[&str],
) -> (result: SortedMap<ProbeResult>)
    ensures
        result.deep_view() == verdicts_with_errors(
            asked(probes.deep_view()),
            paired(stores.deep_view(), probes.deep_view()),
            failed_stores.deep_view(),
        ),
{
    let ghost maps = probes.deep_view();
    let mut outputs = SortedSet::new();
    assert(maps.take(0) =~= Seq::empty());
    for i in 0..probes.len()
        invariant
            maps == probes.deep_view(),
            outputs@ == asked(maps.take(i as int)),
    {
        let ghost before = outputs@;
        let names = probes[i].keys();
        assert(maps.take(i + 1).drop_last() =~= maps.take(i as int));
        assert(maps.take(i + 1).last() == maps[i as int]);
        assert(maps[i as int].dom() =~= probes@[i as int]@.dom());
        let count = probes[i].len();
        assert(before.union(names.deep_view().take(0).to_set()) =~= before);
        for j in 0..names.len()
            invariant
                outputs@ == before.union(names.deep_view().take(j as int).to_set()),
        {
            outputs.insert(names[j].clone());
            proof {
                lemma_to_set_push(names.deep_view(), j as int);
                assert(outputs@ =~= before.union(names.deep_view().take(j + 1).to_set()));
            }
        }
        assert(names.deep_view().take(names.len() as int) =~= names.deep_view());
        assert(outputs@ =~= asked(maps.take(i + 1)));
    }
    assert(maps.take(probes.len() as int) =~= maps);
    let ghost pairs = paired(stores.deep_view(), maps);
    let ghost failed = failed_stores.deep_view();
    let mut result: SortedMap<ProbeResult> = SortedMap::new();
    let count = outputs.len();
    let ghost order = outputs.order();
    let mut i: usize = 0;
    assert(result.deep_view() =~= verdicts_with_errors(order.take(0).to_set(), pairs, failed));
    while i < count
        invariant
            maps == probes.deep_view(),
            pairs == paired(stores.deep_view(), maps),
            failed == failed_stores.deep_view(),
            order == outputs.order(),
            count == order.len(),
            i <= count,
            result.deep_view() == verdicts_with_errors(
                order.take(i as int).to_set(),
                pairs,
                failed,
            ),
        decreases count - i,
    {
        let output = outputs.item_at(i);
        let ghost before = result.deep_view();
        let decided = hand_verdict(output.as_str(), stores, probes, failed_stores);
        result.insert(output.clone(), decided);
        proof {
            lemma_to_set_push(order, i as int);
            assert(result.deep_view() =~= before.insert(output@, decided@));
            assert(result.deep_view() =~= verdicts_with_errors(
                order.take(i + 1).to_set(),
                pairs,
                failed,
            ));
        }
        i += 1;
    }
    assert(order.take(count as int) =~= order);
    result
}

fn hand_verdict(
    output: &str,
    stores: &[&str],
    probes: &[SortedMap<bool>],
    failed_stores: &[&str],
) -> (result: ProbeResult)
    ensures
        result@ == verdict_with_errors(
            output@,
            paired(stores.deep_view(), probes.deep_view()),
            failed_stores.deep_view(),
        ),
{
    let ghost pairs = paired(stores.deep_view(), probes.deep_view());
    let count = if stores.len() < probes.len() {
        stores.len()
    } else {
        probes.len()
    };
    assert(pairs.skip(0) =~= pairs);
    for i in 0..count
        invariant
            pairs == paired(stores.deep_view(), probes.deep_view()),
            count == pairs.len(),
            count <= stores.len(),
            count <= probes.len(),
            first_store_with(pairs, output@) == first_store_with(pairs.skip(i as int), output@),
    {
        assert(pairs[i as int].0 == stores@[i as int]@);
        assert(pairs[i as int].1 == Some(probes@[i as int].deep_view()));
        assert(probes@[i as int].deep_view() =~= probes@[i as int]@);
        assert(pairs.skip(i as int)[0] == pairs[i as int]);
        assert(pairs.skip(i as int).drop_first() =~= pairs.skip(i + 1));
        if let Some(present) = probes[i].get(output) {
            if *present {
                return ProbeResult::Present { substituter: stores[i].to_owned() };
            }
        }
    }
    if failed_stores.len() == 0 {
        ProbeResult::Missing
    } else {
        let mut errors: Vec<String> = Vec::new();
        for i in 0..failed_stores.len()
            invariant
                errors.deep_view() == failed_stores.deep_view().take(i as int),
        {
            let ghost done = errors.deep_view();
            text::add_item(&mut errors, failed_stores[i].to_owned());
            assert(failed_stores.deep_view()[i as int] == failed_stores@[i as int]@);
            assert(errors.deep_view() =~= failed_stores.deep_view().take(i + 1));
        }
        assert(failed_stores.deep_view().take(failed_stores.len() as int)
            =~= failed_stores.deep_view());
        ProbeResult::Indeterminate { errors }
    }
}

/// The first store that has one of the outputs.
pub open spec fn first_known_store(
    outputs: Seq<Seq<char>>,
    availability: Map<Seq<char>, ProbeView>,
) -> Option<Seq<char>>
    decreases outputs.len(),
{
    if outputs.len() == 0 {
        None
    } else {
        match lookup(availability, outputs[0]) {
            Some(ProbeView::Present { substituter }) => Some(substituter),
            _ => first_known_store(outputs.drop_first(), availability),
        }
    }
}

/// The stores whose failure left some of the outputs undecided.
pub open spec fn known_errors(
    outputs: Seq<Seq<char>>,
    availability: Map<Seq<char>, ProbeView>,
) -> Seq<Seq<char>>
    decreases outputs.len(),
{
    if outputs.len() == 0 {
        Seq::empty()
    } else {
        match lookup(availability, outputs.last()) {
            Some(ProbeView::Indeterminate { errors }) => known_errors(
                outputs.drop_last(),
                availability,
            ) + errors,
            _ => known_errors(outputs.drop_last(), availability),
        }
    }
}

/// The probe result of a derivation, given what is known of its outputs.
pub open spec fn known_probe(
    hint: Option<HintView>,
    outputs: Seq<Seq<char>>,
    availability: Map<Seq<char>, ProbeView>,
) -> ProbeView {
    if hint is Some && hint->0.skip_probe {
        ProbeView::SkippedKnownLocal
    } else if outputs.len() > 0 && forall|i: int|
        0 <= i < outputs.len() ==> lookup(availability, #[trigger] outputs[i]) == Some(
            ProbeView::LocalPresent,
        ) {
        ProbeView::LocalPresent
    } else {
        match first_known_store(outputs, availability) {
            Some(substituter) => ProbeView::Present { substituter },
            None => {
                let errors = known_errors(outputs, availability);
                if errors.len() > 0 {
                    ProbeView::Indeterminate { errors }
                } else {
                    ProbeView::Missing
                }
            },
        }
    }
}

/// Combines per-output probe answers into one derivation-level result.
pub fn derive_probe_result(
    key: &str,
    hint_drvs: &SortedMap<RouteHintSpec>,
    outputs: &[String],
    availability: &SortedMap<ProbeResult>,
) -> (result: ProbeResult)
    ensures
        result@ == known_probe(
            lookup(hint_drvs.deep_view(), key@),
            outputs.deep_view(),
            availability.deep_view(),
        ),
{
    if let Some(hint) = hint_drvs.get(key) {
        if hint.skip_probe {
            return ProbeResult::SkippedKnownLocal;
        }
    }
    let ghost all = outputs.deep_view();
    let ghost known = availability.deep_view();
    let mut errors: Vec<String> = Vec::new();
    let mut present: Option<String> = None;
    let mut all_local = outputs.len() > 0;
    assert(all.skip(0) =~= all);
    assert(all.take(0) =~= Seq::empty());
    for i in 0..outputs.len()
        invariant
            all == outputs.deep_view(),
            known == availability.deep_view(),
            errors.deep_view() == known_errors(all.take(i as int), known),
            match present {
                Some(store) => first_known_store(all, known) == Some(store@),
                None => first_known_store(all, known) == first_known_store(
                    all.skip(i as int),
                    known,
                ),
            },
            all_local == (outputs.len() > 0 && forall|k: int|
                0 <= k < i ==> lookup(known, #[trigger] all[k]) == Some(ProbeView::LocalPresent)),
    {
        assert(all[i as int] == outputs@[i as int]@);
        assert(all.take(i + 1).drop_last() =~= all.take(i as int));
        assert(all.take(i + 1).last() == all[i as int]);
        assert(all.skip(i as int)[0] == all[i as int]);
        assert(all.skip(i as int).drop_first() =~= all.skip(i + 1));
        match availability.get(outputs[i].as_str()) {
            Some(ProbeResult::Present { substituter }) => {
                all_local = false;
                if present.is_none() {
                    present = Some(substituter.clone());
                }
            },
            Some(ProbeResult::LocalPresent) => {},
            Some(ProbeResult::Indeterminate { errors: more }) => {
                all_local = false;
                let copy = text::copy_list(more.as_slice());
                text::extend(&mut errors, copy);
            },
            Some(ProbeResult::Missing) | Some(ProbeResult::SkippedKnownLocal) => {
                all_local = false;
            },
            None => {
                all_local = false;
            },
        }
    }
    assert(all.take(outputs.len() as int) =~= all);
    if all_local {
        return ProbeResult::LocalPresent;
    }
    if let Some(substituter) = present {
        return ProbeResult::Present { substituter };
    }
    if errors.len() > 0 {
        return ProbeResult::Indeterminate { errors };
    }
    ProbeResult::Missing
}

// ---------------------------------------------------------------------------
// Laws
// ---------------------------------------------------------------------------

/// The first store that says it has an output is where it is; what other stores
/// say makes no difference.
pub proof fn law_the_first_store_that_has_an_output_counts(
    output: Seq<char>,
    stores: Seq<StoreView>,
    local_failed: bool,
    i: int,
)
    requires
        0 <= i < stores.len(),
        stores[i].1 matches Some(answers) && answers.contains_key(output) && answers[output],
        forall|k: int|
            0 <= k < i ==> !((#[trigger] stores[k]).1 matches Some(answers) && answers.contains_key(
                output,
            ) && answers[output]),
    ensures
        verdict(output, stores, local_failed) == (ProbeView::Present { substituter: stores[i].0 }),
{
    lemma_first_store(stores, output);
    assert(confirms(stores[i], output));
    assert forall|k: int| 0 <= k < i implies !confirms(#[trigger] stores[k], output) by {
    }
    let found = first_store_with(stores, output);
    if found is None {
        assert(!confirms(stores[i], output));
    } else {
        let k = choose|k: int|
            0 <= k < stores.len() && (#[trigger] stores[k]).0 == found->0 && confirms(
                stores[k],
                output,
            ) && forall|h: int| 0 <= h < k ==> !confirms(#[trigger] stores[h], output);
        if k < i {
            assert(!confirms(stores[k], output));
        }
        if i < k {
            assert(!confirms(stores[i], output));
        }
    }
}

/// An output that no store says it has is missing if all of them answered, and
/// undecided otherwise: then the stores that did not answer are named, the local
/// one first and the others in their order.
pub proof fn law_unanswered_stores_leave_an_output_undecided(
    output: Seq<char>,
    stores: Seq<StoreView>,
    local_failed: bool,
)
    requires
        forall|k: int|
            0 <= k < stores.len() ==> !((#[trigger] stores[k]).1 matches Some(answers)
                && answers.contains_key(output) && answers[output]),
    ensures
        ({
            let failed = stores.filter(|store: StoreView| store.1 is None).map_values(
                |store: StoreView| store.0,
            );
            let named = if local_failed {
                seq!["daemon"@] + failed
            } else {
                failed
            };
            verdict(output, stores, local_failed) == if named.len() == 0 {
                ProbeView::Missing
            } else {
                ProbeView::Indeterminate { errors: named }
            }
        }),
{
    lemma_first_store(stores, output);
    lemma_failed_are_filtered(stores);
    if first_store_with(stores, output) is Some {
        let i = choose|i: int| 0 <= i < stores.len() && confirms(#[trigger] stores[i], output);
        assert(confirms(stores[i], output));
    }
}

proof fn lemma_failed_are_filtered(stores: Seq<StoreView>)
    ensures
        failed_stores(stores) == stores.filter(|store: StoreView| store.1 is None).map_values(
            |store: StoreView| store.0,
        ),
    decreases stores.len(),
{
    reveal(Seq::filter);
    let failed = |store: StoreView| store.1 is None;
    let name = |store: StoreView| store.0;
    if stores.len() == 0 {
        assert(stores.filter(failed).map_values(name) =~= Seq::empty());
    } else {
        let rest = stores.drop_last();
        lemma_failed_are_filtered(rest);
        if failed(stores.last()) {
            assert(rest.filter(failed).push(stores.last()).map_values(name) =~= rest.filter(
                failed,
            ).map_values(name).push(name(stores.last())));
        }
    }
}

/// Each output that was asked for has its verdict, and nothing else has one.
pub proof fn law_every_asked_output_has_a_verdict(
    outputs: Set<Seq<char>>,
    stores: Seq<StoreView>,
    local_failed: bool,
    output: Seq<char>,
)
    ensures
        verdicts(outputs, stores, local_failed).contains_key(output) <==> outputs.contains(output),
        outputs.contains(output) ==> verdicts(outputs, stores, local_failed)[output] == verdict(
            output,
            stores,
            local_failed,
        ),
{
}

/// The substituters are asked for exactly those outputs that the local store did
/// not say it has, in order; for all of them where it did not answer.
pub proof fn law_only_local_misses_are_asked_for(
    outputs: Seq<Seq<char>>,
    local: Option<Map<Seq<char>, bool>>,
    output: Seq<char>,
)
    ensures
        not_local(outputs, None) == outputs,
        not_local(outputs.push(output), local) == if local matches Some(answers)
            && answers.contains_key(output) && answers[output] {
            not_local(outputs, local)
        } else {
            not_local(outputs, local).push(output)
        },
        not_local(Seq::empty(), local) == Seq::<Seq<char>>::empty(),
    decreases outputs.len(),
{
    reveal(Seq::filter);
    assert(outputs.push(output).drop_last() =~= outputs);
    if outputs.len() > 0 {
        law_only_local_misses_are_asked_for(outputs.drop_last(), local, output);
        assert(outputs.drop_last().push(outputs.last()) =~= outputs);
    }
}

/// What the local store has is present, unless the substituters were asked for
/// it; what they were asked for is what they make of it.
pub proof fn law_local_hits_are_present(
    local: Option<Map<Seq<char>, bool>>,
    pending: Seq<Seq<char>>,
    stores: Seq<StoreView>,
    output: Seq<char>,
)
    ensures
        availability_of(local, pending, stores).contains_key(output) <==> pending.contains(output)
            || (local matches Some(answers) && answers.contains_key(output) && answers[output]),
        pending.contains(output) ==> availability_of(local, pending, stores)[output] == verdict(
            output,
            stores,
            local is None,
        ),
        !pending.contains(output) && (local matches Some(answers) && answers.contains_key(output)
            && answers[output]) ==> availability_of(local, pending, stores)[output]
            == ProbeView::LocalPresent,
{
    assert(pending.to_set().contains(output) == pending.contains(output));
}

/// Stores that are named twice are asked once, where they were first named.
pub proof fn law_stores_are_asked_once(items: Seq<Seq<char>>, item: Seq<char>)
    ensures
        distinct(items).no_duplicates(),
        distinct(items).to_set() == items.to_set(),
        distinct(items.push(item)) == if items.contains(item) {
            distinct(items)
        } else {
            distinct(items).push(item)
        },
    decreases items.len(),
{
    assert(items.push(item).drop_last() =~= items);
    if items.len() > 0 {
        let rest = items.drop_last();
        law_stores_are_asked_once(rest, items.last());
        assert(rest.push(items.last()) =~= items);
    }
    assert forall|t: Seq<char>| distinct(items).contains(t) == items.contains(t) by {
        if items.len() > 0 {
            let rest = items.drop_last();
            let earlier = distinct(rest);
            assert(earlier.to_set().contains(t) == rest.to_set().contains(t));
            if items.contains(t) {
                let i = items.index_of(t);
                if i < rest.len() {
                    assert(rest[i] == t);
                    assert(earlier.contains(t));
                    let k = earlier.index_of(t);
                    assert(distinct(items)[k] == t);
                } else if !earlier.contains(t) {
                    assert(distinct(items)[earlier.len() as int] == t);
                }
            }
            if distinct(items).contains(t) {
                let k = distinct(items).index_of(t);
                if k < earlier.len() {
                    assert(earlier[k] == t);
                    assert(rest.contains(t));
                    let i = rest.index_of(t);
                    assert(items[i] == t);
                } else {
                    assert(items[items.len() - 1] == t);
                }
            }
        }
    }
    assert(distinct(items).to_set() =~= items.to_set());
}

/// The probe of the action was left undecided by the store.
pub open spec fn undecided_by(action: ActionView, store: Seq<char>) -> bool {
    action.probe matches ProbeView::Indeterminate { errors } && errors.contains(store)
}

/// What stands for the outputs of a derivation. An incomplete probe of any of
/// them does, naming all stores that did not answer, each once and in order;
/// then a miss of any; then all of them being local, or all known to be; and
/// otherwise the store of the first that a store has.
pub proof fn law_one_probe_stands_for_a_derivation(actions: Seq<ActionView>)
    ensures
        forall|i: int, store: Seq<char>|
            0 <= i < actions.len() && #[trigger] undecided_by(actions[i], store) ==> (
            summary_probe(actions) matches ProbeView::Indeterminate { errors } && is_ascending(
                errors,
            ) && errors.contains(store)),
        summary_probe(actions) matches ProbeView::Indeterminate { errors } ==> errors == seq![
            "no output actions"@,
        ] || forall|store: Seq<char>| #[trigger]
            errors.contains(store) ==> exists|i: int|
                0 <= i < actions.len() && undecided_by(#[trigger] actions[i], store),
        forall|i: int|
            0 <= i < actions.len() && !(summary_probe(actions) is Indeterminate) && (
            #[trigger] actions[i]).probe is Missing ==> summary_probe(actions) is Missing,
        summary_probe(actions) is Missing ==> exists|i: int|
            0 <= i < actions.len() && (#[trigger] actions[i]).probe is Missing,
        summary_probe(actions) is LocalPresent <==> forall|i: int|
            0 <= i < actions.len() ==> (#[trigger] actions[i]).probe is LocalPresent,
        actions.len() > 0 ==> (summary_probe(actions) is SkippedKnownLocal <==> forall|i: int|
            0 <= i < actions.len() ==> (#[trigger] actions[i]).probe is SkippedKnownLocal),
        summary_probe(actions) matches ProbeView::Present { substituter } ==> exists|i: int|
            0 <= i < actions.len() && (#[trigger] actions[i]).probe == (ProbeView::Present {
                substituter,
            }) && forall|k: int| 0 <= k < i ==> !((#[trigger] actions[k]).probe is Present),
{
    lemma_probe_errors(actions);
    lemma_first_hit(actions);
    let errors = probe_errors(actions);
    let named = ascending(errors);
    crate::sorted::lemma_ascending_exists(errors);
    assert forall|store: Seq<char>| #[trigger] named.contains(store) == errors.contains(store) by {
        assert(named.to_set().contains(store) == errors.contains(store));
    }
    if named.len() > 0 {
        assert(named.contains(named[0]));
        let i = choose|i: int|
            0 <= i < actions.len() && undecided_by(#[trigger] actions[i], named[0]);
        assert(actions[i].probe is Indeterminate);
    }
    assert forall|i: int, store: Seq<char>|
        0 <= i < actions.len() && #[trigger] undecided_by(actions[i], store) implies (
    summary_probe(actions) matches ProbeView::Indeterminate { errors } && is_ascending(errors)
        && errors.contains(store)) by {
        assert(errors.contains(store));
        assert(named.contains(store));
    }
    if actions.len() > 0 {
        assert(actions[0].probe is LocalPresent || !(actions[0].probe is LocalPresent));
    }
}

proof fn lemma_probe_errors(actions: Seq<ActionView>)
    ensures
        probe_errors(actions).finite(),
        forall|store: Seq<char>| #[trigger]
            probe_errors(actions).contains(store) <==> exists|i: int|
                0 <= i < actions.len() && undecided_by(#[trigger] actions[i], store),
    decreases actions.len(),
{
    if actions.len() > 0 {
        let rest = actions.drop_last();
        lemma_probe_errors(rest);
        let last = actions.last();
        assert(actions[actions.len() - 1] == last);
        if let ProbeView::Indeterminate { errors } = last.probe {
            vstd::seq_lib::seq_to_set_is_finite(errors);
        }
        assert forall|store: Seq<char>| #[trigger] probe_errors(actions).contains(store) == (exists|
            i: int,
        |
            0 <= i < actions.len() && undecided_by(#[trigger] actions[i], store)) by {
            if probe_errors(rest).contains(store) {
                let i = choose|i: int|
                    0 <= i < rest.len() && undecided_by(#[trigger] rest[i], store);
                assert(actions[i] == rest[i]);
            }
            if exists|i: int| 0 <= i < actions.len() && undecided_by(#[trigger] actions[i], store) {
                let i = choose|i: int|
                    0 <= i < actions.len() && undecided_by(#[trigger] actions[i], store);
                if i < rest.len() {
                    assert(rest[i] == actions[i]);
                }
            }
        }
    }
}

proof fn lemma_first_hit(actions: Seq<ActionView>)
    ensures
        match first_hit(actions) {
            Some(substituter) => exists|i: int|
                0 <= i < actions.len() && (#[trigger] actions[i]).probe == (ProbeView::Present {
                    substituter,
                }) && forall|k: int| 0 <= k < i ==> !((#[trigger] actions[k]).probe is Present),
            None => forall|i: int|
                0 <= i < actions.len() ==> !((#[trigger] actions[i]).probe is Present),
        },
    decreases actions.len(),
{
    if actions.len() > 0 {
        if let ProbeView::Present { substituter } = actions[0].probe {
            assert(actions[0].probe == (ProbeView::Present { substituter }));
        } else {
            let rest = actions.drop_first();
            lemma_first_hit(rest);
            match first_hit(rest) {
                Some(substituter) => {
                    let i = choose|i: int|
                        0 <= i < rest.len() && (#[trigger] rest[i]).probe == (ProbeView::Present {
                            substituter,
                        }) && forall|k: int|
                            0 <= k < i ==> !((#[trigger] rest[k]).probe is Present);
                    assert(actions[i + 1] == rest[i]);
                    assert forall|k: int| 0 <= k < i + 1 implies !((
                    #[trigger] actions[k]).probe is Present) by {
                        if k > 0 {
                            assert(rest[k - 1] == actions[k]);
                        }
                    }
                },
                None => {
                    assert forall|i: int| 0 <= i < actions.len() implies !((
                    #[trigger] actions[i]).probe is Present) by {
                        if i > 0 {
                            assert(rest[i - 1] == actions[i]);
                        }
                    }
                },
            }
        }
    }
}

/// What is known of a derivation from its outputs. A hint that says not to look
/// is obeyed. All outputs being local makes it local. Otherwise the first output
/// that a store has decides; without any, one that is undecided makes it
/// undecided, and else it is missing.
pub proof fn law_known_outputs_decide_a_derivation(
    hint: Option<HintView>,
    outputs: Seq<Seq<char>>,
    availability: Map<Seq<char>, ProbeView>,
)
    ensures
        hint matches Some(spec) && spec.skip_probe ==> known_probe(hint, outputs, availability)
            is SkippedKnownLocal,
        !(hint matches Some(spec) && spec.skip_probe) ==> {
            let probe = known_probe(hint, outputs, availability);
            let local = outputs.len() > 0 && forall|i: int|
                0 <= i < outputs.len() ==> availability.contains_key(#[trigger] outputs[i])
                    && availability[outputs[i]] is LocalPresent;
            &&& probe is LocalPresent <==> local
            &&& !(probe is SkippedKnownLocal)
            &&& forall|i: int|
                0 <= i < outputs.len() && availability.contains_key(#[trigger] outputs[i])
                    && availability[outputs[i]] is Present && (forall|k: int|
                    0 <= k < i ==> !(availability.contains_key(#[trigger] outputs[k])
                        && availability[outputs[k]] is Present)) ==> probe == availability[outputs[i]]
            &&& probe is Missing <==> !local && forall|i: int|
                0 <= i < outputs.len() ==> !(availability.contains_key(#[trigger] outputs[i]) && (
                availability[outputs[i]] is Present || (availability[outputs[i]] is Indeterminate
                    && availability[outputs[i]]->errors.len() > 0)))
        },
{
    lemma_known_store(outputs, availability);
    lemma_known_errors(outputs, availability);
    assert forall|i: int| 0 <= i < outputs.len() implies (lookup(
        availability,
        #[trigger] outputs[i],
    ) == Some(ProbeView::LocalPresent) <==> availability.contains_key(outputs[i])
        && availability[outputs[i]] is LocalPresent) by {
    }
    if !(hint matches Some(spec) && spec.skip_probe) {
        let probe = known_probe(hint, outputs, availability);
        assert forall|i: int|
            0 <= i < outputs.len() && availability.contains_key(#[trigger] outputs[i])
                && availability[outputs[i]] is Present && (forall|k: int|
                0 <= k < i ==> !(availability.contains_key(#[trigger] outputs[k])
                    && availability[outputs[k]] is Present)) implies probe
            == availability[outputs[i]] by {
            assert(lookup(availability, outputs[i]) != Some(ProbeView::LocalPresent));
            let found = first_known_store(outputs, availability);
            let k = choose|k: int|
                0 <= k < outputs.len() && availability.contains_key(#[trigger] outputs[k])
                    && availability[outputs[k]] == (ProbeView::Present { substituter: found->0 })
                    && forall|h: int|
                    0 <= h < k ==> !(availability.contains_key(#[trigger] outputs[h])
                        && availability[outputs[h]] is Present);
            assert(k == i);
        }
    }
}

proof fn lemma_known_store(outputs: Seq<Seq<char>>, availability: Map<Seq<char>, ProbeView>)
    ensures
        match first_known_store(outputs, availability) {
            Some(substituter) => exists|i: int|
                0 <= i < outputs.len() && availability.contains_key(#[trigger] outputs[i])
                    && availability[outputs[i]] == (ProbeView::Present { substituter }) && forall|
                    k: int,
                |
                    0 <= k < i ==> !(availability.contains_key(#[trigger] outputs[k])
                        && availability[outputs[k]] is Present),
            None => forall|i: int|
                0 <= i < outputs.len() ==> !(availability.contains_key(#[trigger] outputs[i])
                    && availability[outputs[i]] is Present),
        },
    decreases outputs.len(),
{
    if outputs.len() > 0 {
        let rest = outputs.drop_first();
        if let Some(ProbeView::Present { substituter }) = lookup(availability, outputs[0]) {
            assert(availability[outputs[0]] == (ProbeView::Present { substituter }));
        } else {
            lemma_known_store(rest, availability);
            match first_known_store(rest, availability) {
                Some(substituter) => {
                    let i = choose|i: int|
                        0 <= i < rest.len() && availability.contains_key(#[trigger] rest[i])
                            && availability[rest[i]] == (ProbeView::Present { substituter })
                            && forall|k: int|
                            0 <= k < i ==> !(availability.contains_key(#[trigger] rest[k])
                                && availability[rest[k]] is Present);
                    assert(outputs[i + 1] == rest[i]);
                    assert forall|k: int| 0 <= k < i + 1 implies !(availability.contains_key(
                        #[trigger] outputs[k],
                    ) && availability[outputs[k]] is Present) by {
                        if k > 0 {
                            assert(rest[k - 1] == outputs[k]);
                        }
                    }
                },
                None => {
                    assert forall|i: int| 0 <= i < outputs.len() implies !(
                    availability.contains_key(#[trigger] outputs[i])
                        && availability[outputs[i]] is Present) by {
                        if i > 0 {
                            assert(rest[i - 1] == outputs[i]);
                        }
                    }
                },
            }
        }
    }
}

proof fn lemma_known_errors(outputs: Seq<Seq<char>>, availability: Map<Seq<char>, ProbeView>)
    ensures
        known_errors(outputs, availability).len() == 0 <==> forall|i: int|
            0 <= i < outputs.len() ==> !(availability.contains_key(#[trigger] outputs[i])
                && availability[outputs[i]] is Indeterminate
                && availability[outputs[i]]->errors.len() > 0),
    decreases outputs.len(),
{
    if outputs.len() > 0 {
        let rest = outputs.drop_last();
        lemma_known_errors(rest, availability);
        let last = outputs[outputs.len() - 1];
        assert(outputs.last() == last);
        if known_errors(rest, availability).len() > 0 {
            let i = choose|i: int|
                0 <= i < rest.len() && availability.contains_key(#[trigger] rest[i])
                    && availability[rest[i]] is Indeterminate
                    && availability[rest[i]]->errors.len() > 0;
            assert(outputs[i] == rest[i]);
        } else if known_errors(outputs, availability).len() == 0 {
            assert forall|i: int| 0 <= i < outputs.len() implies !(availability.contains_key(
                #[trigger] outputs[i],
            ) && availability[outputs[i]] is Indeterminate
                && availability[outputs[i]]->errors.len() > 0) by {
                if i < rest.len() {
                    assert(rest[i] == outputs[i]);
                }
            }
        } else {
            assert(availability[outputs[outputs.len() - 1]] is Indeterminate);
        }
    }
}

/// A derivation is undecided by every store that left one of its outputs
/// undecided, in the order of the outputs.
pub proof fn law_undecided_outputs_name_their_stores(
    outputs: Seq<Seq<char>>,
    output: Seq<char>,
    availability: Map<Seq<char>, ProbeView>,
)
    ensures
        known_errors(Seq::empty(), availability) == Seq::<Seq<char>>::empty(),
        known_errors(outputs.push(output), availability) == if availability.contains_key(output)
            && availability[output] is Indeterminate {
            known_errors(outputs, availability) + availability[output]->errors
        } else {
            known_errors(outputs, availability)
        },
        known_probe(None, outputs, availability) matches ProbeView::Indeterminate { errors }
            ==> errors == known_errors(outputs, availability),
{
    assert(outputs.push(output).drop_last() =~= outputs);
}

/// A store that answered said exactly what it answered, and one whose probe
/// failed said nothing: a failure is never an empty answer.
pub proof fn law_failed_probes_say_nothing(
    store: String,
    answers: SortedMap<bool>,
    error: crate::error::Error,
    probes: Seq<(String, Result<SortedMap<bool>>)>,
    i: int,
)
    ensures
        reported(Ok(answers)) == Some(answers@),
        reported(Err(error)) is None,
        answer_of((store, Ok(answers))) == (store@, Some(answers@)),
        answer_of((store, Err(error))) == (store@, None::<Map<Seq<char>, bool>>),
        answers_of(probes).len() == probes.len(),
        0 <= i < probes.len() ==> answers_of(probes)[i] == answer_of(probes[i]),
{
}

/// Each answer belongs to the store at its place. An output is in the merged
/// probes if and only if some answer names it. It is present in the first store
/// that has it. Where none has it, it is a miss if no store failed, and is left
/// undecided by exactly the stores that failed otherwise.
pub proof fn law_answers_belong_to_their_stores(
    stores: Seq<Seq<char>>,
    probes: Seq<Map<Seq<char>, bool>>,
    failed: Seq<Seq<char>>,
    output: Seq<char>,
    i: int,
)
    requires
        stores.len() == probes.len(),
    ensures
        ({
            let merged = verdicts_with_errors(asked(probes), paired(stores, probes), failed);
            &&& merged.contains_key(output) <==> exists|k: int|
                0 <= k < probes.len() && (#[trigger] probes[k]).contains_key(output)
            &&& 0 <= i < probes.len() && probes[i].contains_key(output) && probes[i][output] && (
            forall|k: int|
                0 <= k < i ==> !((#[trigger] probes[k]).contains_key(output) && probes[k][output]))
                ==> merged.contains_key(output) && merged[output] == (ProbeView::Present {
                substituter: stores[i],
            })
            &&& merged.contains_key(output) && (forall|k: int|
                0 <= k < probes.len() ==> !((#[trigger] probes[k]).contains_key(output)
                    && probes[k][output])) ==> merged[output] == if failed.len() == 0 {
                ProbeView::Missing
            } else {
                ProbeView::Indeterminate { errors: failed }
            }
        }),
{
    let all = paired(stores, probes);
    lemma_asked(probes, output);
    lemma_first_store(all, output);
    assert forall|k: int| 0 <= k < all.len() implies confirms(#[trigger] all[k], output) == (
    probes[k].contains_key(output) && probes[k][output]) by {
    }
    if 0 <= i < probes.len() && probes[i].contains_key(output) && probes[i][output] && (forall|
        k: int,
    |
        0 <= k < i ==> !((#[trigger] probes[k]).contains_key(output) && probes[k][output])) {
        assert forall|k: int|
            0 <= k < i implies !((#[trigger] all[k]).1 matches Some(answers)
            && answers.contains_key(output) && answers[output]) by {
            assert(!(probes[k].contains_key(output) && probes[k][output]));
        }
        law_the_first_store_that_has_an_output_counts(output, all, false, i);
        assert(first_store_with(all, output) == Some(stores[i])) by {
            assert(verdict(output, all, false) == (ProbeView::Present { substituter: stores[i] }));
        }
    }
    if first_store_with(all, output) is Some {
        let k = choose|k: int| 0 <= k < all.len() && confirms(#[trigger] all[k], output);
        assert(probes[k].contains_key(output) && probes[k][output]);
    }
}

proof fn lemma_asked(probes: Seq<Map<Seq<char>, bool>>, output: Seq<char>)
    ensures
        asked(probes).contains(output) <==> exists|k: int|
            0 <= k < probes.len() && (#[trigger] probes[k]).contains_key(output),
    decreases probes.len(),
{
    if probes.len() > 0 {
        let rest = probes.drop_last();
        lemma_asked(rest, output);
        assert(probes[probes.len() - 1] == probes.last());
        if asked(rest).contains(output) {
            let k = choose|k: int| 0 <= k < rest.len() && (#[trigger] rest[k]).contains_key(output);
            assert(probes[k] == rest[k]);
        }
        if exists|k: int| 0 <= k < probes.len() && (#[trigger] probes[k]).contains_key(output) {
            let k = choose|k: int|
                0 <= k < probes.len() && (#[trigger] probes[k]).contains_key(output);
            if k < rest.len() {
                assert(rest[k] == probes[k]);
            }
        }
    }
}

} // verus!
