//! Output paths: which are still unknown, how they become known, and which of
//! them have to be probed.

use vstd::prelude::*;

use crate::error::{outcome, Error, ErrorView, Result};
use crate::planner::frontier::{Outputs, Paths};
use crate::planner::graph::{
    derivation_key, full_path, key_of, store_path, DerivationGraph, EntryView, NodeView,
    OutputEntry, OutputPaths,
};
use crate::planner::plan::{HintView, ProbeResult, ProbeView, RouteHintSpec};
use crate::policy::{policy_flags, realization_nix_flags, PolicyView, RealizationPolicy};
use crate::sorted::{ascending, lookup, SortedMap, SortedSet};
use crate::text;

verus! {

/// Model of one output: its derivation key and its name.
pub type OutputRef = (Seq<char>, Seq<char>);

// ---------------------------------------------------------------------------
// Unknown derivations and outputs
// ---------------------------------------------------------------------------

/// The required derivations that the graph lacks, in order.
pub open spec fn missing_keys(required: Outputs, graph: Map<Seq<char>, NodeView>) -> Seq<Seq<char>> {
    ascending(required.dom()).filter(|key: Seq<char>| !graph.contains_key(key))
}

/// The required derivations that the graph lacks.
pub fn missing_derivations(required: &SortedMap<SortedSet>, graph: &DerivationGraph) -> (result: Vec<
    String,
>)
    ensures
        result.deep_view() == missing_keys(required.deep_view(), graph@),
{
    let ghost order = required.order();
    let ghost lacks = |key: Seq<char>| !graph@.contains_key(key);
    assert(required.deep_view().dom() =~= required@.dom());
    let mut missing: Vec<String> = Vec::new();
    let count = required.len();
    let mut i: usize = 0;
    reveal(Seq::filter);
    assert(order.take(0).filter(lacks) =~= Seq::empty());
    while i < count
        invariant
            order == required.order(),
            count == order.len(),
            i <= count,
            lacks == (|key: Seq<char>| !graph@.contains_key(key)),
            missing.deep_view() == order.take(i as int).filter(lacks),
        decreases count - i,
    {
        reveal(Seq::filter);
        let key = required.key_at(i);
        assert(order.take(i + 1).drop_last() =~= order.take(i as int));
        assert(order.take(i + 1).last() == key@);
        let known = graph.derivations.contains_key(key.as_str());
        assert(lacks(key@) == !known);
        if !known {
            text::add_item(&mut missing, key.clone());
        }
        i += 1;
    }
    assert(order.take(count as int) =~= order);
    missing
}

/// The required outputs of the derivations `keys`, in order.
pub open spec fn outputs_in(required: Outputs, keys: Seq<Seq<char>>) -> Seq<OutputRef>
    decreases keys.len(),
{
    if keys.len() == 0 {
        Seq::empty()
    } else {
        outputs_in(required, keys.drop_last()) + ascending(required[keys.last()]).map_values(
            |name: Seq<char>| (keys.last(), name),
        )
    }
}

/// The required outputs whose path is not known, in order.
pub open spec fn unresolved(required: Outputs, paths: Paths) -> Seq<OutputRef> {
    outputs_in(required, ascending(required.dom())).filter(
        |output: OutputRef| !paths.contains_key(output),
    )
}

/// The required outputs whose path is not known.
pub fn unresolved_outputs(
    required: &SortedMap<SortedSet>,
    output_paths: &OutputPaths,
) -> (result: Vec<(String, String)>)
    ensures
        result.deep_view() == unresolved(required.deep_view(), output_paths@),
{
    let ghost all = required.deep_view();
    let ghost order = required.order();
    let ghost lacks = |output: OutputRef| !output_paths@.contains_key(output);
    assert(all.dom() =~= required@.dom());
    let mut out: Vec<(String, String)> = Vec::new();
    let count = required.len();
    let mut i: usize = 0;
    proof {
        reveal(Seq::filter);
        assert(order.take(0) =~= Seq::empty());
        assert(outputs_in(all, order.take(0)).filter(lacks) =~= Seq::empty());
        assert(out.deep_view() =~= Seq::empty());
    }
    while i < count
        invariant
            all == required.deep_view(),
            order == required.order(),
            count == order.len(),
            i <= count,
            lacks == (|output: OutputRef| !output_paths@.contains_key(output)),
            out.deep_view() == outputs_in(all, order.take(i as int)).filter(lacks),
        decreases count - i,
    {
        let key = required.key_at(i);
        let names = required.value_at(i);
        let ghost inner = names.order();
        let ghost earlier = outputs_in(all, order.take(i as int));
        let ghost row = inner.map_values(|name: Seq<char>| (key@, name));
        let width = names.len();
        let mut j: usize = 0;
        assert(earlier + row.take(0) =~= earlier);
        while j < width
            invariant
                inner == names.order(),
                width == inner.len(),
                j <= width,
                lacks == (|output: OutputRef| !output_paths@.contains_key(output)),
                row == inner.map_values(|name: Seq<char>| (key@, name)),
                out.deep_view() == (earlier + row.take(j as int)).filter(lacks),
            decreases width - j,
        {
            reveal(Seq::filter);
            let name = names.item_at(j);
            let ghost before = out.deep_view();
            let ghost upto = earlier + row.take(j + 1);
            assert(upto.drop_last() =~= earlier + row.take(j as int));
            assert(upto.last() == (key@, name@));
            let known = output_paths.contains(key.as_str(), name.as_str());
            assert(lacks((key@, name@)) == !known);
            if !known {
                out.push((key.clone(), name.clone()));
                assert(out.deep_view() =~= before.push((key@, name@)));
            }
            j += 1;
        }
        proof {
            assert(row.take(width as int) =~= row);
            assert(order.take(i + 1).drop_last() =~= order.take(i as int));
            assert(order.take(i + 1).last() == key@);
            assert(all[key@] == names@);
            assert(outputs_in(all, order.take(i + 1)) =~= earlier + row);
        }
        i += 1;
    }
    assert(order.take(count as int) =~= order);
    out
}

// ---------------------------------------------------------------------------
// Resolution
// ---------------------------------------------------------------------------

/// The installable that names one output of a derivation.
pub open spec fn output_spec(output: OutputRef) -> Seq<char> {
    full_path(output.0) + "^"@ + output.1
}

/// Sorts outputs into those whose path the graph gives, added to `known`, and
/// those that have to be asked for, added to `pending`.
pub open spec fn sorted_out(
    graph: Map<Seq<char>, NodeView>,
    outputs: Seq<OutputRef>,
    known: Paths,
    pending: Seq<Seq<char>>,
) -> std::result::Result<(Paths, Seq<Seq<char>>), ErrorView>
    decreases outputs.len(),
{
    if outputs.len() == 0 {
        Ok((known, pending))
    } else {
        let (key, name) = outputs[0];
        if !graph.contains_key(key) {
            Err(ErrorView::PlannerMissingDerivation { drv: full_path(key) })
        } else {
            match lookup(graph[key].outputs, name) {
                None => Err(
                    ErrorView::PlannerMissingOutput { drv: full_path(key), output: name },
                ),
                Some(Some(path)) => sorted_out(
                    graph,
                    outputs.drop_first(),
                    known.insert((key, name), full_path(path)),
                    pending,
                ),
                Some(None) => sorted_out(
                    graph,
                    outputs.drop_first(),
                    known,
                    pending.push(output_spec((key, name))),
                ),
            }
        }
    }
}

/// Outputs whose path the graph gives, and installables of the others.
#[derive(Debug, Clone, PartialEq, Eq)]
pub struct Resolution {
    /// Paths that the graph gives.
    pub resolved: OutputPaths,
    /// Installables of the outputs whose path has to be asked for.
    pub pending: Vec<String>,
}

impl View for Resolution {
    type V = (Paths, Seq<Seq<char>>);

    open spec fn view(&self) -> (Paths, Seq<Seq<char>>) {
        (self.resolved@, self.pending.deep_view())
    }
}

impl DeepView for Resolution {
    type V = (Paths, Seq<Seq<char>>);

    open spec fn deep_view(&self) -> (Paths, Seq<Seq<char>>) {
        self@
    }
}

/// Looks up the paths of outputs in the graph.
pub fn resolve_output_paths(graph: &DerivationGraph, outputs: &[(String, String)]) -> (result: Result<
    Resolution,
>)
    ensures
        outcome(result) == sorted_out(graph@, outputs.deep_view(), Map::empty(), Seq::empty()),
{
    let ghost all = outputs.deep_view();
    let ghost expected = sorted_out(graph@, all, Map::empty(), Seq::empty());
    let mut resolved = OutputPaths::new();
    let mut pending: Vec<String> = Vec::new();
    assert(all.skip(0) =~= all);
    assert(pending.deep_view() =~= Seq::empty());
    for i in 0..outputs.len()
        invariant
            all == outputs.deep_view(),
            expected == sorted_out(graph@, all, Map::empty(), Seq::empty()),
            expected == sorted_out(graph@, all.skip(i as int), resolved@, pending.deep_view()),
    {
        let key = &outputs[i].0;
        let name = &outputs[i].1;
        assert(all.skip(i as int)[0] == (key@, name@));
        assert(all.skip(i as int).drop_first() =~= all.skip(i + 1));
        let node = match graph.derivations.get(key.as_str()) {
            Some(node) => node,
            None => {
                return Err(Error::PlannerMissingDerivation { drv: store_path(key.as_str()) });
            },
        };
        assert(graph@.contains_key(key@) && graph@[key@] == node@);
        let output = match node.outputs.get(name.as_str()) {
            Some(output) => output,
            None => {
                return Err(
                    Error::PlannerMissingOutput {
                        drv: store_path(key.as_str()),
                        output: name.clone(),
                    },
                );
            },
        };
        assert(lookup(node@.outputs, name@) == Some(output@));
        match &output.path {
            Some(path) => {
                resolved.insert(key.as_str(), name.as_str(), store_path(path.as_str()));
            },
            None => {
                let installable = store_path(key.as_str()).concat("^").concat(name.as_str());
                text::add_item(&mut pending, installable);
            },
        }
    }
    assert(all.skip(outputs.len() as int) =~= Seq::empty());
    Ok(Resolution { resolved, pending })
}

/// The paths that one reported entry gives.
pub open spec fn entry_paths(entry: EntryView) -> Paths {
    Map::new(
        |output: OutputRef|
            output.0 == key_of(entry.drv_path) && entry.outputs.contains_key(output.1),
        |output: OutputRef| full_path(entry.outputs[output.1]),
    )
}

/// The known paths once reported entries are taken over; later ones win.
pub open spec fn with_entries(known: Paths, entries: Seq<EntryView>) -> Paths
    decreases entries.len(),
{
    if entries.len() == 0 {
        known
    } else {
        with_entries(known, entries.drop_last()).union_prefer_right(entry_paths(entries.last()))
    }
}

/// Takes over the paths of reported entries.
pub fn record_entries(resolved: &mut OutputPaths, entries: &[OutputEntry])
    ensures
        final(resolved)@ == with_entries(old(resolved)@, entries.deep_view()),
{
    let ghost all = entries.deep_view();
    let ghost known = resolved@;
    assert(all.take(0) =~= Seq::empty());
    for i in 0..entries.len()
        invariant
            all == entries.deep_view(),
            resolved@ == with_entries(known, all.take(i as int)),
    {
        assert(all[i as int] == entries@[i as int]@);
        assert(all.take(i + 1).drop_last() =~= all.take(i as int));
        assert(all.take(i + 1).last() == all[i as int]);
        record_entry(resolved, &entries[i]);
    }
    assert(all.take(entries.len() as int) =~= all);
}

fn record_entry(resolved: &mut OutputPaths, entry: &OutputEntry)
    ensures
        final(resolved)@ == old(resolved)@.union_prefer_right(entry_paths(entry@)),
{
    let ghost known = resolved@;
    let ghost given = entry_paths(entry@);
    let key = derivation_key(entry.drv_path.as_str());
    let count = entry.outputs.len();
    let ghost order = entry.outputs.order();
    let mut i: usize = 0;
    while i < count
        invariant
            order == entry.outputs.order(),
            count == order.len(),
            i <= count,
            key@ == key_of(entry@.drv_path),
            given == entry_paths(entry@),
            forall|output: OutputRef| #[trigger]
                resolved@.contains_key(output) <==> known.contains_key(output) || (output.0 == key@
                    && order.take(i as int).contains(output.1)),
            forall|output: OutputRef| #[trigger]
                resolved@.contains_key(output) ==> resolved@[output] == if output.0 == key@
                    && order.take(i as int).contains(output.1) {
                    given[output]
                } else {
                    known[output]
                },
        decreases count - i,
    {
        let name = entry.outputs.key_at(i);
        let path = entry.outputs.value_at(i);
        let ghost before = resolved@;
        let full = store_path(path.as_str());
        resolved.insert(key.as_str(), name.as_str(), full);
        proof {
            let done = order.take(i as int);
            let upto = order.take(i + 1);
            assert(upto =~= done.push(name@));
            assert forall|t: Seq<char>| #[trigger] upto.contains(t) == (done.contains(t) || t
                == name@) by {
                if done.contains(t) {
                    assert(upto[done.index_of(t)] == t);
                }
                assert(upto[i as int] == name@);
                if upto.contains(t) && t != name@ {
                    assert(done[upto.index_of(t)] == t);
                }
            }
            assert(entry@.outputs.contains_key(name@) && entry@.outputs[name@] == path@);
            assert(given[(key@, name@)] == full@);
        }
        i += 1;
    }
    proof {
        assert(order.take(count as int) =~= order);
        assert forall|name: Seq<char>| order.contains(name) == entry@.outputs.contains_key(
            name,
        ) by {
            assert(order.to_set().contains(name) == entry.outputs@.contains_key(name));
        }
        assert(resolved@ =~= known.union_prefer_right(given));
    }
}

/// The first output whose path is still unknown is an error.
pub open spec fn all_known(outputs: Seq<OutputRef>, paths: Paths) -> std::result::Result<
    (),
    ErrorView,
>
    decreases outputs.len(),
{
    if outputs.len() == 0 {
        Ok(())
    } else if !paths.contains_key(outputs[0]) {
        Err(
            ErrorView::PlannerMissingOutput { drv: full_path(outputs[0].0), output: outputs[0].1 },
        )
    } else {
        all_known(outputs.drop_first(), paths)
    }
}

/// Checks that the path of every output is known.
pub fn check_resolved(outputs: &[(String, String)], resolved: &OutputPaths) -> (result: Result<()>)
    ensures
        outcome(result) == all_known(outputs.deep_view(), resolved@),
{
    let ghost all = outputs.deep_view();
    assert(all.skip(0) =~= all);
    for i in 0..outputs.len()
        invariant
            all == outputs.deep_view(),
            all_known(all, resolved@) == all_known(all.skip(i as int), resolved@),
    {
        let key = &outputs[i].0;
        let name = &outputs[i].1;
        assert(all.skip(i as int)[0] == (key@, name@));
        assert(all.skip(i as int).drop_first() =~= all.skip(i + 1));
        if !resolved.contains(key.as_str(), name.as_str()) {
            return Err(
                Error::PlannerMissingOutput {
                    drv: store_path(key.as_str()),
                    output: name.clone(),
                },
            );
        }
    }
    assert(all.skip(outputs.len() as int) =~= Seq::empty());
    Ok(())
}

/// The first derivation that a report lacks is an error.
pub open spec fn all_loaded(keys: Seq<Seq<char>>, graph: Map<Seq<char>, NodeView>) -> std::result::Result<
    (),
    ErrorView,
>
    decreases keys.len(),
{
    if keys.len() == 0 {
        Ok(())
    } else if !graph.contains_key(keys[0]) {
        Err(ErrorView::PlannerMissingDerivation { drv: full_path(keys[0]) })
    } else {
        all_loaded(keys.drop_first(), graph)
    }
}

/// Checks that a report holds every derivation that was asked for.
pub fn check_loaded(keys: &[String], graph: &DerivationGraph) -> (result: Result<()>)
    ensures
        outcome(result) == all_loaded(keys.deep_view(), graph@),
{
    let ghost all = keys.deep_view();
    assert(all.skip(0) =~= all);
    for i in 0..keys.len()
        invariant
            all == keys.deep_view(),
            all_loaded(all, graph@) == all_loaded(all.skip(i as int), graph@),
    {
        assert(all.skip(i as int)[0] == keys@[i as int]@);
        assert(all.skip(i as int).drop_first() =~= all.skip(i + 1));
        if !graph.derivations.contains_key(keys[i].as_str()) {
            return Err(Error::PlannerMissingDerivation { drv: store_path(keys[i].as_str()) });
        }
    }
    assert(all.skip(keys.len() as int) =~= Seq::empty());
    Ok(())
}

// ---------------------------------------------------------------------------
// Probing
// ---------------------------------------------------------------------------

/// The paths of known-local derivations, which are never probed.
pub open spec fn skipped_paths(hints: Map<Seq<char>, HintView>, paths: Paths) -> Set<Seq<char>> {
    Set::new(
        |path: Seq<char>|
            exists|key: Seq<char>, name: Seq<char>| #[trigger]
                paths.contains_key((key, name)) && paths[(key, name)] == path
                    && hints.contains_key(key) && hints[key].skip_probe,
    )
}

/// Output paths that a `skip_probe` hint removes from substituter probing.
pub fn hint_skip_probe_paths(
    hint_drvs: &SortedMap<RouteHintSpec>,
    output_paths: &OutputPaths,
) -> (result: SortedSet)
    ensures
        result@ == skipped_paths(hint_drvs.deep_view(), output_paths@),
{
    let ghost hints = hint_drvs.deep_view();
    let ghost paths = output_paths@;
    let mut skipped = SortedSet::new();
    let entries = output_paths.entries();
    for i in 0..entries.len()
        invariant
            hints == hint_drvs.deep_view(),
            paths == output_paths@,
            forall|k: int|
                0 <= k < entries.len() ==> paths.contains_pair(
                    ((#[trigger] entries@[k]).0@, entries@[k].1@),
                    entries@[k].2@,
                ),
            skipped@.subset_of(skipped_paths(hints, paths)),
            forall|k: int|
                0 <= k < i && hints.contains_key((#[trigger] entries@[k]).0@)
                    && hints[entries@[k].0@].skip_probe ==> skipped@.contains(entries@[k].2@),
    {
        let (key, name, path) = &entries[i];
        let skip = match hint_drvs.get(key.as_str()) {
            Some(hint) => hint.skip_probe,
            None => false,
        };
        let ghost before = skipped@;
        if skip {
            skipped.insert(path.clone());
            proof {
                assert(paths.contains_pair((entries@[i as int].0@, entries@[i as int].1@), path@));
                assert(paths.contains_key((key@, name@)) && paths[(key@, name@)] == path@);
                assert(skipped_paths(hints, paths).contains(path@));
            }
        }
    }
    proof {
        assert forall|path: Seq<char>| skipped_paths(hints, paths).contains(
            path,
        ) implies skipped@.contains(path) by {
            let (key, name) = choose|key: Seq<char>, name: Seq<char>| #[trigger]
                paths.contains_key((key, name)) && paths[(key, name)] == path
                    && hints.contains_key(key) && hints[key].skip_probe;
            assert(output_paths@.contains_key((key, name)));
            let k = choose|k: int|
                0 <= k < entries.len() && (#[trigger] entries@[k]).0@ == key && entries@[k].1@
                    == name;
            assert(paths.contains_pair((entries@[k].0@, entries@[k].1@), entries@[k].2@));
        }
        assert(skipped@ =~= skipped_paths(hints, paths));
    }
    skipped
}

/// The path belongs to a derivation that is not built into Nix itself.
pub open spec fn is_probable(
    graph: Map<Seq<char>, NodeView>,
    paths: Paths,
    path: Seq<char>,
) -> bool {
    exists|key: Seq<char>, name: Seq<char>| #[trigger]
        paths.contains_key((key, name)) && paths[(key, name)] == path && graph.contains_key(key)
            && graph[key].system != "builtin"@
}

/// The paths that have to be probed: those of which nothing is known, which
/// are neither built into Nix nor known to be local.
pub open spec fn unprobed(
    graph: Map<Seq<char>, NodeView>,
    hints: Map<Seq<char>, HintView>,
    paths: Paths,
    availability: Map<Seq<char>, ProbeView>,
) -> Set<Seq<char>> {
    Set::new(
        |path: Seq<char>|
            !availability.contains_key(path) && is_probable(graph, paths, path) && !skipped_paths(
                hints,
                paths,
            ).contains(path),
    )
}

/// The paths that have to be probed, in order.
pub fn outputs_to_probe(
    graph: &DerivationGraph,
    hint_drvs: &SortedMap<RouteHintSpec>,
    output_paths: &OutputPaths,
    availability: &SortedMap<ProbeResult>,
) -> (result: Vec<String>)
    ensures
        result.deep_view() == ascending(
            unprobed(graph@, hint_drvs.deep_view(), output_paths@, availability.deep_view()),
        ),
{
    let ghost nodes = graph@;
    let ghost hints = hint_drvs.deep_view();
    let ghost paths = output_paths@;
    let ghost known = availability.deep_view();
    let ghost wanted = unprobed(nodes, hints, paths, known);
    let skipped = hint_skip_probe_paths(hint_drvs, output_paths);
    let mut outputs = SortedSet::new();
    let entries = output_paths.entries();
    for i in 0..entries.len()
        invariant
            nodes == graph@,
            hints == hint_drvs.deep_view(),
            paths == output_paths@,
            known == availability.deep_view(),
            wanted == unprobed(nodes, hints, paths, known),
            skipped@ == skipped_paths(hints, paths),
            forall|k: int|
                0 <= k < entries.len() ==> paths.contains_pair(
                    ((#[trigger] entries@[k]).0@, entries@[k].1@),
                    entries@[k].2@,
                ),
            outputs@.subset_of(wanted),
            forall|k: int|
                0 <= k < i && nodes.contains_key((#[trigger] entries@[k]).0@)
                    && nodes[entries@[k].0@].system != "builtin"@ && wanted.contains(
                    entries@[k].2@,
                ) ==> outputs@.contains(entries@[k].2@),
    {
        let (key, name, path) = &entries[i];
        let probable = match graph.derivations.get(key.as_str()) {
            Some(node) => !text::same(node.system.as_str(), "builtin"),
            None => false,
        };
        if probable && !availability.contains_key(path.as_str()) && !skipped.contains(
            path.as_str(),
        ) {
            proof {
                assert(paths.contains_pair((entries@[i as int].0@, entries@[i as int].1@), path@));
                assert(paths.contains_key((key@, name@)) && paths[(key@, name@)] == path@);
                assert(is_probable(nodes, paths, path@));
                assert(wanted.contains(path@));
            }
            outputs.insert(path.clone());
        }
    }
    proof {
        assert forall|path: Seq<char>| wanted.contains(path) implies outputs@.contains(path) by {
            let (key, name) = choose|key: Seq<char>, name: Seq<char>| #[trigger]
                paths.contains_key((key, name)) && paths[(key, name)] == path
                    && nodes.contains_key(key) && nodes[key].system != "builtin"@;
            assert(output_paths@.contains_key((key, name)));
            let k = choose|k: int|
                0 <= k < entries.len() && (#[trigger] entries@[k]).0@ == key && entries@[k].1@
                    == name;
            assert(paths.contains_pair((entries@[k].0@, entries@[k].1@), entries@[k].2@));
        }
        assert(outputs@ =~= wanted);
    }
    outputs.to_list()
}

// ---------------------------------------------------------------------------
// Commands
// ---------------------------------------------------------------------------

/// The flags with which the planner runs Nix.
pub open spec fn planner_flags(substituters: Seq<Seq<char>>, policy: PolicyView) -> std::result::Result<
    Seq<Seq<char>>,
    ErrorView,
> {
    match policy_flags(policy) {
        Ok(flags) => Ok(
            flags + seq!["--option"@, "substituters"@, text::joined(substituters, " "@)],
        ),
        Err(error) => Err(error),
    }
}

/// The arguments of the dry run of some installables.
pub open spec fn dry_run_command(
    installables: Seq<Seq<char>>,
    substituters: Seq<Seq<char>>,
    policy: PolicyView,
) -> std::result::Result<Seq<Seq<char>>, ErrorView> {
    match planner_flags(substituters, policy) {
        Ok(flags) => Ok(
            seq!["build"@, "--dry-run"@, "--json"@, "--no-link"@] + installables + flags,
        ),
        Err(error) => Err(error),
    }
}

/// The arguments that show derivations.
pub open spec fn show_command(targets: Seq<Seq<char>>) -> Seq<Seq<char>> {
    seq!["derivation"@, "show"@, "--no-pretty"@] + targets
}

/// The flags with which the planner runs Nix.
pub fn planner_realization_flags(
    substituters: &[String],
    policy: &RealizationPolicy,
) -> (result: Result<Vec<String>>)
    ensures
        outcome(result) == planner_flags(substituters.deep_view(), policy@),
{
    match realization_nix_flags(policy) {
        Ok(mut flags) => {
            let more = vec![
                "--option".to_owned(),
                "substituters".to_owned(),
                text::join(substituters, " "),
            ];
            assert(more.deep_view() =~= seq![
                "--option"@,
                "substituters"@,
                text::joined(substituters.deep_view(), " "@),
            ]);
            text::extend(&mut flags, more);
            Ok(flags)
        },
        Err(error) => Err(error),
    }
}

/// The arguments of the dry run of some installables.
pub fn dry_run_args(
    installables: &[String],
    substituters: &[String],
    policy: &RealizationPolicy,
) -> (result: Result<Vec<String>>)
    ensures
        outcome(result) == dry_run_command(
            installables.deep_view(),
            substituters.deep_view(),
            policy@,
        ),
{
    let mut args = vec![
        "build".to_owned(),
        "--dry-run".to_owned(),
        "--json".to_owned(),
        "--no-link".to_owned(),
    ];
    assert(args.deep_view() =~= seq!["build"@, "--dry-run"@, "--json"@, "--no-link"@]);
    text::extend(&mut args, text::copy_list(installables));
    match planner_realization_flags(substituters, policy) {
        Ok(flags) => {
            text::extend(&mut args, flags);
            Ok(args)
        },
        Err(error) => Err(error),
    }
}

/// The arguments that show derivations.
pub fn show_args(targets: &[String]) -> (result: Vec<String>)
    ensures
        result.deep_view() == show_command(targets.deep_view()),
{
    let mut args = vec!["derivation".to_owned(), "show".to_owned(), "--no-pretty".to_owned()];
    assert(args.deep_view() =~= seq!["derivation"@, "show"@, "--no-pretty"@]);
    text::extend(&mut args, text::copy_list(targets));
    args
}

// ---------------------------------------------------------------------------
// Installables
// ---------------------------------------------------------------------------

/// The flake installable that owns a toplevel installable; empty when the
/// toplevel is not that of a NixOS configuration.
pub open spec fn owning_flake(toplevel: Seq<char>) -> Seq<char> {
    match text::split_first(toplevel, '#') {
        None => Seq::empty(),
        Some((source, fragment)) => match text::without_prefix(
            fragment,
            "nixosConfigurations."@,
        ) {
            None => Seq::empty(),
            Some(rest) => match text::without_suffix(rest, ".config.system.build.toplevel"@) {
                None => Seq::empty(),
                Some(configuration) => source + "#"@ + configuration,
            },
        },
    }
}

/// The flake installable that owns a toplevel installable.
pub fn flake_installable_for_toplevel(toplevel: &str) -> (result: String)
    ensures
        result@ == owning_flake(toplevel@),
{
    match text::split_once(toplevel, '#') {
        None => String::new(),
        Some((source, fragment)) => match text::strip_prefix(
            fragment.as_str(),
            "nixosConfigurations.",
        ) {
            None => String::new(),
            Some(rest) => match text::strip_suffix(
                rest.as_str(),
                ".config.system.build.toplevel",
            ) {
                None => String::new(),
                Some(configuration) => source.concat("#").concat(configuration.as_str()),
            },
        },
    }
}

/// The toplevel of a configuration is owned by exactly that configuration.
pub proof fn law_toplevel_names_its_flake(source: Seq<char>, configuration: Seq<char>)
    requires
        !source.contains('#'),
    ensures
        owning_flake(
            source + "#nixosConfigurations."@ + configuration + ".config.system.build.toplevel"@,
        ) == source + "#"@ + configuration,
{
    reveal_strlit("#nixosConfigurations.");
    reveal_strlit("nixosConfigurations.");
    reveal_strlit("#");
    let head = "#nixosConfigurations."@;
    let prefix = "nixosConfigurations."@;
    let tail = ".config.system.build.toplevel"@;
    let whole = source + head + configuration + tail;
    assert(head =~= seq!['#'] + prefix);
    assert(whole[source.len() as int] == '#');
    assert forall|i: int| 0 <= i < source.len() implies #[trigger] whole[i] != '#' by {
        assert(whole[i] == source[i]);
        assert(source.contains(source[i]));
    }
    text::lemma_first_index_is(whole, '#', source.len() as int);
    assert(whole.contains('#'));
    assert(whole.take(source.len() as int) =~= source);
    let fragment = prefix + configuration + tail;
    assert(whole.skip((source.len() + 1) as int) =~= fragment);
    assert(prefix.is_prefix_of(fragment));
    let rest = configuration + tail;
    assert(fragment.skip(prefix.len() as int) =~= rest);
    assert(tail.is_suffix_of(rest)) by {
        assert(rest.subrange(configuration.len() as int, rest.len() as int) =~= tail);
    }
    assert(rest.take(rest.len() - tail.len()) =~= configuration);
}

/// A text that is no toplevel of a configuration is owned by none.
pub proof fn law_other_texts_name_no_flake(toplevel: Seq<char>)
    requires
        owning_flake(toplevel).len() > 0,
    ensures
        exists|source: Seq<char>, configuration: Seq<char>|
            !source.contains('#') && toplevel == #[trigger] (source + "#nixosConfigurations."@
                + configuration) + ".config.system.build.toplevel"@,
{
    reveal_strlit("#nixosConfigurations.");
    reveal_strlit("nixosConfigurations.");
    let head = "#nixosConfigurations."@;
    let prefix = "nixosConfigurations."@;
    let tail = ".config.system.build.toplevel"@;
    assert(head =~= seq!['#'] + prefix);
    text::lemma_first_index(toplevel, '#');
    let at = text::first_index(toplevel, '#') as int;
    let source = toplevel.take(at);
    let fragment = toplevel.skip(at + 1);
    let rest = fragment.skip(prefix.len() as int);
    let configuration = rest.take(rest.len() - tail.len());
    assert(fragment =~= prefix + rest);
    assert(rest =~= configuration + tail) by {
        assert(rest.subrange(rest.len() - tail.len(), rest.len() as int) =~= tail);
    }
    assert(toplevel =~= source + seq!['#'] + fragment);
    assert(source + seq!['#'] + (prefix + (configuration + tail)) =~= source + head + configuration
        + tail);
    assert(!source.contains('#')) by {
        if source.contains('#') {
            let i = source.index_of('#');
            assert(toplevel[i] == '#');
        }
    }
    assert(toplevel == (source + head + configuration) + tail);
}

/// The derivations that are loaded are the required ones that are not known yet,
/// each once and in order.
pub proof fn law_unknown_derivations_are_loaded(
    required: Outputs,
    graph: Map<Seq<char>, NodeView>,
    key: Seq<char>,
)
    requires
        required.dom().finite(),
    ensures
        missing_keys(required, graph).contains(key) <==> required.contains_key(key)
            && !graph.contains_key(key),
        crate::sorted::is_ascending(missing_keys(required, graph)),
{
    let order = ascending(required.dom());
    let lacks = |key: Seq<char>| !graph.contains_key(key);
    crate::sorted::lemma_ascending_exists(required.dom());
    lemma_filter_ascends(order, lacks);
    assert(order.to_set().contains(key) == required.contains_key(key));
    if missing_keys(required, graph).contains(key) {
        let i = missing_keys(required, graph).index_of(key);
        order.lemma_filter_pred(lacks, i);
        order.lemma_filter_contains_rev(lacks, key);
    }
    if required.contains_key(key) && !graph.contains_key(key) {
        order.lemma_filter_contains(lacks, order.index_of(key));
    }
}

proof fn lemma_filter_ascends(texts: Seq<Seq<char>>, pred: spec_fn(Seq<char>) -> bool)
    requires
        crate::sorted::is_ascending(texts),
    ensures
        crate::sorted::is_ascending(texts.filter(pred)),
    decreases texts.len(),
{
    reveal(Seq::filter);
    if texts.len() > 0 {
        let rest = texts.drop_last();
        lemma_filter_ascends(rest, pred);
        let kept = rest.filter(pred);
        let last = texts[texts.len() - 1];
        assert forall|i: int| 0 <= i < kept.len() implies crate::sorted::precedes(
            #[trigger] kept[i],
            last,
        ) by {
            rest.lemma_filter_contains_rev(pred, kept[i]);
            let k = rest.index_of(kept[i]);
            assert(texts[k] == kept[i]);
        }
    }
}

/// The outputs that are resolved are the required ones without a path.
pub proof fn law_required_outputs_are_resolved(required: Outputs, paths: Paths, output: OutputRef)
    requires
        required.dom().finite(),
        forall|key: Seq<char>| #[trigger] required.contains_key(key) ==> required[key].finite(),
    ensures
        unresolved(required, paths).contains(output) <==> required.contains_key(output.0)
            && required[output.0].contains(output.1) && !paths.contains_key(output),
{
    let order = ascending(required.dom());
    let all = outputs_in(required, order);
    let lacks = |output: OutputRef| !paths.contains_key(output);
    crate::sorted::lemma_ascending_exists(required.dom());
    assert forall|i: int| 0 <= i < order.len() implies required.contains_key(
        #[trigger] order[i],
    ) by {
        assert(order.to_set().contains(order[i]));
    }
    lemma_outputs_in(required, order, output);
    assert(order.to_set().contains(output.0) == required.contains_key(output.0));
    if unresolved(required, paths).contains(output) {
        let i = unresolved(required, paths).index_of(output);
        all.lemma_filter_pred(lacks, i);
        all.lemma_filter_contains_rev(lacks, output);
    }
    if all.contains(output) && !paths.contains_key(output) {
        all.lemma_filter_contains(lacks, all.index_of(output));
    }
}

proof fn lemma_outputs_in(required: Outputs, keys: Seq<Seq<char>>, output: OutputRef)
    requires
        forall|i: int|
            0 <= i < keys.len() ==> required.contains_key(#[trigger] keys[i])
                && required[keys[i]].finite(),
    ensures
        outputs_in(required, keys).contains(output) <==> keys.contains(output.0)
            && required[output.0].contains(output.1),
    decreases keys.len(),
{
    if keys.len() > 0 {
        let rest = keys.drop_last();
        let last = keys.last();
        assert(keys[keys.len() - 1] == last);
        assert forall|i: int| 0 <= i < rest.len() implies required.contains_key(#[trigger] rest[i])
            && required[rest[i]].finite() by {
            assert(rest[i] == keys[i]);
        }
        lemma_outputs_in(required, rest, output);
        let names = ascending(required[last]);
        crate::sorted::lemma_ascending_exists(required[last]);
        let own = names.map_values(|name: Seq<char>| (last, name));
        let earlier = outputs_in(required, rest);
        let all = outputs_in(required, keys);
        if all.contains(output) {
            let i = all.index_of(output);
            if i < earlier.len() {
                assert(earlier[i] == output);
                let k = rest.index_of(output.0);
                assert(keys[k] == output.0);
            } else {
                assert(own[i - earlier.len()] == output);
                assert(names.to_set().contains(names[i - earlier.len()]));
            }
        }
        if keys.contains(output.0) && required[output.0].contains(output.1) {
            let k = keys.index_of(output.0);
            if output.0 == last {
                assert(names.to_set().contains(output.1));
                let i = names.index_of(output.1);
                assert(own[i] == output);
                assert(all[earlier.len() + i] == output);
            } else {
                assert(rest[k] == output.0);
                let i = earlier.index_of(output);
                assert(all[i] == output);
            }
        }
    }
}

/// What the graph says of some outputs: each has to be of a known derivation that
/// has it. Those whose path is known get it; the others have to be asked for, in
/// order. The first that is not there is the error.
pub proof fn law_outputs_are_sorted_out(
    graph: Map<Seq<char>, NodeView>,
    outputs: Seq<OutputRef>,
    i: int,
)
    requires
        0 <= i < outputs.len(),
        forall|k: int|
            0 <= k < i ==> graph.contains_key((#[trigger] outputs[k]).0)
                && graph[outputs[k].0].outputs.contains_key(outputs[k].1),
    ensures
        ({
            let result = sorted_out(graph, outputs, Map::empty(), Seq::empty());
            let (key, name) = outputs[i];
            &&& !graph.contains_key(key) ==> result == Err::<(Paths, Seq<Seq<char>>), ErrorView>(
                ErrorView::PlannerMissingDerivation { drv: full_path(key) },
            )
            &&& graph.contains_key(key) && !graph[key].outputs.contains_key(name) ==> result
                == Err::<(Paths, Seq<Seq<char>>), ErrorView>(
                ErrorView::PlannerMissingOutput { drv: full_path(key), output: name },
            )
            &&& result matches Ok((known, pending)) ==> match graph[key].outputs[name] {
                Some(path) => known.contains_key((key, name)) && known[(key, name)] == full_path(
                    path,
                ),
                None => pending.contains(full_path(key).push('^') + name),
            }
        }),
{
    lemma_sorted_out_at(graph, outputs, Map::empty(), Seq::empty(), i);
}

proof fn lemma_sorted_out_at(
    graph: Map<Seq<char>, NodeView>,
    outputs: Seq<OutputRef>,
    known: Paths,
    pending: Seq<Seq<char>>,
    i: int,
)
    requires
        0 <= i < outputs.len(),
        forall|k: int|
            0 <= k < i ==> graph.contains_key((#[trigger] outputs[k]).0)
                && graph[outputs[k].0].outputs.contains_key(outputs[k].1),
    ensures
        ({
            let result = sorted_out(graph, outputs, known, pending);
            let (key, name) = outputs[i];
            &&& !graph.contains_key(key) ==> result == Err::<(Paths, Seq<Seq<char>>), ErrorView>(
                ErrorView::PlannerMissingDerivation { drv: full_path(key) },
            )
            &&& graph.contains_key(key) && !graph[key].outputs.contains_key(name) ==> result
                == Err::<(Paths, Seq<Seq<char>>), ErrorView>(
                ErrorView::PlannerMissingOutput { drv: full_path(key), output: name },
            )
            &&& result matches Ok((found, asked)) ==> match graph[key].outputs[name] {
                Some(path) => found.contains_key((key, name)) && found[(key, name)] == full_path(
                    path,
                ),
                None => asked.contains(full_path(key).push('^') + name),
            }
        }),
    decreases i,
{
    reveal_strlit("^");
    assert("^"@ =~= seq!['^']);
    let (key, name) = outputs[0];
    let rest = outputs.drop_first();
    assert(output_spec((key, name)) =~= full_path(key).push('^') + name);
    if graph.contains_key(key) && graph[key].outputs.contains_key(name) {
        let (more, asked) = match graph[key].outputs[name] {
            Some(path) => (known.insert((key, name), full_path(path)), pending),
            None => (known, pending.push(output_spec((key, name)))),
        };
        if i > 0 {
            assert forall|k: int| 0 <= k < i - 1 implies graph.contains_key((
            #[trigger] rest[k]).0) && graph[rest[k].0].outputs.contains_key(rest[k].1) by {
                assert(rest[k] == outputs[k + 1]);
            }
            assert(rest[i - 1] == outputs[i]);
            lemma_sorted_out_at(graph, rest, more, asked, i - 1);
        } else {
            assert(asked.len() > 0 ==> asked.last() == asked[asked.len() - 1]);
            lemma_sorted_out_grows(graph, rest, more, asked);
            if graph[key].outputs[name] is None {
                assert(asked[pending.len() as int] == output_spec((key, name)));
                if let Ok((_, last)) = sorted_out(graph, rest, more, asked) {
                    assert(last[pending.len() as int] == asked[pending.len() as int]);
                }
            } else {
                let path = graph[key].outputs[name]->0;
                assert(agrees_on(graph, more, (key, name), full_path(path)));
            }
        }
    } else if i > 0 {
        assert(graph.contains_key(outputs[0].0));
    }
}

/// The output has the path, and so has its derivation.
pub open spec fn agrees_on(
    graph: Map<Seq<char>, NodeView>,
    known: Paths,
    output: OutputRef,
    path: Seq<char>,
) -> bool {
    &&& known.contains_key(output)
    &&& known[output] == path
    &&& graph.contains_key(output.0)
    &&& graph[output.0].outputs.contains_key(output.1)
    &&& graph[output.0].outputs[output.1] matches Some(own) && full_path(own) == path
}

proof fn lemma_sorted_out_grows(
    graph: Map<Seq<char>, NodeView>,
    outputs: Seq<OutputRef>,
    known: Paths,
    pending: Seq<Seq<char>>,
)
    ensures
        sorted_out(graph, outputs, known, pending) matches Ok((found, asked)) ==> {
            &&& pending.is_prefix_of(asked)
            &&& forall|output: OutputRef, path: Seq<char>| #[trigger]
                agrees_on(graph, known, output, path) ==> found.contains_key(output)
                    && found[output] == path
        },
    decreases outputs.len(),
{
    if outputs.len() > 0 {
        let (key, name) = outputs[0];
        let rest = outputs.drop_first();
        if graph.contains_key(key) && graph[key].outputs.contains_key(name) {
            let (more, asked) = match graph[key].outputs[name] {
                Some(path) => (known.insert((key, name), full_path(path)), pending),
                None => (known, pending.push(output_spec((key, name)))),
            };
            lemma_sorted_out_grows(graph, rest, more, asked);
            assert forall|output: OutputRef, path: Seq<char>| #[trigger]
                agrees_on(graph, known, output, path) implies agrees_on(
                graph,
                more,
                output,
                path,
            ) by {
            }
        }
    }
}

/// What Nix reports of an output is its path, under the full store path, and a
/// later report counts before an earlier one.
pub proof fn law_reported_paths_are_known(
    known: Paths,
    entries: Seq<EntryView>,
    entry: EntryView,
    output: OutputRef,
)
    ensures
        with_entries(known, Seq::empty()) == known,
        ({
            let before = with_entries(known, entries);
            let after = with_entries(known, entries.push(entry));
            if output.0 == key_of(entry.drv_path) && entry.outputs.contains_key(output.1) {
                after.contains_key(output) && after[output] == full_path(entry.outputs[output.1])
            } else {
                after.contains_key(output) == before.contains_key(output) && (before.contains_key(
                    output,
                ) ==> after[output] == before[output])
            }
        }),
{
    assert(entries.push(entry).drop_last() =~= entries);
}

/// Outputs are complete if and only if every one has a path; the first that has
/// none is the error.
pub proof fn law_the_first_unknown_output_is_the_error(
    outputs: Seq<OutputRef>,
    paths: Paths,
    i: int,
)
    requires
        0 <= i <= outputs.len(),
        forall|k: int| 0 <= k < i ==> paths.contains_key(#[trigger] outputs[k]),
    ensures
        i == outputs.len() ==> all_known(outputs, paths) is Ok,
        i < outputs.len() && !paths.contains_key(outputs[i]) ==> all_known(outputs, paths)
            == Err::<(), ErrorView>(
            ErrorView::PlannerMissingOutput { drv: full_path(outputs[i].0), output: outputs[i].1 },
        ),
    decreases i,
{
    if i > 0 {
        let rest = outputs.drop_first();
        assert forall|k: int| 0 <= k < i - 1 implies paths.contains_key(#[trigger] rest[k]) by {
            assert(rest[k] == outputs[k + 1]);
        }
        assert(paths.contains_key(outputs[0]));
        law_the_first_unknown_output_is_the_error(rest, paths, i - 1);
    }
}

/// A report is complete if and only if it holds every derivation that was asked
/// for; the first that it lacks is the error.
pub proof fn law_the_first_missing_derivation_is_the_error(
    keys: Seq<Seq<char>>,
    graph: Map<Seq<char>, NodeView>,
    i: int,
)
    requires
        0 <= i <= keys.len(),
        forall|k: int| 0 <= k < i ==> graph.contains_key(#[trigger] keys[k]),
    ensures
        i == keys.len() ==> all_loaded(keys, graph) is Ok,
        i < keys.len() && !graph.contains_key(keys[i]) ==> all_loaded(keys, graph) == Err::<
            (),
            ErrorView,
        >(ErrorView::PlannerMissingDerivation { drv: full_path(keys[i]) }),
    decreases i,
{
    if i > 0 {
        let rest = keys.drop_first();
        assert forall|k: int| 0 <= k < i - 1 implies graph.contains_key(#[trigger] rest[k]) by {
            assert(rest[k] == keys[k + 1]);
        }
        assert(graph.contains_key(keys[0]));
        law_the_first_missing_derivation_is_the_error(rest, graph, i - 1);
    }
}

/// A path is looked for if and only if nothing is known of it yet, it belongs to
/// a derivation that is not built into Nix, and it belongs to none that a hint
/// says not to look for.
pub proof fn law_unknown_paths_are_looked_for(
    graph: Map<Seq<char>, NodeView>,
    hints: Map<Seq<char>, HintView>,
    paths: Paths,
    availability: Map<Seq<char>, ProbeView>,
    path: Seq<char>,
)
    ensures
        unprobed(graph, hints, paths, availability).contains(path) <==> {
            &&& !availability.contains_key(path)
            &&& exists|key: Seq<char>, name: Seq<char>| #[trigger]
                paths.contains_key((key, name)) && paths[(key, name)] == path
                    && graph.contains_key(key) && graph[key].system != "builtin"@
            &&& forall|key: Seq<char>, name: Seq<char>| #[trigger]
                paths.contains_key((key, name)) && paths[(key, name)] == path
                    && hints.contains_key(key) ==> !hints[key].skip_probe
        },
        skipped_paths(hints, paths).contains(path) <==> exists|key: Seq<char>, name: Seq<char>|
         #[trigger]
            paths.contains_key((key, name)) && paths[(key, name)] == path && hints.contains_key(key)
                && hints[key].skip_probe,
{
}

/// Nix is asked what it would build of the installables, all of them, under the
/// flags of the policy and with exactly the given substituters. It is not asked
/// where the policy is refused.
pub proof fn law_dry_runs_use_the_given_substituters(
    installables: Seq<Seq<char>>,
    substituters: Seq<Seq<char>>,
    policy: PolicyView,
)
    ensures
        match policy_flags(policy) {
            Err(error) => dry_run_command(installables, substituters, policy) == Err::<
                Seq<Seq<char>>,
                ErrorView,
            >(error) && planner_flags(substituters, policy) == Err::<Seq<Seq<char>>, ErrorView>(
                error,
            ),
            Ok(flags) => {
                let own = flags + seq![
                    "--option"@,
                    "substituters"@,
                    text::joined(substituters, seq![' ']),
                ];
                &&& planner_flags(substituters, policy) == Ok::<Seq<Seq<char>>, ErrorView>(own)
                &&& dry_run_command(installables, substituters, policy) == Ok::<
                    Seq<Seq<char>>,
                    ErrorView,
                >(seq!["build"@, "--dry-run"@, "--json"@, "--no-link"@] + installables + own)
            },
        },
{
    reveal_strlit(" ");
    assert(" "@ =~= seq![' ']);
}

/// Nix is asked to show all targets, and nothing else.
pub proof fn law_all_targets_are_shown(targets: Seq<Seq<char>>)
    ensures
        show_command(targets) == seq!["derivation"@, "show"@, "--no-pretty"@] + targets,
{
}

} // verus!
