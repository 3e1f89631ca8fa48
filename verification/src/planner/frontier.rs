//! The realization frontier: which outputs a plan has to deal with.

use vstd::prelude::*;

use crate::error::{outcome, Error, ErrorView, Result};
use crate::planner::graph::{
    derivation_key, full_path, key_of, store_path, DerivationGraph, DerivationNode, NodeView,
    OutputPaths,
};
use crate::planner::plan::{ProbeResult, ProbeView};
use crate::sorted::{
    add_key, add_member, ascending, is_ascending, lemma_ascending_distinct,
    lemma_ascending_exists, members_of, SortedMap, SortedSet,
};
use crate::text;

verus! {

/// Model of requested outputs: names by derivation key.
pub type Outputs = Map<Seq<char>, Set<Seq<char>>>;

/// Model of [`OutputPaths`]: paths by derivation key and output name.
pub type Paths = Map<(Seq<char>, Seq<char>), Seq<char>>;

// ---------------------------------------------------------------------------
// Expansion
// ---------------------------------------------------------------------------

/// Requested outputs once every input of a derivation is requested too.
pub open spec fn plus_inputs(base: Outputs, inputs: Map<Seq<char>, Seq<Seq<char>>>) -> Outputs {
    Map::new(
        |drv: Seq<char>|
            base.contains_key(drv) || exists|input: Seq<char>| #[trigger]
                inputs.contains_key(input) && key_of(input) == drv,
        |drv: Seq<char>|
            members_of(base, drv).union(
                Set::new(
                    |name: Seq<char>|
                        exists|input: Seq<char>| #[trigger]
                            inputs.contains_key(input) && key_of(input) == drv
                                && inputs[input].contains(name),
                ),
            ),
    )
}

/// What one round of expansion works on.
#[verifier::ext_equal]
pub struct Round {
    /// The known derivations.
    pub graph: Map<Seq<char>, NodeView>,
    /// The outputs that have to be realized.
    pub required: Outputs,
    /// The outputs that have entered the frontier.
    pub frontier: Outputs,
    /// The known output paths.
    pub paths: Paths,
    /// The probe result of each path.
    pub availability: Map<Seq<char>, ProbeView>,
}

impl Round {
    /// The outputs of `key` that enter the frontier: the required ones that have
    /// not entered before.
    pub open spec fn entering(self, key: Seq<char>) -> Set<Seq<char>> {
        members_of(self.required, key).difference(members_of(self.frontier, key))
    }

    /// Some output of `key` enters the frontier.
    pub open spec fn enters(self, key: Seq<char>) -> bool {
        exists|name: Seq<char>| #[trigger] self.entering(key).contains(name)
    }

    /// The output is in a substituter or in the local store.
    pub open spec fn is_available(self, key: Seq<char>, name: Seq<char>) -> bool {
        &&& self.paths.contains_key((key, name))
        &&& self.availability.contains_key(self.paths[(key, name)])
        &&& self.availability[self.paths[(key, name)]].is_available()
    }

    /// Nothing has to be built for the required outputs of `key`, so its
    /// inputs do not matter.
    pub open spec fn is_leaf(self, key: Seq<char>) -> bool {
        &&& self.graph[key].system != "builtin"@
        &&& members_of(self.required, key) != Set::<Seq<char>>::empty()
        &&& forall|name: Seq<char>| #[trigger]
            members_of(self.required, key).contains(name) ==> self.is_available(key, name)
    }

    /// The derivation enters the frontier and its inputs become required.
    pub open spec fn opens(self, key: Seq<char>) -> bool {
        self.enters(key) && self.graph.contains_key(key) && !self.is_leaf(key)
    }

    /// The derivation enters the frontier although nothing is known of it.
    pub open spec fn blocks(self, key: Seq<char>) -> bool {
        self.enters(key) && !self.graph.contains_key(key)
    }

    /// The frontier once the derivations `done` have entered.
    pub open spec fn frontier_after(self, done: Set<Seq<char>>) -> Outputs {
        Map::new(
            |key: Seq<char>| self.frontier.contains_key(key) || done.contains(key),
            |key: Seq<char>|
                if done.contains(key) {
                    members_of(self.frontier, key).union(self.entering(key))
                } else {
                    members_of(self.frontier, key)
                },
        )
    }

    /// Some derivation of `done` takes something from `drv`.
    pub open spec fn demanded(self, done: Set<Seq<char>>, drv: Seq<char>) -> bool {
        exists|key: Seq<char>, input: Seq<char>|
            done.contains(key) && self.opens(key) && #[trigger] self.graph[key].inputs.contains_key(
                input,
            ) && key_of(input) == drv
    }

    /// Some derivation of `done` takes output `name` of `drv`.
    pub open spec fn demanded_name(
        self,
        done: Set<Seq<char>>,
        drv: Seq<char>,
        name: Seq<char>,
    ) -> bool {
        exists|key: Seq<char>, input: Seq<char>|
            done.contains(key) && self.opens(key) && #[trigger] self.graph[key].inputs.contains_key(
                input,
            ) && key_of(input) == drv && self.graph[key].inputs[input].contains(name)
    }

    /// The required outputs once the derivations `done` have entered.
    pub open spec fn required_after(self, done: Set<Seq<char>>) -> Outputs {
        Map::new(
            |drv: Seq<char>| self.required.contains_key(drv) || self.demanded(done, drv),
            |drv: Seq<char>|
                members_of(self.required, drv).union(
                    Set::new(|name: Seq<char>| self.demanded_name(done, drv, name)),
                ),
        )
    }

    /// The required derivations in order.
    pub open spec fn keys(self) -> Seq<Seq<char>> {
        ascending(self.required.dom())
    }

    /// The place of the first derivation that nothing is known of; the number
    /// of derivations when there is none.
    pub open spec fn blocked_at(self, from: nat) -> nat
        decreases self.keys().len() - from,
    {
        if from >= self.keys().len() || self.blocks(self.keys()[from as int]) {
            from
        } else {
            self.blocked_at(from + 1)
        }
    }

    /// Whether anything entered the frontier, or which derivation is unknown.
    pub open spec fn verdict(self) -> std::result::Result<bool, ErrorView> {
        let at = self.blocked_at(0);
        if at < self.keys().len() {
            Err(
                ErrorView::PlannerMissingDerivation { drv: full_path(self.keys()[at as int]) },
            )
        } else {
            Ok(
                exists|key: Seq<char>| #[trigger]
                    self.required.contains_key(key) && self.enters(key),
            )
        }
    }

    /// The frontier after the round.
    pub open spec fn next_frontier(self) -> Outputs {
        let at = self.blocked_at(0);
        if at < self.keys().len() {
            self.frontier_after(self.keys().take((at + 1) as int).to_set())
        } else {
            self.frontier_after(self.required.dom())
        }
    }

    /// The required outputs after the round.
    pub open spec fn next_required(self) -> Outputs {
        let at = self.blocked_at(0);
        if at < self.keys().len() {
            self.required_after(self.keys().take(at as int).to_set())
        } else {
            self.required_after(self.required.dom())
        }
    }
}

pub proof fn lemma_required_after_leaf(round: Round, done: Set<Seq<char>>, key: Seq<char>)
    requires
        !round.opens(key),
    ensures
        round.required_after(done.insert(key)) == round.required_after(done),
{
    let left = round.required_after(done.insert(key));
    let right = round.required_after(done);
    assert forall|drv: Seq<char>| round.demanded(done.insert(key), drv) == round.demanded(
        done,
        drv,
    ) by {
        if round.demanded(done.insert(key), drv) {
            let (from, input) = choose|from: Seq<char>, input: Seq<char>|
                done.insert(key).contains(from) && round.opens(from)
                    && #[trigger] round.graph[from].inputs.contains_key(input) && key_of(input)
                    == drv;
            assert(done.contains(from) && round.graph[from].inputs.contains_key(input));
        }
        if round.demanded(done, drv) {
            let (from, input) = choose|from: Seq<char>, input: Seq<char>|
                done.contains(from) && round.opens(from)
                    && #[trigger] round.graph[from].inputs.contains_key(input) && key_of(input)
                    == drv;
            assert(done.insert(key).contains(from) && round.graph[from].inputs.contains_key(input));
        }
    }
    assert forall|drv: Seq<char>, name: Seq<char>|
        round.demanded_name(done.insert(key), drv, name) == round.demanded_name(
            done,
            drv,
            name,
        ) by {
        if round.demanded_name(done.insert(key), drv, name) {
            let (from, input) = choose|from: Seq<char>, input: Seq<char>|
                done.insert(key).contains(from) && round.opens(from)
                    && #[trigger] round.graph[from].inputs.contains_key(input) && key_of(input)
                    == drv && round.graph[from].inputs[input].contains(name);
            assert(done.contains(from) && round.graph[from].inputs.contains_key(input));
        }
        if round.demanded_name(done, drv, name) {
            let (from, input) = choose|from: Seq<char>, input: Seq<char>|
                done.contains(from) && round.opens(from)
                    && #[trigger] round.graph[from].inputs.contains_key(input) && key_of(input)
                    == drv && round.graph[from].inputs[input].contains(name);
            assert(done.insert(key).contains(from) && round.graph[from].inputs.contains_key(input));
        }
    }
    assert(left.dom() =~= right.dom());
    assert forall|drv: Seq<char>| left.contains_key(drv) implies left[drv] == right[drv] by {
        assert(left[drv] =~= right[drv]);
    }
    assert(left =~= right);
}

pub proof fn lemma_required_after_open(round: Round, done: Set<Seq<char>>, key: Seq<char>)
    requires
        round.opens(key),
    ensures
        round.required_after(done.insert(key)) == plus_inputs(
            round.required_after(done),
            round.graph[key].inputs,
        ),
{
    let inputs = round.graph[key].inputs;
    let base = round.required_after(done);
    let left = round.required_after(done.insert(key));
    let right = plus_inputs(base, inputs);
    assert forall|drv: Seq<char>|
        round.demanded(done.insert(key), drv) == (round.demanded(done, drv) || exists|
            input: Seq<char>,
        | #[trigger]
            inputs.contains_key(input) && key_of(input) == drv) by {
        if round.demanded(done.insert(key), drv) {
            let (from, input) = choose|from: Seq<char>, input: Seq<char>|
                done.insert(key).contains(from) && round.opens(from)
                    && #[trigger] round.graph[from].inputs.contains_key(input) && key_of(input)
                    == drv;
            if from == key {
                assert(inputs.contains_key(input));
            } else {
                assert(done.contains(from) && round.graph[from].inputs.contains_key(input));
            }
        }
        if round.demanded(done, drv) {
            let (from, input) = choose|from: Seq<char>, input: Seq<char>|
                done.contains(from) && round.opens(from)
                    && #[trigger] round.graph[from].inputs.contains_key(input) && key_of(input)
                    == drv;
            assert(done.insert(key).contains(from) && round.graph[from].inputs.contains_key(input));
        }
        if exists|input: Seq<char>| #[trigger] inputs.contains_key(input) && key_of(input) == drv {
            let input = choose|input: Seq<char>| #[trigger]
                inputs.contains_key(input) && key_of(input) == drv;
            assert(done.insert(key).contains(key) && round.graph[key].inputs.contains_key(input));
        }
    }
    assert forall|drv: Seq<char>, name: Seq<char>|
        round.demanded_name(done.insert(key), drv, name) == (round.demanded_name(done, drv, name)
            || exists|input: Seq<char>| #[trigger]
            inputs.contains_key(input) && key_of(input) == drv && inputs[input].contains(
                name,
            )) by {
        if round.demanded_name(done.insert(key), drv, name) {
            let (from, input) = choose|from: Seq<char>, input: Seq<char>|
                done.insert(key).contains(from) && round.opens(from)
                    && #[trigger] round.graph[from].inputs.contains_key(input) && key_of(input)
                    == drv && round.graph[from].inputs[input].contains(name);
            if from == key {
                assert(inputs.contains_key(input));
            } else {
                assert(done.contains(from) && round.graph[from].inputs.contains_key(input));
            }
        }
        if round.demanded_name(done, drv, name) {
            let (from, input) = choose|from: Seq<char>, input: Seq<char>|
                done.contains(from) && round.opens(from)
                    && #[trigger] round.graph[from].inputs.contains_key(input) && key_of(input)
                    == drv && round.graph[from].inputs[input].contains(name);
            assert(done.insert(key).contains(from) && round.graph[from].inputs.contains_key(input));
        }
        if exists|input: Seq<char>| #[trigger]
            inputs.contains_key(input) && key_of(input) == drv && inputs[input].contains(name) {
            let input = choose|input: Seq<char>| #[trigger]
                inputs.contains_key(input) && key_of(input) == drv && inputs[input].contains(name);
            assert(done.insert(key).contains(key) && round.graph[key].inputs.contains_key(input));
        }
    }
    lemma_demanded_names(round, done);
    assert(left.dom() =~= right.dom());
    assert forall|drv: Seq<char>| left.contains_key(drv) implies left[drv] == right[drv] by {
        assert forall|name: Seq<char>| left[drv].contains(name) == right[drv].contains(name) by {
            assert(members_of(base, drv).contains(name) == (members_of(
                round.required,
                drv,
            ).contains(name) || round.demanded_name(done, drv, name)));
        }
        assert(left[drv] =~= right[drv]);
    }
    assert(left =~= right);
}

proof fn lemma_demanded_names(round: Round, done: Set<Seq<char>>)
    ensures
        forall|drv: Seq<char>, name: Seq<char>|
            round.demanded_name(done, drv, name) ==> round.demanded(done, drv),
{
    assert forall|drv: Seq<char>, name: Seq<char>|
        round.demanded_name(done, drv, name) implies round.demanded(done, drv) by {
        let (from, input) = choose|from: Seq<char>, input: Seq<char>|
            done.contains(from) && round.opens(from)
                && #[trigger] round.graph[from].inputs.contains_key(input) && key_of(input) == drv
                && round.graph[from].inputs[input].contains(name);
        assert(done.contains(from) && round.graph[from].inputs.contains_key(input));
    }
}

/// Requests the outputs that a derivation takes from its inputs.
fn demand_inputs(required: &mut SortedMap<SortedSet>, node: &DerivationNode)
    ensures
        final(required).deep_view() == plus_inputs(old(required).deep_view(), node@.inputs),
{
    let inputs = &node.inputs.drvs;
    let ghost all = inputs.deep_view();
    let ghost base = required.deep_view();
    let count = inputs.len();
    let ghost order = inputs.order();
    assert(all.dom() =~= inputs@.dom());
    let mut i: usize = 0;
    proof {
        assert(all.restrict(order.take(0).to_set()) =~= Map::empty());
        lemma_plus_no_inputs(base);
    }
    while i < count
        invariant
            all == inputs.deep_view(),
            order == inputs.order(),
            is_ascending(order),
            count == order.len(),
            i <= count,
            required.deep_view() == plus_inputs(base, all.restrict(order.take(i as int).to_set())),
        decreases count - i,
    {
        let ghost done = order.take(i as int).to_set();
        let ghost before = required.deep_view();
        let input_key = inputs.key_at(i);
        let input = inputs.value_at(i);
        let drv = derivation_key(input_key.as_str());
        demand_outputs(required, drv.as_str(), input.outputs.as_slice());
        proof {
            let here = order[i as int];
            lemma_take_set(order, i as int);
            assert(all[here] == input@);
            assert(!done.contains(here)) by {
                lemma_ascending_distinct(order, i as int);
            }
            lemma_plus_one_input(base, all, done, here);
        }
        i += 1;
    }
    assert(order.take(count as int) =~= order);
    assert(all.restrict(order.to_set()) =~= all);
}

proof fn lemma_take_set(list: Seq<Seq<char>>, at: int)
    requires
        0 <= at < list.len(),
    ensures
        list.take(at + 1).to_set() == list.take(at).to_set().insert(list[at]),
{
    assert(list.take(at + 1) =~= list.take(at).push(list[at]));
    list.take(at).lemma_push_to_set_commute(list[at]);
}

pub proof fn lemma_plus_no_inputs(base: Outputs)
    ensures
        plus_inputs(base, Map::empty()) == base,
{
    let plus = plus_inputs(base, Map::empty());
    assert(plus.dom() =~= base.dom());
    assert forall|drv: Seq<char>| plus.contains_key(drv) implies plus[drv] == base[drv] by {
        assert(plus[drv] =~= base[drv]);
    }
    assert(plus =~= base);
}

pub proof fn lemma_plus_one_input(
    base: Outputs,
    all: Map<Seq<char>, Seq<Seq<char>>>,
    done: Set<Seq<char>>,
    here: Seq<char>,
)
    requires
        all.contains_key(here),
        !done.contains(here),
    ensures
        ({
            let before = plus_inputs(base, all.restrict(done));
            let drv = key_of(here);
            plus_inputs(base, all.restrict(done.insert(here))) == before.insert(
                drv,
                members_of(before, drv).union(all[here].to_set()),
            )
        }),
{
    let before = plus_inputs(base, all.restrict(done));
    let drv = key_of(here);
    let left = plus_inputs(base, all.restrict(done.insert(here)));
    let right = before.insert(drv, members_of(before, drv).union(all[here].to_set()));
    let few = all.restrict(done);
    let more = all.restrict(done.insert(here));
    assert forall|input: Seq<char>| #[trigger]
        more.contains_key(input) == (few.contains_key(input) || input == here) by {}
    assert forall|d: Seq<char>| left.contains_key(d) == right.contains_key(d) by {
        if left.contains_key(d) && !base.contains_key(d) {
            let input = choose|input: Seq<char>| #[trigger]
                more.contains_key(input) && key_of(input) == d;
            assert(few.contains_key(input) || input == here);
        }
        if right.contains_key(d) && !base.contains_key(d) {
            if d == drv {
                assert(more.contains_key(here));
            } else {
                let input = choose|input: Seq<char>| #[trigger]
                    few.contains_key(input) && key_of(input) == d;
                assert(more.contains_key(input));
            }
        }
    }
    assert(left.dom() =~= right.dom());
    assert forall|d: Seq<char>| left.contains_key(d) implies left[d] == right[d] by {
        assert forall|name: Seq<char>| left[d].contains(name) == right[d].contains(name) by {
            if left[d].contains(name) && !members_of(base, d).contains(name) {
                let input = choose|input: Seq<char>| #[trigger]
                    more.contains_key(input) && key_of(input) == d && more[input].contains(name);
                if input == here {
                    assert(all[here].to_set().contains(name));
                } else {
                    assert(few.contains_key(input) && few[input] == more[input]);
                    assert(before.contains_key(d) && before[d].contains(name));
                }
            }
            if right[d].contains(name) && !members_of(base, d).contains(name) {
                if d == drv && all[here].to_set().contains(name) {
                    assert(more.contains_key(here) && more[here] == all[here]);
                } else {
                    assert(before.contains_key(d) && before[d].contains(name));
                    let input = choose|input: Seq<char>| #[trigger]
                        few.contains_key(input) && key_of(input) == d && few[input].contains(name);
                    assert(more.contains_key(input) && more[input] == few[input]);
                }
            }
            if members_of(base, d).contains(name) {
                assert(before.contains_key(d) && before[d].contains(name));
            }
        }
        assert(left[d] =~= right[d]);
    }
    assert(left =~= right);
}

/// Requests outputs of one derivation.
pub fn demand_outputs(required: &mut SortedMap<SortedSet>, drv: &str, outputs: &[String])
    ensures
        final(required).deep_view() == old(required).deep_view().insert(
            drv@,
            members_of(old(required).deep_view(), drv@).union(outputs.deep_view().to_set()),
        ),
{
    let ghost base = required.deep_view();
    let ghost names = outputs.deep_view();
    add_key(required, drv);
    assert(members_of(base, drv@).union(names.take(0).to_set()) =~= members_of(base, drv@));
    for i in 0..outputs.len()
        invariant
            names == outputs.deep_view(),
            required.deep_view() == base.insert(
                drv@,
                members_of(base, drv@).union(names.take(i as int).to_set()),
            ),
    {
        let ghost before = required.deep_view();
        add_member(required, drv, outputs[i].as_str());
        proof {
            assert(names[i as int] == outputs@[i as int]@);
            lemma_take_set(names, i as int);
            assert(before[drv@].insert(names[i as int]) =~= members_of(base, drv@).union(
                names.take(i + 1).to_set(),
            ));
            assert(required.deep_view() =~= base.insert(
                drv@,
                members_of(base, drv@).union(names.take(i + 1).to_set()),
            ));
        }
    }
    assert(names.take(outputs.len() as int) =~= names);
}

/// Lets the outputs of `key` that have not entered before enter the frontier,
/// and says whether there were any.
fn enter(frontier: &mut SortedMap<SortedSet>, key: &str, names: &SortedSet) -> (result: bool)
    ensures
        final(frontier).deep_view() == old(frontier).deep_view().insert(
            key@,
            members_of(old(frontier).deep_view(), key@).union(names@),
        ),
        result == (exists|name: Seq<char>|
            names@.contains(name) && !(#[trigger] members_of(
                old(frontier).deep_view(),
                key@,
            ).contains(name))),
{
    let ghost base = frontier.deep_view();
    let ghost held = members_of(base, key@);
    add_key(frontier, key);
    let count = names.len();
    let ghost order = names.order();
    let mut entered = false;
    let mut i: usize = 0;
    assert(held.union(order.take(0).to_set()) =~= held);
    while i < count
        invariant
            order == names.order(),
            order.to_set() == names@,
            is_ascending(order),
            count == order.len(),
            i <= count,
            base == old(frontier).deep_view(),
            held == members_of(base, key@),
            frontier.deep_view() == base.insert(key@, held.union(order.take(i as int).to_set())),
            entered == (exists|k: int| 0 <= k < i && !held.contains(#[trigger] order[k])),
        decreases count - i,
    {
        let name = names.item_at(i);
        let ghost before = frontier.deep_view();
        let added = add_member(frontier, key, name.as_str());
        proof {
            let done = order.take(i as int).to_set();
            assert(order[i as int] == name@);
            lemma_ascending_distinct(order, i as int);
            lemma_take_set(order, i as int);
            assert(members_of(before, key@) == held.union(done));
            assert(added == !held.contains(name@));
            assert(held.union(done).insert(name@) =~= held.union(done.insert(name@)));
            assert(frontier.deep_view() =~= base.insert(
                key@,
                held.union(order.take(i + 1).to_set()),
            ));
        }
        if added {
            entered = true;
        }
        i += 1;
    }
    proof {
        assert(order.take(count as int) =~= order);
        if entered {
            let k = choose|k: int| 0 <= k < count && !held.contains(#[trigger] order[k]);
            assert(order.to_set().contains(order[k]));
        }
        if exists|name: Seq<char>| names@.contains(name) && !(#[trigger] held.contains(name)) {
            let name = choose|name: Seq<char>|
                names@.contains(name) && !(#[trigger] held.contains(name));
            assert(order.to_set().contains(name));
            assert(order[order.index_of(name)] == name);
        }
    }
    entered
}

fn all_available(
    key: &str,
    node: &DerivationNode,
    names: &SortedSet,
    output_paths: &OutputPaths,
    availability: &SortedMap<ProbeResult>,
    Ghost(round): Ghost<Round>,
) -> (result: bool)
    requires
        round.paths == output_paths@,
        round.availability == availability.deep_view(),
        round.graph.contains_key(key@),
        round.graph[key@] == node@,
        members_of(round.required, key@) == names@,
    ensures
        result == round.is_leaf(key@),
{
    if names.is_empty() || text::same(node.system.as_str(), "builtin") {
        return false;
    }
    let count = names.len();
    let ghost order = names.order();
    let mut i: usize = 0;
    while i < count
        invariant
            order == names.order(),
            order.to_set() == names@,
            count == order.len(),
            i <= count,
            round.paths == output_paths@,
            round.availability == availability.deep_view(),
            members_of(round.required, key@) == names@,
            forall|k: int| 0 <= k < i ==> round.is_available(key@, #[trigger] order[k]),
        decreases count - i,
    {
        let name = names.item_at(i);
        let found = match output_paths.get(key, name.as_str()) {
            Some(path) => match availability.get(path.as_str()) {
                Some(probe) => probe.is_available(),
                None => false,
            },
            None => false,
        };
        assert(found == round.is_available(key@, name@));
        if !found {
            assert(members_of(round.required, key@).contains(name@));
            return false;
        }
        i += 1;
    }
    proof {
        assert forall|name: Seq<char>| #[trigger]
            members_of(round.required, key@).contains(name) implies round.is_available(
            key@,
            name,
        ) by {
            assert(order.to_set().contains(name));
            let k = order.index_of(name);
            assert(order[k] == name);
        }
    }
    true
}

proof fn lemma_blocked_at(round: Round, from: nat, at: nat)
    requires
        from <= at <= round.keys().len(),
        forall|i: int| from <= i < at ==> !round.blocks(#[trigger] round.keys()[i]),
        at < round.keys().len() ==> round.blocks(round.keys()[at as int]),
    ensures
        round.blocked_at(from) == at,
    decreases at - from,
{
    if from < at {
        assert(!round.blocks(round.keys()[from as int]));
        lemma_blocked_at(round, from + 1, at);
    }
}

/// Expands the realization frontier to the inputs of unavailable nodes.
///
/// A derivation whose requested outputs are all available from the configured
/// substituters or the local store is a leaf in the realization graph: its
/// inputs are only build inputs for the cached result and must not be treated
/// as additional misses. The frontier can only be entered once per derivation,
/// so the loop terminates even when the graph contains cycles; only an output
/// that becomes required later enters it again.
pub fn expand_frontier(
    graph: &DerivationGraph,
    required: &mut SortedMap<SortedSet>,
    frontier: &mut SortedMap<SortedSet>,
    output_paths: &OutputPaths,
    availability: &SortedMap<ProbeResult>,
) -> (result: Result<bool>)
    ensures
        ({
            let round = Round {
                graph: graph@,
                required: old(required).deep_view(),
                frontier: old(frontier).deep_view(),
                paths: output_paths@,
                availability: availability.deep_view(),
            };
            &&& outcome(result) == round.verdict()
            &&& final(required).deep_view() == round.next_required()
            &&& final(frontier).deep_view() == round.next_frontier()
        }),
{
    let ghost round = Round {
        graph: graph@,
        required: required.deep_view(),
        frontier: frontier.deep_view(),
        paths: output_paths@,
        availability: availability.deep_view(),
    };
    let snapshot = required.clone();
    assert(snapshot.deep_view() =~= round.required);
    let count = snapshot.len();
    let ghost order = snapshot.order();
    assert(round.required.dom() =~= snapshot@.dom());
    assert(order == round.keys());
    let mut changed = false;
    let mut i: usize = 0;
    proof {
        lemma_nothing_done(round);
        assert(order.take(0).to_set() =~= Set::<Seq<char>>::empty());
    }
    while i < count
        invariant
            round.graph == graph@,
            round.paths == output_paths@,
            round.availability == availability.deep_view(),
            round.required == snapshot.deep_view(),
            round.required.dom() == snapshot@.dom(),
            round == (Round {
                graph: graph@,
                required: old(required).deep_view(),
                frontier: old(frontier).deep_view(),
                paths: output_paths@,
                availability: availability.deep_view(),
            }),
            order == snapshot.order(),
            order == round.keys(),
            is_ascending(order),
            order.to_set() == round.required.dom(),
            count == order.len(),
            i <= count,
            forall|k: int| 0 <= k < i ==> !round.blocks(#[trigger] order[k]),
            changed == (exists|k: int| 0 <= k < i && round.enters(#[trigger] order[k])),
            required.deep_view() == round.required_after(order.take(i as int).to_set()),
            frontier.deep_view() == round.frontier_after(order.take(i as int).to_set()),
        decreases count - i,
    {
        let ghost done = order.take(i as int).to_set();
        let key = snapshot.key_at(i);
        let names = snapshot.value_at(i);
        proof {
            lemma_ascending_distinct(order, i as int);
            lemma_take_set(order, i as int);
            assert(key@ == order[i as int]);
            assert(members_of(round.required, key@) =~= names@);
            assert(members_of(round.frontier_after(done), key@) =~= members_of(
                round.frontier,
                key@,
            ));
        }
        let ghost before = frontier.deep_view();
        let entered = enter(frontier, key.as_str(), names);
        proof {
            assert(members_of(round.frontier, key@).union(names@) =~= members_of(
                round.frontier,
                key@,
            ).union(round.entering(key@)));
            assert(frontier.deep_view() =~= round.frontier_after(done.insert(key@)));
            assert forall|name: Seq<char>| #[trigger]
                round.entering(key@).contains(name) == (names@.contains(name) && !members_of(
                    round.frontier,
                    key@,
                ).contains(name)) by {}
            if entered {
                let name = choose|name: Seq<char>|
                    names@.contains(name) && !(#[trigger] members_of(before, key@).contains(name));
                assert(round.entering(key@).contains(name));
            }
            if round.enters(key@) {
                let name = choose|name: Seq<char>| #[trigger]
                    round.entering(key@).contains(name);
                assert(!members_of(before, key@).contains(name));
            }
        }
        if entered {
            changed = true;
            match graph.derivations.get(key.as_str()) {
                Some(node) => {
                    let available = all_available(
                        key.as_str(),
                        node,
                        names,
                        output_paths,
                        availability,
                        Ghost(round),
                    );
                    if available {
                        proof {
                            lemma_required_after_leaf(round, done, key@);
                        }
                    } else {
                        demand_inputs(required, node);
                        proof {
                            lemma_required_after_open(round, done, key@);
                        }
                    }
                },
                None => {
                    proof {
                        lemma_blocked_at(round, 0, i as nat);
                    }
                    return Err(
                        Error::PlannerMissingDerivation { drv: store_path(key.as_str()) },
                    );
                },
            }
        } else {
            proof {
                lemma_required_after_leaf(round, done, key@);
            }
        }
        i += 1;
    }
    proof {
        assert(order.take(count as int) =~= order);
        lemma_blocked_at(round, 0, count as nat);
        if exists|key: Seq<char>| #[trigger]
            round.required.contains_key(key) && round.enters(key) {
            let key = choose|key: Seq<char>| #[trigger]
                round.required.contains_key(key) && round.enters(key);
            assert(order.to_set().contains(key));
            assert(order[order.index_of(key)] == key);
        }
        if changed {
            let k = choose|k: int| 0 <= k < count && round.enters(#[trigger] order[k]);
            assert(order.to_set().contains(order[k]));
            assert(round.required.contains_key(order[k]));
        }
    }
    Ok(changed)
}

pub proof fn lemma_nothing_done(round: Round)
    ensures
        round.required_after(Set::empty()) == round.required,
        round.frontier_after(Set::empty()) == round.frontier,
{
    let none = Set::<Seq<char>>::empty();
    let required = round.required_after(none);
    assert(required.dom() =~= round.required.dom());
    assert forall|drv: Seq<char>| required.contains_key(drv) implies required[drv]
        == round.required[drv] by {
        assert(required[drv] =~= round.required[drv]);
    }
    assert(required =~= round.required);
    assert(round.frontier_after(none) =~= round.frontier);
}

// ---------------------------------------------------------------------------
// Laws of expansion
// ---------------------------------------------------------------------------

/// A round never forgets a requirement, nor an output that has entered the
/// frontier.
pub proof fn law_expansion_keeps_outputs(round: Round, key: Seq<char>, name: Seq<char>)
    ensures
        members_of(round.required, key).contains(name) ==> members_of(
            round.next_required(),
            key,
        ).contains(name),
        members_of(round.frontier, key).contains(name) ==> members_of(
            round.next_frontier(),
            key,
        ).contains(name),
{
}

/// A round that reports a change lets an output enter the frontier that had
/// not entered before; the output was required.
pub proof fn law_change_enters_frontier(round: Round)
    requires
        round.verdict() == Ok::<bool, ErrorView>(true),
    ensures
        exists|key: Seq<char>, name: Seq<char>|
            members_of(round.required, key).contains(name) && !members_of(
                round.frontier,
                key,
            ).contains(name) && #[trigger] members_of(round.next_frontier(), key).contains(name),
{
    let key = choose|key: Seq<char>| #[trigger]
        round.required.contains_key(key) && round.enters(key);
    let name = choose|name: Seq<char>| #[trigger] round.entering(key).contains(name);
    assert(members_of(round.next_frontier(), key).contains(name));
}

/// The outputs that have not entered the frontier.
pub open spec fn left_out(
    outputs: Set<(Seq<char>, Seq<char>)>,
    frontier: Outputs,
) -> Set<(Seq<char>, Seq<char>)> {
    outputs.filter(|output: (Seq<char>, Seq<char>)| !members_of(frontier, output.0).contains(
        output.1,
    ))
}

/// Rounds run out, even where derivations depend on each other in a cycle: with
/// finitely many outputs to require, each round that reports a change leaves
/// fewer of them outside the frontier.
pub proof fn law_rounds_run_out(round: Round, outputs: Set<(Seq<char>, Seq<char>)>)
    requires
        round.verdict() == Ok::<bool, ErrorView>(true),
        outputs.finite(),
        forall|key: Seq<char>, name: Seq<char>| #[trigger]
            members_of(round.required, key).contains(name) ==> outputs.contains((key, name)),
    ensures
        left_out(outputs, round.next_frontier()).len() < left_out(outputs, round.frontier).len(),
{
    law_change_enters_frontier(round);
    let (key, name) = choose|key: Seq<char>, name: Seq<char>|
        members_of(round.required, key).contains(name) && !members_of(round.frontier, key).contains(
            name,
        ) && #[trigger] members_of(round.next_frontier(), key).contains(name);
    let before = left_out(outputs, round.frontier);
    let after = left_out(outputs, round.next_frontier());
    assert(before.contains((key, name)));
    assert forall|output: (Seq<char>, Seq<char>)| after.contains(output) implies before.remove(
        (key, name),
    ).contains(output) by {
        law_expansion_keeps_outputs(round, output.0, output.1);
    }
    vstd::set_lib::lemma_len_subset(after, before.remove((key, name)));
}

/// What has entered the frontier is always required: a round keeps it so.
pub proof fn law_frontier_stays_within_requirements(round: Round)
    requires
        forall|key: Seq<char>| #[trigger]
            members_of(round.frontier, key).subset_of(members_of(round.required, key)),
    ensures
        forall|key: Seq<char>| #[trigger]
            members_of(round.next_frontier(), key).subset_of(
                members_of(round.next_required(), key),
            ),
{
    assert forall|key: Seq<char>, name: Seq<char>|
        members_of(round.next_frontier(), key).contains(name) implies #[trigger] members_of(
        round.next_required(),
        key,
    ).contains(name) by {
        law_expansion_keeps_outputs(round, key, name);
        if !members_of(round.frontier, key).contains(name) {
            assert(round.entering(key).contains(name));
        } else {
            assert(members_of(round.frontier, key).subset_of(members_of(round.required, key)));
        }
    }
    assert forall|key: Seq<char>| #[trigger]
        members_of(round.next_frontier(), key).subset_of(
            members_of(round.next_required(), key),
        ) by {
        assert forall|name: Seq<char>| members_of(round.next_frontier(), key).contains(
            name,
        ) implies members_of(round.next_required(), key).contains(name) by {}
    }
}

/// Once a round reports no change, the frontier holds every required output
/// and the requirements are complete: neither changes any more.
pub proof fn law_no_change_is_complete(round: Round)
    requires
        round.verdict() == Ok::<bool, ErrorView>(false),
    ensures
        forall|key: Seq<char>, name: Seq<char>|
            members_of(round.required, key).contains(name) ==> #[trigger] members_of(
                round.frontier,
                key,
            ).contains(name),
        round.next_required() == round.required,
        forall|key: Seq<char>| #[trigger]
            members_of(round.next_frontier(), key) == members_of(round.frontier, key),
{
    assert forall|key: Seq<char>, name: Seq<char>|
        members_of(round.required, key).contains(name) implies #[trigger] members_of(
        round.frontier,
        key,
    ).contains(name) by {
        assert(round.required.contains_key(key));
        if !members_of(round.frontier, key).contains(name) {
            assert(round.entering(key).contains(name));
            assert(round.enters(key));
        }
    }
    let done = round.required.dom();
    assert forall|key: Seq<char>| done.contains(key) implies !round.opens(key) by {}
    let next = round.required_after(done);
    assert forall|drv: Seq<char>| !round.demanded(done, drv) by {}
    assert forall|drv: Seq<char>, name: Seq<char>| !round.demanded_name(done, drv, name) by {}
    assert(next.dom() =~= round.required.dom());
    assert forall|drv: Seq<char>| next.contains_key(drv) implies next[drv]
        == round.required[drv] by {
        assert(next[drv] =~= round.required[drv]);
    }
    assert(next =~= round.required);
    assert forall|key: Seq<char>| #[trigger]
        members_of(round.next_frontier(), key) == members_of(round.frontier, key) by {
        if done.contains(key) {
            assert(round.required.contains_key(key));
            assert forall|name: Seq<char>| !round.entering(key).contains(name) by {}
            assert(members_of(round.next_frontier(), key) =~= members_of(round.frontier, key));
        }
    }
}

proof fn lemma_never_blocked(round: Round, from: nat)
    requires
        round.blocked_at(from) >= round.keys().len(),
        from <= round.keys().len(),
    ensures
        forall|i: int| from <= i < round.keys().len() ==> !round.blocks(#[trigger] round.keys()[i]),
    decreases round.keys().len() - from,
{
    if from < round.keys().len() && !round.blocks(round.keys()[from as int]) {
        lemma_never_blocked(round, from + 1);
    }
}

/// A derivation enters the frontier once: after a round it enters again only
/// for an output that was not required in it.
pub proof fn law_derivations_enter_once(round: Round, again: Round, key: Seq<char>)
    requires
        round.verdict() is Ok,
        round.required.contains_key(key),
        again.frontier == round.next_frontier(),
    ensures
        again.enters(key) <==> !members_of(again.required, key).subset_of(
            members_of(round.next_frontier(), key),
        ),
        again.enters(key) ==> exists|name: Seq<char>| #[trigger]
            members_of(again.required, key).contains(name) && !members_of(
                round.required,
                key,
            ).contains(name),
{
    let held = members_of(round.next_frontier(), key);
    assert(held =~= members_of(round.frontier, key).union(members_of(round.required, key)));
    if again.enters(key) {
        let name = choose|name: Seq<char>| #[trigger] again.entering(key).contains(name);
        assert(members_of(again.required, key).contains(name));
        assert(!held.contains(name));
    }
    if !members_of(again.required, key).subset_of(held) {
        let name = choose|name: Seq<char>|
            members_of(again.required, key).contains(name) && !held.contains(name);
        assert(again.entering(key).contains(name));
    }
}

/// A round is repeated without effect: with the requirements that it began with
/// it reports no change, and changes nothing.
pub proof fn law_rounds_are_not_repeated(round: Round)
    requires
        round.verdict() is Ok,
    ensures
        ({
            let again = Round { frontier: round.next_frontier(), ..round };
            &&& again.verdict() == Ok::<bool, ErrorView>(false)
            &&& again.next_required() == round.required
            &&& again.next_frontier() == round.next_frontier()
        }),
{
    let again = Round { frontier: round.next_frontier(), ..round };
    let done = round.required.dom();
    assert forall|key: Seq<char>| !again.enters(key) by {
        if round.required.contains_key(key) {
            law_derivations_enter_once(round, again, key);
        } else {
            assert(members_of(again.required, key) =~= Set::empty());
        }
    }
    lemma_blocked_at(again, 0, again.keys().len());
    law_no_change_is_complete(again);
    assert(again.frontier.dom() =~= again.next_frontier().dom());
    assert forall|key: Seq<char>| again.frontier.contains_key(
        key,
    ) implies again.next_frontier()[key] == again.frontier[key] by {
        assert(members_of(again.next_frontier(), key) == members_of(again.frontier, key));
    }
    assert(again.next_frontier() =~= again.frontier);
}

/// Building takes the inputs: once a derivation enters the frontier that is not
/// available, every output that it takes as an input is required.
pub proof fn law_unavailable_derivations_require_their_inputs(
    round: Round,
    key: Seq<char>,
    input: Seq<char>,
    name: Seq<char>,
)
    requires
        round.verdict() is Ok,
        round.required.dom().finite(),
        round.required.contains_key(key),
        round.enters(key),
        !round.is_leaf(key),
        round.graph[key].inputs.contains_key(input),
        round.graph[key].inputs[input].contains(name),
    ensures
        round.graph.contains_key(key),
        members_of(round.next_required(), key_of(input)).contains(name),
{
    lemma_ascending_exists(round.required.dom());
    lemma_never_blocked(round, 0);
    assert(round.keys().to_set().contains(key));
    let at = round.keys().index_of(key);
    assert(!round.blocks(round.keys()[at]));
    assert(round.opens(key));
    let done = round.required.dom();
    assert(done.contains(key));
    assert(round.demanded(done, key_of(input)));
    assert(round.demanded_name(done, key_of(input), name));
}

/// The inputs of available derivations never become required: a round in which
/// only such derivations enter the frontier requires nothing new.
pub proof fn law_available_derivations_are_leaves(round: Round)
    requires
        round.verdict() is Ok,
        forall|key: Seq<char>| #[trigger]
            round.required.contains_key(key) && round.enters(key) ==> round.is_leaf(key),
    ensures
        round.next_required() == round.required,
{
    let done = round.required.dom();
    assert forall|key: Seq<char>| done.contains(key) implies !round.opens(key) by {
        assert(round.required.contains_key(key));
    }
    let next = round.required_after(done);
    assert forall|drv: Seq<char>| !round.demanded(done, drv) by {}
    assert forall|drv: Seq<char>, name: Seq<char>| !round.demanded_name(done, drv, name) by {}
    assert(next.dom() =~= round.required.dom());
    assert forall|drv: Seq<char>| next.contains_key(drv) implies next[drv]
        == round.required[drv] by {
        assert(next[drv] =~= round.required[drv]);
    }
    assert(next =~= round.required);
}

/// Nothing is done for a required derivation if and only if it is not built into
/// Nix, something of it is required, and all that is required of it is in a
/// store.
pub proof fn law_only_found_derivations_are_leaves(round: Round, key: Seq<char>)
    ensures
        round.is_leaf(key) <==> {
            &&& round.graph[key].system != "builtin"@
            &&& round.required.contains_key(key)
            &&& exists|name: Seq<char>| #[trigger] round.required[key].contains(name)
            &&& forall|name: Seq<char>| #[trigger]
                round.required[key].contains(name) ==> round.paths.contains_key((key, name))
                    && round.availability.contains_key(round.paths[(key, name)]) && (
                round.availability[round.paths[(key, name)]] is Present
                    || round.availability[round.paths[(key, name)]] is LocalPresent)
        },
{
    let names = members_of(round.required, key);
    if names != Set::<Seq<char>>::empty() && round.required.contains_key(key) {
        if forall|name: Seq<char>| !(#[trigger] round.required[key].contains(name)) {
            assert(names =~= Set::empty());
        }
    }
    if exists|name: Seq<char>| #[trigger] round.required[key].contains(name)
        && round.required.contains_key(key) {
        let name = choose|name: Seq<char>| #[trigger] round.required[key].contains(name);
        assert(names.contains(name));
    }
}

/// A round fails if and only if a derivation enters the frontier that is not
/// known, and the error names the first such derivation.
pub proof fn law_unknown_derivations_fail_a_round(round: Round, i: int)
    requires
        0 <= i <= round.keys().len(),
        forall|k: int|
            0 <= k < i ==> round.graph.contains_key(#[trigger] round.keys()[k]) || members_of(
                round.required,
                round.keys()[k],
            ).subset_of(members_of(round.frontier, round.keys()[k])),
    ensures
        i == round.keys().len() ==> round.verdict() is Ok,
        i < round.keys().len() && !round.graph.contains_key(round.keys()[i]) && !members_of(
            round.required,
            round.keys()[i],
        ).subset_of(members_of(round.frontier, round.keys()[i])) ==> round.verdict() == Err::<
            bool,
            ErrorView,
        >(ErrorView::PlannerMissingDerivation { drv: full_path(round.keys()[i]) }),
{
    assert forall|k: int| 0 <= k < i implies !round.blocks(#[trigger] round.keys()[k]) by {
        let key = round.keys()[k];
        if round.blocks(key) {
            let name = choose|name: Seq<char>| #[trigger] round.entering(key).contains(name);
            assert(members_of(round.required, key).contains(name));
            assert(members_of(round.frontier, key).contains(name));
        }
    }
    if i < round.keys().len() {
        let key = round.keys()[i];
        let required = members_of(round.required, key);
        let frontier = members_of(round.frontier, key);
        if !round.graph.contains_key(key) && !required.subset_of(frontier) {
            let name = choose|name: Seq<char>|
                required.contains(name) && !(#[trigger] frontier.contains(name));
            assert(round.entering(key).contains(name));
            assert(round.blocks(key));
        }
    }
    lemma_blocked_first(round, 0, i as nat);
}

proof fn lemma_blocked_first(round: Round, from: nat, i: nat)
    requires
        from <= i <= round.keys().len(),
        forall|k: int| from <= k < i ==> !round.blocks(#[trigger] round.keys()[k]),
    ensures
        round.blocked_at(from) == round.blocked_at(i),
    decreases i - from,
{
    if from < i {
        assert(!round.blocks(round.keys()[from as int]));
        lemma_blocked_first(round, from + 1, i);
    }
}

} // verus!
