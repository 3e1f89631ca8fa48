//! Derivation graphs, output paths and the answers that Nix gives about them.

use vstd::prelude::*;

use crate::planner::plan::{PlanRoot, RootView};
use crate::sorted::{ascending, lists_entries, SortedMap};
use crate::text;

verus! {

// ---------------------------------------------------------------------------
// Store paths
// ---------------------------------------------------------------------------

/// The key of a derivation: its path without the store directory.
pub open spec fn key_of(path: Seq<char>) -> Seq<char> {
    match text::without_prefix(path, "/nix/store/"@) {
        Some(rest) => rest,
        None => path,
    }
}

/// The path of a store object, the store directory in front of it.
pub open spec fn full_path(path: Seq<char>) -> Seq<char> {
    if "/nix/store/"@.is_prefix_of(path) {
        path
    } else {
        "/nix/store/"@ + path
    }
}

/// The key of a derivation path.
pub fn derivation_key(path: &str) -> (result: String)
    ensures
        result@ == key_of(path@),
{
    match text::strip_prefix(path, "/nix/store/") {
        Some(rest) => rest,
        None => path.to_owned(),
    }
}

/// The store path of a store object.
pub fn store_path(path: &str) -> (result: String)
    ensures
        result@ == full_path(path@),
{
    if text::starts_with(path, "/nix/store/") {
        path.to_owned()
    } else {
        "/nix/store/".to_owned().concat(path)
    }
}

/// A store path is its own store path.
pub proof fn law_store_path_idempotent(path: Seq<char>)
    ensures
        full_path(full_path(path)) == full_path(path),
{
    assert("/nix/store/"@.is_prefix_of("/nix/store/"@ + path));
}

/// A store object and its store path have one key.
pub proof fn law_store_path_keeps_key(path: Seq<char>)
    ensures
        key_of(full_path(path)) == key_of(path),
{
    let whole = "/nix/store/"@ + path;
    assert("/nix/store/"@.is_prefix_of(whole));
    assert(whole.skip("/nix/store/"@.len() as int) =~= path);
}

/// The store path of a key is the store path that the key was taken from,
/// unless the store directory stands twice in front of it.
pub proof fn law_key_keeps_store_path(path: Seq<char>)
    requires
        !"/nix/store/"@.is_prefix_of(key_of(path)),
    ensures
        full_path(key_of(path)) == full_path(path),
{
    if "/nix/store/"@.is_prefix_of(path) {
        assert("/nix/store/"@ + path.skip("/nix/store/"@.len() as int) =~= path);
    }
}

// ---------------------------------------------------------------------------
// Derivations
// ---------------------------------------------------------------------------

/// One derivation as `nix derivation show` reports it.
#[derive(Debug, Clone, PartialEq, Eq)]
pub struct DerivationNode {
    /// System that the derivation builds on.
    pub system: String,
    /// Derivation name.
    pub name: Option<String>,
    /// Package name.
    pub pname: Option<String>,
    /// Names found in the derivation's environment.
    pub env: DerivationEnv,
    /// Outputs by name.
    pub outputs: SortedMap<DerivationOutput>,
    /// Inputs that the derivation is built from.
    pub inputs: DerivationInputs,
}

/// Names found in a derivation's environment.
#[derive(Debug, Clone, PartialEq, Eq)]
pub struct DerivationEnv {
    /// Derivation name.
    pub name: Option<String>,
    /// Package name.
    pub pname: Option<String>,
}

/// Inputs of a derivation.
#[derive(Debug, Clone, PartialEq, Eq)]
pub struct DerivationInputs {
    /// Input derivations by path.
    pub drvs: SortedMap<DerivationInput>,
}

/// Outputs that a derivation takes from one of its inputs.
#[derive(Debug, Clone, PartialEq, Eq)]
pub struct DerivationInput {
    /// Names of the outputs.
    pub outputs: Vec<String>,
}

/// One output of a derivation.
#[derive(Debug, Clone, PartialEq, Eq)]
pub struct DerivationOutput {
    /// Output path, when it is known before the build.
    pub path: Option<String>,
}

impl View for DerivationInput {
    type V = Seq<Seq<char>>;

    open spec fn view(&self) -> Seq<Seq<char>> {
        self.outputs.deep_view()
    }
}

impl DeepView for DerivationInput {
    type V = Seq<Seq<char>>;

    open spec fn deep_view(&self) -> Seq<Seq<char>> {
        self@
    }
}

impl View for DerivationOutput {
    type V = Option<Seq<char>>;

    open spec fn view(&self) -> Option<Seq<char>> {
        self.path.deep_view()
    }
}

impl DeepView for DerivationOutput {
    type V = Option<Seq<char>>;

    open spec fn deep_view(&self) -> Option<Seq<char>> {
        self@
    }
}

/// Model of a [`DerivationNode`].
#[verifier::ext_equal]
pub struct NodeView {
    pub system: Seq<char>,
    pub name: Option<Seq<char>>,
    pub pname: Option<Seq<char>>,
    pub env_name: Option<Seq<char>>,
    pub env_pname: Option<Seq<char>>,
    pub outputs: Map<Seq<char>, Option<Seq<char>>>,
    pub inputs: Map<Seq<char>, Seq<Seq<char>>>,
}

impl View for DerivationNode {
    type V = NodeView;

    open spec fn view(&self) -> NodeView {
        NodeView {
            system: self.system@,
            name: self.name.deep_view(),
            pname: self.pname.deep_view(),
            env_name: self.env.name.deep_view(),
            env_pname: self.env.pname.deep_view(),
            outputs: self.outputs.deep_view(),
            inputs: self.inputs.drvs.deep_view(),
        }
    }
}

impl DeepView for DerivationNode {
    type V = NodeView;

    open spec fn deep_view(&self) -> NodeView {
        self@
    }
}

/// Derivations by key.
#[derive(Debug, Clone, PartialEq, Eq)]
pub struct DerivationGraph {
    /// The derivations.
    pub derivations: SortedMap<DerivationNode>,
}

impl View for DerivationGraph {
    type V = Map<Seq<char>, NodeView>;

    open spec fn view(&self) -> Map<Seq<char>, NodeView> {
        self.derivations.deep_view()
    }
}

impl DeepView for DerivationGraph {
    type V = Map<Seq<char>, NodeView>;

    open spec fn deep_view(&self) -> Map<Seq<char>, NodeView> {
        self@
    }
}

/// The nodes of `paths`, each under its key; a later path replaces an earlier one.
pub open spec fn keyed_nodes(paths: Seq<Seq<char>>, nodes: Map<Seq<char>, NodeView>) -> Map<
    Seq<char>,
    NodeView,
>
    decreases paths.len(),
{
    if paths.len() == 0 {
        Map::empty()
    } else {
        keyed_nodes(paths.drop_last(), nodes).insert(key_of(paths.last()), nodes[paths.last()])
    }
}

/// The graph of the derivations that Nix reported by path.
pub open spec fn graph_of(reported: Map<Seq<char>, NodeView>) -> Map<Seq<char>, NodeView> {
    keyed_nodes(ascending(reported.dom()), reported)
}

/// Brings reported derivations under their keys.
pub fn parse_graph(reported: SortedMap<DerivationNode>) -> (result: DerivationGraph)
    ensures
        result@ == graph_of(reported.deep_view()),
{
    let mut derivations: SortedMap<DerivationNode> = SortedMap::new();
    let ghost nodes = reported.deep_view();
    let ghost order = reported.order();
    assert(nodes.dom() =~= reported@.dom());
    let entries = reported.into_entries();
    let ghost all = entries@;
    assert(order.take(0) =~= Seq::<Seq<char>>::empty());
    assert(derivations.deep_view() =~= keyed_nodes(order.take(0), nodes));
    for entry in it: entries
        invariant
            it.seq() == all,
            lists_entries(all, order, reported@),
            nodes == reported.deep_view(),
            derivations.deep_view() == keyed_nodes(order.take(it.index()), nodes),
    {
        let ghost before = derivations.deep_view();
        let ghost at = it.index();
        let (path, node) = entry;
        derivations.insert(derivation_key(path.as_str()), node);
        proof {
            assert(all[at].0@ == order[at]);
            assert(order.take(at + 1).drop_last() =~= order.take(at));
            assert(derivations.deep_view() =~= before.insert(key_of(order[at]), nodes[order[at]]));
        }
    }
    assert(order.take(order.len() as int) =~= order);
    DerivationGraph { derivations }
}

// ---------------------------------------------------------------------------
// Requested outputs
// ---------------------------------------------------------------------------

/// One entry of what `nix build --dry-run --json` reports.
#[derive(Debug, Clone, PartialEq, Eq)]
pub struct OutputEntry {
    /// Derivation path.
    pub drv_path: String,
    /// Output paths by name.
    pub outputs: SortedMap<String>,
}

/// Model of an [`OutputEntry`].
#[verifier::ext_equal]
pub struct EntryView {
    pub drv_path: Seq<char>,
    pub outputs: Map<Seq<char>, Seq<char>>,
}

impl View for OutputEntry {
    type V = EntryView;

    open spec fn view(&self) -> EntryView {
        EntryView { drv_path: self.drv_path@, outputs: self.outputs.deep_view() }
    }
}

impl DeepView for OutputEntry {
    type V = EntryView;

    open spec fn deep_view(&self) -> EntryView {
        self@
    }
}

/// The root that an entry asks for: exactly the outputs that it names.
pub open spec fn root_of(entry: EntryView) -> RootView {
    RootView { drv: full_path(entry.drv_path), outputs: ascending(entry.outputs.dom()) }
}

/// The roots that a dry run reports.
pub open spec fn roots_of(entries: Seq<EntryView>) -> Seq<RootView> {
    entries.map_values(|entry: EntryView| root_of(entry))
}

/// Turns the entries of a dry run into plan roots.
pub fn parse_roots(entries: &[OutputEntry]) -> (result: Vec<PlanRoot>)
    ensures
        result.deep_view() == roots_of(entries.deep_view()),
{
    let mut roots: Vec<PlanRoot> = Vec::new();
    for i in 0..entries.len()
        invariant
            roots.deep_view() == roots_of(entries.deep_view()).take(i as int),
    {
        let ghost before = roots.deep_view();
        let entry = &entries[i];
        let root = PlanRoot {
            drv: store_path(entry.drv_path.as_str()),
            outputs: entry.outputs.keys(),
        };
        assert(entry.outputs.deep_view().dom() =~= entry.outputs@.dom());
        assert(entries.deep_view()[i as int] == entry@);
        assert(root@ == root_of(entry@));
        roots.push(root);
        assert(roots.deep_view() =~= before.push(root@));
        assert(before.push(root@) =~= roots_of(entries.deep_view()).take(i + 1));
    }
    assert(roots_of(entries.deep_view()).take(entries.len() as int) =~= roots_of(
        entries.deep_view(),
    ));
    roots
}

// ---------------------------------------------------------------------------
// Output paths
// ---------------------------------------------------------------------------

/// Output paths by derivation key and output name.
#[derive(Debug, Clone, PartialEq, Eq)]
pub struct OutputPaths {
    by_key: SortedMap<SortedMap<String>>,
}

impl View for OutputPaths {
    type V = Map<(Seq<char>, Seq<char>), Seq<char>>;

    closed spec fn view(&self) -> Map<(Seq<char>, Seq<char>), Seq<char>> {
        Map::new(
            |pair: (Seq<char>, Seq<char>)|
                self.by_key@.contains_key(pair.0) && self.by_key@[pair.0]@.contains_key(pair.1),
            |pair: (Seq<char>, Seq<char>)| self.by_key@[pair.0]@[pair.1]@,
        )
    }
}

impl DeepView for OutputPaths {
    type V = Map<(Seq<char>, Seq<char>), Seq<char>>;

    open spec fn deep_view(&self) -> Map<(Seq<char>, Seq<char>), Seq<char>> {
        self@
    }
}

impl OutputPaths {
    /// No output paths.
    pub fn new() -> (result: Self)
        ensures
            result@ == Map::<(Seq<char>, Seq<char>), Seq<char>>::empty(),
    {
        let result = OutputPaths { by_key: SortedMap::new() };
        assert(result@ =~= Map::<(Seq<char>, Seq<char>), Seq<char>>::empty());
        result
    }

    /// The path of output `name` of derivation `key`.
    pub fn get(&self, key: &str, name: &str) -> (result: Option<&String>)
        ensures
            match result {
                Some(path) => self@.contains_key((key@, name@)) && path@ == self@[(key@, name@)],
                None => !self@.contains_key((key@, name@)),
            },
    {
        match self.by_key.get(key) {
            Some(paths) => paths.get(name),
            None => None,
        }
    }

    /// Whether the path of output `name` of derivation `key` is known.
    pub fn contains(&self, key: &str, name: &str) -> (result: bool)
        ensures
            result == self@.contains_key((key@, name@)),
    {
        self.get(key, name).is_some()
    }

    /// Records the path of output `name` of derivation `key`.
    pub fn insert(&mut self, key: &str, name: &str, path: String)
        ensures
            final(self)@ == old(self)@.insert((key@, name@), path@),
    {
        let ghost before = *self;
        let mut paths = match self.by_key.remove(key) {
            Some(paths) => paths,
            None => SortedMap::new(),
        };
        paths.insert(name.to_owned(), path);
        self.by_key.insert(key.to_owned(), paths);
        assert(self@ =~= before@.insert((key@, name@), path@));
    }

    /// Every known path with its key and name.
    pub fn entries(&self) -> (result: Vec<(String, String, String)>)
        ensures
            forall|i: int|
                0 <= i < result.len() ==> self@.contains_pair(
                    ((#[trigger] result@[i]).0@, result@[i].1@),
                    result@[i].2@,
                ),
            forall|key: Seq<char>, name: Seq<char>| #[trigger]
                self@.contains_key((key, name)) ==> exists|i: int|
                    0 <= i < result.len() && (#[trigger] result@[i]).0@ == key && result@[i].1@
                        == name,
    {
        let mut out: Vec<(String, String, String)> = Vec::new();
        let keys = self.by_key.len();
        let ghost order = self.by_key.order();
        let mut i: usize = 0;
        while i < keys
            invariant
                order == self.by_key.order(),
                order.to_set() == self.by_key@.dom(),
                keys == order.len(),
                i <= keys,
                forall|k: int|
                    0 <= k < out.len() ==> self@.contains_pair(
                        ((#[trigger] out@[k]).0@, out@[k].1@),
                        out@[k].2@,
                    ),
                forall|key: Seq<char>, name: Seq<char>| #[trigger]
                    self@.contains_key((key, name)) && order.take(i as int).contains(key)
                        ==> exists|k: int|
                        0 <= k < out.len() && (#[trigger] out@[k]).0@ == key && out@[k].1@ == name,
            decreases keys - i,
        {
            let key = self.by_key.key_at(i);
            let paths = self.by_key.value_at(i);
            let names = paths.len();
            let ghost inner = paths.order();
            let mut j: usize = 0;
            while j < names
                invariant
                    order == self.by_key.order(),
                    0 <= i < order.len(),
                    key@ == order[i as int],
                    self.by_key@.contains_key(key@),
                    *paths == self.by_key@[key@],
                    inner == paths.order(),
                    inner.to_set() == paths@.dom(),
                    names == inner.len(),
                    j <= names,
                    forall|k: int|
                        0 <= k < out.len() ==> self@.contains_pair(
                            ((#[trigger] out@[k]).0@, out@[k].1@),
                            out@[k].2@,
                        ),
                    forall|key: Seq<char>, name: Seq<char>| #[trigger]
                        self@.contains_key((key, name)) && order.take(i as int).contains(key)
                            ==> exists|k: int|
                            0 <= k < out.len() && (#[trigger] out@[k]).0@ == key && out@[k].1@
                                == name,
                    forall|name: Seq<char>| #[trigger]
                        inner.take(j as int).contains(name) ==> exists|k: int|
                            0 <= k < out.len() && (#[trigger] out@[k]).0@ == key@ && out@[k].1@
                                == name,
                decreases names - j,
            {
                let ghost before = out@;
                let name = paths.key_at(j);
                let path = paths.value_at(j);
                out.push((key.clone(), name.clone(), path.clone()));
                proof {
                    assert forall|k: int| 0 <= k < before.len() implies #[trigger] before[k]
                        == out@[k] by {}
                    assert(out@[before.len() as int].0@ == key@);
                    let upto = inner.take(j + 1);
                    assert forall|other: Seq<char>| #[trigger] upto.contains(other) implies exists|
                        k: int,
                    |
                        0 <= k < out.len() && (#[trigger] out@[k]).0@ == key@ && out@[k].1@
                            == other by {
                        let at = upto.index_of(other);
                        if at < j {
                            assert(inner.take(j as int)[at] == other);
                            assert(inner.take(j as int).contains(other));
                            let k = choose|k: int|
                                0 <= k < before.len() && (#[trigger] before[k]).0@ == key@
                                    && before[k].1@ == other;
                            assert(out@[k].0@ == key@);
                        }
                    }
                    assert forall|key: Seq<char>, name: Seq<char>| #[trigger]
                        self@.contains_key((key, name)) && order.take(i as int).contains(
                            key,
                        ) implies exists|k: int|
                        0 <= k < out.len() && (#[trigger] out@[k]).0@ == key && out@[k].1@
                            == name by {
                        let k = choose|k: int|
                            0 <= k < before.len() && (#[trigger] before[k]).0@ == key
                                && before[k].1@ == name;
                        assert(out@[k].0@ == key);
                    }
                }
                j += 1;
            }
            proof {
                assert(inner.take(names as int) =~= inner);
                assert forall|other: Seq<char>, name: Seq<char>| #[trigger]
                    self@.contains_key((other, name)) && order.take(i + 1).contains(
                        other,
                    ) implies exists|k: int|
                    0 <= k < out.len() && (#[trigger] out@[k]).0@ == other && out@[k].1@
                        == name by {
                    let at = order.take(i + 1).index_of(other);
                    if at < i {
                        assert(order.take(i as int)[at] == other);
                    } else {
                        assert(other == key@);
                        assert(paths@.dom().contains(name));
                        assert(inner.to_set().contains(name));
                        assert(inner.take(names as int).contains(name));
                    }
                }
            }
            i += 1;
        }
        proof {
            assert(order.take(keys as int) =~= order);
            assert forall|key: Seq<char>, name: Seq<char>| #[trigger]
                self@.contains_key((key, name)) implies exists|k: int|
                0 <= k < out.len() && (#[trigger] out@[k]).0@ == key && out@[k].1@ == name by {
                assert(order.to_set().contains(key));
                assert(order.take(keys as int).contains(key));
            }
        }
        out
    }

    /// Takes over every path of `other`.
    pub fn extend(&mut self, other: &OutputPaths)
        ensures
            final(self)@ == old(self)@.union_prefer_right(other@),
    {
        let ghost before = self@;
        let entries = other.entries();
        let ghost all = entries@;
        for i in 0..entries.len()
            invariant
                all == entries@,
                forall|k: int|
                    0 <= k < all.len() ==> other@.contains_pair(
                        ((#[trigger] all[k]).0@, all[k].1@),
                        all[k].2@,
                    ),
                self@.dom().subset_of(before.union_prefer_right(other@).dom()),
                before.dom().subset_of(self@.dom()),
                forall|pair: (Seq<char>, Seq<char>)| #[trigger]
                    self@.contains_key(pair) ==> self@[pair] == before[pair] || (
                    other@.contains_key(pair) && self@[pair] == other@[pair]),
                forall|pair: (Seq<char>, Seq<char>)| #[trigger]
                    self@.contains_key(pair) && !other@.contains_key(pair)
                        ==> before.contains_key(pair) && self@[pair] == before[pair],
                forall|k: int|
                    0 <= k < i ==> self@.contains_pair(
                        ((#[trigger] all[k]).0@, all[k].1@),
                        all[k].2@,
                    ),
        {
            let ghost at = i as int;
            let ghost earlier = self@;
            self.insert(entries[i].0.as_str(), entries[i].1.as_str(), entries[i].2.clone());
            proof {
                let pair = (all[at].0@, all[at].1@);
                assert(other@.contains_pair(pair, all[at].2@));
                assert(self@ == earlier.insert(pair, all[at].2@));
            }
        }
        proof {
            let whole = before.union_prefer_right(other@);
            assert forall|pair: (Seq<char>, Seq<char>)| #[trigger]
                other@.contains_key(pair) implies self@.contains_key(pair) && self@[pair]
                == other@[pair] by {
                let (key, name) = pair;
                assert(other@.contains_key((key, name)));
                let k = choose|k: int|
                    0 <= k < all.len() && (#[trigger] all[k]).0@ == key && all[k].1@ == name;
                assert(self@.contains_pair((all[k].0@, all[k].1@), all[k].2@));
            }
            assert(self@ =~= whole);
        }
    }
}

/// The store directory is put in front of a path that lacks it, and cut off from
/// one that has it.
pub proof fn law_store_directory_goes_in_front(path: Seq<char>)
    ensures
        key_of("/nix/store/"@ + path) == path,
        full_path("/nix/store/"@ + path) == "/nix/store/"@ + path,
        !"/nix/store/"@.is_prefix_of(path) ==> key_of(path) == path && full_path(path)
            == "/nix/store/"@ + path,
        "/nix/store/"@.is_prefix_of(path) ==> full_path(path) == path,
{
    assert("/nix/store/"@.is_prefix_of("/nix/store/"@ + path));
    assert(("/nix/store/"@ + path).skip("/nix/store/"@.len() as int) =~= path);
}

/// Every reported derivation is found under its key, and nothing else is found.
/// Where two are reported under one key, it is the later one in order of paths.
pub proof fn law_reported_derivations_are_found(
    reported: Map<Seq<char>, NodeView>,
    path: Seq<char>,
)
    requires
        reported.dom().finite(),
    ensures
        graph_of(reported).contains_key(path) <==> exists|from: Seq<char>| #[trigger]
            reported.contains_key(from) && key_of(from) == path,
        reported.contains_key(path) && (forall|other: Seq<char>| #[trigger]
            reported.contains_key(other) && key_of(other) == key_of(path) ==> other == path)
            ==> graph_of(reported).contains_key(key_of(path)) && graph_of(reported)[key_of(path)]
            == reported[path],
{
    let paths = ascending(reported.dom());
    crate::sorted::lemma_ascending_exists(reported.dom());
    lemma_keyed(paths, reported, path);
    assert forall|t: Seq<char>| paths.contains(t) == reported.contains_key(t) by {
        assert(paths.to_set().contains(t) == reported.dom().contains(t));
    }
    if graph_of(reported).contains_key(path) {
        let i = choose|i: int| 0 <= i < paths.len() && key_of(#[trigger] paths[i]) == path;
        assert(paths.contains(paths[i]));
        assert(reported.contains_key(paths[i]) && key_of(paths[i]) == path);
    }
    if exists|from: Seq<char>| #[trigger] reported.contains_key(from) && key_of(from) == path {
        let from = choose|from: Seq<char>| #[trigger]
            reported.contains_key(from) && key_of(from) == path;
        assert(paths.contains(from));
        let i = paths.index_of(from);
        assert(key_of(paths[i]) == path);
    }
    if reported.contains_key(path) && (forall|other: Seq<char>| #[trigger]
        reported.contains_key(other) && key_of(other) == key_of(path) ==> other == path) {
        lemma_keyed(paths, reported, key_of(path));
        assert(paths.contains(path));
        let i = paths.index_of(path);
        assert(key_of(paths[i]) == key_of(path));
        let k = choose|k: int|
            0 <= k < paths.len() && key_of(#[trigger] paths[k]) == key_of(path) && graph_of(
                reported,
            )[key_of(path)] == reported[paths[k]];
        assert(paths.contains(paths[k]));
        assert(reported.contains_key(paths[k]));
    }
}

proof fn lemma_keyed(paths: Seq<Seq<char>>, nodes: Map<Seq<char>, NodeView>, key: Seq<char>)
    ensures
        keyed_nodes(paths, nodes).contains_key(key) <==> exists|i: int|
            0 <= i < paths.len() && key_of(#[trigger] paths[i]) == key,
        keyed_nodes(paths, nodes).contains_key(key) ==> exists|i: int|
            0 <= i < paths.len() && key_of(#[trigger] paths[i]) == key && keyed_nodes(
                paths,
                nodes,
            )[key] == nodes[paths[i]],
    decreases paths.len(),
{
    if paths.len() > 0 {
        let rest = paths.drop_last();
        lemma_keyed(rest, nodes, key);
        let last = paths[paths.len() - 1];
        assert(paths.last() == last);
        if key_of(last) == key {
            assert(keyed_nodes(paths, nodes)[key] == nodes[paths[paths.len() - 1]]);
        } else {
            if keyed_nodes(rest, nodes).contains_key(key) {
                let i = choose|i: int|
                    0 <= i < rest.len() && key_of(#[trigger] rest[i]) == key && keyed_nodes(
                        rest,
                        nodes,
                    )[key] == nodes[rest[i]];
                assert(paths[i] == rest[i]);
            }
            if exists|i: int| 0 <= i < paths.len() && key_of(#[trigger] paths[i]) == key {
                let i = choose|i: int| 0 <= i < paths.len() && key_of(#[trigger] paths[i]) == key;
                assert(rest[i] == paths[i]);
            }
        }
    }
}

/// Every reported installable is a root, in the order of the report, under its
/// full store path and with all the outputs that it was reported with, each once
/// and in order.
pub proof fn law_every_entry_is_a_root(entries: Seq<EntryView>, i: int)
    requires
        0 <= i < entries.len(),
        entries[i].outputs.dom().finite(),
    ensures
        roots_of(entries).len() == entries.len(),
        roots_of(entries)[i].drv == full_path(entries[i].drv_path),
        crate::sorted::is_ascending(roots_of(entries)[i].outputs),
        roots_of(entries)[i].outputs.to_set() == entries[i].outputs.dom(),
{
    crate::sorted::lemma_ascending_exists(entries[i].outputs.dom());
}

} // verus!
