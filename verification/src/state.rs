//! Generic prepared-state persistence for Crossbow prerequisite roots.
//!
//! The state file is a JSON document keyed by frozen flake ref.  Roots are
//! stored as per-label maps so callers can detect which specific labels
//! changed between prepare runs without re-evaluating Nix.

use vstd::prelude::*;

use crate::error::{outcome, Error, ErrorView, Result};
use crate::requirements::{
    difference, labels_of, law_same_roots_are_unchanged, DiffView, LabeledRoot, LabeledView,
};
use crate::sorted::{ascending, lemma_ascending_distinct, lemma_ascending_exists, SortedMap};
use crate::text;

verus! {

/// The durable state persisted after a successful `crossbow prepare`.
///
/// # Format
///
/// ```json
/// {
///   "frozen_flake_ref": "/nix/store/...-source#host-crossbow",
///   "roots": {"system-toplevel": "/nix/store/aaa...", "identity-cli": "/nix/store/bbb..."},
///   "fingerprints": {"system-toplevel": "sha256-...", "identity-cli": "sha256-..."},
///   "prepared_at": "2026-06-22T08:00:00+02:00"
/// }
/// ```
#[derive(Debug, PartialEq, Eq)]
pub struct PreparedState {
    /// Frozen flake reference at the time the roots were published.
    pub frozen_flake_ref: String,
    /// Label → store path mapping for each prerequisite root.
    pub roots: SortedMap<String>,
    /// Label → per-root sha256 fingerprint.
    pub fingerprints: SortedMap<String>,
    /// ISO 8601 timestamp of when the state was saved.
    pub prepared_at: Option<String>,
}

/// Model of a [`PreparedState`].
#[verifier::ext_equal]
pub struct PreparedView {
    pub frozen_flake_ref: Seq<char>,
    pub roots: Map<Seq<char>, Seq<char>>,
    pub fingerprints: Map<Seq<char>, Seq<char>>,
    pub prepared_at: Option<Seq<char>>,
}

impl View for PreparedState {
    type V = PreparedView;

    open spec fn view(&self) -> PreparedView {
        PreparedView {
            frozen_flake_ref: self.frozen_flake_ref@,
            roots: self.roots.deep_view(),
            fingerprints: self.fingerprints.deep_view(),
            prepared_at: self.prepared_at.deep_view(),
        }
    }
}

impl DeepView for PreparedState {
    type V = PreparedView;

    open spec fn deep_view(&self) -> PreparedView {
        self@
    }
}

impl Clone for PreparedState {
    fn clone(&self) -> (result: Self)
        ensures
            result@ == self@,
    {
        let result = PreparedState {
            frozen_flake_ref: self.frozen_flake_ref.clone(),
            roots: self.roots.clone(),
            fingerprints: self.fingerprints.clone(),
            prepared_at: self.prepared_at.clone(),
        };
        assert(result.roots.deep_view() =~= self.roots.deep_view());
        assert(result.fingerprints.deep_view() =~= self.fingerprints.deep_view());
        result
    }
}

/// Why a saved prepared state is not usable for the current rebuild.
#[derive(Debug, PartialEq, Eq)]
pub enum StateStatus {
    /// No saved state file exists.
    Missing,
    /// The flake source changed since last prepare.
    Stale {
        /// Frozen flake ref at the time of the last prepare.
        old_flake_ref: String,
        /// Current frozen flake ref.
        new_flake_ref: String,
    },
    /// All checks passed — the saved roots are still valid.
    Current(PreparedState),
}

/// Model of a [`StateStatus`].
#[verifier::ext_equal]
pub enum StatusView {
    Missing,
    Stale { old_flake_ref: Seq<char>, new_flake_ref: Seq<char> },
    Current(PreparedView),
}

impl View for StateStatus {
    type V = StatusView;

    open spec fn view(&self) -> StatusView {
        match self {
            StateStatus::Missing => StatusView::Missing,
            StateStatus::Stale { old_flake_ref, new_flake_ref } => StatusView::Stale {
                old_flake_ref: old_flake_ref@,
                new_flake_ref: new_flake_ref@,
            },
            StateStatus::Current(state) => StatusView::Current(state@),
        }
    }
}

impl DeepView for StateStatus {
    type V = StatusView;

    open spec fn deep_view(&self) -> StatusView {
        self@
    }
}

impl Clone for StateStatus {
    fn clone(&self) -> (result: Self)
        ensures
            result@ == self@,
    {
        match self {
            StateStatus::Missing => StateStatus::Missing,
            StateStatus::Stale { old_flake_ref, new_flake_ref } => StateStatus::Stale {
                old_flake_ref: old_flake_ref.clone(),
                new_flake_ref: new_flake_ref.clone(),
            },
            StateStatus::Current(state) => StateStatus::Current(state.clone()),
        }
    }
}

/// What a state file holds.
#[derive(Debug)]
pub enum SavedState {
    /// There is no state file.
    Absent,
    /// The state file could not be read.
    Unreadable {
        /// Message of the failure.
        source: String,
    },
    /// The state file holds no prepared state.
    Malformed {
        /// Message of the failure.
        source: String,
    },
    /// The state file holds this state.
    Prepared(PreparedState),
}

/// The standing of a saved state for a frozen flake ref.
pub open spec fn standing(
    path: Seq<char>,
    saved: SavedState,
    frozen_flake_ref: Seq<char>,
) -> std::result::Result<StatusView, ErrorView> {
    match saved {
        SavedState::Absent => Ok(StatusView::Missing),
        SavedState::Unreadable { source } => Err(
            ErrorView::NixStoreRead { file: path, source: source@ },
        ),
        SavedState::Malformed { source } => Err(ErrorView::MetadataJson { source: source@ }),
        SavedState::Prepared(state) => if state@.frozen_flake_ref == frozen_flake_ref {
            Ok(StatusView::Current(state@))
        } else {
            Ok(
                StatusView::Stale {
                    old_flake_ref: state@.frozen_flake_ref,
                    new_flake_ref: frozen_flake_ref,
                },
            )
        },
    }
}

/// Judges the prepared state saved at `path`, keyed by `frozen_flake_ref`.
///
/// Returns:
/// - `StateStatus::Missing` when the file does not exist.
/// - `StateStatus::Stale` when the file exists but the ref has changed
///   (the caller deletes the stale file).
/// - `StateStatus::Current(prepared_state)` when the ref matches.
pub fn load_prepared_state(
    path: &str,
    saved: SavedState,
    frozen_flake_ref: &str,
) -> (result: Result<StateStatus>)
    ensures
        outcome(result) == standing(path@, saved, frozen_flake_ref@),
{
    match saved {
        SavedState::Absent => Ok(StateStatus::Missing),
        SavedState::Unreadable { source } => Err(
            Error::NixStoreRead { file: path.to_owned(), source },
        ),
        SavedState::Malformed { source } => Err(Error::MetadataJson { source }),
        SavedState::Prepared(state) => {
            if text::same(state.frozen_flake_ref.as_str(), frozen_flake_ref) {
                Ok(StateStatus::Current(state))
            } else {
                Ok(
                    StateStatus::Stale {
                        old_flake_ref: state.frozen_flake_ref,
                        new_flake_ref: frozen_flake_ref.to_owned(),
                    },
                )
            }
        },
    }
}

/// Path to the state file for a given host, rooted at `base_dir`.
pub open spec fn state_path(base_dir: Seq<char>, host: Seq<char>) -> Seq<char> {
    text::path_with(base_dir, "crossbow-prepared-"@ + host + ".json"@)
}

/// Path to the state file for a given host, rooted at `base_dir`.
pub fn state_file_path(base_dir: &str, host: &str) -> (result: String)
    ensures
        result@ == state_path(base_dir@, host@),
{
    let name = "crossbow-prepared-".to_owned().concat(host).concat(".json");
    text::join_path(base_dir, name.as_str())
}

/// The root that a state holds under a label.
pub open spec fn prepared_root(state: PreparedView, label: Seq<char>) -> LabeledView {
    LabeledView {
        label,
        path: state.roots[label],
        fingerprint: if state.fingerprints.contains_key(label) {
            state.fingerprints[label]
        } else {
            Seq::empty()
        },
    }
}

/// The roots that a state holds, in the order of their labels.
pub open spec fn prepared_roots(state: PreparedView) -> Seq<LabeledView> {
    ascending(state.roots.dom()).map_values(|label: Seq<char>| prepared_root(state, label))
}

/// Convert a `PreparedState` into a `Vec<LabeledRoot>` for use with
/// `diff_roots`.
pub fn state_to_labeled_roots(state: &PreparedState) -> (result: Vec<LabeledRoot>)
    ensures
        result.deep_view() == prepared_roots(state@),
{
    let ghost all = prepared_roots(state@);
    let count = state.roots.len();
    assert(state.roots.deep_view().dom() =~= state.roots@.dom());
    let mut labeled: Vec<LabeledRoot> = Vec::new();
    for i in 0..count
        invariant
            all == prepared_roots(state@),
            state.roots.deep_view().dom() == state.roots@.dom(),
            count == state.roots.order().len(),
            labeled.deep_view() == all.take(i as int),
    {
        let label = state.roots.key_at(i);
        let path = state.roots.value_at(i);
        let fingerprint = match state.fingerprints.get(label.as_str()) {
            Some(fingerprint) => fingerprint.clone(),
            None => String::new(),
        };
        let root = LabeledRoot { label: label.clone(), path: path.clone(), fingerprint };
        let ghost view = root@;
        let ghost before = labeled.deep_view();
        assert(view == all[i as int]);
        labeled.push(root);
        assert(labeled.deep_view() =~= before.push(view));
        assert(labeled.deep_view() =~= all.take(i + 1));
    }
    assert(all.take(count as int) =~= all);
    labeled
}

// ---------------------------------------------------------------------------
// Laws
// ---------------------------------------------------------------------------

/// A saved state is current for the flake ref it was saved with, and comes back
/// as it was saved; for every other ref it is stale, and its roots are not
/// handed out.
pub proof fn law_saved_state_is_keyed_by_its_ref(
    path: Seq<char>,
    state: PreparedState,
    frozen_flake_ref: Seq<char>,
)
    ensures
        standing(path, SavedState::Prepared(state), frozen_flake_ref) == Ok::<
            StatusView,
            ErrorView,
        >(StatusView::Current(state@)) <==> frozen_flake_ref == state@.frozen_flake_ref,
        frozen_flake_ref != state@.frozen_flake_ref ==> standing(
            path,
            SavedState::Prepared(state),
            frozen_flake_ref,
        ) == Ok::<StatusView, ErrorView>(
            StatusView::Stale {
                old_flake_ref: state@.frozen_flake_ref,
                new_flake_ref: frozen_flake_ref,
            },
        ),
{
}

/// The roots of a state, compared with themselves, are all unchanged, where the
/// state holds a fingerprint for each.
pub proof fn law_prepared_roots_are_unchanged(state: PreparedView)
    requires
        state.roots.dom().finite(),
        forall|label: Seq<char>| #[trigger]
            state.roots.contains_key(label) ==> state.fingerprints.contains_key(label)
                && state.fingerprints[label].len() > 0,
    ensures
        difference(prepared_roots(state), prepared_roots(state)) == (DiffView {
            added: Seq::empty(),
            changed: Seq::empty(),
            unchanged: prepared_roots(state),
            removed: Seq::empty(),
        }),
{
    let order = ascending(state.roots.dom());
    let roots = prepared_roots(state);
    lemma_ascending_exists(state.roots.dom());
    assert(labels_of(roots) =~= order);
    assert forall|i: int, j: int| 0 <= i < j < order.len() implies order[i] != order[j] by {
        lemma_ascending_distinct(order, j);
        assert(order.take(j)[i] == order[i]);
    }
    assert forall|i: int| 0 <= i < roots.len() implies (
    #[trigger] roots[i]).fingerprint.len() > 0 by {
        assert(order.to_set().contains(order[i]));
        assert(state.roots.contains_key(order[i]));
    }
    law_same_roots_are_unchanged(roots);
}

/// What a saved state says that could not be used: one that is not there is
/// missing, one that cannot be read or understood is an error.
pub proof fn law_unusable_states_are_told_apart(
    path: Seq<char>,
    saved: SavedState,
    frozen_flake_ref: Seq<char>,
)
    ensures
        standing(path, saved, frozen_flake_ref) == Ok::<StatusView, ErrorView>(StatusView::Missing)
            <==> saved is Absent,
        saved matches SavedState::Unreadable { source } ==> standing(path, saved, frozen_flake_ref)
            == Err::<StatusView, ErrorView>(
            ErrorView::NixStoreRead { file: path, source: source@ },
        ),
        saved matches SavedState::Malformed { source } ==> standing(path, saved, frozen_flake_ref)
            == Err::<StatusView, ErrorView>(ErrorView::MetadataJson { source: source@ }),
{
}

/// The state of a host is in a file of its own in the given directory.
pub proof fn law_each_host_has_its_state_file(base_dir: Seq<char>, host: Seq<char>)
    ensures
        ({
            let name = "crossbow-prepared-"@ + host + ".json"@;
            &&& state_path(base_dir.push('/'), host) == base_dir.push('/') + name
            &&& base_dir.len() > 0 && base_dir.last() != '/' ==> state_path(base_dir, host)
                == base_dir.push('/') + name
            &&& state_path(Seq::empty(), host) == name
        }),
{
    reveal_strlit("/");
    let name = "crossbow-prepared-"@ + host + ".json"@;
    assert(base_dir + "/"@ + name =~= base_dir.push('/') + name);
    assert(base_dir.push('/').last() == '/');
    assert(Seq::<char>::empty() + name =~= name);
}

/// Every prepared root is listed once, in the order of labels, with its path and
/// with its fingerprint where it has one.
pub proof fn law_every_prepared_root_is_listed(state: PreparedView, i: int)
    requires
        state.roots.dom().finite(),
        0 <= i < prepared_roots(state).len(),
    ensures
        crate::sorted::is_ascending(
            prepared_roots(state).map_values(|root: LabeledView| root.label),
        ),
        prepared_roots(state).map_values(|root: LabeledView| root.label).to_set()
            == state.roots.dom(),
        state.roots.contains_key(prepared_roots(state)[i].label),
        prepared_roots(state)[i].path == state.roots[prepared_roots(state)[i].label],
        prepared_roots(state)[i].fingerprint == if state.fingerprints.contains_key(
            prepared_roots(state)[i].label,
        ) {
            state.fingerprints[prepared_roots(state)[i].label]
        } else {
            Seq::empty()
        },
{
    let labels = ascending(state.roots.dom());
    crate::sorted::lemma_ascending_exists(state.roots.dom());
    assert(prepared_roots(state).map_values(|root: LabeledView| root.label) =~= labels);
    assert(labels.to_set().contains(labels[i]));
}

} // verus!
