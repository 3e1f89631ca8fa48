//! Parsed contents of a Crossbow requirements artifact: the roots that must be
//! published before activation, and how they change between two runs.

use vstd::prelude::*;

use crate::error::{outcome, Error, ErrorView, Result};
use crate::text;

verus! {

// ---------------------------------------------------------------------------
// The artifact
// ---------------------------------------------------------------------------

/// What reading a file gave.
#[derive(Debug)]
pub enum FileRead {
    /// The file holds this text.
    Content(String),
    /// There is no such file.
    Absent {
        /// Message of the failure.
        source: String,
    },
    /// The file could not be read.
    Failed {
        /// Message of the failure.
        source: String,
    },
}

/// The files of an artifact directory.
#[derive(Debug)]
pub struct ArtifactFiles {
    /// The file `roots`.
    pub roots: FileRead,
    /// The file `drvs`.
    pub drvs: FileRead,
    /// The file `fingerprint`.
    pub fingerprint: FileRead,
    /// The file `root-labels`.
    pub root_labels: FileRead,
    /// The file `root-fingerprints`.
    pub root_fingerprints: FileRead,
}

/// Parsed contents of a `crossbowRequirements` derivation output directory.
///
/// It contains a `roots` file (one realised store path per line), a `drvs` file
/// (one `.drv` path per line), and optional metadata.
#[derive(Debug, PartialEq, Eq)]
pub struct RequirementsArtifact {
    /// Realised store paths that must be pre-published before activation.
    pub roots: Vec<String>,
    /// `.drv` paths whose realisation produces the corresponding `roots`.
    pub drvs: Vec<String>,
    /// Stable sha256 fingerprint of the roots list.
    ///
    /// `None` for artifacts produced by older Crossbow versions that did not
    /// emit a fingerprint.  Equal fingerprints imply equal root sets.
    pub fingerprint: Option<String>,
    /// Human-readable labels for each root, in the same order as `roots`.
    ///
    /// Empty when the artifact was produced by an older Crossbow version that
    /// did not emit per-root labels.
    pub root_labels: Vec<String>,
    /// Per-root sha256 fingerprints, in the same order as `roots`.
    ///
    /// Empty when the artifact was produced by an older Crossbow version.
    pub root_fingerprints: Vec<String>,
}

/// Model of a [`RequirementsArtifact`].
#[verifier::ext_equal]
pub struct ArtifactView {
    pub roots: Seq<Seq<char>>,
    pub drvs: Seq<Seq<char>>,
    pub fingerprint: Option<Seq<char>>,
    pub root_labels: Seq<Seq<char>>,
    pub root_fingerprints: Seq<Seq<char>>,
}

impl View for RequirementsArtifact {
    type V = ArtifactView;

    open spec fn view(&self) -> ArtifactView {
        ArtifactView {
            roots: self.roots.deep_view(),
            drvs: self.drvs.deep_view(),
            fingerprint: self.fingerprint.deep_view(),
            root_labels: self.root_labels.deep_view(),
            root_fingerprints: self.root_fingerprints.deep_view(),
        }
    }
}

impl DeepView for RequirementsArtifact {
    type V = ArtifactView;

    open spec fn deep_view(&self) -> ArtifactView {
        self@
    }
}

impl Clone for RequirementsArtifact {
    fn clone(&self) -> (result: Self)
        ensures
            result@ == self@,
    {
        RequirementsArtifact {
            roots: text::copy_list(self.roots.as_slice()),
            drvs: text::copy_list(self.drvs.as_slice()),
            fingerprint: self.fingerprint.clone(),
            root_labels: text::copy_list(self.root_labels.as_slice()),
            root_fingerprints: text::copy_list(self.root_fingerprints.as_slice()),
        }
    }
}

/// The lines of a file that must be there.
pub open spec fn required_lines(file: Seq<char>, read: FileRead) -> std::result::Result<
    Seq<Seq<char>>,
    ErrorView,
> {
    match read {
        FileRead::Content(content) => Ok(text::trimmed_lines(content@)),
        FileRead::Absent { source } => Err(ErrorView::NixStoreRead { file, source: source@ }),
        FileRead::Failed { source } => Err(ErrorView::NixStoreRead { file, source: source@ }),
    }
}

/// The lines of a file that may be missing.
pub open spec fn optional_lines(file: Seq<char>, read: FileRead) -> std::result::Result<
    Seq<Seq<char>>,
    ErrorView,
> {
    match read {
        FileRead::Content(content) => Ok(text::trimmed_lines(content@)),
        FileRead::Absent { .. } => Ok(Seq::empty()),
        FileRead::Failed { source } => Err(ErrorView::NixStoreRead { file, source: source@ }),
    }
}

/// The text of a file that may be missing, without the white space around it.
pub open spec fn optional_text(file: Seq<char>, read: FileRead) -> std::result::Result<
    Option<Seq<char>>,
    ErrorView,
> {
    match read {
        FileRead::Content(content) => Ok(Some(text::trimmed(content@))),
        FileRead::Absent { .. } => Ok(None),
        FileRead::Failed { source } => Err(ErrorView::NixStoreRead { file, source: source@ }),
    }
}

fn read_lines(file: String, read: FileRead) -> (result: Result<Vec<String>>)
    ensures
        outcome(result) == required_lines(file@, read),
{
    match read {
        FileRead::Content(content) => Ok(text::nonblank_lines(content.as_str())),
        FileRead::Absent { source } => Err(Error::NixStoreRead { file, source }),
        FileRead::Failed { source } => Err(Error::NixStoreRead { file, source }),
    }
}

fn read_lines_optional(file: String, read: FileRead) -> (result: Result<Vec<String>>)
    ensures
        outcome(result) == optional_lines(file@, read),
{
    match read {
        FileRead::Content(content) => Ok(text::nonblank_lines(content.as_str())),
        FileRead::Absent { .. } => {
            let none: Vec<String> = Vec::new();
            assert(none.deep_view() =~= Seq::<Seq<char>>::empty());
            Ok(none)
        },
        FileRead::Failed { source } => Err(Error::NixStoreRead { file, source }),
    }
}

fn read_file_optional(file: String, read: FileRead) -> (result: Result<Option<String>>)
    ensures
        outcome(result) == optional_text(file@, read),
{
    match read {
        FileRead::Content(content) => Ok(Some(text::trim(content.as_str()))),
        FileRead::Absent { .. } => Ok(None),
        FileRead::Failed { source } => Err(Error::NixStoreRead { file, source }),
    }
}

/// The artifact that files hold; the first file that cannot be read decides the
/// error.
pub open spec fn artifact_in(path: Seq<char>, files: ArtifactFiles) -> std::result::Result<
    ArtifactView,
    ErrorView,
> {
    match required_lines(text::path_with(path, "roots"@), files.roots) {
        Err(error) => Err(error),
        Ok(roots) => match required_lines(text::path_with(path, "drvs"@), files.drvs) {
            Err(error) => Err(error),
            Ok(drvs) => match optional_text(
                text::path_with(path, "fingerprint"@),
                files.fingerprint,
            ) {
                Err(error) => Err(error),
                Ok(fingerprint) => match optional_lines(
                    text::path_with(path, "root-labels"@),
                    files.root_labels,
                ) {
                    Err(error) => Err(error),
                    Ok(root_labels) => match optional_lines(
                        text::path_with(path, "root-fingerprints"@),
                        files.root_fingerprints,
                    ) {
                        Err(error) => Err(error),
                        Ok(root_fingerprints) => Ok(
                            ArtifactView {
                                roots,
                                drvs,
                                fingerprint,
                                root_labels,
                                root_fingerprints,
                            },
                        ),
                    },
                },
            },
        },
    }
}

impl RequirementsArtifact {
    /// Read a requirements artifact from the files in `artifact_path`, which is
    /// the output path of a realised `crossbowRequirements` derivation.
    pub fn read(artifact_path: &str, files: ArtifactFiles) -> (result: Result<Self>)
        ensures
            outcome(result) == artifact_in(artifact_path@, files),
    {
        let roots = match read_lines(text::join_path(artifact_path, "roots"), files.roots) {
            Ok(roots) => roots,
            Err(error) => {
                return Err(error);
            },
        };
        let drvs = match read_lines(text::join_path(artifact_path, "drvs"), files.drvs) {
            Ok(drvs) => drvs,
            Err(error) => {
                return Err(error);
            },
        };
        let fingerprint = match read_file_optional(
            text::join_path(artifact_path, "fingerprint"),
            files.fingerprint,
        ) {
            Ok(fingerprint) => fingerprint,
            Err(error) => {
                return Err(error);
            },
        };
        let root_labels = match read_lines_optional(
            text::join_path(artifact_path, "root-labels"),
            files.root_labels,
        ) {
            Ok(root_labels) => root_labels,
            Err(error) => {
                return Err(error);
            },
        };
        let root_fingerprints = match read_lines_optional(
            text::join_path(artifact_path, "root-fingerprints"),
            files.root_fingerprints,
        ) {
            Ok(root_fingerprints) => root_fingerprints,
            Err(error) => {
                return Err(error);
            },
        };
        Ok(RequirementsArtifact { roots, drvs, fingerprint, root_labels, root_fingerprints })
    }
}

// ---------------------------------------------------------------------------
// Labeled roots
// ---------------------------------------------------------------------------

/// One labeled prerequisite root, assembled from a requirements artifact.
///
/// A labeled root pairs a human-readable label (e.g. `"system-toplevel"`,
/// `"identity-cli"`) with its store path and per-root fingerprint.  Used to
/// track which roots changed between prepare runs.
#[derive(Debug, PartialEq, Eq)]
pub struct LabeledRoot {
    /// Human-readable label such as `"system-toplevel"` or `"identity-cli"`.
    pub label: String,
    /// Realised store path of this root.
    pub path: String,
    /// Per-root sha256 fingerprint.  Equal fingerprints imply an unchanged root.
    pub fingerprint: String,
}

/// Model of a [`LabeledRoot`].
#[verifier::ext_equal]
pub struct LabeledView {
    pub label: Seq<char>,
    pub path: Seq<char>,
    pub fingerprint: Seq<char>,
}

impl View for LabeledRoot {
    type V = LabeledView;

    open spec fn view(&self) -> LabeledView {
        LabeledView { label: self.label@, path: self.path@, fingerprint: self.fingerprint@ }
    }
}

impl DeepView for LabeledRoot {
    type V = LabeledView;

    open spec fn deep_view(&self) -> LabeledView {
        self@
    }
}

impl Clone for LabeledRoot {
    fn clone(&self) -> (result: Self)
        ensures
            result@ == self@,
    {
        LabeledRoot {
            label: self.label.clone(),
            path: self.path.clone(),
            fingerprint: self.fingerprint.clone(),
        }
    }
}

/// The root at `i` of an artifact, with its label and fingerprint. Without one
/// label for each root the labels are made up; without one fingerprint for each
/// root the fingerprints are empty.
pub open spec fn labeled_root(artifact: ArtifactView, i: int) -> LabeledView {
    LabeledView {
        label: if artifact.root_labels.len() == artifact.roots.len() {
            artifact.root_labels[i]
        } else {
            "root-"@ + text::decimal(i as nat)
        },
        path: artifact.roots[i],
        fingerprint: if artifact.root_fingerprints.len() == artifact.roots.len() {
            artifact.root_fingerprints[i]
        } else {
            Seq::empty()
        },
    }
}

/// The labeled roots of an artifact.
pub open spec fn labeled_roots(artifact: ArtifactView) -> Seq<LabeledView> {
    Seq::new(artifact.roots.len(), |i: int| labeled_root(artifact, i))
}

/// Pair up `roots`, `root_labels`, and `root_fingerprints` from an artifact.
///
/// When the artifact has no labels or fingerprints (legacy format), synthetic
/// labels `root-0`, `root-1`, … are generated and fingerprints are left empty.
/// This ensures the caller can always iterate over labeled roots.
pub fn label_roots(artifact: &RequirementsArtifact) -> (result: Vec<LabeledRoot>)
    ensures
        result.deep_view() == labeled_roots(artifact@),
{
    let count = artifact.roots.len();
    let has_labels = artifact.root_labels.len() == count;
    let has_fingerprints = artifact.root_fingerprints.len() == count;
    let ghost all = labeled_roots(artifact@);
    let mut labeled: Vec<LabeledRoot> = Vec::new();
    for i in 0..count
        invariant
            all == labeled_roots(artifact@),
            count == artifact.roots.len(),
            has_labels == (artifact.root_labels.len() == count),
            has_fingerprints == (artifact.root_fingerprints.len() == count),
            labeled.deep_view() == all.take(i as int),
    {
        let label = if has_labels {
            artifact.root_labels[i].clone()
        } else {
            "root-".to_owned().concat(text::to_decimal(i as u64).as_str())
        };
        let fingerprint = if has_fingerprints {
            artifact.root_fingerprints[i].clone()
        } else {
            String::new()
        };
        let root = LabeledRoot { label, path: artifact.roots[i].clone(), fingerprint };
        let ghost view = root@;
        let ghost before = labeled.deep_view();
        assert(view == all[i as int]);
        labeled.push(root);
        assert(labeled.deep_view() =~= before.push(view));
        assert(labeled.deep_view() =~= all.take(i + 1));
    }
    assert(all.take(count as int) =~= all);
    labeled
}

// ---------------------------------------------------------------------------
// Differences
// ---------------------------------------------------------------------------

/// What changed between two sets of labeled roots.
#[derive(Debug, PartialEq, Eq)]
pub struct RootDiff {
    /// Labels present in `new` but absent from `old`.
    pub added: Vec<LabeledRoot>,
    /// Labels present in both but with a different fingerprint.
    pub changed: Vec<LabeledRoot>,
    /// Labels present in both with the same fingerprint.
    pub unchanged: Vec<LabeledRoot>,
    /// Labels present in `old` but absent from `new`.
    pub removed: Vec<String>,
}

/// Model of a [`RootDiff`].
#[verifier::ext_equal]
pub struct DiffView {
    pub added: Seq<LabeledView>,
    pub changed: Seq<LabeledView>,
    pub unchanged: Seq<LabeledView>,
    pub removed: Seq<Seq<char>>,
}

impl View for RootDiff {
    type V = DiffView;

    open spec fn view(&self) -> DiffView {
        DiffView {
            added: self.added.deep_view(),
            changed: self.changed.deep_view(),
            unchanged: self.unchanged.deep_view(),
            removed: self.removed.deep_view(),
        }
    }
}

/// The last of some roots that has a label.
pub open spec fn root_labeled(roots: Seq<LabeledView>, label: Seq<char>) -> Option<LabeledView>
    decreases roots.len(),
{
    if roots.len() == 0 {
        None
    } else if roots.last().label == label {
        Some(roots.last())
    } else {
        root_labeled(roots.drop_last(), label)
    }
}

/// How a root relates to the earlier roots.
#[derive(Debug, Clone, Copy, PartialEq, Eq, Structural)]
pub enum RootChange {
    /// No earlier root has its label.
    Added,
    /// The earlier root of its label has another fingerprint, or none is known.
    Changed,
    /// The earlier root of its label has the same fingerprint.
    Unchanged,
}

/// How a root relates to the earlier roots.
pub open spec fn change_of(earlier: Seq<LabeledView>, root: LabeledView) -> RootChange {
    match root_labeled(earlier, root.label) {
        None => RootChange::Added,
        Some(previous) => if previous.fingerprint == root.fingerprint && root.fingerprint.len()
            > 0 {
            RootChange::Unchanged
        } else {
            RootChange::Changed
        },
    }
}

/// The later roots that relate to the earlier ones in one way.
pub open spec fn roots_with(
    earlier: Seq<LabeledView>,
    later: Seq<LabeledView>,
    change: RootChange,
) -> Seq<LabeledView> {
    later.filter(|root: LabeledView| change_of(earlier, root) == change)
}

/// The labels of some roots.
pub open spec fn labels_of(roots: Seq<LabeledView>) -> Seq<Seq<char>> {
    roots.map_values(|root: LabeledView| root.label)
}

/// The labels that no later root has.
pub open spec fn labels_removed(earlier: Seq<LabeledView>, later: Seq<LabeledView>) -> Seq<
    Seq<char>,
> {
    labels_of(earlier).filter(|label: Seq<char>| root_labeled(later, label) is None)
}

/// The difference between two lists of roots.
pub open spec fn difference(earlier: Seq<LabeledView>, later: Seq<LabeledView>) -> DiffView {
    DiffView {
        added: roots_with(earlier, later, RootChange::Added),
        changed: roots_with(earlier, later, RootChange::Changed),
        unchanged: roots_with(earlier, later, RootChange::Unchanged),
        removed: labels_removed(earlier, later),
    }
}

/// The last of some roots that has a label.
fn find_root<'a>(roots: &'a [LabeledRoot], label: &str) -> (result: Option<&'a LabeledRoot>)
    ensures
        result.deep_view() == root_labeled(roots.deep_view(), label@),
{
    let ghost all = roots.deep_view();
    let mut i: usize = roots.len();
    assert(all.take(i as int) =~= all);
    while i > 0
        invariant
            i <= roots.len(),
            all == roots.deep_view(),
            root_labeled(all, label@) == root_labeled(all.take(i as int), label@),
        decreases i,
    {
        i = i - 1;
        assert(all.take(i + 1).last() == roots@[i as int]@);
        assert(all.take(i + 1).drop_last() =~= all.take(i as int));
        if text::same(roots[i].label.as_str(), label) {
            return Some(&roots[i]);
        }
    }
    None
}

/// How a root relates to the earlier roots.
fn compare_root(earlier: &[LabeledRoot], root: &LabeledRoot) -> (result: RootChange)
    ensures
        result == change_of(earlier.deep_view(), root@),
{
    match find_root(earlier, root.label.as_str()) {
        None => RootChange::Added,
        Some(previous) => {
            if text::same(previous.fingerprint.as_str(), root.fingerprint.as_str())
                && !root.fingerprint.as_str().is_empty() {
                RootChange::Unchanged
            } else {
                RootChange::Changed
            }
        },
    }
}

fn collect_roots(earlier: &[LabeledRoot], later: &[LabeledRoot], change: RootChange) -> (result:
    Vec<LabeledRoot>)
    ensures
        result.deep_view() == roots_with(earlier.deep_view(), later.deep_view(), change),
{
    let ghost old_roots = earlier.deep_view();
    let ghost all = later.deep_view();
    let ghost pred = |root: LabeledView| change_of(old_roots, root) == change;
    let mut found: Vec<LabeledRoot> = Vec::new();
    proof {
        reveal(Seq::filter);
        assert(all.take(0).filter(pred) =~= Seq::empty());
    }
    for i in 0..later.len()
        invariant
            old_roots == earlier.deep_view(),
            all == later.deep_view(),
            pred == (|root: LabeledView| change_of(old_roots, root) == change),
            found.deep_view() == all.take(i as int).filter(pred),
    {
        proof {
            reveal(Seq::filter);
            assert(all.take(i + 1).drop_last() =~= all.take(i as int));
            assert(all.take(i + 1).last() == later@[i as int]@);
        }
        let root = &later[i];
        if compare_root(earlier, root) == change {
            let copy = root.clone();
            let ghost view = copy@;
            let ghost before = found.deep_view();
            found.push(copy);
            assert(found.deep_view() =~= before.push(view));
        }
    }
    assert(all.take(later.len() as int) =~= all);
    found
}

fn collect_removed(earlier: &[LabeledRoot], later: &[LabeledRoot]) -> (result: Vec<String>)
    ensures
        result.deep_view() == labels_removed(earlier.deep_view(), later.deep_view()),
{
    let ghost new_roots = later.deep_view();
    let ghost all = labels_of(earlier.deep_view());
    let ghost pred = |label: Seq<char>| root_labeled(new_roots, label) is None;
    let mut found: Vec<String> = Vec::new();
    proof {
        reveal(Seq::filter);
        assert(all.take(0).filter(pred) =~= Seq::empty());
    }
    for i in 0..earlier.len()
        invariant
            new_roots == later.deep_view(),
            all == labels_of(earlier.deep_view()),
            pred == (|label: Seq<char>| root_labeled(new_roots, label) is None),
            found.deep_view() == all.take(i as int).filter(pred),
    {
        proof {
            reveal(Seq::filter);
            assert(all.take(i + 1).drop_last() =~= all.take(i as int));
            assert(all.take(i + 1).last() == earlier@[i as int].label@);
        }
        let label = &earlier[i].label;
        if find_root(later, label.as_str()).is_none() {
            text::add_item(&mut found, label.clone());
        }
    }
    assert(all.take(earlier.len() as int) =~= all);
    found
}

/// Compare old and new labeled roots, returning which labels are new, changed,
/// unchanged, or removed.
///
/// An empty fingerprint never matches: such a root counts as changed.
pub fn diff_roots(earlier: &[LabeledRoot], later: &[LabeledRoot]) -> (result: RootDiff)
    ensures
        result@ == difference(earlier.deep_view(), later.deep_view()),
{
    RootDiff {
        added: collect_roots(earlier, later, RootChange::Added),
        changed: collect_roots(earlier, later, RootChange::Changed),
        unchanged: collect_roots(earlier, later, RootChange::Unchanged),
        removed: collect_removed(earlier, later),
    }
}

// ---------------------------------------------------------------------------
// Laws
// ---------------------------------------------------------------------------

proof fn lemma_filter_contains<A>(items: Seq<A>, pred: spec_fn(A) -> bool, item: A)
    ensures
        items.filter(pred).contains(item) <==> items.contains(item) && pred(item),
    decreases items.len(),
{
    reveal(Seq::filter);
    if items.len() > 0 {
        let rest = items.drop_last();
        lemma_filter_contains(rest, pred, item);
        assert(items.contains(item) <==> rest.contains(item) || items.last() == item) by {
            if items.contains(item) {
                let i = items.index_of(item);
                if i < items.len() - 1 {
                    assert(rest[i] == item);
                }
            }
            if rest.contains(item) {
                assert(items[rest.index_of(item)] == item);
            }
        }
        if pred(items.last()) {
            let earlier = rest.filter(pred);
            assert(earlier.push(items.last()).contains(item) <==> earlier.contains(item)
                || items.last() == item) by {
                if earlier.contains(item) {
                    assert(earlier.push(items.last())[earlier.index_of(item)] == item);
                }
                assert(earlier.push(items.last())[earlier.len() as int] == items.last());
            }
        }
    }
}

/// Every new root is reported exactly once, as added, changed or unchanged.
pub proof fn law_every_new_root_is_reported_once(
    earlier: Seq<LabeledView>,
    later: Seq<LabeledView>,
)
    ensures
        ({
            let diff = difference(earlier, later);
            diff.added.len() + diff.changed.len() + diff.unchanged.len() == later.len()
        }),
    decreases later.len(),
{
    reveal(Seq::filter);
    if later.len() > 0 {
        law_every_new_root_is_reported_once(earlier, later.drop_last());
    }
}

/// A root is reported as added when no earlier root has its label, as unchanged
/// when the earlier root of that label has the same known fingerprint, and as
/// changed otherwise.
pub proof fn law_reported_as_it_changed(
    earlier: Seq<LabeledView>,
    later: Seq<LabeledView>,
    root: LabeledView,
)
    requires
        later.contains(root),
    ensures
        difference(earlier, later).added.contains(root) <==> !labels_of(earlier).contains(
            root.label,
        ),
        difference(earlier, later).unchanged.contains(root) ==> root.fingerprint.len() > 0
            && exists|i: int|
            0 <= i < earlier.len() && (#[trigger] earlier[i]).label == root.label
                && earlier[i].fingerprint == root.fingerprint,
        root.fingerprint.len() == 0 ==> !difference(earlier, later).unchanged.contains(root),
        difference(earlier, later).changed.contains(root) <==> labels_of(earlier).contains(
            root.label,
        ) && !difference(earlier, later).unchanged.contains(root),
{
    lemma_filter_contains(
        later,
        |r: LabeledView| change_of(earlier, r) == RootChange::Changed,
        root,
    );
    lemma_filter_contains(
        later,
        |r: LabeledView| change_of(earlier, r) == RootChange::Added,
        root,
    );
    lemma_filter_contains(
        later,
        |r: LabeledView| change_of(earlier, r) == RootChange::Unchanged,
        root,
    );
    lemma_root_labeled(earlier, root.label);
}

proof fn lemma_root_labeled(roots: Seq<LabeledView>, label: Seq<char>)
    ensures
        match root_labeled(roots, label) {
            None => !labels_of(roots).contains(label),
            Some(root) => labels_of(roots).contains(label) && root.label == label && exists|i: int|

                0 <= i < roots.len() && #[trigger] roots[i] == root,
        },
    decreases roots.len(),
{
    let labels = labels_of(roots);
    if roots.len() > 0 {
        let rest = roots.drop_last();
        lemma_root_labeled(rest, label);
        assert(labels_of(rest) =~= labels.drop_last());
        if roots.last().label == label {
            assert(labels[roots.len() - 1] == label);
            assert(roots[roots.len() - 1] == roots.last());
        } else if let Some(root) = root_labeled(rest, label) {
            let i = choose|i: int| 0 <= i < rest.len() && #[trigger] rest[i] == root;
            assert(roots[i] == root);
            assert(labels[i] == label);
        } else if labels.contains(label) {
            let i = labels.index_of(label);
            assert(labels.drop_last()[i] == label);
        }
    }
}

/// A label is reported as removed exactly when an earlier root has it and no
/// later root does.
pub proof fn law_removed_labels(
    earlier: Seq<LabeledView>,
    later: Seq<LabeledView>,
    label: Seq<char>,
)
    ensures
        difference(earlier, later).removed.contains(label) <==> labels_of(earlier).contains(label)
            && !labels_of(later).contains(label),
{
    lemma_filter_contains(
        labels_of(earlier),
        |l: Seq<char>| root_labeled(later, l) is None,
        label,
    );
    lemma_root_labeled(later, label);
}

/// Comparing roots with themselves reports all of them as unchanged, where no
/// two share a label and each has a fingerprint.
pub proof fn law_same_roots_are_unchanged(roots: Seq<LabeledView>)
    requires
        labels_of(roots).no_duplicates(),
        forall|i: int| 0 <= i < roots.len() ==> (#[trigger] roots[i]).fingerprint.len() > 0,
    ensures
        difference(roots, roots) == (DiffView {
            added: Seq::empty(),
            changed: Seq::empty(),
            unchanged: roots,
            removed: Seq::empty(),
        }),
{
    assert forall|i: int| 0 <= i < roots.len() implies change_of(roots, #[trigger] roots[i])
        == RootChange::Unchanged by {
        lemma_root_labeled(roots, roots[i].label);
        let found = root_labeled(roots, roots[i].label);
        assert(labels_of(roots)[i] == roots[i].label);
        let j = choose|j: int| 0 <= j < roots.len() && #[trigger] roots[j] == found->0;
        assert(labels_of(roots)[j] == roots[j].label);
    }
    lemma_all_or_none(roots, |r: LabeledView| change_of(roots, r) == RootChange::Unchanged, true);
    lemma_all_or_none(roots, |r: LabeledView| change_of(roots, r) == RootChange::Added, false);
    lemma_all_or_none(roots, |r: LabeledView| change_of(roots, r) == RootChange::Changed, false);
    let labels = labels_of(roots);
    assert forall|i: int| 0 <= i < labels.len() implies !(root_labeled(
        roots,
        #[trigger] labels[i],
    ) is None) by {
        lemma_root_labeled(roots, labels[i]);
    }
    lemma_all_or_none(labels, |l: Seq<char>| root_labeled(roots, l) is None, false);
}

proof fn lemma_all_or_none<A>(items: Seq<A>, pred: spec_fn(A) -> bool, all: bool)
    requires
        forall|i: int| 0 <= i < items.len() ==> pred(#[trigger] items[i]) == all,
    ensures
        items.filter(pred) == if all {
            items
        } else {
            Seq::empty()
        },
    decreases items.len(),
{
    reveal(Seq::filter);
    if items.len() > 0 {
        let rest = items.drop_last();
        assert forall|i: int| 0 <= i < rest.len() implies pred(#[trigger] rest[i]) == all by {
            assert(rest[i] == items[i]);
        }
        lemma_all_or_none(rest, pred, all);
        assert(pred(items[items.len() - 1]) == all);
        assert(rest.push(items.last()) =~= items);
    }
}

/// A root counts as unchanged if and only if the last earlier root of its label
/// has the same fingerprint, and there is one to compare.
pub proof fn law_equal_fingerprints_are_unchanged(
    earlier: Seq<LabeledView>,
    later: Seq<LabeledView>,
    root: LabeledView,
    i: int,
)
    requires
        later.contains(root),
        0 <= i < earlier.len(),
        earlier[i].label == root.label,
        forall|k: int| i < k < earlier.len() ==> (#[trigger] earlier[k]).label != root.label,
    ensures
        difference(earlier, later).unchanged.contains(root) <==> earlier[i].fingerprint
            == root.fingerprint && root.fingerprint.len() > 0,
        difference(earlier, later).changed.contains(root) <==> !(earlier[i].fingerprint
            == root.fingerprint && root.fingerprint.len() > 0),
        !difference(earlier, later).added.contains(root),
{
    lemma_last_labeled(earlier, root.label, i);
    lemma_filter_contains(
        later,
        |root: LabeledView| change_of(earlier, root) == RootChange::Unchanged,
        root,
    );
    lemma_filter_contains(
        later,
        |root: LabeledView| change_of(earlier, root) == RootChange::Changed,
        root,
    );
    lemma_filter_contains(
        later,
        |root: LabeledView| change_of(earlier, root) == RootChange::Added,
        root,
    );
}

proof fn lemma_last_labeled(roots: Seq<LabeledView>, label: Seq<char>, i: int)
    requires
        0 <= i < roots.len(),
        roots[i].label == label,
        forall|k: int| i < k < roots.len() ==> (#[trigger] roots[k]).label != label,
    ensures
        root_labeled(roots, label) == Some(roots[i]),
    decreases roots.len(),
{
    if i < roots.len() - 1 {
        assert(roots[roots.len() - 1].label != label);
        lemma_last_labeled(roots.drop_last(), label, i);
    }
}

/// Roots are reported in the order in which they are listed: one more root at
/// the end is one more at the end of the list that it belongs to, and leaves the
/// other lists as they were.
pub proof fn law_changes_are_reported_in_order(
    earlier: Seq<LabeledView>,
    later: Seq<LabeledView>,
    root: LabeledView,
)
    ensures
        ({
            let before = difference(earlier, later);
            let after = difference(earlier, later.push(root));
            &&& after.added == before.added || after.added == before.added.push(root)
            &&& after.changed == before.changed || after.changed == before.changed.push(root)
            &&& after.unchanged == before.unchanged || after.unchanged == before.unchanged.push(
                root,
            )
            &&& after.added.len() + after.changed.len() + after.unchanged.len()
                == before.added.len() + before.changed.len() + before.unchanged.len() + 1
        }),
{
    reveal(Seq::filter);
    assert(later.push(root).drop_last() =~= later);
    assert(later.push(root).last() == root);
}

/// Removed labels are reported in the order in which they were listed.
pub proof fn law_removals_are_reported_in_order(
    earlier: Seq<LabeledView>,
    later: Seq<LabeledView>,
    root: LabeledView,
)
    ensures
        difference(earlier.push(root), later).removed == if labels_of(later).contains(root.label) {
            difference(earlier, later).removed
        } else {
            difference(earlier, later).removed.push(root.label)
        },
        difference(Seq::empty(), later).removed == Seq::<Seq<char>>::empty(),
{
    reveal(Seq::filter);
    lemma_root_labeled(later, root.label);
    assert(labels_of(earlier.push(root)) =~= labels_of(earlier).push(root.label));
    assert(labels_of(earlier).push(root.label).drop_last() =~= labels_of(earlier));
    assert(labels_of(Seq::<LabeledView>::empty()) =~= Seq::empty());
}

/// An artifact is what its files hold, line by line and without blank lines. It
/// needs its roots and its derivations; the other files may be absent.
pub proof fn law_artifacts_hold_their_files(path: Seq<char>, files: ArtifactFiles)
    ensures
        artifact_in(path, files) matches Ok(artifact) ==> {
            &&& files.roots matches FileRead::Content(content) && artifact.roots
                == text::trimmed_lines(content@)
            &&& files.drvs matches FileRead::Content(content) && artifact.drvs
                == text::trimmed_lines(content@)
            &&& match files.fingerprint {
                FileRead::Content(content) => artifact.fingerprint == Some(text::trimmed(content@)),
                FileRead::Absent { .. } => artifact.fingerprint is None,
                FileRead::Failed { .. } => false,
            }
            &&& match files.root_labels {
                FileRead::Content(content) => artifact.root_labels == text::trimmed_lines(content@),
                FileRead::Absent { .. } => artifact.root_labels.len() == 0,
                FileRead::Failed { .. } => false,
            }
            &&& match files.root_fingerprints {
                FileRead::Content(content) => artifact.root_fingerprints == text::trimmed_lines(
                    content@,
                ),
                FileRead::Absent { .. } => artifact.root_fingerprints.len() == 0,
                FileRead::Failed { .. } => false,
            }
        },
        files.roots is Content && files.drvs is Content && !(files.fingerprint is Failed) && !(
        files.root_labels is Failed) && !(files.root_fingerprints is Failed) ==> artifact_in(
            path,
            files,
        ) is Ok,
        files.roots matches FileRead::Failed { source } ==> artifact_in(path, files) == Err::<
            ArtifactView,
            ErrorView,
        >(
            ErrorView::NixStoreRead {
                file: text::path_with(path, "roots"@),
                source: source@,
            },
        ),
        files.roots matches FileRead::Absent { source } ==> artifact_in(path, files) == Err::<
            ArtifactView,
            ErrorView,
        >(
            ErrorView::NixStoreRead {
                file: text::path_with(path, "roots"@),
                source: source@,
            },
        ),
        files.roots is Content ==> (files.drvs matches FileRead::Absent { source } ==> artifact_in(
            path,
            files,
        ) == Err::<ArtifactView, ErrorView>(
            ErrorView::NixStoreRead { file: text::path_with(path, "drvs"@), source: source@ },
        )),
        artifact_in(path, files) matches Err(error) ==> error is NixStoreRead,
{
}

/// Every root of an artifact is listed, in order. It has its own label and its
/// own fingerprint where there is one for each root; otherwise it is labelled by
/// its number, and has no fingerprint.
pub proof fn law_every_root_is_labelled(artifact: ArtifactView, i: int)
    requires
        0 <= i < artifact.roots.len(),
    ensures
        labeled_roots(artifact).len() == artifact.roots.len(),
        labeled_roots(artifact)[i].path == artifact.roots[i],
        artifact.root_labels.len() == artifact.roots.len() ==> labeled_roots(artifact)[i].label
            == artifact.root_labels[i],
        artifact.root_labels.len() != artifact.roots.len() ==> labeled_roots(artifact)[i].label
            == "root-"@ + text::decimal(i as nat),
        artifact.root_fingerprints.len() == artifact.roots.len() ==> labeled_roots(
            artifact,
        )[i].fingerprint == artifact.root_fingerprints[i],
        artifact.root_fingerprints.len() != artifact.roots.len() ==> labeled_roots(
            artifact,
        )[i].fingerprint.len() == 0,
{
}

/// A file of an artifact that cannot be read is the error, under its own name:
/// the first of the roots, the derivations, the fingerprint, the labels and the
/// fingerprints of the roots. Of the last three each may be absent.
pub proof fn law_the_first_unread_file_is_the_error(
    path: Seq<char>,
    files: ArtifactFiles,
    source: String,
)
    ensures
        ({
            let failed = FileRead::Failed { source };
            let named = |name: Seq<char>|
                Err::<ArtifactView, ErrorView>(
                    ErrorView::NixStoreRead { file: text::path_with(path, name), source: source@ },
                );
            &&& files.roots is Content && files.drvs == failed ==> artifact_in(path, files)
                == named("drvs"@)
            &&& files.roots is Content && files.drvs is Content && files.fingerprint == failed
                ==> artifact_in(path, files) == named("fingerprint"@)
            &&& files.roots is Content && files.drvs is Content && !(files.fingerprint is Failed)
                && files.root_labels == failed ==> artifact_in(path, files) == named(
                "root-labels"@,
            )
            &&& files.roots is Content && files.drvs is Content && !(files.fingerprint is Failed)
                && !(files.root_labels is Failed) && files.root_fingerprints == failed
                ==> artifact_in(path, files) == named("root-fingerprints"@)
        }),
{
}

/// A label stands for the last root that carries it, and for none if no root
/// does.
pub proof fn law_the_last_root_with_a_label_counts(
    roots: Seq<LabeledView>,
    label: Seq<char>,
    i: int,
)
    ensures
        root_labeled(roots, label) is None <==> forall|k: int|
            0 <= k < roots.len() ==> (#[trigger] roots[k]).label != label,
        0 <= i < roots.len() && roots[i].label == label && (forall|k: int|
            i < k < roots.len() ==> (#[trigger] roots[k]).label != label) ==> root_labeled(
            roots,
            label,
        ) == Some(roots[i]),
{
    lemma_root_labeled(roots, label);
    if root_labeled(roots, label) is None {
        assert forall|k: int| 0 <= k < roots.len() implies (#[trigger] roots[k]).label != label by {
            assert(labels_of(roots)[k] == roots[k].label);
        }
    }
    if 0 <= i < roots.len() && roots[i].label == label && (forall|k: int|
        i < k < roots.len() ==> (#[trigger] roots[k]).label != label) {
        lemma_last_labeled(roots, label, i);
    }
}

} // verus!
