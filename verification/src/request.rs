//! One switch attempt: what is asked for, and what has been prepared.

use vstd::prelude::*;

use crate::policy::{PolicyView, RealizationPolicy};
use crate::text;

verus! {

/// Inputs for one cache-shaped NixOS rebuild.
#[derive(Debug, Clone, PartialEq, Eq)]
pub struct SwitchPlan<'a> {
    /// Rebuild action, such as `switch`, `boot`, `test`, or `build`.
    pub action: &'a str,
    /// Frozen flake reference recorded in prepared state.
    pub flake_attr: &'a str,
    /// Attribute built first to realise the system toplevel.
    pub toplevel_attr: &'a str,
    /// Optional SSH target receiving and activating the prepared toplevel.
    pub target_ssh: Option<&'a str>,
    /// Lets a remote target substitute dependencies while copying the toplevel.
    pub use_substitutes: bool,
    /// When false, skips publish and verify while keeping cache-shaped flags.
    pub capture: bool,
    /// Lets the caller decide when local activation should run under sudo.
    pub sudo: bool,
    /// Lets the caller decide when remote activation should run under sudo.
    pub remote_sudo: bool,
    /// When set, passed to `nix build` as `--max-jobs` to cap build
    /// parallelism — useful on memory-constrained build hosts where
    /// cross-compilation of many packages in parallel causes OOM.
    pub max_jobs: Option<u32>,
    /// Builder policy used only for the initial toplevel realization.
    pub realization_policy: RealizationPolicy,
}

/// Model of a [`SwitchPlan`].
#[verifier::ext_equal]
pub struct SwitchView {
    pub action: Seq<char>,
    pub flake_attr: Seq<char>,
    pub toplevel_attr: Seq<char>,
    pub target_ssh: Option<Seq<char>>,
    pub use_substitutes: bool,
    pub capture: bool,
    pub sudo: bool,
    pub remote_sudo: bool,
    pub max_jobs: Option<u32>,
    pub realization_policy: PolicyView,
}

impl<'a> View for SwitchPlan<'a> {
    type V = SwitchView;

    open spec fn view(&self) -> SwitchView {
        SwitchView {
            action: self.action@,
            flake_attr: self.flake_attr@,
            toplevel_attr: self.toplevel_attr@,
            target_ssh: self.target_ssh.deep_view(),
            use_substitutes: self.use_substitutes,
            capture: self.capture,
            sudo: self.sudo,
            remote_sudo: self.remote_sudo,
            max_jobs: self.max_jobs,
            realization_policy: self.realization_policy@,
        }
    }
}

/// The exact realization passed through build, publication, verification, and
/// activation for one switch attempt.
#[derive(Debug, PartialEq, Eq)]
pub struct PreparedSwitch {
    /// Frozen flake reference used for the realization.
    pub frozen_flake: String,
    /// Toplevel attribute realized from the frozen flake.
    pub toplevel_attr: String,
    /// Realized system toplevel path.
    pub toplevel: String,
    /// Complete runtime closure selected for publication.
    pub closure: Vec<String>,
    /// Stable fingerprint of the exact toplevel and closure.
    pub fingerprint: String,
}

/// Model of a [`PreparedSwitch`].
#[verifier::ext_equal]
pub struct PreparedSwitchView {
    pub frozen_flake: Seq<char>,
    pub toplevel_attr: Seq<char>,
    pub toplevel: Seq<char>,
    pub closure: Seq<Seq<char>>,
    pub fingerprint: Seq<char>,
}

impl View for PreparedSwitch {
    type V = PreparedSwitchView;

    open spec fn view(&self) -> PreparedSwitchView {
        PreparedSwitchView {
            frozen_flake: self.frozen_flake@,
            toplevel_attr: self.toplevel_attr@,
            toplevel: self.toplevel@,
            closure: self.closure.deep_view(),
            fingerprint: self.fingerprint@,
        }
    }
}

impl DeepView for PreparedSwitch {
    type V = PreparedSwitchView;

    open spec fn deep_view(&self) -> PreparedSwitchView {
        self@
    }
}

impl Clone for PreparedSwitch {
    fn clone(&self) -> (result: Self)
        ensures
            result@ == self@,
    {
        PreparedSwitch {
            frozen_flake: self.frozen_flake.clone(),
            toplevel_attr: self.toplevel_attr.clone(),
            toplevel: self.toplevel.clone(),
            closure: text::copy_list(self.closure.as_slice()),
            fingerprint: self.fingerprint.clone(),
        }
    }
}

} // verus!
