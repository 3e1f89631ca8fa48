//! Realization policy and the Nix flags that follow from it.

use vstd::prelude::*;

use crate::error::{outcome, Error, ErrorView, Result};
use crate::text;

verus! {

/// Controls which builders may realize missing derivations before activation.
///
/// `SubstituteOnly` is the safe default. `RemoteNative` is explicit opt-in and
/// accepts only the builder specifications supplied by the caller.
#[derive(Debug, PartialEq, Eq)]
pub enum RealizationPolicy {
    /// Use configured substituters and no builders.
    SubstituteOnly,
    /// Use only these explicitly declared Nix builder specifications.
    RemoteNative {
        /// Nix builder specifications, one per entry.
        builders: Vec<String>,
    },
}

/// Model of a [`RealizationPolicy`].
#[verifier::ext_equal]
pub enum PolicyView {
    SubstituteOnly,
    RemoteNative { builders: Seq<Seq<char>> },
}

impl View for RealizationPolicy {
    type V = PolicyView;

    open spec fn view(&self) -> PolicyView {
        match self {
            RealizationPolicy::SubstituteOnly => PolicyView::SubstituteOnly,
            RealizationPolicy::RemoteNative { builders } => PolicyView::RemoteNative {
                builders: builders.deep_view(),
            },
        }
    }
}

impl DeepView for RealizationPolicy {
    type V = PolicyView;

    open spec fn deep_view(&self) -> PolicyView {
        self@
    }
}

impl Clone for RealizationPolicy {
    fn clone(&self) -> (result: Self)
        ensures
            result@ == self@,
    {
        match self {
            RealizationPolicy::SubstituteOnly => RealizationPolicy::SubstituteOnly,
            RealizationPolicy::RemoteNative { builders } => {
                let copy = text::copy_list(builders.as_slice());
                RealizationPolicy::RemoteNative { builders: copy }
            },
        }
    }
}

impl Default for RealizationPolicy {
    fn default() -> (result: Self)
        ensures
            result@ == PolicyView::SubstituteOnly,
    {
        RealizationPolicy::SubstituteOnly
    }
}

impl PolicyView {
    /// The builders that a miss may be routed to; none unless some are declared.
    pub open spec fn eligible_builders(self) -> Option<Seq<Seq<char>>> {
        match self {
            PolicyView::RemoteNative { builders } if builders.len() > 0 => Some(builders),
            _ => None,
        }
    }

    /// The value of the `--builders` flag.
    pub open spec fn builders_value(self) -> std::result::Result<Seq<char>, ErrorView> {
        match self {
            PolicyView::SubstituteOnly => Ok(Seq::empty()),
            PolicyView::RemoteNative { builders } => if builders.len() == 0 {
                Err(ErrorView::RemoteNativeRequiresBuilder)
            } else {
                Ok(text::joined(builders, "\n"@))
            },
        }
    }
}

impl RealizationPolicy {
    /// The value of the `--builders` flag.
    pub fn builders_value(&self) -> (result: Result<String>)
        ensures
            outcome(result) == self@.builders_value(),
    {
        match self {
            RealizationPolicy::SubstituteOnly => Ok(String::new()),
            RealizationPolicy::RemoteNative { builders } => {
                if builders.len() == 0 {
                    return Err(Error::RemoteNativeRequiresBuilder);
                }
                Ok(text::join(builders.as_slice(), "\n"))
            },
        }
    }

    /// The declared builders, when the policy declares any.
    pub fn eligible_builders(&self) -> (result: Option<&Vec<String>>)
        ensures
            result.deep_view() == self@.eligible_builders(),
    {
        match self {
            RealizationPolicy::RemoteNative { builders } if builders.len() > 0 => Some(builders),
            _ => None,
        }
    }
}

/// The flags for a given value of `--builders`.
pub open spec fn nix_flags(builders: Seq<char>) -> Seq<Seq<char>> {
    seq![
        "--builders"@,
        builders,
        "--option"@,
        "extra-platforms"@,
        ""@,
        "--option"@,
        "always-allow-substitutes"@,
        "true"@,
    ]
}

/// The flags for a policy, or why it is refused.
pub open spec fn policy_flags(policy: PolicyView) -> std::result::Result<
    Seq<Seq<char>>,
    ErrorView,
> {
    match policy.builders_value() {
        Ok(builders) => Ok(nix_flags(builders)),
        Err(error) => Err(error),
    }
}

/// Returns the canonical Nix flags for cache-shaped Crossbow realisation.
///
/// The empty `--builders` and `extra-platforms` values keep activation from
/// falling back to remote builders or binfmt when a host-system path is missing
/// from substituters. `always-allow-substitutes` lets the target substitute
/// paths even when individual derivations set `allowSubstitutes = false`.
#[must_use]
pub fn cache_shaped_nix_flags() -> (result: Vec<String>)
    ensures
        result.deep_view() == nix_flags(Seq::empty()),
{
    flags_for(String::new())
}

fn flags_for(builders: String) -> (result: Vec<String>)
    ensures
        result.deep_view() == nix_flags(builders@),
{
    let flags = vec![
        "--builders".to_owned(),
        builders,
        "--option".to_owned(),
        "extra-platforms".to_owned(),
        "".to_owned(),
        "--option".to_owned(),
        "always-allow-substitutes".to_owned(),
        "true".to_owned(),
    ];
    assert(flags.deep_view() =~= nix_flags(builders@));
    flags
}

/// Returns Nix flags for an explicit realization policy.
///
/// All policies keep `extra-platforms` empty. The policy is intentionally not
/// used by activation, which remains substitution-only.
pub fn realization_nix_flags(policy: &RealizationPolicy) -> (result: Result<Vec<String>>)
    ensures
        outcome(result) == policy_flags(policy@),
{
    match policy.builders_value() {
        Ok(builders) => Ok(flags_for(builders)),
        Err(error) => Err(error),
    }
}

/// The compatibility flags for `nixos-rebuild`.
pub open spec fn switch_flags(use_substitutes: bool) -> Seq<Seq<char>> {
    seq!["--no-reexec"@] + nix_flags(Seq::empty()) + if use_substitutes {
        seq!["--use-substitutes"@]
    } else {
        Seq::empty()
    }
}

/// Returns compatibility flags for callers still using `nixos-rebuild`.
///
/// `--no-reexec` keeps the build-host `nixos-rebuild` process in charge instead
/// of re-executing `config.system.build.nixos-rebuild` from the target flake;
/// the latter is host-platform code in cache-shaped Crossbow configs and would
/// run under binfmt on the build host.
/// `use_substitutes` adds `--use-substitutes`, which shifts transfer to the
/// target's own substituters and is only appropriate when the target trusts the
/// cache that has been populated before activation.
#[must_use]
pub fn cache_shaped_switch_flags(use_substitutes: bool) -> (result: Vec<String>)
    ensures
        result.deep_view() == switch_flags(use_substitutes),
{
    let mut flags = vec!["--no-reexec".to_owned()];
    assert(flags.deep_view() =~= seq!["--no-reexec"@]);
    text::extend(&mut flags, cache_shaped_nix_flags());
    if use_substitutes {
        text::add_item(&mut flags, "--use-substitutes".to_owned());
    }
    assert(flags.deep_view() =~= switch_flags(use_substitutes));
    flags
}

/// The `--max-jobs` arguments for an optional cap.
pub open spec fn job_flags(max_jobs: Option<u32>) -> Seq<Seq<char>> {
    match max_jobs {
        Some(jobs) => seq!["--max-jobs"@, text::decimal(jobs as nat)],
        None => Seq::empty(),
    }
}

/// The `nix build` arguments for a policy.
pub open spec fn build_args(
    attr: Seq<char>,
    max_jobs: Option<u32>,
    policy: PolicyView,
) -> std::result::Result<Seq<Seq<char>>, ErrorView> {
    match policy_flags(policy) {
        Ok(flags) => Ok(
            seq!["build"@, "--no-link"@, "--print-out-paths"@, attr] + job_flags(max_jobs) + flags,
        ),
        Err(error) => Err(error),
    }
}

/// Returns the canonical flags for the initial toplevel realisation.
///
/// These mirror the cache-shaped switch flags that prevent activation from
/// using remote builders or binfmt. The build phase needs the same guard:
/// otherwise a cache miss on a binfmt-enabled build host silently becomes a
/// local emulated build before Crossbow can publish or verify anything.
/// `max_jobs`, when set, is passed as `--max-jobs N` to cap build parallelism
/// on memory-constrained build hosts.
#[must_use]
pub fn cache_shaped_build_args(attr: &str, max_jobs: Option<u32>) -> (result: Vec<String>)
    ensures
        Ok::<Seq<Seq<char>>, ErrorView>(result.deep_view()) == build_args(
            attr@,
            max_jobs,
            PolicyView::SubstituteOnly,
        ),
{
    build_args_with(attr, max_jobs, cache_shaped_nix_flags())
}

fn build_args_with(attr: &str, max_jobs: Option<u32>, flags: Vec<String>) -> (result: Vec<String>)
    ensures
        result.deep_view() == seq!["build"@, "--no-link"@, "--print-out-paths"@, attr@]
            + job_flags(max_jobs) + flags.deep_view(),
{
    let mut args = vec![
        "build".to_owned(),
        "--no-link".to_owned(),
        "--print-out-paths".to_owned(),
        attr.to_owned(),
    ];
    if let Some(jobs) = max_jobs {
        args.push("--max-jobs".to_owned());
        args.push(text::to_decimal(jobs as u64));
    }
    assert(args.deep_view() =~= seq!["build"@, "--no-link"@, "--print-out-paths"@, attr@]
        + job_flags(max_jobs));
    text::extend(&mut args, flags);
    args
}

/// Returns `nix build` arguments for an explicit realization policy.
pub fn cache_shaped_build_args_with_policy(
    attr: &str,
    max_jobs: Option<u32>,
    policy: &RealizationPolicy,
) -> (result: Result<Vec<String>>)
    ensures
        outcome(result) == build_args(attr@, max_jobs, policy@),
{
    match realization_nix_flags(policy) {
        Ok(flags) => Ok(build_args_with(attr, max_jobs, flags)),
        Err(error) => Err(error),
    }
}

/// Whatever the policy, no foreign platform is emulated: `extra-platforms` is
/// always set, and always empty.
pub proof fn law_extra_platforms_stay_empty(policy: PolicyView)
    ensures
        match policy_flags(policy) {
            Ok(flags) => flags.len() == 8 && flags[2] == "--option"@ && flags[3]
                == "extra-platforms"@ && flags[4] == Seq::<char>::empty(),
            Err(_) => policy == (PolicyView::RemoteNative { builders: Seq::empty() }),
        },
{
    reveal_strlit("");
    assert(""@ =~= Seq::empty());
    if let PolicyView::RemoteNative { builders } = policy {
        if builders.len() == 0 {
            assert(builders =~= Seq::empty());
        }
    }
}

/// Without explicit builders nothing is built remotely: the builders are set,
/// and empty.
pub proof fn law_substitute_only_uses_no_builders()
    ensures
        policy_flags(PolicyView::SubstituteOnly) matches Ok(flags) && flags[0] == "--builders"@
            && flags[1] == Seq::<char>::empty(),
{
}

/// The build of a toplevel is guarded by the flags that guard its activation:
/// under the default policy both carry the same ones.
pub proof fn law_build_is_guarded_like_activation(
    attr: Seq<char>,
    max_jobs: Option<u32>,
    use_substitutes: bool,
)
    ensures
        build_args(attr, max_jobs, PolicyView::SubstituteOnly) matches Ok(args)
            && args.subrange(args.len() - 8, args.len() as int) == nix_flags(Seq::empty())
            && switch_flags(use_substitutes).subrange(1, 9) == nix_flags(Seq::empty()),
{
    let flags = nix_flags(Seq::empty());
    let args = build_args(attr, max_jobs, PolicyView::SubstituteOnly)->Ok_0;
    assert(args.subrange(args.len() - 8, args.len() as int) =~= flags);
    assert(switch_flags(use_substitutes).subrange(1, 9) =~= flags);
}

/// Under a policy that declares builders, `--builders` names all of them and
/// nothing else: cut at line endings, its value is the list that was declared.
/// A policy that declares none is refused.
pub proof fn law_exactly_the_declared_builders_are_named(builders: Seq<Seq<char>>)
    ensures
        builders.len() == 0 ==> policy_flags(PolicyView::RemoteNative { builders }) == Err::<
            Seq<Seq<char>>,
            ErrorView,
        >(ErrorView::RemoteNativeRequiresBuilder),
        builders.len() > 0 ==> (policy_flags(PolicyView::RemoteNative { builders }) matches Ok(
            flags,
        ) && flags[0] == "--builders"@ && (builders.len() == 1 ==> flags[1] == builders[0]) && ((
        forall|i: int| 0 <= i < builders.len() ==> !(#[trigger] builders[i]).contains('\n'))
            ==> text::pieces(flags[1], '\n') == builders)),
{
    reveal_strlit("\n");
    assert("\n"@ =~= seq!['\n']);
    if builders.len() > 0 && forall|i: int|
        0 <= i < builders.len() ==> !(#[trigger] builders[i]).contains('\n') {
        text::law_joined_parts_split_back(builders, '\n');
    }
}

/// One more declared builder is one more line of the value of `--builders`, and
/// changes no other flag.
pub proof fn law_one_more_builder_is_one_more_line(builders: Seq<Seq<char>>, builder: Seq<char>)
    requires
        builders.len() > 0,
    ensures
        policy_flags(PolicyView::RemoteNative { builders }) matches Ok(flags) && policy_flags(
            PolicyView::RemoteNative { builders: builders.push(builder) },
        ) == Ok::<Seq<Seq<char>>, ErrorView>(flags.update(1, flags[1].push('\n') + builder)),
        (PolicyView::RemoteNative { builders }).builders_value() matches Ok(value) && (
        PolicyView::RemoteNative { builders: builders.push(builder) }).builders_value() == Ok::<
            Seq<char>,
            ErrorView,
        >(value.push('\n') + builder),
{
    reveal_strlit("\n");
    assert("\n"@ =~= seq!['\n']);
    text::lemma_joined_push(builders, builder, "\n"@);
    let value = text::joined(builders, "\n"@);
    assert(value + "\n"@ + builder =~= value.push('\n') + builder);
    let flags = nix_flags(value);
    assert(nix_flags(value.push('\n') + builder) =~= flags.update(1, flags[1].push('\n') + builder));
}

/// The flags of every policy: the builders, no foreign platforms, and substitutes
/// for every derivation. They are the value of `--builders` that the policy has,
/// which is empty for the policy that declares none.
pub proof fn law_flags_of_every_policy(policy: PolicyView)
    ensures
        policy == PolicyView::SubstituteOnly ==> policy.builders_value() == Ok::<
            Seq<char>,
            ErrorView,
        >(Seq::empty()),
        policy matches PolicyView::RemoteNative { builders } ==> (builders.len() == 1
            ==> policy.builders_value() == Ok::<Seq<char>, ErrorView>(builders[0])) && (
        builders.len() == 0 ==> policy.builders_value() == Err::<Seq<char>, ErrorView>(
            ErrorView::RemoteNativeRequiresBuilder,
        )),
        match policy.builders_value() {
            Ok(value) => policy_flags(policy) == Ok::<Seq<Seq<char>>, ErrorView>(
                seq![
                    "--builders"@,
                    value,
                    "--option"@,
                    "extra-platforms"@,
                    Seq::empty(),
                    "--option"@,
                    "always-allow-substitutes"@,
                    "true"@,
                ],
            ),
            Err(error) => policy_flags(policy) == Err::<Seq<Seq<char>>, ErrorView>(error),
        },
{
    reveal_strlit("");
    assert(""@ =~= Seq::empty());
}

/// A toplevel is built without a link, its path is printed, the jobs are capped
/// where a cap is given, and the flags of the policy guard the build. It is
/// refused exactly when the policy is.
pub proof fn law_builds_are_capped_and_guarded(
    attr: Seq<char>,
    max_jobs: Option<u32>,
    policy: PolicyView,
)
    ensures
        match policy_flags(policy) {
            Err(error) => build_args(attr, max_jobs, policy) == Err::<Seq<Seq<char>>, ErrorView>(
                error,
            ),
            Ok(flags) => {
                &&& build_args(attr, max_jobs, policy) matches Ok(args)
                &&& args.take(4) == seq!["build"@, "--no-link"@, "--print-out-paths"@, attr]
                &&& match max_jobs {
                    None => args.skip(4) == flags,
                    Some(jobs) => args[4] == "--max-jobs"@ && text::u32_value(args[5]) == Some(jobs)
                        && args[5][0] != '+' && args.skip(6) == flags,
                }
            },
        },
{
    if let Ok(flags) = policy_flags(policy) {
        let args = build_args(attr, max_jobs, policy)->Ok_0;
        assert(args.take(4) =~= seq!["build"@, "--no-link"@, "--print-out-paths"@, attr]);
        if let Some(jobs) = max_jobs {
            text::law_decimal_reads_back(jobs);
            text::lemma_decimal_digits(jobs as nat);
            assert('0' <= text::decimal(jobs as nat)[0] <= '9');
            assert(args.skip(6) =~= flags);
        } else {
            assert(args.skip(4) =~= flags);
        }
    }
}

/// The flags for `nixos-rebuild` keep it from reexecuting itself, use no builder,
/// and let the target substitute exactly where that is asked for.
pub proof fn law_switch_flags_use_no_builder(use_substitutes: bool)
    ensures
        switch_flags(use_substitutes)[0] == "--no-reexec"@,
        policy_flags(PolicyView::SubstituteOnly) == Ok::<Seq<Seq<char>>, ErrorView>(
            switch_flags(use_substitutes).subrange(1, 9),
        ),
        switch_flags(use_substitutes).skip(9) == if use_substitutes {
            seq!["--use-substitutes"@]
        } else {
            Seq::<Seq<char>>::empty()
        },
{
    let flags = switch_flags(use_substitutes);
    assert(flags.subrange(1, 9) =~= nix_flags(Seq::empty()));
    assert(flags.skip(9) =~= if use_substitutes {
        seq!["--use-substitutes"@]
    } else {
        Seq::<Seq<char>>::empty()
    });
}

} // verus!
