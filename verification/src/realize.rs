//! Realization of a toplevel: the `nix build` that is run, and what its end
//! means.

use vstd::prelude::*;

use crate::command::{error_text, printed_error, text_of, Piped};
use crate::diagnostics::{
    build_failure, classify_nix_build_failure, law_redaction_hides_addresses,
    law_redaction_is_bounded, redact_diagnostic, redact_identifier, redacted,
};
use crate::error::{outcome, Error, ErrorView, Result, MAX_REALIZATION_DIAGNOSTIC_BYTES};
use crate::outside::utf8_text;
use crate::policy::{build_args, cache_shaped_build_args_with_policy};
use crate::request::{SwitchPlan, SwitchView};
use crate::text;

verus! {

/// The first line of a text that is not blank, without the white space around
/// it.
pub open spec fn first_line(output: Seq<char>) -> Option<Seq<char>> {
    if text::trimmed_lines(output).len() == 0 {
        None
    } else {
        Some(text::trimmed_lines(output)[0])
    }
}

/// The first line of a text that is not blank, without the white space around
/// it.
pub fn first_non_empty_line(output: &str) -> (result: Option<String>)
    ensures
        result.deep_view() == first_line(output@),
{
    let lines = text::nonblank_lines(output);
    if lines.len() == 0 {
        None
    } else {
        assert(lines.deep_view()[0] == lines@[0]@);
        Some(lines[0].clone())
    }
}

/// The build of a toplevel.
#[derive(Debug)]
pub struct BuildRequest {
    /// The attribute as it is shown.
    pub shown_attr: String,
    /// Arguments of `nix`.
    pub args: Vec<String>,
}

/// Model of a [`BuildRequest`].
#[verifier::ext_equal]
pub struct BuildRequestView {
    pub shown_attr: Seq<char>,
    pub args: Seq<Seq<char>>,
}

impl View for BuildRequest {
    type V = BuildRequestView;

    open spec fn view(&self) -> BuildRequestView {
        BuildRequestView { shown_attr: self.shown_attr@, args: self.args.deep_view() }
    }
}

impl DeepView for BuildRequest {
    type V = BuildRequestView;

    open spec fn deep_view(&self) -> BuildRequestView {
        self@
    }
}

/// The build that realizes the toplevel of a switch.
pub open spec fn requested_build(plan: SwitchView) -> std::result::Result<
    BuildRequestView,
    ErrorView,
> {
    match build_args(plan.toplevel_attr, plan.max_jobs, plan.realization_policy) {
        Ok(args) => Ok(BuildRequestView { shown_attr: redacted(plan.toplevel_attr), args }),
        Err(error) => Err(error),
    }
}

/// The build that realizes the toplevel of a switch.
pub fn build_request(plan: &SwitchPlan<'_>) -> (result: Result<BuildRequest>)
    ensures
        outcome(result) == requested_build(plan@),
{
    match cache_shaped_build_args_with_policy(
        plan.toplevel_attr,
        plan.max_jobs,
        &plan.realization_policy,
    ) {
        Ok(args) => Ok(BuildRequest { shown_attr: redact_identifier(plan.toplevel_attr), args }),
        Err(error) => Err(error),
    }
}

/// What is said of a build whose output could not be read.
pub open spec fn unread_text(stderr: Seq<char>, source: Seq<char>) -> Seq<char> {
    if stderr.len() == 0 {
        "failed to read nix build output: "@ + source
    } else {
        stderr + "\nfailed to read nix build output: "@ + source
    }
}

/// The toplevel that a build realized, or why it realized none. Whatever a
/// failure shows has been redacted.
pub open spec fn realized(plan: SwitchView, ended: Piped) -> std::result::Result<
    Seq<char>,
    ErrorView,
> {
    let attr = redacted(plan.toplevel_attr);
    match ended {
        Piped::NotStarted { source } => Err(ErrorView::NixBuildRun { attr, source: source@ }),
        Piped::NotCaptured => Err(
            ErrorView::RealizationFailed {
                attr,
                status: None,
                stderr: "nix build stdout was not captured"@,
            },
        ),
        Piped::ReadFailed { source, stderr } => Err(
            ErrorView::RealizationFailed {
                attr,
                status: None,
                stderr: redacted(unread_text(printed_error(stderr@), source@)),
            },
        ),
        Piped::WaitFailed { source } => Err(ErrorView::NixBuildRun { attr, source: source@ }),
        Piped::Finished(finished) => if !finished.success {
            Err(
                build_failure(
                    attr,
                    finished.code,
                    printed_error(finished.stderr@),
                    plan.realization_policy,
                ),
            )
        } else {
            match text_of(finished.stdout@) {
                Err(source) => Err(ErrorView::NixBuildUtf8 { attr, source }),
                Ok(output) => match first_line(output) {
                    Some(path) => Ok(path),
                    None => Err(ErrorView::NixBuildNoOutput { attr }),
                },
            }
        },
    }
}

/// What the end of the build of a toplevel means.
pub fn build_result(plan: &SwitchPlan<'_>, ended: Piped) -> (result: Result<String>)
    ensures
        outcome(result) == realized(plan@, ended),
{
    let attr = redact_identifier(plan.toplevel_attr);
    match ended {
        Piped::NotStarted { source } => Err(Error::NixBuildRun { attr, source }),
        Piped::NotCaptured => {
            let stderr = "nix build stdout was not captured".to_owned();
            Err(Error::RealizationFailed { attr, status: None, stderr })
        },
        Piped::ReadFailed { source, stderr } => {
            let printed = error_text(stderr.as_slice());
            let unread = if printed.as_str().is_empty() {
                "failed to read nix build output: ".to_owned().concat(source.as_str())
            } else {
                printed.concat("\nfailed to read nix build output: ").concat(source.as_str())
            };
            let stderr = redact_diagnostic(unread.as_str());
            Err(Error::RealizationFailed { attr, status: None, stderr })
        },
        Piped::WaitFailed { source } => Err(Error::NixBuildRun { attr, source }),
        Piped::Finished(finished) => {
            if !finished.success {
                let printed = error_text(finished.stderr.as_slice());
                return Err(
                    classify_nix_build_failure(
                        attr.as_str(),
                        finished.code,
                        printed.as_str(),
                        &plan.realization_policy,
                    ),
                );
            }
            let output = match utf8_text(finished.stdout) {
                Ok(output) => output,
                Err(source) => {
                    return Err(Error::NixBuildUtf8 { attr, source });
                },
            };
            match first_non_empty_line(output.as_str()) {
                Some(path) => Ok(path),
                None => Err(Error::NixBuildNoOutput { attr }),
            }
        },
    }
}

/// What a build that succeeded printed to its standard error, as it is shown.
pub open spec fn noticed(ended: Piped) -> Option<Seq<char>> {
    match ended {
        Piped::Finished(finished) => if finished.success && printed_error(
            finished.stderr@,
        ).len() > 0 {
            Some(redacted(printed_error(finished.stderr@)))
        } else {
            None
        },
        _ => None,
    }
}

/// What a build that succeeded printed to its standard error, as it is shown.
pub fn build_notice(ended: &Piped) -> (result: Option<String>)
    ensures
        result.deep_view() == noticed(*ended),
{
    match ended {
        Piped::Finished(finished) => {
            if !finished.success {
                return None;
            }
            let printed = error_text(finished.stderr.as_slice());
            if printed.as_str().is_empty() {
                None
            } else {
                Some(redact_diagnostic(printed.as_str()))
            }
        },
        _ => None,
    }
}

/// A text that may be shown: bounded, and without any address.
pub open spec fn is_safe(shown: Seq<char>) -> bool {
    text::byte_length(shown) <= MAX_REALIZATION_DIAGNOSTIC_BYTES && !text::occurs(shown, "://"@)
}

proof fn lemma_redacted_is_safe(value: Seq<char>)
    ensures
        is_safe(redacted(value)),
{
    law_redaction_is_bounded(value);
    law_redaction_hides_addresses(value);
}

/// Whatever the diagnostics of a failed realization show is bounded and holds
/// no address of a builder or a cache, whatever Nix printed.
pub proof fn law_failures_show_no_addresses(plan: SwitchView, ended: Piped)
    ensures
        match realized(plan, ended) {
            Err(ErrorView::RealizationFailed { attr, stderr, .. }) => is_safe(attr) && is_safe(
                stderr,
            ),
            Err(ErrorView::RealizationMissingPrerequisite { attr, prerequisite, .. }) => is_safe(
                attr,
            ) && is_safe(prerequisite.root) && is_safe(prerequisite.diagnostic),
            Err(ErrorView::NixBuildRun { attr, .. }) => is_safe(attr),
            Err(ErrorView::NixBuildUtf8 { attr, .. }) => is_safe(attr),
            Err(ErrorView::NixBuildNoOutput { attr }) => is_safe(attr),
            Err(_) => false,
            Ok(_) => true,
        },
{
    let attr = redacted(plan.toplevel_attr);
    lemma_redacted_is_safe(plan.toplevel_attr);
    lemma_redacted_is_safe(attr);
    match ended {
        Piped::NotCaptured => {
            let shown = "nix build stdout was not captured"@;
            reveal_strlit("nix build stdout was not captured");
            reveal_strlit("://");
            assert(shown.len() == 33);
            assert(vstd::utf8::is_ascii_chars(shown));
            vstd::utf8::is_ascii_chars_encode_utf8(shown);
            assert("://"@[0] == ':');
            if text::occurs(shown, "://"@) {
                text::lemma_occurs_char(shown, "://"@, 0);
            }
        },
        Piped::ReadFailed { source, stderr } => {
            lemma_redacted_is_safe(unread_text(printed_error(stderr@), source@));
        },
        Piped::Finished(finished) => {
            lemma_redacted_is_safe(printed_error(finished.stderr@));
        },
        _ => {},
    }
}

/// The first line is the first of the trimmed lines: blank lines before it and
/// lines after it make no difference.
pub proof fn law_the_first_line_counts(blank: Seq<char>, line: Seq<char>, rest: Seq<char>)
    requires
        !blank.contains('\n'),
        text::trimmed(blank).len() == 0,
        !line.contains('\n'),
    ensures
        first_line(blank) is None,
        first_line(blank.push('\n') + rest) == first_line(rest),
        text::trimmed(line).len() > 0 ==> first_line(line) == Some(text::trimmed(line))
            && first_line(line.push('\n') + rest) == Some(text::trimmed(line)),
{
    text::law_trimmed_lines_concatenate(blank, rest);
    text::law_trimmed_lines_concatenate(line, rest);
    assert(Seq::<Seq<char>>::empty() + text::trimmed_lines(rest) =~= text::trimmed_lines(rest));
}

/// The toplevel is the first line that a successful build prints. A build gives
/// one only if it succeeded, and its failure is reported only if it failed.
pub proof fn law_only_successful_builds_realize(plan: SwitchView, ended: Piped)
    ensures
        realized(plan, ended) matches Ok(path) ==> (ended matches Piped::Finished(finished)
            && finished.success && (text_of(finished.stdout@) matches Ok(output) && first_line(
            output,
        ) == Some(path))),
        ended matches Piped::Finished(finished) && finished.success && (text_of(
            finished.stdout@,
        ) matches Ok(output) && first_line(output) is Some) ==> realized(plan, ended) is Ok,
        ended matches Piped::Finished(finished) && finished.success && (text_of(
            finished.stdout@,
        ) matches Ok(output) && first_line(output) is None) ==> (realized(plan, ended) matches Err(
            error,
        ) && error is NixBuildNoOutput),
        ended matches Piped::Finished(finished) && finished.success && (text_of(
            finished.stdout@,
        ) is Err) ==> (realized(plan, ended) matches Err(error) && error is NixBuildUtf8),
        ended matches Piped::Finished(finished) && !finished.success ==> (realized(
            plan,
            ended,
        ) matches Err(error) && (error is RealizationFailed
            || error is RealizationMissingPrerequisite)),
        ended is NotStarted || ended is WaitFailed ==> (realized(plan, ended) matches Err(error)
            && error is NixBuildRun),
        ended is NotCaptured || ended is ReadFailed ==> (realized(plan, ended) matches Err(error)
            && error is RealizationFailed),
{
}

/// Every build is the one of its toplevel attribute, under the cap and the policy
/// of the switch, and shows the attribute only redacted.
pub proof fn law_the_requested_toplevel_is_built(plan: SwitchView)
    ensures
        match build_args(plan.toplevel_attr, plan.max_jobs, plan.realization_policy) {
            Ok(args) => requested_build(plan) matches Ok(build) && build.args == args
                && build.shown_attr == redacted(plan.toplevel_attr),
            Err(error) => requested_build(plan) == Err::<BuildRequestView, ErrorView>(error),
        },
{
}

/// Warnings of a build are shown, redacted, exactly when it succeeded and printed
/// any; those of a failed build belong to its error.
pub proof fn law_warnings_of_successful_builds_are_shown(ended: Piped)
    ensures
        noticed(ended) is Some <==> (ended matches Piped::Finished(finished) && finished.success
            && printed_error(finished.stderr@).len() > 0),
        noticed(ended) matches Some(shown) ==> (ended matches Piped::Finished(finished) && shown
            == redacted(printed_error(finished.stderr@))),
{
}

/// A build whose output could not be read shows what it printed, if anything,
/// and why it could not be read, redacted.
pub proof fn law_unread_builds_say_why(
    plan: SwitchView,
    source: String,
    stderr: Vec<u8>,
)
    ensures
        ({
            let why = "failed to read nix build output: "@ + source@;
            let printed = printed_error(stderr@);
            realized(plan, Piped::ReadFailed { source, stderr }) == Err::<Seq<char>, ErrorView>(
                ErrorView::RealizationFailed {
                    attr: redacted(plan.toplevel_attr),
                    status: None,
                    stderr: redacted(
                        if printed.len() == 0 {
                            why
                        } else {
                            printed.push('\n') + why
                        },
                    ),
                },
            )
        }),
        realized(plan, Piped::NotStarted { source }) == Err::<Seq<char>, ErrorView>(
            ErrorView::NixBuildRun { attr: redacted(plan.toplevel_attr), source: source@ },
        ),
        realized(plan, Piped::WaitFailed { source }) == Err::<Seq<char>, ErrorView>(
            ErrorView::NixBuildRun { attr: redacted(plan.toplevel_attr), source: source@ },
        ),
{
    reveal_strlit("failed to read nix build output: ");
    reveal_strlit("\nfailed to read nix build output: ");
    assert("\nfailed to read nix build output: "@ =~= seq!['\n']
        + "failed to read nix build output: "@);
    let printed = printed_error(stderr@);
    assert(printed + "\nfailed to read nix build output: "@ + source@ =~= printed.push('\n') + (
    "failed to read nix build output: "@ + source@));
}

/// A failed build is reported by what it printed to its standard error, under
/// the redacted attribute and with its exit status.
pub proof fn law_failed_builds_are_classified(plan: SwitchView, ended: Piped)
    ensures
        ended matches Piped::Finished(finished) ==> (!finished.success ==> realized(plan, ended)
            == Err::<Seq<char>, ErrorView>(
            build_failure(
                redacted(plan.toplevel_attr),
                finished.code,
                printed_error(finished.stderr@),
                plan.realization_policy,
            ),
        )),
{
}

/// A build whose output was not captured has failed, and says so.
pub proof fn law_uncaptured_builds_fail(plan: SwitchView)
    ensures
        realized(plan, Piped::NotCaptured) == Err::<Seq<char>, ErrorView>(
            ErrorView::RealizationFailed {
                attr: redacted(plan.toplevel_attr),
                status: None,
                stderr: "nix build stdout was not captured"@,
            },
        ),
{
}

} // verus!
