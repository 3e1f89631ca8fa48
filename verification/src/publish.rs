//! Publication: which store paths a switch publishes, and who publishes and
//! verifies them.

use vstd::prelude::*;

use crate::calls::{calls_since, store_gave, Call, Calls};
use crate::error::{outcome, Error, ErrorView, Result};
use crate::realize::{first_line, first_non_empty_line};
use crate::text;

verus! {

// ---------------------------------------------------------------------------
// Publishers and verifiers
// ---------------------------------------------------------------------------

/// Publishes store paths to a shared cache before activation.
pub trait Publisher {
    /// Makes every path present on the shared cache.
    ///
    /// Implementations should be effectively idempotent: paths already present
    /// on the cache should be treated as a successful no-op. Returning `Err`
    /// aborts before activation.
    fn publish(&self, paths: &[String]) -> Result<()>;
}

/// Verifies that store paths are available from a shared cache before activation.
pub trait Verifier {
    /// Confirms every path is queryable on the cache.
    ///
    /// Return the paths that are still missing. Returning `Err`, or returning a
    /// non-empty missing set, aborts before activation.
    fn verify_present(&self, paths: &[String]) -> Result<Vec<String>>;
}

/// A verifier for callers that treat a successful publish as sufficient proof.
#[derive(Debug, Clone, Copy)]
pub struct TrustPublish;

impl Default for TrustPublish {
    fn default() -> (result: Self)
        ensures
            result == TrustPublish,
    {
        TrustPublish
    }
}

impl Verifier for TrustPublish {
    fn verify_present(&self, _paths: &[String]) -> (result: Result<Vec<String>>)
        ensures
            outcome(result) == Ok::<Seq<Seq<char>>, ErrorView>(Seq::empty()),
    {
        let missing: Vec<String> = Vec::new();
        assert(missing.deep_view() =~= Seq::<Seq<char>>::empty());
        Ok(missing)
    }
}

/// The publisher was handed the paths and ended with `result`.
pub open spec fn published<P: Publisher>(
    publisher: &P,
    paths: Seq<Seq<char>>,
    result: Result<()>,
) -> bool {
    exists|list: &[String]|
        #![trigger call_ensures(P::publish, (publisher, list), result)]
        list.deep_view() == paths && call_ensures(P::publish, (publisher, list), result)
}

/// The verifier was handed the paths and ended with `result`.
pub open spec fn verified<Q: Verifier>(
    verifier: &Q,
    paths: Seq<Seq<char>>,
    result: Result<Vec<String>>,
) -> bool {
    exists|list: &[String]|
        #![trigger call_ensures(Q::verify_present, (verifier, list), result)]
        list.deep_view() == paths && call_ensures(Q::verify_present, (verifier, list), result)
}

// ---------------------------------------------------------------------------
// The closure to publish
// ---------------------------------------------------------------------------

/// Answers queries of the local Nix store.
pub trait StoreQuery {
    /// What `nix-store` with the arguments prints about a path.
    fn query(&self, args: &[String], path: &str) -> Result<String>;
}

/// The store was asked about a path and answered with `result`.
pub open spec fn queried<S: StoreQuery>(
    store: &S,
    args: Seq<Seq<char>>,
    path: Seq<char>,
    result: Result<String>,
) -> bool {
    exists|list: &[String], about: &str|
        #![trigger call_ensures(S::query, (store, list, about), result)]
        list.deep_view() == args && about@ == path && call_ensures(
            S::query,
            (store, list, about),
            result,
        )
}

/// The paths that are published, of those that a query printed: no blank lines
/// and no derivations.
pub open spec fn publishable(requisites: Seq<char>) -> Seq<Seq<char>> {
    text::trimmed_lines(requisites).filter(|path: Seq<char>| !".drv"@.is_suffix_of(path))
}

/// The paths that are published, of those that a query printed.
pub fn filter_publish_paths(requisites: &str) -> (result: Vec<String>)
    ensures
        result.deep_view() == publishable(requisites@),
{
    let lines = text::nonblank_lines(requisites);
    let ghost all = text::trimmed_lines(requisites@);
    let ghost pred = |path: Seq<char>| !".drv"@.is_suffix_of(path);
    let mut paths: Vec<String> = Vec::new();
    proof {
        reveal(Seq::filter);
        assert(all.take(0).filter(pred) =~= Seq::empty());
    }
    for i in 0..lines.len()
        invariant
            all == text::trimmed_lines(requisites@),
            lines.deep_view() == all,
            pred == (|path: Seq<char>| !".drv"@.is_suffix_of(path)),
            paths.deep_view() == all.take(i as int).filter(pred),
    {
        proof {
            reveal(Seq::filter);
            assert(all.take(i + 1).drop_last() =~= all.take(i as int));
            assert(all.take(i + 1).last() == lines@[i as int]@);
        }
        if !text::ends_with(lines[i].as_str(), ".drv") {
            text::add_item(&mut paths, lines[i].clone());
        }
    }
    assert(all.take(lines.len() as int) =~= all);
    paths
}

/// The arguments of the query for the deriver of a path.
pub open spec fn deriver_query() -> Seq<Seq<char>> {
    seq!["--query"@, "--deriver"@]
}

/// The arguments of the query for everything that a path needs.
pub open spec fn requisites_query() -> Seq<Seq<char>> {
    seq!["--query"@, "--requisites"@, "--include-outputs"@]
}

/// The path whose requisites are published: the deriver of the toplevel, or the
/// toplevel itself where the store does not know the deriver.
pub open spec fn closure_root(toplevel: Seq<char>, answer: Seq<char>) -> std::result::Result<
    Seq<char>,
    ErrorView,
> {
    match first_line(answer) {
        None => Err(ErrorView::NixStoreNoDeriver { toplevel }),
        Some(deriver) => if deriver == "unknown-deriver"@ {
            Ok(toplevel)
        } else {
            Ok(deriver)
        },
    }
}

/// The path whose requisites are published, given what the store answered when
/// it was asked for the deriver.
pub fn query_target(toplevel: &str, answer: &str) -> (result: Result<String>)
    ensures
        outcome(result) == closure_root(toplevel@, answer@),
{
    match first_non_empty_line(answer) {
        None => Err(Error::NixStoreNoDeriver { toplevel: toplevel.to_owned() }),
        Some(deriver) => {
            if text::same(deriver.as_str(), "unknown-deriver") {
                Ok(toplevel.to_owned())
            } else {
                Ok(deriver)
            }
        },
    }
}

/// The last query for a closure, and what follows from its answer.
pub open spec fn requisites_found(
    target: Seq<char>,
    calls: Seq<Call>,
    result: Result<Vec<String>>,
) -> bool {
    calls.len() == 1 && match calls[0] {
        Call::Query { args, path, result: answer } => {
            &&& args == requisites_query()
            &&& path == target
            &&& match answer {
                Err(error) => result == Err::<Vec<String>, Error>(error),
                Ok(requisites) => outcome(result) == Ok::<Seq<Seq<char>>, ErrorView>(
                    publishable(requisites@),
                ),
            }
        },
        _ => false,
    }
}

/// The queries for a closure, and what follows from their answers.
pub open spec fn closure_found(
    toplevel: Seq<char>,
    calls: Seq<Call>,
    result: Result<Vec<String>>,
) -> bool {
    calls.len() > 0 && match calls[0] {
        Call::Query { args, path, result: answer } => {
            &&& args == deriver_query()
            &&& path == toplevel
            &&& match answer {
                Err(error) => calls.len() == 1 && result == Err::<Vec<String>, Error>(error),
                Ok(deriver) => match closure_root(toplevel, deriver@) {
                    Err(error) => calls.len() == 1 && outcome(result) == Err::<
                        Seq<Seq<char>>,
                        ErrorView,
                    >(error),
                    Ok(target) => requisites_found(target, calls.skip(1), result),
                },
            }
        },
        _ => false,
    }
}

/// Returns the realised, non-derivation store paths that must be published for
/// `toplevel`.
///
/// This first asks Nix for the deriver of `toplevel`, then queries the complete
/// closure with outputs included. Empty lines and derivation paths are omitted
/// from the result; Nix daemon queries, not filesystem metadata, establish
/// store validity.
///
/// When the deriver has been garbage-collected (or the path was imported), Nix
/// returns `"unknown-deriver"`. In that case the toplevel path is queried
/// directly for its runtime closure instead.
pub fn closure_to_publish<T: StoreQuery>(toplevel: &str, calls: &mut Calls<'_, T>) -> (result:
    Result<Vec<String>>)
    ensures
        final(calls).continues(old(calls)),
        closure_found(toplevel@, calls_since(old(calls)@, final(calls)@), result),
        store_gave(final(calls).party(), calls_since(old(calls)@, final(calls)@)),
{
    let ghost before = calls@;
    let args: Vec<String> = vec!["--query".to_owned(), "--deriver".to_owned()];
    assert(args.deep_view() =~= deriver_query());
    let answer = calls.query(args.as_slice(), toplevel);
    let ghost first = Call::Query { args: deriver_query(), path: toplevel@, result: answer };
    assert(calls_since(before, calls@) =~= seq![first]);
    let deriver = match answer {
        Ok(deriver) => deriver,
        Err(error) => {
            return Err(error);
        },
    };
    let target = match query_target(toplevel, deriver.as_str()) {
        Ok(target) => target,
        Err(error) => {
            return Err(error);
        },
    };
    let args: Vec<String> = vec![
        "--query".to_owned(),
        "--requisites".to_owned(),
        "--include-outputs".to_owned(),
    ];
    assert(args.deep_view() =~= requisites_query());
    let answer = calls.query(args.as_slice(), target.as_str());
    proof {
        let last = Call::Query { args: requisites_query(), path: target@, result: answer };
        assert(calls_since(before, calls@) =~= seq![first, last]);
        assert(calls_since(before, calls@).skip(1) =~= seq![last]);
    }
    match answer {
        Ok(requisites) => Ok(filter_publish_paths(requisites.as_str())),
        Err(error) => Err(error),
    }
}

/// No derivation and no blank path is ever published.
pub proof fn law_only_outputs_are_published(requisites: Seq<char>, path: Seq<char>)
    requires
        publishable(requisites).contains(path),
    ensures
        path.len() > 0,
        !".drv"@.is_suffix_of(path),
        text::trimmed_lines(requisites).contains(path),
{
    let pred = |path: Seq<char>| !".drv"@.is_suffix_of(path);
    let lines = text::trimmed_lines(requisites);
    let i = publishable(requisites).index_of(path);
    assert(publishable(requisites)[i] == path);
    lines.lemma_filter_pred(pred, i);
    lemma_filtered_from(lines, pred, i);
    let not_blank = |line: Seq<char>| line.len() > 0;
    let trimmed = text::lines_of(requisites).map_values(|line: Seq<char>| text::trimmed(line));
    assert(lines == trimmed.filter(not_blank));
    trimmed.lemma_filter_pred(not_blank, lines.index_of(path));
}

proof fn lemma_filtered_from(
    items: Seq<Seq<char>>,
    pred: spec_fn(Seq<char>) -> bool,
    i: int,
)
    requires
        0 <= i < items.filter(pred).len(),
    ensures
        items.contains(items.filter(pred)[i]),
    decreases items.len(),
{
    reveal(Seq::filter);
    let rest = items.drop_last();
    if i < rest.filter(pred).len() {
        lemma_filtered_from(rest, pred, i);
        let at = rest.index_of(rest.filter(pred)[i]);
        assert(items[at] == rest.filter(pred)[i]);
    } else {
        assert(items[items.len() - 1] == items.last());
    }
}

/// A path is published if and only if it stands on a line of its own, without
/// the white space around it, and is no derivation.
pub proof fn law_exactly_the_outputs_are_published(requisites: Seq<char>, path: Seq<char>)
    ensures
        publishable(requisites).contains(path) <==> text::trimmed_lines(requisites).contains(path)
            && path.len() > 0 && !".drv"@.is_suffix_of(path),
{
    let pred = |path: Seq<char>| !".drv"@.is_suffix_of(path);
    let lines = text::trimmed_lines(requisites);
    if publishable(requisites).contains(path) {
        law_only_outputs_are_published(requisites, path);
    }
    if lines.contains(path) && pred(path) {
        lines.lemma_filter_contains(pred, lines.index_of(path));
    }
}

/// Lines are published one by one and in order: cut at a line ending, a text
/// publishes what its two parts publish, and a text of one line publishes that
/// line, without the white space around it, unless it is blank or a derivation.
pub proof fn law_lines_are_published_in_order(left: Seq<char>, right: Seq<char>)
    ensures
        publishable(left.push('\n') + right) == publishable(left) + publishable(right),
        !left.contains('\n') ==> publishable(left) == if text::trimmed(left).len() == 0
            || ".drv"@.is_suffix_of(text::trimmed(left)) {
            Seq::<Seq<char>>::empty()
        } else {
            seq![text::trimmed(left)]
        },
{
    reveal(Seq::filter);
    let pred = |path: Seq<char>| !".drv"@.is_suffix_of(path);
    text::law_trimmed_lines_concatenate(left, right);
    Seq::filter_distributes_over_add(text::trimmed_lines(left), text::trimmed_lines(right), pred);
    if !left.contains('\n') {
        let lines = text::trimmed_lines(left);
        if lines.len() > 0 {
            assert(lines.drop_last() =~= Seq::empty());
            assert(lines.drop_last().filter(pred) =~= Seq::empty());
            assert(lines.last() == text::trimmed(left));
        } else {
            assert(lines.filter(pred) =~= Seq::empty());
        }
    }
}

/// The closure that is published is that of the deriver of the toplevel: the
/// store is asked for the deriver first and then for everything that it needs,
/// outputs included. Where the deriver is not known, the toplevel stands for it;
/// where the store names none, or does not answer, there is no closure.
pub proof fn law_the_closure_of_the_deriver_is_published(
    toplevel: Seq<char>,
    calls: Seq<Call>,
    result: Result<Vec<String>>,
)
    requires
        closure_found(toplevel, calls, result),
    ensures
        1 <= calls.len() <= 2,
        calls[0] matches Call::Query { args, path, .. } && args == seq![
            "--query"@,
            "--deriver"@,
        ] && path == toplevel,
        calls[0] matches Call::Query { result: Err(error), .. } ==> calls.len() == 1 && result
            == Err::<Vec<String>, Error>(error),
        calls[0] matches Call::Query { result: Ok(answer), .. } ==> {
            let lines = text::trimmed_lines(answer@);
            if lines.len() == 0 {
                calls.len() == 1 && outcome(result) == Err::<Seq<Seq<char>>, ErrorView>(
                    ErrorView::NixStoreNoDeriver { toplevel },
                )
            } else {
                calls.len() == 2 && (calls[1] matches Call::Query { args, path, result: printed }
                    && args == seq!["--query"@, "--requisites"@, "--include-outputs"@] && path == (
                if lines[0] == "unknown-deriver"@ {
                    toplevel
                } else {
                    lines[0]
                }) && match printed {
                    Err(error) => result == Err::<Vec<String>, Error>(error),
                    Ok(requisites) => outcome(result) == Ok::<Seq<Seq<char>>, ErrorView>(
                        publishable(requisites@),
                    ),
                })
            }
        },
{
    if let Call::Query { result: Ok(answer), .. } = calls[0] {
        if text::trimmed_lines(answer@).len() > 0 {
            assert(calls.skip(1).len() == calls.len() - 1);
            assert(calls.skip(1)[0] == calls[1]);
        }
    }
}

/// The path whose closure is published is the first line that the store printed,
/// unless that says that the deriver is not known: then it is the toplevel.
pub proof fn law_the_first_line_names_the_deriver(toplevel: Seq<char>, answer: Seq<char>)
    ensures
        text::trimmed_lines(answer).len() == 0 ==> closure_root(toplevel, answer) == Err::<
            Seq<char>,
            ErrorView,
        >(ErrorView::NixStoreNoDeriver { toplevel }),
        text::trimmed_lines(answer).len() > 0 ==> closure_root(toplevel, answer) == Ok::<
            Seq<char>,
            ErrorView,
        >(
            if text::trimmed_lines(answer)[0] == "unknown-deriver"@ {
                toplevel
            } else {
                text::trimmed_lines(answer)[0]
            },
        ),
{
}

/// A store that could not have given the answer to a question with the
/// arguments about the path was not asked it with that answer.
pub proof fn law_stores_answer_what_they_are_asked<S: StoreQuery>(
    store: &S,
    args: Seq<Seq<char>>,
    path: Seq<char>,
    result: Result<String>,
)
    requires
        forall|list: &[String], about: &str|
            list.deep_view() == args && about@ == path ==> !#[trigger] call_ensures(
                S::query,
                (store, list, about),
                result,
            ),
    ensures
        !queried(store, args, path, result),
{
}

/// A publisher and a verifier that could not have ended so on the paths were not
/// handed them with that end.
pub proof fn law_caches_are_handed_the_paths<P: Publisher, Q: Verifier>(
    publisher: &P,
    verifier: &Q,
    paths: Seq<Seq<char>>,
    ended: Result<()>,
    missing: Result<Vec<String>>,
)
    ensures
        (forall|list: &[String]|
            list.deep_view() == paths ==> !#[trigger] call_ensures(
                P::publish,
                (publisher, list),
                ended,
            )) ==> !published(publisher, paths, ended),
        (forall|list: &[String]|
            list.deep_view() == paths ==> !#[trigger] call_ensures(
                Q::verify_present,
                (verifier, list),
                missing,
            )) ==> !verified(verifier, paths, missing),
{
}

} // verus!
