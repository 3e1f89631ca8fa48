//! The probe of one store: which of some output paths it has.
//!
//! A store is pinged first and then asked in bounded batches. Running the
//! commands is the caller's part; [`StoreProbe`] says which command comes next
//! and reads what it printed.

use vstd::prelude::*;

use crate::command::{error_text, printed_error, Ended};
use crate::error::{outcome, Error, ErrorView, Result};
use crate::outside::{
    json_document, json_from_slice, json_get, json_is_null, json_model, member_of, JsonView,
};
use crate::sorted::SortedMap;
use crate::text;

verus! {

/// Most outputs that one query asks for.
pub const PROBE_BATCH: usize = 1024;

/// The first of some outputs, empty when there is none.
pub open spec fn head_of(outputs: Seq<Seq<char>>) -> Seq<char> {
    if outputs.len() == 0 {
        Seq::empty()
    } else {
        outputs[0]
    }
}

/// The command that pings a store.
pub open spec fn ping_command(substituter: Seq<char>) -> Seq<Seq<char>> {
    seq!["store"@, "ping"@, "--store"@, substituter]
}

/// The command that asks a store for outputs.
pub open spec fn query_command(substituter: Seq<char>, outputs: Seq<Seq<char>>) -> Seq<Seq<char>> {
    seq!["path-info"@, "--json"@, "--json-format"@, "1"@, "--store"@, substituter] + outputs
}

/// What is known of the outputs once a document has answered for `outputs`.
/// Each of them must have a field in the document, which is `null` for an
/// output that the store lacks.
pub open spec fn with_answers(
    substituter: Seq<char>,
    outputs: Seq<Seq<char>>,
    document: JsonView,
    availability: Map<Seq<char>, bool>,
) -> std::result::Result<Map<Seq<char>, bool>, ErrorView>
    decreases outputs.len(),
{
    if outputs.len() == 0 {
        Ok(availability)
    } else {
        match member_of(document, outputs[0]) {
            None => Err(
                ErrorView::PlannerCacheProbeJson {
                    substituter,
                    output: outputs[0],
                    reason: "response did not contain the queried output"@,
                },
            ),
            Some(value) => with_answers(
                substituter,
                outputs.drop_first(),
                document,
                availability.insert(outputs[0], !(value is Null)),
            ),
        }
    }
}

/// Reads the answers that a document gives for `outputs`.
pub fn record_answers(
    substituter: &str,
    outputs: &[String],
    document: &serde_json::Value,
    availability: SortedMap<bool>,
) -> (result: Result<SortedMap<bool>>)
    ensures
        outcome(result) == with_answers(
            substituter@,
            outputs.deep_view(),
            json_model(*document),
            availability.deep_view(),
        ),
{
    let ghost all = outputs.deep_view();
    let ghost model = json_model(*document);
    let ghost expected = with_answers(substituter@, all, model, availability.deep_view());
    let mut known = availability;
    assert(all.skip(0) =~= all);
    for i in 0..outputs.len()
        invariant
            all == outputs.deep_view(),
            model == json_model(*document),
            expected == with_answers(substituter@, all, model, availability.deep_view()),
            expected == with_answers(
                substituter@,
                all.skip(i as int),
                model,
                known.deep_view(),
            ),
    {
        assert(all.skip(i as int)[0] == outputs@[i as int]@);
        assert(all.skip(i as int).drop_first() =~= all.skip(i + 1));
        let output = &outputs[i];
        let value = match json_get(document, output.as_str()) {
            Some(value) => value,
            None => {
                return Err(
                    Error::PlannerCacheProbeJson {
                        substituter: substituter.to_owned(),
                        output: output.clone(),
                        reason: "response did not contain the queried output".to_owned(),
                    },
                );
            },
        };
        let ghost before = known.deep_view();
        let present = !json_is_null(value);
        known.insert(output.clone(), present);
        assert(known.deep_view() =~= before.insert(output@, present));
    }
    Ok(known)
}

/// Progress of the probe of one store.
#[derive(Debug)]
pub struct StoreProbe {
    substituter: String,
    outputs: Vec<String>,
    next: usize,
    availability: SortedMap<bool>,
}

/// Model of a [`StoreProbe`]: the store, the outputs to look for, how many of
/// them have been answered for, and the answers.
#[verifier::ext_equal]
pub struct StoreProbeView {
    pub substituter: Seq<char>,
    pub outputs: Seq<Seq<char>>,
    pub next: nat,
    pub availability: Map<Seq<char>, bool>,
}

impl View for StoreProbe {
    type V = StoreProbeView;

    closed spec fn view(&self) -> StoreProbeView {
        StoreProbeView {
            substituter: self.substituter@,
            outputs: self.outputs.deep_view(),
            next: self.next as nat,
            availability: self.availability.deep_view(),
        }
    }
}

impl DeepView for StoreProbe {
    type V = StoreProbeView;

    open spec fn deep_view(&self) -> StoreProbeView {
        self@
    }
}

impl StoreProbeView {
    /// The answers are exactly those for the outputs that are done.
    pub open spec fn well_formed(self) -> bool {
        &&& self.next <= self.outputs.len()
        &&& self.availability.dom() == self.outputs.take(self.next as int).to_set()
    }

    /// Where the next batch ends.
    pub open spec fn batch_end(self) -> nat {
        if self.outputs.len() - self.next > PROBE_BATCH {
            self.next + PROBE_BATCH as nat
        } else {
            self.outputs.len()
        }
    }

    /// The outputs that the next query asks for.
    pub open spec fn batch(self) -> Seq<Seq<char>> {
        self.outputs.subrange(self.next as int, self.batch_end() as int)
    }

    /// The probe once the next query has been answered.
    pub open spec fn answered(
        self,
        document: std::result::Result<JsonView, Seq<char>>,
    ) -> std::result::Result<StoreProbeView, ErrorView> {
        match document {
            Err(reason) => Err(
                ErrorView::PlannerCacheProbeJson {
                    substituter: self.substituter,
                    output: head_of(self.batch()),
                    reason,
                },
            ),
            Ok(document) => match with_answers(
                self.substituter,
                self.batch(),
                document,
                self.availability,
            ) {
                Ok(availability) => Ok(
                    StoreProbeView { next: self.batch_end(), availability, ..self },
                ),
                Err(error) => Err(error),
            },
        }
    }

    /// The probe once the next query has ended.
    pub open spec fn ended(self, ended: Ended) -> std::result::Result<StoreProbeView, ErrorView> {
        match ended {
            Ended::NotRun { source } => Err(
                ErrorView::PlannerCacheProbe {
                    substituter: self.substituter,
                    output: head_of(self.batch()),
                    source: source@,
                },
            ),
            Ended::Finished(finished) => self.answered(json_document(finished.stdout@)),
        }
    }
}

proof fn lemma_with_answers_dom(
    substituter: Seq<char>,
    outputs: Seq<Seq<char>>,
    document: JsonView,
    availability: Map<Seq<char>, bool>,
)
    ensures
        with_answers(substituter, outputs, document, availability) matches Ok(known)
            ==> known.dom() == availability.dom().union(outputs.to_set()),
    decreases outputs.len(),
{
    if outputs.len() == 0 {
        assert(availability.dom().union(outputs.to_set()) =~= availability.dom());
    } else if let Some(value) = member_of(document, outputs[0]) {
        let rest = outputs.drop_first();
        let inserted = availability.insert(outputs[0], !(value is Null));
        lemma_with_answers_dom(substituter, rest, document, inserted);
        assert(outputs.to_set() =~= rest.to_set().insert(outputs[0])) by {
            assert forall|t: Seq<char>| outputs.contains(t) == (rest.contains(t) || t
                == outputs[0]) by {
                if outputs.contains(t) && t != outputs[0] {
                    let i = outputs.index_of(t);
                    assert(rest[i - 1] == t);
                }
                if rest.contains(t) {
                    let i = rest.index_of(t);
                    assert(outputs[i + 1] == t);
                }
                assert(outputs.contains(outputs[0]));
            }
        }
        assert(inserted.dom().union(rest.to_set()) =~= availability.dom().union(outputs.to_set()));
    }
}

/// The arguments of `nix` that ping a store.
pub fn ping_args(substituter: &str) -> (result: Vec<String>)
    ensures
        result.deep_view() == ping_command(substituter@),
{
    let args = vec![
        "store".to_owned(),
        "ping".to_owned(),
        "--store".to_owned(),
        substituter.to_owned(),
    ];
    assert(args.deep_view() =~= ping_command(substituter@));
    args
}

/// The first of some outputs, which stands for them in an error.
pub fn first_output(outputs: &[String]) -> (result: String)
    ensures
        result@ == head_of(outputs.deep_view()),
{
    if outputs.len() == 0 {
        String::new()
    } else {
        assert(outputs.deep_view()[0] == outputs@[0]@);
        outputs[0].clone()
    }
}

/// The probe of a store, given how its ping ended.
pub open spec fn opened(
    substituter: Seq<char>,
    outputs: Seq<Seq<char>>,
    ping: Ended,
) -> std::result::Result<StoreProbeView, ErrorView> {
    match ping {
        Ended::NotRun { source } => Err(
            ErrorView::PlannerCacheProbe {
                substituter,
                output: head_of(outputs),
                source: source@,
            },
        ),
        Ended::Finished(finished) => if finished.success {
            Ok(StoreProbeView { substituter, outputs, next: 0, availability: Map::empty() })
        } else {
            Err(
                ErrorView::PlannerCacheProbeFailed {
                    substituter,
                    output: head_of(outputs),
                    stderr: printed_error(finished.stderr@),
                },
            )
        },
    }
}

impl StoreProbe {
    #[verifier::type_invariant]
    closed spec fn consistent(self) -> bool {
        self@.well_formed()
    }

    /// Opens the probe of a store whose ping has ended.
    pub fn open(substituter: &str, outputs: Vec<String>, ping: Ended) -> (result: Result<
        StoreProbe,
    >)
        ensures
            outcome(result) == opened(substituter@, outputs.deep_view(), ping),
    {
        match ping {
            Ended::NotRun { source } => {
                return Err(
                    Error::PlannerCacheProbe {
                        substituter: substituter.to_owned(),
                        output: first_output(outputs.as_slice()),
                        source,
                    },
                );
            },
            Ended::Finished(finished) => {
                if !finished.success {
                    return Err(
                        Error::PlannerCacheProbeFailed {
                            substituter: substituter.to_owned(),
                            output: first_output(outputs.as_slice()),
                            stderr: error_text(finished.stderr.as_slice()),
                        },
                    );
                }
            },
        }
        let availability: SortedMap<bool> = SortedMap::new();
        assert(outputs.deep_view().take(0).to_set() =~= Set::<Seq<char>>::empty());
        assert(availability.deep_view() =~= Map::<Seq<char>, bool>::empty());
        assert(availability.deep_view().dom() =~= Set::<Seq<char>>::empty());
        Ok(StoreProbe { substituter: substituter.to_owned(), outputs, next: 0, availability })
    }

    fn end(&self) -> (result: usize)
        requires
            self@.well_formed(),
        ensures
            result == self@.batch_end(),
            self.next <= result <= self.outputs.len(),
    {
        if self.outputs.len() - self.next > PROBE_BATCH {
            self.next + PROBE_BATCH
        } else {
            self.outputs.len()
        }
    }

    /// The outputs that the next query asks for; none when all are answered.
    pub fn next_batch(&self) -> (result: Vec<String>)
        ensures
            result.deep_view() == self@.batch(),
    {
        proof {
            use_type_invariant(self);
        }
        let end = self.end();
        let mut batch: Vec<String> = Vec::new();
        for i in self.next..end
            invariant
                self@.well_formed(),
                end == self@.batch_end(),
                end <= self.outputs.len(),
                self.next <= end,
                batch.deep_view() == self@.outputs.subrange(self.next as int, i as int),
        {
            let ghost done = batch.deep_view();
            text::add_item(&mut batch, self.outputs[i].clone());
            assert(self@.outputs[i as int] == self.outputs@[i as int]@);
            assert(batch.deep_view() =~= self@.outputs.subrange(self.next as int, i + 1));
        }
        batch
    }

    /// The arguments of `nix` for the next query; none when every output has
    /// been answered for.
    pub fn query(&self) -> (result: Option<Vec<String>>)
        ensures
            result.deep_view() == if self@.next == self@.outputs.len() {
                None
            } else {
                Some(query_command(self@.substituter, self@.batch()))
            },
    {
        proof {
            use_type_invariant(self);
        }
        if self.next == self.outputs.len() {
            return None;
        }
        let mut args = vec![
            "path-info".to_owned(),
            "--json".to_owned(),
            "--json-format".to_owned(),
            "1".to_owned(),
            "--store".to_owned(),
            self.substituter.clone(),
        ];
        assert(args.deep_view() =~= seq![
            "path-info"@,
            "--json"@,
            "--json-format"@,
            "1"@,
            "--store"@,
            self.substituter@,
        ]);
        text::extend(&mut args, self.next_batch());
        Some(args)
    }

    /// Takes the document that the next query printed, or the reason why it
    /// printed none.
    pub fn accept(self, document: std::result::Result<serde_json::Value, String>) -> (result: Result<
        StoreProbe,
    >)
        ensures
            outcome(result) == self@.answered(
                match document {
                    Ok(value) => Ok(json_model(value)),
                    Err(reason) => Err(reason@),
                },
            ),
    {
        proof {
            use_type_invariant(&self);
        }
        let batch = self.next_batch();
        let end = self.end();
        let ghost before = self@;
        let StoreProbe { substituter, outputs, next, availability } = self;
        let document = match document {
            Ok(document) => document,
            Err(reason) => {
                return Err(
                    Error::PlannerCacheProbeJson {
                        substituter,
                        output: first_output(batch.as_slice()),
                        reason,
                    },
                );
            },
        };
        match record_answers(substituter.as_str(), batch.as_slice(), &document, availability) {
            Ok(known) => {
                proof {
                    let model = json_model(document);
                    lemma_with_answers_dom(
                        before.substituter,
                        before.batch(),
                        model,
                        before.availability,
                    );
                    let all = before.outputs;
                    let done = all.take(next as int);
                    assert(all.take(end as int) =~= done + before.batch());
                    assert((done + before.batch()).to_set() =~= done.to_set().union(
                        before.batch().to_set(),
                    )) by {
                        broadcast use vstd::seq_lib::group_seq_properties;

                        vstd::seq_lib::seq_to_set_distributes_over_add(done, before.batch());
                    }
                }
                Ok(StoreProbe { substituter, outputs, next: end, availability: known })
            },
            Err(error) => Err(error),
        }
    }

    /// Takes the end of the next query. Only what it printed counts: `nix` ends
    /// without success where an output is missing.
    pub fn answer(self, ended: Ended) -> (result: Result<StoreProbe>)
        ensures
            outcome(result) == self@.ended(ended),
    {
        match ended {
            Ended::NotRun { source } => {
                let batch = self.next_batch();
                Err(
                    Error::PlannerCacheProbe {
                        substituter: self.substituter.clone(),
                        output: first_output(batch.as_slice()),
                        source,
                    },
                )
            },
            Ended::Finished(finished) => self.accept(json_from_slice(finished.stdout.as_slice())),
        }
    }

    /// The answers, which cover every output once no query is left.
    pub fn finish(self) -> (result: SortedMap<bool>)
        ensures
            result.deep_view() == self@.availability,
            self@.next == self@.outputs.len() ==> result.deep_view().dom()
                == self@.outputs.to_set(),
    {
        proof {
            use_type_invariant(&self);
            if self@.next == self@.outputs.len() {
                assert(self@.outputs.take(self@.next as int) =~= self@.outputs);
            }
        }
        self.availability
    }
}

// ---------------------------------------------------------------------------
// Laws
// ---------------------------------------------------------------------------

/// A store has an output if and only if its answer holds something for it that
/// is not null. An answer that leaves out an output is an error, which names the
/// first that it leaves out.
pub proof fn law_answers_say_what_a_store_has(
    substituter: Seq<char>,
    outputs: Seq<Seq<char>>,
    document: JsonView,
    availability: Map<Seq<char>, bool>,
    i: int,
)
    requires
        0 <= i < outputs.len(),
        forall|k: int| 0 <= k < i ==> member_of(document, #[trigger] outputs[k]) is Some,
    ensures
        ({
            let result = with_answers(substituter, outputs, document, availability);
            &&& member_of(document, outputs[i]) is None ==> result == Err::<
                Map<Seq<char>, bool>,
                ErrorView,
            >(
                ErrorView::PlannerCacheProbeJson {
                    substituter,
                    output: outputs[i],
                    reason: "response did not contain the queried output"@,
                },
            )
            &&& result matches Ok(found) ==> (member_of(document, outputs[i]) matches Some(value)
                && found.contains_key(outputs[i]) && found[outputs[i]] == !(value is Null))
        }),
    decreases i,
{
    if i > 0 {
        let rest = outputs.drop_first();
        assert(member_of(document, outputs[0]) is Some);
        assert forall|k: int| 0 <= k < i - 1 implies member_of(
            document,
            #[trigger] rest[k],
        ) is Some by {
            assert(rest[k] == outputs[k + 1]);
        }
        let value = member_of(document, outputs[0])->0;
        law_answers_say_what_a_store_has(
            substituter,
            rest,
            document,
            availability.insert(outputs[0], !(value is Null)),
            i - 1,
        );
        assert(rest[i - 1] == outputs[i]);
    } else {
        lemma_answers_stay(substituter, outputs, document, availability, outputs[0]);
    }
}

/// An answer is what the document says, or was there before.
proof fn lemma_answers_stay(
    substituter: Seq<char>,
    outputs: Seq<Seq<char>>,
    document: JsonView,
    availability: Map<Seq<char>, bool>,
    output: Seq<char>,
)
    ensures
        with_answers(substituter, outputs, document, availability) matches Ok(found) ==> {
            &&& found.contains_key(output) <==> availability.contains_key(output)
                || outputs.contains(output)
            &&& outputs.contains(output) ==> (member_of(document, output) matches Some(value)
                && found[output] == !(value is Null))
            &&& !outputs.contains(output) && availability.contains_key(output) ==> found[output]
                == availability[output]
        },
    decreases outputs.len(),
{
    if outputs.len() > 0 {
        if let Some(value) = member_of(document, outputs[0]) {
            let rest = outputs.drop_first();
            lemma_answers_stay(
                substituter,
                rest,
                document,
                availability.insert(outputs[0], !(value is Null)),
                output,
            );
            if outputs.contains(output) && output != outputs[0] {
                let i = outputs.index_of(output);
                assert(rest[i - 1] == output);
            }
            if rest.contains(output) {
                let i = rest.index_of(output);
                assert(outputs[i + 1] == output);
            }
        }
    }
}

/// Every output that was asked for is answered for, and what was known of others
/// stays as it was.
pub proof fn law_answers_are_added(
    substituter: Seq<char>,
    outputs: Seq<Seq<char>>,
    document: JsonView,
    availability: Map<Seq<char>, bool>,
    output: Seq<char>,
)
    ensures
        with_answers(substituter, outputs, document, availability) matches Ok(found) ==> {
            &&& found.contains_key(output) <==> availability.contains_key(output)
                || outputs.contains(output)
            &&& !outputs.contains(output) && availability.contains_key(output) ==> found[output]
                == availability[output]
        },
{
    lemma_answers_stay(substituter, outputs, document, availability, output);
}

/// A store is asked for its outputs batch by batch, each output in exactly one:
/// a batch begins where the last one ended, holds at most 1024, and is shorter
/// only at the end.
pub proof fn law_batches_follow_each_other(probe: StoreProbeView)
    requires
        probe.next < probe.outputs.len(),
    ensures
        1 <= probe.batch().len() <= 1024,
        probe.next + probe.batch().len() == probe.batch_end() <= probe.outputs.len(),
        probe.batch_end() < probe.outputs.len() ==> probe.batch().len() == 1024,
        forall|k: int|
            0 <= k < probe.batch().len() ==> #[trigger] probe.batch()[k] == probe.outputs[probe.next
                + k],
        forall|document: std::result::Result<JsonView, Seq<char>>|
            #![trigger probe.answered(document)]
            probe.answered(document) matches Ok(after) ==> after.next == probe.batch_end()
                && after.outputs == probe.outputs && after.substituter == probe.substituter,
{
}

/// A store is asked whether it answers at all, and only one that does is asked
/// for outputs; otherwise its probe fails.
pub proof fn law_only_stores_that_answer_are_probed(
    substituter: Seq<char>,
    outputs: Seq<Seq<char>>,
    ping: Ended,
)
    ensures
        ping_command(substituter) == seq!["store"@, "ping"@, "--store"@, substituter],
        query_command(substituter, outputs) == seq![
            "path-info"@,
            "--json"@,
            "--json-format"@,
            "1"@,
            "--store"@,
            substituter,
        ] + outputs,
        opened(substituter, outputs, ping) is Ok <==> (ping matches Ended::Finished(finished)
            && finished.success),
        opened(substituter, outputs, ping) matches Ok(probe) ==> probe.next == 0 && probe.outputs
            == outputs && probe.substituter == substituter && probe.availability == Map::<
            Seq<char>,
            bool,
        >::empty(),
        ping matches Ended::NotRun { source } ==> (opened(substituter, outputs, ping) matches Err(
            ErrorView::PlannerCacheProbe { substituter: store, source: why, .. },
        ) && store == substituter && why == source@),
        ping matches Ended::Finished(finished) ==> (!finished.success ==> (opened(
            substituter,
            outputs,
            ping,
        ) matches Err(ErrorView::PlannerCacheProbeFailed { substituter: store, stderr, .. })
            && store == substituter && stderr == printed_error(finished.stderr@))),
{
}

/// A failed query fails the probe of the store; an answer is read from what the
/// query printed, whether it succeeded or not.
pub proof fn law_queries_are_read(probe: StoreProbeView, ended: Ended)
    ensures
        ended matches Ended::NotRun { source } ==> (probe.ended(ended) matches Err(
            ErrorView::PlannerCacheProbe { substituter, source: why, .. },
        ) && substituter == probe.substituter && why == source@),
        ended matches Ended::Finished(finished) ==> match json_document(finished.stdout@) {
            Err(reason) => probe.ended(ended) matches Err(
                ErrorView::PlannerCacheProbeJson { substituter, reason: why, .. },
            ) && substituter == probe.substituter && why == reason,
            Ok(document) => match with_answers(
                probe.substituter,
                probe.batch(),
                document,
                probe.availability,
            ) {
                Ok(found) => probe.ended(ended) matches Ok(after) && after.availability == found,
                Err(error) => probe.ended(ended) == Err::<StoreProbeView, ErrorView>(error),
            },
        },
{
}

/// The output that the error of a failed probe names is the first that was asked
/// for.
pub proof fn law_failed_probes_name_the_first_output(
    probe: StoreProbeView,
    outputs: Seq<Seq<char>>,
    source: String,
)
    ensures
        head_of(outputs) == if outputs.len() > 0 {
            outputs[0]
        } else {
            Seq::empty()
        },
        opened(probe.substituter, outputs, Ended::NotRun { source }) matches Err(
            ErrorView::PlannerCacheProbe { output, .. },
        ) && output == head_of(outputs),
        probe.ended(Ended::NotRun { source }) matches Err(
            ErrorView::PlannerCacheProbe { output, .. },
        ) && output == head_of(probe.batch()),
{
}

} // verus!
