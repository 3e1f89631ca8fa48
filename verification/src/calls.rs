//! Calls to the outside, in the order in which they are made.
//!
//! A function that has work done outside is handed [`Calls`] on the one who does
//! it, and can reach that party in no other way. Its contract speaks of the
//! calls that it makes: which, with what, in which order, and that there are no
//! others.

use vstd::prelude::*;

use crate::cli::{CliOptions, CliParties, PathCommand};
use crate::command::{ran, CommandRunner, CommandView};
use crate::error::Result;
use crate::publish::{published, queried, verified, Publisher, StoreQuery, Verifier};
use crate::request::{PreparedSwitch, PreparedSwitchView, SwitchPlan, SwitchView};
use crate::switch::{activated, built, closed, Runner};

verus! {

/// One call, and how it ended.
#[verifier::ext_equal]
pub enum Call {
    /// A toplevel was built.
    Build { plan: SwitchView, result: Result<String> },
    /// The closure of a toplevel was looked up.
    Closure { toplevel: Seq<char>, result: Result<Vec<String>> },
    /// Store paths were published.
    Publish { paths: Seq<Seq<char>>, result: Result<()> },
    /// The cache was asked for store paths.
    Verify { paths: Seq<Seq<char>>, result: Result<Vec<String>> },
    /// A prepared toplevel was activated.
    Activate { plan: SwitchView, prepared: PreparedSwitchView, result: Result<()> },
    /// A command was run.
    Run { command: CommandView, result: Result<()> },
    /// The local store was asked about a path.
    Query { args: Seq<Seq<char>>, path: Seq<char>, result: Result<String> },
}

/// The calls that are made on a party outside.
pub struct Calls<'a, T> {
    party: &'a T,
    made: Ghost<Seq<Call>>,
}

impl<'a, T> View for Calls<'a, T> {
    type V = Seq<Call>;

    /// The calls that have been made so far.
    closed spec fn view(&self) -> Seq<Call> {
        self.made@
    }
}

/// The calls that were made after `before`.
pub open spec fn calls_since(before: Seq<Call>, after: Seq<Call>) -> Seq<Call> {
    after.skip(before.len() as int)
}

impl<'a, T> Calls<'a, T> {
    /// The party that the calls are made on.
    pub closed spec fn party(&self) -> &'a T {
        self.party
    }

    /// The calls go on from `before`: on the same party, and with what was made
    /// before at the beginning.
    pub open spec fn continues(&self, before: &Self) -> bool {
        self.party() == before.party() && before@.is_prefix_of(self@)
    }

    /// No call has been made on the party yet.
    pub fn on(party: &'a T) -> (result: Self)
        ensures
            result.party() == party,
            result@ == Seq::<Call>::empty(),
    {
        Calls { party, made: Ghost(Seq::empty()) }
    }
}

impl<'a, T: Runner> Calls<'a, T> {
    /// Has the toplevel of a switch built.
    pub fn build_toplevel(&mut self, plan: &SwitchPlan<'_>) -> (result: Result<String>)
        ensures
            final(self).party() == old(self).party(),
            final(self)@ == old(self)@.push(Call::Build { plan: plan@, result }),
            built(old(self).party(), plan@, result),
    {
        let result = self.party.build_toplevel(plan);
        self.made = Ghost(self.made@.push(Call::Build { plan: plan@, result }));
        result
    }

    /// Has the closure of a toplevel looked up.
    pub fn closure_to_publish(&mut self, toplevel: &str) -> (result: Result<Vec<String>>)
        ensures
            final(self).party() == old(self).party(),
            final(self)@ == old(self)@.push(Call::Closure { toplevel: toplevel@, result }),
            closed(old(self).party(), toplevel@, result),
    {
        let result = self.party.closure_to_publish(toplevel);
        self.made = Ghost(self.made@.push(Call::Closure { toplevel: toplevel@, result }));
        result
    }

    /// Has a prepared toplevel activated.
    pub fn activate(&mut self, plan: &SwitchPlan<'_>, prepared: &PreparedSwitch) -> (result: Result<
        (),
    >)
        ensures
            final(self).party() == old(self).party(),
            final(self)@ == old(self)@.push(
                Call::Activate { plan: plan@, prepared: prepared@, result },
            ),
            activated(old(self).party(), plan@, prepared@, result),
    {
        let result = self.party.activate(plan, prepared);
        self.made = Ghost(
            self.made@.push(Call::Activate { plan: plan@, prepared: prepared@, result }),
        );
        result
    }
}

impl<'a, T: Publisher> Calls<'a, T> {
    /// Has store paths published.
    pub fn publish(&mut self, paths: &[String]) -> (result: Result<()>)
        ensures
            final(self).party() == old(self).party(),
            final(self)@ == old(self)@.push(Call::Publish { paths: paths.deep_view(), result }),
            published(old(self).party(), paths.deep_view(), result),
    {
        let result = self.party.publish(paths);
        self.made = Ghost(self.made@.push(Call::Publish { paths: paths.deep_view(), result }));
        result
    }
}

impl<'a, T: Verifier> Calls<'a, T> {
    /// Has the cache asked for store paths.
    pub fn verify_present(&mut self, paths: &[String]) -> (result: Result<Vec<String>>)
        ensures
            final(self).party() == old(self).party(),
            final(self)@ == old(self)@.push(Call::Verify { paths: paths.deep_view(), result }),
            verified(old(self).party(), paths.deep_view(), result),
    {
        let result = self.party.verify_present(paths);
        self.made = Ghost(self.made@.push(Call::Verify { paths: paths.deep_view(), result }));
        result
    }
}

impl<'a, T: CommandRunner> Calls<'a, T> {
    /// Has a command run.
    pub fn run(&mut self, program: &str, args: &[String]) -> (result: Result<()>)
        ensures
            final(self).party() == old(self).party(),
            ({
                let command = CommandView { program: program@, args: args.deep_view() };
                &&& final(self)@ == old(self)@.push(Call::Run { command, result })
                &&& ran(old(self).party(), command, result)
            }),
    {
        let result = self.party.run(program, args);
        let ghost command = CommandView { program: program@, args: args.deep_view() };
        self.made = Ghost(self.made@.push(Call::Run { command, result }));
        result
    }
}

impl<'a, T: StoreQuery> Calls<'a, T> {
    /// Has the local store asked about a path.
    pub fn query(&mut self, args: &[String], path: &str) -> (result: Result<String>)
        ensures
            final(self).party() == old(self).party(),
            final(self)@ == old(self)@.push(
                Call::Query { args: args.deep_view(), path: path@, result },
            ),
            queried(old(self).party(), args.deep_view(), path@, result),
    {
        let result = self.party.query(args, path);
        self.made = Ghost(
            self.made@.push(Call::Query { args: args.deep_view(), path: path@, result }),
        );
        result
    }
}

impl<'a, 'b, S: PathCommand, R: Runner> Calls<'a, CliParties<'b, S, R>> {
    /// The options that the party serves.
    pub fn options(&self) -> (result: &'b CliOptions)
        ensures
            result == self.party().options,
    {
        self.party.options
    }
}

// ---------------------------------------------------------------------------
// What came back
// ---------------------------------------------------------------------------

/// Whatever the calls say that a runner gave, it gave.
pub open spec fn runner_gave<R: Runner>(runner: &R, calls: Seq<Call>) -> bool {
    forall|i: int|
        0 <= i < calls.len() ==> match #[trigger] calls[i] {
            Call::Build { plan, result } => built(runner, plan, result),
            Call::Closure { toplevel, result } => closed(runner, toplevel, result),
            Call::Activate { plan, prepared, result } => activated(runner, plan, prepared, result),
            _ => true,
        }
}

/// Whatever the calls say that a publisher and a verifier gave, they gave.
pub open spec fn cache_gave<T: Publisher + Verifier>(party: &T, calls: Seq<Call>) -> bool {
    forall|i: int|
        0 <= i < calls.len() ==> match #[trigger] calls[i] {
            Call::Publish { paths, result } => published(party, paths, result),
            Call::Verify { paths, result } => verified(party, paths, result),
            _ => true,
        }
}

/// Whatever the calls say that commands gave, they gave.
pub open spec fn commands_gave<C: CommandRunner>(runner: &C, calls: Seq<Call>) -> bool {
    forall|i: int|
        0 <= i < calls.len() ==> match #[trigger] calls[i] {
            Call::Run { command, result } => ran(runner, command, result),
            _ => true,
        }
}

/// Whatever the calls say that the store answered, it answered.
pub open spec fn store_gave<S: StoreQuery>(store: &S, calls: Seq<Call>) -> bool {
    forall|i: int|
        0 <= i < calls.len() ==> match #[trigger] calls[i] {
            Call::Query { args, path, result } => queried(store, args, path, result),
            _ => true,
        }
}

} // verus!
