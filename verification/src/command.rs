//! Commands that are handed out to be run, and what their ends mean.

use vstd::prelude::*;
use vstd::utf8::{decode_utf8, valid_utf8};

use crate::calls::{calls_since, commands_gave, Call, Calls};
use crate::error::{outcome, Error, ErrorView, Result};
use crate::outside::{lossy_text, utf8_lossy, utf8_refusal, utf8_text};
use crate::text;

verus! {

// ---------------------------------------------------------------------------
// Command lines
// ---------------------------------------------------------------------------

/// A program and its arguments.
#[derive(Debug, PartialEq, Eq)]
pub struct CommandLine {
    /// Program to run.
    pub program: String,
    /// Arguments of the program.
    pub args: Vec<String>,
}

/// Model of a [`CommandLine`].
#[verifier::ext_equal]
pub struct CommandView {
    pub program: Seq<char>,
    pub args: Seq<Seq<char>>,
}

impl View for CommandLine {
    type V = CommandView;

    open spec fn view(&self) -> CommandView {
        CommandView { program: self.program@, args: self.args.deep_view() }
    }
}

impl DeepView for CommandLine {
    type V = CommandView;

    open spec fn deep_view(&self) -> CommandView {
        self@
    }
}

impl CommandView {
    /// The command as it is shown.
    pub open spec fn shown(self) -> Seq<char> {
        self.program + " "@ + text::joined(self.args, " "@)
    }
}

/// The command as it is shown.
pub fn command_text(program: &str, args: &[String]) -> (result: String)
    ensures
        result@ == (CommandView { program: program@, args: args.deep_view() }).shown(),
{
    program.to_owned().concat(" ").concat(text::join(args, " ").as_str())
}

// ---------------------------------------------------------------------------
// Running commands in order
// ---------------------------------------------------------------------------

/// Runs commands.
pub trait CommandRunner {
    /// Runs one command to its end; an error says that it failed.
    fn run(&self, program: &str, args: &[String]) -> Result<()>;
}

/// The runner was handed the command and ended it with `result`.
pub open spec fn ran<R: CommandRunner>(
    runner: &R,
    command: CommandView,
    result: Result<()>,
) -> bool {
    exists|program: &str, args: &[String]|
        #![trigger call_ensures(R::run, (runner, program, args), result)]
        program@ == command.program && args.deep_view() == command.args && call_ensures(
            R::run,
            (runner, program, args),
            result,
        )
}

/// Commands were run in order, each once, up to the first that failed: those
/// before the last succeeded, and the last one gave the result. Only a failure
/// keeps some from being run.
pub open spec fn ran_through(
    commands: Seq<CommandView>,
    calls: Seq<Call>,
    result: Result<()>,
) -> bool {
    &&& calls.len() <= commands.len()
    &&& forall|i: int|
        0 <= i < calls.len() ==> #[trigger] calls[i] == (Call::Run {
            command: commands[i],
            result: if i + 1 < calls.len() {
                Ok(())
            } else {
                result
            },
        })
    &&& match result {
        Ok(()) => calls.len() == commands.len(),
        Err(_) => calls.len() > 0,
    }
}

/// What was planned was carried out: the commands were run, or none where there
/// was a refusal, which is the result then.
pub open spec fn carried_out(
    planned: std::result::Result<Seq<CommandView>, ErrorView>,
    calls: Seq<Call>,
    result: Result<()>,
) -> bool {
    match planned {
        Err(error) => calls.len() == 0 && outcome(result) == Err::<(), ErrorView>(error),
        Ok(commands) => ran_through(commands, calls, result),
    }
}

/// Commands that are run one after the other, and how many of them are done.
#[derive(Debug)]
pub struct Script<'a> {
    commands: &'a [CommandLine],
    done: usize,
}

/// Model of a [`Script`].
#[verifier::ext_equal]
pub struct ScriptView {
    pub commands: Seq<CommandView>,
    pub done: nat,
}

impl<'a> View for Script<'a> {
    type V = ScriptView;

    closed spec fn view(&self) -> ScriptView {
        ScriptView { commands: self.commands.deep_view(), done: self.done as nat }
    }
}

impl ScriptView {
    /// The command whose turn it is; none once all are done.
    pub open spec fn turn(self) -> Option<CommandView> {
        if self.done < self.commands.len() {
            Some(self.commands[self.done as int])
        } else {
            None
        }
    }
}

impl<'a> Script<'a> {
    #[verifier::type_invariant]
    closed spec fn consistent(self) -> bool {
        self.done <= self.commands@.len()
    }

    /// Begins with the first of the commands.
    pub fn begin(commands: &'a [CommandLine]) -> (result: Self)
        ensures
            result@ == (ScriptView { commands: commands.deep_view(), done: 0 }),
    {
        Script { commands, done: 0 }
    }

    /// The command whose turn it is; none once all are done.
    pub fn turn(&self) -> (result: Option<&'a CommandLine>)
        ensures
            result.deep_view() == self@.turn(),
    {
        proof {
            use_type_invariant(self);
        }
        if self.done < self.commands.len() {
            assert(self@.commands[self.done as int] == self.commands@[self.done as int]@);
            Some(&self.commands[self.done])
        } else {
            None
        }
    }

    /// Goes on once the command whose turn it is has succeeded. A failure ends
    /// the script with its error.
    pub fn ended(self, result: Result<()>) -> (outcome: Result<Self>)
        requires
            self@.turn() is Some,
        ensures
            match result {
                Ok(_) => outcome is Ok && outcome->Ok_0@ == (ScriptView {
                    done: self@.done + 1,
                    ..self@
                }),
                Err(error) => outcome == Err::<Self, Error>(error),
            },
    {
        let count = self.commands.len();
        assert(self.done < count);
        match result {
            Ok(_) => Ok(Script { commands: self.commands, done: self.done + 1 }),
            Err(error) => Err(error),
        }
    }
}

/// Runs commands in order, up to the first that fails.
pub fn run_all<T: CommandRunner>(commands: &[CommandLine], calls: &mut Calls<'_, T>) -> (result:
    Result<()>)
    ensures
        final(calls).continues(old(calls)),
        ran_through(commands.deep_view(), calls_since(old(calls)@, final(calls)@), result),
        commands_gave(final(calls).party(), calls_since(old(calls)@, final(calls)@)),
{
    let ghost all = commands.deep_view();
    let ghost before = calls@;
    let ghost party = calls.party();
    let mut script = Script::begin(commands);
    loop
        invariant
            script@.commands == all,
            script@.done <= all.len(),
            all == commands.deep_view(),
            before == old(calls)@,
            party == old(calls).party(),
            calls.party() == party,
            before.is_prefix_of(calls@),
            calls@.len() == before.len() + script@.done,
            forall|i: int|
                0 <= i < script@.done ==> #[trigger] calls_since(before, calls@)[i] == (Call::Run {
                    command: all[i],
                    result: Ok(()),
                }),
            commands_gave(party, calls_since(before, calls@)),
        decreases all.len() - script@.done,
    {
        let ghost at = script@.done as int;
        let ghost earlier = calls_since(before, calls@);
        let command = match script.turn() {
            Some(command) => command,
            None => {
                return Ok(());
            },
        };
        let result = calls.run(command.program.as_str(), command.args.as_slice());
        proof {
            assert(all[at] == command@);
            assert(calls_since(before, calls@) =~= earlier.push(
                Call::Run { command: all[at], result },
            ));
            if let Ok(done) = result {
                assert(done == ());
            }
        }
        match script.ended(result) {
            Ok(next) => {
                script = next;
            },
            Err(error) => {
                return Err(error);
            },
        }
    }
}

// ---------------------------------------------------------------------------
// How processes end
// ---------------------------------------------------------------------------

/// What a process that ran to its end left behind.
#[derive(Debug)]
pub struct Finished {
    /// Whether it reported success.
    pub success: bool,
    /// Its exit code, if it ended with one.
    pub code: Option<i32>,
    /// What it printed.
    pub stdout: Vec<u8>,
    /// What it printed to its standard error.
    pub stderr: Vec<u8>,
}

/// How a process ended that was run as a whole.
#[derive(Debug)]
pub enum Ended {
    /// It could not be run.
    NotRun {
        /// Message of the failure.
        source: String,
    },
    /// It ran to its end.
    Finished(Finished),
}

/// How a process ended whose output was read while it ran.
#[derive(Debug)]
pub enum Piped {
    /// It could not be started.
    NotStarted {
        /// Message of the failure.
        source: String,
    },
    /// It had no output to read.
    NotCaptured,
    /// Reading its output failed.
    ReadFailed {
        /// Message of the failure.
        source: String,
        /// What it printed to its standard error.
        stderr: Vec<u8>,
    },
    /// Waiting for its end failed.
    WaitFailed {
        /// Message of the failure.
        source: String,
    },
    /// It ran to its end.
    Finished(Finished),
}

/// How a process ended that was fed its input.
#[derive(Debug)]
pub enum Fed {
    /// It could not be started.
    NotStarted {
        /// Message of the failure.
        source: String,
    },
    /// It had no input to write to.
    NoInput,
    /// Writing its input failed.
    WriteFailed {
        /// Message of the failure.
        source: String,
    },
    /// Waiting for its end failed.
    WaitFailed {
        /// Message of the failure.
        source: String,
    },
    /// It ran to its end.
    Finished(Finished),
}

/// The text that bytes encode, or the message with which they are refused.
pub open spec fn text_of(bytes: Seq<u8>) -> std::result::Result<Seq<char>, Seq<char>> {
    if valid_utf8(bytes) {
        Ok(decode_utf8(bytes))
    } else {
        Err(utf8_refusal(bytes))
    }
}

/// What a process printed to its standard error, without the white space around
/// it.
pub open spec fn printed_error(stderr: Seq<u8>) -> Seq<char> {
    text::trimmed(lossy_text(stderr))
}

/// What a process printed to its standard error, without the white space around
/// it.
pub fn error_text(stderr: &[u8]) -> (result: String)
    ensures
        result@ == printed_error(stderr@),
{
    text::trim(utf8_lossy(stderr).as_str())
}

/// The end of a command of a plan.
pub open spec fn executed(command: CommandView, ended: Ended) -> std::result::Result<
    (),
    ErrorView,
> {
    match ended {
        Ended::NotRun { source } => Err(
            ErrorView::PlannerCommand { command: command.shown(), source: source@ },
        ),
        Ended::Finished(finished) => if finished.success {
            Ok(())
        } else {
            Err(
                ErrorView::CommandFailed {
                    command: command.shown(),
                    stderr: printed_error(finished.stderr@),
                },
            )
        },
    }
}

/// What the end of a command of a plan means.
pub fn execution_result(program: &str, args: &[String], ended: Ended) -> (result: Result<()>)
    ensures
        outcome(result) == executed(
            (CommandView { program: program@, args: args.deep_view() }),
            ended,
        ),
{
    let command = command_text(program, args);
    match ended {
        Ended::NotRun { source } => Err(Error::PlannerCommand { command, source }),
        Ended::Finished(finished) => {
            if finished.success {
                Ok(())
            } else {
                let stderr = error_text(finished.stderr.as_slice());
                Err(Error::CommandFailed { command, stderr })
            }
        },
    }
}

/// The end of a command that activates a system.
pub open spec fn activated(command: CommandView, ended: Ended) -> std::result::Result<
    (),
    ErrorView,
> {
    match ended {
        Ended::NotRun { source } => Err(
            ErrorView::CommandSpawn { command: command.shown(), source: source@ },
        ),
        Ended::Finished(finished) => if finished.success {
            Ok(())
        } else {
            Err(
                ErrorView::CommandFailed {
                    command: command.shown(),
                    stderr: "see streamed command stderr"@,
                },
            )
        },
    }
}

/// What the end of a command that activates a system means. Its standard error
/// has been shown while it ran.
pub fn activation_result(program: &str, args: &[String], ended: Ended) -> (result: Result<()>)
    ensures
        outcome(result) == activated(
            (CommandView { program: program@, args: args.deep_view() }),
            ended,
        ),
{
    let command = command_text(program, args);
    match ended {
        Ended::NotRun { source } => Err(Error::CommandSpawn { command, source }),
        Ended::Finished(finished) => {
            if finished.success {
                Ok(())
            } else {
                let stderr = "see streamed command stderr".to_owned();
                Err(Error::CommandFailed { command, stderr })
            }
        },
    }
}

/// The answer of a `nix-store` query.
pub open spec fn store_answered(args: Seq<Seq<char>>, ended: Ended) -> std::result::Result<
    Seq<char>,
    ErrorView,
> {
    let shown = text::joined(args, " "@);
    match ended {
        Ended::NotRun { source } => Err(ErrorView::NixStoreRun { args: shown, source: source@ }),
        Ended::Finished(finished) => if !finished.success {
            Err(
                ErrorView::NixStoreFailed {
                    args: shown,
                    stderr: printed_error(finished.stderr@),
                },
            )
        } else {
            match text_of(finished.stdout@) {
                Ok(answer) => Ok(answer),
                Err(source) => Err(ErrorView::NixStoreUtf8 { args: shown, source }),
            }
        },
    }
}

/// What the end of a `nix-store` query means. `args` are the arguments before
/// the path that is asked about.
pub fn store_result(args: &[String], ended: Ended) -> (result: Result<String>)
    ensures
        outcome(result) == store_answered(args.deep_view(), ended),
{
    let shown = text::join(args, " ");
    match ended {
        Ended::NotRun { source } => Err(Error::NixStoreRun { args: shown, source }),
        Ended::Finished(finished) => {
            if !finished.success {
                let stderr = error_text(finished.stderr.as_slice());
                return Err(Error::NixStoreFailed { args: shown, stderr });
            }
            match utf8_text(finished.stdout) {
                Ok(answer) => Ok(answer),
                Err(source) => Err(Error::NixStoreUtf8 { args: shown, source }),
            }
        },
    }
}

/// The answer of a command that the planner runs.
pub open spec fn planner_answered(command: Seq<char>, ended: Piped) -> std::result::Result<
    Seq<char>,
    ErrorView,
> {
    match ended {
        Piped::NotStarted { source } => Err(
            ErrorView::PlannerCommand { command, source: source@ },
        ),
        Piped::NotCaptured => Err(
            ErrorView::PlannerCommandFailed {
                command,
                stderr: "planner stdout was not captured"@,
            },
        ),
        Piped::ReadFailed { source, stderr } => Err(
            ErrorView::PlannerCommandFailed {
                command,
                stderr: "failed to read planner output: "@ + source@,
            },
        ),
        Piped::WaitFailed { source } => Err(
            ErrorView::PlannerCommand { command, source: source@ },
        ),
        Piped::Finished(finished) => if !finished.success {
            Err(
                ErrorView::PlannerCommandFailed { command, stderr: "planner command failed"@ },
            )
        } else {
            match text_of(finished.stdout@) {
                Ok(answer) => Ok(answer),
                Err(source) => Err(ErrorView::PlannerUtf8 { command, source }),
            }
        },
    }
}

/// What the end of a command that the planner runs means. `command` is the
/// command as it is shown.
pub fn planner_result(command: &str, ended: Piped) -> (result: Result<String>)
    ensures
        outcome(result) == planner_answered(command@, ended),
{
    let command = command.to_owned();
    match ended {
        Piped::NotStarted { source } => Err(Error::PlannerCommand { command, source }),
        Piped::NotCaptured => {
            let stderr = "planner stdout was not captured".to_owned();
            Err(Error::PlannerCommandFailed { command, stderr })
        },
        Piped::ReadFailed { source, .. } => {
            let stderr = "failed to read planner output: ".to_owned().concat(source.as_str());
            Err(Error::PlannerCommandFailed { command, stderr })
        },
        Piped::WaitFailed { source } => Err(Error::PlannerCommand { command, source }),
        Piped::Finished(finished) => {
            if !finished.success {
                let stderr = "planner command failed".to_owned();
                return Err(Error::PlannerCommandFailed { command, stderr });
            }
            match utf8_text(finished.stdout) {
                Ok(answer) => Ok(answer),
                Err(source) => Err(Error::PlannerUtf8 { command, source }),
            }
        },
    }
}

/// The answer of a shell command that was fed store paths.
pub open spec fn shell_answered(command: Seq<char>, ended: Fed) -> std::result::Result<
    Seq<char>,
    ErrorView,
> {
    match ended {
        Fed::NotStarted { source } => Err(ErrorView::CommandSpawn { command, source: source@ }),
        Fed::NoInput => Err(ErrorView::CommandStdinUnavailable { command }),
        Fed::WriteFailed { source } => Err(
            ErrorView::CommandWriteStdin { command, source: source@ },
        ),
        Fed::WaitFailed { source } => Err(ErrorView::CommandWait { command, source: source@ }),
        Fed::Finished(finished) => if !finished.success {
            Err(
                ErrorView::CommandFailed { command, stderr: printed_error(finished.stderr@) },
            )
        } else {
            match text_of(finished.stdout@) {
                Ok(answer) => Ok(answer),
                Err(source) => Err(ErrorView::CommandUtf8 { command, source }),
            }
        },
    }
}

/// What the end of a shell command that was fed store paths means.
pub fn shell_result(command: &str, ended: Fed) -> (result: Result<String>)
    ensures
        outcome(result) == shell_answered(command@, ended),
{
    let command = command.to_owned();
    match ended {
        Fed::NotStarted { source } => Err(Error::CommandSpawn { command, source }),
        Fed::NoInput => Err(Error::CommandStdinUnavailable { command }),
        Fed::WriteFailed { source } => Err(Error::CommandWriteStdin { command, source }),
        Fed::WaitFailed { source } => Err(Error::CommandWait { command, source }),
        Fed::Finished(finished) => {
            if !finished.success {
                let stderr = error_text(finished.stderr.as_slice());
                return Err(Error::CommandFailed { command, stderr });
            }
            match utf8_text(finished.stdout) {
                Ok(answer) => Ok(answer),
                Err(source) => Err(Error::CommandUtf8 { command, source }),
            }
        },
    }
}

/// One line for each of the paths.
pub open spec fn path_lines(paths: Seq<Seq<char>>) -> Seq<char>
    decreases paths.len(),
{
    if paths.len() == 0 {
        Seq::empty()
    } else {
        path_lines(paths.drop_last()) + paths.last() + "\n"@
    }
}

/// The input of a shell command that is fed store paths: one line for each.
pub fn path_input(paths: &[String]) -> (result: String)
    ensures
        result@ == path_lines(paths.deep_view()),
{
    let ghost all = paths.deep_view();
    let mut input = String::new();
    assert(all.take(0) =~= Seq::empty());
    for i in 0..paths.len()
        invariant
            all == paths.deep_view(),
            input@ == path_lines(all.take(i as int)),
    {
        assert(all.take(i + 1).drop_last() =~= all.take(i as int));
        assert(all.take(i + 1).last() == paths@[i as int]@);
        input = input.concat(paths[i].as_str()).concat("\n");
    }
    assert(all.take(paths.len() as int) =~= all);
    input
}

// ---------------------------------------------------------------------------
// Laws
// ---------------------------------------------------------------------------

/// A command is shown with all its arguments, separated by single blanks.
pub proof fn law_commands_are_shown_whole(command: CommandView, arg: Seq<char>)
    ensures
        (CommandView { args: Seq::empty(), ..command }).shown() == command.program.push(' '),
        (CommandView { args: seq![arg], ..command }).shown() == command.program.push(' ') + arg,
        command.args.len() > 0 ==> (CommandView {
            args: command.args.push(arg),
            ..command
        }).shown() == command.shown().push(' ') + arg,
{
    reveal_strlit(" ");
    assert(" "@ =~= seq![' ']);
    assert(command.program + " "@ + Seq::<char>::empty() =~= command.program.push(' '));
    assert(command.program + " "@ + arg =~= command.program.push(' ') + arg);
    if command.args.len() > 0 {
        text::lemma_joined_push(command.args, arg, " "@);
        let shown = text::joined(command.args, " "@);
        assert(command.program + " "@ + (shown + " "@ + arg) =~= (command.program + " "@
            + shown).push(' ') + arg);
    }
}

/// A command that is run succeeds if and only if it could be run and said that
/// it succeeded. Otherwise the error names the command and says why.
pub proof fn law_commands_succeed_by_their_own_word(command: CommandView, ended: Ended)
    ensures
        executed(command, ended) is Ok <==> (ended matches Ended::Finished(finished)
            && finished.success),
        activated(command, ended) is Ok <==> (ended matches Ended::Finished(finished)
            && finished.success),
        ended matches Ended::NotRun { source } ==> executed(command, ended) == Err::<
            (),
            ErrorView,
        >(ErrorView::PlannerCommand { command: command.shown(), source: source@ }) && activated(
            command,
            ended,
        ) == Err::<(), ErrorView>(
            ErrorView::CommandSpawn { command: command.shown(), source: source@ },
        ),
        ended matches Ended::Finished(finished) ==> (!finished.success ==> executed(command, ended)
            == Err::<(), ErrorView>(
            ErrorView::CommandFailed {
                command: command.shown(),
                stderr: printed_error(finished.stderr@),
            },
        ) && activated(command, ended) == Err::<(), ErrorView>(
            ErrorView::CommandFailed {
                command: command.shown(),
                stderr: "see streamed command stderr"@,
            },
        )),
{
}

/// What a command printed is its answer if and only if it succeeded and printed
/// text; then it is exactly what was printed.
pub proof fn law_answers_are_what_was_printed(
    args: Seq<Seq<char>>,
    command: Seq<char>,
    finished: Finished,
)
    ensures
        store_answered(args, Ended::Finished(finished)) is Ok <==> finished.success && text_of(
            finished.stdout@,
        ) is Ok,
        planner_answered(command, Piped::Finished(finished)) is Ok <==> finished.success && text_of(
            finished.stdout@,
        ) is Ok,
        shell_answered(command, Fed::Finished(finished)) is Ok <==> finished.success && text_of(
            finished.stdout@,
        ) is Ok,
        finished.success ==> match text_of(finished.stdout@) {
            Ok(printed) => store_answered(args, Ended::Finished(finished)) == Ok::<
                Seq<char>,
                ErrorView,
            >(printed) && planner_answered(command, Piped::Finished(finished)) == Ok::<
                Seq<char>,
                ErrorView,
            >(printed) && shell_answered(command, Fed::Finished(finished)) == Ok::<
                Seq<char>,
                ErrorView,
            >(printed),
            Err(source) => store_answered(args, Ended::Finished(finished)) == Err::<
                Seq<char>,
                ErrorView,
            >(ErrorView::NixStoreUtf8 { args: text::joined(args, seq![' ']), source })
                && planner_answered(command, Piped::Finished(finished)) == Err::<
                Seq<char>,
                ErrorView,
            >(ErrorView::PlannerUtf8 { command, source }) && shell_answered(
                command,
                Fed::Finished(finished),
            ) == Err::<Seq<char>, ErrorView>(ErrorView::CommandUtf8 { command, source }),
        },
        !finished.success ==> store_answered(args, Ended::Finished(finished)) == Err::<
            Seq<char>,
            ErrorView,
        >(
            ErrorView::NixStoreFailed {
                args: text::joined(args, seq![' ']),
                stderr: printed_error(finished.stderr@),
            },
        ) && planner_answered(command, Piped::Finished(finished)) == Err::<Seq<char>, ErrorView>(
            ErrorView::PlannerCommandFailed { command, stderr: "planner command failed"@ },
        ) && shell_answered(command, Fed::Finished(finished)) == Err::<Seq<char>, ErrorView>(
            ErrorView::CommandFailed { command, stderr: printed_error(finished.stderr@) },
        ),
        valid_utf8(finished.stdout@) ==> text_of(finished.stdout@) == Ok::<Seq<char>, Seq<char>>(
            decode_utf8(finished.stdout@),
        ),
        !valid_utf8(finished.stdout@) ==> text_of(finished.stdout@) is Err,
{
    reveal_strlit(" ");
    assert(" "@ =~= seq![' ']);
}

/// A command that did not come to its end gives no answer, and the error says
/// where it stopped.
pub proof fn law_unfinished_commands_give_no_answer(
    args: Seq<Seq<char>>,
    command: Seq<char>,
    source: String,
    stderr: Vec<u8>,
)
    ensures
        store_answered(args, Ended::NotRun { source }) == Err::<Seq<char>, ErrorView>(
            ErrorView::NixStoreRun { args: text::joined(args, seq![' ']), source: source@ },
        ),
        planner_answered(command, Piped::NotStarted { source }) == Err::<Seq<char>, ErrorView>(
            ErrorView::PlannerCommand { command, source: source@ },
        ),
        planner_answered(command, Piped::WaitFailed { source }) == Err::<Seq<char>, ErrorView>(
            ErrorView::PlannerCommand { command, source: source@ },
        ),
        planner_answered(command, Piped::NotCaptured) == Err::<Seq<char>, ErrorView>(
            ErrorView::PlannerCommandFailed {
                command,
                stderr: "planner stdout was not captured"@,
            },
        ),
        planner_answered(command, Piped::ReadFailed { source, stderr }) == Err::<
            Seq<char>,
            ErrorView,
        >(
            ErrorView::PlannerCommandFailed {
                command,
                stderr: "failed to read planner output: "@ + source@,
            },
        ),
        shell_answered(command, Fed::NotStarted { source }) == Err::<Seq<char>, ErrorView>(
            ErrorView::CommandSpawn { command, source: source@ },
        ),
        shell_answered(command, Fed::NoInput) == Err::<Seq<char>, ErrorView>(
            ErrorView::CommandStdinUnavailable { command },
        ),
        shell_answered(command, Fed::WriteFailed { source }) == Err::<Seq<char>, ErrorView>(
            ErrorView::CommandWriteStdin { command, source: source@ },
        ),
        shell_answered(command, Fed::WaitFailed { source }) == Err::<Seq<char>, ErrorView>(
            ErrorView::CommandWait { command, source: source@ },
        ),
{
    reveal_strlit(" ");
    assert(" "@ =~= seq![' ']);
}

/// A command is fed its paths one by one, each on a line of its own.
pub proof fn law_each_path_is_a_line(paths: Seq<Seq<char>>, path: Seq<char>)
    ensures
        path_lines(Seq::empty()) == Seq::<char>::empty(),
        path_lines(paths.push(path)) == (path_lines(paths) + path).push('\n'),
{
    reveal_strlit("\n");
    assert(paths.push(path).drop_last() =~= paths);
    assert(path_lines(paths) + path + "\n"@ =~= (path_lines(paths) + path).push('\n'));
}

/// What a failed command printed is shown without the white space around it.
pub proof fn law_printed_errors_are_trimmed(stderr: Seq<u8>)
    ensures
        printed_error(stderr) == text::trimmed(lossy_text(stderr)),
{
}

/// Commands succeed together if and only if each of them was run, once and in
/// order, and succeeded. Otherwise the last that was run failed, its error is
/// the result, and those after it were not run.
pub proof fn law_all_commands_are_run(
    commands: Seq<CommandView>,
    calls: Seq<Call>,
    result: Result<()>,
    i: int,
)
    requires
        ran_through(commands, calls, result),
    ensures
        result is Ok ==> calls.len() == commands.len(),
        result is Err ==> 0 < calls.len() <= commands.len() && (calls.last() matches Call::Run {
            result: last,
            ..
        } && last == result),
        0 <= i < calls.len() ==> (calls[i] matches Call::Run { command, result: ended } && command
            == commands[i] && (i < calls.len() - 1 || result is Ok ==> ended is Ok)),
{
    if calls.len() > 0 {
        assert(calls.last() == calls[calls.len() - 1]);
    }
}

/// What is refused is not carried out at all; what is not refused is run.
pub proof fn law_refused_commands_are_not_run(
    planned: std::result::Result<Seq<CommandView>, ErrorView>,
    calls: Seq<Call>,
    result: Result<()>,
)
    requires
        carried_out(planned, calls, result),
    ensures
        planned matches Err(error) ==> calls.len() == 0 && outcome(result) == Err::<(), ErrorView>(
            error,
        ),
        planned matches Ok(commands) ==> ran_through(commands, calls, result),
{
}

/// A runner that could not have ended the command so was not handed it with that
/// end.
pub proof fn law_runners_are_handed_the_command<R: CommandRunner>(
    runner: &R,
    command: CommandView,
    result: Result<()>,
)
    requires
        forall|program: &str, args: &[String]|
            program@ == command.program && args.deep_view() == command.args ==> !#[trigger] call_ensures(
                R::run,
                (runner, program, args),
                result,
            ),
    ensures
        !ran(runner, command, result),
{
}

} // verus!
