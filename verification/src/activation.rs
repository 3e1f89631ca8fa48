//! Activation of a prepared toplevel, on this host or on a remote one.

use vstd::prelude::*;

use crate::calls::{calls_since, commands_gave, Calls};
use crate::command::{carried_out, run_all, CommandLine, CommandRunner, CommandView};
use crate::error::{outcome, Error, ErrorView, Result};
use crate::request::{PreparedSwitch, SwitchPlan, SwitchView};
use crate::text;

verus! {

// ---------------------------------------------------------------------------
// Shell words
// ---------------------------------------------------------------------------

/// What stands for one character inside a quoted shell word.
pub open spec fn quoted_char(c: char) -> Seq<char> {
    if c == '\'' {
        "'\"'\"'"@
    } else {
        seq![c]
    }
}

/// What stands for a text inside a quoted shell word.
pub open spec fn quoted_chars(value: Seq<char>) -> Seq<char>
    decreases value.len(),
{
    if value.len() == 0 {
        Seq::empty()
    } else {
        quoted_char(value[0]) + quoted_chars(value.drop_first())
    }
}

/// A text as one shell word.
pub open spec fn quoted(value: Seq<char>) -> Seq<char> {
    "'"@ + quoted_chars(value) + "'"@
}

/// Where a shell stands in a word.
pub enum Quoting {
    Unquoted,
    Single,
    Double,
}

/// What a POSIX shell reads from a word that is quoted as a whole; none where
/// the word is not ended, or where a character would have a special meaning.
pub open spec fn shell_reads(word: Seq<char>, quoting: Quoting) -> Option<Seq<char>>
    decreases word.len(),
{
    if word.len() == 0 {
        if quoting is Unquoted {
            Some(Seq::empty())
        } else {
            None
        }
    } else {
        let c = word[0];
        let rest = word.drop_first();
        match quoting {
            Quoting::Unquoted => if c == '\'' {
                shell_reads(rest, Quoting::Single)
            } else if c == '"' {
                shell_reads(rest, Quoting::Double)
            } else {
                None
            },
            Quoting::Single => if c == '\'' {
                shell_reads(rest, Quoting::Unquoted)
            } else {
                match shell_reads(rest, Quoting::Single) {
                    Some(read) => Some(seq![c] + read),
                    None => None,
                }
            },
            Quoting::Double => if c == '"' {
                shell_reads(rest, Quoting::Unquoted)
            } else if c == '$' || c == '`' || c == '\\' || c == '!' {
                None
            } else {
                match shell_reads(rest, Quoting::Double) {
                    Some(read) => Some(seq![c] + read),
                    None => None,
                }
            },
        }
    }
}

proof fn lemma_quoted_chars_read(value: Seq<char>)
    ensures
        shell_reads(quoted_chars(value) + seq!['\''], Quoting::Single) == Some(value),
    decreases value.len(),
{
    let word = quoted_chars(value) + seq!['\''];
    if value.len() == 0 {
        assert(word =~= seq!['\'']);
        assert(word.drop_first() =~= Seq::empty());
        assert(shell_reads(Seq::empty(), Quoting::Unquoted) == Some(Seq::<char>::empty()));
        assert(value =~= Seq::empty());
    } else {
        let rest = value.drop_first();
        let tail = quoted_chars(rest) + seq!['\''];
        lemma_quoted_chars_read(rest);
        assert(seq![value[0]] + rest =~= value);
        if value[0] == '\'' {
            reveal_strlit("'\"'\"'");
            let quote = "'\"'\"'"@;
            assert(quote =~= seq!['\'', '"', '\'', '"', '\'']);
            assert(word =~= quote + tail);
            let first = word.drop_first();
            assert(first[0] == '"');
            let second = first.drop_first();
            assert(second[0] == '\'');
            let third = second.drop_first();
            assert(third[0] == '"');
            let fourth = third.drop_first();
            assert(fourth[0] == '\'');
            assert(fourth.drop_first() =~= tail);
            assert(shell_reads(fourth, Quoting::Unquoted) == Some(rest));
            assert(shell_reads(third, Quoting::Double) == Some(rest));
            assert(shell_reads(second, Quoting::Double) == Some(seq!['\''] + rest));
            assert(shell_reads(first, Quoting::Unquoted) == Some(seq!['\''] + rest));
        } else {
            assert(word =~= seq![value[0]] + tail);
            assert(word.drop_first() =~= tail);
        }
    }
}

/// A shell reads a quoted text as one word that is exactly the text.
pub proof fn law_quoted_text_reads_back(value: Seq<char>)
    ensures
        shell_reads(quoted(value), Quoting::Unquoted) == Some(value),
{
    reveal_strlit("'");
    assert("'"@ =~= seq!['\'']);
    lemma_quoted_chars_read(value);
    assert(quoted(value).drop_first() =~= quoted_chars(value) + seq!['\'']);
}

/// A text as one shell word.
pub fn shell_quote(value: &str) -> (result: String)
    ensures
        result@ == quoted(value@),
{
    let chars = text::chars_of(value);
    let mut word = "'".to_owned();
    assert(value@.skip(0) =~= value@);
    for i in 0..chars.len()
        invariant
            chars@ == value@,
            "'"@ + quoted_chars(value@) == word@ + quoted_chars(value@.skip(i as int)),
    {
        let c = chars[i];
        let ghost before = word@;
        let ghost rest = value@.skip(i as int);
        assert(rest[0] == c);
        assert(rest.drop_first() =~= value@.skip(i + 1));
        if c == '\'' {
            word = word.concat("'\"'\"'");
        } else {
            word.push(c);
            assert(word@ =~= before + seq![c]);
        }
        assert(before + (quoted_char(c) + quoted_chars(rest.drop_first())) =~= word@ + quoted_chars(
            rest.drop_first(),
        ));
    }
    assert(quoted_chars(value@.skip(chars.len() as int)) =~= Seq::empty());
    assert(word@ + Seq::empty() =~= word@);
    word.concat("'")
}

// ---------------------------------------------------------------------------
// Commands
// ---------------------------------------------------------------------------

/// The actions that activate a system.
pub open spec fn activates(action: Seq<char>) -> bool {
    action == "switch"@ || action == "boot"@ || action == "test"@
}

/// The actions that make the system the one that boots.
pub open spec fn persists(action: Seq<char>) -> bool {
    action == "switch"@ || action == "boot"@
}

/// The store of a remote host.
pub open spec fn store_url(target: Seq<char>) -> Seq<char> {
    if text::occurs(target, "://"@) {
        target
    } else {
        "ssh-ng://"@ + target
    }
}

/// The program in a toplevel that switches to it.
pub open spec fn switch_program(toplevel: Seq<char>) -> Seq<char> {
    toplevel + "/bin/switch-to-configuration"@
}

/// The part of the remote script that sets the system profile and makes sure
/// that it advanced.
pub open spec fn persist_script(toplevel: Seq<char>) -> Seq<char> {
    "/run/current-system/sw/bin/nix-env -p /nix/var/nix/profiles/system --set "@ + quoted(toplevel)
        + "; actual=$(readlink -f /nix/var/nix/profiles/system); [ \"$actual\" = "@ + quoted(
        toplevel,
    )
        + " ] || { printf '%s\\n' 'system profile did not advance to candidate' >&2; exit 1; }; "@
}

/// The script that activates a toplevel on a remote host.
pub open spec fn activation_script(action: Seq<char>, toplevel: Seq<char>) -> Seq<char> {
    "set -eu; "@ + (if persists(action) {
        persist_script(toplevel)
    } else {
        Seq::empty()
    }) + "exec "@ + quoted(switch_program(toplevel)) + " "@ + quoted(action)
}

/// The command that copies a toplevel to a remote host.
pub open spec fn copy_command(
    target: Seq<char>,
    toplevel: Seq<char>,
    use_substitutes: bool,
) -> CommandView {
    CommandView {
        program: "nix"@,
        args: seq!["copy"@, "--to"@, store_url(target), toplevel, "--no-check-sigs"@] + if use_substitutes {
            seq!["--substitute-on-destination"@]
        } else {
            Seq::empty()
        },
    }
}

/// The command that activates a toplevel on a remote host. A lock keeps two
/// activations apart.
pub open spec fn remote_command(
    target: Seq<char>,
    action: Seq<char>,
    toplevel: Seq<char>,
    remote_sudo: bool,
) -> CommandView {
    let elevation = if remote_sudo {
        "sudo "@
    } else {
        ""@
    };
    CommandView {
        program: "ssh"@,
        args: seq![
            "--"@,
            target,
            elevation + "flock -n /tmp/crossbow-switch.lock sh -c "@ + quoted(
                activation_script(action, toplevel),
            ),
        ],
    }
}

/// A command, run under sudo where that is asked for.
pub open spec fn elevated(sudo: bool, command: CommandView) -> CommandView {
    if sudo {
        CommandView { program: "sudo"@, args: seq![command.program] + command.args }
    } else {
        command
    }
}

/// The command that sets the system profile of this host.
pub open spec fn profile_command(toplevel: Seq<char>) -> CommandView {
    CommandView {
        program: "nix-env"@,
        args: seq!["-p"@, "/nix/var/nix/profiles/system"@, "--set"@, toplevel],
    }
}

/// The command that switches this host to a toplevel.
pub open spec fn switch_command(action: Seq<char>, toplevel: Seq<char>) -> CommandView {
    CommandView { program: switch_program(toplevel), args: seq![action] }
}

/// The commands that activate a toplevel, in order.
pub open spec fn activation(plan: SwitchView, toplevel: Seq<char>) -> std::result::Result<
    Seq<CommandView>,
    ErrorView,
> {
    if !activates(plan.action) {
        Err(ErrorView::UnsupportedAction { action: plan.action })
    } else {
        match plan.target_ssh {
            Some(target) => Ok(
                seq![
                    copy_command(target, toplevel, plan.use_substitutes),
                    remote_command(target, plan.action, toplevel, plan.remote_sudo),
                ],
            ),
            None => if persists(plan.action) {
                Ok(
                    seq![
                        elevated(plan.sudo, profile_command(toplevel)),
                        elevated(plan.sudo, switch_command(plan.action, toplevel)),
                    ],
                )
            } else {
                Ok(seq![elevated(plan.sudo, switch_command(plan.action, toplevel))])
            },
        }
    }
}

/// The store of a remote host.
pub fn remote_store_url(target: &str) -> (result: String)
    ensures
        result@ == store_url(target@),
{
    if text::contains(target, "://") {
        target.to_owned()
    } else {
        "ssh-ng://".to_owned().concat(target)
    }
}

fn switch_program_of(toplevel: &str) -> (result: String)
    ensures
        result@ == switch_program(toplevel@),
{
    toplevel.to_owned().concat("/bin/switch-to-configuration")
}

fn action_persists(action: &str) -> (result: bool)
    ensures
        result == persists(action@),
{
    text::same(action, "switch") || text::same(action, "boot")
}

/// The script that activates a toplevel on a remote host.
pub fn remote_activation_script(action: &str, toplevel: &str) -> (result: String)
    ensures
        result@ == activation_script(action@, toplevel@),
{
    let candidate = shell_quote(toplevel);
    let switch = shell_quote(switch_program_of(toplevel).as_str());
    let persist = if action_persists(action) {
        "/run/current-system/sw/bin/nix-env -p /nix/var/nix/profiles/system --set ".to_owned().concat(
            candidate.as_str(),
        ).concat(
            "; actual=$(readlink -f /nix/var/nix/profiles/system); [ \"$actual\" = ",
        ).concat(candidate.as_str()).concat(
            " ] || { printf '%s\\n' 'system profile did not advance to candidate' >&2; exit 1; }; ",
        )
    } else {
        String::new()
    };
    "set -eu; ".to_owned().concat(persist.as_str()).concat("exec ").concat(switch.as_str()).concat(
        " ",
    ).concat(shell_quote(action).as_str())
}

/// A command, run under sudo where that is asked for.
fn run_elevated(sudo: bool, program: String, args: Vec<String>) -> (result: CommandLine)
    ensures
        result@ == elevated(
            sudo,
            (CommandView { program: program@, args: args.deep_view() }),
        ),
{
    if !sudo {
        return CommandLine { program, args };
    }
    let ghost command = CommandView { program: program@, args: args.deep_view() };
    let mut all: Vec<String> = vec![program];
    assert(all.deep_view() =~= seq![command.program]);
    text::extend(&mut all, args);
    CommandLine { program: "sudo".to_owned(), args: all }
}

fn remote_commands(plan: &SwitchPlan<'_>, target: &str, toplevel: &str) -> (result: Vec<
    CommandLine,
>)
    ensures
        result.deep_view() == seq![
            copy_command(target@, toplevel@, plan@.use_substitutes),
            remote_command(target@, plan@.action, toplevel@, plan@.remote_sudo),
        ],
{
    let mut copy: Vec<String> = vec![
        "copy".to_owned(),
        "--to".to_owned(),
        remote_store_url(target),
        toplevel.to_owned(),
        "--no-check-sigs".to_owned(),
    ];
    if plan.use_substitutes {
        copy.push("--substitute-on-destination".to_owned());
    }
    assert(copy.deep_view() =~= copy_command(target@, toplevel@, plan@.use_substitutes).args);
    let script = remote_activation_script(plan.action, toplevel);
    let elevation = if plan.remote_sudo {
        "sudo "
    } else {
        ""
    };
    let remote = elevation.to_owned().concat(
        "flock -n /tmp/crossbow-switch.lock sh -c ",
    ).concat(shell_quote(script.as_str()).as_str());
    let ssh: Vec<String> = vec!["--".to_owned(), target.to_owned(), remote];
    assert(ssh.deep_view() =~= remote_command(
        target@,
        plan@.action,
        toplevel@,
        plan@.remote_sudo,
    ).args);
    let commands = vec![
        CommandLine { program: "nix".to_owned(), args: copy },
        CommandLine { program: "ssh".to_owned(), args: ssh },
    ];
    assert(commands.deep_view() =~= seq![
        copy_command(target@, toplevel@, plan@.use_substitutes),
        remote_command(target@, plan@.action, toplevel@, plan@.remote_sudo),
    ]);
    commands
}

/// The commands that activate a prepared toplevel, in order.
///
/// Only `switch`, `boot` and `test` activate a system.
pub fn activation_commands(plan: &SwitchPlan<'_>, prepared: &PreparedSwitch) -> (result: Result<
    Vec<CommandLine>,
>)
    ensures
        outcome(result) == activation(plan@, prepared@.toplevel),
{
    let persist = action_persists(plan.action);
    if !persist && !text::same(plan.action, "test") {
        return Err(Error::UnsupportedAction { action: plan.action.to_owned() });
    }
    let toplevel = prepared.toplevel.as_str();
    if let Some(target) = plan.target_ssh {
        return Ok(remote_commands(plan, target, toplevel));
    }
    let args: Vec<String> = vec![plan.action.to_owned()];
    assert(args.deep_view() =~= seq![plan.action@]);
    let switch = run_elevated(plan.sudo, switch_program_of(toplevel), args);
    if persist {
        let args: Vec<String> = vec![
            "-p".to_owned(),
            "/nix/var/nix/profiles/system".to_owned(),
            "--set".to_owned(),
            toplevel.to_owned(),
        ];
        assert(args.deep_view() =~= profile_command(toplevel@).args);
        let profile = run_elevated(plan.sudo, "nix-env".to_owned(), args);
        let ghost views = seq![profile@, switch@];
        let commands = vec![profile, switch];
        assert(commands.deep_view() =~= views);
        Ok(commands)
    } else {
        let ghost views = seq![switch@];
        let commands = vec![switch];
        assert(commands.deep_view() =~= views);
        Ok(commands)
    }
}

/// Activates a prepared toplevel: the exact one, without reevaluating it.
pub fn activate_prepared_with_runner<T: CommandRunner>(
    plan: &SwitchPlan<'_>,
    prepared: &PreparedSwitch,
    calls: &mut Calls<'_, T>,
) -> (result: Result<()>)
    ensures
        final(calls).continues(old(calls)),
        carried_out(
            activation(plan@, prepared@.toplevel),
            calls_since(old(calls)@, final(calls)@),
            result,
        ),
        commands_gave(final(calls).party(), calls_since(old(calls)@, final(calls)@)),
{
    match activation_commands(plan, prepared) {
        Ok(commands) => run_all(commands.as_slice(), calls),
        Err(error) => Err(error),
    }
}

// ---------------------------------------------------------------------------
// Laws
// ---------------------------------------------------------------------------

/// A toplevel that is only tested does not become the system that boots: on
/// this host its activation is the switch alone, and the remote script does
/// nothing before it.
pub proof fn law_test_does_not_persist(plan: SwitchView, toplevel: Seq<char>)
    requires
        plan.action == "test"@,
    ensures
        plan.target_ssh is None ==> activation(plan, toplevel) == Ok::<
            Seq<CommandView>,
            ErrorView,
        >(seq![elevated(plan.sudo, switch_command("test"@, toplevel))]),
        activation_script(plan.action, toplevel) == "set -eu; "@ + "exec "@ + quoted(
            switch_program(toplevel),
        ) + " "@ + quoted("test"@),
{
    reveal_strlit("test");
    reveal_strlit("switch");
    reveal_strlit("boot");
    assert("test"@.len() == 4);
    assert("switch"@.len() == 6);
    assert("boot"@.len() == 4);
    assert("test"@[0] == 't');
    assert("boot"@[0] == 'b');
    assert("set -eu; "@ + Seq::<char>::empty() =~= "set -eu; "@);
}

/// On a remote host the toplevel is copied before anything is activated, and
/// nothing is run on this host but the copy and the connection.
pub proof fn law_remote_copies_first(plan: SwitchView, toplevel: Seq<char>, target: Seq<char>)
    requires
        activates(plan.action),
        plan.target_ssh == Some(target),
    ensures
        activation(plan, toplevel) matches Ok(commands) && commands.len() == 2
            && commands[0].program == "nix"@ && commands[0].args[0] == "copy"@
            && commands[0].args[3] == toplevel && commands[1].program == "ssh"@
            && commands[1].args[1] == target,
{
}

/// The `build` action activates nothing.
pub proof fn law_build_is_not_activated(plan: SwitchView, toplevel: Seq<char>)
    requires
        plan.action == "build"@,
    ensures
        activation(plan, toplevel) == Err::<Seq<CommandView>, ErrorView>(
            ErrorView::UnsupportedAction { action: "build"@ },
        ),
{
    reveal_strlit("build");
    reveal_strlit("test");
    reveal_strlit("switch");
    reveal_strlit("boot");
    assert("build"@.len() == 5);
    assert("test"@.len() == 4);
    assert("switch"@.len() == 6);
    assert("boot"@.len() == 4);
}

/// On this host a switch and a boot first make the toplevel the system profile
/// and then run its switch program with the action; a test runs the program
/// alone. All of it is run under sudo exactly where that is asked for.
pub proof fn law_switch_and_boot_set_the_system_profile(plan: SwitchView, toplevel: Seq<char>)
    requires
        plan.target_ssh is None,
    ensures
        ({
            let profile = seq![
                "nix-env"@,
                "-p"@,
                "/nix/var/nix/profiles/system"@,
                "--set"@,
                toplevel,
            ];
            let switch = seq![toplevel + "/bin/switch-to-configuration"@, plan.action];
            &&& plan.action == "switch"@ || plan.action == "boot"@ ==> {
                &&& activation(plan, toplevel) matches Ok(commands)
                &&& commands.len() == 2
                &&& runs(commands[0], plan.sudo, profile)
                &&& runs(commands[1], plan.sudo, switch)
            }
            &&& plan.action == "test"@ ==> {
                &&& activation(plan, toplevel) matches Ok(commands)
                &&& commands.len() == 1
                &&& runs(commands[0], plan.sudo, switch)
            }
        }),
{
    lemma_actions_differ();
    let profile = seq!["nix-env"@, "-p"@, "/nix/var/nix/profiles/system"@, "--set"@, toplevel];
    let switch = seq![toplevel + "/bin/switch-to-configuration"@, plan.action];
    assert(profile.skip(1) =~= profile_command(toplevel).args);
    assert(switch.skip(1) =~= switch_command(plan.action, toplevel).args);
    assert(seq![profile[0]] + profile_command(toplevel).args =~= profile);
    assert(seq![switch[0]] + switch_command(plan.action, toplevel).args =~= switch);
}

/// The command runs the words, under sudo or not.
pub open spec fn runs(command: CommandView, sudo: bool, words: Seq<Seq<char>>) -> bool {
    if sudo {
        command.program == "sudo"@ && command.args == words
    } else {
        command.program == words[0] && command.args == words.skip(1)
    }
}

proof fn lemma_actions_differ()
    ensures
        "switch"@ != "boot"@,
        "switch"@ != "test"@,
        "boot"@ != "test"@,
{
    reveal_strlit("test");
    reveal_strlit("switch");
    reveal_strlit("boot");
    assert("test"@.len() == 4);
    assert("switch"@.len() == 6);
    assert("boot"@.len() == 4);
    assert("test"@[0] == 't');
    assert("boot"@[0] == 'b');
}

/// Any other action activates nothing, here or elsewhere.
pub proof fn law_other_actions_are_refused(plan: SwitchView, toplevel: Seq<char>)
    requires
        plan.action != "switch"@,
        plan.action != "boot"@,
        plan.action != "test"@,
    ensures
        activation(plan, toplevel) == Err::<Seq<CommandView>, ErrorView>(
            ErrorView::UnsupportedAction { action: plan.action },
        ),
{
}

/// For a remote host the toplevel is copied to its store, without signatures,
/// with substitutes exactly where they are asked for. Then a shell is started
/// there with a script as one word, under a lock, and under sudo exactly where
/// that is asked for.
pub proof fn law_remote_hosts_get_a_copy_and_a_script(
    plan: SwitchView,
    toplevel: Seq<char>,
    target: Seq<char>,
)
    requires
        plan.action == "switch"@ || plan.action == "boot"@ || plan.action == "test"@,
        plan.target_ssh == Some(target),
    ensures
        ({
            let store = if text::occurs(target, "://"@) {
                target
            } else {
                "ssh-ng://"@ + target
            };
            let copy = seq!["copy"@, "--to"@, store, toplevel, "--no-check-sigs"@];
            let lock = "flock -n /tmp/crossbow-switch.lock sh -c "@;
            let before = if plan.remote_sudo {
                "sudo "@ + lock
            } else {
                lock
            };
            &&& activation(plan, toplevel) matches Ok(commands)
            &&& commands.len() == 2
            &&& commands[0].program == "nix"@
            &&& commands[0].args == if plan.use_substitutes {
                copy.push("--substitute-on-destination"@)
            } else {
                copy
            }
            &&& commands[1].program == "ssh"@
            &&& commands[1].args.len() == 3
            &&& commands[1].args[0] == "--"@
            &&& commands[1].args[1] == target
            &&& before.is_prefix_of(commands[1].args[2])
            &&& shell_reads(
                commands[1].args[2].skip(before.len() as int),
                Quoting::Unquoted,
            ) == Some(activation_script(plan.action, toplevel))
        }),
{
    lemma_actions_differ();
    let script = activation_script(plan.action, toplevel);
    law_quoted_text_reads_back(script);
    let lock = "flock -n /tmp/crossbow-switch.lock sh -c "@;
    let before = if plan.remote_sudo {
        "sudo "@ + lock
    } else {
        lock
    };
    reveal_strlit("");
    assert(""@ + lock =~= lock);
    let args = activation(plan, toplevel)->Ok_0[1].args;
    assert(args[2] =~= before + quoted(script));
    assert(args[2].skip(before.len() as int) =~= quoted(script));
    let copy = activation(plan, toplevel)->Ok_0[0].args;
    let store = store_url(target);
    assert(copy =~= if plan.use_substitutes {
        seq!["copy"@, "--to"@, store, toplevel, "--no-check-sigs"@].push(
            "--substitute-on-destination"@,
        )
    } else {
        seq!["copy"@, "--to"@, store, toplevel, "--no-check-sigs"@]
    });
}

/// A word that a shell reads as the text.
pub open spec fn is_word_for(word: Seq<char>, value: Seq<char>) -> bool {
    shell_reads(word, Quoting::Unquoted) == Some(value)
}

/// The remote script stops at the first error. For a switch and a boot it sets
/// the system profile to the toplevel and makes sure that it advanced; for any
/// other action it does not touch it. At last it becomes the switch program of
/// the toplevel, with the action.
pub proof fn law_remote_switch_and_boot_set_the_system_profile(
    action: Seq<char>,
    toplevel: Seq<char>,
) -> (words: (Seq<char>, Seq<char>, Seq<char>))
    ensures
        is_word_for(words.0, toplevel),
        is_word_for(words.1, toplevel + "/bin/switch-to-configuration"@),
        is_word_for(words.2, action),
        activation_script(action, toplevel) == if action == "switch"@ || action == "boot"@ {
            "set -eu; "@ + (
            "/run/current-system/sw/bin/nix-env -p /nix/var/nix/profiles/system --set "@ + words.0
                + "; actual=$(readlink -f /nix/var/nix/profiles/system); [ \"$actual\" = "@ + words.0
                + " ] || { printf '%s\\n' 'system profile did not advance to candidate' >&2; exit 1; }; "@)
                + "exec "@ + words.1 + " "@ + words.2
        } else {
            "set -eu; "@ + "exec "@ + words.1 + " "@ + words.2
        },
{
    law_quoted_text_reads_back(toplevel);
    law_quoted_text_reads_back(switch_program(toplevel));
    law_quoted_text_reads_back(action);
    assert("set -eu; "@ + Seq::<char>::empty() =~= "set -eu; "@);
    (quoted(toplevel), quoted(switch_program(toplevel)), quoted(action))
}

} // verus!
