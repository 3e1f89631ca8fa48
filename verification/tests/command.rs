//! What the ends of processes mean.

use crossbow_switch::command::{
    activation_result, execution_result, path_input, planner_result, shell_result, store_result,
    CommandLine, Ended, Fed, Finished, Piped, Script,
};
use crossbow_switch::realize::{build_notice, build_request, build_result};
use crossbow_switch::{Error, RealizationPolicy, SwitchPlan};

fn finished(success: bool, stdout: &[u8], stderr: &[u8]) -> Finished {
    Finished {
        success,
        code: Some(if success { 0 } else { 1 }),
        stdout: stdout.to_vec(),
        stderr: stderr.to_vec(),
    }
}

fn args(list: &[&str]) -> Vec<String> {
    list.iter().map(|arg| (*arg).to_owned()).collect()
}

fn utf8_message(bytes: &[u8]) -> String {
    String::from_utf8(bytes.to_vec()).unwrap_err().to_string()
}

const BROKEN: &[u8] = b"ok\xff";

#[test]
fn a_plan_command_reports_what_it_printed() {
    let list = args(&["build", "x"]);
    assert_eq!(
        execution_result("nix", &list, Ended::Finished(finished(true, b"", b"noise"))),
        Ok(())
    );
    assert_eq!(
        execution_result("nix", &list, Ended::Finished(finished(false, b"", b" \xffbad \n"))),
        Err(Error::CommandFailed {
            command: "nix build x".to_owned(),
            stderr: "\u{fffd}bad".to_owned(),
        })
    );
    assert_eq!(
        execution_result("nix", &list, Ended::NotRun { source: "gone".to_owned() }),
        Err(Error::PlannerCommand {
            command: "nix build x".to_owned(),
            source: "gone".to_owned(),
        })
    );
}

#[test]
fn an_activation_command_has_shown_its_errors() {
    let list = args(&["switch"]);
    assert_eq!(
        activation_result("prog", &list, Ended::Finished(finished(true, b"", b""))),
        Ok(())
    );
    assert_eq!(
        activation_result("prog", &list, Ended::Finished(finished(false, b"", b"shown"))),
        Err(Error::CommandFailed {
            command: "prog switch".to_owned(),
            stderr: "see streamed command stderr".to_owned(),
        })
    );
    assert_eq!(
        activation_result("prog", &list, Ended::NotRun { source: "gone".to_owned() }),
        Err(Error::CommandSpawn { command: "prog switch".to_owned(), source: "gone".to_owned() })
    );
}

#[test]
fn a_store_query_answers_with_text() {
    let list = args(&["--query", "--deriver"]);
    assert_eq!(
        store_result(&list, Ended::Finished(finished(true, b"\xe2\x82\xac\n", b""))),
        Ok("\u{20ac}\n".to_owned())
    );
    assert_eq!(
        store_result(&list, Ended::Finished(finished(false, b"x", b"down\n"))),
        Err(Error::NixStoreFailed {
            args: "--query --deriver".to_owned(),
            stderr: "down".to_owned(),
        })
    );
    assert_eq!(
        store_result(&list, Ended::Finished(finished(true, BROKEN, b""))),
        Err(Error::NixStoreUtf8 {
            args: "--query --deriver".to_owned(),
            source: utf8_message(BROKEN),
        })
    );
    assert_eq!(
        store_result(&list, Ended::NotRun { source: "gone".to_owned() }),
        Err(Error::NixStoreRun {
            args: "--query --deriver".to_owned(),
            source: "gone".to_owned(),
        })
    );
}

#[test]
fn a_planner_command_fails_in_five_ways() {
    let command = "nix derivation show".to_owned();
    let failed = |stderr: &str| {
        Err(Error::PlannerCommandFailed { command: command.clone(), stderr: stderr.to_owned() })
    };
    let gone = || "gone".to_owned();
    let unrun =
        || Err(Error::PlannerCommand { command: command.clone(), source: "gone".to_owned() });
    assert_eq!(planner_result(&command, Piped::NotStarted { source: gone() }), unrun());
    assert_eq!(planner_result(&command, Piped::WaitFailed { source: gone() }), unrun());
    assert_eq!(
        planner_result(&command, Piped::NotCaptured),
        failed("planner stdout was not captured")
    );
    assert_eq!(
        planner_result(&command, Piped::ReadFailed { source: gone(), stderr: vec![] }),
        failed("failed to read planner output: gone")
    );
    assert_eq!(
        planner_result(&command, Piped::Finished(finished(false, b"{}", b"secret"))),
        failed("planner command failed")
    );
    assert_eq!(
        planner_result(&command, Piped::Finished(finished(true, BROKEN, b""))),
        Err(Error::PlannerUtf8 { command: command.clone(), source: utf8_message(BROKEN) })
    );
    assert_eq!(
        planner_result(&command, Piped::Finished(finished(true, b"{}", b""))),
        Ok("{}".to_owned())
    );
}

#[test]
fn a_shell_command_is_fed_lines_and_answers_with_text() {
    assert_eq!(path_input(&args(&["/a", "/b"])), "/a\n/b\n");
    assert_eq!(path_input(&[]), "");

    let command = || "publish".to_owned();
    let gone = || "gone".to_owned();
    let cases = [
        (
            Fed::NotStarted { source: gone() },
            Err(Error::CommandSpawn { command: command(), source: gone() }),
        ),
        (Fed::NoInput, Err(Error::CommandStdinUnavailable { command: command() })),
        (
            Fed::WriteFailed { source: gone() },
            Err(Error::CommandWriteStdin { command: command(), source: gone() }),
        ),
        (
            Fed::WaitFailed { source: gone() },
            Err(Error::CommandWait { command: command(), source: gone() }),
        ),
        (
            Fed::Finished(finished(false, b"", b"refused ")),
            Err(Error::CommandFailed { command: command(), stderr: "refused".to_owned() }),
        ),
        (
            Fed::Finished(finished(true, BROKEN, b"")),
            Err(Error::CommandUtf8 { command: command(), source: utf8_message(BROKEN) }),
        ),
        (Fed::Finished(finished(true, b"/a\n", b"")), Ok("/a\n".to_owned())),
    ];
    for (ended, expected) in cases {
        assert_eq!(shell_result("publish", ended), expected);
    }
}

fn plan() -> SwitchPlan<'static> {
    SwitchPlan {
        action: "switch",
        flake_attr: ".#host",
        toplevel_attr: "git+ssh://forge/repo#top",
        target_ssh: None,
        use_substitutes: false,
        capture: false,
        sudo: false,
        remote_sudo: false,
        max_jobs: Some(2),
        realization_policy: RealizationPolicy::SubstituteOnly,
    }
}

#[test]
fn a_build_is_requested_with_the_attribute_and_shown_without_its_address() {
    let request = build_request(&plan()).unwrap();
    assert_eq!(request.shown_attr, "<endpoint>");
    assert_eq!(request.args[3], "git+ssh://forge/repo#top");
    assert_eq!(request.args[4..6], ["--max-jobs", "2"]);

    let mut remote = plan();
    remote.realization_policy = RealizationPolicy::RemoteNative { builders: vec![] };
    assert_eq!(build_request(&remote).unwrap_err(), Error::RemoteNativeRequiresBuilder);
}

#[test]
fn a_build_that_succeeds_names_its_first_path() {
    let ended = Piped::Finished(finished(true, b"\n /nix/store/top \n/nix/store/other\n", b""));
    assert_eq!(build_notice(&ended), None);
    assert_eq!(build_result(&plan(), ended), Ok("/nix/store/top".to_owned()));

    let noisy = Piped::Finished(finished(true, b"/nix/store/top\n", b"fetched https://x\n"));
    assert_eq!(build_notice(&noisy).as_deref(), Some("fetched <endpoint>"));
}

#[test]
fn a_build_that_fails_says_why_without_addresses() {
    let attr = || "<endpoint>".to_owned();
    let gone = || "gone".to_owned();
    assert_eq!(
        build_result(&plan(), Piped::NotStarted { source: gone() }),
        Err(Error::NixBuildRun { attr: attr(), source: gone() })
    );
    assert_eq!(
        build_result(&plan(), Piped::WaitFailed { source: gone() }),
        Err(Error::NixBuildRun { attr: attr(), source: gone() })
    );
    assert_eq!(
        build_result(&plan(), Piped::NotCaptured),
        Err(Error::RealizationFailed {
            attr: attr(),
            status: None,
            stderr: "nix build stdout was not captured".to_owned(),
        })
    );
    assert_eq!(
        build_result(&plan(), Piped::ReadFailed { source: gone(), stderr: vec![] }),
        Err(Error::RealizationFailed {
            attr: attr(),
            status: None,
            stderr: "failed to read nix build output: gone".to_owned(),
        })
    );
    assert_eq!(
        build_result(
            &plan(),
            Piped::ReadFailed { source: gone(), stderr: b" at https://cache \n".to_vec() }
        ),
        Err(Error::RealizationFailed {
            attr: attr(),
            status: None,
            stderr: "at <endpoint>\nfailed to read nix build output: gone".to_owned(),
        })
    );
    assert_eq!(
        build_result(&plan(), Piped::Finished(finished(false, b"/nix/store/top\n", b"odd"))),
        Err(Error::RealizationFailed {
            attr: attr(),
            status: Some(1),
            stderr: "odd".to_owned(),
        })
    );
    assert_eq!(
        build_result(&plan(), Piped::Finished(finished(true, BROKEN, b""))),
        Err(Error::NixBuildUtf8 { attr: attr(), source: utf8_message(BROKEN) })
    );
    assert_eq!(
        build_result(&plan(), Piped::Finished(finished(true, b" \n", b""))),
        Err(Error::NixBuildNoOutput { attr: attr() })
    );
}

#[test]
fn a_script_goes_on_only_after_success() {
    let commands: Vec<CommandLine> = ["one", "two"]
        .iter()
        .map(|program| CommandLine { program: (*program).to_owned(), args: args(&["x"]) })
        .collect();
    let script = Script::begin(&commands);
    assert_eq!(script.turn().unwrap().program, "one");
    let script = script.ended(Ok(())).unwrap();
    assert_eq!(script.turn().unwrap().program, "two");
    let script = script.ended(Ok(())).unwrap();
    assert!(script.turn().is_none());

    let script = Script::begin(&commands);
    let error = Error::CommandFailed { command: "one x".to_owned(), stderr: "no".to_owned() };
    assert_eq!(
        script.ended(Err(error)).unwrap_err(),
        Error::CommandFailed { command: "one x".to_owned(), stderr: "no".to_owned() }
    );

    assert!(Script::begin(&[]).turn().is_none());
}
