//! The probe of one store.

use crossbow_switch::command::{Ended, Finished};
use crossbow_switch::planner::store_probe::{ping_args, StoreProbe, PROBE_BATCH};
use crossbow_switch::Error;

fn ended(success: bool, stdout: &str, stderr: &str) -> Ended {
    Ended::Finished(Finished {
        success,
        code: None,
        stdout: stdout.as_bytes().to_vec(),
        stderr: stderr.as_bytes().to_vec(),
    })
}

fn outputs(count: usize) -> Vec<String> {
    (0..count).map(|i| format!("/nix/store/{i}")).collect()
}

/// A document that has every other output.
fn document(batch: &[String], first: usize) -> String {
    let fields: Vec<String> = batch
        .iter()
        .enumerate()
        .map(|(i, output)| {
            let value = if (first + i) % 2 == 0 { "{\"narSize\":1}" } else { "null" };
            format!("\"{output}\":{value}")
        })
        .collect();
    format!("{{{}}}", fields.join(","))
}

#[test]
fn a_store_is_asked_in_batches() {
    assert_eq!(ping_args("https://cache"), ["store", "ping", "--store", "https://cache"]);
    let all = outputs(PROBE_BATCH + 3);
    let mut probe = StoreProbe::open("https://cache", all.clone(), ended(true, "", "")).unwrap();
    let mut asked = 0;
    while let Some(args) = probe.query() {
        assert_eq!(
            args[..6],
            ["path-info", "--json", "--json-format", "1", "--store", "https://cache"]
        );
        let batch = probe.next_batch();
        assert_eq!(args[6..], batch[..]);
        assert_eq!(batch[..], all[asked..asked + batch.len()]);
        // The command ends without success where an output is missing.
        probe = probe.answer(ended(false, &document(&batch, asked), "missing")).unwrap();
        asked += batch.len();
    }
    assert_eq!(asked, all.len());
    let answers = probe.finish();
    assert_eq!(answers.len(), all.len());
    for (i, output) in all.iter().enumerate() {
        assert_eq!(answers.get(output), Some(&(i % 2 == 0)));
    }
}

#[test]
fn nothing_to_look_for_needs_no_query() {
    let probe = StoreProbe::open("daemon", vec![], ended(true, "", "")).unwrap();
    assert!(probe.query().is_none());
    assert!(probe.finish().is_empty());
}

#[test]
fn a_store_that_does_not_answer_its_ping_is_an_error() {
    assert_eq!(
        StoreProbe::open("https://cache", outputs(2), ended(false, "", " down\n")).unwrap_err(),
        Error::PlannerCacheProbeFailed {
            substituter: "https://cache".to_owned(),
            output: "/nix/store/0".to_owned(),
            stderr: "down".to_owned(),
        }
    );
    let unrun = Ended::NotRun { source: "gone".to_owned() };
    assert_eq!(
        StoreProbe::open("https://cache", vec![], unrun).unwrap_err(),
        Error::PlannerCacheProbe {
            substituter: "https://cache".to_owned(),
            output: String::new(),
            source: "gone".to_owned(),
        }
    );
}

#[test]
fn incomplete_and_malformed_answers_are_errors() {
    let open = || StoreProbe::open("s", outputs(2), ended(true, "", "")).unwrap();
    assert_eq!(
        open().answer(ended(true, "{\"/nix/store/0\":null}", "")).unwrap_err(),
        Error::PlannerCacheProbeJson {
            substituter: "s".to_owned(),
            output: "/nix/store/1".to_owned(),
            reason: "response did not contain the queried output".to_owned(),
        }
    );
    assert_eq!(
        open().answer(ended(true, "[]", "")).unwrap_err(),
        Error::PlannerCacheProbeJson {
            substituter: "s".to_owned(),
            output: "/nix/store/0".to_owned(),
            reason: "response did not contain the queried output".to_owned(),
        }
    );
    let reason = serde_json::from_str::<serde_json::Value>("{").unwrap_err().to_string();
    assert_eq!(
        open().answer(ended(true, "{", "")).unwrap_err(),
        Error::PlannerCacheProbeJson {
            substituter: "s".to_owned(),
            output: "/nix/store/0".to_owned(),
            reason,
        }
    );
    assert_eq!(
        open().answer(Ended::NotRun { source: "gone".to_owned() }).unwrap_err(),
        Error::PlannerCacheProbe {
            substituter: "s".to_owned(),
            output: "/nix/store/0".to_owned(),
            source: "gone".to_owned(),
        }
    );
}
