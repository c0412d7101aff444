use arbor_git::git::hook::{
    evaluate, evaluate_protection, is_zero_oid, parse_patterns, parse_protected,
    parse_update_lines, patterns_from, protected_from, protects, run_pre_receive, Verdict,
};
use arbor_git::git::scope_match::ScopeBounds;
use arbor_git::host::{HostCall, Outcome, ProcessOutput, Replies, Reply, Step};

const ZERO: &str = "0000000000000000000000000000000000000000";

fn bounds(refs: Option<&[&str]>, paths: Option<&[&str]>) -> ScopeBounds {
    ScopeBounds {
        ref_patterns: refs.map(|r| r.iter().map(|s| (*s).into()).collect()),
        path_patterns: paths.map(|p| p.iter().map(|s| (*s).into()).collect()),
    }
}

fn done<T, E>(step: Step<T, E>) -> T {
    match step {
        Step::Done(value) => value,
        _ => panic!("the step is not done"),
    }
}

fn output(success: bool, stdout: &str, stderr: &str) -> Reply {
    Reply::Process(Outcome::Got(ProcessOutput {
        success,
        stdout: stdout.as_bytes().to_vec(),
        stderr: stderr.as_bytes().to_vec(),
    }))
}

/// Runs an operation against a git that the given function plays.
fn with_git<E>(
    op: impl Fn(&Replies) -> Step<Verdict, E>,
    git: impl Fn(&[&str]) -> Reply,
) -> (Result<Verdict, E>, usize) {
    let mut replies = Replies::new();
    for _ in 0..20 {
        match op(&replies) {
            Step::Done(verdict) => return (Ok(verdict), replies.len()),
            Step::Failed(error) => return (Err(error), replies.len()),
            Step::Ask(calls) => {
                for call in calls {
                    let reply = match &call {
                        HostCall::Git { args } => {
                            let args: Vec<&str> = args.iter().map(|a| a.as_str()).collect();
                            git(&args)
                        }
                        _ => panic!("the hook only runs git"),
                    };
                    replies.record(call, reply);
                }
            }
        }
    }
    panic!("the operation does not end");
}

#[test]
fn unconfined_allows_without_touching_git() {
    // nothing has been looked up, and unconfined bounds need nothing looked up
    let input = "0000000000000000000000000000000000000000 abc123 refs/heads/main\n";
    assert_eq!(done(evaluate(&bounds(None, None), input, &Replies::new())).code, 0);
}

#[test]
fn a_ref_outside_the_globs_is_rejected() {
    let input = "old new refs/heads/main\n";
    // ref-only confinement judges without needing changed paths
    assert_eq!(
        done(evaluate(&bounds(Some(&["refs/heads/agent/*"]), None), input, &Replies::new())).code,
        1
    );
}

#[test]
fn an_in_bounds_ref_is_allowed_when_only_refs_are_confined() {
    let input = "old new refs/heads/agent/feature\n";
    assert_eq!(
        done(evaluate(&bounds(Some(&["refs/heads/agent/*"]), None), input, &Replies::new())).code,
        0
    );
}

#[test]
fn a_deletion_is_judged_on_its_ref_alone() {
    // zero new-oid = deletion; path confinement must not trigger a lookup
    let input = "abc 0000000000000000000000000000000000000000 refs/heads/agent/x\n";
    assert_eq!(
        done(evaluate(
            &bounds(Some(&["refs/heads/agent/*"]), Some(&["src/**"])),
            input,
            &Replies::new()
        ))
        .code,
        0
    );
}

#[test]
fn every_refusal_is_told() {
    let input = "a b refs/heads/one\n\n  a b refs/heads/two  \r\n";
    let verdict = done(evaluate(&bounds(Some(&[]), None), input, &Replies::new()));
    assert_eq!(verdict.code, 1);
    assert_eq!(
        verdict.messages,
        vec![
            "arbor: ref refs/heads/one is outside this token's scope",
            "arbor: ref refs/heads/two is outside this token's scope",
        ]
    );
}

#[test]
fn updates_are_read_line_by_line() {
    let lines = parse_update_lines("a b c d\n \nx\n  p  q\n");
    let read: Vec<(&str, &str, &str)> = lines
        .iter()
        .map(|l| (l.old.as_str(), l.new.as_str(), l.reference.as_str()))
        .collect();
    assert_eq!(read, vec![("a", "b", "c"), ("x", "", ""), ("p", "", "q")]);
}

#[test]
fn zeros_stand_for_no_object() {
    assert!(is_zero_oid(ZERO) && is_zero_oid("0"));
    assert!(!is_zero_oid("") && !is_zero_oid("0001") && !is_zero_oid("a"));
}

#[test]
fn patterns_are_read_from_json() {
    assert_eq!(parse_patterns(None), None);
    assert_eq!(
        parse_patterns(Some(r#"["refs/heads/agent/*", "a\n\"b\""]"#)),
        Some(vec!["refs/heads/agent/*".to_string(), "a\n\"b\"".to_string()])
    );
    assert_eq!(parse_patterns(Some("[]")), Some(vec![]));
    // what cannot be read confines to nothing
    for raw in ["", "refs/heads/*", "{}", "[1]", "[\"a\"", "null"] {
        assert_eq!(parse_patterns(Some(raw)), Some(vec![]));
        assert_eq!(parse_protected(Some(raw)), Some(vec!["**".to_string()]));
    }
    assert_eq!(parse_protected(None), None);
    assert_eq!(parse_protected(Some(r#"["main"]"#)), Some(vec!["main".to_string()]));
    assert!(patterns_from(None).is_empty());
    assert_eq!(patterns_from(Some(vec!["a".to_string()])), vec!["a"]);
    assert_eq!(protected_from(None), vec!["**"]);
    assert!(protected_from(Some(vec![])).is_empty());
}

fn commits_git(args: &[&str]) -> Reply {
    match args {
        ["rev-list", "tip", "--not", "--all"] => output(true, "c1\nc2\n", ""),
        ["diff-tree", "--no-commit-id", "--name-only", "-r", "-m", "--root", "c1"] => {
            output(true, "src/b.rs\nsrc/a.rs\n", "")
        }
        ["diff-tree", "--no-commit-id", "--name-only", "-r", "-m", "--root", "c2"] => {
            output(true, "src/a.rs\noutside.txt\n\n", "")
        }
        ["rev-list", "merge", "--not", "--all"] => output(true, "m1\n", ""),
        // a merge tells what differs from each of its parents
        ["diff-tree", "--no-commit-id", "--name-only", "-r", "-m", "--root", "m1"] => {
            output(true, "src/a.rs\nmade-in-the-merge.txt\nsrc/a.rs\n", "")
        }
        ["rev-list", "inside", "--not", "--all"] => output(true, "c1\n", ""),
        ["rev-list", "known", "--not", "--all"] => output(true, "", ""),
        ["rev-list", "bad", "--not", "--all"] => output(false, "", "fatal: bad object\n"),
        ["rev-list", "half", "--not", "--all"] => output(true, "c1\nlost\n", ""),
        ["diff-tree", "--no-commit-id", "--name-only", "-r", "-m", "--root", "lost"] => {
            output(false, "", "lost")
        }
        ["rev-list", "nogit", "--not", "--all"] => {
            Reply::Process(Outcome::Error("no such file".to_string()))
        }
        _ => panic!("unexpected arguments {args:?}"),
    }
}

#[test]
fn confined_push_enforces_path_bounds() {
    let scope = bounds(Some(&["refs/heads/agent/*"]), Some(&["src/**"]));
    let judge = |input: &str| {
        with_git(|replies| evaluate(&scope, input, replies), commits_git)
    };

    let (verdict, asked) = judge("old tip refs/heads/agent/x\n");
    let verdict = verdict.unwrap();
    assert_eq!(verdict.code, 1);
    assert_eq!(verdict.messages, vec!["arbor: path outside.txt is outside this token's scope"]);
    assert_eq!(asked, 3);

    let (verdict, asked) = judge("old merge refs/heads/agent/x\n");
    assert_eq!(
        verdict.unwrap().messages,
        vec!["arbor: path made-in-the-merge.txt is outside this token's scope"]
    );
    assert_eq!(asked, 2);

    assert_eq!(judge("old inside refs/heads/agent/x\n").0.unwrap().code, 0);
    assert_eq!(judge("old known refs/heads/agent/x\n").0.unwrap().code, 0);
}

#[test]
fn what_git_cannot_tell_fails() {
    let scope = bounds(None, Some(&["src/**"]));
    let judge = |input: &str| {
        with_git(|replies| evaluate(&scope, input, replies), commits_git).0.map(|v| v.code)
    };
    assert_eq!(
        judge("old bad refs/heads/x\n"),
        Err("git rev-list failed: fatal: bad object\n".to_string())
    );
    assert_eq!(judge("old half refs/heads/x\n"), Err("git diff-tree failed: lost".to_string()));
    assert_eq!(judge("old nogit refs/heads/x\n"), Err("git rev-list failed: no such file".to_string()));
}

#[test]
fn a_failure_refuses_the_push() {
    let run = |input: Option<&str>| {
        with_git(
            |replies| run_pre_receive(None, Some(r#"["src/**"]"#), None, input, replies),
            commits_git,
        )
        .0
        .unwrap()
    };
    let failed = run(Some("old nogit refs/heads/x\n"));
    assert_eq!(failed.code, 1);
    assert_eq!(failed.messages, vec!["arbor: git rev-list failed: no such file"]);
    let unread = run(None);
    assert_eq!(unread.code, 1);
    assert_eq!(unread.messages, vec!["arbor: could not read ref updates"]);
}

#[test]
fn bytes_that_are_no_text_are_replaced() {
    let scope = bounds(None, Some(&["src/**"]));
    let git = |args: &[&str]| {
        if args[0] == "rev-list" {
            output(true, "c\n", "")
        } else {
            Reply::Process(Outcome::Got(ProcessOutput {
                success: true,
                stdout: b"caf\xc3\xa9 \xff\n".to_vec(),
                stderr: vec![],
            }))
        }
    };
    let verdict = with_git(|replies| evaluate(&scope, "o n r\n", replies), git).0.unwrap();
    assert_eq!(verdict.messages, vec!["arbor: path caf\u{e9} \u{fffd} is outside this token's scope"]);
}

fn ancestry_git(args: &[&str]) -> Reply {
    match args {
        ["merge-base", "--is-ancestor", "a", "b"] => output(true, "", ""),
        ["merge-base", "--is-ancestor", _, _] => output(false, "", ""),
        _ => panic!("unexpected arguments {args:?}"),
    }
}

#[test]
fn protected_branch_allows_creation_and_fast_forward_only() {
    let run = |update: &str| {
        with_git(
            |replies| run_pre_receive(None, None, Some(r#"["main"]"#), Some(update), replies),
            ancestry_git,
        )
        .0
        .unwrap()
    };
    // creating the protected branch, and moving it forward
    assert_eq!(run(&format!("{ZERO} a refs/heads/main\n")).code, 0);
    assert_eq!(run("a b refs/heads/main\n").code, 0);
    // a force-push and a deletion
    let forced = run("b c refs/heads/main\n");
    assert_eq!(forced.code, 1);
    assert_eq!(
        forced.messages,
        vec!["arbor: ref refs/heads/main is protected and cannot be rewritten"]
    );
    let deleted = run(&format!("b {ZERO} refs/heads/main\n"));
    assert_eq!(deleted.code, 1);
    assert_eq!(
        deleted.messages,
        vec!["arbor: ref refs/heads/main is protected and cannot be deleted"]
    );
    // an unprotected branch is unaffected
    assert_eq!(run("b c refs/heads/feature\n").code, 0);
    assert_eq!(run(&format!("b {ZERO} refs/heads/feature\n")).code, 0);
}

#[test]
fn protection_matches_full_and_branch_names() {
    let list = vec!["main".to_string(), "refs/heads/release/*".to_string()];
    assert!(protects(&list, "refs/heads/main"));
    assert!(protects(&list, "refs/heads/release/1"));
    assert!(!protects(&list, "refs/tags/main"));
    assert!(!protects(&list, "refs/heads/main2"));
    assert!(!protects(&vec![], "refs/heads/main"));
}

#[test]
fn protection_that_git_cannot_judge_fails() {
    let list = vec!["main".to_string()];
    let step = with_git(
        |replies| evaluate_protection(Some(&list), "b c refs/heads/main\n", replies),
        |_| Reply::Process(Outcome::Error("gone".to_string())),
    );
    assert_eq!(step.0.map(|v| v.code), Err("git merge-base failed: gone".to_string()));
    assert_eq!(done(evaluate_protection(None, "b c refs/heads/main\n", &Replies::new())).code, 0);
}

#[test]
fn both_boundaries_hold_together() {
    let verdict = with_git(
        |replies| {
            run_pre_receive(
                Some(r#"["refs/heads/agent/*"]"#),
                None,
                Some(r#"["main"]"#),
                Some("b c refs/heads/main\n"),
                replies,
            )
        },
        ancestry_git,
    )
    .0
    .unwrap();
    assert_eq!(verdict.code, 1);
    assert_eq!(
        verdict.messages,
        vec![
            "arbor: ref refs/heads/main is outside this token's scope",
            "arbor: ref refs/heads/main is protected and cannot be rewritten",
        ]
    );
}

#[test]
fn an_unreadable_protection_protects_all() {
    let verdict = with_git(
        |replies| run_pre_receive(None, None, Some("main"), Some("b c refs/heads/x\n"), replies),
        ancestry_git,
    )
    .0
    .unwrap();
    assert_eq!(verdict.code, 1);
}
