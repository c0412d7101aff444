use arbor_git::git::scope_match::{
    evaluate_receive_pack, matches_any_glob, matches_glob, RefUpdate, ScopeBounds,
};

#[test]
fn matches_glob_agrees_with_the_ts_matcher() {
    let cases: &[(&str, &str, bool)] = &[
        // `*` matches within a single segment, never across `/`
        ("refs/heads/agent/*", "refs/heads/agent/feature", true),
        ("refs/heads/agent/*", "refs/heads/agent/a/b", false),
        ("refs/heads/agent/*", "refs/heads/agent/", true),
        ("refs/heads/*", "refs/heads/main", true),
        ("refs/heads/*", "refs/tags/v1", false),
        ("*", "anything", true),
        ("*", "a/b", false),
        ("a*b", "aXXb", true),
        ("a*b", "aX/Xb", false),
        ("src/*.ts", "src/index.ts", true),
        ("src/*.ts", "src/lib/index.ts", false),
        // `**` matches across segments, including empty
        ("**", "refs/heads/anything/deep", true),
        ("src/**", "src/a/b/c.ts", true),
        ("src/**", "src/", true),
        ("src/**", "src", false),
        ("**/*.ts", "a/b/c.ts", true),
        ("**/*.ts", "c.ts", false),
        // every other character is literal (metacharacters included)
        ("v1.0", "v1.0", true),
        ("v1.0", "v1x0", false),
        ("", "", true),
        ("", "x", false),
    ];

    for (pattern, value, expected) in cases {
        assert_eq!(
            matches_glob(pattern, value),
            *expected,
            "matches_glob({pattern:?}, {value:?}) should be {expected}"
        );
    }
}

#[test]
fn matches_any_glob_fails_closed_on_an_empty_list() {
    assert!(matches_any_glob(
        &["refs/heads/main".into(), "refs/heads/dev".into()],
        "refs/heads/dev"
    ));
    assert!(!matches_any_glob(&["a".into(), "b".into()], "c"));
    // an empty list matches nothing, so a narrowed-to-zero caller fails closed
    assert!(!matches_any_glob(&[], "anything"));
}

#[test]
fn evaluate_receive_pack_judges_each_update() {
    let update = |reference: &str, paths: &[&str]| RefUpdate {
        reference: reference.into(),
        changed_paths: paths.iter().map(|p| (*p).into()).collect(),
    };

    // unconfined: nothing is refused
    let unconfined = ScopeBounds {
        ref_patterns: None,
        path_patterns: None,
    };
    assert!(
        evaluate_receive_pack(&unconfined, &[update("refs/heads/main", &["any/where.rs"])])
            .is_empty()
    );

    // ref confinement: a ref outside the globs is refused
    let ref_confined = ScopeBounds {
        ref_patterns: Some(vec!["refs/heads/agent/*".into()]),
        path_patterns: None,
    };
    let rejected = evaluate_receive_pack(&ref_confined, &[update("refs/heads/main", &[])]);
    assert_eq!(rejected.len(), 1);
    assert!(rejected[0].reason.contains("outside this token's scope"));

    // path confinement: an in-bounds ref with an out-of-bounds path is refused
    let path_confined = ScopeBounds {
        ref_patterns: Some(vec!["refs/heads/agent/*".into()]),
        path_patterns: Some(vec!["src/**".into()]),
    };
    let rejected = evaluate_receive_pack(
        &path_confined,
        &[update("refs/heads/agent/x", &["src/a.rs", "lib/b.rs"])],
    );
    assert_eq!(rejected.len(), 1);
    assert!(rejected[0].reason.contains("lib/b.rs"));

    // in-bounds ref and paths: allowed
    assert!(
        evaluate_receive_pack(
            &path_confined,
            &[update("refs/heads/agent/x", &["src/a.rs", "src/deep/b.rs"])]
        )
        .is_empty()
    );

    // a deletion carries no paths, so it is judged on its ref alone
    assert!(
        evaluate_receive_pack(&path_confined, &[update("refs/heads/agent/x", &[])]).is_empty()
    );
}

#[test]
fn rejections_carry_their_exact_reasons() {
    let bounds = ScopeBounds {
        ref_patterns: Some(vec!["refs/heads/agent/*".into()]),
        path_patterns: Some(vec!["src/**".into()]),
    };
    let updates = [
        RefUpdate { reference: "refs/heads/main".into(), changed_paths: vec!["src/a".into()] },
        RefUpdate {
            reference: "refs/heads/agent/y".into(),
            changed_paths: vec!["src/a".into(), "b".into(), "c".into()],
        },
        RefUpdate { reference: "refs/heads/agent/z".into(), changed_paths: vec![] },
    ];
    let refused = evaluate_receive_pack(&bounds, &updates);
    assert_eq!(refused.len(), 2);
    assert_eq!(refused[0].reference, "refs/heads/main");
    assert_eq!(refused[0].reason, "ref refs/heads/main is outside this token's scope");
    assert_eq!(refused[1].reference, "refs/heads/agent/y");
    assert_eq!(refused[1].reason, "path b is outside this token's scope");
}

#[test]
fn updates_are_judged_alone() {
    let bounds = ScopeBounds {
        ref_patterns: Some(vec!["refs/heads/a".into()]),
        path_patterns: None,
    };
    let a = RefUpdate { reference: "refs/heads/a".into(), changed_paths: vec![] };
    let b = RefUpdate { reference: "refs/heads/b".into(), changed_paths: vec![] };
    let alone_a = evaluate_receive_pack(&bounds, &[a.clone()]);
    let alone_b = evaluate_receive_pack(&bounds, &[b.clone()]);
    let together = evaluate_receive_pack(&bounds, &[a, b]);
    assert_eq!(together.len(), alone_a.len() + alone_b.len());
    assert_eq!(together[0], alone_b[0]);
}

#[test]
fn single_stars_keep_depth() {
    assert!(matches_glob("a/*/c", "a/b/c"));
    assert!(!matches_glob("a/*/c", "a/b/b/c"));
    assert!(!matches_glob("a/*/c", "a/c"));
    assert!(matches_glob("a/**/c", "a/b/b/c"));
}

#[test]
fn stars_and_letters_mix() {
    assert!(matches_glob("*a*", "banana"));
    assert!(matches_glob("**a", "x/y/a"));
    assert!(!matches_glob("**a", "x/y/b"));
    assert!(matches_glob("***", "x/y"));
}
