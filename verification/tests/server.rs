use std::collections::{BTreeMap, BTreeSet};

use arbor_git::git::GitError;
use arbor_git::host::{HostCall, Outcome, Replies, Reply, Step};
use arbor_git::server::{
    git_info_refs, git_receive_pack, git_upload_pack, health_check, readiness_check, ServerConfig,
};
use arbor_git::StorageConfig;

#[test]
fn defaults_of_the_storage() {
    let config = StorageConfig::default();
    assert_eq!(config.base_path, "/var/lib/arbor-git");
    assert_eq!(config.max_repo_size, 1024 * 1024 * 1024);
    assert_eq!(config.default_branch, "main");
}

#[test]
fn the_environment_configures_the_storage() {
    let unset = StorageConfig::from_env(None, None, None, None);
    assert_eq!(unset.base_path, "./data/repositories");
    assert_eq!(unset.max_repo_size, 1024 * 1024 * 1024);
    assert_eq!(unset.default_branch, "main");
    let set = StorageConfig::from_env(Some("/srv"), Some("42"), Some("trunk"), Some("old"));
    assert_eq!(set.base_path, "/srv");
    assert_eq!(set.max_repo_size, 42);
    assert_eq!(set.default_branch, "trunk");
    let partly = StorageConfig::from_env(None, Some("much"), None, Some("old"));
    assert_eq!(partly.max_repo_size, 1024 * 1024 * 1024);
    assert_eq!(partly.default_branch, "old");
}

#[test]
fn paths_lie_below_the_base() {
    let config = StorageConfig::from_env(Some("/srv/"), None, None, None);
    assert_eq!(config.repo_path("owner", "repo"), "/srv/owner/repo.git");
    assert_eq!(config.hooks_dir(), "/srv/.arbor-hooks");
    let copy = config.copy();
    assert_eq!(copy.base_path, config.base_path);
    assert_eq!(copy.max_repo_size, config.max_repo_size);
    assert_eq!(copy.default_branch, config.default_branch);
}

#[test]
fn errors_have_words() {
    let owner = || "o".to_string();
    let name = || "n".to_string();
    let cases = vec![
        (GitError::RepositoryNotFound { owner: owner(), name: name() }, "Repository not found: o/n"),
        (GitError::RefNotFound { reference: name() }, "Reference not found: n"),
        (GitError::ObjectNotFound { oid: name() }, "Object not found: n"),
        (GitError::InvalidRef { reference: name() }, "Invalid reference: n"),
        (GitError::MergeConflict { path: name() }, "Merge conflict in n"),
        (GitError::RepositoryExists { owner: owner(), name: name() }, "Repository already exists: o/n"),
        (GitError::Io(name()), "IO error: n"),
        (GitError::Gix(name()), "Git error: n"),
        (GitError::Internal(name()), "Internal error: n"),
    ];
    for (error, words) in cases {
        assert_eq!(error.message(), words);
    }
}

#[test]
fn ports_come_from_the_environment() {
    let storage = StorageConfig::default();
    let unset = ServerConfig::new(storage.copy());
    assert_eq!((unset.grpc_addr.port, unset.http_addr.port), (50051, 8080));
    let set = ServerConfig::from_env(Some("1"), Some("65535"), storage.copy());
    assert_eq!((set.grpc_addr.port, set.http_addr.port), (1, 65535));
    assert_eq!((set.grpc_addr.a, set.grpc_addr.d), (0, 0));
    let wrong = ServerConfig::from_env(Some("65536"), Some("http"), storage);
    assert_eq!((wrong.grpc_addr.port, wrong.http_addr.port), (50051, 8080));
}

#[test]
fn the_hook_is_put_in_place() {
    let config = StorageConfig::from_env(Some("/srv"), None, None, None);
    let mut replies = Replies::new();
    let mut made = Vec::new();
    let dir = loop {
        match config.ensure_pre_receive_hook(&replies) {
            Step::Done(dir) => break dir,
            Step::Failed(_) => panic!("nothing fails"),
            Step::Ask(calls) => {
                for call in calls {
                    made.push(match &call {
                        HostCall::CreateDirectory { path } => format!("mkdir {path}"),
                        HostCall::WriteFile { path, contents } => format!("write {path} {contents}"),
                        HostCall::MakeExecutable { path } => format!("chmod {path}"),
                        _ => panic!("unexpected call"),
                    });
                    replies.record(call, Reply::Effect(None));
                }
            }
        }
    };
    assert_eq!(dir, "/srv/.arbor-hooks");
    assert_eq!(
        made,
        vec![
            "mkdir /srv/.arbor-hooks",
            "write /srv/.arbor-hooks/pre-receive #!/bin/sh\nexec \"$ARBOR_GIT_BIN\" __pre-receive\n",
            "chmod /srv/.arbor-hooks/pre-receive",
        ]
    );
}

#[test]
fn the_hook_is_put_there_once_more() {
    let config = StorageConfig::from_env(Some("/srv"), None, None, None);
    let mut directories = BTreeSet::new();
    let mut files: BTreeMap<String, (String, bool)> = BTreeMap::new();
    // what was there before does not matter
    files.insert("/srv/.arbor-hooks/pre-receive".to_string(), ("exit 0\n".to_string(), false));
    let mut runs = Vec::new();
    for _ in 0..2 {
        let mut replies = Replies::new();
        let dir = loop {
            match config.ensure_pre_receive_hook(&replies) {
                Step::Done(dir) => break dir,
                Step::Failed(_) => panic!("nothing fails"),
                Step::Ask(calls) => {
                    for call in calls {
                        match &call {
                            HostCall::CreateDirectory { path } => {
                                directories.insert(path.clone());
                            }
                            HostCall::WriteFile { path, contents } => {
                                let mode = files.get(path).is_some_and(|file| file.1);
                                files.insert(path.clone(), (contents.clone(), mode));
                            }
                            HostCall::MakeExecutable { path } => match files.get_mut(path) {
                                Some(file) => file.1 = true,
                                None => panic!("there is no file"),
                            },
                            _ => panic!("unexpected call"),
                        }
                        replies.record(call, Reply::Effect(None));
                    }
                }
            }
        };
        runs.push((dir, directories.clone(), files.clone()));
    }
    assert_eq!(runs[0], runs[1]);
    assert_eq!(runs[0].0, "/srv/.arbor-hooks");
    assert_eq!(
        runs[0].2["/srv/.arbor-hooks/pre-receive"],
        ("#!/bin/sh\nexec \"$ARBOR_GIT_BIN\" __pre-receive\n".to_string(), true)
    );
}

#[test]
fn a_hook_that_cannot_be_written_is_told() {
    let config = StorageConfig::from_env(Some("/srv"), None, None, None);
    let mut replies = Replies::new();
    replies.record(
        HostCall::CreateDirectory { path: "/srv/.arbor-hooks".to_string() },
        Reply::Effect(Some("denied".to_string())),
    );
    assert!(matches!(
        config.ensure_pre_receive_hook(&replies),
        Step::Failed(GitError::Io(error)) if error == "denied"
    ));
}

#[test]
fn http_answers() {
    assert_eq!((health_check().status, health_check().body), (200, "OK".to_string()));
    let smart = (501, "Git Smart HTTP not yet implemented".to_string());
    for service in ["git-upload-pack", "git-receive-pack"] {
        let answer = git_info_refs(Some(service));
        assert_eq!((answer.status, answer.body), smart);
    }
    for service in [None, Some("git-archive"), Some("")] {
        let answer = git_info_refs(service);
        assert_eq!((answer.status, answer.body), (400, "Invalid service parameter".to_string()));
    }
    let upload = git_upload_pack();
    assert_eq!((upload.status, upload.body), (501, "git-upload-pack not yet implemented".to_string()));
    let receive = git_receive_pack();
    assert_eq!(
        (receive.status, receive.body),
        (501, "git-receive-pack not yet implemented".to_string())
    );
}

#[test]
fn readiness_is_that_of_the_storage() {
    let config = StorageConfig::from_env(Some("/srv"), None, None, None);
    assert!(matches!(
        readiness_check(&config, &Replies::new()),
        Step::Ask(calls) if matches!(&calls[..], [HostCall::PathExists { path }] if path == "/srv")
    ));
    let mut there = Replies::new();
    there.record(HostCall::PathExists { path: "/srv".to_string() }, Reply::Flag(true));
    assert!(matches!(
        readiness_check(&config, &there),
        Step::Ask(calls)
            if matches!(&calls[..], [HostCall::PathWritable { path }] if path == "/srv")
    ));
    let unavailable = (503, "Storage not available");
    for (there, writable, expected) in [
        (true, Some(true), (200, "Ready")),
        (true, Some(false), unavailable),
        (false, None, unavailable),
    ] {
        let mut replies = Replies::new();
        replies.record(HostCall::PathExists { path: "/srv".to_string() }, Reply::Flag(there));
        if let Some(writable) = writable {
            replies
                .record(HostCall::PathWritable { path: "/srv".to_string() }, Reply::Flag(writable));
        }
        match readiness_check(&config, &replies) {
            Step::Done(answer) => assert_eq!((answer.status, answer.body.as_str()), expected),
            _ => panic!("the storage was looked at"),
        }
    }
}

#[test]
fn the_first_reply_to_a_call_counts() {
    let call = || HostCall::Revision { spec: "main".to_string() };
    let mut replies = Replies::new();
    assert!(replies.id(&call()).is_none());
    replies.record(call(), Reply::Id(Some("1".to_string())));
    replies.record(call(), Reply::Id(None));
    replies.record(HostCall::Head, Reply::Text(Outcome::Error("x".to_string())));
    assert_eq!(replies.id(&call()), Some(&Some("1".to_string())));
    // a reply of another kind is none
    assert!(replies.id(&HostCall::Head).is_none());
    assert!(replies.flag(&call()).is_none());
    assert_eq!(replies.len(), 3);
}
