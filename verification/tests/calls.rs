use arbor_git::git::commits::GitActor;
use arbor_git::git::diff::{FileStatus, LineType};
use arbor_git::git::hook::parse_patterns;
use arbor_git::git::objects::{CommitRecord, TreeItem};
use arbor_git::git::refs::RefType;
use arbor_git::git::trees::EntryType;
use arbor_git::grpc::convert::{
    entry_mode_to_proto, entry_type_to_proto, file_status_to_proto, line_type_to_proto, split_blob,
    to_signed,
};
use arbor_git::grpc::messages::{
    Code, DiffLineType, DiffStatus, GitSignature, RepositoryPath, Status, TreeEntryMode,
    TreeEntryType,
};
use arbor_git::grpc::pack::{exit_failure, forward, spawn_failure, PackInit, PackRequest};
use arbor_git::grpc::pump::{
    next_input, next_output, InputAction, InputEvent, OutputAction, OutputEvent, OutputState,
};
use arbor_git::grpc::service::merge_author;
use arbor_git::grpc::GitServiceImpl;
use arbor_git::host::{DirNode, HostCall, Outcome, RawRef, Replies, Reply, Step, TreeChange};
use arbor_git::StorageConfig;

fn service() -> GitServiceImpl {
    GitServiceImpl::new(StorageConfig {
        base_path: "/srv".to_string(),
        ..StorageConfig::default()
    })
}

fn repository() -> RepositoryPath {
    RepositoryPath { owner: "o".to_string(), name: "r".to_string() }
}

fn oid(c: char) -> String {
    c.to_string().repeat(40)
}

fn person(name: &str) -> GitActor {
    GitActor {
        name: name.to_string(),
        email: format!("{name}@example.com"),
        timestamp: 7,
        offset_minutes: -60,
    }
}

fn record(tree: char, parents: &[char]) -> CommitRecord {
    CommitRecord {
        tree: Outcome::Got(oid(tree)),
        parents: parents.iter().map(|p| oid(*p)).collect(),
        author: Some(person("ann")),
        committer: Some(person("bob")),
        title: format!("tree {tree}"),
    }
}

fn item(name: &str, mode: u16, c: char) -> TreeItem {
    TreeItem { name: name.to_string(), mode, oid: oid(c) }
}

fn modified(path: &str, old: char, new: char) -> TreeChange {
    TreeChange::Modification {
        path: path.to_string(),
        old_mode: 0o100644,
        old_oid: oid(old),
        mode: 0o100644,
        oid: oid(new),
    }
}

/// A repository `o/r` with the commits 8 and 9 on `main`, and 6 beside them.
fn host(call: &HostCall) -> Reply {
    match call {
        HostCall::PathExists { path } => Reply::Flag(path.starts_with("/srv/o/r.git")),
        HostCall::Revision { spec } => Reply::Id(match spec.as_str() {
            "main" => Some(oid('9')),
            "old" => Some(oid('8')),
            "side" => Some(oid('6')),
            _ => None,
        }),
        HostCall::Commit { oid: id } => Reply::Commit(if *id == oid('9') {
            Outcome::Got(record('b', &['8']))
        } else if *id == oid('8') {
            Outcome::Got(record('a', &[]))
        } else if *id == oid('6') {
            Outcome::Got(record('c', &['8']))
        } else {
            Outcome::Error("lost".to_string())
        }),
        HostCall::Tree { oid: id } => Reply::Tree(if *id == oid('b') {
            Outcome::Got(vec![
                Outcome::Got(item("f", 0o100644, '2')),
                Outcome::Got(item("d", 0o040000, 'd')),
            ])
        } else if *id == oid('d') {
            Outcome::Got(vec![Outcome::Got(item("g", 0o120000, '1'))])
        } else {
            Outcome::Got(vec![])
        }),
        HostCall::Blob { oid: id } => Reply::Blob(if *id == oid('1') {
            Outcome::Got(b"x\n".to_vec())
        } else if *id == oid('2') {
            Outcome::Got(b"x\ny\n".to_vec())
        } else if *id == oid('3') {
            Outcome::Got(vec![b'z'; 65536 + 1])
        } else if *id == oid('4') {
            Outcome::Got(b"PNG\x00\x00\x00".to_vec())
        } else {
            Outcome::Error("lost".to_string())
        }),
        HostCall::BlobSize { .. } => Reply::Count(Some(4)),
        HostCall::ObjectExists { oid: id } => Reply::Flag(*id == oid('1')),
        HostCall::EntryAt { path, .. } => Reply::Entry(Outcome::Got(match path.as_str() {
            "f" => Some(item("f", 0o100644, '2')),
            "p.png" => Some(item("p.png", 0o100644, '4')),
            _ => None,
        })),
        HostCall::MergeBase { .. } => Reply::Text(Outcome::Got(oid('8'))),
        HostCall::TreeChanges { new, .. } => Reply::Changes(Outcome::Got(if *new == oid('b') {
            vec![modified("f", '1', '2')]
        } else if *new == oid('c') {
            vec![modified("f", '1', '3')]
        } else {
            vec![]
        })),
        HostCall::References { .. } => Reply::References(Outcome::Got(vec![Outcome::Got(RawRef {
            name: "refs/heads/main".to_string(),
            peeled: Outcome::Got(oid('9')),
        })])),
        HostCall::Head => Reply::Id(Some("refs/heads/main".to_string())),
        HostCall::HeadId => Reply::Id(Some(oid('9'))),
        HostCall::FindReference { name } => {
            Reply::Id(if name.contains("missing") { None } else { Some(name.clone()) })
        }
        HostCall::Walk { start, .. } => Reply::Walk(Outcome::Got(vec![
            Outcome::Got(start.clone()),
            Outcome::Got(oid('8')),
        ])),
        HostCall::CountReferences { .. } => Reply::Count(Some(2)),
        HostCall::CountCommits { .. } => Reply::Count(None),
        HostCall::DirectoryTree { .. } => {
            Reply::Directory(Outcome::Got(DirNode::Directory(vec![DirNode::File(5)])))
        }
        HostCall::ParentIsEmpty { .. } => Reply::Answer(Outcome::Got(true)),
        HostCall::Git { .. } => panic!("no call runs git through the host"),
        _ => Reply::Effect(None),
    }
}

fn run<T, E>(op: impl Fn(&Replies) -> Step<T, E>) -> Result<T, E> {
    let mut replies = Replies::new();
    for _ in 0..50 {
        match op(&replies) {
            Step::Done(value) => return Ok(value),
            Step::Failed(error) => return Err(error),
            Step::Ask(calls) => {
                for call in calls {
                    let reply = host(&call);
                    replies.record(call, reply);
                }
            }
        }
    }
    panic!("the call does not end");
}

fn refusal<T>(result: Result<T, Status>) -> (Code, String) {
    match result {
        Ok(_) => panic!("the call is answered"),
        Err(status) => (status.code, status.message),
    }
}

#[test]
fn calls_without_a_repository_are_refused() {
    let s = service();
    let none = (Code::InvalidArgument, "repository required".to_string());
    assert_eq!(refusal(run(|k| s.init_repository(None, "", k))), none);
    assert_eq!(refusal(run(|k| s.delete_repository(None, k))), none);
    assert_eq!(refusal(run(|k| s.repository_exists(None, k))), none);
    assert_eq!(refusal(run(|k| s.get_repository_info(None, k))), none);
    assert_eq!(refusal(run(|k| s.list_refs(None, 0, "", k))), none);
    assert_eq!(refusal(run(|k| s.resolve_ref(None, "main", k))), none);
    assert_eq!(refusal(run(|k| s.create_branch(None, "b", "main", k))), none);
    assert_eq!(refusal(run(|k| s.delete_branch(None, "b", true, k))), none);
    assert_eq!(refusal(run(|k| s.set_default_branch(None, "b", k))), none);
    assert_eq!(refusal(run(|k| s.create_tag(None, "t", "main", None, None, k))), none);
    assert_eq!(refusal(run(|k| s.delete_tag(None, "t", k))), none);
    assert_eq!(refusal(run(|k| s.get_commit(None, &oid('9'), k))), none);
    assert_eq!(refusal(run(|k| s.get_commit_log(None, "main", 0, 0, None, k))), none);
    assert_eq!(refusal(run(|k| s.get_commit_ancestors(None, &oid('9'), 0, k))), none);
    assert_eq!(refusal(run(|k| s.get_tree(None, "main", "", false, k))), none);
    assert_eq!(refusal(run(|k| s.get_blob(None, &oid('1'), k))), none);
    assert_eq!(refusal(run(|k| s.get_blob_info(None, "main", "f", k))), none);
    assert_eq!(refusal(run(|k| s.get_diff(None, "old", "main", None, k))), none);
    assert_eq!(refusal(run(|k| s.get_file_diff(None, "old", "main", "f", 0, k))), none);
    assert_eq!(refusal(run(|k| s.merge(None, "old", "main", None, None, k))), none);
    assert_eq!(refusal(run(|k| s.rebase(None, "old", "main", k))), none);
    assert_eq!(refusal(run(|k| s.cherry_pick(None, &vec![], "main", k))), none);
    assert_eq!(refusal(run(|k| s.check_objects_exist(None, &vec![], k))), none);
}

#[test]
fn repositories_are_served() {
    let s = service();
    let r = repository();
    let other = RepositoryPath { owner: "o".to_string(), name: "new".to_string() };
    assert_eq!(run(|k| s.init_repository(Some(&other), "", k)).unwrap(), "/srv/o/new.git");
    assert_eq!(
        refusal(run(|k| s.init_repository(Some(&r), "main", k))),
        (Code::Internal, "Repository already exists: o/r".to_string())
    );
    assert!(run(|k| s.repository_exists(Some(&r), k)).unwrap());
    assert!(!run(|k| s.repository_exists(Some(&other), k)).unwrap());
    assert!(run(|k| s.delete_repository(Some(&r), k)).unwrap());
    assert!(!run(|k| s.delete_repository(Some(&other), k)).unwrap());
    let info = run(|k| s.get_repository_info(Some(&r), k)).unwrap();
    let path = info.repository.unwrap();
    assert_eq!((path.owner.as_str(), path.name.as_str()), ("o", "r"));
    assert_eq!((info.size_bytes, info.branch_count, info.tag_count), (5, 2, 2));
    assert_eq!((info.commit_count, info.head_oid), (0, oid('9')));
    assert_eq!(info.default_branch, "main");
    assert_eq!(
        refusal(run(|k| s.get_repository_info(Some(&other), k))),
        (Code::NotFound, "Repository not found: o/new".to_string())
    );
}

#[test]
fn references_are_served() {
    let s = service();
    let r = repository();
    let listed = run(|k| s.list_refs(Some(&r), 1, "", k)).unwrap();
    assert_eq!(listed.len(), 1);
    assert_eq!((listed[0].short_name.as_str(), listed[0].ref_type), ("main", RefType::Branch));
    assert!(listed[0].is_default);
    assert!(run(|k| s.list_refs(Some(&r), 0, "v*", k)).unwrap().is_empty());
    // the number chooses what is listed
    let asked = |n: i32| {
        let mut replies = Replies::new();
        loop {
            match s.list_refs(Some(&r), n, "", &replies) {
                Step::Ask(calls) => {
                    for call in calls {
                        if let HostCall::References { filter } = &call {
                            return *filter;
                        }
                        let reply = host(&call);
                        replies.record(call, reply);
                    }
                }
                _ => panic!("references are asked for"),
            }
        }
    };
    assert_eq!(asked(0), None);
    assert_eq!(asked(1), Some(RefType::Branch));
    assert_eq!(asked(2), Some(RefType::Tag));
    assert_eq!(asked(3), Some(RefType::Remote));
    assert_eq!(asked(-1), None);

    assert_eq!(
        run(|k| s.resolve_ref(Some(&r), "main", k)).unwrap(),
        (oid('9'), "main".to_string())
    );
    assert_eq!(
        refusal(run(|k| s.resolve_ref(Some(&r), "x", k))),
        (Code::NotFound, "Reference not found: x".to_string())
    );
    let branch = run(|k| s.create_branch(Some(&r), "b", "main", k)).unwrap();
    assert_eq!((branch.name.as_str(), branch.oid), ("refs/heads/b", oid('9')));
    let tag = run(|k| s.create_tag(Some(&r), "t", "old", Some("m"), None, k)).unwrap();
    assert_eq!((tag.name.as_str(), tag.oid, tag.ref_type), ("refs/tags/t", oid('8'), RefType::Tag));
    assert_eq!(
        refusal(run(|k| s.create_tag(Some(&r), "t", "x", None, None, k))),
        (Code::Internal, "Reference not found: x".to_string())
    );
    assert!(run(|k| s.delete_branch(Some(&r), "b", false, k)).unwrap());
    assert_eq!(
        refusal(run(|k| s.delete_branch(Some(&r), "main", false, k))),
        (Code::Internal, "Invalid reference: Cannot delete the default branch".to_string())
    );
    assert!(run(|k| s.delete_tag(Some(&r), "t", k)).unwrap());
    assert!(run(|k| s.set_default_branch(Some(&r), "b", k)).unwrap());
    assert_eq!(
        refusal(run(|k| s.set_default_branch(Some(&r), "missing", k))),
        (Code::Internal, "Reference not found: missing".to_string())
    );
}

#[test]
fn commits_are_served() {
    let s = service();
    let r = repository();
    let commit = run(|k| s.get_commit(Some(&r), &oid('9'), k)).unwrap();
    assert_eq!((commit.oid, commit.message.as_str(), commit.tree_oid), (oid('9'), "tree b", oid('b')));
    assert_eq!(commit.parent_oids, vec![oid('8')]);
    let author = commit.author.unwrap();
    assert_eq!((author.name.as_str(), author.timestamp, author.offset_minutes), ("ann", 7, -60));
    assert_eq!(commit.committer.unwrap().email, "bob@example.com");
    assert_eq!(
        refusal(run(|k| s.get_commit(Some(&r), "x", k))),
        (Code::NotFound, "Object not found: x".to_string())
    );
    let log = run(|k| s.get_commit_log(Some(&r), "main", 0, 0, None, k)).unwrap();
    assert_eq!(log.iter().map(|c| c.oid.clone()).collect::<Vec<_>>(), vec![oid('9'), oid('8')]);
    assert_eq!(run(|k| s.get_commit_log(Some(&r), "main", 1, 1, None, k)).unwrap()[0].oid, oid('8'));
    assert_eq!(
        refusal(run(|k| s.get_commit_log(Some(&r), "x", 0, 0, None, k))),
        (Code::Internal, "Reference not found: x".to_string())
    );
    let above = run(|k| s.get_commit_ancestors(Some(&r), &oid('9'), 0, k)).unwrap();
    assert_eq!(above.len(), 1);
    assert_eq!(above[0].oid, oid('8'));
}

#[test]
fn trees_and_files_are_served() {
    let s = service();
    let r = repository();
    let flat = run(|k| s.get_tree(Some(&r), "main", "", false, k)).unwrap();
    assert_eq!(flat.tree_oid, "");
    let rows: Vec<(&str, TreeEntryMode, TreeEntryType, Option<u64>)> =
        flat.entries.iter().map(|e| (e.name.as_str(), e.mode, e.entry_type, e.size)).collect();
    assert_eq!(
        rows,
        vec![
            ("d", TreeEntryMode::Tree, TreeEntryType::Tree, None),
            ("f", TreeEntryMode::File, TreeEntryType::Blob, Some(4)),
        ]
    );
    let deep = run(|k| s.get_tree(Some(&r), "main", "", true, k)).unwrap();
    assert_eq!(
        deep.entries.iter().map(|e| e.name.as_str()).collect::<Vec<_>>(),
        vec!["f", "d", "g"]
    );
    assert_eq!(
        refusal(run(|k| s.get_tree(Some(&r), "main", "f", true, k))),
        (Code::Internal, "Invalid reference: f is not a directory".to_string())
    );

    let chunks = run(|k| s.get_blob(Some(&r), &oid('3'), k)).unwrap();
    assert_eq!(chunks.len(), 2);
    assert_eq!((chunks[0].data.len(), chunks[0].is_last), (65536, false));
    assert_eq!((chunks[1].data.len(), chunks[1].is_last), (1, true));
    assert_eq!(
        refusal(run(|k| s.get_blob(Some(&r), &oid('5'), k))),
        (Code::NotFound, format!("Object not found: {}", oid('5')))
    );

    let info = run(|k| s.get_blob_info(Some(&r), "main", "f", k)).unwrap();
    assert_eq!((info.oid.as_str(), info.size, info.is_binary), ("", 4, false));
    assert!(info.mime_type.is_none());
    let image = run(|k| s.get_blob_info(Some(&r), "main", "p.png", k)).unwrap();
    assert_eq!((image.size, image.is_binary), (6, true));
    assert_eq!(
        refusal(run(|k| s.get_blob_info(Some(&r), "main", "x", k))),
        (Code::NotFound, "Object not found: x".to_string())
    );
}

#[test]
fn chunks_make_up_the_file() {
    assert!(split_blob(&vec![]).is_empty());
    for n in [1usize, 65535, 65536, 65537, 200000] {
        let data: Vec<u8> = (0..n).map(|i| (i % 251) as u8).collect();
        let chunks = split_blob(&data);
        assert_eq!(chunks.iter().filter(|c| c.is_last).count(), 1);
        assert!(chunks.last().unwrap().is_last);
        let joined: Vec<u8> = chunks.into_iter().flat_map(|c| c.data).collect();
        assert_eq!(joined, data);
    }
}

#[test]
fn differences_are_served() {
    let s = service();
    let r = repository();
    let entries = run(|k| s.get_diff(Some(&r), "old", "main", None, k)).unwrap();
    assert_eq!(entries.len(), 1);
    assert_eq!((entries[0].path.as_str(), entries[0].status), ("f", DiffStatus::Modified));
    assert_eq!((entries[0].additions, entries[0].deletions), (1, 0));
    assert_eq!((entries[0].old_oid.clone(), entries[0].new_oid.clone()), (oid('1'), oid('2')));

    let file = run(|k| s.get_file_diff(Some(&r), "old", "main", "f", 0, k)).unwrap();
    assert_eq!((file.path.as_str(), file.status, file.is_binary), ("f", DiffStatus::Modified, false));
    assert_eq!(file.hunks.len(), 1);
    assert_eq!(file.hunks[0].header, "@@ -1,1 +1,2 @@");
    let last = &file.hunks[0].lines[1];
    assert_eq!((last.line_type, last.content.as_str()), (DiffLineType::Addition, "y"));
    assert_eq!((last.old_line_number, last.new_line_number), (None, Some(2)));
    assert_eq!(
        refusal(run(|k| s.get_file_diff(Some(&r), "old", "main", "other", 0, k))),
        (Code::NotFound, "File not in diff".to_string())
    );
    assert_eq!(
        refusal(run(|k| s.get_diff(Some(&r), "x", "main", None, k))),
        (Code::Internal, "Reference not found: x".to_string())
    );
}

#[test]
fn merges_are_served() {
    let s = service();
    let r = repository();
    let forward = run(|k| s.merge(Some(&r), "old", "main", None, None, k)).unwrap();
    assert_eq!((forward.success, forward.merge_commit_oid), (true, Some(oid('9'))));
    let conflict = run(|k| s.merge(Some(&r), "main", "side", None, Some("m"), k)).unwrap();
    assert_eq!((conflict.success, conflict.merge_commit_oid), (false, None));
    assert_eq!(conflict.conflicts.len(), 1);
    let c = &conflict.conflicts[0];
    assert_eq!(
        (c.path.as_str(), &c.base_oid, &c.ours_oid, &c.theirs_oid),
        ("f", &oid('1'), &oid('2'), &oid('3'))
    );
    let rebased = run(|k| s.rebase(Some(&r), "main", "side", k)).unwrap();
    assert!(rebased.success);
    assert_eq!(rebased.rewritten_commits, vec![oid('9')]);
    assert!(rebased.conflicts.is_empty());

    let picked =
        run(|k| s.cherry_pick(Some(&r), &vec!["main".to_string()], "old", k)).unwrap();
    assert!(picked.success);
    assert!(picked.new_commit_oids.is_empty());
    // nothing is picked after a conflict, not even what does not exist
    let stopped = run(|k| {
        s.cherry_pick(Some(&r), &vec!["main".to_string(), "x".to_string()], "side", k)
    })
    .unwrap();
    assert!(!stopped.success);
    assert_eq!(stopped.conflicts.len(), 1);
    assert_eq!(
        refusal(run(|k| {
            s.cherry_pick(Some(&r), &vec!["main".to_string(), "x".to_string()], "old", k)
        })),
        (Code::Internal, "Reference not found: x".to_string())
    );
    assert_eq!(
        run(|k| s.check_objects_exist(Some(&r), &vec![oid('1'), oid('4')], k)).unwrap(),
        vec![(oid('1'), true), (oid('4'), false)]
    );
}

#[test]
fn a_merge_without_an_author_is_the_daemons() {
    let default = merge_author(None, 42);
    assert_eq!((default.name.as_str(), default.email.as_str()), ("arbor-git", "git@arbor.dev"));
    assert_eq!((default.timestamp, default.offset_minutes), (42, 0));
    let given = merge_author(
        Some(GitSignature {
            name: "ann".to_string(),
            email: "a@b".to_string(),
            timestamp: 1,
            offset_minutes: 2,
        }),
        42,
    );
    assert_eq!((given.name.as_str(), given.timestamp, given.offset_minutes), ("ann", 1, 2));
}

#[test]
fn values_become_messages() {
    assert_eq!(entry_mode_to_proto(0o100644), TreeEntryMode::File);
    assert_eq!(entry_mode_to_proto(0o100755), TreeEntryMode::Executable);
    assert_eq!(entry_mode_to_proto(0o120000), TreeEntryMode::Symlink);
    assert_eq!(entry_mode_to_proto(0o040000), TreeEntryMode::Tree);
    assert_eq!(entry_mode_to_proto(0o160000), TreeEntryMode::Submodule);
    assert_eq!(entry_mode_to_proto(0o100664), TreeEntryMode::Unspecified);
    assert_eq!(entry_type_to_proto(EntryType::Link), TreeEntryType::Blob);
    assert_eq!(entry_type_to_proto(EntryType::Commit), TreeEntryType::Commit);
    assert_eq!(file_status_to_proto(FileStatus::TypeChanged), DiffStatus::TypeChanged);
    assert_eq!(file_status_to_proto(FileStatus::Copied), DiffStatus::Copied);
    assert_eq!(line_type_to_proto(LineType::Deletion), DiffLineType::Deletion);
    for n in [0u32, 1, 0x7fff_ffff, 0x8000_0000, u32::MAX] {
        assert_eq!(to_signed(n), n as i32);
    }
}

fn first(init: PackInit) -> Option<PackRequest> {
    Some(PackRequest::Init(init))
}

fn plain_init(repository: Option<RepositoryPath>) -> PackInit {
    PackInit { repository, ref_patterns: None, path_patterns: None, protected_patterns: None }
}

#[test]
fn fetches_run_git_on_the_repository() {
    let s = service();
    let command = run(|k| s.upload_pack(first(plain_init(Some(repository()))), k)).unwrap();
    assert_eq!(command.args, vec!["upload-pack", "--stateless-rpc", "/srv/o/r.git"]);
    assert!(command.env.is_empty());
    let bad = |message: Option<PackRequest>| refusal(run(|k| s.upload_pack(message.clone(), k)));
    let invalid = |words: &str| (Code::InvalidArgument, words.to_string());
    assert_eq!(bad(None), invalid("missing init message"));
    assert_eq!(bad(Some(PackRequest::Data(vec![1]))), invalid("first message must be init"));
    assert_eq!(bad(first(plain_init(None))), invalid("missing repository"));
    let nope = RepositoryPath { owner: "o".to_string(), name: "nope".to_string() };
    assert_eq!(
        bad(first(plain_init(Some(nope)))),
        (Code::NotFound, "repository not found".to_string())
    );
}

#[test]
fn upload_pack_rejects_a_missing_repository() {
    let s = service();
    let nope = RepositoryPath { owner: "o".to_string(), name: "nope".to_string() };
    let result = run(|k| s.upload_pack(first(plain_init(Some(nope.clone()))), k));
    assert!(result.is_err());
}

#[test]
fn pushes_run_the_hook_where_they_are_bounded() {
    let s = service();
    let plain = run(|k| s.receive_pack("/bin/arbor", first(plain_init(Some(repository()))), k)).unwrap();
    assert_eq!(plain.args, vec!["receive-pack", "--stateless-rpc", "/srv/o/r.git"]);
    assert!(plain.env.is_empty());

    let refs = vec!["refs/heads/agent/*".to_string(), "a\"b\\c\u{e9}\n".to_string()];
    let mut init = plain_init(Some(repository()));
    init.ref_patterns = Some(refs.clone());
    init.protected_patterns = Some(vec![]);
    let bounded = run(|k| s.receive_pack("/bin/arbor", first(init.clone()), k)).unwrap();
    assert_eq!(
        bounded.args,
        vec![
            "-c",
            "core.hooksPath=/srv/.arbor-hooks",
            "receive-pack",
            "--stateless-rpc",
            "/srv/o/r.git"
        ]
    );
    let names: Vec<&str> = bounded.env.iter().map(|(name, _)| name.as_str()).collect();
    assert_eq!(names, vec!["ARBOR_GIT_BIN", "ARBOR_REF_PATTERNS", "ARBOR_PROTECTED_REF_PATTERNS"]);
    assert_eq!(bounded.env[0].1, "/bin/arbor");
    assert_eq!(bounded.env[1].1, "[\"refs/heads/agent/*\",\"a\\\"b\\\\c\u{e9}\\n\"]");
    // the hook reads what the push was given
    assert_eq!(parse_patterns(Some(&bounded.env[1].1)), Some(refs));
    assert_eq!(bounded.env[2].1, "[]");
    assert_eq!(
        refusal(run(|k| s.receive_pack("/bin/arbor", None, k))),
        (Code::InvalidArgument, "missing init message".to_string())
    );
}

#[test]
fn later_messages_are_forwarded() {
    assert_eq!(forward(Some(PackRequest::Data(vec![1, 2]))), Some(vec![1, 2]));
    assert_eq!(forward(first(plain_init(None))), None);
    assert_eq!(forward(None), None);
}

#[test]
fn failures_of_git_are_told() {
    let spawn = spawn_failure("upload-pack", "not found");
    assert_eq!(spawn.code, Code::Internal);
    assert_eq!(spawn.message, "failed to spawn git upload-pack: not found");
    assert!(exit_failure("upload-pack", true, "exit status: 0", "").is_none());
    assert_eq!(
        exit_failure("receive-pack", false, "exit status: 1", "no").unwrap().message,
        "git receive-pack exited with exit status: 1: no"
    );
}

/// What the caller sees while events happen.
fn pumped(events: Vec<OutputEvent>) -> (Vec<Result<Vec<u8>, String>>, OutputState) {
    let mut state = OutputState::Reading;
    let mut seen = Vec::new();
    for event in events {
        let (next, action) = next_output("upload-pack", state, event);
        state = next;
        match action {
            OutputAction::Send(data) => seen.push(Ok(data)),
            OutputAction::Fail(status) => seen.push(Err(status.message)),
            _ => {}
        }
    }
    (seen, state)
}

#[test]
fn all_that_git_prints_is_shown() {
    let exit = |success: bool| OutputEvent::Exited {
        success,
        status: "exit status: 128".to_string(),
        stderr: "fatal".to_string(),
    };
    let printed = |last: OutputEvent| {
        pumped(vec![
            OutputEvent::Read(vec![1]),
            OutputEvent::Sent,
            OutputEvent::Read(vec![2, 3]),
            OutputEvent::Sent,
            OutputEvent::Read(vec![]),
            last,
        ])
    };
    let pieces = vec![Ok(vec![1]), Ok(vec![2, 3])];
    assert_eq!(printed(exit(true)), (pieces.clone(), OutputState::Ended));
    let mut failed = pieces.clone();
    failed.push(Err("git upload-pack exited with exit status: 128: fatal".to_string()));
    assert_eq!(printed(exit(false)).0, failed);
    let mut lost = pieces;
    lost.push(Err("no child".to_string()));
    assert_eq!(printed(OutputEvent::WaitFailed("no child".to_string())).0, lost);
}

#[test]
fn a_failure_to_read_comes_last() {
    let (seen, state) = pumped(vec![
        OutputEvent::ReadFailed("broken".to_string()),
        OutputEvent::Read(vec![1]),
        OutputEvent::Sent,
    ]);
    assert_eq!(seen, vec![Err("broken".to_string())]);
    assert_eq!(state, OutputState::Ended);
    // a caller that is gone sees nothing more
    let gone = pumped(vec![OutputEvent::Read(vec![1]), OutputEvent::Dropped, OutputEvent::Read(vec![2])]);
    assert_eq!(gone.0, vec![Ok(vec![1])]);
}

#[test]
fn all_that_the_caller_sends_is_written() {
    assert!(matches!(
        next_input(InputEvent::Received(Some(vec![1, 2]))),
        InputAction::Write(data) if data == vec![1, 2]
    ));
    assert!(matches!(next_input(InputEvent::Written), InputAction::Receive));
    assert!(matches!(next_input(InputEvent::Received(None)), InputAction::Close));
    assert!(matches!(next_input(InputEvent::WriteFailed), InputAction::Close));
}
