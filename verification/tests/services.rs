use std::collections::{BTreeMap, BTreeSet};

use arbor_git::git::commits::{CommitService, GitActor};
use arbor_git::git::diff::{DiffService, FileStatus};
use arbor_git::git::objects::{CommitRecord, TreeItem};
use arbor_git::git::operations::{
    merge_changes, CherryPickStatus, ConflictInfo, MergeStatus, OperationsService, RebaseStatus,
};
use arbor_git::git::refs::{determine_ref_type, glob_match, RefService, RefType};
use arbor_git::git::repository::RepositoryService;
use arbor_git::git::trees::{EntryType, TreeService};
use arbor_git::git::GitError;
use arbor_git::host::{DirNode, HostCall, Outcome, RawRef, Replies, Reply, Step, TreeChange};
use arbor_git::StorageConfig;

/// A machine that lives in memory.
#[derive(Default)]
struct Machine {
    paths: BTreeSet<String>,
    revisions: BTreeMap<String, String>,
    commits: BTreeMap<String, CommitRecord>,
    trees: BTreeMap<String, Vec<(String, u16, String)>>,
    blobs: BTreeMap<String, Vec<u8>>,
    references: BTreeMap<String, String>,
    head: Option<String>,
    bases: BTreeMap<(String, String), String>,
    changes: BTreeMap<(String, String), Vec<TreeChange>>,
    broken: Option<&'static str>,
    done: Vec<String>,
}

fn lost<T>() -> Outcome<T> {
    Outcome::Error("lost".to_string())
}

fn parent(path: &str) -> String {
    match path.rfind('/') {
        Some(i) => path[..i].to_string(),
        None => String::new(),
    }
}

impl Machine {
    fn with_repository() -> Machine {
        let mut machine = Machine::default();
        for path in ["/srv", "/srv/o", "/srv/o/r.git", "/srv/o/r.git/HEAD"] {
            machine.paths.insert(path.to_string());
        }
        machine.head = Some("refs/heads/main".to_string());
        machine
    }

    fn effect(&mut self, what: String) -> Reply {
        if let Some(broken) = self.broken {
            if what.starts_with(broken) {
                return Reply::Effect(Some("denied".to_string()));
            }
        }
        self.done.push(what);
        Reply::Effect(None)
    }

    fn item(&self, entry: &(String, u16, String)) -> TreeItem {
        TreeItem { name: entry.0.clone(), mode: entry.1, oid: entry.2.clone() }
    }

    fn at(&self, tree: &str, path: &str) -> Option<TreeItem> {
        let mut tree = tree.to_string();
        let mut found = None;
        for part in path.split('/') {
            let entry = self.trees.get(&tree)?.iter().find(|e| e.0 == part)?;
            tree = entry.2.clone();
            found = Some(self.item(entry));
        }
        found
    }

    fn walk(&self, start: &str) -> Vec<String> {
        let mut seen = Vec::new();
        let mut next = Some(start.to_string());
        while let Some(oid) = next {
            next = self.commits.get(&oid).and_then(|c| c.parents.first().cloned());
            seen.push(oid);
        }
        seen
    }

    fn perform(&mut self, call: &HostCall) -> Reply {
        match call {
            HostCall::PathExists { path } => Reply::Flag(self.paths.contains(path)),
            HostCall::PathWritable { .. } => panic!("no service asks whether it may write"),
            HostCall::OpenRepository { path } => {
                if self.broken == Some("open") {
                    Reply::Effect(Some(format!("{path} is broken")))
                } else {
                    Reply::Effect(None)
                }
            }
            HostCall::Revision { spec } => Reply::Id(self.revisions.get(spec).cloned()),
            HostCall::Commit { oid } => Reply::Commit(match self.commits.get(oid) {
                Some(record) => Outcome::Got(record.clone()),
                None => lost(),
            }),
            HostCall::Tree { oid } => Reply::Tree(match self.trees.get(oid) {
                Some(entries) => {
                    Outcome::Got(entries.iter().map(|e| Outcome::Got(self.item(e))).collect())
                }
                None => lost(),
            }),
            HostCall::Blob { oid } => Reply::Blob(match self.blobs.get(oid) {
                Some(data) => Outcome::Got(data.clone()),
                None => lost(),
            }),
            HostCall::BlobSize { oid } => {
                Reply::Count(self.blobs.get(oid).map(|data| data.len() as u64))
            }
            HostCall::ObjectExists { oid } => Reply::Flag(
                self.blobs.contains_key(oid)
                    || self.trees.contains_key(oid)
                    || self.commits.contains_key(oid),
            ),
            HostCall::EntryAt { tree, path } => {
                if path.contains("//") {
                    Reply::Entry(lost())
                } else {
                    Reply::Entry(Outcome::Got(self.at(tree, path)))
                }
            }
            HostCall::MergeBase { one, two } => {
                Reply::Text(match self.bases.get(&(one.clone(), two.clone())) {
                    Some(base) => Outcome::Got(base.clone()),
                    None => lost(),
                })
            }
            HostCall::TreeChanges { old, new } => {
                Reply::Changes(match self.changes.get(&(old.clone(), new.clone())) {
                    Some(changes) => Outcome::Got(changes.clone()),
                    None => lost(),
                })
            }
            HostCall::References { filter } => {
                let listed = self
                    .references
                    .iter()
                    .filter(|(name, _)| match filter {
                        Some(RefType::Branch) => name.starts_with("refs/heads/"),
                        Some(RefType::Tag) => name.starts_with("refs/tags/"),
                        Some(RefType::Remote) => name.starts_with("refs/remotes/"),
                        None => true,
                    })
                    .map(|(name, oid)| {
                        Outcome::Got(RawRef {
                            name: name.clone(),
                            peeled: if oid.is_empty() { lost() } else { Outcome::Got(oid.clone()) },
                        })
                    })
                    .collect();
                Reply::References(Outcome::Got(listed))
            }
            HostCall::Head => Reply::Id(self.head.clone()),
            HostCall::HeadId => Reply::Id(
                self.head.as_ref().and_then(|name| self.references.get(name)).cloned(),
            ),
            HostCall::FindReference { name } => {
                let full = format!("refs/heads/{name}");
                Reply::Id(if self.references.contains_key(name) {
                    Some(name.clone())
                } else if self.references.contains_key(&full) {
                    Some(full)
                } else {
                    None
                })
            }
            HostCall::CreateReference { name, target, log } => {
                if self.references.contains_key(name) {
                    return Reply::Effect(Some(format!("{name} exists")));
                }
                self.references.insert(name.clone(), target.clone());
                self.effect(format!("create {name} {target} {log}"))
            }
            HostCall::DeleteReference { name } => {
                self.references.remove(name);
                self.effect(format!("delete {name}"))
            }
            HostCall::WriteFile { path, contents } => {
                self.paths.insert(path.clone());
                self.effect(format!("write {path} {contents}"))
            }
            HostCall::CreateDirectory { path } | HostCall::MakeExecutable { path } => {
                self.effect(format!("touch {path}"))
            }
            HostCall::Walk { start, until, limit } => {
                let mut steps = self.walk(start);
                if let Some(oid) = until {
                    if let Some(n) = steps.iter().position(|step| step == oid) {
                        steps.truncate(n + 1);
                    }
                }
                if let Some(n) = limit {
                    steps.truncate(*n as usize);
                }
                Reply::Walk(Outcome::Got(steps.into_iter().map(Outcome::Got).collect()))
            }
            HostCall::CountReferences { kind } => {
                let prefix = match kind {
                    RefType::Branch => "refs/heads/",
                    RefType::Tag => "refs/tags/",
                    RefType::Remote => "refs/remotes/",
                };
                let n = self.references.keys().filter(|name| name.starts_with(prefix)).count();
                Reply::Count(Some(n as u64))
            }
            HostCall::CountCommits { start } => Reply::Count(Some(self.walk(start).len() as u64)),
            HostCall::DirectoryTree { path } => Reply::Directory(if self.paths.contains(path) {
                Outcome::Got(DirNode::Directory(vec![
                    DirNode::File(3),
                    DirNode::Directory(vec![DirNode::File(4), DirNode::Directory(vec![])]),
                ]))
            } else {
                lost()
            }),
            HostCall::CreateParent { path } => {
                self.paths.insert(parent(path));
                self.effect(format!("mkdir {}", parent(path)))
            }
            HostCall::InitBare { path } => {
                self.paths.insert(path.clone());
                self.effect(format!("init {path}"))
            }
            HostCall::Rename { from, to } => {
                let below = format!("{from}/");
                let (moved, kept): (Vec<String>, Vec<String>) = std::mem::take(&mut self.paths)
                    .into_iter()
                    .partition(|p| p == from || p.starts_with(&below));
                self.paths.extend(kept);
                self.paths.extend(moved.iter().map(|p| format!("{to}{}", &p[from.len()..])));
                self.effect(format!("rename {from} {to}"))
            }
            HostCall::RemoveDirectory { path } => {
                let below = format!("{path}/");
                self.paths.retain(|p| p != path && !p.starts_with(&below));
                self.effect(format!("remove {path}"))
            }
            HostCall::ParentIsEmpty { path } => {
                let below = format!("{}/", parent(path));
                Reply::Answer(Outcome::Got(!self.paths.iter().any(|p| p.starts_with(&below))))
            }
            HostCall::RemoveParent { path } => {
                self.paths.remove(&parent(path));
                self.effect(format!("rmdir {}", parent(path)))
            }
            HostCall::Git { .. } => panic!("no service runs git"),
        }
    }

    fn run<T, E>(&mut self, op: impl Fn(&Replies) -> Step<T, E>) -> Result<T, E> {
        let mut replies = Replies::new();
        let mut known: BTreeSet<String> = BTreeSet::new();
        for _ in 0..100 {
            match op(&replies) {
                Step::Done(value) => return Ok(value),
                Step::Failed(error) => return Err(error),
                Step::Ask(calls) => {
                    // what is asked for is not known yet
                    assert!(!calls.is_empty());
                    assert!(calls.iter().all(|call| !known.contains(&format!("{call:?}"))));
                    known.extend(calls.iter().map(|call| format!("{call:?}")));
                    for call in calls {
                        let reply = self.perform(&call);
                        replies.record(call, reply);
                    }
                }
            }
        }
        panic!("the operation does not end");
    }
}

fn config() -> StorageConfig {
    StorageConfig { base_path: "/srv".to_string(), ..StorageConfig::default() }
}

fn message<T>(result: Result<T, GitError>) -> String {
    match result {
        Ok(_) => "ok".to_string(),
        Err(error) => error.message(),
    }
}

fn oid(c: char) -> String {
    c.to_string().repeat(40)
}

fn actor(name: &str) -> GitActor {
    GitActor {
        name: name.to_string(),
        email: format!("{name}@example.com"),
        timestamp: 1700000000,
        offset_minutes: 60,
    }
}

fn commit(tree: &str, parents: &[String], title: &str) -> CommitRecord {
    CommitRecord {
        tree: Outcome::Got(tree.to_string()),
        parents: parents.to_vec(),
        author: Some(actor("ann")),
        committer: Some(actor("bob")),
        title: title.to_string(),
    }
}

fn entry(name: &str, mode: u16, oid: String) -> (String, u16, String) {
    (name.to_string(), mode, oid)
}

/// Three commits in a row: a file, another file beside a directory, and a changed file.
fn history() -> Machine {
    let mut machine = Machine::with_repository();
    machine.blobs.insert(oid('1'), b"one\n".to_vec());
    machine.blobs.insert(oid('2'), b"one\ntwo\n".to_vec());
    machine.blobs.insert(oid('3'), vec![0, 1, 2]);
    machine.trees.insert(oid('a'), vec![entry("a.txt", 0o100644, oid('1'))]);
    machine.trees.insert(oid('d'), vec![entry("b.bin", 0o100755, oid('3'))]);
    machine.trees.insert(
        oid('b'),
        vec![entry("a.txt", 0o100644, oid('1')), entry("sub", 0o040000, oid('d'))],
    );
    machine.trees.insert(
        oid('c'),
        vec![entry("a.txt", 0o100644, oid('2')), entry("sub", 0o040000, oid('d'))],
    );
    machine.commits.insert(oid('7'), commit(&oid('a'), &[], "first"));
    machine.commits.insert(oid('8'), commit(&oid('b'), &[oid('7')], "second"));
    machine.commits.insert(oid('9'), commit(&oid('c'), &[oid('8')], "third"));
    machine.references.insert("refs/heads/main".to_string(), oid('9'));
    machine.references.insert("refs/heads/old".to_string(), oid('8'));
    machine.references.insert("refs/tags/v1".to_string(), oid('7'));
    for (spec, c) in [("main", '9'), ("old", '8'), ("v1", '7')] {
        machine.revisions.insert(spec.to_string(), oid(c));
    }
    machine.changes.insert(
        (oid('b'), oid('c')),
        vec![TreeChange::Modification {
            path: "a.txt".to_string(),
            old_mode: 0o100644,
            old_oid: oid('1'),
            mode: 0o100644,
            oid: oid('2'),
        }],
    );
    machine.changes.insert(
        (oid('a'), oid('c')),
        vec![
            TreeChange::Modification {
                path: "a.txt".to_string(),
                old_mode: 0o100644,
                old_oid: oid('1'),
                mode: 0o100755,
                oid: oid('2'),
            },
            moved("was.txt", "moved.txt"),
            TreeChange::Addition { path: "sub/b.bin".to_string(), mode: 0o100755, oid: oid('3') },
            TreeChange::Deletion { path: "gone.txt".to_string(), mode: 0o100644, oid: oid('1') },
        ],
    );
    machine
}

// ---------------------------------------------------------------- repositories

#[test]
fn test_init_and_exists() {
    let mut machine = Machine::default();
    let service = RepositoryService::new(config());

    assert!(!machine.run(|k| service.repository_exists("testowner", "testrepo", k)).unwrap());

    let path = machine.run(|k| service.init("testowner", "testrepo", Some("main"), k)).unwrap();
    assert!(machine.paths.contains(&path));
    assert!(machine.run(|k| service.repository_exists("testowner", "testrepo", k)).unwrap());

    assert_eq!(path, "/srv/testowner/testrepo.git");
    assert_eq!(
        machine.done,
        vec![
            "mkdir /srv/testowner",
            "init /srv/testowner/testrepo.git",
            "write /srv/testowner/testrepo.git/HEAD ref: refs/heads/main\n",
        ]
    );
}

#[test]
fn test_delete() {
    let mut machine = Machine::default();
    let service = RepositoryService::new(config());
    machine.run(|k| service.init("testowner", "testrepo", None, k)).unwrap();

    assert!(machine.run(|k| service.delete("testowner", "testrepo", k)).unwrap());
    assert!(!machine.run(|k| service.repository_exists("testowner", "testrepo", k)).unwrap());

    // the owner's directory is gone with the last repository
    assert!(!machine.paths.contains("/srv/testowner"));
    assert!(!machine.run(|k| service.delete("testowner", "testrepo", k)).unwrap());
}

#[test]
fn an_existing_repository_is_not_overwritten() {
    let mut machine = Machine::with_repository();
    let service = RepositoryService::new(config());
    let again = machine.run(|k| service.init("o", "r", None, k));
    assert_eq!(message(again), "Repository already exists: o/r");
    assert!(machine.done.is_empty());
}

#[test]
fn a_new_repository_takes_the_configured_branch() {
    let mut machine = Machine::default();
    let mut settings = config();
    settings.default_branch = "trunk".to_string();
    let service = RepositoryService::new(settings);
    machine.run(|k| service.init("o", "r", None, k)).unwrap();
    assert_eq!(machine.done[2], "write /srv/o/r.git/HEAD ref: refs/heads/trunk\n");
}

#[test]
fn failures_of_a_new_repository_are_told() {
    let service = RepositoryService::new(config());
    for (broken, words) in [
        ("mkdir", "IO error: denied"),
        ("init", "Git error: denied"),
        ("write", "IO error: denied"),
    ] {
        let mut machine = Machine { broken: Some(broken), ..Machine::default() };
        assert_eq!(message(machine.run(|k| service.init("o", "r", None, k))), words);
    }
}

#[test]
fn other_repositories_keep_their_owner() {
    let mut machine = Machine::with_repository();
    machine.paths.insert("/srv/o/s.git".to_string());
    let service = RepositoryService::new(config());
    assert!(machine.run(|k| service.delete("o", "r", k)).unwrap());
    assert_eq!(machine.done, vec!["remove /srv/o/r.git"]);
    assert!(machine.paths.contains("/srv/o"));
    machine.broken = Some("remove");
    assert_eq!(message(machine.run(|k| service.delete("o", "s", k))), "IO error: denied");
}

#[test]
fn a_rename_never_overwrites() {
    let mut machine = Machine::with_repository();
    let service = RepositoryService::new(config());
    assert!(machine.run(|k| service.rename("o", "r", "r", k)).unwrap());
    assert!(!machine.run(|k| service.rename("o", "missing", "x", k)).unwrap());
    machine.paths.insert("/srv/o/s.git".to_string());
    assert!(!machine.run(|k| service.rename("o", "r", "s", k)).unwrap());
    assert!(machine.done.is_empty());
    assert!(machine.run(|k| service.rename("o", "r", "t", k)).unwrap());
    assert_eq!(machine.done, vec!["rename /srv/o/r.git /srv/o/t.git"]);
    assert!(machine.run(|k| service.repository_exists("o", "t", k)).unwrap());
    assert!(!machine.run(|k| service.repository_exists("o", "r", k)).unwrap());
    machine.broken = Some("rename");
    assert_eq!(message(machine.run(|k| service.rename("o", "t", "u", k))), "IO error: denied");
}

#[test]
fn what_there_is_to_say_of_a_repository() {
    let mut machine = history();
    let service = RepositoryService::new(config());
    let info = machine.run(|k| service.get_info("o", "r", k)).unwrap();
    assert_eq!((info.owner.as_str(), info.name.as_str()), ("o", "r"));
    assert_eq!(info.default_branch, "main");
    assert_eq!(info.size_bytes, 7);
    assert_eq!((info.commit_count, info.branch_count, info.tag_count), (3, 2, 1));
    assert_eq!(info.head_oid, Some(oid('9')));

    machine.head = None;
    let headless = machine.run(|k| service.get_info("o", "r", k)).unwrap();
    assert_eq!(headless.default_branch, "main");
    assert_eq!((headless.commit_count, headless.head_oid), (0, None));

    assert_eq!(message(machine.run(|k| service.get_info("o", "x", k))), "Repository not found: o/x");
    machine.broken = Some("open");
    assert_eq!(
        message(machine.run(|k| service.get_info("o", "r", k))),
        "Git error: /srv/o/r.git is broken"
    );
}

// ---------------------------------------------------------------- references

#[test]
fn test_glob_match() {
    assert!(glob_match("main", "*"));
    assert!(glob_match("feature/test", "feature/*"));
    assert!(glob_match("test-branch", "*-branch"));
    assert!(glob_match("main", "main"));
    assert!(!glob_match("main", "develop"));
}

#[test]
fn test_determine_ref_type() {
    assert_eq!(determine_ref_type("refs/heads/main"), RefType::Branch);
    assert_eq!(determine_ref_type("refs/tags/v1.0.0"), RefType::Tag);
    assert_eq!(
        determine_ref_type("refs/remotes/origin/main"),
        RefType::Remote
    );
}

#[test]
fn other_references_count_as_branches() {
    assert_eq!(determine_ref_type("refs/notes/commits"), RefType::Branch);
    assert_eq!(determine_ref_type("HEAD"), RefType::Branch);
}

#[test]
fn a_star_in_the_middle_is_literal() {
    assert!(glob_match("a*b", "a*b"));
    assert!(!glob_match("axb", "a*b"));
    assert!(glob_match("abc", "abc*"));
    assert!(glob_match("", "*"));
    assert!(!glob_match("x", ""));
}

#[test]
fn references_are_listed() {
    let mut machine = history();
    machine.references.insert("refs/remotes/origin/main".to_string(), oid('9'));
    machine.references.insert("refs/notes/commits".to_string(), oid('9'));
    let service = RefService::new(config());
    let mut list = |filter: Option<RefType>, pattern: Option<&str>| -> Vec<(String, String, bool)> {
        machine
            .run(|k| service.list_refs("o", "r", filter, pattern, k))
            .unwrap()
            .into_iter()
            .map(|r| (r.name, r.short_name, r.is_default))
            .collect()
    };
    let row = |name: &str, short: &str, default: bool| (name.to_string(), short.to_string(), default);
    assert_eq!(
        list(None, None),
        vec![
            row("refs/heads/main", "main", true),
            row("refs/heads/old", "old", false),
            row("refs/notes/commits", "notes/commits", false),
            row("refs/remotes/origin/main", "origin/main", false),
            row("refs/tags/v1", "v1", false),
        ]
    );
    assert_eq!(list(Some(RefType::Tag), None), vec![row("refs/tags/v1", "v1", false)]);
    assert_eq!(list(None, Some("ma*")), vec![row("refs/heads/main", "main", true)]);
    assert_eq!(list(Some(RefType::Branch), Some("*/old")), vec![row("refs/heads/old", "old", false)]);
    assert_eq!(list(Some(RefType::Branch), Some("none")), vec![]);
}

#[test]
fn a_reference_to_nothing_fails_the_list_unless_it_is_left_out() {
    let mut machine = history();
    machine.references.insert("refs/heads/broken".to_string(), String::new());
    let service = RefService::new(config());
    assert_eq!(
        message(machine.run(|k| service.list_refs("o", "r", None, None, k))),
        "Git error: lost"
    );
    assert_eq!(machine.run(|k| service.list_refs("o", "r", None, Some("old"), k)).unwrap().len(), 1);
    assert_eq!(
        message(machine.run(|k| service.list_refs("o", "x", None, None, k))),
        "Repository not found: o/x"
    );
}

#[test]
fn revisions_are_resolved() {
    let mut machine = history();
    machine.revisions.insert("main~1".to_string(), oid('8'));
    let service = RefService::new(config());
    assert_eq!(
        machine.run(|k| service.resolve_ref("o", "r", "main", k)).unwrap(),
        (oid('9'), "refs/heads/main".to_string())
    );
    assert_eq!(
        machine.run(|k| service.resolve_ref("o", "r", "main~1", k)).unwrap(),
        (oid('8'), "main~1".to_string())
    );
    assert_eq!(
        message(machine.run(|k| service.resolve_ref("o", "r", "x", k))),
        "Reference not found: x"
    );
}

#[test]
fn branches_and_tags_are_created() {
    let mut machine = history();
    let service = RefService::new(config());
    let branch = machine.run(|k| service.create_branch("o", "r", "new", "old", k)).unwrap();
    assert_eq!(
        (branch.name.as_str(), branch.short_name.as_str(), branch.oid, branch.is_default),
        ("refs/heads/new", "new", oid('8'), false)
    );
    assert_eq!(branch.ref_type, RefType::Branch);
    let tag = machine.run(|k| service.create_tag("o", "r", "v2", "main", None, None, k)).unwrap();
    assert_eq!((tag.name.as_str(), tag.short_name.as_str(), tag.oid), ("refs/tags/v2", "v2", oid('9')));
    assert_eq!((tag.ref_type, tag.is_default), (RefType::Tag, false));
    assert_eq!(
        machine.done,
        vec![
            format!("create refs/heads/new {} branch: Created branch new", oid('8')),
            format!("create refs/tags/v2 {} tag: Created tag v2", oid('9')),
        ]
    );
    assert_eq!(
        message(machine.run(|k| service.create_branch("o", "r", "new", "old", k))),
        "Git error: refs/heads/new exists"
    );
    assert_eq!(
        message(machine.run(|k| service.create_tag("o", "r", "v3", "x", None, None, k))),
        "Reference not found: x"
    );
    machine.head = Some("refs/heads/fresh".to_string());
    assert!(machine.run(|k| service.create_branch("o", "r", "fresh", "old", k)).unwrap().is_default);
}

#[test]
fn the_default_branch_is_kept() {
    let mut machine = history();
    let service = RefService::new(config());
    for name in ["main", "refs/heads/main"] {
        assert_eq!(
            message(machine.run(|k| service.delete_branch("o", "r", name, false, k))),
            "Invalid reference: Cannot delete the default branch"
        );
    }
    assert!(machine.done.is_empty());
    assert!(machine.run(|k| service.delete_branch("o", "r", "old", false, k)).unwrap());
    assert!(machine.run(|k| service.delete_branch("o", "r", "main", true, k)).unwrap());
    assert_eq!(machine.done, vec!["delete refs/heads/old", "delete refs/heads/main"]);
    assert_eq!(
        message(machine.run(|k| service.delete_branch("o", "r", "main", true, k))),
        "Reference not found: main"
    );
    assert!(machine.run(|k| service.delete_tag("o", "r", "v1", k)).unwrap());
    assert_eq!(
        message(machine.run(|k| service.delete_tag("o", "r", "v1", k))),
        "Reference not found: v1"
    );
}

#[test]
fn the_default_branch_is_set_to_one_that_exists() {
    let mut machine = history();
    let service = RefService::new(config());
    machine.run(|k| service.set_default_branch("o", "r", "old", k)).unwrap();
    assert_eq!(machine.done, vec!["write /srv/o/r.git/HEAD ref: refs/heads/old\n"]);
    assert_eq!(
        message(machine.run(|k| service.set_default_branch("o", "r", "x", k))),
        "Reference not found: x"
    );
    machine.broken = Some("write");
    assert_eq!(
        message(machine.run(|k| service.set_default_branch("o", "r", "old", k))),
        "Git error: denied"
    );
}

// ---------------------------------------------------------------- commits

#[test]
fn a_commit_is_shown() {
    let mut machine = history();
    let service = CommitService::new(config());
    let info = machine.run(|k| service.get_commit("o", "r", &oid('8'), k)).unwrap();
    assert_eq!(info.oid, oid('8'));
    assert_eq!(info.message, "second");
    assert_eq!(info.author.name, "ann");
    assert_eq!(info.committer.email, "bob@example.com");
    assert_eq!(info.parent_oids, vec![oid('7')]);
    assert_eq!(info.tree_oid, oid('b'));
    for wrong in ["", "main", &oid('g'), &"8".repeat(39), &"8".repeat(64), &oid('5')] {
        assert_eq!(
            message(machine.run(|k| service.get_commit("o", "r", wrong, k))),
            format!("Object not found: {wrong}")
        );
    }
}

#[test]
fn ids_are_read_in_either_case() {
    let mut machine = history();
    machine.commits.insert(oid('a'), commit(&oid('a'), &[], "hex"));
    let service = CommitService::new(config());
    let info = machine.run(|k| service.get_commit("o", "r", &oid('A'), k)).unwrap();
    assert_eq!((info.oid, info.message.as_str()), (oid('a'), "hex"));
}

#[test]
fn the_log_is_paged() {
    let mut machine = history();
    let service = CommitService::new(config());
    let mut log = |limit: Option<u32>, skip: Option<u32>, path: Option<&str>| -> Vec<String> {
        machine
            .run(|k| service.get_log("o", "r", "main", limit, skip, path, k))
            .unwrap()
            .into_iter()
            .map(|c| c.message)
            .collect()
    };
    assert_eq!(log(None, None, None), vec!["third", "second", "first"]);
    assert_eq!(log(Some(2), None, None), vec!["third", "second"]);
    assert_eq!(log(Some(2), Some(2), None), vec!["first"]);
    assert_eq!(log(Some(0), None, None), Vec::<String>::new());
    assert_eq!(log(None, Some(9), None), Vec::<String>::new());
    assert_eq!(log(Some(u32::MAX), Some(u32::MAX), None), Vec::<String>::new());
    // the path must be there
    assert_eq!(log(None, None, Some("a.txt")), vec!["third", "second", "first"]);
    assert_eq!(log(None, None, Some("sub")), vec!["third", "second"]);
    assert_eq!(log(None, None, Some("none.txt")), Vec::<String>::new());
    assert_eq!(log(None, None, Some("a//b")), Vec::<String>::new());
}

#[test]
fn the_log_of_nothing_fails() {
    let mut machine = history();
    let service = CommitService::new(config());
    assert_eq!(
        message(machine.run(|k| service.get_log("o", "r", "x", None, None, None, k))),
        "Reference not found: x"
    );
    machine.commits.remove(&oid('7'));
    assert_eq!(
        message(machine.run(|k| service.get_log("o", "r", "main", None, None, None, k))),
        "Git error: lost"
    );
}

#[test]
fn ancestors_leave_the_commit_itself_out() {
    let mut machine = history();
    let service = CommitService::new(config());
    let mut above = |limit: Option<u32>| -> Vec<String> {
        machine
            .run(|k| service.get_ancestors("o", "r", &oid('9'), limit, k))
            .unwrap()
            .into_iter()
            .map(|c| c.message)
            .collect()
    };
    assert_eq!(above(None), vec!["second", "first"]);
    assert_eq!(above(Some(1)), vec!["second"]);
    assert_eq!(
        message(machine.run(|k| service.get_ancestors("o", "r", "main", None, k))),
        "Object not found: main"
    );
}

#[test]
fn only_complete_commits_can_be_shown() {
    let mut machine = history();
    machine.commits.get_mut(&oid('7')).unwrap().author = None;
    let service = CommitService::new(config());
    let known = |machine: &mut Machine, calls: Vec<HostCall>| {
        let mut replies = Replies::new();
        for call in calls {
            let reply = machine.perform(&call);
            replies.record(call, reply);
        }
        replies
    };
    let open = || {
        vec![
            HostCall::PathExists { path: "/srv/o/r.git".to_string() },
            HostCall::OpenRepository { path: "/srv/o/r.git".to_string() },
        ]
    };
    // what has not been found yet does not stand in the way
    assert!(service.shows_commit("o", "r", &oid('7'), &Replies::new()));
    let mut calls = open();
    calls.push(HostCall::Commit { oid: oid('7') });
    let one = known(&mut machine, calls);
    assert!(!service.shows_commit("o", "r", &oid('7'), &one));
    assert!(service.shows_commit("o", "r", &oid('8'), &one));

    let mut calls = open();
    calls.push(HostCall::Revision { spec: "main".to_string() });
    for limit in [2, 100, 101] {
        calls.push(HostCall::Walk { start: oid('9'), until: None, limit: Some(limit) });
    }
    for c in ['7', '8', '9'] {
        calls.push(HostCall::Commit { oid: oid(c) });
    }
    let all = known(&mut machine, calls);
    assert!(!service.shows_log("o", "r", "main", None, None, None, &all));
    assert!(service.shows_log("o", "r", "main", Some(2), None, None, &all));
    assert!(!service.shows_ancestors("o", "r", &oid('9'), None, &all));
    assert!(service.shows_ancestors("o", "r", &oid('9'), Some(1), &all));
}

#[test]
fn merge_bases_are_found() {
    let mut machine = history();
    machine.bases.insert((oid('9'), oid('8')), oid('8'));
    let service = CommitService::new(config());
    assert_eq!(
        machine.run(|k| service.find_merge_base("o", "r", &oid('9'), &oid('8'), k)).unwrap(),
        Some(oid('8'))
    );
    assert_eq!(
        message(machine.run(|k| service.find_merge_base("o", "r", &oid('8'), &oid('9'), k))),
        "Git error: lost"
    );
    assert_eq!(
        message(machine.run(|k| service.find_merge_base("o", "r", &oid('8'), "x", k))),
        "Object not found: x"
    );
}

// ---------------------------------------------------------------- trees

#[test]
fn trees_are_listed_directories_first() {
    let mut machine = history();
    let entry = |name: &str, mode: u16, oid: String| (name.to_string(), mode, oid);
    machine.trees.insert(
        oid('e'),
        vec![
            entry("b", 0o100644, oid('1')),
            entry("a", 0o100755, oid('5')),
            entry("z", 0o040000, oid('d')),
            entry("m", 0o160000, oid('7')),
            entry("l", 0o120000, oid('1')),
            entry("y", 0o040000, oid('d')),
        ],
    );
    machine.commits.insert(oid('6'), commit(&oid('e'), &[], "tree"));
    machine.revisions.insert("tree".to_string(), oid('6'));
    let service = TreeService::new(config());
    let entries = machine.run(|k| service.get_tree("o", "r", "tree", None, k)).unwrap();
    let rows: Vec<(&str, EntryType, Option<u64>, u32)> =
        entries.iter().map(|e| (e.path.as_str(), e.entry_type, e.size, e.mode)).collect();
    assert_eq!(
        rows,
        vec![
            ("y", EntryType::Tree, None, 0o040000),
            ("z", EntryType::Tree, None, 0o040000),
            ("a", EntryType::Blob, None, 0o100755),
            ("b", EntryType::Blob, Some(4), 0o100644),
            ("l", EntryType::Link, None, 0o120000),
            ("m", EntryType::Commit, None, 0o160000),
        ]
    );
}

#[test]
fn subtrees_are_listed_with_their_path() {
    let mut machine = history();
    let service = TreeService::new(config());
    let mut tree = |path: Option<&str>| {
        machine
            .run(|k| service.get_tree("o", "r", "main", path, k))
            .map(|list| list.into_iter().map(|e| e.path).collect::<Vec<String>>())
    };
    assert_eq!(tree(Some("")).unwrap(), vec!["sub", "a.txt"]);
    assert_eq!(tree(Some("/")).unwrap(), vec!["sub", "a.txt"]);
    assert_eq!(tree(Some("sub")).unwrap(), vec!["sub/b.bin"]);
    assert_eq!(message(tree(Some("a.txt"))), "Invalid reference: a.txt is not a directory");
    assert_eq!(message(tree(Some("none"))), "Object not found: none");
    assert_eq!(message(tree(Some("a//b"))), "Git error: lost");
}

#[test]
fn trees_are_walked_to_a_depth() {
    let mut machine = history();
    let service = TreeService::new(config());
    let mut walk = |revision: &str, depth: Option<u32>| -> Vec<String> {
        machine
            .run(|k| service.get_tree_recursive("o", "r", revision, None, depth, k))
            .unwrap()
            .into_iter()
            .map(|e| e.path)
            .collect()
    };
    assert_eq!(walk("main", None), vec!["a.txt", "sub", "sub/b.bin"]);
    assert_eq!(walk("main", Some(1)), vec!["a.txt", "sub", "sub/b.bin"]);
    assert_eq!(walk("main", Some(0)), vec!["a.txt", "sub"]);
    // a directory that cannot be read shows nothing of what it holds
    machine.trees.remove(&oid('d'));
    assert_eq!(
        machine
            .run(|k| service.get_tree_recursive("o", "r", "main", None, None, k))
            .unwrap()
            .len(),
        2
    );
    assert_eq!(
        machine
            .run(|k| service.get_tree_recursive("o", "r", "v1", Some("/"), Some(3), k))
            .unwrap()
            .len(),
        1
    );
}

#[test]
fn files_are_read() {
    let mut machine = history();
    let service = TreeService::new(config());
    assert_eq!(machine.run(|k| service.get_blob("o", "r", &oid('2'), k)).unwrap(), b"one\ntwo\n");
    assert_eq!(
        message(machine.run(|k| service.get_blob("o", "r", &oid('5'), k))),
        format!("Object not found: {}", oid('5'))
    );
    assert_eq!(
        machine.run(|k| service.get_blob_by_path("o", "r", "main", "sub/b.bin", k)).unwrap(),
        vec![0, 1, 2]
    );
    assert_eq!(
        message(machine.run(|k| service.get_blob_by_path("o", "r", "main", "sub", k))),
        "Invalid reference: sub is not a file"
    );
    assert_eq!(
        message(machine.run(|k| service.get_blob_by_path("o", "r", "main", "no", k))),
        "Object not found: no"
    );
    let info = machine.run(|k| service.get_blob_info("o", "r", &oid('3'), k)).unwrap();
    assert_eq!((info.oid, info.size, info.is_binary), (oid('3'), 3, true));
    let text = machine.run(|k| service.get_blob_info("o", "r", &oid('2'), k)).unwrap();
    assert_eq!((text.size, text.is_binary), (8, false));
}

// ---------------------------------------------------------------- differences

#[test]
fn two_commits_are_compared() {
    let mut machine = history();
    let service = DiffService::new(config());
    let diff = machine
        .run(|k| service.diff_commits("o", "r", "v1", "main", None, None, k))
        .unwrap();
    assert_eq!((diff.old_oid, diff.new_oid), (Some(oid('a')), Some(oid('c'))));
    let rows: Vec<(&str, FileStatus, bool, usize)> = diff
        .files
        .iter()
        .map(|f| (f.path.as_str(), f.status, f.is_binary, f.hunks.len()))
        .collect();
    assert_eq!(
        rows,
        vec![
            ("a.txt", FileStatus::TypeChanged, false, 1),
            ("moved.txt", FileStatus::Modified, false, 1),
            ("sub/b.bin", FileStatus::Added, true, 0),
            ("gone.txt", FileStatus::Deleted, false, 1),
        ]
    );
    assert_eq!((diff.files[0].old_mode, diff.files[0].new_mode), (Some(0o100644), Some(0o100755)));
    assert_eq!(diff.files[0].hunks[0].header, "@@ -1,1 +1,2 @@");
    assert_eq!(diff.files[0].old_path, None);
    assert_eq!(diff.files[1].old_path.as_deref(), Some("was.txt"));
    assert_eq!((&diff.files[1].old_oid, &diff.files[1].new_oid), (&Some(oid('1')), &Some(oid('2'))));
    assert_eq!(diff.files[1].hunks[0].header, "@@ -1,1 +1,2 @@");
    assert_eq!((diff.stats.files_changed, diff.stats.insertions, diff.stats.deletions), (4, 2, 1));
}

#[test]
fn a_path_confines_a_comparison() {
    let mut machine = history();
    let service = DiffService::new(config());
    let diff = machine
        .run(|k| service.diff_commits("o", "r", "v1", "main", Some("sub/"), None, k))
        .unwrap();
    assert_eq!(diff.files.len(), 1);
    assert_eq!(diff.stats.files_changed, 1);
    assert_eq!(diff.stats.insertions, 0);
}

#[test]
fn a_commit_is_compared_with_its_parent() {
    let mut machine = history();
    let service = DiffService::new(config());
    let diff = machine.run(|k| service.diff_commit("o", "r", "main", None, None, k)).unwrap();
    assert_eq!(diff.old_oid, Some(oid('b')));
    assert_eq!(diff.files.len(), 1);
    assert_eq!(diff.files[0].status, FileStatus::Modified);
    assert_eq!((diff.stats.insertions, diff.stats.deletions), (1, 0));
}

#[test]
fn a_first_commit_adds_everything() {
    let mut machine = history();
    machine.revisions.insert("root".to_string(), oid('6'));
    machine.commits.insert(oid('6'), commit(&oid('c'), &[], "root"));
    let service = DiffService::new(config());
    let first = machine.run(|k| service.diff_commit("o", "r", "root", None, None, k)).unwrap();
    let empty = machine
        .run(|k| service.diff_commits("o", "r", "", "root", None, None, k))
        .unwrap();
    for diff in [first, empty] {
        assert_eq!((diff.old_oid, diff.new_oid), (None, Some(oid('c'))));
        let rows: Vec<(&str, FileStatus, bool)> =
            diff.files.iter().map(|f| (f.path.as_str(), f.status, f.is_binary)).collect();
        assert_eq!(
            rows,
            vec![("a.txt", FileStatus::Added, false), ("sub/b.bin", FileStatus::Added, true)]
        );
        assert_eq!(
            (diff.stats.files_changed, diff.stats.insertions, diff.stats.deletions),
            (2, 2, 0)
        );
    }
}

#[test]
fn comparisons_of_nothing_fail() {
    let mut machine = history();
    let service = DiffService::new(config());
    assert_eq!(
        message(machine.run(|k| service.diff_commits("o", "r", "main", "x", None, None, k))),
        "Reference not found: x"
    );
    assert_eq!(
        message(machine.run(|k| service.diff_commits("o", "r", "x", "main", None, None, k))),
        "Reference not found: x"
    );
    assert_eq!(
        message(machine.run(|k| service.diff_commits("o", "r", "main", "old", None, None, k))),
        "Git error: lost"
    );
}

#[test]
fn bytes_that_are_no_text_are_compared_as_replaced() {
    let mut machine = history();
    machine.blobs.insert(oid('2'), b"one\n\xff\n".to_vec());
    let service = DiffService::new(config());
    let diff = machine.run(|k| service.diff_commit("o", "r", "main", None, None, k)).unwrap();
    assert_eq!(diff.files[0].hunks[0].lines[1].content, "\u{fffd}");
}

// ---------------------------------------------------------------- merging

#[test]
fn test_merge_status() {
    assert_ne!(MergeStatus::Success, MergeStatus::Conflict);
    assert_ne!(MergeStatus::FastForward, MergeStatus::AlreadyUpToDate);
}

#[test]
fn test_conflict_info() {
    let conflict = ConflictInfo {
        path: "test.txt".to_string(),
        ours_oid: Some("abc123".to_string()),
        theirs_oid: Some("def456".to_string()),
        ancestor_oid: Some("000000".to_string()),
    };

    assert_eq!(conflict.path, "test.txt");
}

fn moved(from: &str, to: &str) -> TreeChange {
    TreeChange::Rewrite {
        old_path: from.to_string(),
        old_mode: 0o100644,
        old_oid: oid('1'),
        path: to.to_string(),
        mode: 0o100644,
        oid: oid('2'),
    }
}

fn changed(path: &str, c: char) -> TreeChange {
    TreeChange::Modification {
        path: path.to_string(),
        old_mode: 0o100644,
        old_oid: oid('1'),
        mode: 0o100644,
        oid: oid(c),
    }
}

#[test]
fn changes_of_both_sides_are_merged() {
    let ours = vec![
        changed("both", '2'),
        changed("same", '2'),
        changed("ours", '2'),
        TreeChange::Deletion { path: "gone".to_string(), mode: 0o100644, oid: oid('1') },
        moved("both", "theirs"),
    ];
    let theirs = vec![
        changed("same", '2'),
        changed("both", '3'),
        TreeChange::Addition { path: "theirs".to_string(), mode: 0o100644, oid: oid('3') },
        TreeChange::Deletion { path: "gone".to_string(), mode: 0o100644, oid: oid('1') },
    ];
    let merged = merge_changes(&ours, &theirs);
    let mut files = merged.merged_files.clone();
    files.sort();
    assert_eq!(files, vec!["gone", "ours", "same", "theirs"]);
    assert_eq!(merged.conflicts.len(), 1);
    let conflict = &merged.conflicts[0];
    assert_eq!(conflict.path, "both");
    assert_eq!(conflict.ours_oid, Some(oid('2')));
    assert_eq!(conflict.theirs_oid, Some(oid('3')));
    assert_eq!(conflict.ancestor_oid, Some(oid('1')));

    // the other way round the same paths are in conflict
    let mirrored = merge_changes(&theirs, &ours);
    assert_eq!(mirrored.conflicts.len(), 1);
    assert_eq!(mirrored.conflicts[0].ours_oid, Some(oid('3')));
    assert!(merge_changes(&ours, &ours).conflicts.is_empty());
}

/// Two branches that have gone apart after `v1`.
fn forked() -> Machine {
    let mut machine = history();
    machine.trees.insert(oid('f'), vec![]);
    machine.commits.insert(oid('4'), commit(&oid('f'), &[oid('7')], "side"));
    machine.revisions.insert("side".to_string(), oid('4'));
    machine.bases.insert((oid('9'), oid('4')), oid('7'));
    machine.bases.insert((oid('8'), oid('9')), oid('8'));
    machine.bases.insert((oid('4'), oid('9')), oid('7'));
    machine.bases.insert((oid('9'), oid('8')), oid('8'));
    machine
        .changes
        .insert((oid('a'), oid('c')), vec![changed("a.txt", '2'), changed("b.txt", '2')]);
    machine.changes.insert((oid('a'), oid('f')), vec![changed("a.txt", '3'), changed("c.txt", '3')]);
    machine
}

#[test]
fn merges_end_in_four_ways() {
    let mut machine = forked();
    let service = OperationsService::new(config());
    let mut merge = |base: &str, head: &str, forward: bool| {
        machine.run(|k| service.merge("o", "r", base, head, &actor("ann"), None, forward, k)).unwrap()
    };
    let same = merge("main", "main", true);
    assert_eq!((same.status, same.commit_oid), (MergeStatus::AlreadyUpToDate, Some(oid('9'))));
    let forward = merge("old", "main", true);
    assert_eq!((forward.status, forward.commit_oid), (MergeStatus::FastForward, Some(oid('9'))));
    let conflict = merge("main", "side", true);
    assert_eq!((conflict.status, conflict.commit_oid), (MergeStatus::Conflict, None));
    assert_eq!(conflict.conflicts.len(), 1);
    assert_eq!(conflict.conflicts[0].path, "a.txt");
    let mut files = conflict.merged_files;
    files.sort();
    assert_eq!(files, vec!["b.txt", "c.txt"]);

    machine.changes.insert((oid('a'), oid('f')), vec![changed("c.txt", '3')]);
    let merged = machine
        .run(|k| service.merge("o", "r", "main", "side", &actor("ann"), Some("m"), true, k))
        .unwrap();
    assert_eq!((merged.status, merged.commit_oid), (MergeStatus::Success, None));
    assert_eq!(merged.merged_files.len(), 3);
    assert!(merged.conflicts.is_empty());
}

#[test]
fn merges_without_a_base_fail() {
    let mut machine = history();
    let service = OperationsService::new(config());
    assert_eq!(
        message(machine.run(|k| service.merge("o", "r", "v1", "main", &actor("a"), None, true, k))),
        "Git error: lost"
    );
    assert_eq!(
        message(machine.run(|k| service.merge("o", "r", "x", "y", &actor("a"), None, true, k))),
        "Reference not found: x"
    );
}

#[test]
fn cherry_picks_end_in_three_ways() {
    let mut machine = forked();
    machine.changes.insert((oid('b'), oid('f')), vec![]);
    let service = OperationsService::new(config());
    machine.changes.insert((oid('b'), oid('c')), vec![changed("a.txt", '2')]);
    let picked =
        machine.run(|k| service.cherry_pick("o", "r", "main", "side", None, k)).unwrap();
    assert_eq!((picked.status, picked.commit_oid), (CherryPickStatus::Success, None));

    machine.changes.insert((oid('b'), oid('f')), vec![changed("a.txt", '3')]);
    let conflict =
        machine.run(|k| service.cherry_pick("o", "r", "main", "side", None, k)).unwrap();
    assert_eq!(conflict.status, CherryPickStatus::Conflict);
    assert_eq!(conflict.conflicts[0].ours_oid, Some(oid('3')));

    machine.changes.insert((oid('b'), oid('f')), vec![]);
    machine.changes.insert((oid('b'), oid('c')), vec![]);
    let empty = machine.run(|k| service.cherry_pick("o", "r", "main", "side", None, k)).unwrap();
    assert_eq!(empty.status, CherryPickStatus::EmptyCommit);

    assert_eq!(
        message(machine.run(|k| service.cherry_pick("o", "r", "v1", "side", None, k))),
        "Internal error: Cannot cherry-pick initial commit"
    );
}

#[test]
fn rebases_take_the_oldest_first() {
    let mut machine = forked();
    let service = OperationsService::new(config());
    let rebased = machine.run(|k| service.rebase("o", "r", "main", "side", None, k)).unwrap();
    assert_eq!(rebased.status, RebaseStatus::Success);
    assert_eq!(rebased.rebased_commits, vec![oid('8'), oid('9')]);
    assert_eq!(rebased.new_head_oid, None);
    let behind = machine.run(|k| service.rebase("o", "r", "old", "main", None, k)).unwrap();
    assert_eq!(behind.status, RebaseStatus::NothingToRebase);
    assert_eq!(behind.new_head_oid, Some(oid('9')));
    assert!(behind.rebased_commits.is_empty());
}

#[test]
fn every_object_is_told() {
    let mut machine = history();
    let service = OperationsService::new(config());
    let wanted = vec![oid('1'), "x".to_string(), oid('5'), oid('9')];
    assert_eq!(
        machine.run(|k| service.check_objects_exist("o", "r", &wanted, k)).unwrap(),
        vec![
            (oid('1'), true),
            ("x".to_string(), false),
            (oid('5'), false),
            (oid('9'), true),
        ]
    );
}

// ---------------------------------------------------------------- one beside another

#[test]
fn a_commit_differs_as_from_its_first_parent() {
    let mut machine = history();
    // a merge: its second parent plays no part
    machine.commits.insert(oid('5'), commit(&oid('c'), &[oid('8'), oid('7')], "merge"));
    machine.revisions.insert("merge".to_string(), oid('5'));
    machine.revisions.insert(oid('8'), oid('8'));
    let service = DiffService::new(config());
    let one = machine.run(|k| service.diff_commit("o", "r", "merge", None, None, k)).unwrap();
    let two = machine
        .run(|k| service.diff_commits("o", "r", &oid('8'), "merge", None, None, k))
        .unwrap();
    assert_eq!((&one.old_oid, &one.new_oid), (&Some(oid('b')), &Some(oid('c'))));
    assert_eq!((one.old_oid, one.new_oid), (two.old_oid, two.new_oid));
    let paths = |files: &[arbor_git::git::diff::FileDiff]| -> Vec<String> {
        files.iter().map(|f| f.path.clone()).collect()
    };
    assert_eq!(paths(&one.files), vec!["a.txt"]);
    assert_eq!(paths(&one.files), paths(&two.files));
}

#[test]
fn a_pattern_picks_from_the_whole_list() {
    let mut machine = history();
    machine.references.insert("refs/remotes/origin/old".to_string(), oid('8'));
    let service = RefService::new(config());
    let mut list = |filter: Option<RefType>, pattern: Option<&str>| {
        machine.run(|k| service.list_refs("o", "r", filter, pattern, k)).unwrap()
    };
    let all = list(None, None);
    assert_eq!(all.len(), 4);
    for pattern in ["*", "o*", "*old", "refs/heads/*", "main", "none"] {
        let expected: Vec<&str> = all
            .iter()
            .filter(|r| glob_match(&r.short_name, pattern) || glob_match(&r.name, pattern))
            .map(|r| r.name.as_str())
            .collect();
        let picked = list(None, Some(pattern));
        let names: Vec<&str> = picked.iter().map(|r| r.name.as_str()).collect();
        assert_eq!(names, expected);
    }
    assert_eq!(list(None, Some("*old")).len(), 2);
    for kind in [RefType::Branch, RefType::Tag, RefType::Remote] {
        assert!(list(Some(kind), None).iter().all(|r| r.ref_type == kind));
    }
}

#[test]
fn a_shallow_listing_is_part_of_a_deep_one() {
    let mut machine = history();
    machine.trees.insert(
        oid('d'),
        vec![entry("b.bin", 0o100755, oid('3')), entry("deep", 0o040000, oid('e'))],
    );
    machine.trees.insert(oid('e'), vec![entry("c.txt", 0o100644, oid('1'))]);
    let service = TreeService::new(config());
    let mut walk = |path: Option<&str>, depth: Option<u32>| -> Vec<String> {
        machine
            .run(|k| service.get_tree_recursive("o", "r", "main", path, depth, k))
            .unwrap()
            .into_iter()
            .map(|e| e.path)
            .collect()
    };
    let all = walk(None, None);
    assert_eq!(all, vec!["a.txt", "sub", "sub/b.bin", "sub/deep", "sub/deep/c.txt"]);
    assert_eq!(all, walk(None, Some(10)));
    for depth in 0..4 {
        let expected: Vec<String> = all
            .iter()
            .filter(|path| path.matches('/').count() <= depth as usize)
            .cloned()
            .collect();
        assert_eq!(walk(None, Some(depth)), expected);
    }
    assert_eq!(walk(Some("sub"), Some(0)), vec!["sub/b.bin", "sub/deep"]);
    let mut top = walk(None, Some(0));
    let listed: Vec<String> = machine
        .run(|k| service.get_tree("o", "r", "main", None, k))
        .unwrap()
        .into_iter()
        .map(|e| e.path)
        .collect();
    assert_eq!(listed, vec!["sub", "a.txt"]);
    top.reverse();
    assert_eq!(listed, top);
}

#[test]
fn a_page_is_a_slice_of_the_log() {
    let mut machine = history();
    let service = CommitService::new(config());
    let mut log = |limit: Option<u32>, skip: Option<u32>| -> Vec<String> {
        machine
            .run(|k| service.get_log("o", "r", "main", limit, skip, None, k))
            .unwrap()
            .into_iter()
            .map(|c| c.oid)
            .collect()
    };
    assert_eq!(log(None, Some(1)), log(Some(100), Some(1)));
    assert_eq!(log(Some(2), None), log(Some(2), Some(0)));
    assert_eq!(log(Some(1), None), vec![oid('9')]);
    for limit in 0..4u32 {
        for skip in 0..4u32 {
            let whole = log(Some(skip + limit), None);
            let page = log(Some(limit), Some(skip));
            assert_eq!(page, whole[whole.len().min(skip as usize)..]);
            assert!(page.len() <= limit as usize);
        }
    }
}

#[test]
fn a_path_picks_from_the_whole_comparison() {
    let mut machine = history();
    machine.revisions.insert("root".to_string(), oid('6'));
    machine.commits.insert(oid('6'), commit(&oid('c'), &[], "root"));
    let service = DiffService::new(config());
    for (old, new) in [("v1", "main"), ("", "root")] {
        let mut compare = |path: Option<&str>, context: Option<u32>| {
            machine.run(|k| service.diff_commits("o", "r", old, new, path, context, k)).unwrap()
        };
        let all = compare(None, None);
        let headers = |files: &[arbor_git::git::diff::FileDiff]| -> Vec<(String, Vec<String>)> {
            files
                .iter()
                .map(|f| (f.path.clone(), f.hunks.iter().map(|h| h.header.clone()).collect()))
                .collect()
        };
        assert_eq!(headers(&compare(None, Some(3)).files), headers(&all.files));
        // a prefix of the text, whether or not a name ends with it
        for prefix in ["", "a", "su", "sub/", "a.txt", "none"] {
            let expected: Vec<(String, Vec<String>)> = headers(&all.files)
                .into_iter()
                .filter(|(path, _)| path.starts_with(prefix))
                .collect();
            let some = compare(Some(prefix), None);
            assert_eq!(headers(&some.files), expected);
            assert_eq!(some.stats.files_changed as usize, expected.len());
            assert_eq!((some.old_oid, some.new_oid), (all.old_oid.clone(), all.new_oid.clone()));
        }
    }
}
