//! Repositories as a whole.

use vstd::prelude::*;

use super::{do_or_gix, do_or_io, hunks, join_path, open_repo_by_name, refs};
use super::{GitError, GitErrorView, StorageConfig, StorageConfigView};
use crate::host::{
    self, DirNode, HostCall, HostCallView, Outcome, OutcomeView, Replies, ReplyView, Step, StepView,
};
use crate::text;

verus! {

/// Creates, finds, renames and deletes repositories.
pub struct RepositoryService {
    config: StorageConfig,
}

/// What there is to say of a repository.
#[derive(Debug, Clone)]
pub struct RepositoryInfo {
    pub owner: String,
    pub name: String,
    pub default_branch: String,
    pub size_bytes: u64,
    pub commit_count: u32,
    pub branch_count: u32,
    pub tag_count: u32,
    pub head_oid: Option<String>,
}

/// The value of a [`RepositoryInfo`].
pub struct RepositoryInfoView {
    pub owner: Seq<char>,
    pub name: Seq<char>,
    pub default_branch: Seq<char>,
    pub size_bytes: u64,
    pub commit_count: u32,
    pub branch_count: u32,
    pub tag_count: u32,
    pub head_oid: Option<Seq<char>>,
}

impl DeepView for RepositoryInfo {
    type V = RepositoryInfoView;

    open spec fn deep_view(&self) -> RepositoryInfoView {
        RepositoryInfoView {
            owner: self.owner@,
            name: self.name@,
            default_branch: self.default_branch@,
            size_bytes: self.size_bytes,
            commit_count: self.commit_count,
            branch_count: self.branch_count,
            tag_count: self.tag_count,
            head_oid: self.head_oid.deep_view(),
        }
    }
}

/// What makes HEAD point at a branch.
pub open spec fn head_file(path: Seq<char>, branch: Seq<char>) -> HostCallView {
    HostCallView::WriteFile {
        path: super::join(path, "HEAD"@),
        contents: "ref: refs/heads/"@ + branch + "\n"@,
    }
}

/// A new bare repository, whose HEAD points at a default branch.
pub open spec fn init(
    k: Seq<(HostCallView, ReplyView)>,
    config: StorageConfigView,
    owner: Seq<char>,
    name: Seq<char>,
    default_branch: Option<Seq<char>>,
) -> StepView<Seq<char>, GitErrorView> {
    let path = super::repo_path(config, owner, name);
    let branch = match default_branch {
        Some(branch) => branch,
        None => config.default_branch,
    };
    host::await_reply(
        host::flag(k, HostCallView::PathExists { path }),
        HostCallView::PathExists { path },
        |exists: bool|
            if exists {
                StepView::Failed(GitErrorView::RepositoryExists { owner, name })
            } else {
                super::done_or_io(
                    k,
                    HostCallView::CreateParent { path },
                    super::done_or_gix(
                        k,
                        HostCallView::InitBare { path },
                        super::done_or_io(k, head_file(path, branch), StepView::Done(path)),
                    ),
                )
            },
    )
}

/// Whether there is a repository: something at its path, with a HEAD in it.
pub open spec fn repository_exists(
    k: Seq<(HostCallView, ReplyView)>,
    config: StorageConfigView,
    owner: Seq<char>,
    name: Seq<char>,
) -> StepView<bool, GitErrorView> {
    let path = super::repo_path(config, owner, name);
    let head = super::join(path, "HEAD"@);
    host::await_reply(
        host::flag(k, HostCallView::PathExists { path }),
        HostCallView::PathExists { path },
        |there: bool|
            if there {
                host::await_reply(
                    host::flag(k, HostCallView::PathExists { path: head }),
                    HostCallView::PathExists { path: head },
                    |complete: bool| StepView::Done(complete),
                )
            } else {
                StepView::Done(false)
            },
    )
}

/// Renames a repository, unless that would overwrite another or there is none;
/// to its own name it always succeeds.
pub open spec fn rename(
    k: Seq<(HostCallView, ReplyView)>,
    config: StorageConfigView,
    owner: Seq<char>,
    old_name: Seq<char>,
    new_name: Seq<char>,
) -> StepView<bool, GitErrorView> {
    let from = super::repo_path(config, owner, old_name);
    let to = super::repo_path(config, owner, new_name);
    if old_name == new_name {
        StepView::Done(true)
    } else {
        host::await_reply(
            host::flag(k, HostCallView::PathExists { path: from }),
            HostCallView::PathExists { path: from },
            |there: bool|
                if !there {
                    StepView::Done(false)
                } else {
                    host::await_reply(
                        host::flag(k, HostCallView::PathExists { path: to }),
                        HostCallView::PathExists { path: to },
                        |taken: bool|
                            if taken {
                                StepView::Done(false)
                            } else {
                                super::done_or_io(
                                    k,
                                    HostCallView::Rename { from, to },
                                    StepView::Done(true),
                                )
                            },
                    )
                },
        )
    }
}

/// Deletes a repository, if there is one, and the directory of its owner where
/// that is empty then.
pub open spec fn delete(
    k: Seq<(HostCallView, ReplyView)>,
    config: StorageConfigView,
    owner: Seq<char>,
    name: Seq<char>,
) -> StepView<bool, GitErrorView> {
    let path = super::repo_path(config, owner, name);
    host::await_reply(
        host::flag(k, HostCallView::PathExists { path }),
        HostCallView::PathExists { path },
        |there: bool|
            if !there {
                StepView::Done(false)
            } else {
                super::done_or_io(
                    k,
                    HostCallView::RemoveDirectory { path },
                    host::await_reply(
                        host::answer(k, HostCallView::ParentIsEmpty { path }),
                        HostCallView::ParentIsEmpty { path },
                        |empty: OutcomeView<bool>|
                            match empty {
                                OutcomeView::Error(error) => StepView::Failed(
                                    GitErrorView::Io(error),
                                ),
                                OutcomeView::Got(false) => StepView::Done(true),
                                OutcomeView::Got(true) => host::await_reply(
                                    host::effect(k, HostCallView::RemoveParent { path }),
                                    HostCallView::RemoveParent { path },
                                    |removed: Option<Seq<char>>| StepView::Done(true),
                                ),
                            },
                    ),
                )
            },
    )
}

/// The size of a file, or of all files below a directory.
pub open spec fn total_size(node: DirNode) -> nat
    decreases node,
{
    match node {
        DirNode::File(size) => size as nat,
        DirNode::Directory(children) => total_sizes(children@),
    }
}

/// The size of all that a directory holds.
pub open spec fn total_sizes(nodes: Seq<DirNode>) -> nat
    decreases nodes,
{
    if nodes.len() == 0 {
        0
    } else {
        total_sizes(nodes.drop_last()) + total_size(nodes.last())
    }
}

/// A count that could not be told counts as zero.
pub open spec fn count32(count: Option<u64>) -> u32 {
    match count {
        None => 0,
        Some(n) => hunks::low32(n as int),
    }
}

/// The number of commits that HEAD has behind it, itself included.
pub open spec fn commits_behind(k: Seq<(HostCallView, ReplyView)>, head: Option<Seq<char>>) -> StepView<
    u32,
    GitErrorView,
> {
    match head {
        None => StepView::Done(0),
        Some(start) => host::await_reply(
            host::count(k, HostCallView::CountCommits { start }),
            HostCallView::CountCommits { start },
            |count: Option<u64>| StepView::Done(count32(count)),
        ),
    }
}

/// What there is to say of the repository at a path that has been opened.
pub open spec fn described(
    k: Seq<(HostCallView, ReplyView)>,
    config: StorageConfigView,
    owner: Seq<char>,
    name: Seq<char>,
) -> StepView<RepositoryInfoView, GitErrorView> {
    let path = super::repo_path(config, owner, name);
    let branches = HostCallView::CountReferences { kind: refs::RefType::Branch };
    let tags = HostCallView::CountReferences { kind: refs::RefType::Tag };
    let files = HostCallView::DirectoryTree { path };
    host::await_reply(
        host::id(k, HostCallView::HeadId),
        HostCallView::HeadId,
        |head_oid: Option<Seq<char>>|
            host::await_reply(
                host::id(k, HostCallView::Head),
                HostCallView::Head,
                |head: Option<Seq<char>>|
                    host::await_reply(
                        host::count(k, branches),
                        branches,
                        |branch_count: Option<u64>|
                            host::await_reply(
                                host::count(k, tags),
                                tags,
                                |tag_count: Option<u64>|
                                    host::await_reply(
                                        host::directory(k, files),
                                        files,
                                        |tree: OutcomeView<DirNode>|
                                            match tree {
                                                OutcomeView::Error(error) => StepView::Failed(
                                                    GitErrorView::Io(error),
                                                ),
                                                OutcomeView::Got(node) => host::chain(
                                                    commits_behind(k, head_oid),
                                                    |commit_count: u32|
                                                        StepView::Done(
                                                            RepositoryInfoView {
                                                                owner,
                                                                name,
                                                                default_branch: match head {
                                                                    Some(full) => refs::short_name(
                                                                        full,
                                                                    ),
                                                                    None => config.default_branch,
                                                                },
                                                                size_bytes: low64(
                                                                    total_size(node) as int,
                                                                ),
                                                                commit_count,
                                                                branch_count: count32(branch_count),
                                                                tag_count: count32(tag_count),
                                                                head_oid,
                                                            },
                                                        ),
                                                ),
                                            },
                                    ),
                            ),
                    ),
            ),
    )
}

/// What there is to say of a repository.
pub open spec fn get_info(
    k: Seq<(HostCallView, ReplyView)>,
    config: StorageConfigView,
    owner: Seq<char>,
    name: Seq<char>,
) -> StepView<RepositoryInfoView, GitErrorView> {
    host::chain(
        super::opened(k, config, owner, name),
        |open: ()| described(k, config, owner, name),
    )
}

/// A count as it fits into 64 bits.
pub open spec fn low64(n: int) -> u64 {
    (n % 0x1_0000_0000_0000_0000) as u64
}

/// The sum of two sizes, as it fits into 64 bits.
fn sum64(a: u64, b: u64, Ghost(m): Ghost<int>, Ghost(n): Ghost<int>) -> (r: u64)
    requires
        0 <= m,
        0 <= n,
        a == low64(m),
        b == low64(n),
    ensures
        r == low64(m + n),
{
    ((a as u128 + b as u128) % 0x1_0000_0000_0000_0000) as u64
}

/// The size of a file, or of all files below a directory, [`total_size`].
fn calculate_dir_size(node: &DirNode) -> (r: u64)
    ensures
        r == low64(total_size(*node) as int),
    decreases node,
{
    match node {
        DirNode::File(size) => *size,
        DirNode::Directory(children) => {
            let ghost all = children@;
            let mut size: u64 = 0;
            let mut i: usize = 0;
            assert(all.take(0).len() == 0);
            while i < children.len()
                invariant
                    i <= children@.len(),
                    all == children@,
                    *node == DirNode::Directory(*children),
                    size == low64(total_sizes(all.take(i as int)) as int),
                decreases children.len() - i,
            {
                proof {
                    assert(all.take(i + 1).drop_last() == all.take(i as int));
                    assert(decreases_to!(*node => node->Directory_0));
                    assert(decreases_to!(*children => children@[i as int]));
                }
                let part = calculate_dir_size(&children[i]);
                size =
                sum64(
                    size,
                    part,
                    Ghost(total_sizes(all.take(i as int)) as int),
                    Ghost(total_size(all[i as int]) as int),
                );
                i = i + 1;
            }
            assert(all.take(i as int) == all);
            size
        },
    }
}

/// A count that could not be told counts as zero, [`count32`].
fn read_count(count: Option<u64>) -> (r: u32)
    ensures
        r == count32(count),
{
    match count {
        None => 0,
        Some(n) => (n % 0x1_0000_0000) as u32,
    }
}

/// The number of commits that HEAD has behind it, [`commits_behind`].
fn count_commits(replies: &Replies, head: &Option<String>) -> (r: Step<u32, GitError>)
    ensures
        r.deep_view() == commits_behind(replies.deep_view(), head.deep_view()),
{
    match head {
        None => Step::Done(0),
        Some(start) => {
            let call = HostCall::CountCommits { start: start.clone() };
            match replies.count(&call) {
                None => host::ask(call),
                Some(count) => Step::Done(read_count(count)),
            }
        },
    }
}

impl RepositoryService {
    /// The configuration that the service works with.
    pub closed spec fn config(&self) -> StorageConfigView {
        self.config.deep_view()
    }

    /// The service for a configuration.
    pub fn new(config: StorageConfig) -> (r: Self)
        ensures
            r.config() == config.deep_view(),
    {
        RepositoryService { config }
    }

    /// Creates a repository and gives its path, [`init`].
    pub fn init(
        &self,
        owner: &str,
        name: &str,
        default_branch: Option<&str>,
        replies: &Replies,
    ) -> (r: Step<String, GitError>)
        ensures
            r.deep_view() == init(
                replies.deep_view(),
                self.config(),
                owner@,
                name@,
                default_branch.deep_view(),
            ),
    {
        let path = self.config.repo_path(owner, name);
        let call = HostCall::PathExists { path: path.clone() };
        match replies.flag(&call) {
            None => return host::ask(call),
            Some(true) => return Step::Failed(
                GitError::RepositoryExists { owner: owner.to_owned(), name: name.to_owned() },
            ),
            Some(false) => {},
        }
        match do_or_io(replies, HostCall::CreateParent { path: path.clone() }) {
            Step::Ask(calls) => return Step::Ask(calls),
            Step::Failed(error) => return Step::Failed(error),
            Step::Done(_) => {},
        }
        match do_or_gix(replies, HostCall::InitBare { path: path.clone() }) {
            Step::Ask(calls) => return Step::Ask(calls),
            Step::Failed(error) => return Step::Failed(error),
            Step::Done(_) => {},
        }
        let branch = match default_branch {
            Some(branch) => branch,
            None => self.config.default_branch.as_str(),
        };
        let write = HostCall::WriteFile {
            path: join_path(&path, "HEAD"),
            contents: text::concat3("ref: refs/heads/", branch, "\n"),
        };
        match do_or_io(replies, write) {
            Step::Ask(calls) => Step::Ask(calls),
            Step::Failed(error) => Step::Failed(error),
            Step::Done(_) => Step::Done(path),
        }
    }

    /// Tells whether there is a repository, [`repository_exists`].
    pub fn repository_exists(&self, owner: &str, name: &str, replies: &Replies) -> (r: Step<
        bool,
        GitError,
    >)
        ensures
            r.deep_view() == repository_exists(
                replies.deep_view(),
                self.config(),
                owner@,
                name@,
            ),
    {
        let path = self.config.repo_path(owner, name);
        let head = join_path(&path, "HEAD");
        let call = HostCall::PathExists { path };
        match replies.flag(&call) {
            None => return host::ask(call),
            Some(false) => return Step::Done(false),
            Some(true) => {},
        }
        let head_call = HostCall::PathExists { path: head };
        match replies.flag(&head_call) {
            None => host::ask(head_call),
            Some(complete) => Step::Done(complete),
        }
    }

    /// Renames a repository, [`rename`].
    pub fn rename(&self, owner: &str, old_name: &str, new_name: &str, replies: &Replies) -> (r: Step<
        bool,
        GitError,
    >)
        ensures
            r.deep_view() == rename(
                replies.deep_view(),
                self.config(),
                owner@,
                old_name@,
                new_name@,
            ),
    {
        if text::same(old_name, new_name) {
            return Step::Done(true);
        }
        let from = self.config.repo_path(owner, old_name);
        let to = self.config.repo_path(owner, new_name);
        let from_call = HostCall::PathExists { path: from.clone() };
        match replies.flag(&from_call) {
            None => return host::ask(from_call),
            Some(false) => return Step::Done(false),
            Some(true) => {},
        }
        let to_call = HostCall::PathExists { path: to.clone() };
        match replies.flag(&to_call) {
            None => return host::ask(to_call),
            Some(true) => return Step::Done(false),
            Some(false) => {},
        }
        match do_or_io(replies, HostCall::Rename { from, to }) {
            Step::Ask(calls) => Step::Ask(calls),
            Step::Failed(error) => Step::Failed(error),
            Step::Done(_) => Step::Done(true),
        }
    }

    /// Deletes a repository, [`delete`].
    pub fn delete(&self, owner: &str, name: &str, replies: &Replies) -> (r: Step<bool, GitError>)
        ensures
            r.deep_view() == delete(replies.deep_view(), self.config(), owner@, name@),
    {
        let path = self.config.repo_path(owner, name);
        let call = HostCall::PathExists { path: path.clone() };
        match replies.flag(&call) {
            None => return host::ask(call),
            Some(false) => return Step::Done(false),
            Some(true) => {},
        }
        match do_or_io(replies, HostCall::RemoveDirectory { path: path.clone() }) {
            Step::Ask(calls) => return Step::Ask(calls),
            Step::Failed(error) => return Step::Failed(error),
            Step::Done(_) => {},
        }
        let empty_call = HostCall::ParentIsEmpty { path: path.clone() };
        match replies.answer(&empty_call) {
            None => return host::ask(empty_call),
            Some(Outcome::Error(error)) => return Step::Failed(GitError::Io(error.clone())),
            Some(Outcome::Got(empty)) => {
                if !*empty {
                    return Step::Done(true);
                }
            },
        }
        let remove = HostCall::RemoveParent { path };
        match replies.effect(&remove) {
            None => host::ask(remove),
            Some(_) => Step::Done(true),
        }
    }

    /// Tells what there is to say of a repository, [`get_info`].
    pub fn get_info(&self, owner: &str, name: &str, replies: &Replies) -> (r: Step<
        RepositoryInfo,
        GitError,
    >)
        ensures
            r.deep_view() == get_info(replies.deep_view(), self.config(), owner@, name@),
    {
        match open_repo_by_name(&self.config, owner, name, replies) {
            Step::Ask(calls) => return Step::Ask(calls),
            Step::Failed(error) => return Step::Failed(error),
            Step::Done(_) => {},
        }
        let id_call = HostCall::HeadId;
        let head_oid = match replies.id(&id_call) {
            None => return host::ask(id_call),
            Some(id) => id,
        };
        let head_call = HostCall::Head;
        let head = match replies.id(&head_call) {
            None => return host::ask(head_call),
            Some(head) => head,
        };
        let branch_call = HostCall::CountReferences { kind: refs::RefType::Branch };
        let branch_count = match replies.count(&branch_call) {
            None => return host::ask(branch_call),
            Some(count) => count,
        };
        let tag_call = HostCall::CountReferences { kind: refs::RefType::Tag };
        let tag_count = match replies.count(&tag_call) {
            None => return host::ask(tag_call),
            Some(count) => count,
        };
        let files_call = HostCall::DirectoryTree { path: self.config.repo_path(owner, name) };
        let node = match replies.directory(&files_call) {
            None => return host::ask(files_call),
            Some(Outcome::Error(error)) => return Step::Failed(GitError::Io(error.clone())),
            Some(Outcome::Got(node)) => node,
        };
        let commit_count = match count_commits(replies, head_oid) {
            Step::Ask(calls) => return Step::Ask(calls),
            Step::Failed(error) => return Step::Failed(error),
            Step::Done(count) => count,
        };
        let default_branch = match head {
            Some(full) => refs::shorten_name(full),
            None => self.config.default_branch.clone(),
        };
        Step::Done(
            RepositoryInfo {
                owner: owner.to_owned(),
                name: name.to_owned(),
                default_branch,
                size_bytes: calculate_dir_size(node),
                commit_count,
                branch_count: read_count(branch_count),
                tag_count: read_count(tag_count),
                head_oid: match head_oid {
                    Some(id) => Some(id.clone()),
                    None => None,
                },
            },
        )
    }
}

} // verus!
