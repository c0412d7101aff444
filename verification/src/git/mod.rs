//! Repositories and what can be done with them.

pub mod commits;
pub mod diff;
pub mod hook;
pub mod hunks;
pub mod lookup;
pub mod objects;
pub mod operations;
pub mod refs;
pub mod repository;
pub mod scope_match;
pub mod trees;

pub use commits::CommitService;
pub use diff::DiffService;
pub use operations::OperationsService;
pub use refs::RefService;
pub use repository::RepositoryService;
pub use trees::TreeService;

use vstd::prelude::*;

use crate::host::{self, HostCall, HostCallView, Replies, ReplyView, Step, StepView};
use crate::text;

verus! {

/// Why an operation failed.
#[derive(Debug, Clone)]
pub enum GitError {
    RepositoryNotFound { owner: String, name: String },
    RefNotFound { reference: String },
    ObjectNotFound { oid: String },
    InvalidRef { reference: String },
    MergeConflict { path: String },
    RepositoryExists { owner: String, name: String },
    Io(String),
    Gix(String),
    Internal(String),
}

/// The value of a [`GitError`].
pub enum GitErrorView {
    RepositoryNotFound { owner: Seq<char>, name: Seq<char> },
    RefNotFound { reference: Seq<char> },
    ObjectNotFound { oid: Seq<char> },
    InvalidRef { reference: Seq<char> },
    MergeConflict { path: Seq<char> },
    RepositoryExists { owner: Seq<char>, name: Seq<char> },
    Io(Seq<char>),
    Gix(Seq<char>),
    Internal(Seq<char>),
}

impl DeepView for GitError {
    type V = GitErrorView;

    open spec fn deep_view(&self) -> GitErrorView {
        match self {
            GitError::RepositoryNotFound { owner, name } => GitErrorView::RepositoryNotFound {
                owner: owner@,
                name: name@,
            },
            GitError::RefNotFound { reference } => GitErrorView::RefNotFound {
                reference: reference@,
            },
            GitError::ObjectNotFound { oid } => GitErrorView::ObjectNotFound { oid: oid@ },
            GitError::InvalidRef { reference } => GitErrorView::InvalidRef {
                reference: reference@,
            },
            GitError::MergeConflict { path } => GitErrorView::MergeConflict { path: path@ },
            GitError::RepositoryExists { owner, name } => GitErrorView::RepositoryExists {
                owner: owner@,
                name: name@,
            },
            GitError::Io(error) => GitErrorView::Io(error@),
            GitError::Gix(error) => GitErrorView::Gix(error@),
            GitError::Internal(error) => GitErrorView::Internal(error@),
        }
    }
}

/// The words of an error.
pub open spec fn error_message(error: GitErrorView) -> Seq<char> {
    match error {
        GitErrorView::RepositoryNotFound { owner, name } => "Repository not found: "@ + owner + "/"@
            + name,
        GitErrorView::RefNotFound { reference } => "Reference not found: "@ + reference,
        GitErrorView::ObjectNotFound { oid } => "Object not found: "@ + oid,
        GitErrorView::InvalidRef { reference } => "Invalid reference: "@ + reference,
        GitErrorView::MergeConflict { path } => "Merge conflict in "@ + path,
        GitErrorView::RepositoryExists { owner, name } => "Repository already exists: "@ + owner
            + "/"@ + name,
        GitErrorView::Io(error) => "IO error: "@ + error,
        GitErrorView::Gix(error) => "Git error: "@ + error,
        GitErrorView::Internal(error) => "Internal error: "@ + error,
    }
}

impl GitError {
    /// The words of the error, [`error_message`].
    pub fn message(&self) -> (r: String)
        ensures
            r@ == error_message(self.deep_view()),
    {
        match self {
            GitError::RepositoryNotFound { owner, name } => {
                let start = text::concat3("Repository not found: ", owner, "/");
                text::concat(&start, name)
            },
            GitError::RefNotFound { reference } => text::concat("Reference not found: ", reference),
            GitError::ObjectNotFound { oid } => text::concat("Object not found: ", oid),
            GitError::InvalidRef { reference } => text::concat("Invalid reference: ", reference),
            GitError::MergeConflict { path } => text::concat("Merge conflict in ", path),
            GitError::RepositoryExists { owner, name } => {
                let start = text::concat3("Repository already exists: ", owner, "/");
                text::concat(&start, name)
            },
            GitError::Io(error) => text::concat("IO error: ", error),
            GitError::Gix(error) => text::concat("Git error: ", error),
            GitError::Internal(error) => text::concat("Internal error: ", error),
        }
    }
}

/// A path below another: an absolute one stands alone, and any other follows
/// after a slash, unless the first is empty or ends with one.
pub open spec fn join(base: Seq<char>, part: Seq<char>) -> Seq<char> {
    if part.len() > 0 && part[0] == '/' {
        part
    } else if base.len() == 0 || base.last() == '/' {
        base + part
    } else {
        base + "/"@ + part
    }
}

/// A path below another, [`join`].
pub fn join_path(base: &str, part: &str) -> (r: String)
    ensures
        r@ == join(base@, part@),
{
    proof {
        reveal_strlit("/");
        if part@.len() > 0 && part@[0] == '/' {
            assert("/"@ =~= part@.subrange(0, 1));
        }
        if base@.len() > 0 && base@.last() == '/' {
            assert("/"@ =~= base@.subrange(base@.len() - 1, base@.len() as int));
        }
        if "/"@.is_prefix_of(part@) {
            assert(part@.subrange(0, 1)[0] == part@[0]);
        }
        if "/"@.is_suffix_of(base@) {
            assert(base@.subrange(base@.len() - 1, base@.len() as int)[0] == base@.last());
        }
    }
    if text::starts_with(part, "/") {
        part.to_owned()
    } else if base.is_empty() || text::ends_with(base, "/") {
        text::concat(base, part)
    } else {
        text::concat3(base, "/", part)
    }
}

/// Where repositories are kept, and how new ones are set up.
#[derive(Debug, Clone)]
pub struct StorageConfig {
    /// The directory that holds all repositories.
    pub base_path: String,
    /// The largest size of a repository, in bytes.
    pub max_repo_size: u64,
    /// The default branch of new repositories.
    pub default_branch: String,
}

/// The value of a [`StorageConfig`].
pub struct StorageConfigView {
    pub base_path: Seq<char>,
    pub max_repo_size: u64,
    pub default_branch: Seq<char>,
}

impl DeepView for StorageConfig {
    type V = StorageConfigView;

    open spec fn deep_view(&self) -> StorageConfigView {
        StorageConfigView {
            base_path: self.base_path@,
            max_repo_size: self.max_repo_size,
            default_branch: self.default_branch@,
        }
    }
}

/// One gibibyte, the largest size of a repository unless another is set.
pub const DEFAULT_MAX_REPO_SIZE: u64 = 1_073_741_824;

/// The path of a repository.
pub open spec fn repo_path(config: StorageConfigView, owner: Seq<char>, name: Seq<char>) -> Seq<
    char,
> {
    join(join(config.base_path, owner), name + ".git"@)
}

/// The directory of the hooks.
pub open spec fn hooks_dir(config: StorageConfigView) -> Seq<char> {
    join(config.base_path, ".arbor-hooks"@)
}

/// The script that hands a push to this program.
pub open spec fn hook_script() -> Seq<char> {
    "#!/bin/sh\nexec \"$ARBOR_GIT_BIN\" __pre-receive\n"@
}

/// The configuration that environment variables make. A variable that is not
/// set, or a size that is no number, leaves the default.
pub open spec fn configured(
    storage_path: Option<Seq<char>>,
    max_repo_size: Option<Seq<char>>,
    default_branch: Option<Seq<char>>,
    git_default_branch: Option<Seq<char>>,
) -> StorageConfigView {
    StorageConfigView {
        base_path: match storage_path {
            Some(path) => path,
            None => "./data/repositories"@,
        },
        max_repo_size: match max_repo_size {
            Some(size) => match text::number(size, u64::MAX as nat) {
                Some(n) => n as u64,
                None => DEFAULT_MAX_REPO_SIZE,
            },
            None => DEFAULT_MAX_REPO_SIZE,
        },
        default_branch: match (default_branch, git_default_branch) {
            (Some(branch), _) => branch,
            (None, Some(branch)) => branch,
            (None, None) => "main"@,
        },
    }
}

/// Puts the hook in place: its directory, its script, and leave to execute it.
pub open spec fn ensure_hook(
    k: Seq<(HostCallView, ReplyView)>,
    config: StorageConfigView,
) -> StepView<Seq<char>, GitErrorView> {
    let dir = hooks_dir(config);
    let path = join(dir, "pre-receive"@);
    let write = HostCallView::WriteFile { path, contents: hook_script() };
    done_or_io(
        k,
        HostCallView::CreateDirectory { path: dir },
        done_or_io(
            k,
            write,
            done_or_io(k, HostCallView::MakeExecutable { path }, StepView::Done(dir)),
        ),
    )
}

/// What follows once something has been done; its failure is an input or output
/// error.
pub open spec fn done_or_io<T>(
    k: Seq<(HostCallView, ReplyView)>,
    call: HostCallView,
    rest: StepView<T, GitErrorView>,
) -> StepView<T, GitErrorView> {
    match host::effect(k, call) {
        None => StepView::Ask(seq![call]),
        Some(Some(error)) => StepView::Failed(GitErrorView::Io(error)),
        Some(None) => rest,
    }
}

/// What follows once something has been done; its failure is a Git error.
pub open spec fn done_or_gix<T>(
    k: Seq<(HostCallView, ReplyView)>,
    call: HostCallView,
    rest: StepView<T, GitErrorView>,
) -> StepView<T, GitErrorView> {
    match host::effect(k, call) {
        None => StepView::Ask(seq![call]),
        Some(Some(error)) => StepView::Failed(GitErrorView::Gix(error)),
        Some(None) => rest,
    }
}

/// Something to be done, whose failure is an input or output error.
pub fn do_or_io(replies: &Replies, call: HostCall) -> (r: Step<(), GitError>)
    ensures
        r.deep_view() == done_or_io(replies.deep_view(), call.deep_view(), StepView::Done(())),
{
    match replies.effect(&call) {
        None => host::ask(call),
        Some(Some(error)) => Step::Failed(GitError::Io(error.clone())),
        Some(None) => Step::Done(()),
    }
}

/// Something to be done, whose failure is a Git error.
pub fn do_or_gix(replies: &Replies, call: HostCall) -> (r: Step<(), GitError>)
    ensures
        r.deep_view() == done_or_gix(replies.deep_view(), call.deep_view(), StepView::Done(())),
{
    match replies.effect(&call) {
        None => host::ask(call),
        Some(Some(error)) => Step::Failed(GitError::Gix(error.clone())),
        Some(None) => Step::Done(()),
    }
}

impl Default for StorageConfig {
    fn default() -> (r: Self)
        ensures
            r.deep_view() == (StorageConfigView {
                base_path: "/var/lib/arbor-git"@,
                max_repo_size: DEFAULT_MAX_REPO_SIZE,
                default_branch: "main"@,
            }),
    {
        StorageConfig {
            base_path: "/var/lib/arbor-git".to_owned(),
            max_repo_size: DEFAULT_MAX_REPO_SIZE,
            default_branch: "main".to_owned(),
        }
    }
}

impl StorageConfig {
    /// The configuration that the environment makes, [`configured`], given what
    /// it holds for `STORAGE_PATH`, `GIT_MAX_REPO_SIZE`, `DEFAULT_BRANCH` and
    /// `GIT_DEFAULT_BRANCH`.
    pub fn from_env(
        storage_path: Option<&str>,
        max_repo_size: Option<&str>,
        default_branch: Option<&str>,
        git_default_branch: Option<&str>,
    ) -> (r: Self)
        ensures
            r.deep_view() == configured(
                storage_path.deep_view(),
                max_repo_size.deep_view(),
                default_branch.deep_view(),
                git_default_branch.deep_view(),
            ),
    {
        StorageConfig {
            base_path: match storage_path {
                Some(path) => path.to_owned(),
                None => "./data/repositories".to_owned(),
            },
            max_repo_size: match max_repo_size {
                Some(size) => match text::parse_number(size, u64::MAX) {
                    Some(n) => n,
                    None => DEFAULT_MAX_REPO_SIZE,
                },
                None => DEFAULT_MAX_REPO_SIZE,
            },
            default_branch: match (default_branch, git_default_branch) {
                (Some(branch), _) => branch.to_owned(),
                (None, Some(branch)) => branch.to_owned(),
                (None, None) => "main".to_owned(),
            },
        }
    }

    /// The same configuration once more.
    pub fn copy(&self) -> (r: Self)
        ensures
            r.deep_view() == self.deep_view(),
    {
        StorageConfig {
            base_path: self.base_path.clone(),
            max_repo_size: self.max_repo_size,
            default_branch: self.default_branch.clone(),
        }
    }

    /// The path of a repository.
    pub fn repo_path(&self, owner: &str, name: &str) -> (r: String)
        ensures
            r@ == repo_path(self.deep_view(), owner@, name@),
    {
        let dir = join_path(&self.base_path, owner);
        let file = text::concat(name, ".git");
        join_path(&dir, &file)
    }

    /// The directory of the hooks. It lies beside the directories of the
    /// owners, none of whom is called `.arbor-hooks`.
    pub fn hooks_dir(&self) -> (r: String)
        ensures
            r@ == hooks_dir(self.deep_view()),
    {
        join_path(&self.base_path, ".arbor-hooks")
    }

    /// Puts the hook in place that git runs before a push takes effect, and
    /// gives its directory, [`ensure_hook`].
    pub fn ensure_pre_receive_hook(&self, replies: &Replies) -> (r: Step<String, GitError>)
        ensures
            r.deep_view() == ensure_hook(replies.deep_view(), self.deep_view()),
    {
        let dir = self.hooks_dir();
        let path = join_path(&dir, "pre-receive");
        match do_or_io(replies, HostCall::CreateDirectory { path: dir.clone() }) {
            Step::Ask(calls) => return Step::Ask(calls),
            Step::Failed(error) => return Step::Failed(error),
            Step::Done(_) => {},
        }
        let contents = "#!/bin/sh\nexec \"$ARBOR_GIT_BIN\" __pre-receive\n".to_owned();
        match do_or_io(replies, HostCall::WriteFile { path: path.clone(), contents }) {
            Step::Ask(calls) => return Step::Ask(calls),
            Step::Failed(error) => return Step::Failed(error),
            Step::Done(_) => {},
        }
        match do_or_io(replies, HostCall::MakeExecutable { path }) {
            Step::Ask(calls) => Step::Ask(calls),
            Step::Failed(error) => Step::Failed(error),
            Step::Done(_) => Step::Done(dir),
        }
    }
}

/// Opens the repository at a path.
pub open spec fn opened_at(k: Seq<(HostCallView, ReplyView)>, path: Seq<char>) -> StepView<
    (),
    GitErrorView,
> {
    done_or_gix(k, HostCallView::OpenRepository { path }, StepView::Done(()))
}

/// Opens a repository by its owner and its name, if there is anything at its
/// path.
pub open spec fn opened(
    k: Seq<(HostCallView, ReplyView)>,
    config: StorageConfigView,
    owner: Seq<char>,
    name: Seq<char>,
) -> StepView<(), GitErrorView> {
    let path = repo_path(config, owner, name);
    let exists = HostCallView::PathExists { path };
    match host::flag(k, exists) {
        None => StepView::Ask(seq![exists]),
        Some(false) => StepView::Failed(GitErrorView::RepositoryNotFound { owner, name }),
        Some(true) => opened_at(k, path),
    }
}

/// Opens the repository at a path, [`opened_at`].
pub fn open_repo(path: &str, replies: &Replies) -> (r: Step<(), GitError>)
    ensures
        r.deep_view() == opened_at(replies.deep_view(), path@),
{
    do_or_gix(replies, HostCall::OpenRepository { path: path.to_owned() })
}

/// Opens a repository by its owner and its name, [`opened`].
pub fn open_repo_by_name(
    config: &StorageConfig,
    owner: &str,
    name: &str,
    replies: &Replies,
) -> (r: Step<(), GitError>)
    ensures
        r.deep_view() == opened(replies.deep_view(), config.deep_view(), owner@, name@),
{
    let path = config.repo_path(owner, name);
    let call = HostCall::PathExists { path: path.clone() };
    match replies.flag(&call) {
        None => host::ask(call),
        Some(false) => Step::Failed(
            GitError::RepositoryNotFound { owner: owner.to_owned(), name: name.to_owned() },
        ),
        Some(true) => open_repo(&path, replies),
    }
}

} // verus!
