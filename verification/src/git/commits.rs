//! Commits and their history.

use vstd::prelude::*;

use super::objects::{self, CommitRecord, CommitRecordView, TreeItemView};
use super::{lookup, open_repo_by_name};
use super::{GitError, GitErrorView, StorageConfig, StorageConfigView};
use crate::host::{
    self, Gathering, HostCall, HostCallView, ItemView, Outcome, OutcomeView, Replies, ReplyView,
    Step, StepView,
};

verus! {

/// Reads commits and their history.
pub struct CommitService {
    config: StorageConfig,
}

/// A commit.
#[derive(Debug, Clone)]
pub struct CommitInfo {
    pub oid: String,
    pub message: String,
    pub author: GitActor,
    pub committer: GitActor,
    pub parent_oids: Vec<String>,
    pub tree_oid: String,
}

/// A person and the time at which they acted.
#[derive(Debug, Clone)]
pub struct GitActor {
    pub name: String,
    pub email: String,
    pub timestamp: i64,
    pub offset_minutes: i32,
}

/// The value of a [`CommitInfo`].
pub struct CommitInfoView {
    pub oid: Seq<char>,
    pub message: Seq<char>,
    pub author: GitActorView,
    pub committer: GitActorView,
    pub parent_oids: Seq<Seq<char>>,
    pub tree_oid: Seq<char>,
}

/// The value of a [`GitActor`].
pub struct GitActorView {
    pub name: Seq<char>,
    pub email: Seq<char>,
    pub timestamp: i64,
    pub offset_minutes: i32,
}

impl DeepView for CommitInfo {
    type V = CommitInfoView;

    open spec fn deep_view(&self) -> CommitInfoView {
        CommitInfoView {
            oid: self.oid@,
            message: self.message@,
            author: self.author.deep_view(),
            committer: self.committer.deep_view(),
            parent_oids: self.parent_oids.deep_view(),
            tree_oid: self.tree_oid@,
        }
    }
}

impl DeepView for GitActor {
    type V = GitActorView;

    open spec fn deep_view(&self) -> GitActorView {
        GitActorView {
            name: self.name@,
            email: self.email@,
            timestamp: self.timestamp,
            offset_minutes: self.offset_minutes,
        }
    }
}

/// Whether the bytes of a commit told all there is to a commit.
pub open spec fn complete(record: CommitRecordView) -> bool {
    record.author is Some && record.committer is Some && record.tree is Got
}

/// Whether a commit that was found, if one was, is [`complete`].
pub open spec fn showable(
    found: StepView<(Seq<char>, CommitRecordView), GitErrorView>,
) -> bool {
    match found {
        StepView::Done(commit) => complete(commit.1),
        _ => true,
    }
}

/// Whether all commits are [`complete`].
pub open spec fn all_complete(commits: Seq<(Seq<char>, CommitRecordView)>) -> bool {
    forall|i: int| 0 <= i < commits.len() ==> complete((#[trigger] commits[i]).1)
}

/// Whether all commits that were found, if any were, are [`complete`].
pub open spec fn all_showable(
    found: StepView<Seq<(Seq<char>, CommitRecordView)>, GitErrorView>,
) -> bool {
    match found {
        StepView::Done(commits) => all_complete(commits),
        _ => true,
    }
}

/// A commit from what its bytes say: its message is its title.
pub open spec fn info_of(oid: Seq<char>, record: CommitRecordView) -> CommitInfoView {
    CommitInfoView {
        oid,
        message: record.title,
        author: record.author->0,
        committer: record.committer->0,
        parent_oids: record.parents,
        tree_oid: record.tree->Got_0,
    }
}

/// Commits from what their bytes say.
pub open spec fn infos_of(commits: Seq<(Seq<char>, CommitRecordView)>) -> Seq<CommitInfoView> {
    commits.map_values(|commit: (Seq<char>, CommitRecordView)| info_of(commit.0, commit.1))
}

/// The commit that an id names; what is no id, or cannot be read, is not found.
pub open spec fn found_commit(
    k: Seq<(HostCallView, ReplyView)>,
    config: StorageConfigView,
    owner: Seq<char>,
    name: Seq<char>,
    oid: Seq<char>,
) -> StepView<(Seq<char>, CommitRecordView), GitErrorView> {
    host::chain(
        super::opened(k, config, owner, name),
        |open: ()|
            match objects::object_id(oid) {
                None => StepView::Failed(GitErrorView::ObjectNotFound { oid }),
                Some(id) => {
                    let call = HostCallView::Commit { oid: id };
                    match host::commit(k, call) {
                        None => StepView::Ask(seq![call]),
                        Some(OutcomeView::Error(error)) => StepView::Failed(
                            GitErrorView::ObjectNotFound { oid },
                        ),
                        Some(OutcomeView::Got(record)) => StepView::Done((id, record)),
                    }
                },
            },
    )
}

/// The commit that an id names, as it is shown.
pub open spec fn get_commit(
    k: Seq<(HostCallView, ReplyView)>,
    config: StorageConfigView,
    owner: Seq<char>,
    name: Seq<char>,
    oid: Seq<char>,
) -> StepView<CommitInfoView, GitErrorView> {
    host::chain(
        found_commit(k, config, owner, name, oid),
        |commit: (Seq<char>, CommitRecordView)| StepView::Done(info_of(commit.0, commit.1)),
    )
}

/// Whether a commit has to do with a path: there is something at the path below
/// its tree. Where that cannot be looked up there is nothing.
pub open spec fn touches(
    k: Seq<(HostCallView, ReplyView)>,
    record: CommitRecordView,
    path: Seq<char>,
) -> StepView<bool, GitErrorView> {
    host::chain(
        lookup::root_of(k, record),
        |tree: Seq<char>|
            host::await_reply(
                host::entry(k, HostCallView::EntryAt { tree, path }),
                HostCallView::EntryAt { tree, path },
                |entry: OutcomeView<Option<TreeItemView>>|
                    StepView::Done(entry is Got && entry->Got_0 is Some),
            ),
    )
}

/// What a commit contributes to a list of those that have to do with a path, or
/// of all.
pub open spec fn log_items(
    k: Seq<(HostCallView, ReplyView)>,
    step: OutcomeView<Seq<char>>,
    path: Option<Seq<char>>,
) -> Seq<ItemView<(Seq<char>, CommitRecordView), GitErrorView>> {
    match step {
        OutcomeView::Error(error) => seq![ItemView::Fail(GitErrorView::Gix(error))],
        OutcomeView::Got(oid) => {
            let call = HostCallView::Commit { oid };
            match host::commit(k, call) {
                None => seq![ItemView::Need(call)],
                Some(OutcomeView::Error(error)) => seq![ItemView::Fail(GitErrorView::Gix(error))],
                Some(OutcomeView::Got(record)) => match path {
                    None => seq![ItemView::Value((oid, record))],
                    Some(p) => match touches(k, record, p) {
                        StepView::Ask(calls) => calls.map_values(
                            |call: HostCallView| ItemView::Need(call),
                        ),
                        StepView::Failed(error) => seq![ItemView::Fail(error)],
                        StepView::Done(true) => seq![ItemView::Value((oid, record))],
                        StepView::Done(false) => Seq::empty(),
                    },
                },
            }
        },
    }
}

/// The smaller of two positions.
pub open spec fn at_most(n: int, max: int) -> int {
    if n < max {
        n
    } else {
        max
    }
}

/// Up to `take` steps of a walk after the first `skip`.
pub open spec fn window(steps: Seq<OutcomeView<Seq<char>>>, skip: nat, take: nat) -> Seq<
    OutcomeView<Seq<char>>,
> {
    steps.subrange(
        at_most(skip as int, steps.len() as int),
        at_most((skip + take) as int, steps.len() as int),
    )
}

/// The commits in a window of the history behind one.
pub open spec fn history(
    k: Seq<(HostCallView, ReplyView)>,
    start: Seq<char>,
    skip: u32,
    take: u32,
    path: Option<Seq<char>>,
) -> StepView<Seq<(Seq<char>, CommitRecordView)>, GitErrorView> {
    let call = HostCallView::Walk { start, until: None, limit: Some((skip + take) as u64) };
    host::await_reply(
        host::walk(k, call),
        call,
        |walk: OutcomeView<Seq<OutcomeView<Seq<char>>>>|
            host::chain(
                lookup::got_or_gix(walk),
                |steps: Seq<OutcomeView<Seq<char>>>|
                    host::gather(
                        window(steps, skip as nat, take as nat).flat_map(
                            |step: OutcomeView<Seq<char>>| log_items(k, step, path),
                        ),
                    ),
            ),
    )
}

/// The number of commits that are listed unless another is given.
pub const DEFAULT_LIMIT: u32 = 100;

/// A number, or what stands for it where it is not given.
pub open spec fn given_or(n: Option<u32>, default: u32) -> u32 {
    match n {
        Some(value) => value,
        None => default,
    }
}

/// The history behind a revision, from which `skip` commits are left out at the
/// start and all but `limit` at the end before those that do not have to do
/// with a path.
pub open spec fn found_log(
    k: Seq<(HostCallView, ReplyView)>,
    config: StorageConfigView,
    owner: Seq<char>,
    name: Seq<char>,
    start_ref: Seq<char>,
    limit: Option<u32>,
    skip: Option<u32>,
    path: Option<Seq<char>>,
) -> StepView<Seq<(Seq<char>, CommitRecordView)>, GitErrorView> {
    host::chain(
        super::opened(k, config, owner, name),
        |open: ()|
            host::chain(
                lookup::resolved(k, start_ref),
                |start: Seq<char>|
                    history(k, start, given_or(skip, 0), given_or(limit, DEFAULT_LIMIT), path),
            ),
    )
}

/// The history behind a revision, [`found_log`], as it is shown.
pub open spec fn get_log(
    k: Seq<(HostCallView, ReplyView)>,
    config: StorageConfigView,
    owner: Seq<char>,
    name: Seq<char>,
    start_ref: Seq<char>,
    limit: Option<u32>,
    skip: Option<u32>,
    path: Option<Seq<char>>,
) -> StepView<Seq<CommitInfoView>, GitErrorView> {
    host::chain(
        found_log(k, config, owner, name, start_ref, limit, skip, path),
        |commits: Seq<(Seq<char>, CommitRecordView)>| StepView::Done(infos_of(commits)),
    )
}

/// The history behind a commit, without that commit.
pub open spec fn found_ancestors(
    k: Seq<(HostCallView, ReplyView)>,
    config: StorageConfigView,
    owner: Seq<char>,
    name: Seq<char>,
    oid: Seq<char>,
    limit: Option<u32>,
) -> StepView<Seq<(Seq<char>, CommitRecordView)>, GitErrorView> {
    host::chain(
        super::opened(k, config, owner, name),
        |open: ()|
            match objects::object_id(oid) {
                None => StepView::Failed(GitErrorView::ObjectNotFound { oid }),
                Some(start) => history(k, start, 1, given_or(limit, DEFAULT_LIMIT), None),
            },
    )
}

/// The history behind a commit, [`found_ancestors`], as it is shown.
pub open spec fn get_ancestors(
    k: Seq<(HostCallView, ReplyView)>,
    config: StorageConfigView,
    owner: Seq<char>,
    name: Seq<char>,
    oid: Seq<char>,
    limit: Option<u32>,
) -> StepView<Seq<CommitInfoView>, GitErrorView> {
    host::chain(
        found_ancestors(k, config, owner, name, oid, limit),
        |commits: Seq<(Seq<char>, CommitRecordView)>| StepView::Done(infos_of(commits)),
    )
}

/// The best common ancestor of the commits that two ids name.
pub open spec fn find_merge_base(
    k: Seq<(HostCallView, ReplyView)>,
    config: StorageConfigView,
    owner: Seq<char>,
    name: Seq<char>,
    oid1: Seq<char>,
    oid2: Seq<char>,
) -> StepView<Option<Seq<char>>, GitErrorView> {
    host::chain(
        super::opened(k, config, owner, name),
        |open: ()|
            match objects::object_id(oid1) {
                None => StepView::Failed(GitErrorView::ObjectNotFound { oid: oid1 }),
                Some(one) => match objects::object_id(oid2) {
                    None => StepView::Failed(GitErrorView::ObjectNotFound { oid: oid2 }),
                    Some(two) => host::chain(
                        lookup::base_of(k, one, two),
                        |base: Seq<char>| StepView::Done(Some(base)),
                    ),
                },
            },
    )
}

/// A person once more.
pub fn copy_actor(actor: &GitActor) -> (r: GitActor)
    ensures
        r.deep_view() == actor.deep_view(),
{
    GitActor {
        name: actor.name.clone(),
        email: actor.email.clone(),
        timestamp: actor.timestamp,
        offset_minutes: actor.offset_minutes,
    }
}

/// Texts once more.
pub fn copy_list(list: &Vec<String>) -> (r: Vec<String>)
    ensures
        r.deep_view() == list.deep_view(),
{
    let mut copies: Vec<String> = Vec::new();
    let mut i: usize = 0;
    while i < list.len()
        invariant
            i <= list@.len(),
            copies@.len() == i,
            forall|j: int| 0 <= j < i ==> (#[trigger] copies@[j])@ == list@[j]@,
        decreases list.len() - i,
    {
        copies.push(list[i].clone());
        i = i + 1;
    }
    assert(copies.deep_view() =~= list.deep_view());
    copies
}

/// Whether the bytes of a commit told all there is to a commit, [`complete`].
pub fn is_complete(record: &CommitRecord) -> (r: bool)
    ensures
        r == complete(record.deep_view()),
{
    record.author.is_some() && record.committer.is_some() && matches!(record.tree, Outcome::Got(_))
}

/// Whether a commit that was found, if one was, is complete, [`showable`].
fn is_showable(found: &Step<(String, &CommitRecord), GitError>) -> (r: bool)
    ensures
        r == showable(found.deep_view()),
{
    match found {
        Step::Done(commit) => is_complete(commit.1),
        _ => true,
    }
}

/// Whether all commits that were found, if any were, are complete,
/// [`all_showable`].
fn are_showable(found: &Step<Vec<(String, &CommitRecord)>, GitError>) -> (r: bool)
    ensures
        r == all_showable(found.deep_view()),
{
    match found {
        Step::Done(commits) => {
            let ghost all = commits.deep_view();
            let mut i: usize = 0;
            while i < commits.len()
                invariant
                    i <= commits@.len(),
                    all == commits.deep_view(),
                    all.len() == commits@.len(),
                    found.deep_view() == StepView::<
                        Seq<(Seq<char>, CommitRecordView)>,
                        GitErrorView,
                    >::Done(all),
                    forall|j: int| 0 <= j < i ==> complete((#[trigger] all[j]).1),
                decreases commits.len() - i,
            {
                assert(all[i as int] == commits@[i as int].deep_view());
                if !is_complete(commits[i].1) {
                    assert(!all_complete(all));
                    return false;
                }
                i = i + 1;
            }
            true
        },
        _ => true,
    }
}

/// A commit from what its bytes say, [`info_of`].
pub fn commit_to_info(oid: &str, record: &CommitRecord) -> (r: CommitInfo)
    requires
        complete(record.deep_view()),
    ensures
        r.deep_view() == info_of(oid@, record.deep_view()),
{
    CommitInfo {
        oid: oid.to_owned(),
        message: record.title.clone(),
        author: copy_actor(record.author.as_ref().unwrap()),
        committer: copy_actor(record.committer.as_ref().unwrap()),
        parent_oids: copy_list(&record.parents),
        tree_oid: match &record.tree {
            Outcome::Got(tree) => tree.clone(),
            Outcome::Error(_) => String::new(),
        },
    }
}

/// Commits from what their bytes say, [`infos_of`].
fn commits_to_infos(commits: &Vec<(String, &CommitRecord)>) -> (r: Vec<CommitInfo>)
    requires
        all_complete(commits.deep_view()),
    ensures
        r.deep_view() == infos_of(commits.deep_view()),
{
    let ghost all = commits.deep_view();
    let mut infos: Vec<CommitInfo> = Vec::new();
    let mut i: usize = 0;
    while i < commits.len()
        invariant
            i <= commits@.len(),
            all == commits.deep_view(),
            all.len() == commits@.len(),
            all_complete(all),
            infos@.len() == i,
            forall|j: int|
                0 <= j < i ==> (#[trigger] infos@[j]).deep_view() == info_of(all[j].0, all[j].1),
        decreases commits.len() - i,
    {
        assert(all[i as int] == commits@[i as int].deep_view());
        infos.push(commit_to_info(&commits[i].0, commits[i].1));
        i = i + 1;
    }
    assert(infos.deep_view() =~= infos_of(all));
    infos
}

/// Whether a commit has to do with a path, [`touches`].
fn commit_touches_path(replies: &Replies, record: &CommitRecord, path: &str) -> (r: Step<
    bool,
    GitError,
>)
    ensures
        r.deep_view() == touches(replies.deep_view(), record.deep_view(), path@),
{
    let tree = match lookup::root_tree(replies, record) {
        Step::Ask(calls) => return Step::Ask(calls),
        Step::Failed(error) => return Step::Failed(error),
        Step::Done(tree) => tree,
    };
    let call = HostCall::EntryAt { tree, path: path.to_owned() };
    match replies.entry(&call) {
        None => host::ask(call),
        Some(Outcome::Got(Some(_))) => Step::Done(true),
        Some(Outcome::Got(None)) | Some(Outcome::Error(_)) => Step::Done(false),
    }
}

/// A commit comes up in a history, [`log_items`].
fn log_commit<'a>(
    replies: &'a Replies,
    step: &Outcome<String>,
    path: Option<&str>,
    g: &mut Gathering<(String, &'a CommitRecord), GitError>,
)
    ensures
        final(g).deep_view() == host::absorb_all(
            old(g).deep_view(),
            log_items(replies.deep_view(), step.deep_view(), path.deep_view()),
        ),
{
    let oid = match step {
        Outcome::Error(error) => {
            g.step(Step::Failed(GitError::Gix(error.clone())));
            return;
        },
        Outcome::Got(oid) => oid,
    };
    let call = HostCall::Commit { oid: oid.clone() };
    match replies.commit(&call) {
        None => {
            proof {
                host::lemma_absorb_one(
                    g.deep_view(),
                    ItemView::<(Seq<char>, CommitRecordView), GitErrorView>::Need(call.deep_view()),
                );
            }
            g.need(call);
        },
        Some(Outcome::Error(error)) => g.step(Step::Failed(GitError::Gix(error.clone()))),
        Some(Outcome::Got(record)) => {
            let listed = match path {
                None => true,
                Some(p) => match commit_touches_path(replies, record, p) {
                    Step::Ask(calls) => {
                        g.step(Step::Ask(calls));
                        return;
                    },
                    Step::Failed(error) => {
                        g.step(Step::Failed(error));
                        return;
                    },
                    Step::Done(touched) => touched,
                },
            };
            if listed {
                g.step(Step::Done((oid.clone(), record)));
            }
        },
    }
}

/// The commits in a window of a history, [`history`].
fn list_history<'a>(
    replies: &'a Replies,
    start: String,
    skip: u32,
    take: u32,
    path: Option<&str>,
) -> (r: Step<Vec<(String, &'a CommitRecord)>, GitError>)
    ensures
        r.deep_view() == history(replies.deep_view(), start@, skip, take, path.deep_view()),
{
    let limit: u64 = skip as u64 + take as u64;
    let call = HostCall::Walk { start, until: None, limit: Some(limit) };
    let steps = match replies.walk(&call) {
        None => return host::ask(call),
        Some(Outcome::Error(error)) => return Step::Failed(GitError::Gix(error.clone())),
        Some(Outcome::Got(steps)) => steps,
    };
    let ghost k = replies.deep_view();
    let ghost all = window(steps.deep_view(), skip as nat, take as nat);
    let ghost f = |step: OutcomeView<Seq<char>>| log_items(k, step, path.deep_view());
    let len: usize = steps.len();
    let from: usize = if (skip as u64) < len as u64 {
        skip as usize
    } else {
        len
    };
    let to: usize = if limit < len as u64 {
        limit as usize
    } else {
        len
    };
    let mut g: Gathering<(String, &CommitRecord), GitError> = Gathering::new();
    let mut i: usize = from;
    assert(all.take(0).flat_map(f) == Seq::<
        ItemView<(Seq<char>, CommitRecordView), GitErrorView>,
    >::empty());
    assert(all == steps.deep_view().subrange(from as int, to as int));
    while i < to
        invariant
            from <= i <= to <= steps@.len(),
            k == replies.deep_view(),
            all == steps.deep_view().subrange(from as int, to as int),
            f == |step: OutcomeView<Seq<char>>| log_items(k, step, path.deep_view()),
            g.deep_view() == host::absorb_all(host::nothing(), all.take(i - from).flat_map(f)),
        decreases to - i,
    {
        proof {
            let n = i - from;
            all.lemma_flat_map_take_append(f, n);
            assert(all[n] == steps@[i as int].deep_view());
            host::lemma_absorb_concat(host::nothing(), all.take(n).flat_map(f), f(all[n]));
        }
        log_commit(replies, &steps[i], path, &mut g);
        i = i + 1;
    }
    assert(all.take(i - from) == all);
    g.conclude()
}

impl CommitService {
    /// The configuration that the service works with.
    pub closed spec fn config(&self) -> StorageConfigView {
        self.config.deep_view()
    }

    /// The service for a configuration.
    pub fn new(config: StorageConfig) -> (r: Self)
        ensures
            r.config() == config.deep_view(),
    {
        CommitService { config }
    }

    /// Finds a commit, [`found_commit`].
    fn find_commit<'a>(&self, owner: &str, name: &str, oid: &str, replies: &'a Replies) -> (r: Step<
        (String, &'a CommitRecord),
        GitError,
    >)
        ensures
            r.deep_view() == found_commit(
                replies.deep_view(),
                self.config(),
                owner@,
                name@,
                oid@,
            ),
    {
        match open_repo_by_name(&self.config, owner, name, replies) {
            Step::Ask(calls) => return Step::Ask(calls),
            Step::Failed(error) => return Step::Failed(error),
            Step::Done(_) => {},
        }
        let id = match objects::parse_object_id(oid) {
            None => return Step::Failed(GitError::ObjectNotFound { oid: oid.to_owned() }),
            Some(id) => id,
        };
        let call = HostCall::Commit { oid: id.clone() };
        match replies.commit(&call) {
            None => host::ask(call),
            Some(Outcome::Error(_)) => Step::Failed(
                GitError::ObjectNotFound { oid: oid.to_owned() },
            ),
            Some(Outcome::Got(record)) => Step::Done((id, record)),
        }
    }

    /// Whether the commit that an id names can be shown, if it was found,
    /// [`showable`].
    pub fn shows_commit(&self, owner: &str, name: &str, oid: &str, replies: &Replies) -> (r: bool)
        ensures
            r == showable(
                found_commit(replies.deep_view(), self.config(), owner@, name@, oid@),
            ),
    {
        is_showable(&self.find_commit(owner, name, oid, replies))
    }

    /// Reads a commit, [`get_commit`].
    pub fn get_commit(&self, owner: &str, name: &str, oid: &str, replies: &Replies) -> (r: Step<
        CommitInfo,
        GitError,
    >)
        requires
            showable(found_commit(replies.deep_view(), self.config(), owner@, name@, oid@)),
        ensures
            r.deep_view() == get_commit(
                replies.deep_view(),
                self.config(),
                owner@,
                name@,
                oid@,
            ),
    {
        match self.find_commit(owner, name, oid, replies) {
            Step::Ask(calls) => Step::Ask(calls),
            Step::Failed(error) => Step::Failed(error),
            Step::Done(commit) => Step::Done(commit_to_info(&commit.0, commit.1)),
        }
    }

    /// Finds the history behind a revision, [`found_log`].
    fn find_log<'a>(
        &self,
        owner: &str,
        name: &str,
        start_ref: &str,
        limit: Option<u32>,
        skip: Option<u32>,
        path_filter: Option<&str>,
        replies: &'a Replies,
    ) -> (r: Step<Vec<(String, &'a CommitRecord)>, GitError>)
        ensures
            r.deep_view() == found_log(
                replies.deep_view(),
                self.config(),
                owner@,
                name@,
                start_ref@,
                limit,
                skip,
                path_filter.deep_view(),
            ),
    {
        match open_repo_by_name(&self.config, owner, name, replies) {
            Step::Ask(calls) => return Step::Ask(calls),
            Step::Failed(error) => return Step::Failed(error),
            Step::Done(_) => {},
        }
        let start = match lookup::resolve(replies, start_ref) {
            Step::Ask(calls) => return Step::Ask(calls),
            Step::Failed(error) => return Step::Failed(error),
            Step::Done(oid) => oid,
        };
        let skip_count = match skip {
            Some(n) => n,
            None => 0,
        };
        let take_count = match limit {
            Some(n) => n,
            None => DEFAULT_LIMIT,
        };
        list_history(replies, start, skip_count, take_count, path_filter)
    }

    /// Whether the commits in the history behind a revision can be shown, if they
    /// were found, [`all_showable`].
    pub fn shows_log(
        &self,
        owner: &str,
        name: &str,
        start_ref: &str,
        limit: Option<u32>,
        skip: Option<u32>,
        path_filter: Option<&str>,
        replies: &Replies,
    ) -> (r: bool)
        ensures
            r == all_showable(
                found_log(
                    replies.deep_view(),
                    self.config(),
                    owner@,
                    name@,
                    start_ref@,
                    limit,
                    skip,
                    path_filter.deep_view(),
                ),
            ),
    {
        are_showable(&self.find_log(owner, name, start_ref, limit, skip, path_filter, replies))
    }

    /// Lists the history behind a revision, [`get_log`].
    pub fn get_log(
        &self,
        owner: &str,
        name: &str,
        start_ref: &str,
        limit: Option<u32>,
        skip: Option<u32>,
        path_filter: Option<&str>,
        replies: &Replies,
    ) -> (r: Step<Vec<CommitInfo>, GitError>)
        requires
            all_showable(
                found_log(
                    replies.deep_view(),
                    self.config(),
                    owner@,
                    name@,
                    start_ref@,
                    limit,
                    skip,
                    path_filter.deep_view(),
                ),
            ),
        ensures
            r.deep_view() == get_log(
                replies.deep_view(),
                self.config(),
                owner@,
                name@,
                start_ref@,
                limit,
                skip,
                path_filter.deep_view(),
            ),
    {
        match self.find_log(owner, name, start_ref, limit, skip, path_filter, replies) {
            Step::Ask(calls) => Step::Ask(calls),
            Step::Failed(error) => Step::Failed(error),
            Step::Done(commits) => Step::Done(commits_to_infos(&commits)),
        }
    }

    /// Finds the history behind a commit, [`found_ancestors`].
    fn find_ancestors<'a>(
        &self,
        owner: &str,
        name: &str,
        oid: &str,
        limit: Option<u32>,
        replies: &'a Replies,
    ) -> (r: Step<Vec<(String, &'a CommitRecord)>, GitError>)
        ensures
            r.deep_view() == found_ancestors(
                replies.deep_view(),
                self.config(),
                owner@,
                name@,
                oid@,
                limit,
            ),
    {
        match open_repo_by_name(&self.config, owner, name, replies) {
            Step::Ask(calls) => return Step::Ask(calls),
            Step::Failed(error) => return Step::Failed(error),
            Step::Done(_) => {},
        }
        let start = match objects::parse_object_id(oid) {
            None => return Step::Failed(GitError::ObjectNotFound { oid: oid.to_owned() }),
            Some(id) => id,
        };
        let take_count = match limit {
            Some(n) => n,
            None => DEFAULT_LIMIT,
        };
        list_history(replies, start, 1, take_count, None)
    }

    /// Whether the commits in the history behind a commit can be shown, if they
    /// were found, [`all_showable`].
    pub fn shows_ancestors(
        &self,
        owner: &str,
        name: &str,
        oid: &str,
        limit: Option<u32>,
        replies: &Replies,
    ) -> (r: bool)
        ensures
            r == all_showable(
                found_ancestors(
                    replies.deep_view(),
                    self.config(),
                    owner@,
                    name@,
                    oid@,
                    limit,
                ),
            ),
    {
        are_showable(&self.find_ancestors(owner, name, oid, limit, replies))
    }

    /// Lists the history behind a commit, [`get_ancestors`].
    pub fn get_ancestors(
        &self,
        owner: &str,
        name: &str,
        oid: &str,
        limit: Option<u32>,
        replies: &Replies,
    ) -> (r: Step<Vec<CommitInfo>, GitError>)
        requires
            all_showable(
                found_ancestors(
                    replies.deep_view(),
                    self.config(),
                    owner@,
                    name@,
                    oid@,
                    limit,
                ),
            ),
        ensures
            r.deep_view() == get_ancestors(
                replies.deep_view(),
                self.config(),
                owner@,
                name@,
                oid@,
                limit,
            ),
    {
        match self.find_ancestors(owner, name, oid, limit, replies) {
            Step::Ask(calls) => Step::Ask(calls),
            Step::Failed(error) => Step::Failed(error),
            Step::Done(commits) => Step::Done(commits_to_infos(&commits)),
        }
    }

    /// Finds the best common ancestor of two commits, [`find_merge_base`].
    pub fn find_merge_base(
        &self,
        owner: &str,
        name: &str,
        oid1: &str,
        oid2: &str,
        replies: &Replies,
    ) -> (r: Step<Option<String>, GitError>)
        ensures
            r.deep_view() == find_merge_base(
                replies.deep_view(),
                self.config(),
                owner@,
                name@,
                oid1@,
                oid2@,
            ),
    {
        match open_repo_by_name(&self.config, owner, name, replies) {
            Step::Ask(calls) => return Step::Ask(calls),
            Step::Failed(error) => return Step::Failed(error),
            Step::Done(_) => {},
        }
        let one = match objects::parse_object_id(oid1) {
            None => return Step::Failed(GitError::ObjectNotFound { oid: oid1.to_owned() }),
            Some(id) => id,
        };
        let two = match objects::parse_object_id(oid2) {
            None => return Step::Failed(GitError::ObjectNotFound { oid: oid2.to_owned() }),
            Some(id) => id,
        };
        match lookup::merge_base(replies, &one, &two) {
            Step::Ask(calls) => Step::Ask(calls),
            Step::Failed(error) => Step::Failed(error),
            Step::Done(base) => Step::Done(Some(base)),
        }
    }
}

} // verus!
