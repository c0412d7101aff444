//! Lookups that many operations share.

use vstd::prelude::*;

use super::objects::{CommitRecord, CommitRecordView, TreeItem, TreeItemView};
use super::{GitError, GitErrorView};
use crate::host::{
    self, HostCall, HostCallView, Outcome, OutcomeView, Replies, ReplyView, Step, StepView,
    TreeChange, TreeChangeView,
};

verus! {

/// The result of something, or its failure as a Git error.
pub open spec fn got_or_gix<T>(outcome: OutcomeView<T>) -> StepView<T, GitErrorView> {
    match outcome {
        OutcomeView::Got(value) => StepView::Done(value),
        OutcomeView::Error(error) => StepView::Failed(GitErrorView::Gix(error)),
    }
}

/// The object that a revision names; a revision that names none is not found.
pub open spec fn resolved(k: Seq<(HostCallView, ReplyView)>, spec: Seq<char>) -> StepView<
    Seq<char>,
    GitErrorView,
> {
    let call = HostCallView::Revision { spec };
    match host::id(k, call) {
        None => StepView::Ask(seq![call]),
        Some(None) => StepView::Failed(GitErrorView::RefNotFound { reference: spec }),
        Some(Some(oid)) => StepView::Done(oid),
    }
}

/// The object that a revision names, [`resolved`].
pub fn resolve(replies: &Replies, spec: &str) -> (r: Step<String, GitError>)
    ensures
        r.deep_view() == resolved(replies.deep_view(), spec@),
{
    let call = HostCall::Revision { spec: spec.to_owned() };
    match replies.id(&call) {
        None => host::ask(call),
        Some(None) => Step::Failed(GitError::RefNotFound { reference: spec.to_owned() }),
        Some(Some(oid)) => Step::Done(oid.clone()),
    }
}

/// A commit object.
pub open spec fn commit_at(k: Seq<(HostCallView, ReplyView)>, oid: Seq<char>) -> StepView<
    CommitRecordView,
    GitErrorView,
> {
    let call = HostCallView::Commit { oid };
    host::await_reply(
        host::commit(k, call),
        call,
        |outcome: OutcomeView<CommitRecordView>| got_or_gix(outcome),
    )
}

/// A commit object, [`commit_at`].
pub fn find_commit<'a>(replies: &'a Replies, oid: &str) -> (r: Step<&'a CommitRecord, GitError>)
    ensures
        r.deep_view() == commit_at(replies.deep_view(), oid@),
{
    let call = HostCall::Commit { oid: oid.to_owned() };
    match replies.commit(&call) {
        None => host::ask(call),
        Some(Outcome::Error(error)) => Step::Failed(GitError::Gix(error.clone())),
        Some(Outcome::Got(record)) => Step::Done(record),
    }
}

/// A tree object.
pub open spec fn tree_at(k: Seq<(HostCallView, ReplyView)>, oid: Seq<char>) -> StepView<
    Seq<OutcomeView<TreeItemView>>,
    GitErrorView,
> {
    let call = HostCallView::Tree { oid };
    host::await_reply(
        host::tree(k, call),
        call,
        |outcome: OutcomeView<Seq<OutcomeView<TreeItemView>>>| got_or_gix(outcome),
    )
}

/// A tree object, [`tree_at`].
pub fn find_tree<'a>(replies: &'a Replies, oid: &str) -> (r: Step<
    &'a Vec<Outcome<TreeItem>>,
    GitError,
>)
    ensures
        r.deep_view() == tree_at(replies.deep_view(), oid@),
{
    let call = HostCall::Tree { oid: oid.to_owned() };
    match replies.tree(&call) {
        None => host::ask(call),
        Some(Outcome::Error(error)) => Step::Failed(GitError::Gix(error.clone())),
        Some(Outcome::Got(items)) => Step::Done(items),
    }
}

/// The id of a commit's tree, once that tree has been read.
pub open spec fn root_of(k: Seq<(HostCallView, ReplyView)>, commit: CommitRecordView) -> StepView<
    Seq<char>,
    GitErrorView,
> {
    host::chain(
        got_or_gix(commit.tree),
        |tree: Seq<char>|
            host::chain(
                tree_at(k, tree),
                |items: Seq<OutcomeView<TreeItemView>>| StepView::Done(tree),
            ),
    )
}

/// The id of a commit's tree, [`root_of`].
pub fn root_tree(replies: &Replies, commit: &CommitRecord) -> (r: Step<String, GitError>)
    ensures
        r.deep_view() == root_of(replies.deep_view(), commit.deep_view()),
{
    match &commit.tree {
        Outcome::Error(error) => Step::Failed(GitError::Gix(error.clone())),
        Outcome::Got(tree) => match find_tree(replies, tree) {
            Step::Ask(calls) => Step::Ask(calls),
            Step::Failed(error) => Step::Failed(error),
            Step::Done(_) => Step::Done(tree.clone()),
        },
    }
}

/// The best common ancestor of two commits.
pub open spec fn base_of(
    k: Seq<(HostCallView, ReplyView)>,
    one: Seq<char>,
    two: Seq<char>,
) -> StepView<Seq<char>, GitErrorView> {
    let call = HostCallView::MergeBase { one, two };
    host::await_reply(
        host::text(k, call),
        call,
        |outcome: OutcomeView<Seq<char>>| got_or_gix(outcome),
    )
}

/// The best common ancestor of two commits, [`base_of`].
pub fn merge_base(replies: &Replies, one: &str, two: &str) -> (r: Step<String, GitError>)
    ensures
        r.deep_view() == base_of(replies.deep_view(), one@, two@),
{
    let call = HostCall::MergeBase { one: one.to_owned(), two: two.to_owned() };
    match replies.text(&call) {
        None => host::ask(call),
        Some(Outcome::Error(error)) => Step::Failed(GitError::Gix(error.clone())),
        Some(Outcome::Got(oid)) => Step::Done(oid.clone()),
    }
}

/// The changes that make one tree of another.
pub open spec fn changes_between(
    k: Seq<(HostCallView, ReplyView)>,
    old: Seq<char>,
    new: Seq<char>,
) -> StepView<Seq<TreeChangeView>, GitErrorView> {
    let call = HostCallView::TreeChanges { old, new };
    host::await_reply(
        host::changes(k, call),
        call,
        |outcome: OutcomeView<Seq<TreeChangeView>>| got_or_gix(outcome),
    )
}

/// The changes that make one tree of another, [`changes_between`].
pub fn tree_changes<'a>(replies: &'a Replies, old: &str, new: &str) -> (r: Step<
    &'a Vec<TreeChange>,
    GitError,
>)
    ensures
        r.deep_view() == changes_between(replies.deep_view(), old@, new@),
{
    let call = HostCall::TreeChanges { old: old.to_owned(), new: new.to_owned() };
    match replies.changes(&call) {
        None => host::ask(call),
        Some(Outcome::Error(error)) => Step::Failed(GitError::Gix(error.clone())),
        Some(Outcome::Got(changes)) => Step::Done(changes),
    }
}

} // verus!
