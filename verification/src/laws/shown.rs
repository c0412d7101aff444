//! What is shown of a commit, in terms of what the machine has told.

use vstd::prelude::*;

use super::history::{lemma_log_items, lemma_page, walked};
use super::host::{
    all_values, keeps, law_gather_done, lemma_done_items, lemma_filter_all, lemma_filter_none,
    lemma_filter_values, lemma_flat_map_filter, lemma_flat_map_values_have, lemma_values_are_done,
    values_have,
};
use super::merging::{base_told, revision_told};
use crate::git::commits::{self, CommitInfoView, GitActorView};
use crate::git::objects::{self, CommitRecordView};
use crate::git::{GitErrorView, StorageConfigView};
use crate::host::{self, HostCallView, ItemView, OutcomeView, ReplyView, StepView};

verus! {

/// Whether a commit is shown as its record has it: all parents in their order, and
/// title, author, committer and tree each in its own place.
pub open spec fn shows(info: CommitInfoView, oid: Seq<char>, record: CommitRecordView) -> bool {
    &&& info.oid == oid
    &&& info.message == record.title
    &&& info.parent_oids.len() == record.parents.len()
    &&& forall|i: int|
        0 <= i < record.parents.len() ==> #[trigger] info.parent_oids[i] == record.parents[i]
    &&& record.author is Some ==> info.author == record.author->0
    &&& record.committer is Some ==> info.committer == record.committer->0
    &&& record.tree is Got ==> info.tree_oid == record.tree->Got_0
}

/// The record that the machine has told of a commit.
pub open spec fn record_told(k: Seq<(HostCallView, ReplyView)>, oid: Seq<char>) -> Option<
    CommitRecordView,
> {
    match host::reply_to(k, HostCallView::Commit { oid }) {
        Some(ReplyView::Commit(OutcomeView::Got(record))) => Some(record),
        _ => None,
    }
}

/// Whether a commit is shown as the machine has told of it.
pub open spec fn shown_as_told(k: Seq<(HostCallView, ReplyView)>, info: CommitInfoView) -> bool {
    record_told(k, info.oid) is Some && shows(info, info.oid, record_told(k, info.oid)->0)
}

/// A commit that is shown is the one that the text spells, as its record has it; what
/// spells no id, or cannot be read, is not found.
pub proof fn law_commit_is_shown_as_told(
    k: Seq<(HostCallView, ReplyView)>,
    config: StorageConfigView,
    owner: Seq<char>,
    name: Seq<char>,
    oid: Seq<char>,
)
    ensures
        commits::get_commit(k, config, owner, name, oid) matches StepView::Done(info)
            ==> Some(info.oid) == objects::object_id(oid) && shown_as_told(k, info),
        crate::git::opened(k, config, owner, name) is Done && (objects::object_id(oid) is None
            || host::reply_to(
            k,
            HostCallView::Commit { oid: objects::object_id(oid)->0 },
        ) matches Some(ReplyView::Commit(OutcomeView::Error(error)))) ==> commits::get_commit(
            k,
            config,
            owner,
            name,
            oid,
        ) == StepView::<CommitInfoView, GitErrorView>::Failed(
            GitErrorView::ObjectNotFound { oid },
        ),
{
}

/// What comes up in a log is what the machine has told of the commit.
proof fn lemma_log_told(
    k: Seq<(HostCallView, ReplyView)>,
    start: Seq<char>,
    skip: u32,
    take: u32,
    path: Option<Seq<char>>,
)
    ensures
        commits::history(k, start, skip, take, path) matches StepView::Done(found)
            ==> forall|i: int|
            0 <= i < found.len() ==> record_told(k, (#[trigger] found[i]).0) == Some(found[i].1),
{
    if let StepView::Done(found) = commits::history(k, start, skip, take, path) {
        let page = commits::window(walked(k, start, skip, take), skip as nat, take as nat);
        let f = |step: OutcomeView<Seq<char>>| commits::log_items(k, step, path);
        let p = |commit: (Seq<char>, CommitRecordView)|
            record_told(k, commit.0) == Some(commit.1);
        assert forall|i: int| 0 <= i < page.len() implies values_have(f(#[trigger] page[i]), p) by {
            lemma_log_items(k, page[i], path);
        }
        lemma_flat_map_values_have(page, f, p);
        let items = page.flat_map(f);
        law_gather_done(items);
        assert(host::gather(items) == StepView::<
            Seq<(Seq<char>, CommitRecordView)>,
            GitErrorView,
        >::Done(found));
        assert forall|i: int| 0 <= i < found.len() implies record_told(
            k,
            (#[trigger] found[i]).0,
        ) == Some(found[i].1) by {
            assert(items[i] == ItemView::<(Seq<char>, CommitRecordView), GitErrorView>::Value(
                found[i],
            ));
            assert(p(found[i]));
        }
    }
}

/// Every commit of a log is shown as the machine has told of it.
pub proof fn law_log_is_shown_as_told(
    k: Seq<(HostCallView, ReplyView)>,
    config: StorageConfigView,
    owner: Seq<char>,
    name: Seq<char>,
    start_ref: Seq<char>,
    limit: Option<u32>,
    skip: Option<u32>,
    path: Option<Seq<char>>,
)
    ensures
        commits::get_log(
            k,
            config,
            owner,
            name,
            start_ref,
            limit,
            skip,
            path,
        ) matches StepView::Done(log) ==> revision_told(k, start_ref) is Some && forall|i: int|
            0 <= i < log.len() ==> shown_as_told(k, #[trigger] log[i]),
{
    if let StepView::Done(log) = commits::get_log(
        k,
        config,
        owner,
        name,
        start_ref,
        limit,
        skip,
        path,
    ) {
        let start = revision_told(k, start_ref)->0;
        let from = commits::given_or(skip, 0);
        let take = commits::given_or(limit, commits::DEFAULT_LIMIT);
        let found = commits::history(k, start, from, take, path)->Done_0;
        lemma_log_told(k, start, from, take, path);
        assert forall|i: int| 0 <= i < log.len() implies shown_as_told(k, #[trigger] log[i]) by {
            assert(log[i] == commits::info_of(found[i].0, found[i].1));
            assert(record_told(k, found[i].0) == Some(found[i].1));
        }
    }
}

/// The commits behind one are those of the walk from it without the first step, no more
/// than were asked for, each shown as the machine has told of it.
pub proof fn law_ancestors_follow_the_walk(
    k: Seq<(HostCallView, ReplyView)>,
    config: StorageConfigView,
    owner: Seq<char>,
    name: Seq<char>,
    oid: Seq<char>,
    limit: Option<u32>,
)
    ensures
        commits::get_ancestors(
            k,
            config,
            owner,
            name,
            oid,
            limit,
        ) matches StepView::Done(log) ==> {
            let most: int = match limit {
                Some(n) => n as int,
                None => 100,
            };
            let walk = HostCallView::Walk {
                start: objects::object_id(oid)->0,
                until: None,
                limit: Some((1 + most) as u64),
            };
            let steps = host::reply_to(k, walk)->0->Walk_0->Got_0;
            &&& objects::object_id(oid) is Some
            &&& host::reply_to(k, walk) is Some
            &&& log.len() == if steps.len() == 0 {
                0
            } else if steps.len() - 1 < most {
                steps.len() - 1
            } else {
                most
            }
            &&& forall|i: int|
                0 <= i < log.len() ==> steps[i + 1] == OutcomeView::Got((#[trigger] log[i]).oid)
                    && shown_as_told(k, log[i])
        },
{
    if let StepView::Done(log) = commits::get_ancestors(k, config, owner, name, oid, limit) {
        let start = objects::object_id(oid)->0;
        let take = commits::given_or(limit, commits::DEFAULT_LIMIT);
        let found = commits::history(k, start, 1, take, None)->Done_0;
        let steps = walked(k, start, 1, take);
        let page = commits::window(steps, 1, take as nat);
        lemma_log_told(k, start, 1, take, None);
        lemma_page(k, start, 1, take);
        assert forall|i: int| 0 <= i < log.len() implies steps[i + 1] == OutcomeView::Got(
            (#[trigger] log[i]).oid,
        ) && shown_as_told(k, log[i]) by {
            assert(log[i] == commits::info_of(found[i].0, found[i].1));
            assert(record_told(k, found[i].0) == Some(found[i].1));
            assert(page[i] == steps[i + 1]);
            let items = commits::log_items(k, page[i], None);
            assert(items[0] == ItemView::<(Seq<char>, CommitRecordView), GitErrorView>::Value(
                found[i],
            ));
        }
    }
}

/// Whether the machine has told that there is something at a path below the tree of a
/// commit.
pub open spec fn has_path(k: Seq<(HostCallView, ReplyView)>, path: Seq<char>) -> spec_fn(
    (Seq<char>, CommitRecordView),
) -> bool {
    |commit: (Seq<char>, CommitRecordView)|
        commit.1.tree is Got && (host::reply_to(
            k,
            HostCallView::EntryAt { tree: commit.1.tree->Got_0, path },
        ) matches Some(ReplyView::Entry(OutcomeView::Got(Some(item)))))
}

/// A path restricts a page of a history to the commits that have something at it, in
/// the same order.
pub proof fn law_path_restricts_the_log(
    k: Seq<(HostCallView, ReplyView)>,
    start: Seq<char>,
    skip: u32,
    take: u32,
    path: Seq<char>,
)
    requires
        commits::history(k, start, skip, take, None) is Done,
        commits::history(k, start, skip, take, Some(path)) is Done,
    ensures
        commits::history(k, start, skip, take, Some(path))->Done_0 == commits::history(
            k,
            start,
            skip,
            take,
            None,
        )->Done_0.filter(has_path(k, path)),
{
    let page = commits::window(walked(k, start, skip, take), skip as nat, take as nat);
    let all = commits::history(k, start, skip, take, None)->Done_0;
    let some = commits::history(k, start, skip, take, Some(path))->Done_0;
    let f = |step: OutcomeView<Seq<char>>| commits::log_items(k, step, None);
    let g = |step: OutcomeView<Seq<char>>| commits::log_items(k, step, Some(path));
    let q = keeps::<(Seq<char>, CommitRecordView), GitErrorView>(has_path(k, path));
    lemma_done_items(page.flat_map(f));
    lemma_done_items(page.flat_map(g));
    assert(host::gather(page.flat_map(f)) == StepView::<
        Seq<(Seq<char>, CommitRecordView)>,
        GitErrorView,
    >::Done(all));
    assert(host::gather(page.flat_map(g)) == StepView::<
        Seq<(Seq<char>, CommitRecordView)>,
        GitErrorView,
    >::Done(some));
    assert forall|i: int| 0 <= i < page.len() && all_values(f(#[trigger] page[i])) implies g(
        page[i],
    ) == f(page[i]).filter(q) by {
        super::host::lemma_flat_map_part(page, g, i);
        assert(all_values(g(page[i])));
        let one = f(page[i]);
        lemma_log_items(k, page[i], None);
        lemma_log_items(k, page[i], Some(path));
        assert(one[0] is Value);
        let some = g(page[i]);
        if some.len() > 0 {
            assert(some[0] is Value);
        }
        if q(one[0]) {
            lemma_filter_all(one, q);
        } else {
            lemma_filter_none(one, q);
        }
    }
    lemma_flat_map_filter(page, f, g, q);
    lemma_filter_values::<(Seq<char>, CommitRecordView), GitErrorView>(all, has_path(k, path));
    lemma_values_are_done::<(Seq<char>, CommitRecordView), GitErrorView>(
        all.filter(has_path(k, path)),
    );
}

/// The history behind a revision is that behind the commit that it names, with the page
/// that was asked for.
pub proof fn law_log_starts_at_the_revision(
    k: Seq<(HostCallView, ReplyView)>,
    config: StorageConfigView,
    owner: Seq<char>,
    name: Seq<char>,
    start_ref: Seq<char>,
    limit: u32,
    skip: u32,
    path: Option<Seq<char>>,
)
    ensures
        commits::found_log(
            k,
            config,
            owner,
            name,
            start_ref,
            Some(limit),
            Some(skip),
            path,
        ) matches StepView::Done(found) ==> revision_told(k, start_ref) is Some
            && commits::history(k, revision_told(k, start_ref)->0, skip, limit, path)
            == StepView::<Seq<(Seq<char>, CommitRecordView)>, GitErrorView>::Done(found),
{
}

/// The common ancestor of two commits is the one that the machine has told of the ids
/// that the texts spell.
pub proof fn law_merge_base_as_told(
    k: Seq<(HostCallView, ReplyView)>,
    config: StorageConfigView,
    owner: Seq<char>,
    name: Seq<char>,
    oid1: Seq<char>,
    oid2: Seq<char>,
)
    ensures
        commits::find_merge_base(
            k,
            config,
            owner,
            name,
            oid1,
            oid2,
        ) matches StepView::Done(base) ==> objects::object_id(oid1) is Some && objects::object_id(
            oid2,
        ) is Some && base is Some && base == base_told(
            k,
            objects::object_id(oid1)->0,
            objects::object_id(oid2)->0,
        ),
{
}

/// Whether a person is told where one is spelled whose time can be told, by the name and
/// the address that are spelled, without the whitespace round them.
pub open spec fn spelled_by(
    person: Option<GitActorView>,
    who: Option<(Seq<u8>, Seq<u8>, Seq<char>)>,
) -> bool {
    match who {
        None => person is None,
        Some((name, email, time)) => {
            let parts = objects::trimmed(name, email, time);
            match person {
                None => objects::time_of(parts.2) is None,
                Some(told) => {
                    &&& told.name == parts.0
                    &&& told.email == parts.1
                    &&& objects::time_of(parts.2) == Some((told.timestamp, told.offset_minutes))
                },
            }
        },
    }
}

/// A commit is read from its bytes part by part: tree, parents and title as the bytes
/// name them, and a person where the bytes name one whose time can be told, without the
/// whitespace round name and address.
pub proof fn law_commit_is_read_part_by_part(data: Seq<u8>)
    ensures
        ({
            let record = objects::commit_record(data);
            &&& match objects::commit_tree(data) {
                Ok(tree) => record.tree == OutcomeView::Got(tree),
                Err(error) => record.tree == OutcomeView::<Seq<char>>::Error(error),
            }
            &&& record.parents == objects::commit_parents(data)
            &&& match objects::commit_message(data) {
                Some(message) => record.title == objects::message_title(message),
                None => record.title.len() == 0,
            }
            &&& spelled_by(record.author, objects::commit_author(data))
            &&& spelled_by(record.committer, objects::commit_committer(data))
        }),
{
}

/// A tree is read from its bytes entry by entry.
pub proof fn law_tree_is_read_entry_by_entry(data: Seq<u8>)
    ensures
        objects::tree_record(data).len() == objects::tree_items(data).len(),
        forall|i: int|
            0 <= i < objects::tree_items(data).len() ==> match #[trigger] objects::tree_items(
                data,
            )[i] {
                Ok((name, mode, oid)) => objects::tree_record(data)[i] is Got
                    && objects::tree_record(data)[i]->Got_0.name == name && objects::tree_record(
                    data,
                )[i]->Got_0.mode == mode && objects::tree_record(data)[i]->Got_0.oid == oid,
                Err(error) => objects::tree_record(data)[i] == OutcomeView::<
                    objects::TreeItemView,
                >::Error(error),
            },
{
}

} // verus!
