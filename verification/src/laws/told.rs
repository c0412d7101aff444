//! What comes of calls about repositories and references, in terms of what the machine
//! has told and done.

use vstd::prelude::*;

use super::host::{law_gather_done, lemma_flat_map_singles};
use super::merging::revision_told;
use super::refs::{law_created_has_its_type, told};
use crate::git::commits;
use crate::git::diff;
use crate::git::hunks;
use crate::git::operations;
use crate::git::refs::{self, RefInfoView, RefType};
use crate::git::repository;
use crate::git::trees;
use crate::git::{self, GitErrorView, StorageConfigView};
use crate::host::{
    self, DirNode, HostCallView, ItemView, OutcomeView, RawRefView, ReplyView, StepView,
};
use crate::server;
use crate::text;

verus! {

/// Whether the machine has done what it was asked for.
pub open spec fn done(k: Seq<(HostCallView, ReplyView)>, call: HostCallView) -> bool {
    host::reply_to(k, call) == Some(ReplyView::Effect(None))
}

/// Whether the machine has told that there is something at a path, or that there is not.
pub open spec fn there(k: Seq<(HostCallView, ReplyView)>, path: Seq<char>, is: bool) -> bool {
    host::reply_to(k, HostCallView::PathExists { path }) == Some(ReplyView::Flag(is))
}

/// Whether the machine has told that a repository is there and has opened it.
pub open spec fn opened(
    k: Seq<(HostCallView, ReplyView)>,
    config: StorageConfigView,
    owner: Seq<char>,
    name: Seq<char>,
) -> bool {
    let path = git::repo_path(config, owner, name);
    there(k, path, true) && done(k, HostCallView::OpenRepository { path })
}

/// The reference that the machine has told a name to stand for, if any.
pub open spec fn reference_told(k: Seq<(HostCallView, ReplyView)>, name: Seq<char>) -> Option<
    Option<Seq<char>>,
> {
    match host::reply_to(k, HostCallView::FindReference { name }) {
        Some(ReplyView::Id(found)) => Some(found),
        _ => None,
    }
}

/// The reference that the machine has told HEAD to point at, if any.
pub open spec fn head_told(k: Seq<(HostCallView, ReplyView)>) -> Option<Option<Seq<char>>> {
    match host::reply_to(k, HostCallView::Head) {
        Some(ReplyView::Id(head)) => Some(head),
        _ => None,
    }
}

/// A repository stands in the directory of its owner, under its name and `.git`, below
/// the storage.
pub proof fn law_repositories_stand_by_owner_and_name(
    config: StorageConfigView,
    owner: Seq<char>,
    name: Seq<char>,
)
    requires
        config.base_path.len() > 0,
        config.base_path.last() != '/',
        owner.len() > 0,
        owner[0] != '/',
        owner.last() != '/',
        name.len() > 0,
        name[0] != '/',
    ensures
        git::repo_path(config, owner, name) == config.base_path + "/"@ + owner + "/"@ + (name
            + ".git"@),
        git::hooks_dir(config) == config.base_path + "/"@ + ".arbor-hooks"@,
{
    reveal_strlit("/");
    reveal_strlit(".git");
    reveal_strlit(".arbor-hooks");
    let first = config.base_path + "/"@ + owner;
    assert(first.last() == owner.last());
    assert((name + ".git"@)[0] == name[0]);
}

/// Every call about what is in a repository is answered only once that repository is
/// there and open.
pub proof fn law_answers_come_from_the_repository(
    k: Seq<(HostCallView, ReplyView)>,
    config: StorageConfigView,
    owner: Seq<char>,
    name: Seq<char>,
    a: Seq<char>,
    b: Seq<char>,
    filter: Option<Seq<char>>,
    kind: Option<RefType>,
    n: Option<u32>,
    m: Option<u32>,
    flag: bool,
    list: Seq<Seq<char>>,
)
    requires
        !opened(k, config, owner, name),
    ensures
        !(refs::list_refs(k, config, owner, name, kind, filter) is Done),
        !(refs::resolve_ref(k, config, owner, name, a) is Done),
        !(refs::create_branch(k, config, owner, name, a, b) is Done),
        !(refs::delete_branch(k, config, owner, name, a, flag) is Done),
        !(refs::set_default_branch(k, config, owner, name, a) is Done),
        !(refs::create_tag(k, config, owner, name, a, b) is Done),
        !(refs::delete_tag(k, config, owner, name, a) is Done),
        !(commits::get_commit(k, config, owner, name, a) is Done),
        !(commits::get_log(k, config, owner, name, a, n, m, filter) is Done),
        !(commits::get_ancestors(k, config, owner, name, a, n) is Done),
        !(commits::find_merge_base(k, config, owner, name, a, b) is Done),
        !(trees::get_tree(k, config, owner, name, a, filter) is Done),
        !(trees::get_tree_recursive(k, config, owner, name, a, filter, n) is Done),
        !(trees::get_blob(k, config, owner, name, a) is Done),
        !(trees::get_blob_info(k, config, owner, name, a) is Done),
        !(trees::get_blob_by_path(k, config, owner, name, a, b) is Done),
        !(diff::diff_commits(k, config, owner, name, a, b, filter, n) is Done),
        !(diff::diff_commit(k, config, owner, name, a, filter, n) is Done),
        !(operations::merge(k, config, owner, name, a, b, flag) is Done),
        !(operations::cherry_pick(k, config, owner, name, a, b) is Done),
        !(operations::rebase(k, config, owner, name, a, b) is Done),
        !(operations::objects_exist(k, config, owner, name, list) is Done),
        !(repository::get_info(k, config, owner, name) is Done),
{
}

/// A repository that is not there is not found, and one that cannot be opened fails with
/// the machine's words.
pub proof fn law_missing_repositories_are_not_found(
    k: Seq<(HostCallView, ReplyView)>,
    config: StorageConfigView,
    owner: Seq<char>,
    name: Seq<char>,
)
    ensures
        there(k, git::repo_path(config, owner, name), false) ==> git::opened(k, config, owner, name)
            == StepView::<(), GitErrorView>::Failed(GitErrorView::RepositoryNotFound { owner, name }),
        opened(k, config, owner, name) ==> git::opened(k, config, owner, name) == StepView::<
            (),
            GitErrorView,
        >::Done(()),
        forall|words: Seq<char>|
            there(k, git::repo_path(config, owner, name), true) && #[trigger] host::reply_to(
                k,
                HostCallView::OpenRepository { path: git::repo_path(config, owner, name) },
            ) == Some(ReplyView::Effect(Some(words))) ==> git::opened(k, config, owner, name)
                == StepView::<(), GitErrorView>::Failed(GitErrorView::Gix(words)),
{
}

/// A revision is resolved to the object that the machine tells, and to the full name of
/// the reference where it is one.
pub proof fn law_revisions_are_resolved_as_told(
    k: Seq<(HostCallView, ReplyView)>,
    config: StorageConfigView,
    owner: Seq<char>,
    name: Seq<char>,
    reference: Seq<char>,
)
    ensures
        refs::resolve_ref(k, config, owner, name, reference) matches StepView::Done(found) ==> {
            &&& revision_told(k, reference) == Some(found.0)
            &&& reference_told(k, reference) is Some
            &&& reference_told(k, reference)->0 is Some ==> found.1 == reference_told(
                k,
                reference,
            )->0->0
            &&& reference_told(k, reference)->0 is None ==> found.1 == reference
        },
        opened(k, config, owner, name) && host::reply_to(
            k,
            HostCallView::Revision { spec: reference },
        ) == Some(ReplyView::Id(None)) ==> refs::resolve_ref(k, config, owner, name, reference)
            == StepView::<(Seq<char>, Seq<char>), GitErrorView>::Failed(
            GitErrorView::RefNotFound { reference },
        ),
{
}

/// A branch that is created points at what its starting point names, and the machine has
/// made it under `refs/heads/`.
pub proof fn law_branches_are_created_as_told(
    k: Seq<(HostCallView, ReplyView)>,
    config: StorageConfigView,
    owner: Seq<char>,
    name: Seq<char>,
    branch: Seq<char>,
    start: Seq<char>,
)
    ensures
        refs::create_branch(k, config, owner, name, branch, start) matches StepView::Done(info)
            ==> {
            &&& info.name == "refs/heads/"@ + branch
            &&& info.short_name == branch
            &&& revision_told(k, start) == Some(info.oid)
            &&& info.ref_type == RefType::Branch
            &&& head_told(k) is Some
            &&& info.is_default <==> head_told(k)->0 is Some && refs::short_name(head_told(k)->0->0)
                == branch
            &&& done(
                k,
                HostCallView::CreateReference {
                    name: "refs/heads/"@ + branch,
                    target: info.oid,
                    log: "branch: Created branch "@ + branch,
                },
            )
        },
{
}

/// A tag that is created points at what its target names, and the machine has made it
/// under `refs/tags/`; it is never the default.
pub proof fn law_tags_are_created_as_told(
    k: Seq<(HostCallView, ReplyView)>,
    config: StorageConfigView,
    owner: Seq<char>,
    name: Seq<char>,
    tag: Seq<char>,
    target: Seq<char>,
)
    ensures
        refs::create_tag(k, config, owner, name, tag, target) matches StepView::Done(info) ==> {
            &&& info.name == "refs/tags/"@ + tag
            &&& info.short_name == tag
            &&& revision_told(k, target) == Some(info.oid)
            &&& info.ref_type == RefType::Tag
            &&& !info.is_default
            &&& done(
                k,
                HostCallView::CreateReference {
                    name: "refs/tags/"@ + tag,
                    target: info.oid,
                    log: "tag: Created tag "@ + tag,
                },
            )
        },
{
}

/// The full name that is meant by a name: itself where it begins with `refs/`, and else
/// what it makes with the given beginning.
pub open spec fn meant(beginning: Seq<char>, name: Seq<char>) -> Seq<char> {
    if name.len() >= 5 && name.take(5) == seq!['r', 'e', 'f', 's', '/'] {
        name
    } else {
        beginning + name
    }
}

/// What is meant by a name.
pub proof fn lemma_meant(beginning: Seq<char>, name: Seq<char>)
    ensures
        refs::full_name(beginning, name) == meant(beginning, name),
{
    reveal_strlit("refs/");
    assert("refs/"@ == seq!['r', 'e', 'f', 's', '/']);
    if name.len() >= 5 {
        assert(name.take(5) == name.subrange(0, 5));
    }
}

/// A branch is deleted by the reference that the machine finds for it, and unless that is
/// forced only where HEAD points elsewhere; the default one is refused, and what is not
/// there is not found.
pub proof fn law_branches_are_deleted_as_told(
    k: Seq<(HostCallView, ReplyView)>,
    config: StorageConfigView,
    owner: Seq<char>,
    name: Seq<char>,
    branch: Seq<char>,
    force: bool,
)
    ensures
        ({
            let full = meant("refs/heads/"@, branch);
            let step = refs::delete_branch(k, config, owner, name, branch, force);
            &&& step matches StepView::Done(gone) ==> gone && reference_told(k, full) is Some
                && reference_told(k, full)->0 is Some && done(
                k,
                HostCallView::DeleteReference { name: reference_told(k, full)->0->0 },
            ) && (force || head_told(k) is Some && head_told(k)->0 != Some(full))
            &&& opened(k, config, owner, name) && reference_told(k, full) == Some(
                None::<Seq<char>>,
            ) ==> step == StepView::<bool, GitErrorView>::Failed(
                GitErrorView::RefNotFound { reference: branch },
            )
            &&& opened(k, config, owner, name) && reference_told(k, full) is Some && reference_told(
                k,
                full,
            )->0 is Some && !force && head_told(k) == Some(Some(full)) ==> step == StepView::<
                bool,
                GitErrorView,
            >::Failed(
                GitErrorView::InvalidRef { reference: "Cannot delete the default branch"@ },
            )
        }),
{
    lemma_meant("refs/heads/"@, branch);
}

/// A tag is deleted by the reference that the machine finds for it; what is not there is
/// not found.
pub proof fn law_tags_are_deleted_as_told(
    k: Seq<(HostCallView, ReplyView)>,
    config: StorageConfigView,
    owner: Seq<char>,
    name: Seq<char>,
    tag: Seq<char>,
)
    ensures
        ({
            let full = meant("refs/tags/"@, tag);
            let step = refs::delete_tag(k, config, owner, name, tag);
            &&& step matches StepView::Done(gone) ==> gone && reference_told(k, full) is Some
                && reference_told(k, full)->0 is Some && done(
                k,
                HostCallView::DeleteReference { name: reference_told(k, full)->0->0 },
            )
            &&& opened(k, config, owner, name) && reference_told(k, full) == Some(
                None::<Seq<char>>,
            ) ==> step == StepView::<bool, GitErrorView>::Failed(
                GitErrorView::RefNotFound { reference: tag },
            )
        }),
{
    lemma_meant("refs/tags/"@, tag);
}

/// The default branch is set once the machine has found the branch and has written HEAD;
/// what is not there is not found.
pub proof fn law_default_branch_is_set_as_told(
    k: Seq<(HostCallView, ReplyView)>,
    config: StorageConfigView,
    owner: Seq<char>,
    name: Seq<char>,
    branch: Seq<char>,
)
    ensures
        ({
            let full = "refs/heads/"@ + branch;
            let step = refs::set_default_branch(k, config, owner, name, branch);
            &&& step is Done ==> reference_told(k, full) is Some && reference_told(
                k,
                full,
            )->0 is Some && done(
                k,
                HostCallView::WriteFile {
                    path: git::join(git::repo_path(config, owner, name), "HEAD"@),
                    contents: "ref: "@ + full + "\n"@,
                },
            )
            &&& opened(k, config, owner, name) && reference_told(k, full) == Some(
                None::<Seq<char>>,
            ) ==> step == StepView::<(), GitErrorView>::Failed(
                GitErrorView::RefNotFound { reference: branch },
            )
        }),
{
}

/// Without a pattern every reference that the machine tells of is listed, in that order,
/// with the object that it comes to.
pub proof fn law_references_are_listed_as_told(
    k: Seq<(HostCallView, ReplyView)>,
    config: StorageConfigView,
    owner: Seq<char>,
    name: Seq<char>,
    filter: Option<RefType>,
)
    ensures
        refs::list_refs(k, config, owner, name, filter, None) matches StepView::Done(all) ==> {
            let raw = host::reply_to(
                k,
                HostCallView::References { filter },
            )->0->References_0->Got_0;
            &&& host::reply_to(k, HostCallView::References { filter }) is Some
            &&& all.len() == raw.len()
            &&& forall|i: int|
                0 <= i < all.len() ==> (#[trigger] raw[i]) == OutcomeView::Got(
                    RawRefView { name: all[i].name, peeled: OutcomeView::Got(all[i].oid) },
                )
        },
{
    if let StepView::Done(all) = refs::list_refs(k, config, owner, name, filter, None) {
        let raw = told(k, filter);
        let head = host::id(k, HostCallView::Head)->0;
        let f = |reference: OutcomeView<RawRefView>| refs::listed(head, None, reference);
        assert(forall|i: int| 0 <= i < raw.len() ==> f(#[trigger] raw[i]).len() == 1);
        lemma_flat_map_singles(raw, f);
        let items = raw.flat_map(f);
        law_gather_done(items);
        assert(host::gather(items) == StepView::<Seq<RefInfoView>, GitErrorView>::Done(all));
        assert forall|i: int| 0 <= i < all.len() implies (#[trigger] raw[i]) == OutcomeView::Got(
            RawRefView { name: all[i].name, peeled: OutcomeView::Got(all[i].oid) },
        ) by {
            assert(items[i] == f(raw[i])[0]);
            assert(items[i] == ItemView::<RefInfoView, GitErrorView>::Value(all[i]));
        }
    }
}

/// A pattern that ends with a star selects what begins like the rest of it, and one that
/// only begins with a star what ends like the rest.
pub proof fn law_patterns_select_beginnings_and_ends(s: Seq<char>, part: Seq<char>)
    ensures
        refs::simple_glob(s, part.push('*')) <==> exists|rest: Seq<char>| s == #[trigger] (part
            + rest),
        part.len() > 0 && part.last() != '*' ==> (refs::simple_glob(s, seq!['*'] + part)
            <==> exists|rest: Seq<char>| s == #[trigger] (rest + part)),
{
    reveal_strlit("*");
    let begins = part.push('*');
    assert(begins.drop_last() == part);
    assert(begins.last() == '*');
    if part.is_prefix_of(s) {
        assert(s == part + s.skip(part.len() as int));
    }
    if exists|rest: Seq<char>| s == #[trigger] (part + rest) {
        let rest = choose|rest: Seq<char>| s == #[trigger] (part + rest);
        assert(s.subrange(0, part.len() as int) == part);
    }
    if begins == "*"@ {
        assert(part.len() == 0);
        assert(s == part + s);
    }
    if part.len() > 0 && part.last() != '*' {
        let ends = seq!['*'] + part;
        assert(ends.skip(1) == part);
        assert(ends.last() == part.last());
        assert(ends.len() != "*"@.len());
        if part.is_suffix_of(s) {
            assert(s == s.take(s.len() - part.len()) + part);
        }
        if exists|rest: Seq<char>| s == #[trigger] (rest + part) {
            let rest = choose|rest: Seq<char>| s == #[trigger] (rest + part);
            assert(s.subrange(s.len() - part.len(), s.len() as int) == part);
        }
    }
}

/// A remote reference is known by what follows `refs/remotes/`; any other that is no
/// branch and no tag either by its short form, where it has one, and it counts as a
/// branch.
pub proof fn law_other_references_are_named(name: Seq<char>)
    ensures
        refs::short_name("refs/remotes/"@ + name) == name,
        !begins_with(name, "refs/heads/"@) && !begins_with(name, "refs/tags/"@) && !begins_with(
            name,
            "refs/remotes/"@,
        ) ==> {
            &&& refs::type_of(name) == RefType::Branch
            &&& refs::short_form(name) is Some ==> refs::short_name(name) == refs::short_form(
                name,
            )->0
            &&& refs::short_form(name) is None ==> refs::short_name(name) == name
        },
{
    law_created_has_its_type(name);
    reveal_strlit("refs/heads/");
    reveal_strlit("refs/tags/");
    reveal_strlit("refs/remotes/");
    let heads = "refs/heads/"@;
    let tags = "refs/tags/"@;
    let remotes = "refs/remotes/"@;
    let full = remotes + name;
    assert(full.skip(remotes.len() as int) =~= name);
    assert(full.subrange(0, remotes.len() as int) =~= remotes);
    if heads.is_prefix_of(full) {
        assert(full.subrange(0, heads.len() as int)[5] == full[5]);
    }
    if tags.is_prefix_of(full) {
        assert(full.subrange(0, tags.len() as int)[5] == full[5]);
    }
    if heads.is_prefix_of(name) {
        assert(name =~= heads + name.skip(heads.len() as int));
    }
    if tags.is_prefix_of(name) {
        assert(name =~= tags + name.skip(tags.len() as int));
    }
    if remotes.is_prefix_of(name) {
        assert(name =~= remotes + name.skip(remotes.len() as int));
    }
}

/// Whether a text begins with another.
pub open spec fn begins_with(s: Seq<char>, beginning: Seq<char>) -> bool {
    exists|rest: Seq<char>| s == #[trigger] (beginning + rest)
}

/// A repository is created where there is none, and HEAD in it points at the branch that
/// was given, or at the configured one.
pub proof fn law_repositories_are_created_as_told(
    k: Seq<(HostCallView, ReplyView)>,
    config: StorageConfigView,
    owner: Seq<char>,
    name: Seq<char>,
    branch: Option<Seq<char>>,
)
    ensures
        ({
            let path = git::repo_path(config, owner, name);
            let step = repository::init(k, config, owner, name, branch);
            let chosen = if branch is Some {
                branch->0
            } else {
                config.default_branch
            };
            &&& step matches StepView::Done(made) ==> made == path && there(k, path, false) && done(
                k,
                HostCallView::CreateParent { path },
            ) && done(k, HostCallView::InitBare { path }) && done(
                k,
                HostCallView::WriteFile {
                    path: git::join(path, "HEAD"@),
                    contents: "ref: refs/heads/"@ + chosen + "\n"@,
                },
            )
            &&& there(k, path, true) ==> step == StepView::<Seq<char>, GitErrorView>::Failed(
                GitErrorView::RepositoryExists { owner, name },
            )
        }),
{
}

/// A repository is there exactly if something is at its path and in it a HEAD.
pub proof fn law_repositories_exist_as_told(
    k: Seq<(HostCallView, ReplyView)>,
    config: StorageConfigView,
    owner: Seq<char>,
    name: Seq<char>,
)
    ensures
        repository::repository_exists(k, config, owner, name) matches StepView::Done(is) ==> (is
            <==> there(k, git::repo_path(config, owner, name), true) && there(
            k,
            git::join(git::repo_path(config, owner, name), "HEAD"@),
            true,
        )),
{
}

/// A rename succeeds where the name stays, and else exactly where the machine has moved
/// what was there to where nothing was.
pub proof fn law_repositories_are_renamed_as_told(
    k: Seq<(HostCallView, ReplyView)>,
    config: StorageConfigView,
    owner: Seq<char>,
    from: Seq<char>,
    to: Seq<char>,
)
    ensures
        repository::rename(k, config, owner, from, to) matches StepView::Done(moved) ==> (moved
            <==> from == to || there(k, git::repo_path(config, owner, from), true) && there(
            k,
            git::repo_path(config, owner, to),
            false,
        ) && done(
            k,
            HostCallView::Rename {
                from: git::repo_path(config, owner, from),
                to: git::repo_path(config, owner, to),
            },
        )),
{
}

/// A repository is deleted exactly if it was there, once the machine has removed it, and
/// the directory of its owner goes with it where that is empty.
pub proof fn law_repositories_are_deleted_as_told(
    k: Seq<(HostCallView, ReplyView)>,
    config: StorageConfigView,
    owner: Seq<char>,
    name: Seq<char>,
)
    ensures
        ({
            let path = git::repo_path(config, owner, name);
            repository::delete(k, config, owner, name) matches StepView::Done(gone) ==> {
                &&& gone <==> there(k, path, true)
                &&& gone ==> done(k, HostCallView::RemoveDirectory { path })
                &&& gone && host::reply_to(k, HostCallView::ParentIsEmpty { path }) == Some(
                    ReplyView::Answer(OutcomeView::Got(true)),
                ) ==> host::reply_to(k, HostCallView::RemoveParent { path }) is Some
                &&& gone ==> host::reply_to(k, HostCallView::ParentIsEmpty { path }) is Some
            }
        }),
{
}

/// Counts are held in 32 bits and sizes in 64: what is larger starts again from zero.
pub proof fn law_counts_start_again(n: int)
    requires
        0 <= n,
    ensures
        n < 0x1_0000_0000 ==> hunks::low32(n) == n,
        hunks::low32(n + 0x1_0000_0000) == hunks::low32(n),
        n < 0x1_0000_0000_0000_0000 ==> repository::low64(n) == n,
        repository::low64(n + 0x1_0000_0000_0000_0000) == repository::low64(n),
{
}

/// The number that the machine has told, or nothing where it told none.
pub open spec fn number_told(k: Seq<(HostCallView, ReplyView)>, call: HostCallView) -> int {
    match host::reply_to(k, call) {
        Some(ReplyView::Count(Some(n))) => n as int,
        _ => 0,
    }
}

/// What there is to say of a repository is what the machine tells: the branch that HEAD
/// points at, or the configured one, the commit that HEAD stands for and those behind it,
/// the branches, the tags, and the size of all files.
pub proof fn law_repositories_are_described_as_told(
    k: Seq<(HostCallView, ReplyView)>,
    config: StorageConfigView,
    owner: Seq<char>,
    name: Seq<char>,
)
    ensures
        repository::get_info(k, config, owner, name) matches StepView::Done(info) ==> {
            let path = git::repo_path(config, owner, name);
            let branches = number_told(
                k,
                HostCallView::CountReferences { kind: RefType::Branch },
            );
            let tags = number_told(k, HostCallView::CountReferences { kind: RefType::Tag });
            let files = host::reply_to(
                k,
                HostCallView::DirectoryTree { path },
            )->0->Directory_0->Got_0;
            &&& info.owner == owner && info.name == name
            &&& host::reply_to(k, HostCallView::HeadId) == Some(ReplyView::Id(info.head_oid))
            &&& head_told(k) is Some
            &&& head_told(k)->0 is Some ==> info.default_branch == refs::short_name(
                head_told(k)->0->0,
            )
            &&& head_told(k)->0 is None ==> info.default_branch == config.default_branch
            &&& branches < 0x1_0000_0000 ==> info.branch_count == branches
            &&& tags < 0x1_0000_0000 ==> info.tag_count == tags
            &&& info.head_oid is None ==> info.commit_count == 0
            &&& info.head_oid is Some ==> {
                let commits = number_told(
                    k,
                    HostCallView::CountCommits { start: info.head_oid->0 },
                );
                commits < 0x1_0000_0000 ==> info.commit_count == commits
            }
            &&& host::reply_to(k, HostCallView::DirectoryTree { path }) is Some
            &&& repository::total_size(files) <= u64::MAX ==> info.size_bytes
                == repository::total_size(files)
        },
{
}

/// The size of a directory is that of all it holds, whatever the order, and a file's is
/// its own.
pub proof fn law_sizes_add_up(n: u64, a: Seq<DirNode>, b: Seq<DirNode>, node: DirNode)
    ensures
        repository::total_size(DirNode::File(n)) == n,
        node matches DirNode::Directory(children) ==> repository::total_size(node)
            == repository::total_sizes(children@),
        repository::total_sizes(Seq::empty()) == 0,
        repository::total_sizes(seq![node]) == repository::total_size(node),
        repository::total_sizes(a + b) == repository::total_sizes(a) + repository::total_sizes(b),
    decreases b.len(),
{
    assert(seq![node].drop_last().len() == 0);
    assert(repository::total_sizes(seq![node].drop_last()) == 0);
    assert(seq![node].last() == node);
    if b.len() == 0 {
        assert(a + b == a);
    } else {
        law_sizes_add_up(n, a, b.drop_last(), node);
        assert((a + b).drop_last() == a + b.drop_last());
        assert((a + b).last() == b.last());
    }
}

/// The storage is configured by the variables that are given: a path, a size in digits
/// and a branch, of which the first of two names counts; what is not given has a default.
pub proof fn law_storage_is_configured_by_variables(
    path: Option<Seq<char>>,
    size: Option<Seq<char>>,
    branch: Option<Seq<char>>,
    other: Option<Seq<char>>,
)
    ensures
        ({
            let config = git::configured(path, size, branch, other);
            &&& path is Some ==> config.base_path == path->0
            &&& path is None ==> config.base_path == "./data/repositories"@
            &&& branch is Some ==> config.default_branch == branch->0
            &&& branch is None && other is Some ==> config.default_branch == other->0
            &&& branch is None && other is None ==> config.default_branch == "main"@
            &&& size is Some && text::number(size->0, u64::MAX as nat) is Some
                ==> config.max_repo_size == text::number(size->0, u64::MAX as nat)->0
            &&& size is None || text::number(size->0, u64::MAX as nat) is None
                ==> config.max_repo_size == 1024 * 1024 * 1024
        }),
{
}

/// A port is the number that is given, where it is one that a port can have, and else the
/// default.
pub proof fn law_ports_are_numbers(raw: Option<Seq<char>>, default: u16)
    ensures
        raw is Some && text::number(raw->0, 65535) is Some ==> server::port_of(raw, default)
            == text::number(raw->0, 65535)->0,
        raw is None || text::number(raw->0, 65535) is None ==> server::port_of(raw, default)
            == default,
{
}

/// The daemon is ready exactly if the storage is there and writable.
pub proof fn law_ready_with_a_usable_storage(
    k: Seq<(HostCallView, ReplyView)>,
    storage: StorageConfigView,
)
    ensures
        server::readiness(k, storage) matches StepView::Done(answer) ==> {
            let usable = there(k, storage.base_path, true) && host::reply_to(
                k,
                HostCallView::PathWritable { path: storage.base_path },
            ) == Some(ReplyView::Flag(true));
            &&& answer.status == 200 <==> usable
            &&& answer.status == 503 <==> !usable
            &&& usable ==> answer.body == "Ready"@
            &&& !usable ==> answer.body == "Storage not available"@
        },
{
}

/// Paths are joined with one slash between them, and none where the first is empty or
/// ends with one; a second path from the root stands alone.
pub proof fn law_paths_are_joined(base: Seq<char>, part: Seq<char>)
    ensures
        part.len() > 0 && part[0] == '/' ==> git::join(base, part) == part,
        !(part.len() > 0 && part[0] == '/') ==> {
            &&& base.len() == 0 ==> git::join(base, part) == part
            &&& base.len() > 0 && base.last() == '/' ==> git::join(base, part) == base + part
            &&& base.len() > 0 && base.last() != '/' ==> git::join(base, part) == base + seq!['/']
                + part
        },
{
    reveal_strlit("/");
    assert("/"@ =~= seq!['/']);
    if base.len() == 0 {
        assert(base + part =~= part);
    }
}

/// The hook is installed once the machine has made its directory, written there a script
/// that hands over to the daemon, and made that executable.
pub proof fn law_hook_hands_over(k: Seq<(HostCallView, ReplyView)>, config: StorageConfigView)
    ensures
        git::ensure_hook(k, config) matches StepView::Done(dir) ==> {
            &&& dir == git::hooks_dir(config)
            &&& done(k, HostCallView::CreateDirectory { path: dir })
            &&& done(
                k,
                HostCallView::WriteFile {
                    path: git::join(dir, "pre-receive"@),
                    contents: "#!/bin/sh\nexec \"$ARBOR_GIT_BIN\" __pre-receive\n"@,
                },
            )
            &&& done(k, HostCallView::MakeExecutable { path: git::join(dir, "pre-receive"@) })
        },
{
}

/// The daemon listens on every address, at the ports that are set or else at its own.
pub proof fn law_daemon_listens_everywhere(port: u16)
    ensures
        ({
            let addr = server::everywhere(port);
            &&& addr.a == 0 && addr.b == 0 && addr.c == 0 && addr.d == 0
            &&& addr.port == port
        }),
        server::port_of(None, server::GRPC_PORT) == 50051,
        server::port_of(None, server::HTTP_PORT) == 8080,
{
}

} // verus!
