//! What holds of every reference that is listed, created or deleted.

use vstd::prelude::*;

use super::host::{
    all_values, keeps, law_gather_done, lemma_done_items, lemma_filter_all, lemma_filter_none,
    lemma_filter_values, lemma_flat_map_filter, lemma_flat_map_values_have, lemma_values_are_done,
    values_have,
};
use super::repository::asks_for;
use crate::git::refs::{self, RefInfoView, RefType};
use crate::git::{self, GitErrorView, StorageConfigView};
use crate::host::{self, HostCallView, ItemView, OutcomeView, RawRefView, ReplyView, StepView};

verus! {

/// The default branch is deleted only where that is forced: otherwise a deletion
/// is asked for only once the machine has told that HEAD points elsewhere.
pub proof fn law_default_branch_is_kept(
    k: Seq<(HostCallView, ReplyView)>,
    config: StorageConfigView,
    owner: Seq<char>,
    name: Seq<char>,
    branch: Seq<char>,
    target: Seq<char>,
)
    requires
        asks_for(
            refs::delete_branch(k, config, owner, name, branch, false),
            HostCallView::DeleteReference { name: target },
        ),
    ensures
        host::id(k, HostCallView::Head) matches Some(head) && head != Some(
            refs::full_name("refs/heads/"@, branch),
        ),
{
    let step = refs::delete_branch(k, config, owner, name, branch, false);
    let delete = HostCallView::DeleteReference { name: target };
    let calls = step->Ask_0;
    let i = choose|i: int| 0 <= i < calls.len() && calls[i] == delete;
    assert(calls[i] == delete);
}

/// HEAD is pointed only at a branch that exists.
pub proof fn law_default_branch_exists(
    k: Seq<(HostCallView, ReplyView)>,
    config: StorageConfigView,
    owner: Seq<char>,
    name: Seq<char>,
    branch: Seq<char>,
    path: Seq<char>,
    contents: Seq<char>,
)
    requires
        asks_for(
            refs::set_default_branch(k, config, owner, name, branch),
            HostCallView::WriteFile { path, contents },
        ),
    ensures
        host::id(
            k,
            HostCallView::FindReference { name: "refs/heads/"@ + branch },
        ) matches Some(Some(found)),
        path == git::join(git::repo_path(config, owner, name), "HEAD"@),
        contents == "ref: refs/heads/"@ + branch + "\n"@,
{
    let step = refs::set_default_branch(k, config, owner, name, branch);
    let write = HostCallView::WriteFile { path, contents };
    let calls = step->Ask_0;
    let i = choose|i: int| 0 <= i < calls.len() && calls[i] == write;
    assert(calls[i] == write);
    reveal_strlit("ref: refs/heads/");
    reveal_strlit("ref: ");
    reveal_strlit("refs/heads/");
    assert("ref: "@ + "refs/heads/"@ =~= "ref: refs/heads/"@);
    assert("ref: "@ + ("refs/heads/"@ + branch) + "\n"@ =~= "ref: refs/heads/"@ + branch + "\n"@);
}

/// The reference that HEAD points at is listed as the default one.
pub proof fn law_head_is_default(name: Seq<char>, oid: Seq<char>)
    ensures
        ({
            let raw = RawRefView { name, peeled: OutcomeView::Got(oid) };
            let items = refs::listed(Some(name), None, OutcomeView::Got(raw));
            items.len() == 1 && items[0] is Value && items[0]->Value_0.is_default
        }),
{
}

/// A reference is listed under the type that its name begins with.
pub proof fn law_created_has_its_type(name: Seq<char>)
    ensures
        refs::type_of("refs/heads/"@ + name) == RefType::Branch,
        refs::type_of("refs/tags/"@ + name) == RefType::Tag,
        refs::type_of("refs/remotes/"@ + name) == RefType::Remote,
{
    reveal_strlit("refs/heads/");
    reveal_strlit("refs/tags/");
    reveal_strlit("refs/remotes/");
    let heads = "refs/heads/"@;
    let tags = "refs/tags/"@;
    let remotes = "refs/remotes/"@;
    assert((heads + name).subrange(0, heads.len() as int) == heads);
    assert((tags + name).subrange(0, tags.len() as int) == tags);
    assert((remotes + name).subrange(0, remotes.len() as int) == remotes);
    assert((tags + name)[5] == 't');
    assert((remotes + name)[5] == 'r');
    if heads.is_prefix_of(tags + name) {
        assert((tags + name).subrange(0, heads.len() as int)[5] == (tags + name)[5]);
    }
    if heads.is_prefix_of(remotes + name) {
        assert((remotes + name).subrange(0, heads.len() as int)[5] == (remotes + name)[5]);
    }
    if tags.is_prefix_of(remotes + name) {
        assert((remotes + name).subrange(0, tags.len() as int)[5] == (remotes + name)[5]);
    }
}

/// A branch or a tag that was created is listed under the short name that it was
/// created with, and a branch is the default one where HEAD points at it.
pub proof fn law_created_keeps_its_name(name: Seq<char>)
    ensures
        refs::short_name("refs/heads/"@ + name) == name,
        refs::short_name("refs/tags/"@ + name) == name,
        refs::is_default(Some("refs/heads/"@ + name), name),
{
    law_created_has_its_type(name);
    let heads = "refs/heads/"@;
    let tags = "refs/tags/"@;
    assert((heads + name).skip(heads.len() as int) == name);
    assert((tags + name).skip(tags.len() as int) == name);
    assert((heads + name).subrange(0, heads.len() as int) == heads);
    assert((tags + name).subrange(0, tags.len() as int) == tags);
}

/// A star alone selects every name, and a name without stars only itself.
pub proof fn law_simple_patterns(s: Seq<char>, pattern: Seq<char>)
    ensures
        refs::simple_glob(s, "*"@),
        (forall|i: int| 0 <= i < pattern.len() ==> pattern[i] != '*') ==> (refs::simple_glob(
            s,
            pattern,
        ) <==> s == pattern),
{
    reveal_strlit("*");
    if forall|i: int| 0 <= i < pattern.len() ==> pattern[i] != '*' {
        if pattern.len() > 0 {
            assert(pattern[0] != '*');
            assert(pattern[pattern.len() - 1] != '*');
        }
        assert("*"@[0] == '*');
    }
}

/// Whether a pattern matches a reference by its short or by its full name.
pub open spec fn matching(pattern: Seq<char>) -> spec_fn(RefInfoView) -> bool {
    |info: RefInfoView|
        refs::simple_glob(info.short_name, pattern) || refs::simple_glob(info.name, pattern)
}

/// The references that a pattern selects are those of the whole list that it
/// matches, in the same order.
pub proof fn law_pattern_restricts(
    k: Seq<(HostCallView, ReplyView)>,
    config: StorageConfigView,
    owner: Seq<char>,
    name: Seq<char>,
    filter: Option<RefType>,
    pattern: Seq<char>,
)
    requires
        refs::list_refs(k, config, owner, name, filter, None) is Done,
    ensures
        refs::list_refs(k, config, owner, name, filter, Some(pattern)) == StepView::<
            Seq<RefInfoView>,
            GitErrorView,
        >::Done(
            refs::list_refs(k, config, owner, name, filter, None)->Done_0.filter(
                matching(pattern),
            ),
        ),
{
    let references = told(k, filter);
    let head = host::id(k, HostCallView::Head)->0;
    let all = refs::list_refs(k, config, owner, name, filter, None)->Done_0;
    let f = |reference: OutcomeView<RawRefView>| refs::listed(head, None, reference);
    let g = |reference: OutcomeView<RawRefView>| refs::listed(head, Some(pattern), reference);
    let q = keeps::<RefInfoView, GitErrorView>(matching(pattern));
    let items = references.flat_map(f);
    lemma_done_items(items);
    assert(host::gather(items) == StepView::<Seq<RefInfoView>, GitErrorView>::Done(all));
    assert forall|i: int|
        0 <= i < references.len() && all_values(f(#[trigger] references[i])) implies g(
        references[i],
    ) == f(references[i]).filter(q) by {
        let one = f(references[i]);
        assert(one[0] is Value);
        if q(one[0]) {
            lemma_filter_all(one, q);
        } else {
            lemma_filter_none(one, q);
        }
    }
    lemma_flat_map_filter(references, f, g, q);
    lemma_filter_values::<RefInfoView, GitErrorView>(all, matching(pattern));
    lemma_values_are_done::<RefInfoView, GitErrorView>(all.filter(matching(pattern)));
}

/// The references that the machine has told of.
pub open spec fn told(k: Seq<(HostCallView, ReplyView)>, filter: Option<RefType>) -> Seq<
    OutcomeView<RawRefView>,
> {
    host::references(k, HostCallView::References { filter })->0->Got_0
}

/// Whether the references that the machine has told of are all of one type.
pub open spec fn told_of_type(references: Seq<OutcomeView<RawRefView>>, kind: RefType) -> bool {
    forall|i: int|
        0 <= i < references.len() ==> match #[trigger] references[i] {
            OutcomeView::Got(raw) => refs::type_of(raw.name) == kind,
            OutcomeView::Error(error) => true,
        }
}

/// Whether a reference is shown by what its name and HEAD say.
pub open spec fn shown_by_name(head: Option<Seq<char>>, info: RefInfoView) -> bool {
    &&& info.short_name == refs::short_name(info.name)
    &&& info.ref_type == refs::type_of(info.name)
    &&& info.is_default <==> head is Some && refs::short_name(head->0) == info.short_name
}

/// A reference is listed with the short name and the type that its name gives, and
/// as the default one exactly if HEAD points at a reference of that short name.
/// Where one type is asked for and the machine keeps to it, every reference listed
/// is of that type.
pub proof fn law_listed_by_name(
    k: Seq<(HostCallView, ReplyView)>,
    config: StorageConfigView,
    owner: Seq<char>,
    name: Seq<char>,
    filter: Option<RefType>,
    pattern: Option<Seq<char>>,
)
    ensures
        refs::list_refs(
            k,
            config,
            owner,
            name,
            filter,
            pattern,
        ) matches StepView::Done(all) ==> {
            &&& host::id(k, HostCallView::Head) is Some
            &&& forall|i: int|
                0 <= i < all.len() ==> shown_by_name(
                    host::id(k, HostCallView::Head)->0,
                    #[trigger] all[i],
                )
            &&& filter is Some && told_of_type(told(k, filter), filter->0) ==> forall|i: int|
                0 <= i < all.len() ==> (#[trigger] all[i]).ref_type == filter->0
        },
{
    if let StepView::Done(all) = refs::list_refs(k, config, owner, name, filter, pattern) {
        let references = told(k, filter);
        let head = host::id(k, HostCallView::Head)->0;
        let f = |reference: OutcomeView<RawRefView>| refs::listed(head, pattern, reference);
        let kept = filter is Some && told_of_type(references, filter->0);
        let p = |info: RefInfoView|
            shown_by_name(head, info) && (kept ==> info.ref_type == filter->0);
        assert forall|i: int| 0 <= i < references.len() implies values_have(
            f(#[trigger] references[i]),
            p,
        ) by {
            if let OutcomeView::Got(raw) = references[i] {
                assert(kept ==> refs::type_of(raw.name) == filter->0);
            }
        }
        lemma_flat_map_values_have(references, f, p);
        let items = references.flat_map(f);
        law_gather_done(items);
        assert(host::gather(items) == StepView::<Seq<RefInfoView>, GitErrorView>::Done(all));
        assert forall|i: int| 0 <= i < all.len() implies p(#[trigger] all[i]) by {
            assert(items[i] == ItemView::<RefInfoView, GitErrorView>::Value(all[i]));
        }
        assert forall|i: int| 0 <= i < all.len() implies shown_by_name(
            head,
            #[trigger] all[i],
        ) by {
            assert(p(all[i]));
        }
        if kept {
            assert forall|i: int| 0 <= i < all.len() implies (#[trigger] all[i]).ref_type
                == filter->0 by {
                assert(p(all[i]));
            }
        }
    }
}

} // verus!
