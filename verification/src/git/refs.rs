//! Branches, tags and other references.

use vstd::prelude::*;

use super::{do_or_gix, join_path, lookup, open_repo_by_name};
use super::{GitError, GitErrorView, StorageConfig, StorageConfigView};
use crate::host::{
    self, Gathering, HostCall, HostCallView, ItemView, Outcome, OutcomeView, RawRef, RawRefView,
    Replies, ReplyView, Step, StepView,
};
use crate::text;

verus! {

/// Lists, creates and deletes references.
pub struct RefService {
    config: StorageConfig,
}

/// A reference and what it stands for.
#[derive(Debug, Clone)]
pub struct RefInfo {
    pub name: String,
    pub short_name: String,
    pub oid: String,
    pub ref_type: RefType,
    pub is_default: bool,
}

/// What a reference is for.
#[derive(Debug, Clone, Copy, PartialEq, Eq, Structural)]
pub enum RefType {
    Branch,
    Tag,
    Remote,
}

/// Who made a tag, and when.
#[derive(Debug, Clone)]
pub struct GitSignature {
    pub name: String,
    pub email: String,
    pub timestamp: i64,
    pub offset_minutes: i32,
}

/// The value of a [`RefInfo`].
pub struct RefInfoView {
    pub name: Seq<char>,
    pub short_name: Seq<char>,
    pub oid: Seq<char>,
    pub ref_type: RefType,
    pub is_default: bool,
}

impl DeepView for RefInfo {
    type V = RefInfoView;

    open spec fn deep_view(&self) -> RefInfoView {
        RefInfoView {
            name: self.name@,
            short_name: self.short_name@,
            oid: self.oid@,
            ref_type: self.ref_type,
            is_default: self.is_default,
        }
    }
}

/// The short form of a full reference name, if it is a valid one.
pub uninterp spec fn short_form(name: Seq<char>) -> Option<Seq<char>>;

/// `gix::refs::FullName::shorten`, for a name that is valid: what follows
/// `refs/heads/`, `refs/tags/` or `refs/remotes/` where it begins with one of
/// them.
#[verifier::external_body]
fn shorten(name: &str) -> (r: Option<String>)
    ensures
        r.deep_view() == short_form(name@),
        r is Some && "refs/heads/"@.is_prefix_of(name@) ==> r->0@ == name@.skip(
            "refs/heads/"@.len() as int,
        ),
        r is Some && "refs/tags/"@.is_prefix_of(name@) ==> r->0@ == name@.skip(
            "refs/tags/"@.len() as int,
        ),
        r is Some && "refs/remotes/"@.is_prefix_of(name@) ==> r->0@ == name@.skip(
            "refs/remotes/"@.len() as int,
        ),
{
    gix::refs::FullName::try_from(name).ok().map(|full| full.shorten().to_string())
}

/// The short form of a reference name: what follows `refs/heads/`, `refs/tags/`
/// or `refs/remotes/`, and of any other name [`short_form`], or the name where it
/// has none.
pub open spec fn short_name(name: Seq<char>) -> Seq<char> {
    if "refs/heads/"@.is_prefix_of(name) {
        name.skip("refs/heads/"@.len() as int)
    } else if "refs/tags/"@.is_prefix_of(name) {
        name.skip("refs/tags/"@.len() as int)
    } else if "refs/remotes/"@.is_prefix_of(name) {
        name.skip("refs/remotes/"@.len() as int)
    } else {
        match short_form(name) {
            Some(short) => short,
            None => name,
        }
    }
}

/// What a reference is for, by the beginning of its name; what is neither tag
/// nor remote branch counts as a branch.
pub open spec fn type_of(name: Seq<char>) -> RefType {
    if "refs/heads/"@.is_prefix_of(name) {
        RefType::Branch
    } else if "refs/tags/"@.is_prefix_of(name) {
        RefType::Tag
    } else if "refs/remotes/"@.is_prefix_of(name) {
        RefType::Remote
    } else {
        RefType::Branch
    }
}

/// Whether a pattern matches a name: a star alone matches all, one at the end
/// all that begin like the pattern, one at the beginning all that end like it,
/// and without either only the pattern itself matches.
pub open spec fn simple_glob(s: Seq<char>, pattern: Seq<char>) -> bool {
    if pattern == "*"@ {
        true
    } else if pattern.len() > 0 && pattern.last() == '*' {
        pattern.drop_last().is_prefix_of(s)
    } else if pattern.len() > 0 && pattern[0] == '*' {
        pattern.skip(1).is_suffix_of(s)
    } else {
        s == pattern
    }
}

/// Whether a pattern, if there is one, lets a reference through by its short or
/// by its full name.
pub open spec fn selects(pattern: Option<Seq<char>>, name: Seq<char>) -> bool {
    match pattern {
        None => true,
        Some(p) => simple_glob(short_name(name), p) || simple_glob(name, p),
    }
}

/// Whether a short name is that of the default branch, to which HEAD points.
pub open spec fn is_default(head: Option<Seq<char>>, short: Seq<char>) -> bool {
    match head {
        None => false,
        Some(name) => short_name(name) == short,
    }
}

/// What a reference contributes to a list.
pub open spec fn listed(
    head: Option<Seq<char>>,
    pattern: Option<Seq<char>>,
    reference: OutcomeView<RawRefView>,
) -> Seq<ItemView<RefInfoView, GitErrorView>> {
    match reference {
        OutcomeView::Error(error) => seq![ItemView::Fail(GitErrorView::Gix(error))],
        OutcomeView::Got(raw) => if selects(pattern, raw.name) {
            match raw.peeled {
                OutcomeView::Error(error) => seq![ItemView::Fail(GitErrorView::Gix(error))],
                OutcomeView::Got(oid) => seq![
                    ItemView::Value(
                        RefInfoView {
                            name: raw.name,
                            short_name: short_name(raw.name),
                            oid,
                            ref_type: type_of(raw.name),
                            is_default: is_default(head, short_name(raw.name)),
                        },
                    ),
                ],
            }
        } else {
            Seq::empty()
        },
    }
}

/// The references of a repository that a type and a pattern select.
pub open spec fn list_refs(
    k: Seq<(HostCallView, ReplyView)>,
    config: StorageConfigView,
    owner: Seq<char>,
    name: Seq<char>,
    filter: Option<RefType>,
    pattern: Option<Seq<char>>,
) -> StepView<Seq<RefInfoView>, GitErrorView> {
    let call = HostCallView::References { filter };
    host::chain(
        super::opened(k, config, owner, name),
        |open: ()|
            host::await_reply(
                host::references(k, call),
                call,
                |outcome: OutcomeView<Seq<OutcomeView<RawRefView>>>|
                    host::chain(
                        lookup::got_or_gix(outcome),
                        |references: Seq<OutcomeView<RawRefView>>|
                            host::await_reply(
                                host::id(k, HostCallView::Head),
                                HostCallView::Head,
                                |head: Option<Seq<char>>|
                                    host::gather(
                                        references.flat_map(
                                            |reference: OutcomeView<RawRefView>|
                                                listed(head, pattern, reference),
                                        ),
                                    ),
                            ),
                    ),
            ),
    )
}

/// The object that a revision names, and the full name of the reference if it
/// is one.
pub open spec fn resolve_ref(
    k: Seq<(HostCallView, ReplyView)>,
    config: StorageConfigView,
    owner: Seq<char>,
    name: Seq<char>,
    reference: Seq<char>,
) -> StepView<(Seq<char>, Seq<char>), GitErrorView> {
    let call = HostCallView::FindReference { name: reference };
    host::chain(
        super::opened(k, config, owner, name),
        |open: ()|
            host::chain(
                lookup::resolved(k, reference),
                |oid: Seq<char>|
                    host::await_reply(
                        host::id(k, call),
                        call,
                        |found: Option<Seq<char>>|
                            match found {
                                Some(full) => StepView::Done((oid, full)),
                                None => StepView::Done((oid, reference)),
                            },
                    ),
            ),
    )
}

/// A new branch at a revision.
pub open spec fn create_branch(
    k: Seq<(HostCallView, ReplyView)>,
    config: StorageConfigView,
    owner: Seq<char>,
    name: Seq<char>,
    branch: Seq<char>,
    start_point: Seq<char>,
) -> StepView<RefInfoView, GitErrorView> {
    let full = "refs/heads/"@ + branch;
    host::chain(
        super::opened(k, config, owner, name),
        |open: ()|
            host::chain(
                lookup::resolved(k, start_point),
                |target: Seq<char>|
                    super::done_or_gix(
                        k,
                        HostCallView::CreateReference {
                            name: full,
                            target,
                            log: "branch: Created branch "@ + branch,
                        },
                        host::await_reply(
                            host::id(k, HostCallView::Head),
                            HostCallView::Head,
                            |head: Option<Seq<char>>|
                                StepView::Done(
                                    RefInfoView {
                                        name: full,
                                        short_name: branch,
                                        oid: target,
                                        ref_type: RefType::Branch,
                                        is_default: is_default(head, branch),
                                    },
                                ),
                        ),
                    ),
            ),
    )
}

/// The full name of what is given by a full name or by what follows a prefix.
pub open spec fn full_name(prefix: Seq<char>, name: Seq<char>) -> Seq<char> {
    if "refs/"@.is_prefix_of(name) {
        name
    } else {
        prefix + name
    }
}

/// The reference of a full name; where there is none, `given` is not found.
pub open spec fn existing(
    k: Seq<(HostCallView, ReplyView)>,
    full: Seq<char>,
    given: Seq<char>,
) -> StepView<Seq<char>, GitErrorView> {
    let call = HostCallView::FindReference { name: full };
    host::await_reply(
        host::id(k, call),
        call,
        |found: Option<Seq<char>>|
            match found {
                Some(reference) => StepView::Done(reference),
                None => StepView::Failed(GitErrorView::RefNotFound { reference: given }),
            },
    )
}

/// Deletes a branch; the default branch only where that is forced.
pub open spec fn delete_branch(
    k: Seq<(HostCallView, ReplyView)>,
    config: StorageConfigView,
    owner: Seq<char>,
    name: Seq<char>,
    branch: Seq<char>,
    force: bool,
) -> StepView<bool, GitErrorView> {
    let full = full_name("refs/heads/"@, branch);
    host::chain(
        super::opened(k, config, owner, name),
        |open: ()|
            host::chain(
                existing(k, full, branch),
                |found: Seq<char>|
                    {
                        let delete = super::done_or_gix(
                            k,
                            HostCallView::DeleteReference { name: found },
                            StepView::Done(true),
                        );
                        if force {
                            delete
                        } else {
                            host::await_reply(
                                host::id(k, HostCallView::Head),
                                HostCallView::Head,
                                |head: Option<Seq<char>>|
                                    if head == Some(full) {
                                        StepView::Failed(
                                            GitErrorView::InvalidRef {
                                                reference: "Cannot delete the default branch"@,
                                            },
                                        )
                                    } else {
                                        delete
                                    },
                            )
                        }
                    },
            ),
    )
}

/// Points HEAD at a branch that exists.
pub open spec fn set_default_branch(
    k: Seq<(HostCallView, ReplyView)>,
    config: StorageConfigView,
    owner: Seq<char>,
    name: Seq<char>,
    branch: Seq<char>,
) -> StepView<(), GitErrorView> {
    let full = "refs/heads/"@ + branch;
    host::chain(
        super::opened(k, config, owner, name),
        |open: ()|
            host::chain(
                existing(k, full, branch),
                |found: Seq<char>|
                    super::done_or_gix(
                        k,
                        HostCallView::WriteFile {
                            path: super::join(super::repo_path(config, owner, name), "HEAD"@),
                            contents: "ref: "@ + full + "\n"@,
                        },
                        StepView::Done(()),
                    ),
            ),
    )
}

/// A new tag at a revision.
pub open spec fn create_tag(
    k: Seq<(HostCallView, ReplyView)>,
    config: StorageConfigView,
    owner: Seq<char>,
    name: Seq<char>,
    tag: Seq<char>,
    target: Seq<char>,
) -> StepView<RefInfoView, GitErrorView> {
    let full = "refs/tags/"@ + tag;
    host::chain(
        super::opened(k, config, owner, name),
        |open: ()|
            host::chain(
                lookup::resolved(k, target),
                |oid: Seq<char>|
                    super::done_or_gix(
                        k,
                        HostCallView::CreateReference {
                            name: full,
                            target: oid,
                            log: "tag: Created tag "@ + tag,
                        },
                        StepView::Done(
                            RefInfoView {
                                name: full,
                                short_name: tag,
                                oid,
                                ref_type: RefType::Tag,
                                is_default: false,
                            },
                        ),
                    ),
            ),
    )
}

/// Deletes a tag.
pub open spec fn delete_tag(
    k: Seq<(HostCallView, ReplyView)>,
    config: StorageConfigView,
    owner: Seq<char>,
    name: Seq<char>,
    tag: Seq<char>,
) -> StepView<bool, GitErrorView> {
    host::chain(
        super::opened(k, config, owner, name),
        |open: ()|
            host::chain(
                existing(k, full_name("refs/tags/"@, tag), tag),
                |found: Seq<char>|
                    super::done_or_gix(
                        k,
                        HostCallView::DeleteReference { name: found },
                        StepView::Done(true),
                    ),
            ),
    )
}

/// What follows a prefix, if a name begins with it.
fn after_prefix(name: &str, prefix: &str) -> (r: Option<String>)
    ensures
        r.deep_view() == if prefix@.is_prefix_of(name@) {
            Some(name@.skip(prefix@.len() as int))
        } else {
            None
        },
{
    if !text::starts_with(name, prefix) {
        return None;
    }
    let start = text::to_chars(prefix);
    let chars = text::to_chars(name);
    let rest = text::slice_to_string(&chars, start.len(), chars.len());
    assert(rest@ == name@.skip(prefix@.len() as int));
    Some(rest)
}

/// The short form of a reference name, [`short_name`].
pub(crate) fn shorten_name(name: &str) -> (r: String)
    ensures
        r@ == short_name(name@),
{
    if let Some(short) = shorten(name) {
        return short;
    }
    if let Some(branch) = after_prefix(name, "refs/heads/") {
        return branch;
    }
    if let Some(tag) = after_prefix(name, "refs/tags/") {
        return tag;
    }
    if let Some(remote) = after_prefix(name, "refs/remotes/") {
        return remote;
    }
    name.to_owned()
}

/// What a reference is for, [`type_of`].
pub fn determine_ref_type(full_name: &str) -> (r: RefType)
    ensures
        r == type_of(full_name@),
{
    if text::starts_with(full_name, "refs/heads/") {
        RefType::Branch
    } else if text::starts_with(full_name, "refs/tags/") {
        RefType::Tag
    } else if text::starts_with(full_name, "refs/remotes/") {
        RefType::Remote
    } else {
        RefType::Branch
    }
}

/// Whether a pattern matches a name, [`simple_glob`].
pub fn glob_match(s: &str, pattern: &str) -> (r: bool)
    ensures
        r == simple_glob(s@, pattern@),
{
    if text::same(pattern, "*") {
        return true;
    }
    let p = text::to_chars(pattern);
    let n: usize = p.len();
    if n > 0 && p[n - 1] == '*' {
        let prefix = text::slice_to_string(&p, 0, n - 1);
        assert(prefix@ == pattern@.drop_last());
        return text::starts_with(s, &prefix);
    }
    if n > 0 && p[0] == '*' {
        let suffix = text::slice_to_string(&p, 1, n);
        assert(suffix@ == pattern@.skip(1));
        return text::ends_with(s, &suffix);
    }
    text::same(s, pattern)
}

/// Whether a short name is that of the default branch, [`is_default`].
fn names_default(head: &Option<String>, short: &str) -> (r: bool)
    ensures
        r == is_default(head.deep_view(), short@),
{
    match head {
        None => false,
        Some(name) => {
            let head_short = shorten_name(name);
            text::same(&head_short, short)
        },
    }
}

/// The full name of what is given, [`full_name`].
fn complete_name(prefix: &str, name: &str) -> (r: String)
    ensures
        r@ == full_name(prefix@, name@),
{
    if text::starts_with(name, "refs/") {
        name.to_owned()
    } else {
        text::concat(prefix, name)
    }
}

/// A reference of a full name, [`existing`].
fn find_existing(replies: &Replies, full: &str, given: &str) -> (r: Step<String, GitError>)
    ensures
        r.deep_view() == existing(replies.deep_view(), full@, given@),
{
    let call = HostCall::FindReference { name: full.to_owned() };
    match replies.id(&call) {
        None => host::ask(call),
        Some(None) => Step::Failed(GitError::RefNotFound { reference: given.to_owned() }),
        Some(Some(found)) => Step::Done(found.clone()),
    }
}

/// A reference comes up in a list, [`listed`].
fn list_reference(
    head: &Option<String>,
    pattern: Option<&str>,
    reference: &Outcome<RawRef>,
    g: &mut Gathering<RefInfo, GitError>,
)
    ensures
        final(g).deep_view() == host::absorb_all(
            old(g).deep_view(),
            listed(head.deep_view(), pattern.deep_view(), reference.deep_view()),
        ),
{
    let ghost start = g.deep_view();
    match reference {
        Outcome::Error(error) => {
            proof {
                host::lemma_absorb_one(
                    start,
                    ItemView::<RefInfoView, GitErrorView>::Fail(GitErrorView::Gix(error@)),
                );
            }
            g.fail(GitError::Gix(error.clone()));
        },
        Outcome::Got(raw) => {
            let short = shorten_name(&raw.name);
            let selected = match pattern {
                None => true,
                Some(p) => glob_match(&short, p) || glob_match(&raw.name, p),
            };
            if selected {
                match &raw.peeled {
                    Outcome::Error(error) => {
                        proof {
                            host::lemma_absorb_one(
                                start,
                                ItemView::<RefInfoView, GitErrorView>::Fail(
                                    GitErrorView::Gix(error@),
                                ),
                            );
                        }
                        g.fail(GitError::Gix(error.clone()));
                    },
                    Outcome::Got(oid) => {
                        let is_default = names_default(head, &short);
                        let info = RefInfo {
                            name: raw.name.clone(),
                            short_name: short,
                            oid: oid.clone(),
                            ref_type: determine_ref_type(&raw.name),
                            is_default,
                        };
                        proof {
                            host::lemma_absorb_one(
                                start,
                                ItemView::<RefInfoView, GitErrorView>::Value(info.deep_view()),
                            );
                        }
                        g.value(info);
                    },
                }
            }
        },
    }
}

impl RefService {
    /// The configuration that the service works with.
    pub closed spec fn config(&self) -> StorageConfigView {
        self.config.deep_view()
    }

    /// The service for a configuration.
    pub fn new(config: StorageConfig) -> (r: Self)
        ensures
            r.config() == config.deep_view(),
    {
        RefService { config }
    }

    /// Lists references, [`list_refs`].
    pub fn list_refs(
        &self,
        owner: &str,
        name: &str,
        filter_type: Option<RefType>,
        pattern: Option<&str>,
        replies: &Replies,
    ) -> (r: Step<Vec<RefInfo>, GitError>)
        ensures
            r.deep_view() == list_refs(
                replies.deep_view(),
                self.config(),
                owner@,
                name@,
                filter_type,
                pattern.deep_view(),
            ),
    {
        match open_repo_by_name(&self.config, owner, name, replies) {
            Step::Ask(calls) => return Step::Ask(calls),
            Step::Failed(error) => return Step::Failed(error),
            Step::Done(_) => {},
        }
        let call = HostCall::References { filter: filter_type };
        let references = match replies.references(&call) {
            None => return host::ask(call),
            Some(Outcome::Error(error)) => return Step::Failed(GitError::Gix(error.clone())),
            Some(Outcome::Got(references)) => references,
        };
        let head_call = HostCall::Head;
        let head = match replies.id(&head_call) {
            None => return host::ask(head_call),
            Some(head) => head,
        };
        let ghost all = references.deep_view();
        let ghost f = |reference: OutcomeView<RawRefView>|
            listed(head.deep_view(), pattern.deep_view(), reference);
        let mut g: Gathering<RefInfo, GitError> = Gathering::new();
        let mut i: usize = 0;
        assert(all.take(0).flat_map(f) == Seq::<ItemView<RefInfoView, GitErrorView>>::empty());
        while i < references.len()
            invariant
                i <= references@.len(),
                all == references.deep_view(),
                all.len() == references@.len(),
                f == |reference: OutcomeView<RawRefView>|
                    listed(head.deep_view(), pattern.deep_view(), reference),
                g.deep_view() == host::absorb_all(
                    host::nothing(),
                    all.take(i as int).flat_map(f),
                ),
            decreases references.len() - i,
        {
            proof {
                all.lemma_flat_map_take_append(f, i as int);
                assert(all[i as int] == references@[i as int].deep_view());
                host::lemma_absorb_concat(
                    host::nothing(),
                    all.take(i as int).flat_map(f),
                    f(all[i as int]),
                );
            }
            list_reference(head, pattern, &references[i], &mut g);
            i = i + 1;
        }
        assert(all.take(i as int) == all);
        g.conclude()
    }

    /// Resolves a revision, [`resolve_ref`].
    pub fn resolve_ref(&self, owner: &str, name: &str, reference: &str, replies: &Replies) -> (r:
        Step<(String, String), GitError>)
        ensures
            r.deep_view() == resolve_ref(
                replies.deep_view(),
                self.config(),
                owner@,
                name@,
                reference@,
            ),
    {
        match open_repo_by_name(&self.config, owner, name, replies) {
            Step::Ask(calls) => return Step::Ask(calls),
            Step::Failed(error) => return Step::Failed(error),
            Step::Done(_) => {},
        }
        let oid = match lookup::resolve(replies, reference) {
            Step::Ask(calls) => return Step::Ask(calls),
            Step::Failed(error) => return Step::Failed(error),
            Step::Done(oid) => oid,
        };
        let call = HostCall::FindReference { name: reference.to_owned() };
        match replies.id(&call) {
            None => host::ask(call),
            Some(None) => Step::Done((oid, reference.to_owned())),
            Some(Some(full)) => Step::Done((oid, full.clone())),
        }
    }

    /// Creates a branch, [`create_branch`].
    pub fn create_branch(
        &self,
        owner: &str,
        name: &str,
        branch_name: &str,
        start_point: &str,
        replies: &Replies,
    ) -> (r: Step<RefInfo, GitError>)
        ensures
            r.deep_view() == create_branch(
                replies.deep_view(),
                self.config(),
                owner@,
                name@,
                branch_name@,
                start_point@,
            ),
    {
        match open_repo_by_name(&self.config, owner, name, replies) {
            Step::Ask(calls) => return Step::Ask(calls),
            Step::Failed(error) => return Step::Failed(error),
            Step::Done(_) => {},
        }
        let target = match lookup::resolve(replies, start_point) {
            Step::Ask(calls) => return Step::Ask(calls),
            Step::Failed(error) => return Step::Failed(error),
            Step::Done(oid) => oid,
        };
        let full = text::concat("refs/heads/", branch_name);
        let create = HostCall::CreateReference {
            name: full.clone(),
            target: target.clone(),
            log: text::concat("branch: Created branch ", branch_name),
        };
        match do_or_gix(replies, create) {
            Step::Ask(calls) => return Step::Ask(calls),
            Step::Failed(error) => return Step::Failed(error),
            Step::Done(_) => {},
        }
        let head_call = HostCall::Head;
        match replies.id(&head_call) {
            None => host::ask(head_call),
            Some(head) => {
                let is_default = names_default(head, branch_name);
                Step::Done(
                    RefInfo {
                        name: full,
                        short_name: branch_name.to_owned(),
                        oid: target,
                        ref_type: RefType::Branch,
                        is_default,
                    },
                )
            },
        }
    }

    /// Deletes a branch, [`delete_branch`].
    pub fn delete_branch(
        &self,
        owner: &str,
        name: &str,
        branch_name: &str,
        force: bool,
        replies: &Replies,
    ) -> (r: Step<bool, GitError>)
        ensures
            r.deep_view() == delete_branch(
                replies.deep_view(),
                self.config(),
                owner@,
                name@,
                branch_name@,
                force,
            ),
    {
        match open_repo_by_name(&self.config, owner, name, replies) {
            Step::Ask(calls) => return Step::Ask(calls),
            Step::Failed(error) => return Step::Failed(error),
            Step::Done(_) => {},
        }
        let full = complete_name("refs/heads/", branch_name);
        let found = match find_existing(replies, &full, branch_name) {
            Step::Ask(calls) => return Step::Ask(calls),
            Step::Failed(error) => return Step::Failed(error),
            Step::Done(found) => found,
        };
        if !force {
            let head_call = HostCall::Head;
            match replies.id(&head_call) {
                None => return host::ask(head_call),
                Some(None) => {},
                Some(Some(head)) => {
                    if text::same(head, &full) {
                        return Step::Failed(
                            GitError::InvalidRef {
                                reference: "Cannot delete the default branch".to_owned(),
                            },
                        );
                    }
                },
            }
        }
        match do_or_gix(replies, HostCall::DeleteReference { name: found }) {
            Step::Ask(calls) => Step::Ask(calls),
            Step::Failed(error) => Step::Failed(error),
            Step::Done(_) => Step::Done(true),
        }
    }

    /// Makes a branch the default one, [`set_default_branch`].
    pub fn set_default_branch(&self, owner: &str, name: &str, branch: &str, replies: &Replies) -> (r:
        Step<(), GitError>)
        ensures
            r.deep_view() == set_default_branch(
                replies.deep_view(),
                self.config(),
                owner@,
                name@,
                branch@,
            ),
    {
        match open_repo_by_name(&self.config, owner, name, replies) {
            Step::Ask(calls) => return Step::Ask(calls),
            Step::Failed(error) => return Step::Failed(error),
            Step::Done(_) => {},
        }
        let full = text::concat("refs/heads/", branch);
        match find_existing(replies, &full, branch) {
            Step::Ask(calls) => return Step::Ask(calls),
            Step::Failed(error) => return Step::Failed(error),
            Step::Done(_) => {},
        }
        let repo = self.config.repo_path(owner, name);
        let path = join_path(&repo, "HEAD");
        let contents = text::concat3("ref: ", &full, "\n");
        do_or_gix(replies, HostCall::WriteFile { path, contents })
    }

    /// Creates a tag, [`create_tag`]. The tag is a plain reference, so neither
    /// a message nor who made it matter.
    pub fn create_tag(
        &self,
        owner: &str,
        name: &str,
        tag_name: &str,
        target: &str,
        _message: Option<&str>,
        _tagger: Option<&GitSignature>,
        replies: &Replies,
    ) -> (r: Step<RefInfo, GitError>)
        ensures
            r.deep_view() == create_tag(
                replies.deep_view(),
                self.config(),
                owner@,
                name@,
                tag_name@,
                target@,
            ),
    {
        match open_repo_by_name(&self.config, owner, name, replies) {
            Step::Ask(calls) => return Step::Ask(calls),
            Step::Failed(error) => return Step::Failed(error),
            Step::Done(_) => {},
        }
        let oid = match lookup::resolve(replies, target) {
            Step::Ask(calls) => return Step::Ask(calls),
            Step::Failed(error) => return Step::Failed(error),
            Step::Done(oid) => oid,
        };
        let full = text::concat("refs/tags/", tag_name);
        let create = HostCall::CreateReference {
            name: full.clone(),
            target: oid.clone(),
            log: text::concat("tag: Created tag ", tag_name),
        };
        match do_or_gix(replies, create) {
            Step::Ask(calls) => Step::Ask(calls),
            Step::Failed(error) => Step::Failed(error),
            Step::Done(_) => Step::Done(
                RefInfo {
                    name: full,
                    short_name: tag_name.to_owned(),
                    oid,
                    ref_type: RefType::Tag,
                    is_default: false,
                },
            ),
        }
    }

    /// Deletes a tag, [`delete_tag`].
    pub fn delete_tag(&self, owner: &str, name: &str, tag_name: &str, replies: &Replies) -> (r: Step<
        bool,
        GitError,
    >)
        ensures
            r.deep_view() == delete_tag(
                replies.deep_view(),
                self.config(),
                owner@,
                name@,
                tag_name@,
            ),
    {
        match open_repo_by_name(&self.config, owner, name, replies) {
            Step::Ask(calls) => return Step::Ask(calls),
            Step::Failed(error) => return Step::Failed(error),
            Step::Done(_) => {},
        }
        let full = complete_name("refs/tags/", tag_name);
        let found = match find_existing(replies, &full, tag_name) {
            Step::Ask(calls) => return Step::Ask(calls),
            Step::Failed(error) => return Step::Failed(error),
            Step::Done(found) => found,
        };
        match do_or_gix(replies, HostCall::DeleteReference { name: found }) {
            Step::Ask(calls) => Step::Ask(calls),
            Step::Failed(error) => Step::Failed(error),
            Step::Done(_) => Step::Done(true),
        }
    }
}

} // verus!
