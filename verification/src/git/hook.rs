//! The hook that git runs before a push takes effect.
//!
//! Git hands it the updates of the push, one to a line, once the new objects
//! are in quarantine and before any reference moves. Whatever the hook refuses,
//! it refuses the push as a whole, and its words reach whoever pushes.
//!
//! What a push is confined to comes in `ARBOR_REF_PATTERNS` and
//! `ARBOR_PATH_PATTERNS`, and which branches are protected in
//! `ARBOR_PROTECTED_REF_PATTERNS`: lists of patterns in JSON, none of which
//! needs to be set.

use vstd::prelude::*;

use super::scope_match::{
    self, evaluate_receive_pack, RefUpdate, RefUpdateView, ScopeBounds, ScopeBoundsView,
    UpdateRejectionView,
};
use crate::host::{
    self, Gathering, HostCall, HostCallView, ItemView, Outcome, OutcomeView, ProcessOutput,
    ProcessOutputView, Replies, ReplyView, Step, StepView,
};
use crate::text;

verus! {

/// The list of strings that a text holds in JSON, if that is what it holds.
pub uninterp spec fn json_string_list(raw: Seq<char>) -> Option<Seq<Seq<char>>>;

/// `serde_json::from_str` for a list of strings: nothing where the text is no
/// JSON, or no list, or holds anything but strings.
#[verifier::external_body]
fn parse_json_list(raw: &str) -> (r: Option<Vec<String>>)
    ensures
        r.deep_view() == json_string_list(raw@),
{
    serde_json::from_str::<Vec<String>>(raw).ok()
}

/// The patterns that a variable sets: no confinement where it is not set, and
/// none that match where it holds no list.
pub open spec fn patterns_of(raw: Option<Seq<char>>) -> Option<Seq<Seq<char>>> {
    match raw {
        None => None,
        Some(value) => Some(list_or_none(json_string_list(value))),
    }
}

/// A list, or the empty one where there is none.
pub open spec fn list_or_none(list: Option<Seq<Seq<char>>>) -> Seq<Seq<char>> {
    match list {
        None => Seq::empty(),
        Some(items) => items,
    }
}

/// A list, or the one that matches everything where there is none.
pub open spec fn list_or_all(list: Option<Seq<Seq<char>>>) -> Seq<Seq<char>> {
    match list {
        None => seq!["**"@],
        Some(items) => items,
    }
}

/// The protected branches that a variable sets: none where it is not set, and
/// all where it holds no list.
pub open spec fn protected_of(raw: Option<Seq<char>>) -> Option<Seq<Seq<char>>> {
    match raw {
        None => None,
        Some(value) => Some(list_or_all(json_string_list(value))),
    }
}

/// The patterns that a list makes, [`list_or_none`].
pub fn patterns_from(list: Option<Vec<String>>) -> (r: Vec<String>)
    ensures
        r.deep_view() == list_or_none(list.deep_view()),
{
    match list {
        None => {
            let none: Vec<String> = Vec::new();
            assert(none.deep_view() =~= Seq::<Seq<char>>::empty());
            none
        },
        Some(items) => items,
    }
}

/// The protected branches that a list makes, [`list_or_all`].
pub fn protected_from(list: Option<Vec<String>>) -> (r: Vec<String>)
    ensures
        r.deep_view() == list_or_all(list.deep_view()),
{
    match list {
        None => {
            let mut all: Vec<String> = Vec::new();
            all.push("**".to_owned());
            assert(all.deep_view() =~= seq!["**"@]);
            all
        },
        Some(items) => items,
    }
}

/// The patterns that a variable sets, [`patterns_of`].
pub fn parse_patterns(raw: Option<&str>) -> (r: Option<Vec<String>>)
    ensures
        r.deep_view() == patterns_of(raw.deep_view()),
{
    match raw {
        None => None,
        Some(value) => Some(patterns_from(parse_json_list(value))),
    }
}

/// The protected branches that a variable sets, [`protected_of`].
pub fn parse_protected(raw: Option<&str>) -> (r: Option<Vec<String>>)
    ensures
        r.deep_view() == protected_of(raw.deep_view()),
{
    match raw {
        None => None,
        Some(value) => Some(protected_from(parse_json_list(value))),
    }
}

/// An update as git tells it.
#[derive(Debug, Clone)]
pub struct UpdateLine {
    pub old: String,
    pub new: String,
    pub reference: String,
}

/// The value of an [`UpdateLine`].
pub struct UpdateLineView {
    pub old: Seq<char>,
    pub new: Seq<char>,
    pub reference: Seq<char>,
}

impl DeepView for UpdateLine {
    type V = UpdateLineView;

    open spec fn deep_view(&self) -> UpdateLineView {
        UpdateLineView { old: self.old@, new: self.new@, reference: self.reference@ }
    }
}

/// What the hook says: the code to leave with and the words for whoever pushes.
#[derive(Debug, Clone)]
pub struct Verdict {
    pub code: i32,
    pub messages: Vec<String>,
}

/// The value of a [`Verdict`].
pub struct VerdictView {
    pub code: i32,
    pub messages: Seq<Seq<char>>,
}

impl DeepView for Verdict {
    type V = VerdictView;

    open spec fn deep_view(&self) -> VerdictView {
        VerdictView { code: self.code, messages: self.messages.deep_view() }
    }
}

/// Whether an object id is all zeros, which stands for no object: the old one of
/// a reference that is created, the new one of a reference that is deleted.
pub open spec fn is_zero(oid: Seq<char>) -> bool {
    oid.len() > 0 && forall|i: int| 0 <= i < oid.len() ==> oid[i] == '0'
}

/// Whether an object id stands for no object, [`is_zero`].
pub fn is_zero_oid(oid: &str) -> (r: bool)
    ensures
        r == is_zero(oid@),
{
    let chars = text::to_chars(oid);
    let mut i: usize = 0;
    while i < chars.len()
        invariant
            chars@ == oid@,
            i <= chars@.len(),
            forall|j: int| 0 <= j < i ==> chars@[j] == '0',
        decreases chars.len() - i,
    {
        if chars[i] != '0' {
            return false;
        }
        i = i + 1;
    }
    chars.len() > 0
}

/// A piece of a list, empty where the list is too short.
pub open spec fn piece(pieces: Seq<Seq<char>>, i: int) -> Seq<char> {
    if 0 <= i < pieces.len() {
        pieces[i]
    } else {
        Seq::empty()
    }
}

/// The update that a line tells, if it is not blank: old and new object and the
/// reference, with a space between them.
pub open spec fn update_line(line: Seq<char>) -> Option<UpdateLineView> {
    let trimmed = text::trim(line);
    let pieces = text::split(trimmed, ' ');
    if trimmed.len() == 0 {
        None
    } else {
        Some(
            UpdateLineView {
                old: piece(pieces, 0),
                new: piece(pieces, 1),
                reference: piece(pieces, 2),
            },
        )
    }
}

/// The updates of a push.
pub open spec fn update_lines(input: Seq<char>) -> Seq<UpdateLineView> {
    text::lines(input).filter_map(|line: Seq<char>| update_line(line))
}

/// What asks git for the commits that a push brings: those reachable from the
/// new one but from no reference.
pub open spec fn rev_list(new: Seq<char>) -> HostCallView {
    HostCallView::Git { args: seq!["rev-list"@, new, "--not"@, "--all"@] }
}

/// What asks git for the paths that a commit changes: a first commit's all of
/// them, and of a merge those that differ from any of its parents.
pub open spec fn diff_tree(commit: Seq<char>) -> HostCallView {
    HostCallView::Git {
        args: seq![
            "diff-tree"@,
            "--no-commit-id"@,
            "--name-only"@,
            "-r"@,
            "-m"@,
            "--root"@,
            commit,
        ],
    }
}

/// What asks git whether one commit is an ancestor of another.
pub open spec fn is_ancestor(old: Seq<char>, new: Seq<char>) -> HostCallView {
    HostCallView::Git { args: seq!["merge-base"@, "--is-ancestor"@, old, new] }
}

/// What a run of git printed, or the words of its failure.
pub open spec fn printed(what: Seq<char>, run: OutcomeView<ProcessOutputView>) -> Result<
    Seq<char>,
    Seq<char>,
> {
    match run {
        OutcomeView::Error(error) => Err(what + " failed: "@ + error),
        OutcomeView::Got(output) => if output.success {
            Ok(text::utf8_lossy(output.stdout))
        } else {
            Err(what + " failed: "@ + text::utf8_lossy(output.stderr))
        },
    }
}

/// The lines of a text that are not empty.
pub open spec fn filled_lines(s: Seq<char>) -> Seq<Seq<char>> {
    text::lines(s).filter_map(
        |line: Seq<char>|
            if line.len() > 0 {
                Some(line)
            } else {
                None
            },
    )
}

/// The paths that a commit changes.
pub open spec fn commit_paths(k: Seq<(HostCallView, ReplyView)>, commit: Seq<char>) -> Seq<
    ItemView<Seq<char>, Seq<char>>,
> {
    match host::process(k, diff_tree(commit)) {
        None => seq![ItemView::Need(diff_tree(commit))],
        Some(run) => match printed("git diff-tree"@, run) {
            Err(error) => seq![ItemView::Fail(error)],
            Ok(output) => filled_lines(output).map_values(
                |path: Seq<char>| ItemView::Value(path),
            ),
        },
    }
}

/// The paths that a push to a new commit changes, sorted and each of them once:
/// all that any of the commits it brings changes.
pub open spec fn changed_paths(k: Seq<(HostCallView, ReplyView)>, new: Seq<char>) -> StepView<
    Seq<Seq<char>>,
    Seq<char>,
> {
    match host::process(k, rev_list(new)) {
        None => StepView::Ask(seq![rev_list(new)]),
        Some(run) => match printed("git rev-list"@, run) {
            Err(error) => StepView::Failed(error),
            Ok(output) => host::chain(
                host::gather(
                    filled_lines(output).flat_map(|commit: Seq<char>| commit_paths(k, commit)),
                ),
                |paths: Seq<Seq<char>>| StepView::Done(text::sorted_distinct(paths)),
            ),
        },
    }
}

/// An update with the paths that it changes, which are looked up only where
/// they are wanted and it is no deletion.
pub open spec fn update_of(
    k: Seq<(HostCallView, ReplyView)>,
    want_paths: bool,
    line: UpdateLineView,
) -> StepView<RefUpdateView, Seq<char>> {
    if want_paths && !is_zero(line.new) {
        host::chain(
            changed_paths(k, line.new),
            |paths: Seq<Seq<char>>|
                StepView::Done(
                    RefUpdateView { reference: line.reference, changed_paths: paths },
                ),
        )
    } else {
        StepView::Done(RefUpdateView { reference: line.reference, changed_paths: Seq::empty() })
    }
}

/// The verdict that refusals make.
pub open spec fn verdict(refused: Seq<UpdateRejectionView>) -> VerdictView {
    VerdictView {
        code: if refused.len() == 0 {
            0
        } else {
            1
        },
        messages: refused.map_values(|r: UpdateRejectionView| "arbor: "@ + r.reason),
    }
}

/// The verdict on a push by what it is confined to.
pub open spec fn judged(
    k: Seq<(HostCallView, ReplyView)>,
    bounds: ScopeBoundsView,
    input: Seq<char>,
) -> StepView<VerdictView, Seq<char>> {
    if bounds.ref_patterns is None && bounds.path_patterns is None {
        StepView::Done(verdict(Seq::empty()))
    } else {
        host::chain(
            host::gather(
                update_lines(input).flat_map(
                    |line: UpdateLineView|
                        host::step_items(update_of(k, bounds.path_patterns is Some, line)),
                ),
            ),
            |updates: Seq<RefUpdateView>|
                StepView::Done(verdict(scope_match::rejections(bounds, updates))),
        )
    }
}

/// Whether a reference is protected: a pattern matches its name or, of a branch,
/// what follows `refs/heads/`.
pub open spec fn is_protected(patterns: Seq<Seq<char>>, reference: Seq<char>) -> bool {
    let branches = "refs/heads/"@;
    ||| scope_match::any_glob(patterns, reference)
    ||| branches.is_prefix_of(reference) && scope_match::any_glob(
        patterns,
        reference.skip(branches.len() as int),
    )
}

/// Why an update of a protected reference is refused, if it is: it may be
/// created and fast-forwarded, but neither deleted nor rewritten.
pub open spec fn protection(
    k: Seq<(HostCallView, ReplyView)>,
    patterns: Seq<Seq<char>>,
    line: UpdateLineView,
) -> Seq<ItemView<UpdateRejectionView, Seq<char>>> {
    let reference = line.reference;
    if !is_protected(patterns, reference) {
        Seq::empty()
    } else if is_zero(line.new) {
        seq![
            ItemView::Value(
                UpdateRejectionView {
                    reference,
                    reason: "ref "@ + reference + " is protected and cannot be deleted"@,
                },
            ),
        ]
    } else if is_zero(line.old) {
        Seq::empty()
    } else {
        match host::process(k, is_ancestor(line.old, line.new)) {
            None => seq![ItemView::Need(is_ancestor(line.old, line.new))],
            Some(OutcomeView::Error(error)) => seq![
                ItemView::Fail("git merge-base failed: "@ + error),
            ],
            Some(OutcomeView::Got(output)) => if output.success {
                Seq::empty()
            } else {
                seq![
                    ItemView::Value(
                        UpdateRejectionView {
                            reference,
                            reason: "ref "@ + reference + " is protected and cannot be rewritten"@,
                        },
                    ),
                ]
            },
        }
    }
}

/// The verdict on a push by the branches that are protected.
pub open spec fn guarded(
    k: Seq<(HostCallView, ReplyView)>,
    patterns: Option<Seq<Seq<char>>>,
    input: Seq<char>,
) -> StepView<VerdictView, Seq<char>> {
    match patterns {
        None => StepView::Done(verdict(Seq::empty())),
        Some(list) => host::chain(
            host::gather(
                update_lines(input).flat_map(|line: UpdateLineView| protection(k, list, line)),
            ),
            |refused: Seq<UpdateRejectionView>| StepView::Done(verdict(refused)),
        ),
    }
}

/// Two verdicts as one, which lets a push through only if both do.
pub open spec fn both(a: VerdictView, b: VerdictView) -> VerdictView {
    VerdictView {
        code: if a.code == 0 && b.code == 0 {
            0
        } else {
            1
        },
        messages: a.messages + b.messages,
    }
}

/// The verdict that says one thing against a push.
pub open spec fn refusal(words: Seq<char>) -> VerdictView {
    VerdictView { code: 1, messages: seq!["arbor: "@ + words] }
}

/// The verdict on a push by all that the environment sets. What cannot be read
/// or looked up is refused.
pub open spec fn pre_receive(
    k: Seq<(HostCallView, ReplyView)>,
    refs: Option<Seq<char>>,
    paths: Option<Seq<char>>,
    protected: Option<Seq<char>>,
    input: Option<Seq<char>>,
) -> StepView<VerdictView, Seq<char>> {
    let bounds = ScopeBoundsView {
        ref_patterns: patterns_of(refs),
        path_patterns: patterns_of(paths),
    };
    match input {
        None => StepView::Done(refusal("could not read ref updates"@)),
        Some(updates) => settled(
            host::chain(
                judged(k, bounds, updates),
                |a: VerdictView|
                    host::chain(
                        guarded(k, protected_of(protected), updates),
                        |b: VerdictView| StepView::Done(both(a, b)),
                    ),
            ),
        ),
    }
}

/// A verdict in which a failure is a refusal.
pub open spec fn settled(step: StepView<VerdictView, Seq<char>>) -> StepView<
    VerdictView,
    Seq<char>,
> {
    match step {
        StepView::Failed(error) => StepView::Done(refusal(error)),
        other => other,
    }
}

/// A piece of a list, [`piece`].
fn copy_piece(pieces: &Vec<String>, i: usize) -> (r: String)
    ensures
        r@ == piece(pieces.deep_view(), i as int),
{
    assert(pieces.deep_view().len() == pieces@.len());
    if i < pieces.len() {
        assert(pieces.deep_view()[i as int] == pieces@[i as int]@);
        pieces[i].clone()
    } else {
        String::new()
    }
}

/// The update that a line tells, [`update_line`].
fn parse_update_line(line: &str) -> (r: Option<UpdateLine>)
    ensures
        r.deep_view() == update_line(line@),
{
    let trimmed = text::trimmed(line);
    if trimmed.as_str().is_empty() {
        return None;
    }
    let pieces = text::split_at_each(&trimmed, ' ');
    Some(
        UpdateLine {
            old: copy_piece(&pieces, 0),
            new: copy_piece(&pieces, 1),
            reference: copy_piece(&pieces, 2),
        },
    )
}

/// The updates of a push, [`update_lines`].
pub fn parse_update_lines(input: &str) -> (r: Vec<UpdateLine>)
    ensures
        r.deep_view() == update_lines(input@),
{
    let lines = text::split_lines(input);
    let ghost all = lines.deep_view();
    let ghost f = |line: Seq<char>| update_line(line);
    let mut updates: Vec<UpdateLine> = Vec::new();
    let mut i: usize = 0;
    assert(updates.deep_view() =~= all.take(0).filter_map(f));
    while i < lines.len()
        invariant
            i <= lines@.len(),
            all == lines.deep_view(),
            all.len() == lines@.len(),
            f == |line: Seq<char>| update_line(line),
            updates.deep_view() == all.take(i as int).filter_map(f),
        decreases lines.len() - i,
    {
        let ghost before = updates.deep_view();
        proof {
            all.lemma_filter_map_take_succ(f, i as int);
            assert(all[i as int] == lines@[i as int]@);
        }
        match parse_update_line(&lines[i]) {
            Some(update) => {
                updates.push(update);
                assert(updates.deep_view() =~= before + seq![update.deep_view()]);
            },
            None => {},
        }
        i = i + 1;
    }
    assert(all.take(i as int) == all);
    updates
}

/// The lines of a text that are not empty, [`filled_lines`].
fn list_filled_lines(s: &str) -> (r: Vec<String>)
    ensures
        r.deep_view() == filled_lines(s@),
{
    let lines = text::split_lines(s);
    let ghost all = lines.deep_view();
    let ghost f = |line: Seq<char>|
        if line.len() > 0 {
            Some(line)
        } else {
            None
        };
    let mut filled: Vec<String> = Vec::new();
    let mut i: usize = 0;
    assert(filled.deep_view() =~= all.take(0).filter_map(f));
    while i < lines.len()
        invariant
            i <= lines@.len(),
            all == lines.deep_view(),
            all.len() == lines@.len(),
            f == |line: Seq<char>|
                if line.len() > 0 {
                    Some(line)
                } else {
                    None
                },
            filled.deep_view() == all.take(i as int).filter_map(f),
        decreases lines.len() - i,
    {
        let ghost before = filled.deep_view();
        proof {
            all.lemma_filter_map_take_succ(f, i as int);
            assert(all[i as int] == lines@[i as int]@);
        }
        if !lines[i].as_str().is_empty() {
            filled.push(lines[i].clone());
            assert(filled.deep_view() =~= before + seq![all[i as int]]);
        }
        i = i + 1;
    }
    assert(all.take(i as int) == all);
    filled
}

/// What asks git for the commits that a push brings, [`rev_list`].
fn rev_list_call(new: &str) -> (r: HostCall)
    ensures
        r.deep_view() == rev_list(new@),
{
    let mut args: Vec<String> = Vec::new();
    args.push("rev-list".to_owned());
    args.push(new.to_owned());
    args.push("--not".to_owned());
    args.push("--all".to_owned());
    assert(args.deep_view() =~= seq!["rev-list"@, new@, "--not"@, "--all"@]);
    HostCall::Git { args }
}

/// What asks git for the paths that a commit changes, [`diff_tree`].
fn diff_tree_call(commit: &str) -> (r: HostCall)
    ensures
        r.deep_view() == diff_tree(commit@),
{
    let mut args: Vec<String> = Vec::new();
    args.push("diff-tree".to_owned());
    args.push("--no-commit-id".to_owned());
    args.push("--name-only".to_owned());
    args.push("-r".to_owned());
    args.push("-m".to_owned());
    args.push("--root".to_owned());
    args.push(commit.to_owned());
    assert(args.deep_view() =~= seq![
        "diff-tree"@,
        "--no-commit-id"@,
        "--name-only"@,
        "-r"@,
        "-m"@,
        "--root"@,
        commit@,
    ]);
    HostCall::Git { args }
}

/// What asks git whether one commit is an ancestor of another, [`is_ancestor`].
fn is_ancestor_call(old: &str, new: &str) -> (r: HostCall)
    ensures
        r.deep_view() == is_ancestor(old@, new@),
{
    let mut args: Vec<String> = Vec::new();
    args.push("merge-base".to_owned());
    args.push("--is-ancestor".to_owned());
    args.push(old.to_owned());
    args.push(new.to_owned());
    assert(args.deep_view() =~= seq!["merge-base"@, "--is-ancestor"@, old@, new@]);
    HostCall::Git { args }
}

/// The value of what a run printed.
spec fn printed_view(r: Result<String, String>) -> Result<Seq<char>, Seq<char>> {
    match r {
        Ok(output) => Ok(output@),
        Err(error) => Err(error@),
    }
}

/// What a run of git printed, [`printed`].
fn read_output(what: &str, run: &Outcome<ProcessOutput>) -> (r: Result<String, String>)
    ensures
        printed_view(r) == printed(what@, run.deep_view()),
{
    match run {
        Outcome::Error(error) => Err(text::concat3(what, " failed: ", error)),
        Outcome::Got(output) => {
            if output.success {
                Ok(text::from_utf8_lossy(&output.stdout))
            } else {
                let words = text::from_utf8_lossy(&output.stderr);
                Err(text::concat3(what, " failed: ", &words))
            }
        },
    }
}

/// The paths that a commit changes come up, [`commit_paths`].
fn find_commit_paths(replies: &Replies, commit: &str, g: &mut Gathering<String, String>)
    ensures
        final(g).deep_view() == host::absorb_all(
            old(g).deep_view(),
            commit_paths(replies.deep_view(), commit@),
        ),
{
    let ghost start = g.deep_view();
    let call = diff_tree_call(commit);
    match replies.process(&call) {
        None => {
            proof {
                host::lemma_absorb_one(
                    start,
                    ItemView::<Seq<char>, Seq<char>>::Need(call.deep_view()),
                );
            }
            g.need(call);
        },
        Some(run) => match read_output("git diff-tree", run) {
            Err(error) => {
                proof {
                    host::lemma_absorb_one(start, ItemView::<Seq<char>, Seq<char>>::Fail(error@));
                }
                g.fail(error);
            },
            Ok(output) => {
                let paths = list_filled_lines(&output);
                let ghost views = paths.deep_view();
                let ghost items = views.map_values(
                    |path: Seq<char>| ItemView::<Seq<char>, Seq<char>>::Value(path),
                );
                assert(items.take(0).len() == 0);
                for path in it: paths
                    invariant
                        it.seq() == paths@,
                        views == paths.deep_view(),
                        items == views.map_values(
                            |path: Seq<char>| ItemView::<Seq<char>, Seq<char>>::Value(path),
                        ),
                        g.deep_view() == host::absorb_all(start, items.take(it.index() as int)),
                {
                    proof {
                        let i = it.index() as int;
                        assert(items.take(i + 1).drop_last() == items.take(i));
                        assert(views[i] == path@);
                    }
                    g.value(path);
                }
                assert(items.take(items.len() as int) == items);
            },
        },
    }
}

/// Texts sorted and each of them once.
fn sort_distinct(items: Vec<String>) -> (r: Vec<String>)
    ensures
        r.deep_view() == text::sorted_distinct(items.deep_view()),
{
    let ghost all = items.deep_view();
    let mut sorted: Vec<String> = Vec::new();
    assert(sorted.deep_view() =~= text::sorted_distinct(all.take(0)));
    for item in it: items
        invariant
            it.seq() == items@,
            all == items.deep_view(),
            sorted.deep_view() == text::sorted_distinct(all.take(it.index() as int)),
            text::ascending(sorted.deep_view()),
    {
        proof {
            let i = it.index() as int;
            assert(all.take(i + 1).drop_last() == all.take(i));
            assert(all[i] == item@);
        }
        text::put_sorted(&mut sorted, item);
    }
    assert(all.take(all.len() as int) == all);
    sorted
}

/// The paths that a push to a new commit changes, [`changed_paths`].
fn changed_paths_for(new: &str, replies: &Replies) -> (r: Step<Vec<String>, String>)
    ensures
        r.deep_view() == changed_paths(replies.deep_view(), new@),
{
    let call = rev_list_call(new);
    let output = match replies.process(&call) {
        None => return host::ask(call),
        Some(run) => match read_output("git rev-list", run) {
            Err(error) => return Step::Failed(error),
            Ok(output) => output,
        },
    };
    let commits = list_filled_lines(&output);
    let ghost k = replies.deep_view();
    let ghost all = commits.deep_view();
    let ghost f = |commit: Seq<char>| commit_paths(k, commit);
    let mut g: Gathering<String, String> = Gathering::new();
    let mut i: usize = 0;
    assert(all.take(0).flat_map(f) == Seq::<ItemView<Seq<char>, Seq<char>>>::empty());
    while i < commits.len()
        invariant
            i <= commits@.len(),
            k == replies.deep_view(),
            all == commits.deep_view(),
            all.len() == commits@.len(),
            f == |commit: Seq<char>| commit_paths(k, commit),
            g.deep_view() == host::absorb_all(host::nothing(), all.take(i as int).flat_map(f)),
        decreases commits.len() - i,
    {
        proof {
            all.lemma_flat_map_take_append(f, i as int);
            assert(all[i as int] == commits@[i as int]@);
            host::lemma_absorb_concat(
                host::nothing(),
                all.take(i as int).flat_map(f),
                f(all[i as int]),
            );
        }
        find_commit_paths(replies, &commits[i], &mut g);
        i = i + 1;
    }
    assert(all.take(i as int) == all);
    match g.conclude() {
        Step::Ask(calls) => Step::Ask(calls),
        Step::Failed(error) => Step::Failed(error),
        Step::Done(paths) => Step::Done(sort_distinct(paths)),
    }
}

/// An update with the paths that it changes, [`update_of`].
fn find_update(replies: &Replies, want_paths: bool, line: &UpdateLine) -> (r: Step<
    RefUpdate,
    String,
>)
    ensures
        r.deep_view() == update_of(replies.deep_view(), want_paths, line.deep_view()),
{
    if want_paths && !is_zero_oid(&line.new) {
        match changed_paths_for(&line.new, replies) {
            Step::Ask(calls) => Step::Ask(calls),
            Step::Failed(error) => Step::Failed(error),
            Step::Done(paths) => Step::Done(
                RefUpdate { reference: line.reference.clone(), changed_paths: paths },
            ),
        }
    } else {
        let none: Vec<String> = Vec::new();
        assert(none.deep_view() =~= Seq::<Seq<char>>::empty());
        Step::Done(RefUpdate { reference: line.reference.clone(), changed_paths: none })
    }
}

/// The verdict that refusals make, [`verdict`].
fn conclude(refused: &Vec<scope_match::UpdateRejection>) -> (r: Verdict)
    ensures
        r.deep_view() == verdict(refused.deep_view()),
{
    let ghost all = refused.deep_view();
    let mut messages: Vec<String> = Vec::new();
    let mut i: usize = 0;
    while i < refused.len()
        invariant
            i <= refused@.len(),
            all == refused.deep_view(),
            all.len() == refused@.len(),
            messages@.len() == i,
            forall|j: int|
                0 <= j < i ==> (#[trigger] messages@[j])@ == "arbor: "@ + all[j].reason,
        decreases refused.len() - i,
    {
        assert(all[i as int] == refused@[i as int].deep_view());
        messages.push(text::concat("arbor: ", &refused[i].reason));
        i = i + 1;
    }
    assert(messages.deep_view() =~= verdict(all).messages);
    let code: i32 = if refused.len() == 0 {
        0
    } else {
        1
    };
    Verdict { code, messages }
}

/// Judges a push by what it is confined to, [`judged`]. Where it is not confined
/// nothing is looked up.
pub fn evaluate(bounds: &ScopeBounds, input: &str, replies: &Replies) -> (r: Step<Verdict, String>)
    ensures
        r.deep_view() == judged(replies.deep_view(), bounds.deep_view(), input@),
{
    let none: Vec<scope_match::UpdateRejection> = Vec::new();
    assert(none.deep_view() =~= Seq::<UpdateRejectionView>::empty());
    if bounds.ref_patterns.is_none() && bounds.path_patterns.is_none() {
        return Step::Done(conclude(&none));
    }
    let want_paths = bounds.path_patterns.is_some();
    let lines = parse_update_lines(input);
    let ghost k = replies.deep_view();
    let ghost all = lines.deep_view();
    let ghost f = |line: UpdateLineView|
        host::step_items(update_of(k, bounds.deep_view().path_patterns is Some, line));
    let mut g: Gathering<RefUpdate, String> = Gathering::new();
    let mut i: usize = 0;
    assert(all.take(0).flat_map(f) == Seq::<ItemView<RefUpdateView, Seq<char>>>::empty());
    while i < lines.len()
        invariant
            i <= lines@.len(),
            k == replies.deep_view(),
            all == lines.deep_view(),
            all.len() == lines@.len(),
            want_paths == bounds.deep_view().path_patterns is Some,
            f == |line: UpdateLineView|
                host::step_items(update_of(k, bounds.deep_view().path_patterns is Some, line)),
            g.deep_view() == host::absorb_all(host::nothing(), all.take(i as int).flat_map(f)),
        decreases lines.len() - i,
    {
        proof {
            all.lemma_flat_map_take_append(f, i as int);
            assert(all[i as int] == lines@[i as int].deep_view());
            host::lemma_absorb_concat(
                host::nothing(),
                all.take(i as int).flat_map(f),
                f(all[i as int]),
            );
        }
        g.step(find_update(replies, want_paths, &lines[i]));
        i = i + 1;
    }
    assert(all.take(i as int) == all);
    match g.conclude() {
        Step::Ask(calls) => Step::Ask(calls),
        Step::Failed(error) => Step::Failed(error),
        Step::Done(updates) => {
            let list = updates.as_slice();
            assert(list.deep_view() =~= updates.deep_view());
            let refused = evaluate_receive_pack(bounds, list);
            Step::Done(conclude(&refused))
        },
    }
}

/// Whether a reference is protected, [`is_protected`].
pub fn protects(patterns: &Vec<String>, reference: &str) -> (r: bool)
    ensures
        r == is_protected(patterns.deep_view(), reference@),
{
    let list = patterns.as_slice();
    assert(list.deep_view() =~= patterns.deep_view());
    if scope_match::matches_any_glob(list, reference) {
        return true;
    }
    if !text::starts_with(reference, "refs/heads/") {
        return false;
    }
    proof {
        reveal_strlit("refs/heads/");
    }
    let chars = text::to_chars(reference);
    let branch = text::slice_to_string(&chars, 11, chars.len());
    assert(branch@ == reference@.skip(11));
    scope_match::matches_any_glob(list, &branch)
}

/// An update of a protected reference comes up, [`protection`].
fn protect(
    replies: &Replies,
    patterns: &Vec<String>,
    line: &UpdateLine,
    g: &mut Gathering<scope_match::UpdateRejection, String>,
)
    ensures
        final(g).deep_view() == host::absorb_all(
            old(g).deep_view(),
            protection(replies.deep_view(), patterns.deep_view(), line.deep_view()),
        ),
{
    let ghost start = g.deep_view();
    if !protects(patterns, &line.reference) {
        return;
    }
    if is_zero_oid(&line.new) {
        let refused = scope_match::UpdateRejection {
            reference: line.reference.clone(),
            reason: text::concat3(
                "ref ",
                &line.reference,
                " is protected and cannot be deleted",
            ),
        };
        proof {
            host::lemma_absorb_one(
                start,
                ItemView::<UpdateRejectionView, Seq<char>>::Value(refused.deep_view()),
            );
        }
        g.value(refused);
        return;
    }
    if is_zero_oid(&line.old) {
        return;
    }
    let call = is_ancestor_call(&line.old, &line.new);
    match replies.process(&call) {
        None => {
            proof {
                host::lemma_absorb_one(
                    start,
                    ItemView::<UpdateRejectionView, Seq<char>>::Need(call.deep_view()),
                );
            }
            g.need(call);
        },
        Some(Outcome::Error(error)) => {
            let words = text::concat("git merge-base failed: ", error);
            proof {
                host::lemma_absorb_one(
                    start,
                    ItemView::<UpdateRejectionView, Seq<char>>::Fail(words@),
                );
            }
            g.fail(words);
        },
        Some(Outcome::Got(output)) => {
            if !output.success {
                let refused = scope_match::UpdateRejection {
                    reference: line.reference.clone(),
                    reason: text::concat3(
                        "ref ",
                        &line.reference,
                        " is protected and cannot be rewritten",
                    ),
                };
                proof {
                    host::lemma_absorb_one(
                        start,
                        ItemView::<UpdateRejectionView, Seq<char>>::Value(refused.deep_view()),
                    );
                }
                g.value(refused);
            }
        },
    }
}

/// Judges a push by the branches that are protected, [`guarded`].
pub fn evaluate_protection(
    patterns: Option<&Vec<String>>,
    input: &str,
    replies: &Replies,
) -> (r: Step<Verdict, String>)
    ensures
        r.deep_view() == guarded(replies.deep_view(), patterns.deep_view(), input@),
{
    let list = match patterns {
        None => {
            let none: Vec<scope_match::UpdateRejection> = Vec::new();
            assert(none.deep_view() =~= Seq::<UpdateRejectionView>::empty());
            return Step::Done(conclude(&none));
        },
        Some(list) => list,
    };
    let lines = parse_update_lines(input);
    let ghost k = replies.deep_view();
    let ghost all = lines.deep_view();
    let ghost f = |line: UpdateLineView| protection(k, list.deep_view(), line);
    let mut g: Gathering<scope_match::UpdateRejection, String> = Gathering::new();
    let mut i: usize = 0;
    assert(all.take(0).flat_map(f) == Seq::<ItemView<UpdateRejectionView, Seq<char>>>::empty());
    while i < lines.len()
        invariant
            i <= lines@.len(),
            k == replies.deep_view(),
            all == lines.deep_view(),
            all.len() == lines@.len(),
            f == |line: UpdateLineView| protection(k, list.deep_view(), line),
            g.deep_view() == host::absorb_all(host::nothing(), all.take(i as int).flat_map(f)),
        decreases lines.len() - i,
    {
        proof {
            all.lemma_flat_map_take_append(f, i as int);
            assert(all[i as int] == lines@[i as int].deep_view());
            host::lemma_absorb_concat(
                host::nothing(),
                all.take(i as int).flat_map(f),
                f(all[i as int]),
            );
        }
        protect(replies, list, &lines[i], &mut g);
        i = i + 1;
    }
    assert(all.take(i as int) == all);
    match g.conclude() {
        Step::Ask(calls) => Step::Ask(calls),
        Step::Failed(error) => Step::Failed(error),
        Step::Done(refused) => Step::Done(conclude(&refused)),
    }
}

/// The verdict that says one thing against a push, [`refusal`].
fn refuse(words: &str) -> (r: Verdict)
    ensures
        r.deep_view() == refusal(words@),
{
    let mut messages: Vec<String> = Vec::new();
    messages.push(text::concat("arbor: ", words));
    assert(messages.deep_view() =~= seq!["arbor: "@ + words@]);
    Verdict { code: 1, messages }
}

/// Two verdicts as one, [`both`].
fn join_verdicts(a: Verdict, b: Verdict) -> (r: Verdict)
    ensures
        r.deep_view() == both(a.deep_view(), b.deep_view()),
{
    let ghost first = a.messages.deep_view();
    let ghost second = b.messages.deep_view();
    let code: i32 = if a.code == 0 && b.code == 0 {
        0
    } else {
        1
    };
    let mut messages = a.messages;
    let mut rest = b.messages;
    messages.append(&mut rest);
    assert(messages.deep_view() =~= first + second);
    Verdict { code, messages }
}

/// Judges a push by all that the environment sets, [`pre_receive`], given what
/// it holds for `ARBOR_REF_PATTERNS`, `ARBOR_PATH_PATTERNS` and
/// `ARBOR_PROTECTED_REF_PATTERNS` and the updates, if they could be read.
pub fn run_pre_receive(
    refs: Option<&str>,
    paths: Option<&str>,
    protected: Option<&str>,
    input: Option<&str>,
    replies: &Replies,
) -> (r: Step<Verdict, String>)
    ensures
        r.deep_view() == pre_receive(
            replies.deep_view(),
            refs.deep_view(),
            paths.deep_view(),
            protected.deep_view(),
            input.deep_view(),
        ),
        !(r is Failed),
{
    let bounds = ScopeBounds {
        ref_patterns: parse_patterns(refs),
        path_patterns: parse_patterns(paths),
    };
    let patterns = parse_protected(protected);
    let updates = match input {
        None => return Step::Done(refuse("could not read ref updates")),
        Some(updates) => updates,
    };
    let a = match evaluate(&bounds, updates, replies) {
        Step::Ask(calls) => return Step::Ask(calls),
        Step::Failed(error) => return Step::Done(refuse(&error)),
        Step::Done(verdict) => verdict,
    };
    match evaluate_protection(patterns.as_ref(), updates, replies) {
        Step::Ask(calls) => Step::Ask(calls),
        Step::Failed(error) => Step::Done(refuse(&error)),
        Step::Done(b) => Step::Done(join_verdicts(a, b)),
    }
}

} // verus!
