//! What holds of every push that the hook judges.

use vstd::prelude::*;

use super::scope;
use crate::git::hook::{self, UpdateLineView};
use crate::git::scope_match::{self, RefUpdateView, ScopeBoundsView, UpdateRejectionView};
use crate::host::{self, HostCallView, ItemView, OutcomeView, ReplyView, StepView};
use crate::text;

verus! {

/// A push that is not confined is let through, and nothing is looked up for it.
pub proof fn law_unconfined_asks_nothing(k: Seq<(HostCallView, ReplyView)>, input: Seq<char>)
    ensures
        hook::judged(
            k,
            (ScopeBoundsView { ref_patterns: None, path_patterns: None }),
            input,
        ) == StepView::<hook::VerdictView, Seq<char>>::Done(hook::verdict(Seq::empty())),
        hook::verdict(Seq::empty()).code == 0,
{
}

/// A push is let through exactly if nothing is held against it, and there is a
/// word for each thing that is.
pub proof fn law_every_refusal_is_told(refused: Seq<UpdateRejectionView>)
    ensures
        hook::verdict(refused).code == 0 <==> refused.len() == 0,
        hook::verdict(refused).messages.len() == refused.len(),
{
}

/// A deletion is judged on its reference alone: nothing is looked up for it,
/// however its paths are confined.
pub proof fn law_deletion_asks_nothing(
    k: Seq<(HostCallView, ReplyView)>,
    want_paths: bool,
    line: UpdateLineView,
)
    requires
        hook::is_zero(line.new),
    ensures
        hook::update_of(k, want_paths, line) == StepView::<RefUpdateView, Seq<char>>::Done(
            RefUpdateView { reference: line.reference, changed_paths: Seq::empty() },
        ),
{
}

/// Where only references are confined, no paths are looked up.
pub proof fn law_references_alone_ask_nothing(
    k: Seq<(HostCallView, ReplyView)>,
    line: UpdateLineView,
)
    ensures
        hook::update_of(k, false, line) is Done,
{
}

/// Patterns that cannot be read let nothing through.
pub proof fn law_unreadable_patterns_refuse(raw: Seq<char>, value: Seq<char>)
    requires
        hook::json_string_list(raw) is None,
    ensures
        !scope_match::allows(hook::patterns_of(Some(raw)), value),
{
}

/// Protected branches that cannot be read are all of them.
pub proof fn law_unreadable_protection_protects(raw: Seq<char>, reference: Seq<char>)
    requires
        hook::json_string_list(raw) is None,
    ensures
        hook::protected_of(Some(raw)) is Some,
        hook::is_protected(hook::protected_of(Some(raw))->0, reference),
{
    let list = hook::protected_of(Some(raw))->0;
    let nothing = Seq::<char>::empty();
    reveal_strlit("**");
    assert("**"@ == seq!['*', '*']);
    scope::law_double_star_crosses_segments(nothing, reference);
    assert(nothing + seq!['*', '*'] == "**"@);
    assert(reference.subrange(0, 0) == nothing);
    assert(scope_match::glob(list[0], reference));
}

/// A protected reference cannot be deleted.
pub proof fn law_protected_keeps_existing(
    k: Seq<(HostCallView, ReplyView)>,
    patterns: Seq<Seq<char>>,
    line: UpdateLineView,
)
    requires
        hook::is_protected(patterns, line.reference),
        hook::is_zero(line.new),
    ensures
        hook::protection(k, patterns, line).len() == 1,
        hook::protection(k, patterns, line)[0] is Value,
{
}

/// A protected reference can be created.
pub proof fn law_protected_can_be_created(
    k: Seq<(HostCallView, ReplyView)>,
    patterns: Seq<Seq<char>>,
    line: UpdateLineView,
)
    requires
        hook::is_zero(line.old),
        !hook::is_zero(line.new),
    ensures
        hook::protection(k, patterns, line).len() == 0,
{
}

/// A protected reference moves only forward: once git has told whether the old
/// commit is an ancestor of the new one, the update is let through exactly if
/// it is.
pub proof fn law_protected_moves_forward(
    k: Seq<(HostCallView, ReplyView)>,
    patterns: Seq<Seq<char>>,
    line: UpdateLineView,
)
    requires
        hook::is_protected(patterns, line.reference),
        !hook::is_zero(line.old),
        !hook::is_zero(line.new),
        host::process(k, hook::is_ancestor(line.old, line.new)) matches Some(OutcomeView::Got(_)),
    ensures
        hook::protection(k, patterns, line).len() == 0 <==> host::process(
            k,
            hook::is_ancestor(line.old, line.new),
        )->0->Got_0.success,
        forall|i: int|
            0 <= i < hook::protection(k, patterns, line).len() ==> (#[trigger] hook::protection(
                k,
                patterns,
                line,
            )[i]) is Value,
{
}

/// What is not protected is left alone.
pub proof fn law_unprotected_is_left_alone(
    k: Seq<(HostCallView, ReplyView)>,
    patterns: Seq<Seq<char>>,
    line: UpdateLineView,
)
    requires
        !hook::is_protected(patterns, line.reference),
    ensures
        hook::protection(k, patterns, line).len() == 0,
{
}

/// The paths that a push changes come sorted, each of them once.
pub proof fn law_changed_paths_are_sorted(k: Seq<(HostCallView, ReplyView)>, new: Seq<char>)
    ensures
        match hook::changed_paths(k, new) {
            StepView::Done(paths) => text::ascending(paths),
            _ => true,
        },
{
    if let StepView::Done(paths) = hook::changed_paths(k, new) {
        let output = hook::printed("git rev-list"@, host::process(k, hook::rev_list(new))->0)->Ok_0;
        let gathered = host::gather(
            hook::filled_lines(output).flat_map(|c: Seq<char>| hook::commit_paths(k, c)),
        );
        text::law_sorted_distinct(gathered->Done_0);
    }
}

/// The commits that a push to a new commit brings, as git has told them.
pub open spec fn brought(k: Seq<(HostCallView, ReplyView)>, new: Seq<char>) -> Seq<Seq<char>> {
    hook::filled_lines(
        hook::printed("git rev-list"@, host::process(k, hook::rev_list(new))->0)->Ok_0,
    )
}

/// The paths that a commit changes, as git has told them.
pub open spec fn told(k: Seq<(HostCallView, ReplyView)>, commit: Seq<char>) -> Seq<Seq<char>> {
    hook::filled_lines(
        hook::printed("git diff-tree"@, host::process(k, hook::diff_tree(commit))->0)->Ok_0,
    )
}

/// What a list holds is what one of its parts holds.
proof fn lemma_flat_map_contains<A, B>(xs: Seq<A>, f: spec_fn(A) -> Seq<B>, b: B)
    ensures
        xs.flat_map(f).contains(b) <==> exists|i: int|
            0 <= i < xs.len() && f(#[trigger] xs[i]).contains(b),
    decreases xs.len(),
{
    let all = xs.flat_map(f);
    if xs.len() == 0 {
        assert(all.len() == 0);
    } else {
        let rest = xs.drop_last();
        let last = f(xs.last());
        lemma_flat_map_contains(rest, f, b);
        xs.lemma_flat_map_take_append(f, xs.len() - 1);
        assert(xs.take(xs.len() as int) == xs);
        assert(xs.take(xs.len() - 1) == rest);
        assert(all == rest.flat_map(f) + last);
        if rest.flat_map(f).contains(b) {
            let i = choose|i: int| 0 <= i < rest.len() && f(#[trigger] rest[i]).contains(b);
            assert(xs[i] == rest[i]);
            let j = choose|j: int| 0 <= j < rest.flat_map(f).len() && rest.flat_map(f)[j] == b;
            assert(all[j] == b);
        }
        if last.contains(b) {
            let j = choose|j: int| 0 <= j < last.len() && last[j] == b;
            assert(all[rest.flat_map(f).len() + j] == b);
            assert(f(xs[xs.len() - 1]).contains(b));
        }
        if all.contains(b) {
            let j = choose|j: int| 0 <= j < all.len() && all[j] == b;
            if j < rest.flat_map(f).len() {
                assert(rest.flat_map(f)[j] == b);
            } else {
                assert(last[j - rest.flat_map(f).len()] == b);
            }
        }
        if exists|i: int| 0 <= i < xs.len() && f(#[trigger] xs[i]).contains(b) {
            let i = choose|i: int| 0 <= i < xs.len() && f(#[trigger] xs[i]).contains(b);
            if i < rest.len() {
                assert(rest[i] == xs[i]);
            }
        }
    }
}

/// The paths that a push changes are all that any commit it brings changes, and
/// no others: a commit in the middle counts as much as the last one.
pub proof fn law_changed_paths_are_all(k: Seq<(HostCallView, ReplyView)>, new: Seq<char>)
    ensures
        match hook::changed_paths(k, new) {
            StepView::Done(paths) => forall|path: Seq<char>| #[trigger]
                paths.contains(path) <==> exists|i: int|
                    0 <= i < brought(k, new).len() && told(
                        k,
                        #[trigger] brought(k, new)[i],
                    ).contains(path),
            _ => true,
        },
{
    if let StepView::Done(paths) = hook::changed_paths(k, new) {
        let commits = brought(k, new);
        let f = |commit: Seq<char>| hook::commit_paths(k, commit);
        let items = commits.flat_map(f);
        let values = host::gather(items)->Done_0;
        super::host::law_gather_done(items);
        text::law_sorted_distinct(values);
        assert forall|i: int| 0 <= i < commits.len() implies f(#[trigger] commits[i]) == told(
            k,
            commits[i],
        ).map_values(|path: Seq<char>| ItemView::<Seq<char>, Seq<char>>::Value(path)) by {
            let part = f(commits[i]);
            if part.len() == 1 && !(part[0] is Value) {
                assert(part.contains(part[0]));
                lemma_flat_map_contains(commits, f, part[0]);
                let j = choose|j: int| 0 <= j < items.len() && items[j] == part[0];
                assert(items[j] is Value);
            }
        }
        assert forall|path: Seq<char>| #[trigger]
            paths.contains(path) <==> exists|i: int|
                0 <= i < commits.len() && told(k, #[trigger] commits[i]).contains(path) by {
            let value = ItemView::<Seq<char>, Seq<char>>::Value(path);
            lemma_flat_map_contains(commits, f, value);
            if values.contains(path) {
                let j = choose|j: int| 0 <= j < values.len() && values[j] == path;
                assert(items[j] == value);
                let i = choose|i: int|
                    0 <= i < commits.len() && f(#[trigger] commits[i]).contains(value);
                let part = f(commits[i]);
                let n = choose|n: int| 0 <= n < part.len() && part[n] == value;
                assert(told(k, commits[i])[n] == path);
            }
            if exists|i: int|
                0 <= i < commits.len() && told(k, #[trigger] commits[i]).contains(path) {
                let i = choose|i: int|
                    0 <= i < commits.len() && told(k, #[trigger] commits[i]).contains(path);
                let n = choose|n: int|
                    0 <= n < told(k, commits[i]).len() && told(k, commits[i])[n] == path;
                assert(f(commits[i])[n] == value);
                assert(f(commits[i]).contains(value));
                let j = choose|j: int| 0 <= j < items.len() && items[j] == value;
                assert(values[j] == path);
            }
        }
    }
}

/// What cannot be looked up is refused: a push never fails but with a verdict.
pub proof fn law_failure_refuses(
    k: Seq<(HostCallView, ReplyView)>,
    refs: Option<Seq<char>>,
    paths: Option<Seq<char>>,
    protected: Option<Seq<char>>,
    input: Option<Seq<char>>,
)
    ensures
        !(hook::pre_receive(k, refs, paths, protected, input) is Failed),
        input is None ==> hook::pre_receive(k, refs, paths, protected, input) is Done
            && hook::pre_receive(k, refs, paths, protected, input)->Done_0.code == 1,
{
}

/// Nothing is refused exactly if no update is.
proof fn lemma_no_rejections(bounds: ScopeBoundsView, updates: Seq<RefUpdateView>)
    ensures
        scope_match::rejections(bounds, updates).len() == 0 <==> forall|i: int|
            0 <= i < updates.len() ==> scope_match::rejection(bounds, #[trigger] updates[i])
                is None,
    decreases updates.len(),
{
    let f = |update: RefUpdateView| scope_match::rejection(bounds, update);
    if updates.len() > 0 {
        let rest = updates.drop_last();
        lemma_no_rejections(bounds, rest);
        updates.lemma_filter_map_take_succ(f, updates.len() - 1);
        assert(updates.take(updates.len() as int) == updates);
        assert(updates.take(updates.len() - 1) == rest);
        if forall|i: int|
            0 <= i < updates.len() ==> scope_match::rejection(bounds, #[trigger] updates[i])
                is None {
            assert forall|i: int| 0 <= i < rest.len() implies scope_match::rejection(
                bounds,
                #[trigger] rest[i],
            ) is None by {
                assert(rest[i] == updates[i]);
            }
            assert(scope_match::rejection(bounds, updates[updates.len() - 1]) is None);
        }
        if scope_match::rejections(bounds, updates).len() == 0 {
            assert forall|i: int| 0 <= i < updates.len() implies scope_match::rejection(
                bounds,
                #[trigger] updates[i],
            ) is None by {
                if i < rest.len() {
                    assert(rest[i] == updates[i]);
                }
            }
        }
    }
}

/// A push that is confined is let through exactly if the reference of every
/// update is in bounds, and every path that any of its commits changes.
pub proof fn law_confined_push(
    k: Seq<(HostCallView, ReplyView)>,
    bounds: ScopeBoundsView,
    input: Seq<char>,
)
    requires
        bounds.ref_patterns is Some || bounds.path_patterns is Some,
    ensures
        match hook::judged(k, bounds, input) {
            StepView::Done(verdict) => verdict.code == 0 <==> forall|i: int|
                0 <= i < hook::update_lines(input).len() ==> scope_match::rejection(
                    bounds,
                    hook::update_of(
                        k,
                        bounds.path_patterns is Some,
                        #[trigger] hook::update_lines(input)[i],
                    )->Done_0,
                ) is None,
            _ => true,
        },
{
    let lines = hook::update_lines(input);
    let want = bounds.path_patterns is Some;
    let f = |line: UpdateLineView| hook::update_of(k, want, line);
    let items = |line: UpdateLineView| host::step_items(hook::update_of(k, want, line));
    let composed = |line: UpdateLineView| host::step_items(f(line));
    assert(items =~= composed);
    super::host::law_gather_steps(lines, f);
    if hook::judged(k, bounds, input) is Done {
        let updates = host::gather(lines.flat_map(items))->Done_0;
        lemma_no_rejections(bounds, updates);
        assert forall|i: int| 0 <= i < lines.len() implies hook::update_of(
            k,
            want,
            #[trigger] lines[i],
        ) == StepView::<RefUpdateView, Seq<char>>::Done(updates[i]) by {
            assert(f(lines[i]) == StepView::<RefUpdateView, Seq<char>>::Done(updates[i]));
        }
        if forall|i: int|
            0 <= i < lines.len() ==> scope_match::rejection(
                bounds,
                hook::update_of(k, want, #[trigger] lines[i])->Done_0,
            ) is None {
            assert forall|i: int| 0 <= i < updates.len() implies scope_match::rejection(
                bounds,
                #[trigger] updates[i],
            ) is None by {
                assert(hook::update_of(k, want, lines[i])->Done_0 == updates[i]);
            }
        }
    }
}

/// A push that is let through keeps to its bounds: every reference that it
/// updates matches a pattern, and so does every path that any commit it brings
/// changes.
pub proof fn law_confined_push_keeps_to_its_paths(
    k: Seq<(HostCallView, ReplyView)>,
    bounds: ScopeBoundsView,
    input: Seq<char>,
    line: int,
    commit: int,
    path: Seq<char>,
)
    requires
        bounds.path_patterns is Some,
        hook::judged(k, bounds, input) matches StepView::Done(verdict) && verdict.code == 0,
        0 <= line < hook::update_lines(input).len(),
        !hook::is_zero(hook::update_lines(input)[line].new),
        0 <= commit < brought(k, hook::update_lines(input)[line].new).len(),
        told(k, brought(k, hook::update_lines(input)[line].new)[commit]).contains(path),
    ensures
        scope_match::allows(bounds.ref_patterns, hook::update_lines(input)[line].reference),
        scope_match::any_glob(bounds.path_patterns->0, path),
{
    let lines = hook::update_lines(input);
    let update = lines[line];
    law_confined_push(k, bounds, input);
    let f = |line: UpdateLineView| hook::update_of(k, true, line);
    let items = |line: UpdateLineView| host::step_items(hook::update_of(k, true, line));
    let composed = |line: UpdateLineView| host::step_items(f(line));
    assert(items =~= composed);
    super::host::law_gather_steps(lines, f);
    assert(f(lines[line]) is Done);
    assert(hook::update_of(k, true, lines[line]) is Done);
    law_changed_paths_are_all(k, update.new);
    let paths = hook::changed_paths(k, update.new)->Done_0;
    assert(paths.contains(path));
    scope::law_let_through(bounds, hook::update_of(k, true, update)->Done_0);
    let j = choose|j: int| 0 <= j < paths.len() && paths[j] == path;
    assert(scope_match::allows(bounds.path_patterns, paths[j]));
}

/// Nothing comes up exactly if no line comes up with anything.
proof fn lemma_no_items<A, B>(xs: Seq<A>, f: spec_fn(A) -> Seq<B>)
    ensures
        xs.flat_map(f).len() == 0 <==> forall|i: int|
            0 <= i < xs.len() ==> f(#[trigger] xs[i]).len() == 0,
    decreases xs.len(),
{
    if xs.len() == 0 {
        assert(xs.flat_map(f).len() == 0);
    } else {
        let rest = xs.drop_last();
        lemma_no_items(rest, f);
        xs.lemma_flat_map_take_append(f, xs.len() - 1);
        assert(xs.take(xs.len() as int) == xs);
        assert(xs.take(xs.len() - 1) == rest);
        if forall|i: int| 0 <= i < xs.len() ==> f(#[trigger] xs[i]).len() == 0 {
            assert forall|i: int| 0 <= i < rest.len() implies f(#[trigger] rest[i]).len() == 0 by {
                assert(rest[i] == xs[i]);
            }
            assert(f(xs[xs.len() - 1]).len() == 0);
        }
        if xs.flat_map(f).len() == 0 {
            assert forall|i: int| 0 <= i < xs.len() implies f(#[trigger] xs[i]).len() == 0 by {
                if i < rest.len() {
                    assert(rest[i] == xs[i]);
                }
            }
        }
    }
}

/// A push is let through by the protected branches exactly if none of its
/// updates deletes or rewrites one of them.
pub proof fn law_protected_push(
    k: Seq<(HostCallView, ReplyView)>,
    patterns: Seq<Seq<char>>,
    input: Seq<char>,
)
    ensures
        match hook::guarded(k, Some(patterns), input) {
            StepView::Done(verdict) => verdict.code == 0 <==> forall|i: int|
                0 <= i < hook::update_lines(input).len() ==> hook::protection(
                    k,
                    patterns,
                    #[trigger] hook::update_lines(input)[i],
                ).len() == 0,
            _ => true,
        },
{
    let lines = hook::update_lines(input);
    let f = |line: UpdateLineView| hook::protection(k, patterns, line);
    let items = lines.flat_map(f);
    super::host::law_gather_done(items);
    lemma_no_items(lines, f);
    if hook::guarded(k, Some(patterns), input) is Done {
        if forall|i: int|
            0 <= i < lines.len() ==> hook::protection(k, patterns, #[trigger] lines[i]).len()
                == 0 {
            assert forall|i: int| 0 <= i < lines.len() implies f(#[trigger] lines[i]).len()
                == 0 by {
            }
        }
        if items.len() == 0 {
            assert forall|i: int| 0 <= i < lines.len() implies hook::protection(
                k,
                patterns,
                #[trigger] lines[i],
            ).len() == 0 by {
                assert(f(lines[i]).len() == 0);
            }
        }
    }
}

/// A push takes effect only if neither what it is confined to nor a protected
/// branch stands against it.
pub proof fn law_both_boundaries_hold(
    k: Seq<(HostCallView, ReplyView)>,
    refs: Option<Seq<char>>,
    paths: Option<Seq<char>>,
    protected: Option<Seq<char>>,
    input: Seq<char>,
)
    ensures
        match hook::pre_receive(k, refs, paths, protected, Some(input)) {
            StepView::Done(verdict) => verdict.code == 0 ==> {
                let bounds = ScopeBoundsView {
                    ref_patterns: hook::patterns_of(refs),
                    path_patterns: hook::patterns_of(paths),
                };
                let a = hook::judged(k, bounds, input);
                let b = hook::guarded(k, hook::protected_of(protected), input);
                a is Done && a->Done_0.code == 0 && b is Done && b->Done_0.code == 0
            },
            _ => true,
        },
{
}

/// Git is asked for the commits that a push brings, for the paths that each of them
/// changes against every parent and against nothing where it has none, and whether the
/// old commit of a protected reference is an ancestor of the new one.
pub proof fn law_git_is_asked(
    k: Seq<(HostCallView, ReplyView)>,
    commit: Seq<char>,
    patterns: Seq<Seq<char>>,
    line: UpdateLineView,
)
    ensures
        ({
            let call = HostCallView::Git { args: seq!["rev-list"@, commit, "--not"@, "--all"@] };
            host::reply_to(k, call) is None ==> hook::changed_paths(k, commit) == StepView::<
                Seq<Seq<char>>,
                Seq<char>,
            >::Ask(seq![call])
        }),
        ({
            let call = HostCallView::Git {
                args: seq![
                    "diff-tree"@,
                    "--no-commit-id"@,
                    "--name-only"@,
                    "-r"@,
                    "-m"@,
                    "--root"@,
                    commit,
                ],
            };
            host::reply_to(k, call) is None ==> hook::commit_paths(k, commit) == seq![
                ItemView::<Seq<char>, Seq<char>>::Need(call),
            ]
        }),
        ({
            let call = HostCallView::Git {
                args: seq!["merge-base"@, "--is-ancestor"@, line.old, line.new],
            };
            host::reply_to(k, call) is None && hook::is_protected(patterns, line.reference)
                && !hook::is_zero(line.old) && !hook::is_zero(line.new) ==> hook::protection(
                k,
                patterns,
                line,
            ) == seq![ItemView::<UpdateRejectionView, Seq<char>>::Need(call)]
        }),
{
}

/// A protected reference that is deleted is refused in other words than one that is
/// rewritten, and where git cannot tell its words are passed on.
pub proof fn law_protection_says_why(
    k: Seq<(HostCallView, ReplyView)>,
    patterns: Seq<Seq<char>>,
    line: UpdateLineView,
)
    requires
        hook::is_protected(patterns, line.reference),
    ensures
        ({
            let call = HostCallView::Git {
                args: seq!["merge-base"@, "--is-ancestor"@, line.old, line.new],
            };
            let items = hook::protection(k, patterns, line);
            &&& hook::is_zero(line.new) ==> items == seq![
                ItemView::<UpdateRejectionView, Seq<char>>::Value(
                    UpdateRejectionView {
                        reference: line.reference,
                        reason: "ref "@ + line.reference + " is protected and cannot be deleted"@,
                    },
                ),
            ]
            &&& !hook::is_zero(line.new) && !hook::is_zero(line.old) ==> {
                &&& host::reply_to(k, call) matches Some(
                    ReplyView::Process(OutcomeView::Got(output)),
                ) ==> (output.success ==> items.len() == 0) && (!output.success ==> items == seq![
                    ItemView::<UpdateRejectionView, Seq<char>>::Value(
                        UpdateRejectionView {
                            reference: line.reference,
                            reason: "ref "@ + line.reference
                                + " is protected and cannot be rewritten"@,
                        },
                    ),
                ])
                &&& host::reply_to(k, call) matches Some(
                    ReplyView::Process(OutcomeView::Error(error)),
                ) ==> items == seq![
                    ItemView::<UpdateRejectionView, Seq<char>>::Fail(
                        "git merge-base failed: "@ + error,
                    ),
                ]
            }
        }),
{
}

/// A push is answered with everything that either boundary has to say, those of the scope
/// first; it is let through exactly if neither refuses it. Where one of them cannot be
/// judged, or the updates cannot be read, the push is refused and the words say so.
pub proof fn law_both_boundaries_are_heard(
    k: Seq<(HostCallView, ReplyView)>,
    refs: Option<Seq<char>>,
    paths: Option<Seq<char>>,
    protected: Option<Seq<char>>,
    input: Seq<char>,
)
    ensures
        ({
            let bounds = ScopeBoundsView {
                ref_patterns: hook::patterns_of(refs),
                path_patterns: hook::patterns_of(paths),
            };
            let a = hook::judged(k, bounds, input);
            let b = hook::guarded(k, hook::protected_of(protected), input);
            let step = hook::pre_receive(k, refs, paths, protected, Some(input));
            &&& a is Done && b is Done ==> {
                &&& step is Done
                &&& step->Done_0.messages == a->Done_0.messages + b->Done_0.messages
                &&& step->Done_0.code == 0 <==> a->Done_0.code == 0 && b->Done_0.code == 0
                &&& step->Done_0.code != 0 ==> step->Done_0.code == 1
            }
            &&& a is Failed ==> {
                &&& step is Done && step->Done_0.code == 1
                &&& step->Done_0.messages == seq!["arbor: "@ + a->Failed_0]
            }
            &&& a is Done && b is Failed ==> {
                &&& step is Done && step->Done_0.code == 1
                &&& step->Done_0.messages == seq!["arbor: "@ + b->Failed_0]
            }
        }),
        ({
            let step = hook::pre_receive(k, refs, paths, protected, None);
            &&& step is Done && step->Done_0.code == 1
            &&& step->Done_0.messages == seq!["arbor: "@ + "could not read ref updates"@]
        }),
{
}

/// A boundary that is not set bounds nothing, and one that can be read is the list that
/// it holds.
pub proof fn law_boundaries_are_as_set(raw: Seq<char>)
    ensures
        hook::patterns_of(None) is None,
        hook::protected_of(None) is None,
        hook::json_string_list(raw) matches Some(list) ==> hook::patterns_of(Some(raw)) == Some(
            list,
        ) && hook::protected_of(Some(raw)) == Some(list),
{
}

} // verus!
