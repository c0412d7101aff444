//! What is read of a push, and in which words it is refused.

use vstd::prelude::*;

use super::words::lemma_find;
use crate::git::hook::{self, UpdateLineView};
use crate::git::scope_match::{self, RefUpdateView, ScopeBoundsView, UpdateRejectionView};
use crate::host::{OutcomeView, ProcessOutputView};
use crate::text;

verus! {

/// Whether a text has no whitespace in it.
pub open spec fn solid(s: Seq<char>) -> bool {
    forall|i: int| 0 <= i < s.len() ==> !text::is_white_space(#[trigger] s[i])
}

/// A text that neither begins nor ends with whitespace is left by trimming.
proof fn lemma_trim_leaves(s: Seq<char>)
    requires
        s.len() > 0,
        !text::is_white_space(s[0]),
        !text::is_white_space(s.last()),
    ensures
        text::trim(s) == s,
{
}

/// A piece without the character comes off at the first place where it stands.
proof fn lemma_split_first(a: Seq<char>, rest: Seq<char>, c: char)
    requires
        !a.contains(c),
    ensures
        text::split(a + seq![c] + rest, c) == seq![a] + text::split(rest, c),
        text::split(a, c) == seq![a],
{
    let s = a + seq![c] + rest;
    lemma_find(s, c);
    lemma_find(a, c);
    let n = text::find(s, c) as int;
    assert(s[a.len() as int] == c);
    if n < a.len() {
        assert(s[n] == a[n]);
        assert(a.contains(a[n]));
    }
    assert(s.take(n) == a);
    assert(s.skip(n + 1) == rest);
    let m = text::find(a, c) as int;
    if m < a.len() {
        assert(a.contains(a[m]));
    }
}

/// A line of a push tells the old object, the new one and the reference, in this order,
/// with a space between them.
pub proof fn law_update_lines_tell_three(old: Seq<char>, new: Seq<char>, reference: Seq<char>)
    requires
        old.len() > 0,
        reference.len() > 0,
        solid(old),
        solid(new),
        solid(reference),
    ensures
        hook::update_line(old + seq![' '] + (new + seq![' '] + reference)) == Some(
            UpdateLineView { old, new, reference },
        ),
{
    let tail = new + seq![' '] + reference;
    let line = old + seq![' '] + tail;
    assert(line[0] == old[0]);
    assert(line.last() == reference[reference.len() - 1]);
    assert(!text::is_white_space(old[0]));
    assert(!text::is_white_space(reference[reference.len() - 1]));
    lemma_trim_leaves(line);
    lemma_no_space(old);
    lemma_no_space(new);
    lemma_no_space(reference);
    lemma_split_first(old, tail, ' ');
    lemma_split_first(new, reference, ' ');
    lemma_split_first(reference, Seq::empty(), ' ');
    let pieces = text::split(line, ' ');
    assert(pieces[0] == old);
    assert(pieces[1] == text::split(tail, ' ')[0]);
    assert(pieces[2] == text::split(tail, ' ')[1]);
}

/// A text without whitespace has no space.
proof fn lemma_no_space(s: Seq<char>)
    requires
        solid(s),
    ensures
        !s.contains(' '),
{
    if s.contains(' ') {
        let i = choose|i: int| 0 <= i < s.len() && s[i] == ' ';
        assert(!text::is_white_space(s[i]));
    }
}

/// Each line of a push tells one update and the lines after it the others; a blank one
/// tells none.
pub proof fn law_updates_are_read_line_by_line(line: Seq<char>, rest: Seq<char>)
    requires
        !line.contains('\n'),
        line.len() > 0 ==> line.last() != '\r',
    ensures
        hook::update_lines(line + seq!['\n'] + rest) == (match hook::update_line(line) {
            Some(update) => seq![update],
            None => Seq::<UpdateLineView>::empty(),
        }) + hook::update_lines(rest),
        hook::update_lines(Seq::empty()).len() == 0,
        (forall|i: int| 0 <= i < line.len() ==> text::is_white_space(#[trigger] line[i]))
            ==> hook::update_line(line) is None,
{
    super::words::law_lines_end_with_newlines(line, rest);
    let f = |l: Seq<char>| hook::update_line(l);
    lemma_filter_map_first(line, text::lines(rest), f);
    super::words::law_trim_takes_both_ends(line);
    if forall|i: int| 0 <= i < line.len() ==> text::is_white_space(#[trigger] line[i]) {
        if text::trim(line).len() > 0 {
            let (a, b) = choose|a: int, b: int|
                #![trigger line.subrange(a, b)]
                0 <= a <= b <= line.len() && text::trim(line) == line.subrange(a, b) && (forall|
                    i: int,
                |
                    0 <= i < a || b <= i < line.len() ==> text::is_white_space(
                        #[trigger] line[i],
                    ));
            assert(line.subrange(a, b)[0] == line[a]);
        }
    }
}

/// The first of a list is picked first.
proof fn lemma_filter_map_first<A, B>(x: A, rest: Seq<A>, f: spec_fn(A) -> Option<B>)
    ensures
        (seq![x] + rest).filter_map(f) == (match f(x) {
            Some(b) => seq![b],
            None => Seq::<B>::empty(),
        }) + rest.filter_map(f),
    decreases rest.len(),
{
    let s = seq![x] + rest;
    if rest.len() == 0 {
        s.lemma_filter_map_take_succ(f, 0);
        assert(s.take(1) == s);
        assert(s.take(0).filter_map(f).len() == 0);
        assert(rest.filter_map(f).len() == 0);
    } else {
        lemma_filter_map_first(x, rest.drop_last(), f);
        s.lemma_filter_map_take_succ(f, s.len() - 1);
        rest.lemma_filter_map_take_succ(f, rest.len() - 1);
        assert(s.take(s.len() as int) == s);
        assert(s.take(s.len() - 1) == seq![x] + rest.drop_last());
        assert(rest.take(rest.len() as int) == rest);
        assert(rest.take(rest.len() - 1) == rest.drop_last());
    }
}

/// What git prints is taken line by line, and only empty lines are left out.
pub proof fn law_printed_lines_are_taken(s: Seq<char>)
    ensures
        hook::filled_lines(s) == text::lines(s).filter(|line: Seq<char>| line.len() > 0),
{
    let f = |line: Seq<char>|
        if line.len() > 0 {
            Some(line)
        } else {
            None
        };
    lemma_filter_map_is_filter(text::lines(s), f, |line: Seq<char>| line.len() > 0);
}

/// To pick what meets a condition as it is, is to filter by it.
proof fn lemma_filter_map_is_filter<A>(
    s: Seq<A>,
    f: spec_fn(A) -> Option<A>,
    p: spec_fn(A) -> bool,
)
    requires
        forall|x: A| #[trigger]
            f(x) == if p(x) {
                Some(x)
            } else {
                None
            },
    ensures
        s.filter_map(f) == s.filter(p),
    decreases s.len(),
{
    reveal(Seq::filter);
    if s.len() > 0 {
        lemma_filter_map_is_filter(s.drop_last(), f, p);
        s.lemma_filter_map_take_succ(f, s.len() - 1);
        assert(s.take(s.len() as int) == s);
        assert(s.take(s.len() - 1) == s.drop_last());
    }
    assert(s.filter_map(f) =~= s.filter(p));
}

/// A run of git that succeeds gives what it printed; one that fails, or cannot be made,
/// gives the words of that.
pub proof fn law_runs_give_what_they_print(what: Seq<char>, output: ProcessOutputView, error: Seq<char>)
    ensures
        output.success ==> hook::printed(what, OutcomeView::Got(output)) == Result::<
            Seq<char>,
            Seq<char>,
        >::Ok(text::utf8_lossy(output.stdout)),
        !output.success ==> hook::printed(what, OutcomeView::Got(output)) == Result::<
            Seq<char>,
            Seq<char>,
        >::Err(what + " failed: "@ + text::utf8_lossy(output.stderr)),
        hook::printed(what, OutcomeView::Error(error)) == Result::<Seq<char>, Seq<char>>::Err(
            what + " failed: "@ + error,
        ),
{
}

/// An object id of nothing is zeroes alone, and there is at least one.
pub proof fn law_nothing_is_all_zeroes(oid: Seq<char>)
    ensures
        hook::is_zero(oid) <==> oid.len() > 0 && forall|i: int|
            0 <= i < oid.len() ==> #[trigger] oid[i] == '0',
{
}

/// A text is within bounds where there are none, and else where a pattern matches it.
pub proof fn law_bounds_are_patterns(patterns: Option<Seq<Seq<char>>>, v: Seq<char>)
    ensures
        scope_match::allows(patterns, v) <==> patterns is None || exists|i: int|
            0 <= i < patterns->0.len() && scope_match::glob(#[trigger] patterns->0[i], v),
{
}

/// A refusal names the reference, and says whether that is out of bounds or which path is
/// the first to be.
pub proof fn law_refusals_say_why(bounds: ScopeBoundsView, update: RefUpdateView)
    ensures
        !scope_match::allows(bounds.ref_patterns, update.reference) ==> scope_match::rejection(
            bounds,
            update,
        ) == Some(
            UpdateRejectionView {
                reference: update.reference,
                reason: "ref "@ + update.reference + " is outside this token's scope"@,
            },
        ),
        forall|n: int|
            scope_match::allows(bounds.ref_patterns, update.reference) && 0 <= n
                < update.changed_paths.len() && !scope_match::allows(
                bounds.path_patterns,
                #[trigger] update.changed_paths[n],
            ) && (forall|i: int|
                0 <= i < n ==> scope_match::allows(
                    bounds.path_patterns,
                    #[trigger] update.changed_paths[i],
                )) ==> scope_match::rejection(bounds, update) == Some(
                UpdateRejectionView {
                    reference: update.reference,
                    reason: "path "@ + update.changed_paths[n] + " is outside this token's scope"@,
                },
            ),
{
    super::scope::lemma_first_forbidden_is_first(bounds.path_patterns, update.changed_paths);
    let m = scope_match::first_forbidden(bounds.path_patterns, update.changed_paths) as int;
    assert forall|n: int|
        scope_match::allows(bounds.ref_patterns, update.reference) && 0 <= n
            < update.changed_paths.len() && !scope_match::allows(
            bounds.path_patterns,
            #[trigger] update.changed_paths[n],
        ) && (forall|i: int|
            0 <= i < n ==> scope_match::allows(
                bounds.path_patterns,
                #[trigger] update.changed_paths[i],
            )) implies scope_match::rejection(bounds, update) == Some(
        UpdateRejectionView {
            reference: update.reference,
            reason: "path "@ + update.changed_paths[n] + " is outside this token's scope"@,
        },
    ) by {
        if m < n {
            assert(scope_match::allows(bounds.path_patterns, update.changed_paths[m]));
        }
        assert(m == n);
    }
}

/// Of one update the refusal is its own, and of none there is none.
pub proof fn law_one_update_one_refusal(bounds: ScopeBoundsView, update: RefUpdateView)
    ensures
        scope_match::rejections(bounds, seq![update]) == match scope_match::rejection(
            bounds,
            update,
        ) {
            Some(refusal) => seq![refusal],
            None => Seq::<UpdateRejectionView>::empty(),
        },
        scope_match::rejections(bounds, Seq::empty()).len() == 0,
{
    let f = |u: RefUpdateView| scope_match::rejection(bounds, u);
    lemma_filter_map_first(update, Seq::empty(), f);
    assert(seq![update] + Seq::<RefUpdateView>::empty() =~= seq![update]);
    assert(Seq::<RefUpdateView>::empty().filter_map(f).len() == 0);
}

/// A verdict lets through where nothing is refused, and else tells the reason of each
/// refusal.
pub proof fn law_verdicts_tell_reasons(refused: Seq<UpdateRejectionView>)
    ensures
        hook::verdict(refused).code == 0 <==> refused.len() == 0,
        hook::verdict(refused).code == 0 || hook::verdict(refused).code == 1,
        hook::verdict(refused).messages.len() == refused.len(),
        forall|i: int|
            0 <= i < refused.len() ==> #[trigger] hook::verdict(refused).messages[i] == "arbor: "@
                + refused[i].reason,
{
}

/// A reference is protected by a pattern that matches its full name, or, where it is a
/// branch, what follows `refs/heads/`.
pub proof fn law_protection_by_either_name(patterns: Seq<Seq<char>>, branch: Seq<char>, i: int)
    requires
        0 <= i < patterns.len(),
        scope_match::glob(patterns[i], branch) || scope_match::glob(
            patterns[i],
            "refs/heads/"@ + branch,
        ),
    ensures
        hook::is_protected(patterns, "refs/heads/"@ + branch),
{
    let full = "refs/heads/"@ + branch;
    assert(full.subrange(0, "refs/heads/"@.len() as int) == "refs/heads/"@);
    assert(full.skip("refs/heads/"@.len() as int) == branch);
}

/// What no pattern matches by either name is not protected.
pub proof fn law_unmatched_is_not_protected(patterns: Seq<Seq<char>>, reference: Seq<char>)
    requires
        forall|i: int|
            0 <= i < patterns.len() ==> !scope_match::glob(#[trigger] patterns[i], reference)
                && !scope_match::glob(patterns[i], reference.skip(11)),
    ensures
        !hook::is_protected(patterns, reference),
{
    reveal_strlit("refs/heads/");
}

} // verus!
