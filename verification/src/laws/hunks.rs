//! What holds of every diff.

use vstd::prelude::*;

use crate::git::hunks::{self, DiffHunkView, DiffLineView, EditOp, LineType};

verus! {

/// The old lines that the edits keep or delete, in order.
pub open spec fn old_side(edits: Seq<(EditOp, int, int)>, old: Seq<Seq<char>>) -> Seq<Seq<char>> {
    edits.filter_map(
        |e: (EditOp, int, int)|
            if e.0 == EditOp::Insert {
                None::<Seq<char>>
            } else {
                Some(old[e.1])
            },
    )
}

/// The new lines that the edits keep or insert, in order.
pub open spec fn new_side(edits: Seq<(EditOp, int, int)>, new: Seq<Seq<char>>) -> Seq<Seq<char>> {
    edits.filter_map(
        |e: (EditOp, int, int)|
            if e.0 == EditOp::Delete {
                None::<Seq<char>>
            } else {
                Some(new[e.2])
            },
    )
}

/// The number of edits of one kind.
pub open spec fn count_op(edits: Seq<(EditOp, int, int)>, op: EditOp) -> nat
    decreases edits.len(),
{
    if edits.len() == 0 {
        0
    } else {
        count_op(edits.drop_last(), op) + if edits.last().0 == op {
            1nat
        } else {
            0
        }
    }
}

/// Whether an edit's positions lie within the two lists, and an edit that keeps
/// a line keeps it because both lists have it.
pub open spec fn edit_ok(
    e: (EditOp, int, int),
    old: Seq<Seq<char>>,
    new: Seq<Seq<char>>,
) -> bool {
    &&& 0 <= e.1 && 0 <= e.2
    &&& e.0 != EditOp::Insert ==> e.1 < old.len()
    &&& e.0 != EditOp::Delete ==> e.2 < new.len()
    &&& e.0 == EditOp::Equal ==> old[e.1] == new[e.2]
}

/// An edit script turns the old lines into the new ones: without the insertions
/// it reads as the old lines, without the deletions as the new ones, and it
/// keeps a line only where both sides have it.
pub proof fn law_script_transforms(old: Seq<Seq<char>>, new: Seq<Seq<char>>, i: nat, j: nat)
    requires
        i <= old.len(),
        j <= new.len(),
    ensures
        old_side(hunks::script(old, new, i, j), old) == old.take(i as int),
        new_side(hunks::script(old, new, i, j), new) == new.take(j as int),
        forall|k: int|
            0 <= k < hunks::script(old, new, i, j).len() ==> edit_ok(
                #[trigger] hunks::script(old, new, i, j)[k],
                old,
                new,
            ),
    decreases i + j,
{
    let s = hunks::script(old, new, i, j);
    if i == 0 && j == 0 {
    } else {
        let rest = s.drop_last();
        if i > 0 && j > 0 && old[i - 1] == new[j - 1] {
            law_script_transforms(old, new, (i - 1) as nat, (j - 1) as nat);
            assert(rest == hunks::script(old, new, (i - 1) as nat, (j - 1) as nat));
            assert(old.take(i as int) == old.take(i - 1) + seq![old[i - 1]]);
            assert(new.take(j as int) == new.take(j - 1) + seq![new[j - 1]]);
        } else if j > 0 && (i == 0 || hunks::lcs(old, new, i, (j - 1) as nat) >= hunks::lcs(
            old,
            new,
            (i - 1) as nat,
            j,
        )) {
            law_script_transforms(old, new, i, (j - 1) as nat);
            assert(rest == hunks::script(old, new, i, (j - 1) as nat));
            assert(new.take(j as int) == new.take(j - 1) + seq![new[j - 1]]);
        } else {
            law_script_transforms(old, new, (i - 1) as nat, j);
            assert(rest == hunks::script(old, new, (i - 1) as nat, j));
            assert(old.take(i as int) == old.take(i - 1) + seq![old[i - 1]]);
        }
        assert forall|k: int| 0 <= k < s.len() implies edit_ok(#[trigger] s[k], old, new) by {
            if k < rest.len() {
                assert(s[k] == rest[k]);
            }
        }
    }
}

/// Whether `pairs` picks lines that the first `i` old and the first `j` new
/// lines have in common, in order.
pub open spec fn is_common(
    old: Seq<Seq<char>>,
    new: Seq<Seq<char>>,
    pairs: Seq<(int, int)>,
    i: nat,
    j: nat,
) -> bool {
    &&& forall|k: int|
        0 <= k < pairs.len() ==> 0 <= (#[trigger] pairs[k]).0 < i && 0 <= pairs[k].1 < j
            && old[pairs[k].0] == new[pairs[k].1]
    &&& forall|k: int, l: int|
        0 <= k < l < pairs.len() ==> (#[trigger] pairs[k]).0 < (#[trigger] pairs[l]).0 && pairs[k].1
            < pairs[l].1
}

/// [`hunks::lcs`] is an upper bound: no lines in common are more than it says.
pub proof fn law_lcs_is_longest(
    old: Seq<Seq<char>>,
    new: Seq<Seq<char>>,
    pairs: Seq<(int, int)>,
    i: nat,
    j: nat,
)
    requires
        i <= old.len(),
        j <= new.len(),
        is_common(old, new, pairs, i, j),
    ensures
        pairs.len() <= hunks::lcs(old, new, i, j),
    decreases i + j,
{
    if pairs.len() == 0 {
    } else if i == 0 || j == 0 {
        assert(pairs[0].0 < i);
    } else {
        let last = pairs.last();
        let rest = pairs.drop_last();
        if old[i - 1] == new[j - 1] {
            assert forall|k: int| 0 <= k < rest.len() implies 0 <= (#[trigger] rest[k]).0 < i - 1
                && 0 <= rest[k].1 < j - 1 && old[rest[k].0] == new[rest[k].1] by {
                assert(pairs[k].0 < pairs[pairs.len() - 1].0);
            }
            assert(is_common(old, new, rest, (i - 1) as nat, (j - 1) as nat)) by {
                assert forall|k: int, l: int| 0 <= k < l < rest.len() implies (
                #[trigger] rest[k]).0 < (#[trigger] rest[l]).0 && rest[k].1 < rest[l].1 by {
                    assert(pairs[k].0 < pairs[l].0);
                }
            }
            law_lcs_is_longest(old, new, rest, (i - 1) as nat, (j - 1) as nat);
        } else if last.0 < i - 1 {
            assert forall|k: int| 0 <= k < pairs.len() implies 0 <= (#[trigger] pairs[k]).0 < i - 1
                && 0 <= pairs[k].1 < j && old[pairs[k].0] == new[pairs[k].1] by {
                if k < pairs.len() - 1 {
                    assert(pairs[k].0 < pairs[pairs.len() - 1].0);
                }
            }
            law_lcs_is_longest(old, new, pairs, (i - 1) as nat, j);
        } else {
            assert(last.1 < j - 1);
            assert forall|k: int| 0 <= k < pairs.len() implies 0 <= (#[trigger] pairs[k]).0 < i && 0
                <= pairs[k].1 < j - 1 && old[pairs[k].0] == new[pairs[k].1] by {
                if k < pairs.len() - 1 {
                    assert(pairs[k].1 < pairs[pairs.len() - 1].1);
                }
            }
            law_lcs_is_longest(old, new, pairs, i, (j - 1) as nat);
        }
    }
}

/// An edit script keeps as many lines as two lists can have in common, so none
/// that turns the old lines into the new ones deletes or inserts fewer.
pub proof fn law_script_keeps_most(old: Seq<Seq<char>>, new: Seq<Seq<char>>, i: nat, j: nat)
    requires
        i <= old.len(),
        j <= new.len(),
    ensures
        count_op(hunks::script(old, new, i, j), EditOp::Equal) == hunks::lcs(old, new, i, j),
        count_op(hunks::script(old, new, i, j), EditOp::Delete) == i - hunks::lcs(old, new, i, j),
        count_op(hunks::script(old, new, i, j), EditOp::Insert) == j - hunks::lcs(old, new, i, j),
    decreases i + j,
{
    let s = hunks::script(old, new, i, j);
    if i == 0 && j == 0 {
    } else if i > 0 && j > 0 && old[i - 1] == new[j - 1] {
        law_script_keeps_most(old, new, (i - 1) as nat, (j - 1) as nat);
        assert(s.drop_last() == hunks::script(old, new, (i - 1) as nat, (j - 1) as nat));
    } else if j > 0 && (i == 0 || hunks::lcs(old, new, i, (j - 1) as nat) >= hunks::lcs(
        old,
        new,
        (i - 1) as nat,
        j,
    )) {
        law_script_keeps_most(old, new, i, (j - 1) as nat);
        assert(s.drop_last() == hunks::script(old, new, i, (j - 1) as nat));
    } else {
        law_script_keeps_most(old, new, (i - 1) as nat, j);
        assert(s.drop_last() == hunks::script(old, new, (i - 1) as nat, j));
    }
}

/// The kind of edit that a type of line shows.
pub open spec fn op_of(t: LineType) -> EditOp {
    match t {
        LineType::Context => EditOp::Equal,
        LineType::Addition => EditOp::Insert,
        LineType::Deletion => EditOp::Delete,
    }
}

/// Edits within bounds contribute one line each, of the type of the edit.
proof fn lemma_count_lines(
    edits: Seq<(EditOp, int, int)>,
    old: Seq<Seq<char>>,
    new: Seq<Seq<char>>,
    t: LineType,
)
    requires
        forall|k: int| 0 <= k < edits.len() ==> edit_ok(#[trigger] edits[k], old, new),
    ensures
        hunks::count_type(hunks::edit_lines(edits, old, new), t) == count_op(edits, op_of(t)),
    decreases edits.len(),
{
    if edits.len() > 0 {
        let rest = edits.drop_last();
        assert forall|k: int| 0 <= k < rest.len() implies edit_ok(#[trigger] rest[k], old, new) by {
            assert(rest[k] == edits[k]);
        }
        lemma_count_lines(rest, old, new, t);
        assert(edit_ok(edits[edits.len() - 1], old, new));
        let lines = hunks::edit_lines(edits, old, new);
        assert(lines.drop_last() == hunks::edit_lines(rest, old, new));
    }
}

/// The count over a range is the sum of the counts over its two parts.
proof fn lemma_count_split(edits: Seq<(EditOp, int, int)>, a: int, b: int, c: int, op: EditOp)
    requires
        0 <= a <= b <= c <= edits.len(),
    ensures
        count_op(edits.subrange(a, c), op) == count_op(edits.subrange(a, b), op) + count_op(
            edits.subrange(b, c),
            op,
        ),
    decreases c - b,
{
    if b < c {
        lemma_count_split(edits, a, b, c - 1, op);
        assert(edits.subrange(a, c).drop_last() == edits.subrange(a, c - 1));
        assert(edits.subrange(b, c).drop_last() == edits.subrange(b, c - 1));
    } else {
        assert(edits.subrange(b, c) == Seq::<(EditOp, int, int)>::empty());
    }
}

/// A range without changes has no insertions and no deletions.
proof fn lemma_count_unchanged(edits: Seq<(EditOp, int, int)>, a: int, b: int, op: EditOp)
    requires
        0 <= a <= b <= edits.len(),
        forall|k: int| a <= k < b ==> !hunks::is_change(#[trigger] edits[k]),
        op != EditOp::Equal,
    ensures
        count_op(edits.subrange(a, b), op) == 0,
    decreases b - a,
{
    if a < b {
        lemma_count_unchanged(edits, a, b - 1, op);
        assert(edits.subrange(a, b).drop_last() == edits.subrange(a, b - 1));
        assert(!hunks::is_change(edits[b - 1]));
    }
}

/// After the last change of a run there is no other within reach.
proof fn lemma_after_run(edits: Seq<(EditOp, int, int)>, c: int, context: nat)
    requires
        0 <= c < edits.len(),
    ensures
        ({
            let last = hunks::run_last(edits, c, context);
            let next = hunks::first_change(edits, last + 1);
            &&& 0 <= last < edits.len()
            &&& next >= edits.len() || next - last > context + 1
        }),
    decreases edits.len() - c,
{
    hunks::lemma_first_change(edits, c + 1);
    let next = hunks::first_change(edits, c + 1);
    if next < edits.len() && next - c <= context + 1 {
        lemma_after_run(edits, next, context);
    }
}

/// The hunks show every change at or after `from`, and each of them once.
proof fn lemma_hunks_total(
    edits: Seq<(EditOp, int, int)>,
    old: Seq<Seq<char>>,
    new: Seq<Seq<char>>,
    from: int,
    context: nat,
    t: LineType,
)
    requires
        0 <= from <= edits.len(),
        forall|k: int| 0 <= k < edits.len() ==> edit_ok(#[trigger] edits[k], old, new),
        from == 0 || hunks::first_change(edits, from) >= edits.len() || hunks::first_change(
            edits,
            from,
        ) - (from - 1) > context + 1,
        t != LineType::Context,
    ensures
        hunks::total_type(hunks::hunks_from(edits, old, new, from, context), t) == count_op(
            edits.subrange(from, edits.len() as int),
            op_of(t),
        ),
    decreases edits.len() - from,
{
    let op = op_of(t);
    let len = edits.len() as int;
    hunks::lemma_first_change(edits, from);
    let first = hunks::first_change(edits, from);
    if first >= len {
        lemma_count_unchanged(edits, from, len, op);
    } else {
        hunks::lemma_run_last(edits, first, context);
        let last = hunks::run_last(edits, first, context);
        lemma_after_run(edits, first, context);
        hunks::lemma_first_change(edits, last + 1);
        lemma_hunks_total(edits, old, new, last + 1, context, t);
        let a = if first > context {
            first - context
        } else {
            0
        };
        let b = if last + context + 1 < len {
            last + context + 1
        } else {
            len
        };
        assert(from <= a <= first);
        let part = edits.subrange(a, b);
        assert forall|k: int| 0 <= k < part.len() implies edit_ok(#[trigger] part[k], old, new) by {
            assert(part[k] == edits[a + k]);
        }
        lemma_count_lines(part, old, new, t);
        // the hunk's changes are those of the run
        lemma_count_split(edits, a, last + 1, b, op);
        lemma_count_unchanged(edits, last + 1, b, op);
        // and between `from` and the hunk there is none
        lemma_count_split(edits, from, a, last + 1, op);
        lemma_count_unchanged(edits, from, a, op);
        lemma_count_split(edits, from, last + 1, len, op);
        let hunks = hunks::hunks_from(edits, old, new, from, context);
        assert(hunks.skip(1) == hunks::hunks_from(edits, old, new, last + 1, context));
    }
}

/// The plain lists hold lines of one type only.
proof fn lemma_count_plain(lines: Seq<DiffLineView>, t: LineType, u: LineType)
    requires
        forall|k: int| 0 <= k < lines.len() ==> (#[trigger] lines[k]).line_type == u,
    ensures
        hunks::count_type(lines, t) == if t == u {
            lines.len()
        } else {
            0
        },
    decreases lines.len(),
{
    if lines.len() > 0 {
        lemma_count_plain(lines.drop_last(), t, u);
        assert(lines[lines.len() - 1].line_type == u);
    }
}

/// Counting distributes over concatenation.
proof fn lemma_count_concat(a: Seq<DiffLineView>, b: Seq<DiffLineView>, t: LineType)
    ensures
        hunks::count_type(a + b, t) == hunks::count_type(a, t) + hunks::count_type(b, t),
    decreases b.len(),
{
    if b.len() > 0 {
        lemma_count_concat(a, b.drop_last(), t);
        assert((a + b).drop_last() == a + b.drop_last());
    } else {
        assert(a + b == a);
    }
}

/// A diff shows exactly the lines that its edits add and delete: as few as can
/// be where the lines are compared, and all of them in the plain diff.
pub proof fn law_changes_shown(old: Seq<Seq<char>>, new: Seq<Seq<char>>, context: nat)
    ensures
        ({
            let hunks = hunks::diff_hunks(old, new, context);
            let kept = if old.len() * new.len() > hunks::MAX_PAIRS {
                0
            } else {
                hunks::lcs(old, new, old.len(), new.len())
            };
            &&& hunks::total_type(hunks, LineType::Deletion) == old.len() - kept
            &&& hunks::total_type(hunks, LineType::Addition) == new.len() - kept
        }),
{
    if old.len() * new.len() > hunks::MAX_PAIRS {
        let hunks = hunks::simple_hunks(old, new);
        if old.len() == 0 && new.len() == 0 {
            assert(old.len() * new.len() == 0);
        } else {
            let lines = hunks::deletions(old) + hunks::additions(new);
            assert(hunks[0].lines == lines);
            assert(hunks.skip(1) == Seq::<DiffHunkView>::empty());
            assert(hunks::total_type(hunks.skip(1), LineType::Deletion) == 0);
            assert(hunks::total_type(hunks.skip(1), LineType::Addition) == 0);
            lemma_count_concat(hunks::deletions(old), hunks::additions(new), LineType::Deletion);
            lemma_count_concat(hunks::deletions(old), hunks::additions(new), LineType::Addition);
            lemma_count_plain(hunks::deletions(old), LineType::Deletion, LineType::Deletion);
            lemma_count_plain(hunks::deletions(old), LineType::Addition, LineType::Deletion);
            lemma_count_plain(hunks::additions(new), LineType::Deletion, LineType::Addition);
            lemma_count_plain(hunks::additions(new), LineType::Addition, LineType::Addition);
        }
    } else {
        let s = hunks::script(old, new, old.len(), new.len());
        law_script_transforms(old, new, old.len(), new.len());
        law_script_keeps_most(old, new, old.len(), new.len());
        lemma_hunks_total(s, old, new, 0, context, LineType::Deletion);
        lemma_hunks_total(s, old, new, 0, context, LineType::Addition);
        assert(s.subrange(0, s.len() as int) == s);
    }
}

/// Where the lines are compared, a diff has no hunks exactly when both sides
/// are the same.
pub proof fn law_no_hunks_when_equal(old: Seq<Seq<char>>, new: Seq<Seq<char>>, context: nat)
    requires
        old.len() * new.len() <= 10_000_000,
    ensures
        hunks::diff_hunks(old, new, context).len() == 0 <==> old == new,
{
    law_changes_shown(old, new, context);
    let s = hunks::script(old, new, old.len(), new.len());
    if old == new {
        lemma_lcs_of_equal(old, old.len());
        law_script_keeps_most(old, new, old.len(), new.len());
        hunks::lemma_first_change(s, 0);
        let first = hunks::first_change(s, 0);
        if first < s.len() {
            lemma_count_positive(s, first);
        }
    } else if hunks::diff_hunks(old, new, context).len() == 0 {
        law_script_transforms(old, new, old.len(), new.len());
        law_script_keeps_most(old, new, old.len(), new.len());
        let pairs_equal = hunks::lcs(old, new, old.len(), new.len());
        assert(pairs_equal == old.len() && pairs_equal == new.len());
        lemma_full_lcs_means_equal(old, new, old.len());
        assert(old =~= new);
    }
}

/// A change counts as a deletion or as an insertion.
proof fn lemma_count_positive(edits: Seq<(EditOp, int, int)>, k: int)
    requires
        0 <= k < edits.len(),
        hunks::is_change(edits[k]),
    ensures
        count_op(edits, EditOp::Insert) + count_op(edits, EditOp::Delete) > 0,
    decreases edits.len(),
{
    if k < edits.len() - 1 {
        lemma_count_positive(edits.drop_last(), k);
    }
}

/// A list has all its lines in common with itself.
proof fn lemma_lcs_of_equal(lines: Seq<Seq<char>>, i: nat)
    requires
        i <= lines.len(),
    ensures
        hunks::lcs(lines, lines, i, i) == i,
    decreases i,
{
    if i > 0 {
        lemma_lcs_of_equal(lines, (i - 1) as nat);
    }
}

/// Lists of one length that have all lines in common agree line by line.
proof fn lemma_full_lcs_means_equal(old: Seq<Seq<char>>, new: Seq<Seq<char>>, i: nat)
    requires
        i <= old.len(),
        i <= new.len(),
        hunks::lcs(old, new, i, i) == i,
    ensures
        forall|k: int| 0 <= k < i ==> old[k] == new[k],
    decreases i,
{
    if i > 0 {
        if old[i - 1] == new[i - 1] {
            lemma_full_lcs_means_equal(old, new, (i - 1) as nat);
        } else {
            hunks::lemma_lcs_bound(old, new, (i - 1) as nat, i);
            hunks::lemma_lcs_bound(old, new, i, (i - 1) as nat);
        }
    }
}

/// The lines of the old side that the lines of a hunk show.
pub open spec fn read_old(lines: Seq<DiffLineView>) -> Seq<Seq<char>> {
    lines.filter_map(
        |line: DiffLineView|
            if line.line_type == LineType::Addition {
                None::<Seq<char>>
            } else {
                Some(line.content)
            },
    )
}

/// The lines of the new side that the lines of a hunk show.
pub open spec fn read_new(lines: Seq<DiffLineView>) -> Seq<Seq<char>> {
    lines.filter_map(
        |line: DiffLineView|
            if line.line_type == LineType::Deletion {
                None::<Seq<char>>
            } else {
                Some(line.content)
            },
    )
}

/// The position on the old side that an edit leads to.
pub open spec fn old_after(e: (EditOp, int, int)) -> int {
    if e.0 == EditOp::Insert {
        e.1
    } else {
        e.1 + 1
    }
}

/// The position on the new side that an edit leads to.
pub open spec fn new_after(e: (EditOp, int, int)) -> int {
    if e.0 == EditOp::Delete {
        e.2
    } else {
        e.2 + 1
    }
}

/// Whether an edit starts where the one before it leads to.
pub open spec fn follows(edits: Seq<(EditOp, int, int)>, t: int) -> bool {
    edits[t].1 == old_after(edits[t - 1]) && edits[t].2 == new_after(edits[t - 1])
}

/// Whether every edit starts where the one before it leads to.
pub open spec fn connected(edits: Seq<(EditOp, int, int)>) -> bool {
    forall|t: int| 0 < t < edits.len() ==> #[trigger] follows(edits, t)
}

/// The edits of a script follow each other without a gap.
proof fn lemma_script_connected(old: Seq<Seq<char>>, new: Seq<Seq<char>>, i: nat, j: nat)
    requires
        i <= old.len(),
        j <= new.len(),
    ensures
        connected(hunks::script(old, new, i, j)),
        i + j > 0 ==> hunks::script(old, new, i, j).len() > 0 && old_after(
            hunks::script(old, new, i, j).last(),
        ) == i && new_after(hunks::script(old, new, i, j).last()) == j,
        i + j == 0 ==> hunks::script(old, new, i, j).len() == 0,
        hunks::script(old, new, i, j).len() > 0 ==> hunks::script(old, new, i, j)[0].1 == 0
            && hunks::script(old, new, i, j)[0].2 == 0,
    decreases i + j,
{
    let s = hunks::script(old, new, i, j);
    if i == 0 && j == 0 {
    } else {
        let rest = s.drop_last();
        if i > 0 && j > 0 && old[i - 1] == new[j - 1] {
            lemma_script_connected(old, new, (i - 1) as nat, (j - 1) as nat);
            assert(rest == hunks::script(old, new, (i - 1) as nat, (j - 1) as nat));
        } else if j > 0 && (i == 0 || hunks::lcs(old, new, i, (j - 1) as nat) >= hunks::lcs(
            old,
            new,
            (i - 1) as nat,
            j,
        )) {
            lemma_script_connected(old, new, i, (j - 1) as nat);
            assert(rest == hunks::script(old, new, i, (j - 1) as nat));
        } else {
            lemma_script_connected(old, new, (i - 1) as nat, j);
            assert(rest == hunks::script(old, new, (i - 1) as nat, j));
        }
        assert forall|t: int| 0 < t < s.len() implies #[trigger] follows(s, t) by {
            assert(s[t - 1] == rest[t - 1]);
            if t < rest.len() {
                assert(follows(rest, t));
                assert(s[t] == rest[t]);
            }
        }
        if rest.len() > 0 {
            assert(s[0] == rest[0]);
        }
    }
}

/// One more line shows up on the sides that have it, and in its count.
proof fn lemma_one_more_line(lines: Seq<DiffLineView>, line: DiffLineView)
    ensures
        read_old(lines.push(line)) == if line.line_type == LineType::Addition {
            read_old(lines)
        } else {
            read_old(lines).push(line.content)
        },
        read_new(lines.push(line)) == if line.line_type == LineType::Deletion {
            read_new(lines)
        } else {
            read_new(lines).push(line.content)
        },
        forall|t: LineType|
            #![trigger hunks::count_type(lines.push(line), t)]
            hunks::count_type(lines.push(line), t) == hunks::count_type(lines, t)
                + if line.line_type == t {
                1nat
            } else {
                0
            },
{
    let keep_old = |line: DiffLineView|
        if line.line_type == LineType::Addition {
            None::<Seq<char>>
        } else {
            Some(line.content)
        };
    let keep_new = |line: DiffLineView|
        if line.line_type == LineType::Deletion {
            None::<Seq<char>>
        } else {
            Some(line.content)
        };
    let all = lines.push(line);
    all.lemma_filter_map_take_succ(keep_old, lines.len() as int);
    all.lemma_filter_map_take_succ(keep_new, lines.len() as int);
    assert(all.take(all.len() as int) == all);
    assert(all.take(lines.len() as int) == lines);
    assert(all.drop_last() == lines);
}

/// One more edit adds its line.
proof fn lemma_one_more_edit(
    edits: Seq<(EditOp, int, int)>,
    old: Seq<Seq<char>>,
    new: Seq<Seq<char>>,
    a: int,
    b: int,
)
    requires
        0 <= a < b <= edits.len(),
        edit_ok(edits[b - 1], old, new),
    ensures
        hunks::edit_line(edits[b - 1], old, new) is Some,
        hunks::edit_lines(edits.subrange(a, b), old, new) == hunks::edit_lines(
            edits.subrange(a, b - 1),
            old,
            new,
        ).push(hunks::edit_line(edits[b - 1], old, new)->0),
{
    let f = |e: (EditOp, int, int)| hunks::edit_line(e, old, new);
    let part = edits.subrange(a, b);
    part.lemma_filter_map_take_succ(f, part.len() - 1);
    assert(part.take(part.len() as int) == part);
    assert(part.take(part.len() - 1) == edits.subrange(a, b - 1));
}

/// Whether lines read as the old lines from `o` to `p` and the new ones from `n`
/// to `q`, with counts that agree.
spec fn reads_as(
    lines: Seq<DiffLineView>,
    old: Seq<Seq<char>>,
    new: Seq<Seq<char>>,
    o: int,
    p: int,
    n: int,
    q: int,
) -> bool {
    &&& 0 <= o <= p <= old.len()
    &&& 0 <= n <= q <= new.len()
    &&& read_old(lines) == old.subrange(o, p)
    &&& read_new(lines) == new.subrange(n, q)
    &&& lines.len() - hunks::count_type(lines, LineType::Addition) == p - o
    &&& lines.len() - hunks::count_type(lines, LineType::Deletion) == q - n
}

/// A stretch of edits reads as the stretch of lines that it goes over, on both
/// sides.
proof fn lemma_stretch_reads(
    edits: Seq<(EditOp, int, int)>,
    old: Seq<Seq<char>>,
    new: Seq<Seq<char>>,
    a: int,
    b: int,
)
    requires
        connected(edits),
        forall|k: int| 0 <= k < edits.len() ==> edit_ok(#[trigger] edits[k], old, new),
        0 <= a < b <= edits.len(),
        edits[a].1 <= old.len(),
        edits[a].2 <= new.len(),
    ensures
        reads_as(
            hunks::edit_lines(edits.subrange(a, b), old, new),
            old,
            new,
            edits[a].1,
            old_after(edits[b - 1]),
            edits[a].2,
            new_after(edits[b - 1]),
        ),
    decreases b - a,
{
    let last = edits[b - 1];
    let earlier = hunks::edit_lines(edits.subrange(a, b - 1), old, new);
    assert(edit_ok(last, old, new));
    assert(edit_ok(edits[a], old, new));
    if b - 1 > a {
        lemma_stretch_reads(edits, old, new, a, b - 1);
        assert(follows(edits, b - 1));
    } else {
        assert(edits.subrange(a, b - 1).len() == 0);
        assert(earlier.len() == 0);
        assert(read_old(earlier) =~= old.subrange(last.1, last.1));
        assert(read_new(earlier) =~= new.subrange(last.2, last.2));
    }
    assert(reads_as(earlier, old, new, edits[a].1, last.1, edits[a].2, last.2));
    lemma_one_more_edit(edits, old, new, a, b);
    lemma_one_more_line(earlier, hunks::edit_line(last, old, new)->0);
    if last.0 != EditOp::Insert {
        assert(old.subrange(edits[a].1, last.1).push(old[last.1]) =~= old.subrange(
            edits[a].1,
            last.1 + 1,
        ));
    }
    if last.0 != EditOp::Delete {
        assert(new.subrange(edits[a].2, last.2).push(new[last.2]) =~= new.subrange(
            edits[a].2,
            last.2 + 1,
        ));
    }
}

/// Whether a hunk shows what its header says: without its additions it reads as
/// the old lines from `old_start` on, `old_lines` of them, and without its
/// deletions as the new lines from `new_start` on, `new_lines` of them.
pub open spec fn shows_both_sides(
    hunk: DiffHunkView,
    old: Seq<Seq<char>>,
    new: Seq<Seq<char>>,
) -> bool {
    let o = hunk.old_start - 1;
    let n = hunk.new_start - 1;
    &&& 0 <= o && o + hunk.old_lines <= old.len()
    &&& 0 <= n && n + hunk.new_lines <= new.len()
    &&& read_old(hunk.lines) == old.subrange(o, o + hunk.old_lines)
    &&& read_new(hunk.lines) == new.subrange(n, n + hunk.new_lines)
}

/// A number below the limit is its own low part.
proof fn lemma_numbers_fit(n: int)
    requires
        0 <= n < 0x1_0000_0000,
    ensures
        hunks::low32(n) == n,
{
}

/// The hunk round a run of changes shows both sides.
proof fn lemma_hunk_shows(
    edits: Seq<(EditOp, int, int)>,
    old: Seq<Seq<char>>,
    new: Seq<Seq<char>>,
    first: int,
    last: int,
    context: nat,
)
    requires
        connected(edits),
        forall|k: int| 0 <= k < edits.len() ==> edit_ok(#[trigger] edits[k], old, new),
        forall|k: int|
            0 <= k < edits.len() ==> (#[trigger] edits[k]).1 <= old.len() && edits[k].2
                <= new.len(),
        0 <= first <= last < edits.len(),
        old.len() < 0xffff_ffff,
        new.len() < 0xffff_ffff,
    ensures
        shows_both_sides(hunks::hunk(edits, old, new, first, last, context), old, new),
{
    let a = if first > context {
        first - context
    } else {
        0
    };
    let b = if last + context + 1 < edits.len() {
        last + context + 1
    } else {
        edits.len() as int
    };
    assert(edit_ok(edits[a], old, new));
    assert(edits[a].1 <= old.len());
    lemma_stretch_reads(edits, old, new, a, b);
    lemma_numbers_fit(edits[a].1 + 1);
    lemma_numbers_fit(edits[a].2 + 1);
    lemma_numbers_fit(old_after(edits[b - 1]) - edits[a].1);
    lemma_numbers_fit(new_after(edits[b - 1]) - edits[a].2);
}

/// The hunks from a position on show both sides.
proof fn lemma_hunks_show(
    edits: Seq<(EditOp, int, int)>,
    old: Seq<Seq<char>>,
    new: Seq<Seq<char>>,
    from: int,
    context: nat,
)
    requires
        connected(edits),
        forall|k: int| 0 <= k < edits.len() ==> edit_ok(#[trigger] edits[k], old, new),
        forall|k: int|
            0 <= k < edits.len() ==> (#[trigger] edits[k]).1 <= old.len() && edits[k].2
                <= new.len(),
        0 <= from <= edits.len(),
        old.len() < 0xffff_ffff,
        new.len() < 0xffff_ffff,
    ensures
        forall|i: int|
            0 <= i < hunks::hunks_from(edits, old, new, from, context).len() ==> shows_both_sides(
                #[trigger] hunks::hunks_from(edits, old, new, from, context)[i],
                old,
                new,
            ),
    decreases edits.len() - from,
{
    hunks::lemma_first_change(edits, from);
    let first = hunks::first_change(edits, from);
    if first < edits.len() {
        hunks::lemma_run_last(edits, first, context);
        let last = hunks::run_last(edits, first, context);
        lemma_hunks_show(edits, old, new, last + 1, context);
        lemma_hunk_shows(edits, old, new, first, last, context);
        let one = hunks::hunk(edits, old, new, first, last, context);
        let all = hunks::hunks_from(edits, old, new, from, context);
        let rest = hunks::hunks_from(edits, old, new, last + 1, context);
        assert(all == seq![one] + rest);
        assert forall|i: int| 0 <= i < all.len() implies shows_both_sides(
            #[trigger] all[i],
            old,
            new,
        ) by {
            if i > 0 {
                assert(all[i] == rest[i - 1]);
            }
        }
    }
}

/// Deleted lines read as the old side, and added ones as the new.
proof fn lemma_plain_reads(old: Seq<Seq<char>>, new: Seq<Seq<char>>, i: nat, j: nat)
    requires
        i <= old.len(),
        j <= new.len(),
        j > 0 ==> i == old.len(),
    ensures
        ({
            let lines = hunks::deletions(old).take(i as int) + hunks::additions(new).take(j as int);
            read_old(lines) == old.take(i as int) && read_new(lines) == new.take(j as int)
        }),
    decreases i + j,
{
    let keep_old = |line: DiffLineView|
        if line.line_type == LineType::Addition {
            None::<Seq<char>>
        } else {
            Some(line.content)
        };
    let keep_new = |line: DiffLineView|
        if line.line_type == LineType::Deletion {
            None::<Seq<char>>
        } else {
            Some(line.content)
        };
    let lines = hunks::deletions(old).take(i as int) + hunks::additions(new).take(j as int);
    if i + j == 0 {
        assert(lines.len() == 0);
        assert(read_old(lines) =~= old.take(0));
        assert(read_new(lines) =~= new.take(0));
    } else {
        lines.lemma_filter_map_take_succ(keep_old, lines.len() - 1);
        lines.lemma_filter_map_take_succ(keep_new, lines.len() - 1);
        assert(lines.take(lines.len() as int) == lines);
        if j > 0 {
            lemma_plain_reads(old, new, i, (j - 1) as nat);
            assert(lines.take(lines.len() - 1) == hunks::deletions(old).take(i as int)
                + hunks::additions(new).take(j - 1));
            assert(lines.last() == hunks::additions(new)[j - 1]);
            assert(read_old(lines) =~= old.take(i as int));
            assert(read_new(lines) =~= new.take(j as int));
        } else {
            lemma_plain_reads(old, new, (i - 1) as nat, j);
            assert(lines.take(lines.len() - 1) == hunks::deletions(old).take(i - 1)
                + hunks::additions(new).take(0));
            assert(lines.last() == hunks::deletions(old)[i - 1]);
            assert(read_old(lines) =~= old.take(i as int));
            assert(read_new(lines) =~= new.take(j as int));
        }
    }
}

/// The edits of a script stay within both sides.
proof fn lemma_positions_fit(
    edits: Seq<(EditOp, int, int)>,
    old: Seq<Seq<char>>,
    new: Seq<Seq<char>>,
    k: int,
)
    requires
        connected(edits),
        forall|t: int| 0 <= t < edits.len() ==> edit_ok(#[trigger] edits[t], old, new),
        0 <= k < edits.len(),
        edits[0].1 == 0,
        edits[0].2 == 0,
    ensures
        edits[k].1 <= old.len(),
        edits[k].2 <= new.len(),
    decreases k,
{
    if k > 0 {
        lemma_positions_fit(edits, old, new, k - 1);
        assert(edit_ok(edits[k - 1], old, new));
        assert(follows(edits, k));
    }
}

/// Every hunk of a diff shows what its header says, of both sides, where line
/// numbers fit into 32 bits.
pub proof fn law_hunks_show_both_sides(
    old: Seq<Seq<char>>,
    new: Seq<Seq<char>>,
    context: nat,
    i: int,
)
    requires
        old.len() < 0xffff_ffff,
        new.len() < 0xffff_ffff,
        0 <= i < hunks::diff_hunks(old, new, context).len(),
    ensures
        shows_both_sides(hunks::diff_hunks(old, new, context)[i], old, new),
{
    if old.len() * new.len() > hunks::MAX_PAIRS {
        lemma_plain_reads(old, new, old.len(), new.len());
        assert(hunks::deletions(old).take(old.len() as int) == hunks::deletions(old));
        assert(hunks::additions(new).take(new.len() as int) == hunks::additions(new));
        assert(old.take(old.len() as int) == old.subrange(0, old.len() as int));
        assert(new.take(new.len() as int) == new.subrange(0, new.len() as int));
    } else {
        let edits = hunks::script(old, new, old.len(), new.len());
        law_script_transforms(old, new, old.len(), new.len());
        lemma_script_connected(old, new, old.len(), new.len());
        assert forall|k: int| 0 <= k < edits.len() implies (#[trigger] edits[k]).1 <= old.len()
            && edits[k].2 <= new.len() by {
            lemma_positions_fit(edits, old, new, k);
        }
        lemma_hunks_show(edits, old, new, 0, context);
    }
}

/// The lines of a hunk that are added or deleted.
pub open spec fn changed(lines: Seq<DiffLineView>) -> Seq<DiffLineView> {
    lines.filter(|line: DiffLineView| line.line_type != LineType::Context)
}

/// The lines of all hunks that are added or deleted, in order.
pub open spec fn shown_changes(hunks: Seq<DiffHunkView>) -> Seq<DiffLineView>
    decreases hunks.len(),
{
    if hunks.len() == 0 {
        Seq::empty()
    } else {
        changed(hunks[0].lines) + shown_changes(hunks.skip(1))
    }
}

/// The lines that a stretch of edits adds or deletes.
spec fn changed_by(
    edits: Seq<(EditOp, int, int)>,
    old: Seq<Seq<char>>,
    new: Seq<Seq<char>>,
    a: int,
    b: int,
) -> Seq<DiffLineView> {
    changed(hunks::edit_lines(edits.subrange(a, b), old, new))
}

/// What a stretch changes its two parts change.
proof fn lemma_changed_split(
    edits: Seq<(EditOp, int, int)>,
    old: Seq<Seq<char>>,
    new: Seq<Seq<char>>,
    a: int,
    b: int,
    c: int,
)
    requires
        0 <= a <= b <= c <= edits.len(),
        forall|k: int| 0 <= k < edits.len() ==> edit_ok(#[trigger] edits[k], old, new),
    ensures
        changed_by(edits, old, new, a, c) == changed_by(edits, old, new, a, b) + changed_by(
            edits,
            old,
            new,
            b,
            c,
        ),
    decreases c - b,
{
    let p = |line: DiffLineView| line.line_type != LineType::Context;
    if b == c {
        let none = hunks::edit_lines(edits.subrange(b, c), old, new);
        assert(edits.subrange(b, c).len() == 0);
        assert(none.len() == 0);
        super::host::lemma_filter_none(none, p);
        assert(changed_by(edits, old, new, a, c) =~= changed_by(edits, old, new, a, b)
            + changed_by(edits, old, new, b, c));
    } else {
        assert(edit_ok(edits[c - 1], old, new));
        let line = hunks::edit_line(edits[c - 1], old, new)->0;
        let whole = hunks::edit_lines(edits.subrange(a, c - 1), old, new);
        let part = hunks::edit_lines(edits.subrange(b, c - 1), old, new);
        lemma_changed_split(edits, old, new, a, b, c - 1);
        lemma_one_more_edit(edits, old, new, a, c);
        lemma_one_more_edit(edits, old, new, b, c);
        assert(whole.push(line) == whole + seq![line]);
        assert(part.push(line) == part + seq![line]);
        Seq::filter_distributes_over_add(whole, seq![line], p);
        Seq::filter_distributes_over_add(part, seq![line], p);
        assert(changed_by(edits, old, new, a, c) =~= changed_by(edits, old, new, a, b)
            + changed_by(edits, old, new, b, c));
    }
}

/// A stretch without changes changes nothing.
proof fn lemma_changed_unchanged(
    edits: Seq<(EditOp, int, int)>,
    old: Seq<Seq<char>>,
    new: Seq<Seq<char>>,
    a: int,
    b: int,
)
    requires
        0 <= a <= b <= edits.len(),
        forall|k: int| 0 <= k < edits.len() ==> edit_ok(#[trigger] edits[k], old, new),
        forall|k: int| a <= k < b ==> !hunks::is_change(#[trigger] edits[k]),
    ensures
        changed_by(edits, old, new, a, b) == Seq::<DiffLineView>::empty(),
    decreases b - a,
{
    let p = |line: DiffLineView| line.line_type != LineType::Context;
    if a == b {
        let none = hunks::edit_lines(edits.subrange(a, b), old, new);
        assert(edits.subrange(a, b).len() == 0);
        assert(none.len() == 0);
        super::host::lemma_filter_none(none, p);
    } else {
        assert(edit_ok(edits[b - 1], old, new));
        assert(!hunks::is_change(edits[b - 1]));
        let line = hunks::edit_line(edits[b - 1], old, new)->0;
        let before = hunks::edit_lines(edits.subrange(a, b - 1), old, new);
        lemma_changed_unchanged(edits, old, new, a, b - 1);
        lemma_one_more_edit(edits, old, new, a, b);
        assert(before.push(line) == before + seq![line]);
        Seq::filter_distributes_over_add(before, seq![line], p);
        super::host::lemma_filter_none(seq![line], p);
    }
}

/// What changes from a position on is what a stretch round the next run changes, and
/// what changes after that run.
proof fn lemma_run_changes(
    edits: Seq<(EditOp, int, int)>,
    old: Seq<Seq<char>>,
    new: Seq<Seq<char>>,
    from: int,
    a: int,
    last: int,
    b: int,
)
    requires
        0 <= from <= a <= last < b <= edits.len(),
        forall|k: int| 0 <= k < edits.len() ==> edit_ok(#[trigger] edits[k], old, new),
        forall|k: int| from <= k < a ==> !hunks::is_change(#[trigger] edits[k]),
        forall|k: int| last < k < b ==> !hunks::is_change(#[trigger] edits[k]),
    ensures
        changed_by(edits, old, new, from, edits.len() as int) == changed_by(edits, old, new, a, b)
            + changed_by(edits, old, new, last + 1, edits.len() as int),
{
    let len = edits.len() as int;
    lemma_changed_split(edits, old, new, a, last + 1, b);
    lemma_changed_unchanged(edits, old, new, last + 1, b);
    lemma_changed_split(edits, old, new, from, a, last + 1);
    lemma_changed_unchanged(edits, old, new, from, a);
    lemma_changed_split(edits, old, new, from, last + 1, len);
    let run = changed_by(edits, old, new, a, last + 1);
    assert(run + Seq::<DiffLineView>::empty() =~= run);
    assert(Seq::<DiffLineView>::empty() + run =~= run);
}

/// The first hunk and those after it show what they show together.
proof fn lemma_first_hunk_shows(
    edits: Seq<(EditOp, int, int)>,
    old: Seq<Seq<char>>,
    new: Seq<Seq<char>>,
    from: int,
    context: nat,
)
    requires
        0 <= from <= edits.len(),
        hunks::first_change(edits, from) < edits.len(),
    ensures
        ({
            let first = hunks::first_change(edits, from);
            let last = hunks::run_last(edits, first, context);
            shown_changes(hunks::hunks_from(edits, old, new, from, context)) == changed(
                hunks::hunk(edits, old, new, first, last, context).lines,
            ) + shown_changes(hunks::hunks_from(edits, old, new, last + 1, context))
        }),
{
    let first = hunks::first_change(edits, from);
    let last = hunks::run_last(edits, first, context);
    let all = hunks::hunks_from(edits, old, new, from, context);
    let rest = hunks::hunks_from(edits, old, new, last + 1, context);
    assert(all == seq![hunks::hunk(edits, old, new, first, last, context)] + rest);
    assert(all.skip(1) =~= rest);
}

/// The hunks show what the edits at or after `from` change, in order.
proof fn lemma_hunks_changes(
    edits: Seq<(EditOp, int, int)>,
    old: Seq<Seq<char>>,
    new: Seq<Seq<char>>,
    from: int,
    context: nat,
)
    requires
        0 <= from <= edits.len(),
        forall|k: int| 0 <= k < edits.len() ==> edit_ok(#[trigger] edits[k], old, new),
        from == 0 || hunks::first_change(edits, from) >= edits.len() || hunks::first_change(
            edits,
            from,
        ) - (from - 1) > context + 1,
    ensures
        shown_changes(hunks::hunks_from(edits, old, new, from, context)) == changed_by(
            edits,
            old,
            new,
            from,
            edits.len() as int,
        ),
    decreases edits.len() - from,
{
    let len = edits.len() as int;
    hunks::lemma_first_change(edits, from);
    let first = hunks::first_change(edits, from);
    if first >= len {
        lemma_changed_unchanged(edits, old, new, from, len);
    } else {
        hunks::lemma_run_last(edits, first, context);
        let last = hunks::run_last(edits, first, context);
        lemma_after_run(edits, first, context);
        hunks::lemma_first_change(edits, last + 1);
        lemma_hunks_changes(edits, old, new, last + 1, context);
        let a = if first > context {
            first - context
        } else {
            0
        };
        let b = if last + context + 1 < len {
            last + context + 1
        } else {
            len
        };
        assert(from <= a <= first);
        lemma_run_changes(edits, old, new, from, a, last, b);
        lemma_first_hunk_shows(edits, old, new, from, context);
        assert(hunks::hunk(edits, old, new, first, last, context).lines == hunks::edit_lines(
            edits.subrange(a, b),
            old,
            new,
        ));
    }
}

/// The lines that a diff adds and deletes are the same for every context, in the same
/// order: where the lines are compared, those of the edit script.
pub proof fn law_context_changes_nothing(
    old: Seq<Seq<char>>,
    new: Seq<Seq<char>>,
    context: nat,
    other: nat,
)
    ensures
        shown_changes(hunks::diff_hunks(old, new, context)) == shown_changes(
            hunks::diff_hunks(old, new, other),
        ),
        old.len() * new.len() <= hunks::MAX_PAIRS ==> shown_changes(
            hunks::diff_hunks(old, new, context),
        ) == changed(
            hunks::edit_lines(hunks::script(old, new, old.len(), new.len()), old, new),
        ),
{
    if old.len() * new.len() <= hunks::MAX_PAIRS {
        let s = hunks::script(old, new, old.len(), new.len());
        law_script_transforms(old, new, old.len(), new.len());
        lemma_hunks_changes(s, old, new, 0, context);
        lemma_hunks_changes(s, old, new, 0, other);
        assert(s.subrange(0, s.len() as int) == s);
    }
}

/// How many of the lines carry a number on the old side.
pub open spec fn on_old_side(lines: Seq<DiffLineView>) -> nat {
    lines.filter(|line: DiffLineView| line.old_line_no is Some).len()
}

/// How many of the lines carry a number on the new side.
pub open spec fn on_new_side(lines: Seq<DiffLineView>) -> nat {
    lines.filter(|line: DiffLineView| line.new_line_no is Some).len()
}

/// Whether a line of a hunk is numbered right: a deleted line on the old side alone,
/// an added one on the new side alone and any other on both; the number is that of a
/// line of that side with the same content, and counts up by one from the start of
/// the hunk over the lines that carry one.
pub open spec fn numbered_right(
    hunk: DiffHunkView,
    old: Seq<Seq<char>>,
    new: Seq<Seq<char>>,
    t: int,
) -> bool {
    let line = hunk.lines[t];
    let earlier = hunk.lines.take(t);
    &&& line.old_line_no is Some <==> line.line_type != LineType::Addition
    &&& line.new_line_no is Some <==> line.line_type != LineType::Deletion
    &&& line.old_line_no is Some ==> {
        let m = line.old_line_no->0;
        &&& 1 <= m <= old.len()
        &&& old[m - 1] == line.content
        &&& m == hunk.old_start + on_old_side(earlier)
    }
    &&& line.new_line_no is Some ==> {
        let n = line.new_line_no->0;
        &&& 1 <= n <= new.len()
        &&& new[n - 1] == line.content
        &&& n == hunk.new_start + on_new_side(earlier)
    }
}

/// One more line counts on the sides on which it carries a number.
proof fn lemma_one_more_counts(lines: Seq<DiffLineView>, line: DiffLineView)
    ensures
        on_old_side(lines.push(line)) == on_old_side(lines) + if line.old_line_no is Some {
            1nat
        } else {
            0
        },
        on_new_side(lines.push(line)) == on_new_side(lines) + if line.new_line_no is Some {
            1nat
        } else {
            0
        },
{
    reveal(Seq::filter);
    assert(lines.push(line).drop_last() == lines);
}

/// A stretch of edits makes one line for each edit, and as many numbered lines on each
/// side as it goes on there.
proof fn lemma_stretch_counts(
    edits: Seq<(EditOp, int, int)>,
    old: Seq<Seq<char>>,
    new: Seq<Seq<char>>,
    a: int,
    b: int,
)
    requires
        connected(edits),
        forall|k: int| 0 <= k < edits.len() ==> edit_ok(#[trigger] edits[k], old, new),
        0 <= a < b <= edits.len(),
    ensures
        hunks::edit_lines(edits.subrange(a, b), old, new).len() == b - a,
        on_old_side(hunks::edit_lines(edits.subrange(a, b), old, new)) == old_after(edits[b - 1])
            - edits[a].1,
        on_new_side(hunks::edit_lines(edits.subrange(a, b), old, new)) == new_after(edits[b - 1])
            - edits[a].2,
    decreases b - a,
{
    let earlier = hunks::edit_lines(edits.subrange(a, b - 1), old, new);
    assert(edit_ok(edits[b - 1], old, new));
    lemma_one_more_edit(edits, old, new, a, b);
    lemma_one_more_counts(earlier, hunks::edit_line(edits[b - 1], old, new)->0);
    if b - 1 > a {
        lemma_stretch_counts(edits, old, new, a, b - 1);
        assert(follows(edits, b - 1));
    } else {
        reveal(Seq::filter);
        assert(edits.subrange(a, b - 1).len() == 0);
        assert(earlier.len() == 0);
    }
}

/// A stretch of edits makes the lines of a shorter one first, and then that of the next
/// edit.
proof fn lemma_stretch_line(
    edits: Seq<(EditOp, int, int)>,
    old: Seq<Seq<char>>,
    new: Seq<Seq<char>>,
    a: int,
    b: int,
    t: int,
)
    requires
        connected(edits),
        forall|k: int| 0 <= k < edits.len() ==> edit_ok(#[trigger] edits[k], old, new),
        0 <= a < b <= edits.len(),
        0 <= t < b - a,
    ensures
        hunks::edit_lines(edits.subrange(a, b), old, new).len() == b - a,
        hunks::edit_line(edits[a + t], old, new) == Some(
            hunks::edit_lines(edits.subrange(a, b), old, new)[t],
        ),
        hunks::edit_lines(edits.subrange(a, b), old, new).take(t) == hunks::edit_lines(
            edits.subrange(a, a + t),
            old,
            new,
        ),
    decreases b - a,
{
    let lines = hunks::edit_lines(edits.subrange(a, b), old, new);
    let earlier = hunks::edit_lines(edits.subrange(a, b - 1), old, new);
    assert(edit_ok(edits[b - 1], old, new));
    lemma_one_more_edit(edits, old, new, a, b);
    lemma_stretch_counts(edits, old, new, a, b);
    if t == b - 1 - a {
        assert(lines.take(t) =~= earlier);
    } else {
        lemma_stretch_line(edits, old, new, a, b - 1, t);
        assert(lines.take(t) =~= earlier.take(t));
    }
}

/// Whether every line of a hunk is numbered right.
pub open spec fn all_numbered_right(
    hunk: DiffHunkView,
    old: Seq<Seq<char>>,
    new: Seq<Seq<char>>,
) -> bool {
    forall|t: int| 0 <= t < hunk.lines.len() ==> #[trigger] numbered_right(hunk, old, new, t)
}

/// The hunk round a run of changes is numbered right.
proof fn lemma_hunk_numbered(
    edits: Seq<(EditOp, int, int)>,
    old: Seq<Seq<char>>,
    new: Seq<Seq<char>>,
    first: int,
    last: int,
    context: nat,
)
    requires
        connected(edits),
        forall|k: int| 0 <= k < edits.len() ==> edit_ok(#[trigger] edits[k], old, new),
        forall|k: int|
            0 <= k < edits.len() ==> (#[trigger] edits[k]).1 <= old.len() && edits[k].2
                <= new.len(),
        0 <= first <= last < edits.len(),
        old.len() < 0xffff_ffff,
        new.len() < 0xffff_ffff,
    ensures
        all_numbered_right(hunks::hunk(edits, old, new, first, last, context), old, new),
{
    let a = if first > context {
        first - context
    } else {
        0
    };
    let b = if last + context + 1 < edits.len() {
        last + context + 1
    } else {
        edits.len() as int
    };
    let h = hunks::hunk(edits, old, new, first, last, context);
    lemma_stretch_counts(edits, old, new, a, b);
    assert(edit_ok(edits[a], old, new));
    assert(edits[a].1 <= old.len());
    lemma_numbers_fit(edits[a].1 + 1);
    lemma_numbers_fit(edits[a].2 + 1);
    assert forall|t: int| 0 <= t < h.lines.len() implies #[trigger] numbered_right(
        h,
        old,
        new,
        t,
    ) by {
        lemma_stretch_line(edits, old, new, a, b, t);
        let e = edits[a + t];
        assert(edit_ok(e, old, new));
        assert(e.1 <= old.len());
        lemma_numbers_fit(e.1 + 1);
        lemma_numbers_fit(e.2 + 1);
        if t > 0 {
            lemma_stretch_counts(edits, old, new, a, a + t);
            assert(follows(edits, a + t));
        } else {
            reveal(Seq::filter);
            assert(h.lines.take(0).len() == 0);
        }
    }
}

/// The hunks from a position on are numbered right.
proof fn lemma_hunks_numbered(
    edits: Seq<(EditOp, int, int)>,
    old: Seq<Seq<char>>,
    new: Seq<Seq<char>>,
    from: int,
    context: nat,
)
    requires
        connected(edits),
        forall|k: int| 0 <= k < edits.len() ==> edit_ok(#[trigger] edits[k], old, new),
        forall|k: int|
            0 <= k < edits.len() ==> (#[trigger] edits[k]).1 <= old.len() && edits[k].2
                <= new.len(),
        0 <= from <= edits.len(),
        old.len() < 0xffff_ffff,
        new.len() < 0xffff_ffff,
    ensures
        forall|i: int|
            0 <= i < hunks::hunks_from(edits, old, new, from, context).len() ==> all_numbered_right(
                #[trigger] hunks::hunks_from(edits, old, new, from, context)[i],
                old,
                new,
            ),
    decreases edits.len() - from,
{
    hunks::lemma_first_change(edits, from);
    let first = hunks::first_change(edits, from);
    if first < edits.len() {
        hunks::lemma_run_last(edits, first, context);
        let last = hunks::run_last(edits, first, context);
        lemma_hunks_numbered(edits, old, new, last + 1, context);
        lemma_hunk_numbered(edits, old, new, first, last, context);
        let one = hunks::hunk(edits, old, new, first, last, context);
        let all = hunks::hunks_from(edits, old, new, from, context);
        let rest = hunks::hunks_from(edits, old, new, last + 1, context);
        assert(all == seq![one] + rest);
        assert forall|i: int| 0 <= i < all.len() implies all_numbered_right(
            #[trigger] all[i],
            old,
            new,
        ) by {
            if i > 0 {
                assert(all[i] == rest[i - 1]);
            }
        }
    }
}

/// The plain diff is numbered right.
proof fn lemma_plain_numbered(old: Seq<Seq<char>>, new: Seq<Seq<char>>)
    requires
        old.len() < 0xffff_ffff,
        new.len() < 0xffff_ffff,
        old.len() > 0 || new.len() > 0,
    ensures
        all_numbered_right(hunks::simple_hunks(old, new)[0], old, new),
{
    let h = hunks::simple_hunks(old, new)[0];
    let gone = hunks::deletions(old);
    let come = hunks::additions(new);
    let p = |line: DiffLineView| line.old_line_no is Some;
    let q = |line: DiffLineView| line.new_line_no is Some;
    assert forall|t: int| 0 <= t < h.lines.len() implies #[trigger] numbered_right(
        h,
        old,
        new,
        t,
    ) by {
        let earlier = h.lines.take(t);
        if t < old.len() {
            assert(h.lines[t] == gone[t]);
            assert(earlier =~= gone.take(t));
            super::host::lemma_filter_all(earlier, p);
            lemma_numbers_fit(t + 1);
        } else {
            let n = t - old.len();
            assert(h.lines[t] == come[n]);
            assert(earlier =~= gone + come.take(n));
            Seq::filter_distributes_over_add(gone, come.take(n), q);
            super::host::lemma_filter_none(gone, q);
            super::host::lemma_filter_all(come.take(n), q);
            lemma_numbers_fit(n + 1);
        }
    }
}

/// In every hunk of a diff a line that carries a number on a side has the content of
/// the line of that side with that number, and the numbers count up by one from the
/// start that the hunk tells, over the lines that carry one.
pub proof fn law_lines_are_numbered_right(
    old: Seq<Seq<char>>,
    new: Seq<Seq<char>>,
    context: nat,
    i: int,
)
    requires
        old.len() < 0xffff_ffff,
        new.len() < 0xffff_ffff,
        0 <= i < hunks::diff_hunks(old, new, context).len(),
    ensures
        all_numbered_right(hunks::diff_hunks(old, new, context)[i], old, new),
{
    if old.len() * new.len() > hunks::MAX_PAIRS {
        lemma_plain_numbered(old, new);
    } else {
        let edits = hunks::script(old, new, old.len(), new.len());
        law_script_transforms(old, new, old.len(), new.len());
        lemma_script_connected(old, new, old.len(), new.len());
        assert forall|k: int| 0 <= k < edits.len() implies (#[trigger] edits[k]).1 <= old.len()
            && edits[k].2 <= new.len() by {
            lemma_positions_fit(edits, old, new, k);
        }
        lemma_hunks_numbered(edits, old, new, 0, context);
    }
}

/// Whether two lines of a hunk are changes that follow each other.
pub open spec fn next_to(lines: Seq<DiffLineView>, x: int, y: int) -> bool {
    &&& 0 <= x < y < lines.len()
    &&& lines[x].line_type != LineType::Context
    &&& lines[y].line_type != LineType::Context
    &&& forall|t: int| x < t < y ==> (#[trigger] lines[t]).line_type == LineType::Context
}

/// Whether the lines of a hunk from one changed line to another are its changes: all
/// others before and after are unchanged, and between two changes that follow each other
/// there are no more unchanged lines than the context.
pub open spec fn runs_from_to(lines: Seq<DiffLineView>, first: int, last: int, context: nat) -> bool {
    &&& 0 <= first <= last < lines.len()
    &&& lines[first].line_type != LineType::Context
    &&& lines[last].line_type != LineType::Context
    &&& forall|t: int|
        (0 <= t < first || last < t < lines.len()) ==> (#[trigger] lines[t]).line_type
            == LineType::Context
    &&& forall|x: int, y: int| #[trigger] next_to(lines, x, y) ==> y - x - 1 <= context
}

/// Whether a hunk shows as much context as there is, up to what was asked for: it begins
/// earlier than its first change by that many lines or at the start of both sides, and
/// ends after its last change by that many lines or at the end of both.
pub open spec fn shows_context(
    hunk: DiffHunkView,
    old: Seq<Seq<char>>,
    new: Seq<Seq<char>>,
    first: int,
    last: int,
    context: nat,
) -> bool {
    let after = hunk.lines.len() - 1 - last;
    &&& runs_from_to(hunk.lines, first, last, context)
    &&& first <= context
    &&& first < context ==> hunk.old_start == 1 && hunk.new_start == 1
    &&& after <= context
    &&& after < context ==> hunk.old_start - 1 + hunk.old_lines == old.len() && hunk.new_start - 1
        + hunk.new_lines == new.len()
}

/// Two changes of a run that follow each other are within reach.
proof fn lemma_run_gaps(
    edits: Seq<(EditOp, int, int)>,
    c: int,
    context: nat,
    x: int,
    y: int,
)
    requires
        0 <= c < edits.len(),
        hunks::is_change(edits[c]),
        c <= x < y <= hunks::run_last(edits, c, context),
        hunks::is_change(edits[x]),
        hunks::is_change(edits[y]),
        forall|t: int| x < t < y ==> !hunks::is_change(#[trigger] edits[t]),
    ensures
        y - x - 1 <= context,
    decreases edits.len() - c,
{
    hunks::lemma_first_change(edits, c + 1);
    let next = hunks::first_change(edits, c + 1);
    if next < edits.len() && next - c <= context + 1 {
        hunks::lemma_run_last(edits, next, context);
        if x == c {
            if next < y {
                assert(!hunks::is_change(edits[next]));
            }
        } else {
            if x < next {
                assert(!hunks::is_change(edits[x]));
            }
            lemma_run_gaps(edits, next, context, x, y);
        }
    }
}

/// Where a run begins and ends in the hunk round it.
spec fn run_in(first: int, last: int, context: nat) -> (int, int) {
    if first > context {
        (context as int, context + last - first)
    } else {
        (first, last)
    }
}

/// The lines of a stretch round a run are its changes and the unchanged lines about it.
proof fn lemma_lines_run(
    edits: Seq<(EditOp, int, int)>,
    old: Seq<Seq<char>>,
    new: Seq<Seq<char>>,
    first: int,
    context: nat,
    a: int,
    b: int,
)
    requires
        connected(edits),
        forall|k: int| 0 <= k < edits.len() ==> edit_ok(#[trigger] edits[k], old, new),
        0 <= a <= first <= hunks::run_last(edits, first, context) < b <= edits.len(),
        hunks::is_change(edits[first]),
        hunks::is_change(edits[hunks::run_last(edits, first, context)]),
        forall|k: int| a <= k < first ==> !hunks::is_change(#[trigger] edits[k]),
        forall|k: int|
            hunks::run_last(edits, first, context) < k < b ==> !hunks::is_change(
                #[trigger] edits[k],
            ),
    ensures
        runs_from_to(
            hunks::edit_lines(edits.subrange(a, b), old, new),
            first - a,
            hunks::run_last(edits, first, context) - a,
            context,
        ),
{
    let last = hunks::run_last(edits, first, context);
    let lines = hunks::edit_lines(edits.subrange(a, b), old, new);
    lemma_stretch_counts(edits, old, new, a, b);
    assert forall|t: int| 0 <= t < lines.len() implies ((#[trigger] lines[t]).line_type
        != LineType::Context <==> hunks::is_change(edits[a + t])) by {
        lemma_stretch_line(edits, old, new, a, b, t);
    }
    assert(lines[first - a].line_type != LineType::Context);
    assert(lines[last - a].line_type != LineType::Context);
    assert forall|t: int|
        (0 <= t < first - a || last - a < t < lines.len()) implies (#[trigger] lines[t]).line_type
        == LineType::Context by {
        assert(!hunks::is_change(edits[a + t]));
    }
    assert forall|x: int, y: int| #[trigger] next_to(lines, x, y) implies y - x - 1 <= context by {
        assert(hunks::is_change(edits[a + x]));
        assert(hunks::is_change(edits[a + y]));
        assert forall|t: int| a + x < t < a + y implies !hunks::is_change(#[trigger] edits[t]) by {
            assert(lines[t - a].line_type == LineType::Context);
        }
        lemma_run_gaps(edits, first, context, a + x, a + y);
    }
}

/// The hunk round a run shows as much context as there is.
proof fn lemma_hunk_context(
    edits: Seq<(EditOp, int, int)>,
    old: Seq<Seq<char>>,
    new: Seq<Seq<char>>,
    from: int,
    context: nat,
)
    requires
        connected(edits),
        forall|k: int| 0 <= k < edits.len() ==> edit_ok(#[trigger] edits[k], old, new),
        forall|k: int|
            0 <= k < edits.len() ==> (#[trigger] edits[k]).1 <= old.len() && edits[k].2
                <= new.len(),
        0 <= from <= edits.len(),
        from == 0 || hunks::first_change(edits, from) - (from - 1) > context + 1,
        hunks::first_change(edits, from) < edits.len(),
        edits[0].1 == 0,
        edits[0].2 == 0,
        old_after(edits[edits.len() - 1]) == old.len(),
        new_after(edits[edits.len() - 1]) == new.len(),
        old.len() < 0xffff_ffff,
        new.len() < 0xffff_ffff,
    ensures
        ({
            let first = hunks::first_change(edits, from);
            let last = hunks::run_last(edits, first, context);
            let run = run_in(first, last, context);
            shows_context(
                hunks::hunk(edits, old, new, first, last, context),
                old,
                new,
                run.0,
                run.1,
                context,
            )
        }),
{
    hunks::lemma_first_change(edits, from);
    let first = hunks::first_change(edits, from);
    hunks::lemma_run_last(edits, first, context);
    let last = hunks::run_last(edits, first, context);
    lemma_after_run(edits, first, context);
    hunks::lemma_first_change(edits, last + 1);
    let a = if first > context {
        first - context
    } else {
        0
    };
    let b = if last + context + 1 < edits.len() {
        last + context + 1
    } else {
        edits.len() as int
    };
    assert(from <= a);
    lemma_lines_run(edits, old, new, first, context, a, b);
    lemma_hunk_place(edits, old, new, first, last, context, a, b);
}

/// Where a hunk stands on both sides.
proof fn lemma_hunk_place(
    edits: Seq<(EditOp, int, int)>,
    old: Seq<Seq<char>>,
    new: Seq<Seq<char>>,
    first: int,
    last: int,
    context: nat,
    a: int,
    b: int,
)
    requires
        connected(edits),
        forall|k: int| 0 <= k < edits.len() ==> edit_ok(#[trigger] edits[k], old, new),
        forall|k: int|
            0 <= k < edits.len() ==> (#[trigger] edits[k]).1 <= old.len() && edits[k].2
                <= new.len(),
        0 <= first <= last < edits.len(),
        a == if first > context {
            first - context
        } else {
            0
        },
        b == if last + context + 1 < edits.len() {
            last + context + 1
        } else {
            edits.len() as int
        },
        old.len() < 0xffff_ffff,
        new.len() < 0xffff_ffff,
    ensures
        ({
            let h = hunks::hunk(edits, old, new, first, last, context);
            &&& h.lines == hunks::edit_lines(edits.subrange(a, b), old, new)
            &&& h.lines.len() == b - a
            &&& h.old_start == edits[a].1 + 1
            &&& h.new_start == edits[a].2 + 1
            &&& h.old_start - 1 + h.old_lines == old_after(edits[b - 1])
            &&& h.new_start - 1 + h.new_lines == new_after(edits[b - 1])
        }),
{
    lemma_stretch_counts(edits, old, new, a, b);
    assert(edit_ok(edits[a], old, new));
    assert(edits[a].1 <= old.len());
    lemma_stretch_reads(edits, old, new, a, b);
    lemma_numbers_fit(edits[a].1 + 1);
    lemma_numbers_fit(edits[a].2 + 1);
    lemma_numbers_fit(old_after(edits[b - 1]) - edits[a].1);
    lemma_numbers_fit(new_after(edits[b - 1]) - edits[a].2);
}

/// The number that the next line on the old side would carry after some lines of a hunk.
pub open spec fn old_reached(hunk: DiffHunkView, t: int) -> int {
    hunk.old_start + on_old_side(hunk.lines.take(t))
}

/// How many unchanged lines lie between the last change of a hunk and the first of the
/// next one.
pub open spec fn gap_before(all: Seq<DiffHunkView>, places: Seq<(int, int)>, i: int) -> int {
    old_reached(all[i], places[i].0) - old_reached(all[i - 1], places[i - 1].1 + 1)
}

/// Whether hunks are as they should be, one after the other: each shows its context, and
/// from the last change of one to the first of the next there are more unchanged lines
/// than the context, so that they belong apart.
pub open spec fn apart(
    all: Seq<DiffHunkView>,
    old: Seq<Seq<char>>,
    new: Seq<Seq<char>>,
    context: nat,
    places: Seq<(int, int)>,
) -> bool {
    &&& places.len() == all.len()
    &&& forall|i: int|
        0 <= i < all.len() ==> shows_context(
            #[trigger] all[i],
            old,
            new,
            places[i].0,
            places[i].1,
            context,
        )
    &&& forall|i: int| 0 < i < all.len() ==> #[trigger] gap_before(all, places, i) > context
}

/// How far a hunk reaches at a line is where the edit behind that line stands.
proof fn lemma_reached(
    edits: Seq<(EditOp, int, int)>,
    old: Seq<Seq<char>>,
    new: Seq<Seq<char>>,
    first: int,
    last: int,
    context: nat,
    t: int,
)
    requires
        connected(edits),
        forall|k: int| 0 <= k < edits.len() ==> edit_ok(#[trigger] edits[k], old, new),
        forall|k: int|
            0 <= k < edits.len() ==> (#[trigger] edits[k]).1 <= old.len() && edits[k].2
                <= new.len(),
        0 <= first <= last < edits.len(),
        old.len() < 0xffff_ffff,
        new.len() < 0xffff_ffff,
        ({
            let a = if first > context {
                first - context
            } else {
                0
            };
            0 <= t <= last + 1 - a
        }),
    ensures
        ({
            let a = if first > context {
                first - context
            } else {
                0
            };
            let h = hunks::hunk(edits, old, new, first, last, context);
            old_reached(h, t) == if t == 0 {
                edits[a].1 + 1
            } else {
                old_after(edits[a + t - 1]) + 1
            }
        }),
{
    let a = if first > context {
        first - context
    } else {
        0
    };
    let b = if last + context + 1 < edits.len() {
        last + context + 1
    } else {
        edits.len() as int
    };
    let h = hunks::hunk(edits, old, new, first, last, context);
    assert(edit_ok(edits[a], old, new));
    assert(edits[a].1 <= old.len());
    lemma_numbers_fit(edits[a].1 + 1);
    lemma_stretch_counts(edits, old, new, a, b);
    if t == 0 {
        reveal(Seq::filter);
        assert(h.lines.take(0).len() == 0);
    } else {
        lemma_stretch_counts(edits, old, new, a, a + t);
        if t < b - a {
            lemma_stretch_line(edits, old, new, a, b, t);
        } else {
            assert(h.lines.take(t) =~= h.lines);
        }
    }
}

/// Without changes both sides go on alike.
proof fn lemma_unchanged_goes_on(
    edits: Seq<(EditOp, int, int)>,
    x: int,
    y: int,
)
    requires
        connected(edits),
        0 < x <= y < edits.len(),
        forall|t: int| x <= t < y ==> !hunks::is_change(#[trigger] edits[t]),
    ensures
        edits[y].1 - old_after(edits[x - 1]) == y - x,
    decreases y - x,
{
    assert(follows(edits, y));
    if x < y {
        lemma_unchanged_goes_on(edits, x, y - 1);
        assert(!hunks::is_change(edits[y - 1]));
    }
}

/// Where the runs of the hunks from a position on begin and end.
spec fn places_from(edits: Seq<(EditOp, int, int)>, from: int, context: nat) -> Seq<(int, int)>
    decreases edits.len() - from,
{
    if 0 <= from <= edits.len() {
        proof {
            hunks::lemma_first_change(edits, from);
        }
        let first = hunks::first_change(edits, from);
        if first >= edits.len() {
            Seq::empty()
        } else {
            proof {
                hunks::lemma_run_last(edits, first, context);
            }
            let last = hunks::run_last(edits, first, context);
            seq![run_in(first, last, context)] + places_from(edits, last + 1, context)
        }
    } else {
        Seq::empty()
    }
}

/// The hunks from a position on are as they should be.
proof fn lemma_hunks_apart(
    edits: Seq<(EditOp, int, int)>,
    old: Seq<Seq<char>>,
    new: Seq<Seq<char>>,
    from: int,
    context: nat,
)
    requires
        connected(edits),
        forall|k: int| 0 <= k < edits.len() ==> edit_ok(#[trigger] edits[k], old, new),
        forall|k: int|
            0 <= k < edits.len() ==> (#[trigger] edits[k]).1 <= old.len() && edits[k].2
                <= new.len(),
        0 <= from <= edits.len(),
        from == 0 || hunks::first_change(edits, from) >= edits.len() || hunks::first_change(
            edits,
            from,
        ) - (from - 1) > context + 1,
        edits.len() > 0 ==> edits[0].1 == 0 && edits[0].2 == 0 && old_after(
            edits[edits.len() - 1],
        ) == old.len() && new_after(edits[edits.len() - 1]) == new.len(),
        old.len() < 0xffff_ffff,
        new.len() < 0xffff_ffff,
    ensures
        apart(
            hunks::hunks_from(edits, old, new, from, context),
            old,
            new,
            context,
            places_from(edits, from, context),
        ),
    decreases edits.len() - from,
{
    hunks::lemma_first_change(edits, from);
    let first = hunks::first_change(edits, from);
    if first < edits.len() {
        hunks::lemma_run_last(edits, first, context);
        let last = hunks::run_last(edits, first, context);
        lemma_after_run(edits, first, context);
        hunks::lemma_first_change(edits, last + 1);
        lemma_hunks_apart(edits, old, new, last + 1, context);
        lemma_hunk_context(edits, old, new, from, context);
        let one = hunks::hunk(edits, old, new, first, last, context);
        let all = hunks::hunks_from(edits, old, new, from, context);
        let rest = hunks::hunks_from(edits, old, new, last + 1, context);
        let places = places_from(edits, from, context);
        let others = places_from(edits, last + 1, context);
        let run = run_in(first, last, context);
        assert(all == seq![one] + rest);
        assert(places == seq![run] + others);
        assert forall|i: int| 0 <= i < all.len() implies shows_context(
            #[trigger] all[i],
            old,
            new,
            places[i].0,
            places[i].1,
            context,
        ) by {
            if i > 0 {
                assert(all[i] == rest[i - 1]);
                assert(places[i] == others[i - 1]);
            }
        }
        assert forall|i: int| 0 < i < all.len() implies #[trigger] gap_before(all, places, i)
            > context by {
            assert(all[i] == rest[i - 1]);
            assert(places[i] == others[i - 1]);
            if i > 1 {
                assert(all[i - 1] == rest[i - 2]);
                assert(places[i - 1] == others[i - 2]);
                assert(gap_before(rest, others, i - 1) > context);
            } else {
                lemma_gap(edits, old, new, from, context);
            }
        }
    }
}

/// Between two hunks lie more unchanged lines than the context.
proof fn lemma_gap(
    edits: Seq<(EditOp, int, int)>,
    old: Seq<Seq<char>>,
    new: Seq<Seq<char>>,
    from: int,
    context: nat,
)
    requires
        connected(edits),
        forall|k: int| 0 <= k < edits.len() ==> edit_ok(#[trigger] edits[k], old, new),
        forall|k: int|
            0 <= k < edits.len() ==> (#[trigger] edits[k]).1 <= old.len() && edits[k].2
                <= new.len(),
        0 <= from <= edits.len(),
        hunks::first_change(edits, from) < edits.len(),
        old.len() < 0xffff_ffff,
        new.len() < 0xffff_ffff,
        hunks::first_change(
            edits,
            hunks::run_last(edits, hunks::first_change(edits, from), context) + 1,
        ) < edits.len(),
    ensures
        ({
            let first = hunks::first_change(edits, from);
            let last = hunks::run_last(edits, first, context);
            let next = hunks::first_change(edits, last + 1);
            let end = hunks::run_last(edits, next, context);
            old_reached(
                hunks::hunk(edits, old, new, next, end, context),
                run_in(next, end, context).0,
            ) - old_reached(
                hunks::hunk(edits, old, new, first, last, context),
                run_in(first, last, context).1 + 1,
            ) > context
        }),
{
    hunks::lemma_first_change(edits, from);
    let first = hunks::first_change(edits, from);
    hunks::lemma_run_last(edits, first, context);
    let last = hunks::run_last(edits, first, context);
    lemma_after_run(edits, first, context);
    hunks::lemma_first_change(edits, last + 1);
    let next = hunks::first_change(edits, last + 1);
    hunks::lemma_run_last(edits, next, context);
    let end = hunks::run_last(edits, next, context);
    let run = run_in(first, last, context);
    let other = run_in(next, end, context);
    lemma_reached(edits, old, new, first, last, context, run.1 + 1);
    lemma_reached(edits, old, new, next, end, context, other.0);
    lemma_unchanged_goes_on(edits, last + 1, next);
    assert(follows(edits, next));
}

/// Where the lines are compared, every hunk shows as much context as was asked for and
/// as there is, holds the changes that lie no further apart than the context, and leaves
/// to another hunk those that do.
pub proof fn law_hunks_show_their_context(old: Seq<Seq<char>>, new: Seq<Seq<char>>, context: nat)
    requires
        old.len() * new.len() <= 10_000_000,
        old.len() < 0xffff_ffff,
        new.len() < 0xffff_ffff,
    ensures
        exists|places: Seq<(int, int)>| #[trigger]
            apart(hunks::diff_hunks(old, new, context), old, new, context, places),
{
    let edits = hunks::script(old, new, old.len(), new.len());
    law_script_transforms(old, new, old.len(), new.len());
    lemma_script_connected(old, new, old.len(), new.len());
    assert forall|k: int| 0 <= k < edits.len() implies (#[trigger] edits[k]).1 <= old.len()
        && edits[k].2 <= new.len() by {
        lemma_positions_fit(edits, old, new, k);
    }
    lemma_hunks_apart(edits, old, new, 0, context);
    assert(apart(
        hunks::diff_hunks(old, new, context),
        old,
        new,
        context,
        places_from(edits, 0, context),
    ));
}

/// The text that heads a hunk tells where it begins and how long it is on both sides.
pub proof fn law_headers_tell_the_place(
    old: Seq<Seq<char>>,
    new: Seq<Seq<char>>,
    context: nat,
    i: int,
)
    requires
        old.len() < 0xffff_ffff,
        new.len() < 0xffff_ffff,
        0 <= i < hunks::diff_hunks(old, new, context).len(),
    ensures
        ({
            let hunk = hunks::diff_hunks(old, new, context)[i];
            hunk.header == "@@ -"@ + crate::text::decimal(hunk.old_start as nat) + ","@
                + crate::text::decimal(hunk.old_lines as nat) + " +"@ + crate::text::decimal(
                hunk.new_start as nat,
            ) + ","@ + crate::text::decimal(hunk.new_lines as nat) + " @@"@
        }),
{
    if old.len() * new.len() > hunks::MAX_PAIRS {
        lemma_numbers_fit(old.len() as int);
        lemma_numbers_fit(new.len() as int);
    } else {
        let edits = hunks::script(old, new, old.len(), new.len());
        lemma_headers(edits, old, new, 0, context);
    }
}

/// The hunks from a position on are headed by their place.
proof fn lemma_headers(
    edits: Seq<(EditOp, int, int)>,
    old: Seq<Seq<char>>,
    new: Seq<Seq<char>>,
    from: int,
    context: nat,
)
    requires
        0 <= from <= edits.len(),
    ensures
        forall|i: int|
            0 <= i < hunks::hunks_from(edits, old, new, from, context).len() ==> {
                let hunk = #[trigger] hunks::hunks_from(edits, old, new, from, context)[i];
                hunk.header == hunks::header(
                    hunk.old_start as nat,
                    hunk.old_lines as nat,
                    hunk.new_start as nat,
                    hunk.new_lines as nat,
                )
            },
    decreases edits.len() - from,
{
    hunks::lemma_first_change(edits, from);
    let first = hunks::first_change(edits, from);
    if first < edits.len() {
        hunks::lemma_run_last(edits, first, context);
        let last = hunks::run_last(edits, first, context);
        lemma_headers(edits, old, new, last + 1, context);
        let one = hunks::hunk(edits, old, new, first, last, context);
        let all = hunks::hunks_from(edits, old, new, from, context);
        let rest = hunks::hunks_from(edits, old, new, last + 1, context);
        assert(all == seq![one] + rest);
        assert forall|i: int| 0 <= i < all.len() implies {
            let hunk = #[trigger] all[i];
            hunk.header == hunks::header(
                hunk.old_start as nat,
                hunk.old_lines as nat,
                hunk.new_start as nat,
                hunk.new_lines as nat,
            )
        } by {
            if i > 0 {
                assert(all[i] == rest[i - 1]);
            }
        }
    }
}

/// Too many pairs of lines are not compared: all old lines are shown as deleted and all
/// new ones as added, in one hunk.
pub proof fn law_plain_diff_shows_all(old: Seq<Seq<char>>, new: Seq<Seq<char>>, context: nat)
    requires
        old.len() * new.len() > 10_000_000,
    ensures
        ({
            let all = hunks::diff_hunks(old, new, context);
            &&& all.len() == 1
            &&& all[0].lines.len() == old.len() + new.len()
            &&& forall|t: int|
                0 <= t < all[0].lines.len() ==> (#[trigger] all[0].lines[t]).line_type == if t
                    < old.len() {
                    LineType::Deletion
                } else {
                    LineType::Addition
                }
            &&& forall|t: int|
                0 <= t < all[0].lines.len() ==> (#[trigger] all[0].lines[t]).content == if t
                    < old.len() {
                    old[t]
                } else {
                    new[t - old.len()]
                }
        }),
{
    if old.len() == 0 && new.len() == 0 {
        assert(old.len() * new.len() == 0);
    }
}

/// One more line on a side adds no line in common or one.
proof fn lemma_lcs_steps(old: Seq<Seq<char>>, new: Seq<Seq<char>>, i: nat, j: nat)
    ensures
        i > 0 ==> hunks::lcs(old, new, (i - 1) as nat, j) <= hunks::lcs(old, new, i, j)
            <= hunks::lcs(old, new, (i - 1) as nat, j) + 1,
        j > 0 ==> hunks::lcs(old, new, i, (j - 1) as nat) <= hunks::lcs(old, new, i, j)
            <= hunks::lcs(old, new, i, (j - 1) as nat) + 1,
    decreases i + j,
{
    if i > 0 && j > 0 {
        lemma_lcs_steps(old, new, (i - 1) as nat, j);
        lemma_lcs_steps(old, new, i, (j - 1) as nat);
        lemma_lcs_steps(old, new, (i - 1) as nat, (j - 1) as nat);
    }
}

/// Whether a deletion comes directly after an insertion.
spec fn deletes_late(edits: Seq<(EditOp, int, int)>, t: int) -> bool {
    edits[t].0 == EditOp::Delete && edits[t - 1].0 == EditOp::Insert
}

/// Whether no deletion comes directly after an insertion.
spec fn deletes_first(edits: Seq<(EditOp, int, int)>) -> bool {
    forall|t: int| 0 < t < edits.len() ==> !#[trigger] deletes_late(edits, t)
}

/// An edit script deletes before it inserts.
proof fn lemma_script_deletes_first(
    old: Seq<Seq<char>>,
    new: Seq<Seq<char>>,
    i: nat,
    j: nat,
)
    requires
        i <= old.len(),
        j <= new.len(),
    ensures
        deletes_first(hunks::script(old, new, i, j)),
        hunks::script(old, new, i, j).len() > 0 && hunks::script(old, new, i, j).last().0
            == EditOp::Insert ==> j > 0 && hunks::lcs(old, new, i, j) == hunks::lcs(
            old,
            new,
            i,
            (j - 1) as nat,
        ),
    decreases i + j,
{
    let s = hunks::script(old, new, i, j);
    if i > 0 || j > 0 {
        let rest = s.drop_last();
        if i > 0 && j > 0 && old[i - 1] == new[j - 1] {
            lemma_script_deletes_first(old, new, (i - 1) as nat, (j - 1) as nat);
            assert(rest == hunks::script(old, new, (i - 1) as nat, (j - 1) as nat));
        } else if j > 0 && (i == 0 || hunks::lcs(old, new, i, (j - 1) as nat) >= hunks::lcs(
            old,
            new,
            (i - 1) as nat,
            j,
        )) {
            lemma_script_deletes_first(old, new, i, (j - 1) as nat);
            assert(rest == hunks::script(old, new, i, (j - 1) as nat));
        } else {
            lemma_script_deletes_first(old, new, (i - 1) as nat, j);
            assert(rest == hunks::script(old, new, (i - 1) as nat, j));
            if j > 0 {
                lemma_lcs_steps(old, new, i, (j - 1) as nat);
            }
        }
        assert forall|t: int| 0 < t < s.len() implies !#[trigger] deletes_late(s, t) by {
            assert(s[t - 1] == rest[t - 1]);
            if t < rest.len() {
                assert(!deletes_late(rest, t));
                assert(s[t] == rest[t]);
            }
        }
    }
}

/// Whether a deleted line comes directly after an added one.
pub open spec fn deleted_late(lines: Seq<DiffLineView>, t: int) -> bool {
    lines[t].line_type == LineType::Deletion && lines[t - 1].line_type == LineType::Addition
}

/// Whether in a hunk no deleted line comes directly after an added one.
pub open spec fn deleted_first(lines: Seq<DiffLineView>) -> bool {
    forall|t: int| 0 < t < lines.len() ==> !#[trigger] deleted_late(lines, t)
}

/// A stretch of edits that deletes first shows deleted lines first.
proof fn lemma_stretch_deletes_first(
    edits: Seq<(EditOp, int, int)>,
    old: Seq<Seq<char>>,
    new: Seq<Seq<char>>,
    a: int,
    b: int,
)
    requires
        connected(edits),
        forall|k: int| 0 <= k < edits.len() ==> edit_ok(#[trigger] edits[k], old, new),
        deletes_first(edits),
        0 <= a < b <= edits.len(),
    ensures
        deleted_first(hunks::edit_lines(edits.subrange(a, b), old, new)),
{
    let lines = hunks::edit_lines(edits.subrange(a, b), old, new);
    lemma_stretch_counts(edits, old, new, a, b);
    assert forall|t: int| 0 < t < lines.len() implies !#[trigger] deleted_late(lines, t) by {
        lemma_stretch_line(edits, old, new, a, b, t);
        lemma_stretch_line(edits, old, new, a, b, t - 1);
        assert(!deletes_late(edits, a + t));
    }
}

/// The hunks from a position on show deleted lines before added ones.
proof fn lemma_hunks_delete_first(
    edits: Seq<(EditOp, int, int)>,
    old: Seq<Seq<char>>,
    new: Seq<Seq<char>>,
    from: int,
    context: nat,
)
    requires
        connected(edits),
        forall|k: int| 0 <= k < edits.len() ==> edit_ok(#[trigger] edits[k], old, new),
        deletes_first(edits),
        0 <= from <= edits.len(),
    ensures
        forall|i: int|
            0 <= i < hunks::hunks_from(edits, old, new, from, context).len() ==> deleted_first(
                (#[trigger] hunks::hunks_from(edits, old, new, from, context)[i]).lines,
            ),
    decreases edits.len() - from,
{
    hunks::lemma_first_change(edits, from);
    let first = hunks::first_change(edits, from);
    if first < edits.len() {
        hunks::lemma_run_last(edits, first, context);
        let last = hunks::run_last(edits, first, context);
        lemma_hunks_delete_first(edits, old, new, last + 1, context);
        let a = if first > context {
            first - context
        } else {
            0
        };
        let b = if last + context + 1 < edits.len() {
            last + context + 1
        } else {
            edits.len() as int
        };
        lemma_stretch_deletes_first(edits, old, new, a, b);
        let one = hunks::hunk(edits, old, new, first, last, context);
        assert(one.lines == hunks::edit_lines(edits.subrange(a, b), old, new));
        let all = hunks::hunks_from(edits, old, new, from, context);
        let rest = hunks::hunks_from(edits, old, new, last + 1, context);
        assert(all == seq![one] + rest);
        assert forall|i: int| 0 <= i < all.len() implies deleted_first(
            (#[trigger] all[i]).lines,
        ) by {
            if i > 0 {
                assert(all[i] == rest[i - 1]);
            }
        }
    }
}

/// What was there is shown before what takes its place: in no hunk does a deleted line
/// come directly after an added one.
pub proof fn law_deleted_lines_come_first(
    old: Seq<Seq<char>>,
    new: Seq<Seq<char>>,
    context: nat,
    i: int,
)
    requires
        0 <= i < hunks::diff_hunks(old, new, context).len(),
    ensures
        deleted_first(hunks::diff_hunks(old, new, context)[i].lines),
{
    if old.len() * new.len() > hunks::MAX_PAIRS {
        assert(deleted_first(hunks::deletions(old) + hunks::additions(new)));
    } else {
        let edits = hunks::script(old, new, old.len(), new.len());
        law_script_transforms(old, new, old.len(), new.len());
        lemma_script_connected(old, new, old.len(), new.len());
        lemma_script_deletes_first(old, new, old.len(), new.len());
        lemma_hunks_delete_first(edits, old, new, 0, context);
    }
}

/// What is in common and how to get from one side to the other does not depend on the
/// lines after.
proof fn lemma_script_of_beginnings(
    old: Seq<Seq<char>>,
    new: Seq<Seq<char>>,
    longer: Seq<Seq<char>>,
    other: Seq<Seq<char>>,
    i: nat,
    j: nat,
)
    requires
        i <= old.len() <= longer.len(),
        j <= new.len() <= other.len(),
        forall|t: int| 0 <= t < old.len() ==> old[t] == #[trigger] longer[t],
        forall|t: int| 0 <= t < new.len() ==> new[t] == #[trigger] other[t],
    ensures
        hunks::lcs(old, new, i, j) == hunks::lcs(longer, other, i, j),
        hunks::script(old, new, i, j) == hunks::script(longer, other, i, j),
    decreases i + j,
{
    if i > 0 {
        assert(old[i - 1] == longer[i - 1]);
        lemma_script_of_beginnings(old, new, longer, other, (i - 1) as nat, j);
    }
    if j > 0 {
        assert(new[j - 1] == other[j - 1]);
        lemma_script_of_beginnings(old, new, longer, other, i, (j - 1) as nat);
    }
    if i > 0 && j > 0 {
        lemma_script_of_beginnings(old, new, longer, other, (i - 1) as nat, (j - 1) as nat);
    }
}

/// The same edits show the same lines where both sides begin alike.
proof fn lemma_lines_of_beginnings(
    edits: Seq<(EditOp, int, int)>,
    old: Seq<Seq<char>>,
    new: Seq<Seq<char>>,
    longer: Seq<Seq<char>>,
    other: Seq<Seq<char>>,
    n: int,
)
    requires
        0 <= n <= edits.len(),
        old.len() <= longer.len(),
        new.len() <= other.len(),
        forall|t: int| 0 <= t < old.len() ==> old[t] == #[trigger] longer[t],
        forall|t: int| 0 <= t < new.len() ==> new[t] == #[trigger] other[t],
        forall|k: int| 0 <= k < edits.len() ==> edit_ok(#[trigger] edits[k], old, new),
    ensures
        hunks::edit_lines(edits.subrange(0, n), old, new) == hunks::edit_lines(
            edits.subrange(0, n),
            longer,
            other,
        ),
    decreases n,
{
    if n > 0 {
        let e = edits[n - 1];
        assert(edit_ok(e, old, new));
        if e.0 != EditOp::Insert {
            assert(old[e.1] == longer[e.1]);
        }
        if e.0 != EditOp::Delete {
            assert(new[e.2] == other[e.2]);
        }
        assert(edit_ok(e, longer, other));
        lemma_lines_of_beginnings(edits, old, new, longer, other, n - 1);
        lemma_one_more_edit(edits, old, new, 0, n);
        lemma_one_more_edit(edits, longer, other, 0, n);
    } else {
        assert(edits.subrange(0, 0).len() == 0);
        assert(hunks::edit_lines(edits.subrange(0, 0), old, new).len() == 0);
        assert(hunks::edit_lines(edits.subrange(0, 0), longer, other).len() == 0);
    }
}

/// A line that both sides end with is kept: what is changed is what is changed without
/// it.
pub proof fn law_common_end_is_kept(
    old: Seq<Seq<char>>,
    new: Seq<Seq<char>>,
    line: Seq<char>,
    context: nat,
)
    requires
        (old.len() + 1) * (new.len() + 1) <= 10_000_000,
    ensures
        shown_changes(hunks::diff_hunks(old.push(line), new.push(line), context))
            == shown_changes(hunks::diff_hunks(old, new, context)),
{
    let longer = old.push(line);
    let other = new.push(line);
    assert(old.len() * new.len() <= (old.len() + 1) * (new.len() + 1)) by (nonlinear_arith);
    law_context_changes_nothing(old, new, context, context);
    law_context_changes_nothing(longer, other, context, context);
    let s = hunks::script(old, new, old.len(), new.len());
    let t = hunks::script(longer, other, longer.len(), other.len());
    lemma_script_of_beginnings(old, new, longer, other, old.len(), new.len());
    assert(t == s.push((EditOp::Equal, old.len() as int, new.len() as int)));
    law_script_transforms(old, new, old.len(), new.len());
    law_script_transforms(longer, other, longer.len(), other.len());
    lemma_lines_of_beginnings(s, old, new, longer, other, s.len() as int);
    assert(s.subrange(0, s.len() as int) == s);
    let n = t.len() as int;
    assert(t.subrange(0, n) == t);
    assert(t.subrange(0, n - 1) == s);
    assert(edit_ok(t[n - 1], longer, other));
    lemma_changed_split(t, longer, other, 0, n - 1, n);
    assert(!hunks::is_change(t[n - 1]));
    lemma_changed_unchanged(t, longer, other, n - 1, n);
    assert(changed_by(t, longer, other, 0, n) =~= changed_by(t, longer, other, 0, n - 1));
}

} // verus!
