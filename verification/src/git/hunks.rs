//! The hunks of a line diff.

use vstd::prelude::*;

use crate::text;

verus! {

/// What a line of a hunk stands for.
#[derive(Debug, Clone, Copy, PartialEq, Eq, Structural)]
pub enum LineType {
    Context,
    Addition,
    Deletion,
}

/// One line of a hunk, with its numbers on the sides it belongs to.
#[derive(Debug, Clone)]
pub struct DiffLine {
    pub content: String,
    pub line_type: LineType,
    pub old_line_no: Option<u32>,
    pub new_line_no: Option<u32>,
}

/// A run of changed lines with the unchanged lines around it.
#[derive(Debug, Clone)]
pub struct DiffHunk {
    pub old_start: u32,
    pub old_lines: u32,
    pub new_start: u32,
    pub new_lines: u32,
    pub header: String,
    pub lines: Vec<DiffLine>,
}

/// The value of a [`DiffLine`].
pub struct DiffLineView {
    pub content: Seq<char>,
    pub line_type: LineType,
    pub old_line_no: Option<u32>,
    pub new_line_no: Option<u32>,
}

/// The value of a [`DiffHunk`].
pub struct DiffHunkView {
    pub old_start: u32,
    pub old_lines: u32,
    pub new_start: u32,
    pub new_lines: u32,
    pub header: Seq<char>,
    pub lines: Seq<DiffLineView>,
}

impl DeepView for DiffLine {
    type V = DiffLineView;

    open spec fn deep_view(&self) -> DiffLineView {
        DiffLineView {
            content: self.content@,
            line_type: self.line_type,
            old_line_no: self.old_line_no,
            new_line_no: self.new_line_no,
        }
    }
}

impl DeepView for DiffHunk {
    type V = DiffHunkView;

    open spec fn deep_view(&self) -> DiffHunkView {
        DiffHunkView {
            old_start: self.old_start,
            old_lines: self.old_lines,
            new_start: self.new_start,
            new_lines: self.new_lines,
            header: self.header@,
            lines: self.lines.deep_view(),
        }
    }
}

/// One step of turning the old lines into the new ones. An edit pairs it with
/// the positions that both sides have reached.
#[derive(Debug, Clone, Copy, PartialEq, Eq, Structural)]
pub enum EditOp {
    Equal,
    Insert,
    Delete,
}

/// A count as it fits into 32 bits.
pub open spec fn low32(n: int) -> u32 {
    (n % 0x1_0000_0000) as u32
}

/// The low 32 bits of a count.
pub(crate) fn to_low32(n: usize) -> (r: u32)
    ensures
        r == low32(n as int),
{
    (n as u64 % 0x1_0000_0000) as u32
}

/// The line number of the line at position `i`.
fn line_number(i: usize) -> (r: u32)
    ensures
        r == low32(i + 1),
{
    ((i as u128 + 1) % 0x1_0000_0000) as u32
}

/// The number of lines in the longest sequence of lines that the first `i` old
/// and the first `j` new lines have in common.
pub open spec fn lcs(old: Seq<Seq<char>>, new: Seq<Seq<char>>, i: nat, j: nat) -> nat
    decreases i + j,
{
    if i == 0 || j == 0 {
        0
    } else if old[i - 1] == new[j - 1] {
        lcs(old, new, (i - 1) as nat, (j - 1) as nat) + 1
    } else {
        let a = lcs(old, new, (i - 1) as nat, j);
        let b = lcs(old, new, i, (j - 1) as nat);
        if a >= b {
            a
        } else {
            b
        }
    }
}

/// The edits that turn the first `i` old lines into the first `j` new ones:
/// equal last lines are kept, and otherwise the last new line is inserted
/// unless deleting the last old line keeps more lines in common.
pub open spec fn script(old: Seq<Seq<char>>, new: Seq<Seq<char>>, i: nat, j: nat) -> Seq<
    (EditOp, int, int),
>
    decreases i + j,
{
    if i == 0 && j == 0 {
        Seq::empty()
    } else if i > 0 && j > 0 && old[i - 1] == new[j - 1] {
        script(old, new, (i - 1) as nat, (j - 1) as nat).push((EditOp::Equal, i - 1, j - 1))
    } else if j > 0 && (i == 0 || lcs(old, new, i, (j - 1) as nat) >= lcs(
        old,
        new,
        (i - 1) as nat,
        j,
    )) {
        script(old, new, i, (j - 1) as nat).push((EditOp::Insert, i as int, j - 1))
    } else {
        script(old, new, (i - 1) as nat, j).push((EditOp::Delete, i - 1, j as int))
    }
}

/// The line that an edit contributes to a hunk, if its position is one of the
/// lines it speaks of.
pub open spec fn edit_line(
    edit: (EditOp, int, int),
    old: Seq<Seq<char>>,
    new: Seq<Seq<char>>,
) -> Option<DiffLineView> {
    match edit.0 {
        EditOp::Equal => if edit.1 < old.len() {
            Some(
                DiffLineView {
                    content: old[edit.1],
                    line_type: LineType::Context,
                    old_line_no: Some(low32(edit.1 + 1)),
                    new_line_no: Some(low32(edit.2 + 1)),
                },
            )
        } else {
            None
        },
        EditOp::Delete => if edit.1 < old.len() {
            Some(
                DiffLineView {
                    content: old[edit.1],
                    line_type: LineType::Deletion,
                    old_line_no: Some(low32(edit.1 + 1)),
                    new_line_no: None,
                },
            )
        } else {
            None
        },
        EditOp::Insert => if edit.2 < new.len() {
            Some(
                DiffLineView {
                    content: new[edit.2],
                    line_type: LineType::Addition,
                    old_line_no: None,
                    new_line_no: Some(low32(edit.2 + 1)),
                },
            )
        } else {
            None
        },
    }
}

/// The lines that the edits contribute.
pub open spec fn edit_lines(
    edits: Seq<(EditOp, int, int)>,
    old: Seq<Seq<char>>,
    new: Seq<Seq<char>>,
) -> Seq<DiffLineView> {
    edits.filter_map(|e: (EditOp, int, int)| edit_line(e, old, new))
}

/// The number of lines of the given type.
pub open spec fn count_type(lines: Seq<DiffLineView>, t: LineType) -> nat
    decreases lines.len(),
{
    if lines.len() == 0 {
        0
    } else {
        count_type(lines.drop_last(), t) + if lines.last().line_type == t {
            1nat
        } else {
            0
        }
    }
}

/// A hunk's header line.
pub open spec fn header(old_start: nat, old_lines: nat, new_start: nat, new_lines: nat) -> Seq<
    char,
> {
    "@@ -"@ + text::decimal(old_start) + ","@ + text::decimal(old_lines) + " +"@ + text::decimal(
        new_start,
    ) + ","@ + text::decimal(new_lines) + " @@"@
}

/// Whether an edit changes something.
pub open spec fn is_change(edit: (EditOp, int, int)) -> bool {
    edit.0 != EditOp::Equal
}

/// The position of the first change at or after `from`, or the number of edits
/// when there is none.
pub open spec fn first_change(edits: Seq<(EditOp, int, int)>, from: int) -> int
    decreases edits.len() - from,
{
    if from >= edits.len() {
        edits.len() as int
    } else if is_change(edits[from]) {
        from
    } else {
        first_change(edits, from + 1)
    }
}

/// [`first_change`] stops at the first change.
pub proof fn lemma_first_change(edits: Seq<(EditOp, int, int)>, from: int)
    requires
        0 <= from <= edits.len(),
    ensures
        from <= first_change(edits, from) <= edits.len(),
        first_change(edits, from) < edits.len() ==> is_change(edits[first_change(edits, from)]),
        forall|k: int| from <= k < first_change(edits, from) ==> !is_change(#[trigger] edits[k]),
    decreases edits.len() - from,
{
    if from < edits.len() && !is_change(edits[from]) {
        lemma_first_change(edits, from + 1);
    }
}

/// The last change of the run that the change at `c` begins: changes belong to
/// one run while at most `context` unchanged lines lie between them.
pub open spec fn run_last(edits: Seq<(EditOp, int, int)>, c: int, context: nat) -> int
    decreases edits.len() - c,
{
    if 0 <= c < edits.len() {
        proof {
            lemma_first_change(edits, c + 1);
        }
        let next = first_change(edits, c + 1);
        if next < edits.len() && next - c <= context + 1 {
            run_last(edits, next, context)
        } else {
            c
        }
    } else {
        c
    }
}

/// The run that the change at `c` begins ends at a change.
pub proof fn lemma_run_last(edits: Seq<(EditOp, int, int)>, c: int, context: nat)
    requires
        0 <= c < edits.len(),
        is_change(edits[c]),
    ensures
        c <= run_last(edits, c, context) < edits.len(),
        is_change(edits[run_last(edits, c, context)]),
    decreases edits.len() - c,
{
    lemma_first_change(edits, c + 1);
    let next = first_change(edits, c + 1);
    if next < edits.len() && next - c <= context + 1 {
        lemma_run_last(edits, next, context);
    }
}

/// The hunk that shows the edits from `context` before the change at `first` to
/// `context` after the change at `last`.
pub open spec fn hunk(
    edits: Seq<(EditOp, int, int)>,
    old: Seq<Seq<char>>,
    new: Seq<Seq<char>>,
    first: int,
    last: int,
    context: nat,
) -> DiffHunkView {
    let a = if first > context {
        first - context
    } else {
        0
    };
    let b = if last + context + 1 < edits.len() {
        last + context + 1
    } else {
        edits.len() as int
    };
    let lines = edit_lines(edits.subrange(a, b), old, new);
    let old_start = low32(edits[a].1 + 1);
    let new_start = low32(edits[a].2 + 1);
    let old_lines = low32(lines.len() - count_type(lines, LineType::Addition));
    let new_lines = low32(lines.len() - count_type(lines, LineType::Deletion));
    DiffHunkView {
        old_start,
        old_lines,
        new_start,
        new_lines,
        header: header(old_start as nat, old_lines as nat, new_start as nat, new_lines as nat),
        lines,
    }
}

/// The hunks for the changes at or after `from`, one for each run.
pub open spec fn hunks_from(
    edits: Seq<(EditOp, int, int)>,
    old: Seq<Seq<char>>,
    new: Seq<Seq<char>>,
    from: int,
    context: nat,
) -> Seq<DiffHunkView>
    decreases edits.len() - from,
{
    if 0 <= from <= edits.len() {
        proof {
            lemma_first_change(edits, from);
        }
        let first = first_change(edits, from);
        if first >= edits.len() {
            Seq::empty()
        } else {
            proof {
                lemma_run_last(edits, first, context);
            }
            let last = run_last(edits, first, context);
            seq![hunk(edits, old, new, first, last, context)] + hunks_from(
                edits,
                old,
                new,
                last + 1,
                context,
            )
        }
    } else {
        Seq::empty()
    }
}

/// The lines that show every old line as deleted.
pub open spec fn deletions(old: Seq<Seq<char>>) -> Seq<DiffLineView> {
    Seq::new(
        old.len(),
        |i: int|
            DiffLineView {
                content: old[i],
                line_type: LineType::Deletion,
                old_line_no: Some(low32(i + 1)),
                new_line_no: None,
            },
    )
}

/// The lines that show every new line as added.
pub open spec fn additions(new: Seq<Seq<char>>) -> Seq<DiffLineView> {
    Seq::new(
        new.len(),
        |i: int|
            DiffLineView {
                content: new[i],
                line_type: LineType::Addition,
                old_line_no: None,
                new_line_no: Some(low32(i + 1)),
            },
    )
}

/// The hunks of the plain diff, which drops all old lines and adds all new ones.
pub open spec fn simple_hunks(old: Seq<Seq<char>>, new: Seq<Seq<char>>) -> Seq<DiffHunkView> {
    if old.len() == 0 && new.len() == 0 {
        Seq::empty()
    } else {
        seq![
            DiffHunkView {
                old_start: 1,
                old_lines: low32(old.len() as int),
                new_start: 1,
                new_lines: low32(new.len() as int),
                header: header(1, old.len(), 1, new.len()),
                lines: deletions(old) + additions(new),
            },
        ]
    }
}

/// Up to this many pairs of an old and a new line are compared.
pub const MAX_PAIRS: usize = 10_000_000;

/// The hunks of a diff: the plain diff where there are too many pairs of lines
/// to compare, and otherwise the edits that keep the most lines.
pub open spec fn diff_hunks(old: Seq<Seq<char>>, new: Seq<Seq<char>>, context: nat) -> Seq<
    DiffHunkView,
> {
    if old.len() * new.len() > MAX_PAIRS {
        simple_hunks(old, new)
    } else {
        hunks_from(script(old, new, old.len(), new.len()), old, new, 0, context)
    }
}

/// Edits with their positions as mathematical integers.
pub open spec fn edit_values(edits: Seq<(EditOp, usize, usize)>) -> Seq<(EditOp, int, int)> {
    edits.map_values(|e: (EditOp, usize, usize)| (e.0, e.1 as int, e.2 as int))
}

/// The line for an edit, [`edit_line`].
fn line_of_edit(edit: (EditOp, usize, usize), old: &[&str], new: &[&str]) -> (r: Option<DiffLine>)
    ensures
        r.deep_view() == edit_line(
            (edit.0, edit.1 as int, edit.2 as int),
            old.deep_view(),
            new.deep_view(),
        ),
{
    match edit.0 {
        EditOp::Equal => if edit.1 < old.len() {
            Some(
                DiffLine {
                    content: old[edit.1].to_owned(),
                    line_type: LineType::Context,
                    old_line_no: Some(line_number(edit.1)),
                    new_line_no: Some(line_number(edit.2)),
                },
            )
        } else {
            None
        },
        EditOp::Delete => if edit.1 < old.len() {
            Some(
                DiffLine {
                    content: old[edit.1].to_owned(),
                    line_type: LineType::Deletion,
                    old_line_no: Some(line_number(edit.1)),
                    new_line_no: None,
                },
            )
        } else {
            None
        },
        EditOp::Insert => if edit.2 < new.len() {
            Some(
                DiffLine {
                    content: new[edit.2].to_owned(),
                    line_type: LineType::Addition,
                    old_line_no: None,
                    new_line_no: Some(line_number(edit.2)),
                },
            )
        } else {
            None
        },
    }
}

/// The [`header`] line of a hunk.
fn hunk_header(old_start: u64, old_lines: u64, new_start: u64, new_lines: u64) -> (r: String)
    ensures
        r@ == header(old_start as nat, old_lines as nat, new_start as nat, new_lines as nat),
{
    let mut out = "@@ -".to_owned();
    out.append(text::to_decimal(old_start).as_str());
    out.append(",");
    out.append(text::to_decimal(old_lines).as_str());
    out.append(" +");
    out.append(text::to_decimal(new_start).as_str());
    out.append(",");
    out.append(text::to_decimal(new_lines).as_str());
    out.append(" @@");
    out
}

/// The [`hunk`] around the run of changes from `first` to `last`.
fn build_hunk(
    edits: &[(EditOp, usize, usize)],
    old: &[&str],
    new: &[&str],
    first: usize,
    last: usize,
    context: usize,
) -> (r: DiffHunk)
    requires
        first <= last < edits@.len(),
    ensures
        r.deep_view() == hunk(
            edit_values(edits@),
            old.deep_view(),
            new.deep_view(),
            first as int,
            last as int,
            context as nat,
        ),
{
    let a: usize = if first > context {
        first - context
    } else {
        0
    };
    let b: usize = if context < edits.len() - last - 1 {
        last + context + 1
    } else {
        edits.len()
    };
    let ghost values = edit_values(edits@);
    let ghost part = values.subrange(a as int, b as int);
    let mut lines: Vec<DiffLine> = Vec::new();
    let mut old_lines: usize = 0;
    let mut new_lines: usize = 0;
    let mut k: usize = a;
    assert(part.take(0) == Seq::<(EditOp, int, int)>::empty());
    assert(lines.deep_view() == edit_lines(part.take(0), old.deep_view(), new.deep_view()));
    while k < b
        invariant
            a <= k <= b <= edits@.len(),
            values == edit_values(edits@),
            part == values.subrange(a as int, b as int),
            lines.deep_view() == edit_lines(part.take(k - a), old.deep_view(), new.deep_view()),
            lines@.len() <= k - a,
            old_lines == lines@.len() - count_type(lines.deep_view(), LineType::Addition),
            new_lines == lines@.len() - count_type(lines.deep_view(), LineType::Deletion),
        decreases b - k,
    {
        let ghost before = lines.deep_view();
        proof {
            part.lemma_filter_map_take_succ(
                |e: (EditOp, int, int)| edit_line(e, old.deep_view(), new.deep_view()),
                k - a,
            );
        }
        match line_of_edit(edits[k], old, new) {
            Some(line) => {
                match line.line_type {
                    LineType::Context => {
                        old_lines = old_lines + 1;
                        new_lines = new_lines + 1;
                    },
                    LineType::Addition => {
                        new_lines = new_lines + 1;
                    },
                    LineType::Deletion => {
                        old_lines = old_lines + 1;
                    },
                }
                lines.push(line);
                proof {
                    assert(lines.deep_view() == before.push(line.deep_view()));
                    assert(lines.deep_view().drop_last() == before);
                    assert(before + seq![line.deep_view()] == before.push(line.deep_view()));
                }
            },
            None => {
                assert(before + Seq::<DiffLineView>::empty() == before);
            },
        }
        k = k + 1;
    }
    assert(part.take(b - a) == part);
    let old_start = line_number(edits[a].1);
    let new_start = line_number(edits[a].2);
    let old_count = to_low32(old_lines);
    let new_count = to_low32(new_lines);
    DiffHunk {
        old_start,
        old_lines: old_count,
        new_start,
        new_lines: new_count,
        header: hunk_header(old_start as u64, old_count as u64, new_start as u64, new_count as u64),
        lines,
    }
}

/// Group edits into hunks, each with up to `context` unchanged lines before its
/// first and after its last change.
pub fn group_edits_into_hunks(
    edits: &[(EditOp, usize, usize)],
    old: &[&str],
    new: &[&str],
    context: usize,
) -> (r: Vec<DiffHunk>)
    ensures
        r.deep_view() == hunks_from(
            edit_values(edits@),
            old.deep_view(),
            new.deep_view(),
            0,
            context as nat,
        ),
{
    let ghost values = edit_values(edits@);
    let ghost olds = old.deep_view();
    let ghost news = new.deep_view();
    let mut hunks: Vec<DiffHunk> = Vec::new();
    let mut from: usize = 0;
    assert(hunks.deep_view() + hunks_from(values, olds, news, 0, context as nat) == hunks_from(
        values,
        olds,
        news,
        0,
        context as nat,
    ));
    while from < edits.len()
        invariant
            values == edit_values(edits@),
            olds == old.deep_view(),
            news == new.deep_view(),
            from <= edits@.len(),
            hunks.deep_view() + hunks_from(values, olds, news, from as int, context as nat)
                == hunks_from(values, olds, news, 0, context as nat),
        decreases edits.len() - from,
    {
        if edits[from].0 == EditOp::Equal {
            assert(hunks_from(values, olds, news, from as int, context as nat) == hunks_from(
                values,
                olds,
                news,
                from + 1,
                context as nat,
            ));
            from = from + 1;
        } else {
            let first: usize = from;
            let mut last: usize = from;
            let mut next: usize = from + 1;
            assert(first_change(values, from as int) == from);
            while next < edits.len() && (edits[next].0 != EditOp::Equal || next - last <= context)
                invariant
                    values == edit_values(edits@),
                    first <= last < next <= edits@.len(),
                    is_change(values[last as int]),
                    first_change(values, last + 1) == first_change(values, next as int),
                    next - last <= context + 1,
                    run_last(values, last as int, context as nat) == run_last(
                        values,
                        first as int,
                        context as nat,
                    ),
                decreases edits.len() - next,
            {
                if edits[next].0 != EditOp::Equal {
                    last = next;
                }
                next = next + 1;
            }
            proof {
                lemma_first_change(values, next as int);
                assert(run_last(values, last as int, context as nat) == last);
            }
            let built = build_hunk(edits, old, new, first, last, context);
            let ghost before = hunks.deep_view();
            hunks.push(built);
            proof {
                assert(hunks.deep_view() == before.push(built.deep_view()));
                assert(before.push(built.deep_view()) + hunks_from(
                    values,
                    olds,
                    news,
                    last + 1,
                    context as nat,
                ) == before + hunks_from(values, olds, news, from as int, context as nat));
            }
            from = last + 1;
        }
    }
    assert(hunks.deep_view() + Seq::<DiffHunkView>::empty() == hunks.deep_view());
    hunks
}

/// The plain diff, for files too large to compare line by line: all old lines
/// deleted, all new lines added.
pub fn simple_diff_hunks(old: &[&str], new: &[&str]) -> (r: Vec<DiffHunk>)
    ensures
        r.deep_view() == simple_hunks(old.deep_view(), new.deep_view()),
{
    let ghost olds = old.deep_view();
    let ghost news = new.deep_view();
    let mut lines: Vec<DiffLine> = Vec::new();
    let mut i: usize = 0;
    while i < old.len()
        invariant
            olds == old.deep_view(),
            i <= old@.len(),
            lines.deep_view() == deletions(olds).take(i as int),
        decreases old.len() - i,
    {
        let ghost before = lines.deep_view();
        let line = DiffLine {
            content: old[i].to_owned(),
            line_type: LineType::Deletion,
            old_line_no: Some(line_number(i)),
            new_line_no: None,
        };
        lines.push(line);
        i = i + 1;
        assert(lines.deep_view() == before.push(line.deep_view()));
        assert(lines.deep_view() == deletions(olds).take(i as int));
    }
    let mut j: usize = 0;
    while j < new.len()
        invariant
            olds == old.deep_view(),
            news == new.deep_view(),
            j <= new@.len(),
            lines.deep_view() == deletions(olds) + additions(news).take(j as int),
        decreases new.len() - j,
    {
        let ghost before = lines.deep_view();
        let line = DiffLine {
            content: new[j].to_owned(),
            line_type: LineType::Addition,
            old_line_no: None,
            new_line_no: Some(line_number(j)),
        };
        lines.push(line);
        j = j + 1;
        assert(lines.deep_view() == before.push(line.deep_view()));
        assert(lines.deep_view() == deletions(olds) + additions(news).take(j as int));
    }
    assert(additions(news).take(news.len() as int) == additions(news));
    let mut hunks: Vec<DiffHunk> = Vec::new();
    if lines.len() == 0 {
        assert(hunks.deep_view() == simple_hunks(olds, news));
        return hunks;
    }
    let only = DiffHunk {
        old_start: 1,
        old_lines: to_low32(old.len()),
        new_start: 1,
        new_lines: to_low32(new.len()),
        header: hunk_header(1, old.len() as u64, 1, new.len() as u64),
        lines,
    };
    hunks.push(only);
    assert(hunks.deep_view() == seq![only.deep_view()]);
    hunks
}

/// Whether there are more than [`MAX_PAIRS`] pairs of one of `m` and one of `n`.
fn too_many_pairs(m: usize, n: usize) -> (r: bool)
    ensures
        r == (m * n > MAX_PAIRS),
{
    if m == 0 {
        assert(m * n == 0) by (nonlinear_arith)
            requires
                m == 0,
        ;
        return false;
    }
    let most: usize = MAX_PAIRS / m;
    proof {
        assert(most * m <= MAX_PAIRS < (most + 1) * m) by (nonlinear_arith)
            requires
                most == MAX_PAIRS as int / m as int,
                m > 0,
        ;
        if n > most {
            assert(m * n >= (most + 1) * m) by (nonlinear_arith)
                requires
                    n >= most + 1,
                    m > 0,
            ;
        } else {
            assert(m * n <= most * m) by (nonlinear_arith)
                requires
                    n <= most,
                    m > 0,
            ;
        }
    }
    n > most
}

/// The table of [`lcs`] for all numbers of old and of new lines.
fn lcs_table(old: &[&str], new: &[&str]) -> (r: Vec<Vec<usize>>)
    requires
        old@.len() < usize::MAX,
        new@.len() < usize::MAX,
    ensures
        r@.len() == old@.len() + 1,
        forall|i: int|
            0 <= i <= old@.len() ==> (#[trigger] r@[i])@.len() == new@.len() + 1,
        forall|i: int, j: int|
            0 <= i <= old@.len() && 0 <= j <= new@.len() ==> #[trigger] r@[i]@[j] == lcs(
                old.deep_view(),
                new.deep_view(),
                i as nat,
                j as nat,
            ),
{
    let ghost olds = old.deep_view();
    let ghost news = new.deep_view();
    let mut table: Vec<Vec<usize>> = Vec::new();
    let mut i: usize = 0;
    while i <= old.len()
        invariant
            olds == old.deep_view(),
            news == new.deep_view(),
            old@.len() < usize::MAX,
            new@.len() < usize::MAX,
            i <= old@.len() + 1,
            table@.len() == i,
            forall|a: int| 0 <= a < i ==> (#[trigger] table@[a])@.len() == new@.len() + 1,
            forall|a: int, b: int|
                0 <= a < i && 0 <= b <= new@.len() ==> #[trigger] table@[a]@[b] == lcs(
                    olds,
                    news,
                    a as nat,
                    b as nat,
                ),
        decreases old@.len() + 1 - i,
    {
        let mut row: Vec<usize> = Vec::new();
        let mut j: usize = 0;
        while j <= new.len()
            invariant
                olds == old.deep_view(),
                news == new.deep_view(),
                old@.len() < usize::MAX,
                new@.len() < usize::MAX,
                i <= old@.len(),
                table@.len() == i,
                forall|a: int| 0 <= a < i ==> (#[trigger] table@[a])@.len() == new@.len() + 1,
                forall|a: int, b: int|
                    0 <= a < i && 0 <= b <= new@.len() ==> #[trigger] table@[a]@[b] == lcs(
                        olds,
                        news,
                        a as nat,
                        b as nat,
                    ),
                j <= new@.len() + 1,
                row@.len() == j,
                forall|b: int|
                    0 <= b < j ==> #[trigger] row@[b] == lcs(olds, news, i as nat, b as nat),
            decreases new@.len() + 1 - j,
        {
            let value: usize = if i == 0 || j == 0 {
                0
            } else if text::same(old[i - 1], new[j - 1]) {
                proof {
                    lemma_lcs_bound(olds, news, (i - 1) as nat, (j - 1) as nat);
                }
                table[i - 1][j - 1] + 1
            } else {
                let above: usize = table[i - 1][j];
                let left: usize = row[j - 1];
                if above >= left {
                    above
                } else {
                    left
                }
            };
            assert(value == lcs(olds, news, i as nat, j as nat));
            row.push(value);
            j = j + 1;
        }
        table.push(row);
        i = i + 1;
    }
    table
}

/// Two lists have at most as many lines in common as either of them has.
pub proof fn lemma_lcs_bound(old: Seq<Seq<char>>, new: Seq<Seq<char>>, i: nat, j: nat)
    ensures
        lcs(old, new, i, j) <= i,
        lcs(old, new, i, j) <= j,
    decreases i + j,
{
    if i > 0 && j > 0 {
        lemma_lcs_bound(old, new, (i - 1) as nat, (j - 1) as nat);
        lemma_lcs_bound(old, new, (i - 1) as nat, j);
        lemma_lcs_bound(old, new, i, (j - 1) as nat);
    }
}

/// The edits of [`script`] for all old and all new lines.
fn edit_script(old: &[&str], new: &[&str]) -> (r: Vec<(EditOp, usize, usize)>)
    requires
        old@.len() > 0 && new@.len() > 0 ==> old@.len() < usize::MAX && new@.len() < usize::MAX,
    ensures
        edit_values(r@) == script(old.deep_view(), new.deep_view(), old@.len(), new@.len()),
{
    let ghost olds = old.deep_view();
    let ghost news = new.deep_view();
    let table: Vec<Vec<usize>> = if old.len() > 0 && new.len() > 0 {
        lcs_table(old, new)
    } else {
        Vec::new()
    };
    let mut backward: Vec<(EditOp, usize, usize)> = Vec::new();
    let mut i: usize = old.len();
    let mut j: usize = new.len();
    assert(script(olds, news, i as nat, j as nat) + edit_values(backward@).reverse() == script(
        olds,
        news,
        i as nat,
        j as nat,
    ));
    while i > 0 || j > 0
        invariant
            olds == old.deep_view(),
            news == new.deep_view(),
            i <= old@.len(),
            j <= new@.len(),
            old@.len() > 0 && new@.len() > 0 ==> {
                &&& table@.len() == old@.len() + 1
                &&& forall|a: int|
                    0 <= a <= old@.len() ==> (#[trigger] table@[a])@.len() == new@.len() + 1
                &&& forall|a: int, b: int|
                    0 <= a <= old@.len() && 0 <= b <= new@.len() ==> #[trigger] table@[a]@[b]
                        == lcs(olds, news, a as nat, b as nat)
            },
            script(olds, news, i as nat, j as nat) + edit_values(backward@).reverse() == script(
                olds,
                news,
                old@.len(),
                new@.len(),
            ),
        decreases i + j,
    {
        let ghost before = edit_values(backward@);
        let ghost whole = script(olds, news, i as nat, j as nat);
        let ghost ii = i as nat;
        let ghost jj = j as nat;
        let edit: (EditOp, usize, usize);
        if i > 0 && j > 0 && text::same(old[i - 1], new[j - 1]) {
            edit = (EditOp::Equal, i - 1, j - 1);
            i = i - 1;
            j = j - 1;
        } else if j > 0 && (i == 0 || table[i][j - 1] >= table[i - 1][j]) {
            edit = (EditOp::Insert, i, j - 1);
            j = j - 1;
        } else {
            edit = (EditOp::Delete, i - 1, j);
            i = i - 1;
        }
        backward.push(edit);
        proof {
            let value = (edit.0, edit.1 as int, edit.2 as int);
            let rest = script(olds, news, i as nat, j as nat);
            assert(whole == rest.push(value));
            assert(edit_values(backward@) == before.push(value));
            assert(before.push(value).reverse() == seq![value] + before.reverse());
            assert(rest.push(value) + before.reverse() == rest + (seq![value] + before.reverse()));
        }
    }
    let mut edits: Vec<(EditOp, usize, usize)> = Vec::new();
    let mut k: usize = backward.len();
    while k > 0
        invariant
            k <= backward@.len(),
            edits@ == backward@.reverse().take(backward@.len() - k),
        decreases k,
    {
        k = k - 1;
        edits.push(backward[k]);
        assert(edits@ == backward@.reverse().take(backward@.len() - k));
    }
    proof {
        assert(edits@ == backward@.reverse());
        assert(edit_values(edits@) == edit_values(backward@).reverse());
        assert(script(olds, news, 0, 0) + edit_values(backward@).reverse() == edit_values(
            backward@,
        ).reverse());
    }
    edits
}

/// Compute the hunks of a diff between two lists of lines.
pub fn compute_diff_hunks(old: &[&str], new: &[&str], context: usize) -> (r: Vec<DiffHunk>)
    ensures
        r.deep_view() == diff_hunks(old.deep_view(), new.deep_view(), context as nat),
{
    if too_many_pairs(old.len(), new.len()) {
        return simple_diff_hunks(old, new);
    }
    proof {
        let m = old@.len() as int;
        let n = new@.len() as int;
        if m > 0 && n > 0 {
            assert(m <= m * n && n <= m * n) by (nonlinear_arith)
                requires
                    m > 0,
                    n > 0,
            ;
        }
    }
    let edits = edit_script(old, new);
    group_edits_into_hunks(&edits, old, new, context)
}

/// The number of lines of one type over all hunks.
pub open spec fn total_type(hunks: Seq<DiffHunkView>, t: LineType) -> nat
    decreases hunks.len(),
{
    if hunks.len() == 0 {
        0
    } else {
        count_type(hunks[0].lines, t) + total_type(hunks.skip(1), t)
    }
}

/// One more, as it fits into 32 bits.
fn next32(count: u32, Ghost(n): Ghost<int>) -> (r: u32)
    requires
        0 <= n,
        count == low32(n),
    ensures
        r == low32(n + 1),
{
    if count == u32::MAX {
        0
    } else {
        count + 1
    }
}

/// The number of lines of one type over all hunks, as it fits into 32 bits.
pub fn count_lines(hunks: &Vec<DiffHunk>, t: LineType) -> (r: u32)
    ensures
        r == low32(total_type(hunks.deep_view(), t) as int),
{
    let ghost all = hunks.deep_view();
    let mut count: u32 = 0;
    let ghost mut seen: nat = 0;
    let mut i: usize = 0;
    assert(all.skip(0) == all);
    while i < hunks.len()
        invariant
            i <= hunks@.len(),
            all == hunks.deep_view(),
            all.len() == hunks@.len(),
            count == low32(seen as int),
            seen + total_type(all.skip(i as int), t) == total_type(all, t),
        decreases hunks.len() - i,
    {
        let ghost rest = all.skip(i as int);
        let ghost before = seen;
        let lines = &hunks[i].lines;
        let ghost views = lines.deep_view();
        let mut j: usize = 0;
        proof {
            assert(rest[0] == hunks@[i as int].deep_view());
            assert(rest.skip(1) == all.skip(i + 1));
            assert(views.take(0).len() == 0);
        }
        while j < lines.len()
            invariant
                j <= lines@.len(),
                views == lines.deep_view(),
                views.len() == lines@.len(),
                count == low32(seen as int),
                seen == before + count_type(views.take(j as int), t),
            decreases lines.len() - j,
        {
            proof {
                assert(views.take(j + 1).drop_last() == views.take(j as int));
                assert(views[j as int] == lines@[j as int].deep_view());
            }
            if lines[j].line_type == t {
                count = next32(count, Ghost(seen as int));
                proof {
                    seen = seen + 1;
                }
            }
            j = j + 1;
        }
        assert(views.take(j as int) == views);
        i = i + 1;
    }
    assert(all.skip(i as int).len() == 0);
    count
}

} // verus!
