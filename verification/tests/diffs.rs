use arbor_git::git::diff::{compute_diff_hunks, LineType};
use arbor_git::git::hunks::simple_diff_hunks;

#[test]
fn test_simple_diff() {
    let old = vec!["line1", "line2", "line3"];
    let new = vec!["line1", "modified", "line3"];

    let hunks = compute_diff_hunks(&old, &new, 3);
    assert!(!hunks.is_empty());
}

#[test]
fn test_addition_diff() {
    let old = vec!["line1", "line2"];
    let new = vec!["line1", "line2", "line3"];

    let hunks = compute_diff_hunks(&old, &new, 3);
    assert!(!hunks.is_empty());

    // Should have an addition
    let has_addition = hunks
        .iter()
        .any(|h| h.lines.iter().any(|l| l.line_type == LineType::Addition));
    assert!(has_addition);
}

#[test]
fn test_deletion_diff() {
    let old = vec!["line1", "line2", "line3"];
    let new = vec!["line1", "line3"];

    let hunks = compute_diff_hunks(&old, &new, 3);
    assert!(!hunks.is_empty());

    let has_deletion = hunks
        .iter()
        .any(|h| h.lines.iter().any(|l| l.line_type == LineType::Deletion));
    assert!(has_deletion);
}

#[test]
fn test_empty_diff() {
    let old: Vec<&str> = vec![];
    let new: Vec<&str> = vec![];

    let hunks = compute_diff_hunks(&old, &new, 3);
    assert!(hunks.is_empty());
}

#[test]
fn a_modified_line_makes_one_exact_hunk() {
    let old = vec!["line1", "line2", "line3"];
    let new = vec!["line1", "modified", "line3"];
    let hunks = compute_diff_hunks(&old, &new, 3);
    assert_eq!(hunks.len(), 1);
    let hunk = &hunks[0];
    assert_eq!(hunk.header, "@@ -1,3 +1,3 @@");
    assert_eq!((hunk.old_start, hunk.old_lines, hunk.new_start, hunk.new_lines), (1, 3, 1, 3));
    let lines: Vec<(LineType, &str, Option<u32>, Option<u32>)> = hunk
        .lines
        .iter()
        .map(|l| (l.line_type, l.content.as_str(), l.old_line_no, l.new_line_no))
        .collect();
    assert_eq!(
        lines,
        vec![
            (LineType::Context, "line1", Some(1), Some(1)),
            (LineType::Deletion, "line2", Some(2), None),
            (LineType::Addition, "modified", None, Some(2)),
            (LineType::Context, "line3", Some(3), Some(3)),
        ]
    );
}

#[test]
fn changes_far_apart_make_two_hunks() {
    let old = vec!["a", "1", "2", "3", "4", "5", "6", "7", "b"];
    let new = vec!["A", "1", "2", "3", "4", "5", "6", "7", "B"];
    let hunks = compute_diff_hunks(&old, &new, 1);
    assert_eq!(hunks.len(), 2);
    assert_eq!(hunks[0].header, "@@ -1,2 +1,2 @@");
    assert_eq!(hunks[1].header, "@@ -8,2 +8,2 @@");
    let joined = compute_diff_hunks(&old, &new, 7);
    assert_eq!(joined.len(), 1);
}

#[test]
fn no_context_shows_changes_alone() {
    let old = vec!["a", "b", "c"];
    let new = vec!["a", "c"];
    let hunks = compute_diff_hunks(&old, &new, 0);
    assert_eq!(hunks.len(), 1);
    assert_eq!(hunks[0].lines.len(), 1);
    assert_eq!(hunks[0].lines[0].content, "b");
    assert_eq!(hunks[0].lines[0].line_type, LineType::Deletion);
}

#[test]
fn equal_sides_have_no_hunks() {
    let same = vec!["a", "b", "b", "c"];
    assert!(compute_diff_hunks(&same, &same, 3).is_empty());
}

#[test]
fn additions_and_deletions_balance() {
    let old = vec!["a", "b", "c", "d", "e"];
    let new = vec!["b", "x", "d", "y", "z", "e"];
    let hunks = compute_diff_hunks(&old, &new, 2);
    let count = |t: LineType| {
        hunks.iter().flat_map(|h| &h.lines).filter(|l| l.line_type == t).count()
    };
    // "b", "d" and "e" are the most that can be kept
    assert_eq!(count(LineType::Deletion), 2);
    assert_eq!(count(LineType::Addition), 3);
}

#[test]
fn the_plain_diff_lists_both_sides() {
    let old = vec!["a", "b"];
    let new = vec!["c"];
    let hunks = simple_diff_hunks(&old, &new);
    assert_eq!(hunks.len(), 1);
    assert_eq!(hunks[0].header, "@@ -1,2 +1,1 @@");
    let contents: Vec<&str> = hunks[0].lines.iter().map(|l| l.content.as_str()).collect();
    assert_eq!(contents, vec!["a", "b", "c"]);
    assert!(simple_diff_hunks(&[], &[]).is_empty());
}

#[test]
fn too_many_pairs_fall_back_to_the_plain_diff() {
    let lines: Vec<String> = (0..3200).map(|i| format!("{i}")).collect();
    let refs: Vec<&str> = lines.iter().map(|s| s.as_str()).collect();
    let hunks = compute_diff_hunks(&refs, &refs, 3);
    assert_eq!(hunks.len(), 1);
    assert_eq!(hunks[0].lines.len(), 6400);
}

#[test]
fn every_hunk_reads_as_both_sides() {
    let old = vec!["a", "b", "c", "d", "e", "f", "g", "h", "i", "j"];
    let new = vec!["x", "a", "c", "d", "e", "f", "g", "h", "y", "j", "k"];
    let hunks = compute_diff_hunks(&old, &new, 1);
    assert_eq!(hunks.len(), 2);
    for hunk in &hunks {
        let side = |left_out: LineType| {
            hunk.lines
                .iter()
                .filter(|l| l.line_type != left_out)
                .map(|l| l.content.as_str())
                .collect::<Vec<_>>()
        };
        let o = hunk.old_start as usize - 1;
        let n = hunk.new_start as usize - 1;
        assert_eq!(side(LineType::Addition), old[o..o + hunk.old_lines as usize]);
        assert_eq!(side(LineType::Deletion), new[n..n + hunk.new_lines as usize]);
    }
    assert_eq!((hunks[0].old_start, hunks[0].old_lines), (1, 3));
    assert_eq!((hunks[0].new_start, hunks[0].new_lines), (1, 3));
}

#[test]
fn the_context_changes_no_line() {
    let old = vec!["a", "b", "c", "d", "e", "f", "g", "h", "i", "j"];
    let new = vec!["x", "a", "c", "d", "e", "f", "g", "h", "y", "j", "k"];
    let changes = |context: usize| -> Vec<(LineType, String, Option<u32>, Option<u32>)> {
        compute_diff_hunks(&old, &new, context)
            .into_iter()
            .flat_map(|hunk| hunk.lines)
            .filter(|line| line.line_type != LineType::Context)
            .map(|line| (line.line_type, line.content, line.old_line_no, line.new_line_no))
            .collect()
    };
    let none = changes(0);
    assert_eq!(none.len(), 5);
    assert_eq!(none[0], (LineType::Addition, "x".to_string(), None, Some(1)));
    for context in [1, 2, 3, 20] {
        assert_eq!(changes(context), none);
    }
}
