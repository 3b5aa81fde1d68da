use diffview::diff::{parse_diff, DiffLine, DiffLineKind, FileDiff, Hunk};
use diffview::render::{build_rows, RowKind, SideRow};
use unicode_width::UnicodeWidthStr;

fn file_with(lines: Vec<DiffLine>) -> FileDiff {
    FileDiff {
        old_path: "x".to_string(),
        new_path: "x".to_string(),
        hunks: vec![Hunk { old_start: 1, new_start: 1, lines }],
        is_binary: false,
        max_old_line: 1,
        max_new_line: 1,
    }
}

fn line(kind: DiffLineKind, old: Option<u32>, new: Option<u32>, text: &str) -> DiffLine {
    DiffLine { kind, old_line: old, new_line: new, text: text.to_string() }
}

fn texts(rows: &[SideRow]) -> Vec<String> {
    rows.iter().map(|r| r.text.clone()).collect()
}

#[test]
fn a_binary_file_is_one_row() {
    let mut f = file_with(vec![]);
    f.is_binary = true;
    let v = build_rows(&f, 10, 10);
    assert_eq!(v.total_rows, 1);
    assert_eq!(v.hunk_starts, vec![0]);
    assert_eq!(texts(&v.left_rows), vec!["Binary file"]);
    assert_eq!(v.right_rows[0].kind, RowKind::Binary);
    assert_eq!(v.right_rows[0].line, None);
}

#[test]
fn sides_follow_the_line_kinds() {
    let f = file_with(vec![
        line(DiffLineKind::Context, Some(1), Some(1), "same"),
        line(DiffLineKind::Del, Some(2), None, "gone"),
        line(DiffLineKind::Add, None, Some(2), "new"),
        line(DiffLineKind::NoNewline, None, None, "No newline at end of file"),
    ]);
    let v = build_rows(&f, 40, 40);
    assert_eq!(texts(&v.left_rows), vec!["same", "gone", "No newline at end of file"]);
    assert_eq!(texts(&v.right_rows), vec!["same", "new", "No newline at end of file"]);
    assert_eq!(v.left_rows[1].kind, RowKind::Del);
    assert_eq!(v.right_rows[1].kind, RowKind::Add);
    assert_eq!(v.left_rows[1].line, Some(2));
    assert_eq!(v.total_rows, 3);
}

#[test]
fn long_lines_wrap_and_number_only_the_first_row() {
    let f = file_with(vec![line(DiffLineKind::Context, Some(7), Some(8), "abcdefghij")]);
    let v = build_rows(&f, 4, 3);
    assert_eq!(texts(&v.left_rows), vec!["abcd", "efgh", "ij"]);
    assert_eq!(texts(&v.right_rows), vec!["abc", "def", "ghi", "j"]);
    assert_eq!(v.left_rows[0].line, Some(7));
    assert_eq!(v.left_rows[1].line, None);
    assert_eq!(v.right_rows[0].line, Some(8));
    assert_eq!(v.total_rows, 4);
}

#[test]
fn wide_characters_count_double() {
    // U+4E2D is two columns wide, so three of them need two rows at width 4.
    let f = file_with(vec![line(DiffLineKind::Add, None, Some(1), "中中中")]);
    let v = build_rows(&f, 4, 4);
    assert_eq!(texts(&v.right_rows), vec!["中中", "中"]);
    // A character wider than the width still gets a row.
    let v = build_rows(&f, 1, 1);
    assert_eq!(texts(&v.right_rows), vec!["中", "中", "中"]);
}

#[test]
fn tabs_expand_to_tab_stops() {
    let f = file_with(vec![line(DiffLineKind::Context, Some(1), Some(1), "a\tb\t\tc")]);
    let v = build_rows(&f, 100, 100);
    assert_eq!(texts(&v.left_rows), vec!["a   b       c"]);
    let f = file_with(vec![line(DiffLineKind::Context, Some(1), Some(1), "\t中\tx")]);
    let v = build_rows(&f, 100, 100);
    assert_eq!(texts(&v.left_rows), vec!["    中  x"]);
}

#[test]
fn zero_width_and_empty_text_give_one_empty_row() {
    let f = file_with(vec![line(DiffLineKind::Context, Some(1), Some(1), "text")]);
    let v = build_rows(&f, 0, 0);
    assert_eq!(texts(&v.left_rows), vec![""]);
    let f = file_with(vec![line(DiffLineKind::Context, Some(1), Some(1), "")]);
    let v = build_rows(&f, 5, 5);
    assert_eq!(texts(&v.left_rows), vec![""]);
}

#[test]
fn hunks_start_where_the_longer_side_ended() {
    let input = "diff --git a/x b/x\n@@ -1 +1 @@\n-a\n+bbbbbbbbbb\n@@ -5 +5 @@\n c\n";
    let diff = parse_diff(input).unwrap();
    let v = build_rows(&diff.files[0], 5, 5);
    assert_eq!(v.left_rows.len(), 2);
    assert_eq!(v.right_rows.len(), 3);
    assert_eq!(v.hunk_starts, vec![0, 2]);
    assert_eq!(v.total_rows, 3);
}

#[test]
fn law_wrap_keeps_text_and_segments_fit() {
    let text = "héllo wörld, 中文字符 and a\ttab";
    let f = file_with(vec![line(DiffLineKind::Context, Some(1), Some(1), text)]);
    for width in 1..12 {
        let v = build_rows(&f, width, width);
        let joined: String = v.left_rows.iter().map(|r| r.text.as_str()).collect();
        let expanded = {
            let mut out = String::new();
            let mut col = 0usize;
            for ch in text.chars() {
                if ch == '\t' {
                    let n = 4 - col % 4;
                    out.extend(std::iter::repeat(' ').take(n));
                    col += n;
                } else {
                    out.push(ch);
                    col += UnicodeWidthStr::width(ch.to_string().as_str()).max(1);
                }
            }
            out
        };
        assert_eq!(joined, expanded);
        for row in &v.left_rows {
            assert!(row.text.chars().count() == 1 || row.text.width() <= width);
        }
    }
}

#[test]
fn law_hunk_starts_are_ordered_and_within_rows() {
    let input = "diff --git a/x b/x\n@@ -1 +1 @@\n-a\n+b\n@@ -3 +3 @@\n c\n@@ -9 +9 @@\n+d\n+e\n";
    let diff = parse_diff(input).unwrap();
    for width in [1, 2, 5] {
        let v = build_rows(&diff.files[0], width, width);
        assert_eq!(v.total_rows, v.left_rows.len().max(v.right_rows.len()));
        for pair in v.hunk_starts.windows(2) {
            assert!(pair[0] <= pair[1]);
        }
        for s in &v.hunk_starts {
            assert!(*s <= v.total_rows);
        }
    }
}

#[test]
fn clone_keeps_the_view() {
    let f = file_with(vec![line(DiffLineKind::Add, None, Some(3), "x")]);
    let v = build_rows(&f, 3, 3);
    let c = v.clone();
    assert_eq!(format!("{:?}", v), format!("{:?}", c));
}

#[test]
fn law_expanded_text_has_no_tabs() {
    let f = file_with(vec![line(DiffLineKind::Context, Some(1), Some(1), "\ta\t\tb\t")]);
    for width in [1, 3, 80] {
        let v = build_rows(&f, width, width);
        assert!(v.left_rows.iter().all(|r| !r.text.contains('\t')));
    }
    let f = file_with(vec![line(DiffLineKind::Context, Some(1), Some(1), "no tabs here")]);
    let v = build_rows(&f, 80, 80);
    assert_eq!(v.left_rows[0].text, "no tabs here");
}

#[test]
fn law_pieces_are_nonempty_and_join_back() {
    let f = file_with(vec![line(DiffLineKind::Context, Some(1), Some(1), "abcde")]);
    let v = build_rows(&f, 2, 5);
    assert_eq!(texts(&v.left_rows), vec!["ab", "cd", "e"]);
    assert_eq!(texts(&v.right_rows), vec!["abcde"]);
    for text in ["abcde", "x", "中a中b", "a\tb", " "] {
        let f = file_with(vec![line(DiffLineKind::Context, Some(1), Some(1), text)]);
        for width in 1..7 {
            let v = build_rows(&f, width, width);
            assert!(!v.left_rows.is_empty());
            for row in &v.left_rows {
                assert!(!row.text.is_empty());
            }
        }
    }
    let f = file_with(vec![line(DiffLineKind::Context, Some(1), Some(1), "")]);
    let v = build_rows(&f, 3, 3);
    assert_eq!(texts(&v.left_rows), vec![""]);
}

#[test]
fn ascii_widths_when_wrapping() {
    // Printable ASCII takes one column each, control characters none.
    let f = file_with(vec![line(DiffLineKind::Context, Some(1), Some(1), "a\u{1}b\u{7f}cd")]);
    let v = build_rows(&f, 2, 3);
    assert_eq!(texts(&v.left_rows), vec!["a\u{1}b\u{7f}", "cd"]);
    assert_eq!(texts(&v.right_rows), vec!["a\u{1}b\u{7f}c", "d"]);
}

#[test]
fn law_tabs_end_on_tab_stops() {
    let text = "ab\tc\t\tdefg\th";
    let f = file_with(vec![line(DiffLineKind::Context, Some(1), Some(1), text)]);
    let v = build_rows(&f, 100, 100);
    let shown = &v.left_rows[0].text;
    assert_eq!(shown, "ab  c       defg    h");
    // The expanded text up to the end of each tab is a whole number of stops.
    let mut produced = 0usize;
    let chars: Vec<char> = shown.chars().collect();
    for ch in text.chars() {
        if ch == '\t' {
            produced += 1;
            while produced % 4 != 0 {
                assert_eq!(chars[produced - 1], ' ');
                produced += 1;
            }
            assert_eq!(produced % 4, 0);
        } else {
            assert_eq!(chars[produced], ch);
            produced += 1;
        }
    }
    assert_eq!(produced, chars.len());
}
