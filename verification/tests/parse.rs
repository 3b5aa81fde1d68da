use diffview::diff::{parse_diff, try_parse_diff, DiffError, DiffLineKind};

const SAMPLE: &str = "diff --git a/src/lib.rs b/src/lib.rs
index 1111111..2222222 100644
--- a/src/lib.rs
+++ b/src/lib.rs
@@ -10,4 +10,5 @@ fn main() {
 keep one
-old line
+new line
+another
 keep two
\\ No newline at end of file
";

#[test]
fn parses_one_file_with_one_hunk() {
    let diff = parse_diff(SAMPLE).unwrap();
    assert_eq!(diff.files.len(), 1);
    let file = &diff.files[0];
    assert_eq!(file.old_path, "src/lib.rs");
    assert_eq!(file.new_path, "src/lib.rs");
    assert!(!file.is_binary);
    assert_eq!(file.hunks.len(), 1);
    let hunk = &file.hunks[0];
    assert_eq!(hunk.old_start, 10);
    assert_eq!(hunk.new_start, 10);
    let kinds: Vec<DiffLineKind> = hunk.lines.iter().map(|l| l.kind).collect();
    assert_eq!(
        kinds,
        vec![
            DiffLineKind::Context,
            DiffLineKind::Del,
            DiffLineKind::Add,
            DiffLineKind::Add,
            DiffLineKind::Context,
            DiffLineKind::NoNewline,
        ]
    );
    let texts: Vec<&str> = hunk.lines.iter().map(|l| l.text.as_str()).collect();
    assert_eq!(
        texts,
        vec!["keep one", "old line", "new line", "another", "keep two", "No newline at end of file"]
    );
}

#[test]
fn numbers_lines_from_the_hunk_start() {
    let diff = parse_diff(SAMPLE).unwrap();
    let hunk = &diff.files[0].hunks[0];
    let numbers: Vec<(Option<u32>, Option<u32>)> =
        hunk.lines.iter().map(|l| (l.old_line, l.new_line)).collect();
    assert_eq!(
        numbers,
        vec![
            (Some(10), Some(10)),
            (Some(11), None),
            (None, Some(11)),
            (None, Some(12)),
            (Some(12), Some(13)),
            (None, None),
        ]
    );
    assert_eq!(diff.files[0].max_old_line, 12);
    assert_eq!(diff.files[0].max_new_line, 13);
}

#[test]
fn law_line_numbers_on_a_sample() {
    // Every old number is the old start plus the old-side lines before it,
    // and the file's largest numbers bound all numbers.
    let input = "diff --git a/x b/x\n--- a/x\n+++ b/x\n@@ -3,3 +7,4 @@\n a\n-b\n+c\n+d\n e\n@@ -20 +30 @@\n-z\n+y\n";
    let diff = parse_diff(input).unwrap();
    for file in &diff.files {
        for hunk in &file.hunks {
            let mut old_seen = 0u32;
            let mut new_seen = 0u32;
            for line in &hunk.lines {
                let has_old = matches!(line.kind, DiffLineKind::Context | DiffLineKind::Del);
                let has_new = matches!(line.kind, DiffLineKind::Context | DiffLineKind::Add);
                assert_eq!(line.old_line, if has_old { Some(hunk.old_start + old_seen) } else { None });
                assert_eq!(line.new_line, if has_new { Some(hunk.new_start + new_seen) } else { None });
                if let Some(n) = line.old_line {
                    assert!(n <= file.max_old_line);
                }
                if let Some(n) = line.new_line {
                    assert!(n <= file.max_new_line);
                }
                old_seen += has_old as u32;
                new_seen += has_new as u32;
            }
        }
    }
    assert_eq!(diff.files[0].max_old_line, 20);
    assert_eq!(diff.files[0].max_new_line, 30);
}

#[test]
fn several_files_renames_and_binaries() {
    let input = "diff --git a/old.txt b/new.txt\nsimilarity index 90%\nrename from old.txt\nrename to new.txt\n--- a/old.txt\n+++ b/new.txt\n@@ -1 +1 @@\n-x\n+y\ndiff --git a/img.png b/img.png\nBinary files a/img.png and b/img.png differ\ndiff --git a/z b/z\nGIT binary patch\n";
    let diff = parse_diff(input).unwrap();
    assert_eq!(diff.files.len(), 3);
    assert_eq!(diff.files[0].old_path, "old.txt");
    assert_eq!(diff.files[0].new_path, "new.txt");
    assert!(!diff.files[0].is_binary);
    assert_eq!(diff.files[0].hunks.len(), 1);
    assert_eq!(diff.files[1].old_path, "img.png");
    assert!(diff.files[1].is_binary);
    assert!(diff.files[1].hunks.is_empty());
    assert!(diff.files[2].is_binary);
}

#[test]
fn paths_without_prefixes_and_dev_null() {
    let input = "diff --git new.txt new.txt\nnew file mode 100644\n--- /dev/null\n+++ new.txt\n@@ -0,0 +1,2 @@\n+one\n+two\n";
    let diff = parse_diff(input).unwrap();
    let file = &diff.files[0];
    assert_eq!(file.old_path, "/dev/null");
    assert_eq!(file.new_path, "new.txt");
    assert_eq!(file.hunks[0].lines[0].new_line, Some(1));
    assert_eq!(file.hunks[0].lines[1].new_line, Some(2));
    assert_eq!(file.max_old_line, 0);
    assert_eq!(file.max_new_line, 2);
}

#[test]
fn repeated_prefixes_are_all_stripped() {
    let input = "diff --git a/a/b/x b/b/y\n";
    let diff = parse_diff(input).unwrap();
    assert_eq!(diff.files[0].old_path, "x");
    assert_eq!(diff.files[0].new_path, "y");
}

#[test]
fn a_short_header_leaves_paths_empty() {
    let diff = parse_diff("diff --git \n").unwrap();
    assert_eq!(diff.files.len(), 1);
    assert_eq!(diff.files[0].old_path, "");
    assert_eq!(diff.files[0].new_path, "");
}

#[test]
fn empty_input_gives_no_files() {
    assert!(parse_diff("").unwrap().files.is_empty());
    assert!(parse_diff("random text\nwithout a diff\n").unwrap().files.is_empty());
}

#[test]
fn crlf_line_endings_are_dropped() {
    let input = "diff --git a/x b/x\r\n@@ -1 +1 @@\r\n-a\r\n+b\r\n";
    let diff = parse_diff(input).unwrap();
    let hunk = &diff.files[0].hunks[0];
    assert_eq!(hunk.lines[0].text, "a");
    assert_eq!(hunk.lines[1].text, "b");
}

#[test]
fn a_hunk_before_any_file_is_dropped() {
    let input = "@@ -1 +1 @@\n-a\n+b\ndiff --git a/x b/x\n";
    let diff = parse_diff(input).unwrap();
    assert_eq!(diff.files.len(), 1);
    assert!(diff.files[0].hunks.is_empty());
}

#[test]
fn a_deleted_line_that_looks_like_a_header_is_a_header() {
    let input = "diff --git a/x b/x\n@@ -1,2 +1 @@\n--- gone\n-kept\n";
    let diff = parse_diff(input).unwrap();
    let file = &diff.files[0];
    assert_eq!(file.old_path, "gone");
    assert_eq!(file.hunks[0].lines.len(), 1);
    assert_eq!(file.hunks[0].lines[0].text, "kept");
    assert_eq!(file.hunks[0].lines[0].old_line, Some(1));
}

#[test]
fn other_lines_inside_a_hunk_are_skipped() {
    let input = "diff --git a/x b/x\n@@ -1 +1 @@\n a\nnoise\n\n b\n";
    let diff = parse_diff(input).unwrap();
    let lines = &diff.files[0].hunks[0].lines;
    assert_eq!(lines.len(), 2);
    assert_eq!(lines[1].old_line, Some(2));
}

#[test]
fn hunk_header_errors() {
    assert_eq!(parse_diff("@@\n").unwrap_err(), DiffError::MissingOldRange);
    assert_eq!(parse_diff("@@ -1 @@\n").unwrap_err(), DiffError::MissingNewRange);
    assert_eq!(parse_diff("@@ -x +1 @@\n").unwrap_err(), DiffError::InvalidRangeStart);
    assert_eq!(parse_diff("@@ -1,x +1 @@\n").unwrap_err(), DiffError::InvalidRangeLength);
    assert_eq!(parse_diff("@@ -1 +1,y @@\n").unwrap_err(), DiffError::InvalidRangeLength);
    assert_eq!(parse_diff("@@ - +1 @@\n").unwrap_err(), DiffError::InvalidRangeStart);
    assert_eq!(parse_diff("@@ -99999999999 +1 @@\n").unwrap_err(), DiffError::InvalidRangeStart);
    assert_eq!(DiffError::MissingOldRange.message(), "missing old hunk range");
    assert_eq!(DiffError::InvalidRangeLength.message(), "invalid range length");
}

#[test]
fn hunk_header_variants_are_accepted() {
    let diff = parse_diff("diff --git a/x b/x\n@@@ --5,2,9 ++7 @@@ context\n x\n").unwrap();
    let hunk = &diff.files[0].hunks[0];
    assert_eq!(hunk.old_start, 5);
    assert_eq!(hunk.new_start, 7);
    let diff = parse_diff("diff --git a/x b/x\n@@ -+5 +0 @@\n").unwrap();
    assert_eq!(diff.files[0].hunks[0].old_start, 5);
    assert_eq!(diff.files[0].hunks[0].new_start, 0);
}

#[test]
fn overflowing_line_numbers_are_refused() {
    let input = "diff --git a/x b/x\n@@ -4294967295 +1 @@\n a\n";
    assert!(try_parse_diff(input).is_none());
    let input = "diff --git a/x b/x\n@@ -4294967295 +1 @@\n+a\n";
    let diff = try_parse_diff(input).unwrap().unwrap();
    assert_eq!(diff.files[0].hunks[0].lines[0].new_line, Some(1));
    assert_eq!(try_parse_diff("@@\n").unwrap().unwrap_err(), DiffError::MissingOldRange);
}

#[test]
fn clone_keeps_everything() {
    let diff = parse_diff(SAMPLE).unwrap();
    let copy = diff.clone();
    assert_eq!(format!("{:?}", diff), format!("{:?}", copy));
}

#[test]
fn law_line_maxima_are_the_largest_numbers() {
    let inputs = [
        SAMPLE,
        "diff --git a/x b/x\n@@ -5,2 +9,1 @@\n-a\n-b\n+c\n@@ -1 +1 @@\n c\n",
        "diff --git a/x b/x\n@@ -0,0 +1,2 @@\n+a\n+b\n",
        "diff --git a/x b/x\nBinary files a/x and b/x differ\n",
        "diff --git a/x b/x\n@@ -3 +3 @@\n\\ No newline at end of file\n",
    ];
    for input in inputs {
        let diff = parse_diff(input).unwrap();
        for f in &diff.files {
            let olds = f.hunks.iter().flat_map(|h| h.lines.iter().filter_map(|l| l.old_line));
            let news = f.hunks.iter().flat_map(|h| h.lines.iter().filter_map(|l| l.new_line));
            assert_eq!(f.max_old_line, olds.max().unwrap_or(0));
            assert_eq!(f.max_new_line, news.max().unwrap_or(0));
        }
    }
    let diff = parse_diff(inputs[1]).unwrap();
    assert_eq!((diff.files[0].max_old_line, diff.files[0].max_new_line), (6, 9));
    let diff = parse_diff(inputs[2]).unwrap();
    assert_eq!((diff.files[0].max_old_line, diff.files[0].max_new_line), (0, 2));
}
