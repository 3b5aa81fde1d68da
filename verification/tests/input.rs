use diffview::cli::Cli;
use diffview::input::{
    append_chunk, diff_source, git_diff_args, git_diff_status_ok, reads_untracked,
    split_git_args, untracked_diff_args, untracked_list_args, listed_untracked, untracked_paths,
    DiffSource,
};
use std::path::PathBuf;

fn strings(v: &[&str]) -> Vec<String> {
    v.iter().map(|s| s.to_string()).collect()
}

fn cli(stdin: bool, file: Option<&str>) -> Cli {
    Cli { stdin, diff_file: file.map(PathBuf::from), git_args: Vec::new() }
}

#[test]
fn where_the_diff_comes_from() {
    assert_eq!(diff_source(&cli(true, None), true), DiffSource::Stdin);
    assert_eq!(diff_source(&cli(true, Some("f")), true), DiffSource::Stdin);
    assert_eq!(diff_source(&cli(false, None), false), DiffSource::Stdin);
    assert_eq!(diff_source(&cli(false, Some("f")), false), DiffSource::File);
    assert_eq!(diff_source(&cli(false, Some("f")), true), DiffSource::File);
    assert_eq!(diff_source(&cli(false, None), true), DiffSource::Git);
    assert!(reads_untracked(&cli(false, None)));
    assert!(!reads_untracked(&cli(true, None)));
    assert!(!reads_untracked(&cli(false, Some("f"))));
}

#[test]
fn git_arguments_are_split() {
    let (g, d) = split_git_args(&strings(&["-C", "repo", "--cached", "--git-dir=x", "HEAD", "--work-tree", "-C"]));
    assert_eq!(g, strings(&["-C", "repo", "--git-dir=x", "--work-tree"]));
    assert_eq!(d, strings(&["--cached", "HEAD", "-C"]));
    let (g, d) = split_git_args(&[]);
    assert!(g.is_empty() && d.is_empty());
}

#[test]
fn law_git_args_partition_on_samples() {
    for args in [vec!["-C"], vec!["-C", "a", "-C", "b"], vec!["x", "--git-dir", "y"], vec![]] {
        let args = strings(&args);
        let (g, d) = split_git_args(&args);
        assert_eq!(g.len() + d.len(), args.len());
    }
}

#[test]
fn git_commands() {
    let args = git_diff_args(&strings(&["-C", "repo", "HEAD~1"]));
    assert_eq!(args, strings(&["-C", "repo", "diff", "--no-color", "--unified=3", "--no-prefix", "HEAD~1"]));
    assert_eq!(
        untracked_list_args(&strings(&["-C", "r"])),
        strings(&["-C", "r", "ls-files", "--others", "--exclude-standard"])
    );
    assert_eq!(
        untracked_diff_args(&strings(&[]), &"a b.txt".to_string()),
        strings(&["diff", "--no-color", "--unified=3", "--no-prefix", "--no-index", "--", "/dev/null", "a b.txt"])
    );
    assert!(git_diff_status_ok(true, Some(0)));
    assert!(git_diff_status_ok(false, Some(1)));
    assert!(!git_diff_status_ok(false, Some(128)));
    assert!(!git_diff_status_ok(false, None));
}

#[test]
fn untracked_listing() {
    assert_eq!(untracked_paths("a.txt\n  b c.rs \n\n   \nd\r\n"), strings(&["a.txt", "b c.rs", "d"]));
    assert!(untracked_paths("").is_empty());
}

#[test]
fn chunks_end_with_a_line_feed() {
    let mut all = String::new();
    append_chunk(&mut all, "diff a\n");
    assert_eq!(all, "diff a\n");
    append_chunk(&mut all, "diff b");
    assert_eq!(all, "diff a\ndiff b\n");
    let mut empty = String::new();
    append_chunk(&mut empty, "");
    assert_eq!(empty, "\n");
}

#[test]
fn a_failed_listing_gives_no_untracked_files() {
    assert!(listed_untracked(None).is_empty());
    assert!(listed_untracked(Some("")).is_empty());
    assert!(listed_untracked(Some("\n  \n")).is_empty());
    assert_eq!(listed_untracked(Some("a.txt\n  dir/b.rs \n\n")), strings(&["a.txt", "dir/b.rs"]));
}
