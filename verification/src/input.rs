//! Where the diff comes from, and the `git` commands that produce it.

use vstd::prelude::*;
use crate::cli::Cli;
use crate::text::{char_seqs, chars_eq, chars_of, has_prefix, lines, split_lines, starts_with,
    string_from, trim, trim_ws};

verus! {

broadcast use vstd::string::group_string_axioms;

/// The character sequences of a sequence of strings.
pub open spec fn string_seqs(v: Seq<String>) -> Seq<Seq<char>> {
    v.map_values(|s: String| s@)
}

/// Where the diff is read from.
#[derive(Debug, Clone, Copy, PartialEq, Eq, Structural)]
pub enum DiffSource {
    /// Standard input.
    Stdin,
    /// The file that the command line names.
    File,
    /// The output of `git diff`.
    Git,
}

/// Where to read the diff: standard input when asked, or when it is not a
/// terminal and no file is named; else the named file; else `git diff`.
pub fn diff_source(cli: &Cli, stdin_is_terminal: bool) -> (r: DiffSource)
    ensures
        r == if cli.stdin || (!stdin_is_terminal && cli.diff_file is None) {
            DiffSource::Stdin
        } else if cli.diff_file is Some {
            DiffSource::File
        } else {
            DiffSource::Git
        },
{
    if cli.stdin || (!stdin_is_terminal && cli.diff_file.is_none()) {
        DiffSource::Stdin
    } else if cli.diff_file.is_some() {
        DiffSource::File
    } else {
        DiffSource::Git
    }
}

/// Untracked files are diffed only when the diff comes from `git`.
pub fn reads_untracked(cli: &Cli) -> (r: bool)
    ensures
        r == !(cli.stdin || cli.diff_file is Some),
{
    !(cli.stdin || cli.diff_file.is_some())
}

/// The arguments split into those that go before the `git` subcommand
/// (`-C dir`, `--git-dir...`, `--work-tree...`) and the rest, in order.
pub open spec fn split_git_args_spec(args: Seq<Seq<char>>) -> (Seq<Seq<char>>, Seq<Seq<char>>)
    decreases args.len(),
{
    if args.len() == 0 {
        (Seq::empty(), Seq::empty())
    } else if args[0] == "-C"@ && args.len() >= 2 {
        let rest = split_git_args_spec(args.skip(2));
        (seq![args[0], args[1]] + rest.0, rest.1)
    } else if has_prefix(args[0], "--git-dir"@) || has_prefix(args[0], "--work-tree"@) {
        let rest = split_git_args_spec(args.drop_first());
        (seq![args[0]] + rest.0, rest.1)
    } else {
        let rest = split_git_args_spec(args.drop_first());
        (rest.0, seq![args[0]] + rest.1)
    }
}

/// Splits the command line's `git` arguments into global ones and those of
/// the `diff` subcommand.
pub fn split_git_args(args: &[String]) -> (r: (Vec<String>, Vec<String>))
    ensures
        string_seqs(r.0@) == split_git_args_spec(string_seqs(args@)).0,
        string_seqs(r.1@) == split_git_args_spec(string_seqs(args@)).1,
{
    let ghost all = string_seqs(args@);
    let mut global_args: Vec<String> = Vec::new();
    let mut diff_args: Vec<String> = Vec::new();
    let mut i: usize = 0;
    proof {
        assert(all.skip(0) =~= all);
        assert(string_seqs(global_args@) + split_git_args_spec(all).0 =~= split_git_args_spec(all).0);
        assert(string_seqs(diff_args@) + split_git_args_spec(all).1 =~= split_git_args_spec(all).1);
    }
    while i < args.len()
        invariant
            i <= args@.len(),
            all == string_seqs(args@),
            string_seqs(global_args@) + split_git_args_spec(all.skip(i as int)).0
                == split_git_args_spec(all).0,
            string_seqs(diff_args@) + split_git_args_spec(all.skip(i as int)).1
                == split_git_args_spec(all).1,
        decreases args@.len() - i,
    {
        let ghost rest = all.skip(i as int);
        let ghost g0 = string_seqs(global_args@);
        let ghost d0 = string_seqs(diff_args@);
        let arg = &args[i];
        assert(rest[0] == arg@);
        let arg_chars = chars_of(arg.as_str());
        if chars_eq(&arg_chars, &chars_of("-C")) && i + 1 < args.len() {
            assert(rest[1] == args@[i + 1]@);
            global_args.push(arg.clone());
            global_args.push(args[i + 1].clone());
            proof {
                assert(string_seqs(global_args@) =~= g0 + seq![rest[0], rest[1]]);
                assert(rest.skip(2) =~= all.skip(i + 2));
            }
            i = i + 2;
        } else {
            if starts_with(&arg_chars, &chars_of("--git-dir")) || starts_with(
                &arg_chars,
                &chars_of("--work-tree"),
            ) {
                global_args.push(arg.clone());
                assert(string_seqs(global_args@) =~= g0 + seq![rest[0]]);
            } else {
                diff_args.push(arg.clone());
                assert(string_seqs(diff_args@) =~= d0 + seq![rest[0]]);
            }
            assert(rest.drop_first() =~= all.skip(i + 1));
            i = i + 1;
        }
    }
    proof {
        assert(all.skip(i as int) =~= Seq::<Seq<char>>::empty());
        assert(string_seqs(global_args@) + Seq::<Seq<char>>::empty() =~= string_seqs(
            global_args@,
        ));
        assert(string_seqs(diff_args@) + Seq::<Seq<char>>::empty() =~= string_seqs(diff_args@));
    }
    (global_args, diff_args)
}


/// Appends copies of `src` to `dst`.
fn push_all(dst: &mut Vec<String>, src: &[String])
    ensures
        string_seqs(final(dst)@) == string_seqs(old(dst)@) + string_seqs(src@),
{
    let ghost start = string_seqs(dst@);
    let mut i: usize = 0;
    while i < src.len()
        invariant
            i <= src@.len(),
            string_seqs(dst@) == start + string_seqs(src@).take(i as int),
        decreases src@.len() - i,
    {
        let c = src[i].clone();
        let ghost before = string_seqs(dst@);
        dst.push(c);
        i = i + 1;
        assert(string_seqs(dst@) =~= before.push(c@));
        assert(string_seqs(src@).take(i as int) =~= string_seqs(src@).take(i - 1).push(src@[i - 1]@));
    }
    assert(string_seqs(src@).take(i as int) =~= string_seqs(src@));
}

/// Appends one string made from a literal.
fn push_str_arg(dst: &mut Vec<String>, arg: &str)
    ensures
        string_seqs(final(dst)@) == string_seqs(old(dst)@).push(arg@),
{
    let ghost start = string_seqs(dst@);
    dst.push(String::from_str(arg));
    assert(string_seqs(dst@) =~= start.push(arg@));
}

/// The arguments of `git` that print the diff of the work tree:
/// `global diff --no-color --unified=3 --no-prefix diff_args`.
pub open spec fn git_diff_args_spec(global: Seq<Seq<char>>, diff_args: Seq<Seq<char>>) -> Seq<
    Seq<char>,
> {
    global + seq!["diff"@, "--no-color"@, "--unified=3"@, "--no-prefix"@] + diff_args
}

/// The arguments of `git` that list the untracked files:
/// `global ls-files --others --exclude-standard`.
pub open spec fn untracked_list_args_spec(global: Seq<Seq<char>>) -> Seq<Seq<char>> {
    global + seq!["ls-files"@, "--others"@, "--exclude-standard"@]
}

/// The arguments of `git` that print an untracked file as added:
/// `global diff --no-color --unified=3 --no-prefix --no-index -- /dev/null path`.
pub open spec fn untracked_diff_args_spec(global: Seq<Seq<char>>, path: Seq<char>) -> Seq<
    Seq<char>,
> {
    global + seq![
        "diff"@,
        "--no-color"@,
        "--unified=3"@,
        "--no-prefix"@,
        "--no-index"@,
        "--"@,
        "/dev/null"@,
        path,
    ]
}

/// The arguments of the `git diff` that the viewer runs for the command
/// line's `git` arguments.
pub fn git_diff_args(git_args: &[String]) -> (r: Vec<String>)
    ensures
        string_seqs(r@) == git_diff_args_spec(
            split_git_args_spec(string_seqs(git_args@)).0,
            split_git_args_spec(string_seqs(git_args@)).1,
        ),
{
    let (global_args, diff_args) = split_git_args(git_args);
    let mut out: Vec<String> = Vec::new();
    assert(string_seqs(out@) =~= Seq::<Seq<char>>::empty());
    push_all(&mut out, &global_args);
    push_str_arg(&mut out, "diff");
    push_str_arg(&mut out, "--no-color");
    push_str_arg(&mut out, "--unified=3");
    push_str_arg(&mut out, "--no-prefix");
    push_all(&mut out, &diff_args);
    assert(string_seqs(out@) =~= git_diff_args_spec(string_seqs(global_args@), string_seqs(
        diff_args@,
    )));
    out
}

/// The arguments of the `git` command that lists the untracked files.
pub fn untracked_list_args(global_args: &[String]) -> (r: Vec<String>)
    ensures
        string_seqs(r@) == untracked_list_args_spec(string_seqs(global_args@)),
{
    let mut out: Vec<String> = Vec::new();
    assert(string_seqs(out@) =~= Seq::<Seq<char>>::empty());
    push_all(&mut out, global_args);
    push_str_arg(&mut out, "ls-files");
    push_str_arg(&mut out, "--others");
    push_str_arg(&mut out, "--exclude-standard");
    assert(string_seqs(out@) =~= untracked_list_args_spec(string_seqs(global_args@)));
    out
}

/// The arguments of the `git` command that diffs one untracked file.
pub fn untracked_diff_args(global_args: &[String], path: &String) -> (r: Vec<String>)
    ensures
        string_seqs(r@) == untracked_diff_args_spec(string_seqs(global_args@), path@),
{
    let mut out: Vec<String> = Vec::new();
    assert(string_seqs(out@) =~= Seq::<Seq<char>>::empty());
    push_all(&mut out, global_args);
    push_str_arg(&mut out, "diff");
    push_str_arg(&mut out, "--no-color");
    push_str_arg(&mut out, "--unified=3");
    push_str_arg(&mut out, "--no-prefix");
    push_str_arg(&mut out, "--no-index");
    push_str_arg(&mut out, "--");
    push_str_arg(&mut out, "/dev/null");
    let ghost before = string_seqs(out@);
    out.push(path.clone());
    assert(string_seqs(out@) =~= before.push(path@));
    assert(string_seqs(out@) =~= untracked_diff_args_spec(string_seqs(global_args@), path@));
    out
}

/// `git diff` reports through its exit status: 0 for no differences, 1 for
/// some; anything else is a failure.
pub fn git_diff_status_ok(success: bool, code: Option<i32>) -> (r: bool)
    ensures
        r == (success || code == Some(1i32)),
{
    success || code == Some(1)
}

/// The non-empty lines of `text`, trimmed.
pub open spec fn listed_paths(ls: Seq<Seq<char>>) -> Seq<Seq<char>>
    decreases ls.len(),
{
    if ls.len() == 0 {
        Seq::empty()
    } else if trim_ws(ls.last()).len() == 0 {
        listed_paths(ls.drop_last())
    } else {
        listed_paths(ls.drop_last()).push(trim_ws(ls.last()))
    }
}

/// The paths that `git ls-files` printed: its non-empty lines, trimmed.
pub fn untracked_paths(output: &str) -> (r: Vec<String>)
    ensures
        string_seqs(r@) == listed_paths(lines(output@)),
{
    let chars = chars_of(output);
    let all = split_lines(&chars);
    let ghost ls = lines(output@);
    let mut out: Vec<String> = Vec::new();
    let mut i: usize = 0;
    proof {
        assert(ls.take(0) =~= Seq::<Seq<char>>::empty());
        assert(string_seqs(out@) =~= Seq::<Seq<char>>::empty());
    }
    while i < all.len()
        invariant
            i <= all@.len(),
            char_seqs(all@) == ls,
            string_seqs(out@) == listed_paths(ls.take(i as int)),
        decreases all@.len() - i,
    {
        assert(all@[i as int]@ == ls[i as int]);
        let t = trim(&all[i]);
        let ghost before = string_seqs(out@);
        if t.len() > 0 {
            out.push(string_from(&t));
            assert(string_seqs(out@) =~= before.push(t@));
        }
        i = i + 1;
        assert(ls.take(i as int).drop_last() =~= ls.take(i - 1));
    }
    assert(ls.take(i as int) =~= ls);
    out
}

/// The untracked files to diff, from what `git ls-files` printed when it
/// succeeded (`None` when it failed): none after a failure, else the paths
/// it listed.
pub fn listed_untracked(listed: Option<&str>) -> (r: Vec<String>)
    ensures
        string_seqs(r@) == match listed {
            Some(out) => listed_paths(lines(out@)),
            None => Seq::<Seq<char>>::empty(),
        },
{
    match listed {
        Some(out) => untracked_paths(out),
        None => {
            let r: Vec<String> = Vec::new();
            assert(string_seqs(r@) =~= Seq::<Seq<char>>::empty());
            r
        },
    }
}

/// `chunk` added to `combined`, and a line feed after it unless the result
/// already ends with one.
pub open spec fn append_chunk_spec(combined: Seq<char>, chunk: Seq<char>) -> Seq<char> {
    let c = combined + chunk;
    if c.len() > 0 && c.last() == '\n' {
        c
    } else {
        c.push('\n')
    }
}

/// Adds the diff of one untracked file to the diffs collected so far.
pub fn append_chunk(combined: &mut String, chunk: &str)
    ensures
        final(combined)@ == append_chunk_spec(old(combined)@, chunk@),
{
    let mut all = chars_of(combined.as_str());
    let extra = chars_of(chunk);
    let ghost start = all@;
    let mut i: usize = 0;
    while i < extra.len()
        invariant
            i <= extra@.len(),
            all@ == start + extra@.take(i as int),
        decreases extra@.len() - i,
    {
        all.push(extra[i]);
        i = i + 1;
        assert(all@ =~= start + extra@.take(i as int));
    }
    assert(extra@.take(i as int) =~= extra@);
    if !(all.len() > 0 && all[all.len() - 1] == '\n') {
        all.push('\n');
    }
    *combined = string_from(&all);
}


/// Splitting the arguments loses none and adds none: every argument goes
/// to exactly one of the two lists.
pub proof fn law_git_args_partition(args: Seq<Seq<char>>)
    ensures
        split_git_args_spec(args).0.len() + split_git_args_spec(args).1.len() == args.len(),
    decreases args.len(),
{
    if args.len() > 0 {
        if args[0] == "-C"@ && args.len() >= 2 {
            law_git_args_partition(args.skip(2));
        } else {
            law_git_args_partition(args.drop_first());
        }
    }
}

} // verus!
