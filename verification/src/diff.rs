//! The unified diff model and its parser.

use vstd::prelude::*;
use crate::text::{
    char_seqs, chars_eq, chars_of, copy_range, find_char, find_char_from, has_prefix, lines,
    parse_u32, parse_u32_spec, split_lines, split_whitespace, starts_with, string_of_range,
    strip_all_prefix, strip_all_suffix_char, trim, trim_end_char, trim_start_matches, trim_ws,
    words,
};

verus! {

broadcast use vstd::string::group_string_axioms;

// ---------------------------------------------------------------------------
// The model
// ---------------------------------------------------------------------------

/// A whole diff: the files it touches, in order.
#[derive(Debug)]
pub struct Diff {
    pub files: Vec<FileDiff>,
}

/// The changes to one file.
#[derive(Debug)]
pub struct FileDiff {
    pub old_path: String,
    pub new_path: String,
    pub hunks: Vec<Hunk>,
    pub is_binary: bool,
    /// The largest old-side line number that a line of the file carries.
    pub max_old_line: u32,
    /// The largest new-side line number that a line of the file carries.
    pub max_new_line: u32,
}

/// One `@@` section of a file.
#[derive(Debug)]
pub struct Hunk {
    pub old_start: u32,
    pub new_start: u32,
    pub lines: Vec<DiffLine>,
}

/// One line of a hunk.
#[derive(Debug)]
pub struct DiffLine {
    pub kind: DiffLineKind,
    pub old_line: Option<u32>,
    pub new_line: Option<u32>,
    pub text: String,
}

#[derive(Debug, Clone, Copy, PartialEq, Eq, Structural)]
pub enum DiffLineKind {
    Context,
    Add,
    Del,
    NoNewline,
}

/// Why a diff could not be read: a malformed `@@` hunk header.
#[derive(Debug, Clone, Copy, PartialEq, Eq, Structural)]
pub enum DiffError {
    /// The header has no old-side range.
    MissingOldRange,
    /// The header has no new-side range.
    MissingNewRange,
    /// A range does not start with a valid line number.
    InvalidRangeStart,
    /// A range has a length that is not a valid number.
    InvalidRangeLength,
}

/// The description of each error.
pub open spec fn error_message(e: DiffError) -> Seq<char> {
    match e {
        DiffError::MissingOldRange => "missing old hunk range"@,
        DiffError::MissingNewRange => "missing new hunk range"@,
        DiffError::InvalidRangeStart => "invalid range start"@,
        DiffError::InvalidRangeLength => "invalid range length"@,
    }
}

impl DiffError {
    /// A short description of the error.
    pub fn message(&self) -> (r: &'static str)
        ensures
            r@ == error_message(*self),
    {
        match self {
            DiffError::MissingOldRange => "missing old hunk range",
            DiffError::MissingNewRange => "missing new hunk range",
            DiffError::InvalidRangeStart => "invalid range start",
            DiffError::InvalidRangeLength => "invalid range length",
        }
    }
}

pub struct SpecDiffLine {
    pub kind: DiffLineKind,
    pub old_line: Option<u32>,
    pub new_line: Option<u32>,
    pub text: Seq<char>,
}

pub struct SpecHunk {
    pub old_start: u32,
    pub new_start: u32,
    pub lines: Seq<SpecDiffLine>,
}

pub struct SpecFileDiff {
    pub old_path: Seq<char>,
    pub new_path: Seq<char>,
    pub hunks: Seq<SpecHunk>,
    pub is_binary: bool,
    pub max_old_line: u32,
    pub max_new_line: u32,
}

impl View for DiffLine {
    type V = SpecDiffLine;

    open spec fn view(&self) -> SpecDiffLine {
        SpecDiffLine {
            kind: self.kind,
            old_line: self.old_line,
            new_line: self.new_line,
            text: self.text@,
        }
    }
}

impl View for Hunk {
    type V = SpecHunk;

    open spec fn view(&self) -> SpecHunk {
        SpecHunk {
            old_start: self.old_start,
            new_start: self.new_start,
            lines: self.lines@.map_values(|l: DiffLine| l@),
        }
    }
}

impl View for FileDiff {
    type V = SpecFileDiff;

    open spec fn view(&self) -> SpecFileDiff {
        SpecFileDiff {
            old_path: self.old_path@,
            new_path: self.new_path@,
            hunks: self.hunks@.map_values(|h: Hunk| h@),
            is_binary: self.is_binary,
            max_old_line: self.max_old_line,
            max_new_line: self.max_new_line,
        }
    }
}

impl View for Diff {
    type V = Seq<SpecFileDiff>;

    open spec fn view(&self) -> Seq<SpecFileDiff> {
        self.files@.map_values(|f: FileDiff| f@)
    }
}

impl Clone for DiffLine {
    fn clone(&self) -> (r: Self)
        ensures
            r@ == self@,
    {
        DiffLine {
            kind: self.kind,
            old_line: self.old_line,
            new_line: self.new_line,
            text: self.text.clone(),
        }
    }
}

impl Clone for Hunk {
    fn clone(&self) -> (r: Self)
        ensures
            r@ == self@,
    {
        let mut lines: Vec<DiffLine> = Vec::new();
        let mut i: usize = 0;
        while i < self.lines.len()
            invariant
                i <= self.lines@.len(),
                lines@.len() == i,
                forall|j: int| 0 <= j < i ==> (#[trigger] lines@[j])@ == self.lines@[j]@,
            decreases self.lines@.len() - i,
        {
            lines.push(self.lines[i].clone());
            i = i + 1;
        }
        assert(lines@.map_values(|l: DiffLine| l@) =~= self.lines@.map_values(|l: DiffLine| l@));
        Hunk { old_start: self.old_start, new_start: self.new_start, lines }
    }
}

impl Clone for FileDiff {
    fn clone(&self) -> (r: Self)
        ensures
            r@ == self@,
    {
        let mut hunks: Vec<Hunk> = Vec::new();
        let mut i: usize = 0;
        while i < self.hunks.len()
            invariant
                i <= self.hunks@.len(),
                hunks@.len() == i,
                forall|j: int| 0 <= j < i ==> (#[trigger] hunks@[j])@ == self.hunks@[j]@,
            decreases self.hunks@.len() - i,
        {
            hunks.push(self.hunks[i].clone());
            i = i + 1;
        }
        assert(hunks@.map_values(|h: Hunk| h@) =~= self.hunks@.map_values(|h: Hunk| h@));
        FileDiff {
            old_path: self.old_path.clone(),
            new_path: self.new_path.clone(),
            hunks,
            is_binary: self.is_binary,
            max_old_line: self.max_old_line,
            max_new_line: self.max_new_line,
        }
    }
}

impl Clone for Diff {
    fn clone(&self) -> (r: Self)
        ensures
            r@ == self@,
    {
        let mut files: Vec<FileDiff> = Vec::new();
        let mut i: usize = 0;
        while i < self.files.len()
            invariant
                i <= self.files@.len(),
                files@.len() == i,
                forall|j: int| 0 <= j < i ==> (#[trigger] files@[j])@ == self.files@[j]@,
            decreases self.files@.len() - i,
        {
            files.push(self.files[i].clone());
            i = i + 1;
        }
        assert(files@.map_values(|f: FileDiff| f@) =~= self.files@.map_values(|f: FileDiff| f@));
        Diff { files }
    }
}

// ---------------------------------------------------------------------------
// What the parser computes
// ---------------------------------------------------------------------------

/// A path as git prints it, without its leading `a/` and then `b/` markers.
pub open spec fn clean_path(p: Seq<char>) -> Seq<char> {
    strip_all_prefix(strip_all_prefix(p, "a/"@), "b/"@)
}

/// The `i`-th element of `ws`, or the empty word.
pub open spec fn word_or_empty(ws: Seq<Seq<char>>, i: int) -> Seq<char> {
    if 0 <= i < ws.len() {
        ws[i]
    } else {
        Seq::empty()
    }
}

/// The old and new paths of a `diff --git a/x b/y` line: its third and fourth
/// words, cleaned.
pub open spec fn header_paths(line: Seq<char>) -> (Seq<char>, Seq<char>) {
    let ws = words(line);
    (clean_path(word_or_empty(ws, 2)), clean_path(word_or_empty(ws, 3)))
}

/// The path of a `--- x` or `+++ x` line.
pub open spec fn marker_path(line: Seq<char>, marker: Seq<char>) -> Seq<char> {
    clean_path(trim_ws(strip_all_prefix(line, marker)))
}

/// The start and length of a hunk range `start[,len]`; the length is 1 when
/// it is left out.
pub open spec fn range_parts(s: Seq<char>) -> Result<(u32, u32), DiffError> {
    let k = find_char(s, ',');
    match parse_u32_spec(s.take(k as int)) {
        None => Err(DiffError::InvalidRangeStart),
        Some(start) => if k < s.len() {
            let rest = s.skip(k + 1int);
            match parse_u32_spec(rest.take(find_char(rest, ',') as int)) {
                None => Err(DiffError::InvalidRangeLength),
                Some(len) => Ok((start, len)),
            }
        } else {
            Ok((start, 1))
        },
    }
}

/// The old and new start lines of a `@@ -a,b +c,d @@` header.
pub open spec fn hunk_header(line: Seq<char>) -> Result<(u32, u32), DiffError> {
    let ws = words(trim_ws(strip_all_suffix_char(strip_all_prefix(line, "@"@), '@')));
    if ws.len() == 0 {
        Err(DiffError::MissingOldRange)
    } else if ws.len() == 1 {
        Err(DiffError::MissingNewRange)
    } else {
        match range_parts(strip_all_prefix(ws[0], "-"@)) {
            Err(e) => Err(e),
            Ok(old_range) => match range_parts(strip_all_prefix(ws[1], "+"@)) {
                Err(e) => Err(e),
                Ok(new_range) => Ok((old_range.0, new_range.0)),
            },
        }
    }
}

/// Where the parser stands between two lines.
pub struct ParseState {
    /// The files that are complete.
    pub files: Seq<SpecFileDiff>,
    /// The file being read.
    pub file: Option<SpecFileDiff>,
    /// The hunk being read.
    pub hunk: Option<SpecHunk>,
    /// The old-side number of the next line.
    pub old_no: u32,
    /// The new-side number of the next line.
    pub new_no: u32,
}

/// What one line does to the parser.
pub enum Step {
    Next(ParseState),
    Failed(DiffError),
    /// A line number would pass `u32::MAX`.
    Overflow,
}

/// What the parser gives for a whole input.
pub enum ParseOutcome {
    Parsed(Seq<SpecFileDiff>),
    Failed(DiffError),
    /// A line number would pass `u32::MAX`.
    Overflow,
}

/// The parser before the first line.
pub open spec fn initial_state() -> ParseState {
    ParseState { files: Seq::empty(), file: None, hunk: None, old_no: 0, new_no: 0 }
}

/// The open file once the open hunk has moved into it; without an open
/// file the hunk is lost.
pub open spec fn file_after_flush(file: Option<SpecFileDiff>, hunk: Option<SpecHunk>) -> Option<
    SpecFileDiff,
> {
    match (hunk, file) {
        (Some(h), Some(f)) => Some(SpecFileDiff { hunks: f.hunks.push(h), ..f }),
        _ => file,
    }
}

/// The open hunk, if any, closed: it moves into the open file.
pub open spec fn flush_hunk_spec(st: ParseState) -> ParseState {
    ParseState { file: file_after_flush(st.file, st.hunk), hunk: None, ..st }
}

/// The open file, if any, joins the complete ones.
pub open spec fn close_file(st: ParseState) -> Seq<SpecFileDiff> {
    match st.file {
        Some(f) => st.files.push(f),
        None => st.files,
    }
}

/// A file just opened by its `diff --git` line.
pub open spec fn new_file(paths: (Seq<char>, Seq<char>)) -> SpecFileDiff {
    SpecFileDiff {
        old_path: paths.0,
        new_path: paths.1,
        hunks: Seq::empty(),
        is_binary: false,
        max_old_line: 0,
        max_new_line: 0,
    }
}

pub open spec fn max_u32(a: u32, b: u32) -> u32 {
    if a >= b {
        a
    } else {
        b
    }
}

/// The open file's largest line numbers raised to `old` and `new`.
pub open spec fn raise_max(file: Option<SpecFileDiff>, old: Option<u32>, new: Option<u32>) -> Option<
    SpecFileDiff,
> {
    match file {
        Some(f) => Some(
            SpecFileDiff {
                max_old_line: match old {
                    Some(o) => max_u32(f.max_old_line, o),
                    None => f.max_old_line,
                },
                max_new_line: match new {
                    Some(n) => max_u32(f.max_new_line, n),
                    None => f.max_new_line,
                },
                ..f
            },
        ),
        None => None,
    }
}

/// `h` with `l` added at its end.
pub open spec fn push_line(h: SpecHunk, l: SpecDiffLine) -> SpecHunk {
    SpecHunk { lines: h.lines.push(l), ..h }
}

/// What a line inside a hunk does.
pub open spec fn hunk_line_step(st: ParseState, h: SpecHunk, line: Seq<char>) -> Step {
    if line == "\\ No newline at end of file"@ {
        Step::Next(
            ParseState {
                hunk: Some(
                    push_line(
                        h,
                        SpecDiffLine {
                            kind: DiffLineKind::NoNewline,
                            old_line: None,
                            new_line: None,
                            text: "No newline at end of file"@,
                        },
                    ),
                ),
                ..st
            },
        )
    } else if line.len() > 0 && line[0] == ' ' {
        if st.old_no == u32::MAX || st.new_no == u32::MAX {
            Step::Overflow
        } else {
            Step::Next(
                ParseState {
                    hunk: Some(
                        push_line(
                            h,
                            SpecDiffLine {
                                kind: DiffLineKind::Context,
                                old_line: Some(st.old_no),
                                new_line: Some(st.new_no),
                                text: line.drop_first(),
                            },
                        ),
                    ),
                    file: raise_max(st.file, Some(st.old_no), Some(st.new_no)),
                    old_no: (st.old_no + 1) as u32,
                    new_no: (st.new_no + 1) as u32,
                    ..st
                },
            )
        }
    } else if line.len() > 0 && line[0] == '+' {
        if st.new_no == u32::MAX {
            Step::Overflow
        } else {
            Step::Next(
                ParseState {
                    hunk: Some(
                        push_line(
                            h,
                            SpecDiffLine {
                                kind: DiffLineKind::Add,
                                old_line: None,
                                new_line: Some(st.new_no),
                                text: line.drop_first(),
                            },
                        ),
                    ),
                    file: raise_max(st.file, None, Some(st.new_no)),
                    new_no: (st.new_no + 1) as u32,
                    ..st
                },
            )
        }
    } else if line.len() > 0 && line[0] == '-' {
        if st.old_no == u32::MAX {
            Step::Overflow
        } else {
            Step::Next(
                ParseState {
                    hunk: Some(
                        push_line(
                            h,
                            SpecDiffLine {
                                kind: DiffLineKind::Del,
                                old_line: Some(st.old_no),
                                new_line: None,
                                text: line.drop_first(),
                            },
                        ),
                    ),
                    file: raise_max(st.file, Some(st.old_no), None),
                    old_no: (st.old_no + 1) as u32,
                    ..st
                },
            )
        }
    } else {
        Step::Next(st)
    }
}

/// What one line of the input does to the parser. Headers are recognised
/// before hunk lines: a line that starts with `--- ` is a header wherever it
/// stands.
pub open spec fn step(st: ParseState, line: Seq<char>) -> Step {
    if has_prefix(line, "diff --git "@) {
        let s1 = flush_hunk_spec(st);
        Step::Next(
            ParseState {
                files: close_file(s1),
                file: Some(new_file(header_paths(line))),
                ..s1
            },
        )
    } else if has_prefix(line, "Binary files "@) || has_prefix(line, "GIT binary patch"@) {
        Step::Next(
            ParseState {
                file: match st.file {
                    Some(f) => Some(SpecFileDiff { is_binary: true, ..f }),
                    None => None,
                },
                ..st
            },
        )
    } else if has_prefix(line, "--- "@) {
        Step::Next(
            ParseState {
                file: match st.file {
                    Some(f) => Some(SpecFileDiff { old_path: marker_path(line, "--- "@), ..f }),
                    None => None,
                },
                ..st
            },
        )
    } else if has_prefix(line, "+++ "@) {
        Step::Next(
            ParseState {
                file: match st.file {
                    Some(f) => Some(SpecFileDiff { new_path: marker_path(line, "+++ "@), ..f }),
                    None => None,
                },
                ..st
            },
        )
    } else if has_prefix(line, "@@"@) {
        let s1 = flush_hunk_spec(st);
        match hunk_header(line) {
            Err(e) => Step::Failed(e),
            Ok((o, n)) => Step::Next(
                ParseState {
                    hunk: Some(SpecHunk { old_start: o, new_start: n, lines: Seq::empty() }),
                    old_no: o,
                    new_no: n,
                    ..s1
                },
            ),
        }
    } else {
        match st.hunk {
            Some(h) => hunk_line_step(st, h, line),
            None => Step::Next(st),
        }
    }
}

/// The parser run over `ls`, one line after the other.
pub open spec fn run(st: ParseState, ls: Seq<Seq<char>>) -> Step
    decreases ls.len(),
{
    if ls.len() == 0 {
        Step::Next(st)
    } else {
        match step(st, ls[0]) {
            Step::Next(s2) => run(s2, ls.drop_first()),
            other => other,
        }
    }
}

/// What `parse_diff` gives for `input`: the lines of the input run through
/// the parser from the empty state, then the open hunk and file closed.
pub open spec fn parse_diff_spec(input: Seq<char>) -> ParseOutcome {
    match run(initial_state(), lines(input)) {
        Step::Next(st) => ParseOutcome::Parsed(close_file(flush_hunk_spec(st))),
        Step::Failed(e) => ParseOutcome::Failed(e),
        Step::Overflow => ParseOutcome::Overflow,
    }
}

// ---------------------------------------------------------------------------
// The parser
// ---------------------------------------------------------------------------

pub open spec fn file_view_opt(f: Option<FileDiff>) -> Option<SpecFileDiff> {
    match f {
        Some(f) => Some(f@),
        None => None,
    }
}

pub open spec fn hunk_view_opt(h: Option<Hunk>) -> Option<SpecHunk> {
    match h {
        Some(h) => Some(h@),
        None => None,
    }
}

fn flush_hunk(current_file: &mut Option<FileDiff>, current_hunk: &mut Option<Hunk>)
    ensures
        file_view_opt(*final(current_file)) == file_after_flush(
            file_view_opt(*old(current_file)),
            hunk_view_opt(*old(current_hunk)),
        ),
        *final(current_hunk) is None,
{
    if let Some(hunk) = current_hunk.take() {
        if let Some(file) = current_file.as_mut() {
            let ghost prev = file@;
            file.hunks.push(hunk);
            assert(file@.hunks =~= prev.hunks.push(hunk@));
        }
    }
}

fn update_max_lines(file: Option<&mut FileDiff>, old_line: Option<u32>, new_line: Option<u32>)
    ensures
        match file {
            Some(f) => {
                &&& final(f).max_old_line == match old_line {
                    Some(o) => max_u32(f.max_old_line, o),
                    None => f.max_old_line,
                }
                &&& final(f).max_new_line == match new_line {
                    Some(n) => max_u32(f.max_new_line, n),
                    None => f.max_new_line,
                }
                &&& final(f).old_path == f.old_path
                &&& final(f).new_path == f.new_path
                &&& final(f).hunks == f.hunks
                &&& final(f).is_binary == f.is_binary
            },
            None => true,
        },
{
    if let Some(file) = file {
        if let Some(old_line) = old_line {
            if old_line > file.max_old_line {
                file.max_old_line = old_line;
            }
        }
        if let Some(new_line) = new_line {
            if new_line > file.max_new_line {
                file.max_new_line = new_line;
            }
        }
    }
}

fn strip_prefixes(path: &[char]) -> (r: String)
    ensures
        r@ == clean_path(path@),
{
    proof {
        reveal_strlit("a/");
        reveal_strlit("b/");
    }
    let a = trim_start_matches(path, &chars_of("a/"));
    let b = trim_start_matches(&a, &chars_of("b/"));
    string_of_range(&b, 0, b.len())
}

fn parse_file_path(raw: &[char]) -> (r: String)
    ensures
        r@ == clean_path(trim_ws(raw@)),
{
    strip_prefixes(&trim(raw))
}

fn parse_diff_header(line: &[char]) -> (r: Result<(String, String), DiffError>)
    ensures
        r matches Ok((o, n)) && o@ == header_paths(line@).0 && n@ == header_paths(line@).1,
{
    let parts = split_whitespace(line);
    let ghost ws = words(line@);
    assert(parts@.len() == ws.len());
    let empty: Vec<char> = Vec::new();
    let old_path = if parts.len() > 2 {
        assert(parts@[2]@ == ws[2]);
        strip_prefixes(&parts[2])
    } else {
        assert(empty@ =~= Seq::<char>::empty());
        strip_prefixes(&empty)
    };
    let new_path = if parts.len() > 3 {
        assert(parts@[3]@ == ws[3]);
        strip_prefixes(&parts[3])
    } else {
        assert(empty@ =~= Seq::<char>::empty());
        strip_prefixes(&empty)
    };
    Ok((old_path, new_path))
}

fn parse_range(input: &[char]) -> (r: Result<(u32, u32), DiffError>)
    ensures
        r == range_parts(input@),
{
    let k = find_char_from(input, 0, ',');
    assert(input@.skip(0) =~= input@);
    let first = copy_range(input, 0, k);
    assert(first@ =~= input@.take(k as int));
    let start = match parse_u32(&first) {
        Some(v) => v,
        None => return Err(DiffError::InvalidRangeStart),
    };
    if k < input.len() {
        let m = find_char_from(input, k + 1, ',');
        let second = copy_range(input, k + 1, m);
        assert(second@ =~= input@.skip(k + 1int).take(find_char(input@.skip(k + 1int), ',') as int));
        match parse_u32(&second) {
            Some(len) => Ok((start, len)),
            None => Err(DiffError::InvalidRangeLength),
        }
    } else {
        Ok((start, 1))
    }
}

fn parse_hunk_header(line: &[char]) -> (r: Result<Hunk, DiffError>)
    ensures
        match hunk_header(line@) {
            Ok((o, n)) => r matches Ok(h) && h@ == SpecHunk {
                old_start: o,
                new_start: n,
                lines: Seq::empty(),
            },
            Err(e) => r == Err::<Hunk, DiffError>(e),
        },
{
    proof {
        reveal_strlit("@");
        reveal_strlit("-");
        reveal_strlit("+");
    }
    let a = trim_start_matches(line, &chars_of("@"));
    let b = trim_end_char(&a, '@');
    let trimmed = trim(&b);
    let parts = split_whitespace(&trimmed);
    let ghost ws = words(trimmed@);
    assert(parts@.len() == ws.len());
    if parts.len() == 0 {
        return Err(DiffError::MissingOldRange);
    }
    if parts.len() == 1 {
        return Err(DiffError::MissingNewRange);
    }
    assert(parts@[0]@ == ws[0]);
    assert(parts@[1]@ == ws[1]);
    let (old_start, _) = parse_range(&trim_start_matches(&parts[0], &chars_of("-")))?;
    let (new_start, _) = parse_range(&trim_start_matches(&parts[1], &chars_of("+")))?;
    let h = Hunk { old_start, new_start, lines: Vec::new() };
    assert(h@.lines =~= Seq::<SpecDiffLine>::empty());
    Ok(h)
}

/// What one line did to the parser.
enum LineOutcome {
    Continue,
    Failed(DiffError),
    Overflow,
}

/// The parser between two lines.
struct Parser {
    diff: Diff,
    current_file: Option<FileDiff>,
    current_hunk: Option<Hunk>,
    old_line_no: u32,
    new_line_no: u32,
}

impl Parser {
    spec fn state(&self) -> ParseState {
        ParseState {
            files: self.diff@,
            file: file_view_opt(self.current_file),
            hunk: hunk_view_opt(self.current_hunk),
            old_no: self.old_line_no,
            new_no: self.new_line_no,
        }
    }

    fn new() -> (p: Parser)
        ensures
            p.state() == initial_state(),
    {
        let p = Parser {
            diff: Diff { files: Vec::new() },
            current_file: None,
            current_hunk: None,
            old_line_no: 0,
            new_line_no: 0,
        };
        assert(p.diff@ =~= Seq::<SpecFileDiff>::empty());
        p
    }

    fn flush(&mut self)
        ensures
            final(self).state() == flush_hunk_spec(old(self).state()),
    {
        flush_hunk(&mut self.current_file, &mut self.current_hunk);
    }

    /// Closes the open file, if any.
    fn close_file(&mut self)
        ensures
            final(self).state() == (ParseState {
                files: close_file(old(self).state()),
                file: None,
                ..old(self).state()
            }),
    {
        if let Some(file) = self.current_file.take() {
            let ghost prev = self.diff@;
            self.diff.files.push(file);
            assert(self.diff@ =~= prev.push(file@));
        }
    }

    fn feed_hunk_line(&mut self, mut hunk: Hunk, line: &[char]) -> (r: LineOutcome)
        requires
            old(self).current_hunk is None,
        ensures
            match hunk_line_step(
                ParseState { hunk: Some(hunk@), ..old(self).state() },
                hunk@,
                line@,
            ) {
                Step::Next(s) => r is Continue && final(self).state() == s,
                Step::Failed(e) => r == LineOutcome::Failed(e),
                Step::Overflow => r is Overflow,
            },
    {
        let ghost h0 = hunk@;
        proof {
            reveal_strlit("\\ No newline at end of file");
        }
        if chars_eq(line, &chars_of("\\ No newline at end of file")) {
            let l = DiffLine {
                kind: DiffLineKind::NoNewline,
                old_line: None,
                new_line: None,
                text: String::from_str("No newline at end of file"),
            };
            hunk.lines.push(l);
            assert(hunk@.lines =~= h0.lines.push(l@));
            self.current_hunk = Some(hunk);
            return LineOutcome::Continue;
        }
        if line.len() > 0 && line[0] == ' ' {
            if self.old_line_no == u32::MAX || self.new_line_no == u32::MAX {
                return LineOutcome::Overflow;
            }
            let l = DiffLine {
                kind: DiffLineKind::Context,
                old_line: Some(self.old_line_no),
                new_line: Some(self.new_line_no),
                text: string_of_range(line, 1, line.len()),
            };
            assert(l@.text =~= line@.drop_first());
            hunk.lines.push(l);
            assert(hunk@.lines =~= h0.lines.push(l@));
            self.current_hunk = Some(hunk);
            self.old_line_no = self.old_line_no + 1;
            self.new_line_no = self.new_line_no + 1;
            update_max_lines(
                self.current_file.as_mut(),
                Some(self.old_line_no - 1),
                Some(self.new_line_no - 1),
            );
            return LineOutcome::Continue;
        }
        if line.len() > 0 && line[0] == '+' {
            if self.new_line_no == u32::MAX {
                return LineOutcome::Overflow;
            }
            let l = DiffLine {
                kind: DiffLineKind::Add,
                old_line: None,
                new_line: Some(self.new_line_no),
                text: string_of_range(line, 1, line.len()),
            };
            assert(l@.text =~= line@.drop_first());
            hunk.lines.push(l);
            assert(hunk@.lines =~= h0.lines.push(l@));
            self.current_hunk = Some(hunk);
            update_max_lines(self.current_file.as_mut(), None, Some(self.new_line_no));
            self.new_line_no = self.new_line_no + 1;
            return LineOutcome::Continue;
        }
        if line.len() > 0 && line[0] == '-' {
            if self.old_line_no == u32::MAX {
                return LineOutcome::Overflow;
            }
            let l = DiffLine {
                kind: DiffLineKind::Del,
                old_line: Some(self.old_line_no),
                new_line: None,
                text: string_of_range(line, 1, line.len()),
            };
            assert(l@.text =~= line@.drop_first());
            hunk.lines.push(l);
            assert(hunk@.lines =~= h0.lines.push(l@));
            self.current_hunk = Some(hunk);
            update_max_lines(self.current_file.as_mut(), Some(self.old_line_no), None);
            self.old_line_no = self.old_line_no + 1;
            return LineOutcome::Continue;
        }
        self.current_hunk = Some(hunk);
        LineOutcome::Continue
    }

    fn feed(&mut self, line: &[char]) -> (r: LineOutcome)
        ensures
            match step(old(self).state(), line@) {
                Step::Next(s) => r is Continue && final(self).state() == s,
                Step::Failed(e) => r == LineOutcome::Failed(e),
                Step::Overflow => r is Overflow,
            },
    {
        proof {
            reveal_strlit("--- ");
            reveal_strlit("+++ ");
        }
        if starts_with(line, &chars_of("diff --git ")) {
            self.flush();
            self.close_file();
            let (old_path, new_path) = match parse_diff_header(line) {
                Ok(paths) => paths,
                Err(e) => return LineOutcome::Failed(e),
            };
            let file = FileDiff {
                old_path,
                new_path,
                hunks: Vec::new(),
                is_binary: false,
                max_old_line: 0,
                max_new_line: 0,
            };
            assert(file@.hunks =~= Seq::<SpecHunk>::empty());
            assert(file@ == new_file(header_paths(line@)));
            self.current_file = Some(file);
            return LineOutcome::Continue;
        }
        if starts_with(line, &chars_of("Binary files ")) || starts_with(
            line,
            &chars_of("GIT binary patch"),
        ) {
            if let Some(file) = self.current_file.as_mut() {
                file.is_binary = true;
            }
            return LineOutcome::Continue;
        }
        if starts_with(line, &chars_of("--- ")) {
            if let Some(file) = self.current_file.as_mut() {
                file.old_path = parse_file_path(&trim_start_matches(line, &chars_of("--- ")));
            }
            return LineOutcome::Continue;
        }
        if starts_with(line, &chars_of("+++ ")) {
            if let Some(file) = self.current_file.as_mut() {
                file.new_path = parse_file_path(&trim_start_matches(line, &chars_of("+++ ")));
            }
            return LineOutcome::Continue;
        }
        if starts_with(line, &chars_of("@@")) {
            self.flush();
            let hunk = match parse_hunk_header(line) {
                Ok(h) => h,
                Err(e) => return LineOutcome::Failed(e),
            };
            self.old_line_no = hunk.old_start;
            self.new_line_no = hunk.new_start;
            self.current_hunk = Some(hunk);
            return LineOutcome::Continue;
        }
        match self.current_hunk.take() {
            Some(hunk) => self.feed_hunk_line(hunk, line),
            None => LineOutcome::Continue,
        }
    }
}

/// The parser run over `input`, reporting where a line number would pass
/// `u32::MAX`.
fn run_parser(input: &str) -> (r: (Option<Diff>, Option<DiffError>))
    ensures
        match parse_diff_spec(input@) {
            ParseOutcome::Parsed(files) => r.0 matches Some(d) && d@ == files,
            ParseOutcome::Failed(e) => r.0 is None && r.1 == Some(e),
            ParseOutcome::Overflow => r.0 is None && r.1 is None,
        },
{
    let chars = chars_of(input);
    let all = split_lines(&chars);
    let ghost ls = lines(input@);
    let mut parser = Parser::new();
    let mut k: usize = 0;
    proof {
        assert(ls.skip(0) =~= ls);
    }
    while k < all.len()
        invariant
            k <= all@.len(),
            char_seqs(all@) == ls,
            ls == lines(input@),
            run(parser.state(), ls.skip(k as int)) == run(initial_state(), ls),
        decreases all@.len() - k,
    {
        let ghost before = parser.state();
        assert(all@[k as int]@ == ls[k as int]);
        assert(ls.skip(k as int)[0] == ls[k as int]);
        assert(ls.skip(k as int).drop_first() =~= ls.skip(k + 1));
        match parser.feed(&all[k]) {
            LineOutcome::Continue => {},
            LineOutcome::Failed(e) => {
                return (None, Some(e));
            },
            LineOutcome::Overflow => {
                return (None, None);
            },
        }
        k = k + 1;
    }
    assert(ls.skip(k as int) =~= Seq::<Seq<char>>::empty());
    parser.flush();
    parser.close_file();
    (Some(parser.diff), None)
}


/// Parses a unified diff as `git diff` prints it.
///
/// Lines are read one by one: `diff --git` opens a file, `--- ` and `+++ `
/// name its two sides, `Binary files`/`GIT binary patch` mark it binary,
/// `@@` opens a hunk, and inside a hunk ` `, `+` and `-` lines are context,
/// added and deleted lines, numbered from the hunk's start. Anything else is
/// skipped. A malformed hunk header is an error.
pub fn parse_diff(input: &str) -> (r: Result<Diff, DiffError>)
    requires
        !(parse_diff_spec(input@) is Overflow),
    ensures
        match parse_diff_spec(input@) {
            ParseOutcome::Parsed(files) => r matches Ok(d) && d@ == files,
            ParseOutcome::Failed(e) => r == Err::<Diff, DiffError>(e),
            ParseOutcome::Overflow => false,
        },
{
    match run_parser(input) {
        (Some(d), _) => Ok(d),
        (None, Some(e)) => Err(e),
        (None, None) => Err(DiffError::InvalidRangeStart),
    }
}

/// Parses a unified diff like `parse_diff`, or gives `None` for an input on
/// which a line number would pass `u32::MAX`.
pub fn try_parse_diff(input: &str) -> (r: Option<Result<Diff, DiffError>>)
    ensures
        r is None <==> parse_diff_spec(input@) is Overflow,
        match parse_diff_spec(input@) {
            ParseOutcome::Parsed(files) => r matches Some(Ok(d)) && d@ == files,
            ParseOutcome::Failed(e) => r == Some(Err::<Diff, DiffError>(e)),
            ParseOutcome::Overflow => r is None,
        },
{
    match run_parser(input) {
        (Some(d), _) => Some(Ok(d)),
        (None, Some(e)) => Some(Err(e)),
        (None, None) => None,
    }
}


// ---------------------------------------------------------------------------
// Laws of the parser
// ---------------------------------------------------------------------------

pub open spec fn has_old_side(k: DiffLineKind) -> bool {
    k == DiffLineKind::Context || k == DiffLineKind::Del
}

pub open spec fn has_new_side(k: DiffLineKind) -> bool {
    k == DiffLineKind::Context || k == DiffLineKind::Add
}

pub open spec fn on_side(k: DiffLineKind, old: bool) -> bool {
    if old {
        has_old_side(k)
    } else {
        has_new_side(k)
    }
}

/// The number of lines of `ls` that have an old (or new) side.
pub open spec fn side_count(ls: Seq<SpecDiffLine>, old: bool) -> nat
    decreases ls.len(),
{
    if ls.len() == 0 {
        0
    } else {
        side_count(ls.drop_last(), old) + if on_side(ls.last().kind, old) {
            1nat
        } else {
            0nat
        }
    }
}

/// Line `i` of `h` carries an old number exactly when it has an old side,
/// and that number is the hunk's old start plus the old-side lines before
/// it; the same for the new side.
pub open spec fn line_numbered(h: SpecHunk, i: int) -> bool {
    let l = h.lines[i];
    &&& match l.old_line {
        Some(n) => has_old_side(l.kind) && n == h.old_start + side_count(h.lines.take(i), true),
        None => !has_old_side(l.kind),
    }
    &&& match l.new_line {
        Some(n) => has_new_side(l.kind) && n == h.new_start + side_count(h.lines.take(i), false),
        None => !has_new_side(l.kind),
    }
}

/// Every line of `h` is numbered from the hunk's start.
pub open spec fn hunk_numbered(h: SpecHunk) -> bool {
    forall|i: int| 0 <= i < h.lines.len() ==> #[trigger] line_numbered(h, i)
}

/// No line number of `h` passes `max_old` / `max_new`.
pub open spec fn lines_within(h: SpecHunk, max_old: u32, max_new: u32) -> bool {
    forall|i: int|
        0 <= i < h.lines.len() ==> {
            &&& (#[trigger] h.lines[i]).old_line matches Some(n) ==> n <= max_old
            &&& h.lines[i].new_line matches Some(n) ==> n <= max_new
        }
}

/// Every hunk of `f` is numbered from its start, and the file's largest
/// line numbers bound all of its line numbers.
pub open spec fn file_numbered(f: SpecFileDiff) -> bool {
    forall|j: int|
        0 <= j < f.hunks.len() ==> hunk_numbered(#[trigger] f.hunks[j]) && lines_within(
            f.hunks[j],
            f.max_old_line,
            f.max_new_line,
        )
}

/// The parser's state keeps its numbering: complete and open files are
/// numbered, and the open hunk is numbered with the next numbers following
/// its lines.
pub open spec fn state_numbered(st: ParseState) -> bool {
    &&& forall|i: int| 0 <= i < st.files.len() ==> file_numbered(#[trigger] st.files[i])
    &&& st.file matches Some(f) ==> file_numbered(f)
    &&& st.hunk matches Some(h) ==> {
        &&& hunk_numbered(h)
        &&& st.old_no == h.old_start + side_count(h.lines, true)
        &&& st.new_no == h.new_start + side_count(h.lines, false)
        &&& st.file matches Some(f) ==> lines_within(h, f.max_old_line, f.max_new_line)
    }
}

proof fn lemma_push_line_numbered(h: SpecHunk, l: SpecDiffLine)
    requires
        hunk_numbered(h),
        match l.old_line {
            Some(n) => has_old_side(l.kind) && n == h.old_start + side_count(h.lines, true),
            None => !has_old_side(l.kind),
        },
        match l.new_line {
            Some(n) => has_new_side(l.kind) && n == h.new_start + side_count(h.lines, false),
            None => !has_new_side(l.kind),
        },
    ensures
        hunk_numbered(push_line(h, l)),
        side_count(push_line(h, l).lines, true) == side_count(h.lines, true) + if has_old_side(
            l.kind,
        ) {
            1nat
        } else {
            0nat
        },
        side_count(push_line(h, l).lines, false) == side_count(h.lines, false) + if has_new_side(
            l.kind,
        ) {
            1nat
        } else {
            0nat
        },
{
    let h2 = push_line(h, l);
    assert(h2.lines.drop_last() =~= h.lines);
    assert forall|i: int| 0 <= i < h2.lines.len() implies #[trigger] line_numbered(h2, i) by {
        if i < h.lines.len() {
            assert(line_numbered(h, i));
            assert(h2.lines.take(i) =~= h.lines.take(i));
        } else {
            assert(h2.lines.take(i) =~= h.lines);
        }
    }
}

proof fn lemma_push_line_within(h: SpecHunk, l: SpecDiffLine, max_old: u32, max_new: u32)
    requires
        lines_within(h, max_old, max_new),
        l.old_line matches Some(n) ==> n <= max_old,
        l.new_line matches Some(n) ==> n <= max_new,
    ensures
        lines_within(push_line(h, l), max_old, max_new),
{
    let h2 = push_line(h, l);
    assert forall|i: int| 0 <= i < h2.lines.len() implies {
        &&& (#[trigger] h2.lines[i]).old_line matches Some(n) ==> n <= max_old
        &&& h2.lines[i].new_line matches Some(n) ==> n <= max_new
    } by {
        if i < h.lines.len() {
            assert(h2.lines[i] == h.lines[i]);
        }
    }
}

proof fn lemma_within_raise(h: SpecHunk, mo: u32, mn: u32, mo2: u32, mn2: u32)
    requires
        lines_within(h, mo, mn),
        mo <= mo2,
        mn <= mn2,
    ensures
        lines_within(h, mo2, mn2),
{
    assert forall|i: int| 0 <= i < h.lines.len() implies {
        &&& (#[trigger] h.lines[i]).old_line matches Some(n) ==> n <= mo2
        &&& h.lines[i].new_line matches Some(n) ==> n <= mn2
    } by {
        assert(h.lines[i].old_line matches Some(n) ==> n <= mo);
    }
}

proof fn lemma_file_raise(f: SpecFileDiff, g: SpecFileDiff)
    requires
        file_numbered(f),
        g.hunks == f.hunks,
        f.max_old_line <= g.max_old_line,
        f.max_new_line <= g.max_new_line,
    ensures
        file_numbered(g),
{
    assert forall|j: int| 0 <= j < g.hunks.len() implies hunk_numbered(#[trigger] g.hunks[j])
        && lines_within(g.hunks[j], g.max_old_line, g.max_new_line) by {
        assert(hunk_numbered(f.hunks[j]));
        lemma_within_raise(
            f.hunks[j],
            f.max_old_line,
            f.max_new_line,
            g.max_old_line,
            g.max_new_line,
        );
    }
}

proof fn lemma_flush_numbered(st: ParseState)
    requires
        state_numbered(st),
    ensures
        state_numbered(flush_hunk_spec(st)),
        flush_hunk_spec(st).hunk is None,
        flush_hunk_spec(st).files == st.files,
{
    if let Some(h) = st.hunk {
        if let Some(f) = st.file {
            let g = SpecFileDiff { hunks: f.hunks.push(h), ..f };
            assert forall|j: int| 0 <= j < g.hunks.len() implies hunk_numbered(#[trigger] g.hunks[j])
                && lines_within(g.hunks[j], g.max_old_line, g.max_new_line) by {
                if j < f.hunks.len() {
                    assert(g.hunks[j] == f.hunks[j]);
                }
            }
        }
    }
}

proof fn lemma_close_numbered(st: ParseState)
    requires
        state_numbered(st),
    ensures
        forall|i: int| 0 <= i < close_file(st).len() ==> file_numbered(#[trigger] close_file(st)[i]),
{
    if let Some(f) = st.file {
        assert forall|i: int| 0 <= i < close_file(st).len() implies file_numbered(
            #[trigger] close_file(st)[i],
        ) by {
            if i < st.files.len() {
                assert(close_file(st)[i] == st.files[i]);
            }
        }
    }
}

proof fn lemma_hunk_line_numbered(st: ParseState, h: SpecHunk, line: Seq<char>)
    requires
        state_numbered(st),
        st.hunk == Some(h),
    ensures
        hunk_line_step(st, h, line) matches Step::Next(s2) ==> state_numbered(s2),
{
    if let Step::Next(s2) = hunk_line_step(st, h, line) {
        if line == "\\ No newline at end of file"@ || (line.len() > 0 && (line[0] == ' ' || line[0]
            == '+' || line[0] == '-')) {
            let h2 = s2.hunk->Some_0;
            let l = h2.lines.last();
            assert(h2 == push_line(h, l));
            lemma_push_line_numbered(h, l);
            match st.file {
                Some(f) => {
                    let g = s2.file->Some_0;
                    lemma_file_raise(f, g);
                    lemma_within_raise(
                        h,
                        f.max_old_line,
                        f.max_new_line,
                        g.max_old_line,
                        g.max_new_line,
                    );
                    lemma_push_line_within(h, l, g.max_old_line, g.max_new_line);
                },
                None => {},
            }
        }
    }
}

proof fn lemma_step_numbered(st: ParseState, line: Seq<char>)
    requires
        state_numbered(st),
    ensures
        step(st, line) matches Step::Next(s2) ==> state_numbered(s2),
{
    if has_prefix(line, "diff --git "@) {
        lemma_flush_numbered(st);
        lemma_close_numbered(flush_hunk_spec(st));
    } else if has_prefix(line, "Binary files "@) || has_prefix(line, "GIT binary patch"@) || has_prefix(
        line,
        "--- "@,
    ) || has_prefix(line, "+++ "@) {
        if let Step::Next(s2) = step(st, line) {
            if let Some(f) = st.file {
                lemma_file_raise(f, s2.file->Some_0);
            }
        }
    } else if has_prefix(line, "@@"@) {
        lemma_flush_numbered(st);
        if let Step::Next(s2) = step(st, line) {
            let h = s2.hunk->Some_0;
            assert(h.lines =~= Seq::<SpecDiffLine>::empty());
            assert(hunk_numbered(h));
            assert(lines_within(h, 0, 0));
            if let Some(f) = s2.file {
                lemma_within_raise(h, 0, 0, f.max_old_line, f.max_new_line);
            }
        }
    } else {
        if let Some(h) = st.hunk {
            lemma_hunk_line_numbered(st, h, line);
        }
    }
}

proof fn lemma_run_numbered(st: ParseState, ls: Seq<Seq<char>>)
    requires
        state_numbered(st),
    ensures
        run(st, ls) matches Step::Next(s2) ==> state_numbered(s2),
    decreases ls.len(),
{
    if ls.len() > 0 {
        lemma_step_numbered(st, ls[0]);
        if let Step::Next(s2) = step(st, ls[0]) {
            lemma_run_numbered(s2, ls.drop_first());
        }
    }
}

/// Line numbers count up from the hunk header: in every parsed hunk each
/// line carries an old number exactly when it has an old side (context and
/// deleted lines), and that number is the header's old start plus the
/// old-side lines before it; the same holds for the new side. Each file's
/// largest line numbers bound every number of its lines.
pub proof fn law_line_numbers(input: Seq<char>)
    ensures
        parse_diff_spec(input) matches ParseOutcome::Parsed(files) ==> forall|i: int|
            0 <= i < files.len() ==> file_numbered(#[trigger] files[i]),
{
    assert(state_numbered(initial_state()));
    lemma_run_numbered(initial_state(), lines(input));
    if let Step::Next(st) = run(initial_state(), lines(input)) {
        lemma_flush_numbered(st);
        lemma_close_numbered(flush_hunk_spec(st));
    }
}

/// The old (or new) line number of `l`.
pub open spec fn side_line(l: SpecDiffLine, old: bool) -> Option<u32> {
    if old {
        l.old_line
    } else {
        l.new_line
    }
}

/// Some line of the hunks `hs` carries `n` as its old (or new) number.
pub open spec fn carries(hs: Seq<SpecHunk>, old: bool, n: u32) -> bool {
    exists|j: int, i: int|
        0 <= j < hs.len() && 0 <= i < hs[j].lines.len() && side_line(
            #[trigger] hs[j].lines[i],
            old,
        ) == Some(n)
}

/// Each of the file's largest line numbers is 0 or carried by a line of it.
pub open spec fn maxima_attained(f: SpecFileDiff) -> bool {
    &&& (f.max_old_line == 0 || carries(f.hunks, true, f.max_old_line))
    &&& (f.max_new_line == 0 || carries(f.hunks, false, f.max_new_line))
}

/// Complete files have their largest line numbers carried by their lines,
/// and so does the open file once the open hunk has joined it.
pub open spec fn state_attained(st: ParseState) -> bool {
    &&& forall|i: int| 0 <= i < st.files.len() ==> maxima_attained(#[trigger] st.files[i])
    &&& file_after_flush(st.file, st.hunk) matches Some(g) ==> maxima_attained(g)
}

proof fn lemma_carries_push(hs: Seq<SpecHunk>, h: SpecHunk, old: bool, n: u32)
    requires
        carries(hs, old, n),
    ensures
        carries(hs.push(h), old, n),
{
    let (j, i) = choose|j: int, i: int|
        0 <= j < hs.len() && 0 <= i < hs[j].lines.len() && side_line(
            #[trigger] hs[j].lines[i],
            old,
        ) == Some(n);
    assert(hs.push(h)[j] == hs[j]);
    assert(side_line(hs.push(h)[j].lines[i], old) == Some(n));
}

proof fn lemma_side_attained(
    hs: Seq<SpecHunk>,
    h: SpecHunk,
    l: SpecDiffLine,
    old: bool,
    m: u32,
    m2: u32,
)
    requires
        m == 0 || carries(hs.push(h), old, m),
        m2 == match side_line(l, old) {
            Some(o) => max_u32(m, o),
            None => m,
        },
    ensures
        m2 == 0 || carries(hs.push(push_line(h, l)), old, m2),
{
    let hs1 = hs.push(h);
    let hs2 = hs.push(push_line(h, l));
    let last = hs.len() as int;
    if m2 != 0 {
        if side_line(l, old) == Some(m2) {
            assert(hs2[last].lines[h.lines.len() as int] == l);
            assert(side_line(hs2[last].lines[h.lines.len() as int], old) == Some(m2));
        } else {
            assert(m2 == m);
            let (j, i) = choose|j: int, i: int|
                0 <= j < hs1.len() && 0 <= i < hs1[j].lines.len() && side_line(
                    #[trigger] hs1[j].lines[i],
                    old,
                ) == Some(m);
            if j < last {
                assert(hs2[j] == hs1[j]);
            } else {
                assert(hs2[j].lines[i] == hs1[j].lines[i]);
            }
            assert(side_line(hs2[j].lines[i], old) == Some(m2));
        }
    }
}

proof fn lemma_hunk_line_attained(st: ParseState, h: SpecHunk, line: Seq<char>)
    requires
        state_attained(st),
        st.hunk == Some(h),
    ensures
        hunk_line_step(st, h, line) matches Step::Next(s2) ==> state_attained(s2),
{
    if let Step::Next(s2) = hunk_line_step(st, h, line) {
        if line == "\\ No newline at end of file"@ || (line.len() > 0 && (line[0] == ' ' || line[0]
            == '+' || line[0] == '-')) {
            let h2 = s2.hunk->Some_0;
            let l = h2.lines.last();
            assert(h2 == push_line(h, l));
            if let Some(f) = st.file {
                let g = s2.file->Some_0;
                lemma_side_attained(f.hunks, h, l, true, f.max_old_line, g.max_old_line);
                lemma_side_attained(f.hunks, h, l, false, f.max_new_line, g.max_new_line);
            }
        }
    }
}

proof fn lemma_step_attained(st: ParseState, line: Seq<char>)
    requires
        state_attained(st),
    ensures
        step(st, line) matches Step::Next(s2) ==> state_attained(s2),
{
    if has_prefix(line, "diff --git "@) {
        let s1 = flush_hunk_spec(st);
        assert forall|i: int| 0 <= i < close_file(s1).len() implies maxima_attained(
            #[trigger] close_file(s1)[i],
        ) by {
            if i < st.files.len() {
                assert(close_file(s1)[i] == st.files[i]);
            }
        }
    } else if has_prefix(line, "Binary files "@) || has_prefix(line, "GIT binary patch"@) || has_prefix(
        line,
        "--- "@,
    ) || has_prefix(line, "+++ "@) {
    } else if has_prefix(line, "@@"@) {
        if let Step::Next(s2) = step(st, line) {
            if let Some(g) = file_after_flush(st.file, st.hunk) {
                let h = s2.hunk->Some_0;
                if g.max_old_line != 0 {
                    lemma_carries_push(g.hunks, h, true, g.max_old_line);
                }
                if g.max_new_line != 0 {
                    lemma_carries_push(g.hunks, h, false, g.max_new_line);
                }
            }
        }
    } else {
        if let Some(h) = st.hunk {
            lemma_hunk_line_attained(st, h, line);
        }
    }
}

proof fn lemma_run_attained(st: ParseState, ls: Seq<Seq<char>>)
    requires
        state_attained(st),
    ensures
        run(st, ls) matches Step::Next(s2) ==> state_attained(s2),
    decreases ls.len(),
{
    if ls.len() > 0 {
        lemma_step_attained(st, ls[0]);
        if let Step::Next(s2) = step(st, ls[0]) {
            lemma_run_attained(s2, ls.drop_first());
        }
    }
}

/// Each file's largest old line number is the largest old number that a
/// line of it carries, or 0 when none does; the same for the new side.
/// (`law_line_numbers` gives that no number passes them; here each is 0 or
/// carried by some line.)
pub proof fn law_line_maxima_attained(input: Seq<char>)
    ensures
        parse_diff_spec(input) matches ParseOutcome::Parsed(files) ==> forall|i: int|
            0 <= i < files.len() ==> file_numbered(#[trigger] files[i]) && maxima_attained(
                files[i],
            ),
{
    law_line_numbers(input);
    assert(state_attained(initial_state()));
    lemma_run_attained(initial_state(), lines(input));
    if let Step::Next(st) = run(initial_state(), lines(input)) {
        let s1 = flush_hunk_spec(st);
        assert forall|i: int| 0 <= i < close_file(s1).len() implies maxima_attained(
            #[trigger] close_file(s1)[i],
        ) by {
            if i < st.files.len() {
                assert(close_file(s1)[i] == st.files[i]);
            }
        }
    }
}

/// A line that opens a file: `diff --git ...`.
pub open spec fn is_file_header(l: Seq<char>) -> bool {
    has_prefix(l, "diff --git "@)
}

/// A line that marks the file it stands in as binary.
pub open spec fn is_binary_marker(l: Seq<char>) -> bool {
    has_prefix(l, "Binary files "@) || has_prefix(l, "GIT binary patch"@)
}

/// The number of lines of `ls` that open a file.
pub open spec fn header_count(ls: Seq<Seq<char>>) -> nat
    decreases ls.len(),
{
    if ls.len() == 0 {
        0
    } else {
        header_count(ls.drop_last()) + if is_file_header(ls.last()) {
            1nat
        } else {
            0nat
        }
    }
}

/// The file that line `p` of `ls` belongs to, counting from 0: the one
/// opened by the last `diff --git` line up to it (-1 before the first).
pub open spec fn file_of_line(ls: Seq<Seq<char>>, p: int) -> int {
    header_count(ls.take(p + 1)) - 1
}

/// Some line of file `k` of `ls` marks it as binary.
pub open spec fn marked_binary(ls: Seq<Seq<char>>, k: int) -> bool {
    exists|p: int| 0 <= p < ls.len() && #[trigger] file_of_line(ls, p) == k && is_binary_marker(ls[p])
}

proof fn lemma_header_not_marker(l: Seq<char>)
    ensures
        is_file_header(l) ==> !is_binary_marker(l),
{
    reveal_strlit("diff --git ");
    reveal_strlit("Binary files ");
    reveal_strlit("GIT binary patch");
    if is_file_header(l) {
        assert(l[0] == l.take(11)[0]);
        assert(l.take(11)[0] == 'd');
        if l.len() >= 13 {
            assert(l.take(13)[0] == l[0]);
        }
        if l.len() >= 16 {
            assert(l.take(16)[0] == l[0]);
        }
    }
}

proof fn lemma_header_count_prefix(ls: Seq<Seq<char>>, n: int)
    requires
        0 <= n <= ls.len(),
    ensures
        header_count(ls.take(n)) <= header_count(ls),
    decreases ls.len() - n,
{
    if n < ls.len() {
        lemma_header_count_prefix(ls, n + 1);
        assert(ls.take(n + 1).drop_last() =~= ls.take(n));
    } else {
        assert(ls.take(n) =~= ls);
    }
}

proof fn lemma_marked_push(done: Seq<Seq<char>>, l: Seq<char>, k: int)
    ensures
        marked_binary(done.push(l), k) == (marked_binary(done, k) || (header_count(done.push(l))
            - 1 == k && is_binary_marker(l))),
{
    let all = done.push(l);
    assert(all.drop_last() =~= done);
    assert forall|p: int| 0 <= p < done.len() implies #[trigger] file_of_line(all, p)
        == file_of_line(done, p) && all[p] == done[p] by {
        assert(all.take(p + 1) =~= done.take(p + 1));
    }
    assert(all.take(done.len() + 1int) =~= all);
    assert(file_of_line(all, done.len() as int) == header_count(all) - 1);
    if marked_binary(all, k) {
        let p = choose|p: int| 0 <= p < all.len() && #[trigger] file_of_line(all, p) == k && is_binary_marker(all[p]);
        if p < done.len() {
            assert(file_of_line(done, p) == k);
        }
    }
    if marked_binary(done, k) {
        let p = choose|p: int| 0 <= p < done.len() && #[trigger] file_of_line(done, p) == k && is_binary_marker(done[p]);
        assert(file_of_line(all, p) == k);
    }
    if header_count(all) - 1 == k && is_binary_marker(l) {
        assert(file_of_line(all, done.len() as int) == k);
    }
}

/// The parser's files, after the lines `done`, match the file headers among
/// them, and each is binary exactly when one of its own lines marks it so.
pub open spec fn binary_inv(st: ParseState, done: Seq<Seq<char>>) -> bool {
    &&& st.files.len() + (if st.file is Some { 1nat } else { 0nat }) == header_count(done)
    &&& (st.file is Some) == (header_count(done) > 0)
    &&& forall|k: int|
        0 <= k < st.files.len() ==> (#[trigger] st.files[k]).is_binary == marked_binary(done, k)
    &&& st.file matches Some(f) ==> f.is_binary == marked_binary(done, header_count(done) - 1)
}

proof fn lemma_step_binary(st: ParseState, done: Seq<Seq<char>>, l: Seq<char>)
    requires
        binary_inv(st, done),
    ensures
        step(st, l) matches Step::Next(s2) ==> binary_inv(s2, done.push(l)),
{
    let all = done.push(l);
    let c = header_count(done);
    assert(all.drop_last() =~= done);
    lemma_header_not_marker(l);
    if let Step::Next(s2) = step(st, l) {
        assert forall|k: int| 0 <= k < all.len() + 1 implies marked_binary(all, k) == (
        marked_binary(done, k) || (header_count(all) - 1 == k && is_binary_marker(l))) by {
            lemma_marked_push(done, l, k);
        }
        if is_file_header(l) {
            assert(header_count(all) == c + 1);
            lemma_marked_push(done, l, c as int);
            assert(!marked_binary(done, c as int)) by {
                if marked_binary(done, c as int) {
                    let p = choose|p: int|
                        0 <= p < done.len() && #[trigger] file_of_line(done, p) == c as int
                            && is_binary_marker(done[p]);
                    lemma_header_count_prefix(done, p + 1);
                }
            }
            let s1 = flush_hunk_spec(st);
            assert forall|k: int| 0 <= k < s2.files.len() implies (#[trigger] s2.files[k]).is_binary
                == marked_binary(all, k) by {
                lemma_marked_push(done, l, k);
                if k < st.files.len() {
                    assert(s2.files[k] == st.files[k]);
                }
            }
        } else {
            assert(header_count(all) == c);
            assert forall|k: int| 0 <= k < s2.files.len() implies (#[trigger] s2.files[k]).is_binary
                == marked_binary(all, k) by {
                lemma_marked_push(done, l, k);
                assert(s2.files[k] == st.files[k]);
            }
            if let Some(f) = st.file {
                lemma_marked_push(done, l, c - 1);
            }
        }
    }
}

proof fn lemma_run_binary(st: ParseState, done: Seq<Seq<char>>, rest: Seq<Seq<char>>)
    requires
        binary_inv(st, done),
    ensures
        run(st, rest) matches Step::Next(s2) ==> binary_inv(s2, done + rest),
    decreases rest.len(),
{
    if rest.len() == 0 {
        assert(done + rest =~= done);
    } else {
        lemma_step_binary(st, done, rest[0]);
        if let Step::Next(s1) = step(st, rest[0]) {
            lemma_run_binary(s1, done.push(rest[0]), rest.drop_first());
            assert(done.push(rest[0]) + rest.drop_first() =~= done + rest);
        }
    }
}

/// A diff has one file per `diff --git` line, in order, and a file is
/// binary exactly when one of its own lines (from its `diff --git` line up
/// to the next one) starts with `Binary files ` or `GIT binary patch`: a
/// file opened by a `diff --git` line starts as not binary.
pub proof fn law_binary_files(input: Seq<char>)
    ensures
        parse_diff_spec(input) matches ParseOutcome::Parsed(files) ==> (files.len() == header_count(
            lines(input),
        ) && forall|k: int|
            0 <= k < files.len() ==> (#[trigger] files[k]).is_binary == marked_binary(
                lines(input),
                k,
            )),
{
    let ls = lines(input);
    assert(header_count(Seq::<Seq<char>>::empty()) == 0);
    assert(binary_inv(initial_state(), Seq::empty()));
    lemma_run_binary(initial_state(), Seq::empty(), ls);
    assert(Seq::<Seq<char>>::empty() + ls =~= ls);
    if let Step::Next(st) = run(initial_state(), ls) {
        let files = close_file(flush_hunk_spec(st));
        assert forall|k: int| 0 <= k < files.len() implies (#[trigger] files[k]).is_binary
            == marked_binary(ls, k) by {
            if k < st.files.len() {
                assert(files[k] == st.files[k]);
            }
        }
    }
}

} // verus!
