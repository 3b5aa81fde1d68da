//! Turning one file of a diff into two aligned columns of display rows.

use vstd::prelude::*;
use crate::diff::{DiffLineKind, FileDiff, SpecDiffLine, SpecFileDiff, SpecHunk};
use crate::text::{char_seqs, chars_of, copy_range, string_of_range};

verus! {

/// One row of one side of the view.
#[derive(Debug)]
pub struct SideRow {
    /// The line number, on the first row of a line only.
    pub line: Option<u32>,
    pub text: String,
    pub kind: RowKind,
}

#[derive(Debug, Clone, Copy, PartialEq, Eq, Structural)]
pub enum RowKind {
    Context,
    Add,
    Del,
    NoNewline,
    Binary,
}

/// A file laid out in two columns: the old side on the left, the new side on
/// the right.
#[derive(Debug)]
pub struct FileView {
    pub left_rows: Vec<SideRow>,
    pub right_rows: Vec<SideRow>,
    /// The row at which each hunk starts.
    pub hunk_starts: Vec<usize>,
    /// The number of rows of the longer side.
    pub total_rows: usize,
}

pub struct SpecSideRow {
    pub line: Option<u32>,
    pub text: Seq<char>,
    pub kind: RowKind,
}

pub struct SpecFileView {
    pub left_rows: Seq<SpecSideRow>,
    pub right_rows: Seq<SpecSideRow>,
    pub hunk_starts: Seq<usize>,
    pub total_rows: usize,
}

impl View for SideRow {
    type V = SpecSideRow;

    open spec fn view(&self) -> SpecSideRow {
        SpecSideRow { line: self.line, text: self.text@, kind: self.kind }
    }
}

/// The models of a sequence of rows.
pub open spec fn rows_view(v: Seq<SideRow>) -> Seq<SpecSideRow> {
    v.map_values(|r: SideRow| r@)
}

impl View for FileView {
    type V = SpecFileView;

    open spec fn view(&self) -> SpecFileView {
        SpecFileView {
            left_rows: rows_view(self.left_rows@),
            right_rows: rows_view(self.right_rows@),
            hunk_starts: self.hunk_starts@,
            total_rows: self.total_rows,
        }
    }
}

impl Clone for SideRow {
    fn clone(&self) -> (r: Self)
        ensures
            r@ == self@,
    {
        SideRow { line: self.line, text: self.text.clone(), kind: self.kind }
    }
}

fn clone_rows(rows: &Vec<SideRow>) -> (r: Vec<SideRow>)
    ensures
        rows_view(r@) == rows_view(rows@),
{
    let mut out: Vec<SideRow> = Vec::new();
    let mut i: usize = 0;
    while i < rows.len()
        invariant
            i <= rows@.len(),
            out@.len() == i,
            forall|j: int| 0 <= j < i ==> (#[trigger] out@[j])@ == rows@[j]@,
        decreases rows@.len() - i,
    {
        out.push(rows[i].clone());
        i = i + 1;
    }
    assert(rows_view(out@) =~= rows_view(rows@));
    out
}

impl Clone for FileView {
    fn clone(&self) -> (r: Self)
        ensures
            r@ == self@,
    {
        FileView {
            left_rows: clone_rows(&self.left_rows),
            right_rows: clone_rows(&self.right_rows),
            hunk_starts: self.hunk_starts.clone(),
            total_rows: self.total_rows,
        }
    }
}

/// Columns between two tab stops.
pub const TAB_WIDTH: usize = 4;

// ---------------------------------------------------------------------------
// Character widths
// ---------------------------------------------------------------------------

/// The display width that the `unicode-width` crate gives a character, or
/// `None` for a control character.
pub uninterp spec fn unicode_char_width(c: char) -> Option<usize>;

/// `UnicodeWidthChar::width` of `unicode-width`: the columns that `c` takes
/// on a terminal, or `None` for a control character. Its source gives `None`
/// below U+0020 and from U+007F to U+009F, 1 for the rest of ASCII, a
/// width for every character from U+00A0 on, and no width above 3; the
/// widths beyond ASCII come from Unicode tables and are left unsaid here.
#[verifier::external_body]
fn char_width(c: char) -> (r: Option<usize>)
    ensures
        r == unicode_char_width(c),
        c < ' ' ==> r is None,
        ' ' <= c && c < '\u{7f}' ==> r == Some(1usize),
        '\u{7f}' <= c && c < '\u{a0}' ==> r is None,
        '\u{a0}' <= c ==> r is Some,
        r matches Some(w) ==> w <= 3,
{
    unicode_width::UnicodeWidthChar::width(c)
}

/// The width that wrapping counts for a character: a control character
/// counts as 0, the rest of ASCII as 1, any other character as
/// `unicode-width` gives it.
pub open spec fn wrap_width(c: char) -> nat {
    if ' ' > c || ('\u{7f}' <= c && '\u{a0}' > c) {
        0
    } else if '\u{7f}' > c {
        1
    } else {
        match unicode_char_width(c) {
            Some(w) => w as nat,
            None => 0,
        }
    }
}

/// The width that tab expansion counts for a character: at least 1.
pub open spec fn column_width(c: char) -> nat {
    if wrap_width(c) >= 1 {
        wrap_width(c)
    } else {
        1
    }
}

// ---------------------------------------------------------------------------
// Tabs and wrapping
// ---------------------------------------------------------------------------

/// The spaces that a tab at column `col` expands to: up to the next tab
/// stop.
pub open spec fn tab_spaces(tab: nat, col: nat) -> nat {
    if tab == 0 {
        0
    } else {
        (tab - col % tab) as nat
    }
}

/// The column, taken modulo `tab`, after a character `c` at column `col`.
pub open spec fn next_column(tab: nat, col: nat, c: char) -> nat {
    if tab == 0 {
        0
    } else {
        (col + column_width(c)) % tab
    }
}

/// `s` with each tab replaced by the spaces up to the next tab stop, when
/// the text starts at column `col` (taken modulo `tab`).
pub open spec fn expand_tabs_from(s: Seq<char>, tab: nat, col: nat) -> Seq<char>
    decreases s.len(),
{
    if s.len() == 0 {
        Seq::empty()
    } else if s[0] == '\t' {
        Seq::new(tab_spaces(tab, col), |i: int| ' ') + expand_tabs_from(s.drop_first(), tab, 0)
    } else {
        seq![s[0]] + expand_tabs_from(s.drop_first(), tab, next_column(tab, col, s[0]))
    }
}

/// `s` with its tabs expanded to tab stops every `tab` columns.
pub open spec fn expand_tabs_spec(s: Seq<char>, tab: nat) -> Seq<char> {
    expand_tabs_from(s, tab, 0)
}

/// Where a segment of at most `width` columns ends, scanning `s` from `i`
/// with `used` columns already taken. The segment always takes its first
/// character, however wide.
pub open spec fn split_point(s: Seq<char>, width: nat, i: int, used: nat) -> int
    decreases s.len() - i,
{
    if i >= s.len() || i < 0 {
        s.len() as int
    } else if used + wrap_width(s[i]) > width && i > 0 {
        i
    } else {
        split_point(s, width, i + 1, used + wrap_width(s[i]))
    }
}

pub proof fn lemma_split_point(s: Seq<char>, width: nat, i: int, used: nat)
    requires
        0 <= i <= s.len(),
    ensures
        i <= split_point(s, width, i, used) <= s.len(),
        i == 0 && s.len() > 0 ==> split_point(s, width, i, used) >= 1,
    decreases s.len() - i,
{
    if i < s.len() {
        if !(used + wrap_width(s[i]) > width && i > 0) {
            lemma_split_point(s, width, i + 1, used + wrap_width(s[i]));
        }
    }
}

/// The columns that the characters of `s` take when wrapping.
pub open spec fn seq_wrap_width(s: Seq<char>) -> nat
    decreases s.len(),
{
    if s.len() == 0 {
        0
    } else {
        seq_wrap_width(s.drop_last()) + wrap_width(s.last())
    }
}

/// The first segment of `s` that fits in `width` columns, and the rest.
pub open spec fn split_once_spec(s: Seq<char>, width: nat) -> (Seq<char>, Seq<char>) {
    let k = split_point(s, width, 0, 0);
    (s.take(k), s.skip(k))
}

/// `s` cut into consecutive segments of at most `width` columns each.
pub open spec fn split_all_spec(s: Seq<char>, width: nat) -> Seq<Seq<char>>
    decreases s.len(),
{
    if s.len() == 0 {
        Seq::empty()
    } else {
        proof {
            lemma_split_point(s, width, 0, 0);
        }
        seq![split_once_spec(s, width).0] + split_all_spec(split_once_spec(s, width).1, width)
    }
}

/// The segments that a text of a side is shown in, `width` columns wide:
/// none without a text, one empty segment at width 0; otherwise the text with
/// its tabs expanded, cut into segments.
pub open spec fn wrap_spec(text: Option<Seq<char>>, width: nat) -> Seq<Seq<char>> {
    match text {
        None => Seq::empty(),
        Some(t) => if width == 0 {
            seq![Seq::empty()]
        } else {
            let expanded = if t.contains('\t') {
                expand_tabs_spec(t, TAB_WIDTH as nat)
            } else {
                t
            };
            let (first, rest) = split_once_spec(expanded, width);
            if rest.len() == 0 {
                seq![first]
            } else {
                seq![first] + split_all_spec(rest, width)
            }
        },
    }
}

fn expand_tabs(text: &[char], tab_width: usize) -> (r: Vec<char>)
    requires
        tab_width > 0 || !text@.contains('\t'),
    ensures
        r@ == expand_tabs_spec(text@, tab_width as nat),
{
    let mut output: Vec<char> = Vec::new();
    let mut column: usize = 0;
    let mut i: usize = 0;
    proof {
        assert(text@.skip(0) =~= text@);
        assert(output@ + expand_tabs_from(text@, tab_width as nat, 0) =~= expand_tabs_from(
            text@,
            tab_width as nat,
            0,
        ));
    }
    while i < text.len()
        invariant
            i <= text@.len(),
            tab_width > 0 || !text@.contains('\t'),
            column < tab_width || column == 0,
            output@ + expand_tabs_from(text@.skip(i as int), tab_width as nat, column as nat)
                == expand_tabs_spec(text@, tab_width as nat),
        decreases text@.len() - i,
    {
        let ch = text[i];
        let ghost rest = text@.skip(i as int);
        let ghost prev = output@;
        assert(rest[0] == ch);
        assert(rest.drop_first() =~= text@.skip(i + 1));
        if ch == '\t' {
            assert(text@.contains(text@[i as int]));
            let spaces = tab_width - column;
            assert(column as nat % tab_width as nat == column) by (nonlinear_arith)
                requires
                    column < tab_width,
            ;
            assert(spaces == tab_spaces(tab_width as nat, column as nat));
            let mut k: usize = 0;
            while k < spaces
                invariant
                    k <= spaces,
                    output@ == prev + Seq::new(k as nat, |j: int| ' '),
                decreases spaces - k,
            {
                output.push(' ');
                k = k + 1;
                assert(output@ =~= prev + Seq::new(k as nat, |j: int| ' '));
            }
            assert(prev + Seq::new(spaces as nat, |j: int| ' ') + expand_tabs_from(
                text@.skip(i + 1),
                tab_width as nat,
                0,
            ) =~= prev + expand_tabs_from(rest, tab_width as nat, column as nat));
            column = 0;
        } else {
            output.push(ch);
            let w = match char_width(ch) {
                Some(w) => if w >= 1 {
                    w
                } else {
                    1
                },
                None => 1,
            };
            assert(w == column_width(ch));
            let next = if tab_width == 0 {
                0
            } else if w >= tab_width - column {
                (w - (tab_width - column)) % tab_width
            } else {
                column + w
            };
            proof {
                if tab_width > 0 {
                    let t = tab_width as int;
                    if w >= tab_width - column {
                        let a = w - (tab_width - column);
                        vstd::arithmetic::div_mod::lemma_mod_add_multiples_vanish(a, t);
                        assert(column + w == t + a);
                    } else {
                        vstd::arithmetic::div_mod::lemma_small_mod((column + w) as nat, t as nat);
                    }
                }
            }
            assert(next == next_column(tab_width as nat, column as nat, ch));
            assert(prev.push(ch) + expand_tabs_from(
                text@.skip(i + 1),
                tab_width as nat,
                next as nat,
            ) =~= prev + expand_tabs_from(rest, tab_width as nat, column as nat));
            column = next;
        }
        i = i + 1;
    }
    assert(text@.skip(i as int) =~= Seq::<char>::empty());
    assert(output@ + Seq::<char>::empty() =~= output@);
    output
}

/// The first part of `text` that fits in `width` columns (at least its
/// first character), and the rest.
fn split_once(text: &[char], width: usize) -> (r: (Vec<char>, Vec<char>))
    ensures
        r.0@ == split_once_spec(text@, width as nat).0,
        r.1@ == split_once_spec(text@, width as nat).1,
{
    let mut current_width: usize = 0;
    let mut i: usize = 0;
    let mut done = false;
    while i < text.len() && !done
        invariant
            i <= text@.len(),
            i == 0 ==> current_width == 0,
            !done ==> split_point(text@, width as nat, 0, 0) == split_point(
                text@,
                width as nat,
                i as int,
                current_width as nat,
            ),
            done ==> split_point(text@, width as nat, 0, 0) == i,
        decreases text@.len() - i, (if done { 0int } else { 1int }),
    {
        let ch_width = match char_width(text[i]) {
            Some(w) => w,
            None => 0,
        };
        assert(ch_width == wrap_width(text@[i as int]));
        let too_wide = current_width > width || ch_width > width - current_width;
        if too_wide && i > 0 {
            done = true;
        } else {
            if i == 0 {
                current_width = ch_width;
            } else {
                current_width = current_width + ch_width;
            }
            i = i + 1;
        }
    }
    proof {
        lemma_split_point(text@, width as nat, 0, 0);
    }
    (copy_range(text, 0, i), copy_range(text, i, text.len()))
}

/// `text` cut into consecutive segments of at most `width` columns each.
fn split_all(text: &[char], width: usize) -> (r: Vec<Vec<char>>)
    ensures
        char_seqs(r@) == split_all_spec(text@, width as nat),
        char_seqs(r@).flatten() == text@,
        forall|j: int| 0 <= j < r@.len() ==> (#[trigger] char_seqs(r@)[j]).len() > 0,
        (text@.len() == 0) == (r@.len() == 0),
{
    proof {
        law_split_all_pieces(text@, width as nat);
    }
    let mut segments: Vec<Vec<char>> = Vec::new();
    let mut remaining = copy_range(text, 0, text.len());
    proof {
        assert(remaining@ =~= text@);
        assert(char_seqs(segments@) + split_all_spec(text@, width as nat)
            =~= split_all_spec(text@, width as nat));
    }
    while remaining.len() > 0
        invariant
            char_seqs(segments@) + split_all_spec(remaining@, width as nat)
                == split_all_spec(text@, width as nat),
        decreases remaining@.len(),
    {
        let (head, tail) = split_once(&remaining, width);
        proof {
            lemma_split_point(remaining@, width as nat, 0, 0);
        }
        let ghost prev = char_seqs(segments@);
        segments.push(head);
        assert(char_seqs(segments@) =~= prev.push(head@));
        assert(prev.push(head@) + split_all_spec(tail@, width as nat) =~= prev + split_all_spec(
            remaining@,
            width as nat,
        ));
        remaining = tail;
    }
    assert(char_seqs(segments@) + Seq::<Seq<char>>::empty()
        =~= char_seqs(segments@));
    segments
}

fn contains_tab(text: &[char]) -> (r: bool)
    ensures
        r == text@.contains('\t'),
{
    let mut i: usize = 0;
    while i < text.len()
        invariant
            i <= text@.len(),
            forall|k: int| 0 <= k < i ==> text@[k] != '\t',
        decreases text@.len() - i,
    {
        if text[i] == '\t' {
            return true;
        }
        i = i + 1;
    }
    false
}

/// The segments that `text` is shown in, `width` columns wide.
fn wrap_text(text: Option<&[char]>, width: usize) -> (r: Vec<Vec<char>>)
    ensures
        char_seqs(r@) == wrap_spec(
            match text {
                Some(t) => Some(t@),
                None => None,
            },
            width as nat,
        ),
        width > 0 ==> (text matches Some(t) ==> {
            &&& r@.len() >= 1
            &&& char_seqs(r@).flatten() == shown_text(t@)
            &&& t@.len() == 0 ==> char_seqs(r@) == seq![Seq::<char>::empty()]
            &&& t@.len() > 0 ==> forall|j: int| 0 <= j < r@.len() ==> (#[trigger] char_seqs(r@)[j]).len() > 0
        }),
{
    proof {
        if let Some(t) = text {
            if width > 0 {
                law_wrap_keeps_text(t@, width as nat);
                law_wrap_segments_nonempty(t@, width as nat);
            }
        }
    }
    let text = match text {
        Some(t) => t,
        None => {
            let r: Vec<Vec<char>> = Vec::new();
            assert(char_seqs(r@) =~= Seq::<Seq<char>>::empty());
            return r;
        },
    };
    if width == 0 {
        let mut r: Vec<Vec<char>> = Vec::new();
        r.push(Vec::new());
        assert(char_seqs(r@) =~= seq![Seq::<char>::empty()]);
        return r;
    }
    let expanded = if contains_tab(text) {
        expand_tabs(text, TAB_WIDTH)
    } else {
        copy_range(text, 0, text.len())
    };
    assert(text@.subrange(0, text@.len() as int) =~= text@);
    let (first, rest) = split_once(&expanded, width);
    if rest.len() == 0 {
        let mut r: Vec<Vec<char>> = Vec::new();
        r.push(first);
        assert(char_seqs(r@) =~= seq![first@]);
        return r;
    }
    let tail = split_all(&rest, width);
    let ghost first_v = first@;
    let mut segments: Vec<Vec<char>> = Vec::new();
    segments.push(first);
    let mut i: usize = 0;
    while i < tail.len()
        invariant
            i <= tail@.len(),
            segments@.len() == i + 1,
            segments@[0]@ == first_v,
            forall|j: int| 0 <= j < i ==> (#[trigger] segments@[j + 1])@ == tail@[j]@,
        decreases tail@.len() - i,
    {
        let c = copy_range(&tail[i], 0, tail[i].len());
        assert(c@ =~= tail@[i as int]@);
        segments.push(c);
        i = i + 1;
    }
    assert(char_seqs(segments@) =~= seq![first_v] + char_seqs(tail@)) by {
        assert forall|j: int| 0 <= j < segments@.len() implies #[trigger] char_seqs(segments@)[j]
            == (seq![first_v] + char_seqs(tail@))[j] by {
            if j > 0 {
                assert(segments@[(j - 1) + 1]@ == tail@[j - 1]@);
            }
        }
    }
    segments
}


// ---------------------------------------------------------------------------
// Rows
// ---------------------------------------------------------------------------

/// The kind of the rows of a line of `k`.
pub open spec fn row_kind(k: DiffLineKind) -> RowKind {
    match k {
        DiffLineKind::Context => RowKind::Context,
        DiffLineKind::Add => RowKind::Add,
        DiffLineKind::Del => RowKind::Del,
        DiffLineKind::NoNewline => RowKind::NoNewline,
    }
}

/// The text that a line shows on one side (`left` for the old side): an
/// added line has none on the old side, a deleted line none on the new side.
pub open spec fn side_text(l: SpecDiffLine, left: bool) -> Option<Seq<char>> {
    if (left && l.kind == DiffLineKind::Add) || (!left && l.kind == DiffLineKind::Del) {
        None
    } else {
        Some(l.text)
    }
}

pub open spec fn side_line(l: SpecDiffLine, left: bool) -> Option<u32> {
    if left {
        l.old_line
    } else {
        l.new_line
    }
}

/// The rows of a line's segments: the line number on the first only.
pub open spec fn segment_rows(segs: Seq<Seq<char>>, line: Option<u32>, kind: RowKind) -> Seq<
    SpecSideRow,
> {
    Seq::new(
        segs.len(),
        |i: int| SpecSideRow { line: if i == 0 { line } else { None }, text: segs[i], kind },
    )
}

/// The rows of one line on one side, `width` columns wide.
pub open spec fn line_rows(l: SpecDiffLine, width: nat, left: bool) -> Seq<SpecSideRow> {
    segment_rows(wrap_spec(side_text(l, left), width), side_line(l, left), row_kind(l.kind))
}

/// The rows of consecutive lines on one side.
pub open spec fn lines_rows(ls: Seq<SpecDiffLine>, width: nat, left: bool) -> Seq<SpecSideRow>
    decreases ls.len(),
{
    if ls.len() == 0 {
        Seq::empty()
    } else {
        lines_rows(ls.drop_last(), width, left) + line_rows(ls.last(), width, left)
    }
}

/// The rows of consecutive hunks on one side.
pub open spec fn hunks_rows(hs: Seq<SpecHunk>, width: nat, left: bool) -> Seq<SpecSideRow>
    decreases hs.len(),
{
    if hs.len() == 0 {
        Seq::empty()
    } else {
        hunks_rows(hs.drop_last(), width, left) + lines_rows(hs.last().lines, width, left)
    }
}

pub open spec fn max_nat(a: nat, b: nat) -> nat {
    if a >= b {
        a
    } else {
        b
    }
}

/// The one row of each side of a binary file.
pub open spec fn binary_row() -> SpecSideRow {
    SpecSideRow { line: None, text: "Binary file"@, kind: RowKind::Binary }
}

/// The view of a file: a binary file is one row on each side; otherwise each
/// line of each hunk gives its rows on each side, the old side `left_width`
/// columns wide and the new side `right_width`, and a hunk starts at the row
/// where the longer side ended before it.
pub open spec fn build_rows_spec(f: SpecFileDiff, left_width: nat, right_width: nat) -> SpecFileView {
    if f.is_binary {
        SpecFileView {
            left_rows: seq![binary_row()],
            right_rows: seq![binary_row()],
            hunk_starts: seq![0usize],
            total_rows: 1,
        }
    } else {
        let left = hunks_rows(f.hunks, left_width, true);
        let right = hunks_rows(f.hunks, right_width, false);
        SpecFileView {
            left_rows: left,
            right_rows: right,
            hunk_starts: Seq::new(
                f.hunks.len(),
                |k: int|
                    max_nat(
                        hunks_rows(f.hunks.take(k), left_width, true).len(),
                        hunks_rows(f.hunks.take(k), right_width, false).len(),
                    ) as usize,
            ),
            total_rows: max_nat(left.len(), right.len()) as usize,
        }
    }
}

/// Appends one row per segment: the line number on the first only.
fn push_rows(rows: &mut Vec<SideRow>, segments: &Vec<Vec<char>>, line: Option<u32>, kind: RowKind)
    ensures
        rows_view(final(rows)@) == rows_view(old(rows)@) + segment_rows(
            char_seqs(segments@),
            line,
            kind,
        ),
{
    let ghost start = rows_view(rows@);
    let mut index: usize = 0;
    while index < segments.len()
        invariant
            index <= segments@.len(),
            rows_view(rows@) == start + segment_rows(char_seqs(segments@), line, kind).take(
                index as int,
            ),
        decreases segments@.len() - index,
    {
        let row = SideRow {
            line: if index == 0 {
                line
            } else {
                None
            },
            text: string_of_range(&segments[index], 0, segments[index].len()),
            kind,
        };
        let ghost before = rows_view(rows@);
        rows.push(row);
        index = index + 1;
        proof {
            assert(row@.text =~= segments@[index - 1]@);
            assert(rows_view(rows@) =~= before.push(row@));
            assert(segment_rows(char_seqs(segments@), line, kind).take(index as int) =~= segment_rows(
                char_seqs(segments@),
                line,
                kind,
            ).take(index - 1).push(row@));
        }
    }
    assert(segment_rows(char_seqs(segments@), line, kind).take(index as int) =~= segment_rows(
        char_seqs(segments@),
        line,
        kind,
    ));
}

/// Lays out one file in two columns, `left_width` and `right_width`
/// columns wide.
pub fn build_rows(file: &FileDiff, left_width: usize, right_width: usize) -> (r: FileView)
    ensures
        r@ == build_rows_spec(file@, left_width as nat, right_width as nat),
{
    if file.is_binary {
        let v = FileView {
            left_rows: vec![
                SideRow { line: None, text: String::from_str("Binary file"), kind: RowKind::Binary },
            ],
            right_rows: vec![
                SideRow { line: None, text: String::from_str("Binary file"), kind: RowKind::Binary },
            ],
            hunk_starts: vec![0],
            total_rows: 1,
        };
        assert(v@.left_rows =~= seq![binary_row()]);
        assert(v@.right_rows =~= seq![binary_row()]);
        assert(v@.hunk_starts =~= seq![0usize]);
        return v;
    }
    let ghost hs = file@.hunks;
    let ghost lw = left_width as nat;
    let ghost rw = right_width as nat;
    let mut left_rows: Vec<SideRow> = Vec::new();
    let mut right_rows: Vec<SideRow> = Vec::new();
    let mut hunk_starts: Vec<usize> = Vec::new();
    let mut h: usize = 0;
    proof {
        assert(hs.take(0) =~= Seq::<SpecHunk>::empty());
        assert(rows_view(left_rows@) =~= Seq::<SpecSideRow>::empty());
        assert(rows_view(right_rows@) =~= Seq::<SpecSideRow>::empty());
    }
    while h < file.hunks.len()
        invariant
            h <= hs.len(),
            hs == file@.hunks,
            lw == left_width,
            rw == right_width,
            rows_view(left_rows@) == hunks_rows(hs.take(h as int), lw, true),
            rows_view(right_rows@) == hunks_rows(hs.take(h as int), rw, false),
            hunk_starts@ == Seq::new(
                h as nat,
                |k: int|
                    max_nat(
                        hunks_rows(hs.take(k), lw, true).len(),
                        hunks_rows(hs.take(k), rw, false).len(),
                    ) as usize,
            ),
        decreases hs.len() - h,
    {
        let start = if left_rows.len() >= right_rows.len() {
            left_rows.len()
        } else {
            right_rows.len()
        };
        let ghost starts_before = hunk_starts@;
        hunk_starts.push(start);
        proof {
            assert(hunk_starts@ =~= Seq::new(
                (h + 1) as nat,
                |k: int|
                    max_nat(
                        hunks_rows(hs.take(k), lw, true).len(),
                        hunks_rows(hs.take(k), rw, false).len(),
                    ) as usize,
            ));
        }
        let hunk = &file.hunks[h];
        let ghost ls = hunk@.lines;
        assert(ls == hs[h as int].lines);
        let ghost left_before = rows_view(left_rows@);
        let ghost right_before = rows_view(right_rows@);
        let mut j: usize = 0;
        proof {
            assert(ls.take(0) =~= Seq::<SpecDiffLine>::empty());
            assert(left_before + lines_rows(ls.take(0), lw, true) =~= left_before);
            assert(right_before + lines_rows(ls.take(0), rw, false) =~= right_before);
        }
        while j < hunk.lines.len()
            invariant
                j <= ls.len(),
                ls == hunk@.lines,
                lw == left_width,
                rw == right_width,
                rows_view(left_rows@) == left_before + lines_rows(ls.take(j as int), lw, true),
                rows_view(right_rows@) == right_before + lines_rows(ls.take(j as int), rw, false),
            decreases ls.len() - j,
        {
            let line = &hunk.lines[j];
            assert(line@ == ls[j as int]);
            let text = chars_of(line.text.as_str());
            let (left_text, right_text, kind): (Option<&[char]>, Option<&[char]>, RowKind) =
                match line.kind {
                DiffLineKind::Context => (Some(text.as_slice()), Some(text.as_slice()), RowKind::Context),
                DiffLineKind::Add => (None, Some(text.as_slice()), RowKind::Add),
                DiffLineKind::Del => (Some(text.as_slice()), None, RowKind::Del),
                DiffLineKind::NoNewline => (
                    Some(text.as_slice()),
                    Some(text.as_slice()),
                    RowKind::NoNewline,
                ),
            };
            let left_segments = wrap_text(left_text, left_width);
            let right_segments = wrap_text(right_text, right_width);
            let ghost l_before = rows_view(left_rows@);
            let ghost r_before = rows_view(right_rows@);
            push_rows(&mut left_rows, &left_segments, line.old_line, kind);
            push_rows(&mut right_rows, &right_segments, line.new_line, kind);
            j = j + 1;
            proof {
                assert(ls.take(j as int).drop_last() =~= ls.take(j - 1));
                assert(ls.take(j as int).last() == ls[j - 1]);
                assert(match left_text {
                    Some(t) => Some(t@),
                    None => None,
                } == side_text(ls[j - 1], true));
                assert(match right_text {
                    Some(t) => Some(t@),
                    None => None,
                } == side_text(ls[j - 1], false));
                assert(l_before + line_rows(ls[j - 1], lw, true) =~= left_before + lines_rows(
                    ls.take(j as int),
                    lw,
                    true,
                ));
                assert(r_before + line_rows(ls[j - 1], rw, false) =~= right_before + lines_rows(
                    ls.take(j as int),
                    rw,
                    false,
                ));
            }
        }
        h = h + 1;
        proof {
            assert(ls.take(ls.len() as int) =~= ls);
            assert(hs.take(h as int).drop_last() =~= hs.take(h - 1));
            assert(hs.take(h as int).last() == hs[h - 1]);
        }
    }
    proof {
        assert(hs.take(h as int) =~= hs);
    }
    let total_rows = if left_rows.len() >= right_rows.len() {
        left_rows.len()
    } else {
        right_rows.len()
    };
    FileView { left_rows, right_rows, hunk_starts, total_rows }
}


// ---------------------------------------------------------------------------
// Laws of wrapping and layout
// ---------------------------------------------------------------------------

/// The text that a side's segments show, tabs expanded.
pub open spec fn shown_text(t: Seq<char>) -> Seq<char> {
    if t.contains('\t') {
        expand_tabs_spec(t, TAB_WIDTH as nat)
    } else {
        t
    }
}

proof fn lemma_split_all_flatten(s: Seq<char>, width: nat)
    ensures
        split_all_spec(s, width).flatten() == s,
    decreases s.len(),
{
    if s.len() > 0 {
        lemma_split_point(s, width, 0, 0);
        let k = split_point(s, width, 0, 0);
        lemma_split_all_flatten(s.skip(k), width);
        let parts = split_all_spec(s, width);
        assert(parts.first() == s.take(k));
        assert(parts.drop_first() =~= split_all_spec(s.skip(k), width));
        assert(s.take(k) + s.skip(k) =~= s);
    }
}

/// Wrapping loses and adds nothing: at any width but 0 the segments of a
/// text, put back together, are the text (its tabs expanded).
pub proof fn law_wrap_keeps_text(t: Seq<char>, width: nat)
    requires
        width > 0,
    ensures
        wrap_spec(Some(t), width).flatten() == shown_text(t),
{
    let e = shown_text(t);
    lemma_split_point(e, width, 0, 0);
    let k = split_point(e, width, 0, 0);
    let segs = wrap_spec(Some(t), width);
    if e.skip(k).len() == 0 {
        assert(e.take(k) =~= e);
        assert(segs =~= seq![e]);
        segs.lemma_flatten_one_element();
    } else {
        lemma_split_all_flatten(e.skip(k), width);
        assert(segs.first() == e.take(k));
        assert(segs.drop_first() =~= split_all_spec(e.skip(k), width));
        assert(e.take(k) + e.skip(k) =~= e);
    }
}

proof fn lemma_split_all_nonempty(s: Seq<char>, width: nat)
    ensures
        forall|j: int|
            0 <= j < split_all_spec(s, width).len() ==> (#[trigger] split_all_spec(s, width)[j]).len()
                > 0,
        (s.len() == 0) == (split_all_spec(s, width).len() == 0),
    decreases s.len(),
{
    if s.len() > 0 {
        lemma_split_point(s, width, 0, 0);
        let k = split_point(s, width, 0, 0);
        lemma_split_all_nonempty(s.skip(k), width);
        let parts = split_all_spec(s, width);
        assert forall|j: int| 0 <= j < parts.len() implies (#[trigger] parts[j]).len() > 0 by {
            if j > 0 {
                assert(parts[j] == split_all_spec(s.skip(k), width)[j - 1]);
            }
        }
    }
}

/// Splitting, at any width (0 included), cuts a text into pieces none of
/// which is empty and which, put back together, are the text; there are no
/// pieces exactly when the text is empty.
pub proof fn law_split_all_pieces(s: Seq<char>, width: nat)
    ensures
        split_all_spec(s, width).flatten() == s,
        forall|j: int|
            0 <= j < split_all_spec(s, width).len() ==> (#[trigger] split_all_spec(s, width)[j]).len()
                > 0,
        (s.len() == 0) == (split_all_spec(s, width).len() == 0),
{
    lemma_split_all_flatten(s, width);
    lemma_split_all_nonempty(s, width);
}

/// At any width but 0 a text is shown in at least one segment: the empty
/// text in one empty segment, any other text in segments none of which is
/// empty.
pub proof fn law_wrap_segments_nonempty(t: Seq<char>, width: nat)
    requires
        width > 0,
    ensures
        wrap_spec(Some(t), width).len() >= 1,
        t.len() == 0 ==> wrap_spec(Some(t), width) == seq![Seq::<char>::empty()],
        t.len() > 0 ==> forall|j: int|
            0 <= j < wrap_spec(Some(t), width).len() ==> (#[trigger] wrap_spec(Some(t), width)[j]).len()
                > 0,
{
    let e = shown_text(t);
    if t.len() == 0 {
        assert(!t.contains('\t'));
        assert(e.take(0) =~= Seq::<char>::empty());
    }
    if t.len() > 0 {
        if t.contains('\t') {
            assert(expand_tabs_from(t, TAB_WIDTH as nat, 0).len() > 0);
        }
        assert(e.len() > 0);
    }
    lemma_split_point(e, width, 0, 0);
    let k = split_point(e, width, 0, 0);
    let segs = wrap_spec(Some(t), width);
    if e.skip(k).len() != 0 {
        lemma_split_all_nonempty(e.skip(k), width);
        assert forall|j: int| 0 <= j < segs.len() implies (#[trigger] segs[j]).len() > 0 by {
            if j > 0 {
                assert(segs[j] == split_all_spec(e.skip(k), width)[j - 1]);
            }
        }
    }
}

/// A segment fits its width: it is a single character (which always gets a
/// row of its own), or it takes no more than `width` columns.
pub open spec fn segment_fits(seg: Seq<char>, width: nat) -> bool {
    seg.len() == 1 || seq_wrap_width(seg) <= width
}

proof fn lemma_split_point_fits(s: Seq<char>, width: nat, i: int, used: nat)
    requires
        0 <= i <= s.len(),
        i == 0 ==> used == 0,
        i >= 1 ==> used == seq_wrap_width(s.take(i)),
        i >= 2 ==> used <= width,
    ensures
        s.len() > 0 ==> split_point(s, width, i, used) >= 1,
        split_point(s, width, i, used) >= 1 ==> segment_fits(
            s.take(split_point(s, width, i, used)),
            width,
        ),
    decreases s.len() - i,
{
    if i >= s.len() {
        if i == 1 {
            assert(s.take(1).len() == 1);
        }
    } else if used + wrap_width(s[i]) > width && i > 0 {
        if i == 1 {
            assert(s.take(1).len() == 1);
        }
    } else {
        assert(s.take(i + 1).drop_last() =~= s.take(i));
        assert(s.take(i + 1).last() == s[i]);
        if i == 0 {
            assert(s.take(0) =~= Seq::<char>::empty());
        }
        assert(seq_wrap_width(s.take(i + 1)) == seq_wrap_width(s.take(i + 1).drop_last())
            + wrap_width(s.take(i + 1).last()));
        lemma_split_point_fits(s, width, i + 1, used + wrap_width(s[i]));
    }
}

proof fn lemma_split_all_fits(s: Seq<char>, width: nat)
    ensures
        forall|j: int|
            0 <= j < split_all_spec(s, width).len() ==> segment_fits(
                #[trigger] split_all_spec(s, width)[j],
                width,
            ),
    decreases s.len(),
{
    if s.len() > 0 {
        lemma_split_point(s, width, 0, 0);
        lemma_split_point_fits(s, width, 0, 0);
        let k = split_point(s, width, 0, 0);
        lemma_split_all_fits(s.skip(k), width);
        let parts = split_all_spec(s, width);
        assert forall|j: int| 0 <= j < parts.len() implies segment_fits(#[trigger] parts[j], width) by {
            if j > 0 {
                assert(parts[j] == split_all_spec(s.skip(k), width)[j - 1]);
            }
        }
    }
}

/// Every segment that wrapping makes fits the width it was made for.
pub proof fn law_wrap_segments_fit(text: Option<Seq<char>>, width: nat)
    requires
        width > 0,
    ensures
        forall|j: int|
            0 <= j < wrap_spec(text, width).len() ==> segment_fits(
                #[trigger] wrap_spec(text, width)[j],
                width,
            ),
{
    if let Some(t) = text {
        let e = shown_text(t);
        lemma_split_point(e, width, 0, 0);
        lemma_split_point_fits(e, width, 0, 0);
        let k = split_point(e, width, 0, 0);
        let segs = wrap_spec(text, width);
        if k == 0 {
            assert(e.len() == 0);
            assert(e.take(0) =~= Seq::<char>::empty());
            assert(seq_wrap_width(Seq::<char>::empty()) == 0);
        }
        if e.skip(k).len() != 0 {
            lemma_split_all_fits(e.skip(k), width);
            assert forall|j: int| 0 <= j < segs.len() implies segment_fits(#[trigger] segs[j], width) by {
                if j > 0 {
                    assert(segs[j] == split_all_spec(e.skip(k), width)[j - 1]);
                }
            }
        }
    }
}

proof fn lemma_expand_from_no_tabs(s: Seq<char>, tab: nat, col: nat)
    requires
        !s.contains('\t'),
    ensures
        expand_tabs_from(s, tab, col) == s,
    decreases s.len(),
{
    if s.len() > 0 {
        assert(s[0] != '\t') by {
            if s[0] == '\t' {
                assert(s.contains('\t'));
            }
        }
        assert(!s.drop_first().contains('\t')) by {
            if s.drop_first().contains('\t') {
                let k = choose|k: int| 0 <= k < s.drop_first().len() && s.drop_first()[k] == '\t';
                assert(s[k + 1] == '\t');
            }
        }
        lemma_expand_from_no_tabs(s.drop_first(), tab, next_column(tab, col, s[0]));
        assert(seq![s[0]] + s.drop_first() =~= s);
    }
}

/// Expanding a text without tabs leaves it as it is, at any tab width (0
/// included), so the segments of a text do not depend on whether tab
/// expansion is skipped for it.
pub proof fn law_expand_without_tabs(t: Seq<char>, tab: nat)
    requires
        !t.contains('\t'),
    ensures
        expand_tabs_spec(t, tab) == t,
{
    lemma_expand_from_no_tabs(t, tab, 0);
}

/// Each character of `s` is a tab or printable ASCII.
pub open spec fn printable_ascii_or_tab(s: Seq<char>) -> bool {
    forall|i: int| 0 <= i < s.len() ==> #[trigger] s[i] == '\t' || (' ' <= s[i] && '\u{7f}' > s[i])
}

proof fn lemma_expand_reaches_stop(s: Seq<char>, tab: nat, col: nat)
    requires
        tab > 0,
        col < tab,
        s.len() > 0,
        s.last() == '\t',
        printable_ascii_or_tab(s),
    ensures
        (col + expand_tabs_from(s, tab, col).len()) % tab == 0,
    decreases s.len(),
{
    let rest = s.drop_first();
    assert(printable_ascii_or_tab(rest)) by {
        assert forall|i: int| 0 <= i < rest.len() implies #[trigger] rest[i] == '\t' || (' '
            <= rest[i] && '\u{7f}' > rest[i]) by {
            assert(rest[i] == s[i + 1]);
        }
    }
    assert(s[0] == '\t' || (' ' <= s[0] && '\u{7f}' > s[0]));
    if s[0] == '\t' {
        vstd::arithmetic::div_mod::lemma_small_mod(col, tab);
        let n = tab_spaces(tab, col);
        assert(n == tab - col);
        if rest.len() == 0 {
            assert(expand_tabs_from(rest, tab, 0).len() == 0);
            vstd::arithmetic::div_mod::lemma_mod_self_0(tab as int);
        } else {
            assert(rest.last() == s.last());
            lemma_expand_reaches_stop(rest, tab, 0);
            let m = expand_tabs_from(rest, tab, 0).len() as int;
            vstd::arithmetic::div_mod::lemma_mod_add_multiples_vanish(m, tab as int);
        }
    } else {
        assert(s.len() > 1);
        assert(wrap_width(s[0]) == 1);
        let c2 = next_column(tab, col, s[0]);
        assert(c2 == (col + 1) % tab);
        vstd::arithmetic::div_mod::lemma_mod_bound((col + 1) as int, tab as int);
        assert(rest.last() == s.last());
        lemma_expand_reaches_stop(rest, tab, c2);
        let m = expand_tabs_from(rest, tab, c2).len() as int;
        vstd::arithmetic::div_mod::lemma_add_mod_noop((col + 1) as int, m, tab as int);
        vstd::arithmetic::div_mod::lemma_add_mod_noop(c2 as int, m, tab as int);
        vstd::arithmetic::div_mod::lemma_mod_twice((col + 1) as int, tab as int);
    }
}

/// On a text of printable ASCII and tabs, each tab expands to the next tab
/// stop: the expanded text up to the end of each tab is a whole number of
/// tab widths long.
pub proof fn law_tabs_reach_tab_stops(t: Seq<char>, tab: nat, k: int)
    requires
        tab > 0,
        printable_ascii_or_tab(t),
        0 <= k < t.len(),
        t[k] == '\t',
    ensures
        expand_tabs_spec(t.take(k + 1), tab).len() % tab == 0,
{
    let s = t.take(k + 1);
    assert(printable_ascii_or_tab(s)) by {
        assert forall|i: int| 0 <= i < s.len() implies #[trigger] s[i] == '\t' || (' ' <= s[i]
            && '\u{7f}' > s[i]) by {
            assert(s[i] == t[i]);
        }
    }
    lemma_expand_reaches_stop(s, tab, 0);
}

proof fn lemma_expand_from_tab_free(s: Seq<char>, tab: nat, col: nat)
    requires
        tab > 0,
    ensures
        !expand_tabs_from(s, tab, col).contains('\t'),
    decreases s.len(),
{
    if s.len() > 0 {
        let rest = if s[0] == '\t' {
            expand_tabs_from(s.drop_first(), tab, 0)
        } else {
            expand_tabs_from(s.drop_first(), tab, (col + column_width(s[0])) % tab)
        };
        if s[0] == '\t' {
            lemma_expand_from_tab_free(s.drop_first(), tab, 0);
        } else {
            lemma_expand_from_tab_free(s.drop_first(), tab, (col + column_width(s[0])) % tab);
        }
        let head = if s[0] == '\t' {
            Seq::new((tab - col % tab) as nat, |i: int| ' ')
        } else {
            seq![s[0]]
        };
        let out = expand_tabs_from(s, tab, col);
        assert(out == head + rest);
        assert forall|k: int| 0 <= k < out.len() implies out[k] != '\t' by {
            if k >= head.len() {
                assert(out[k] == rest[k - head.len()]);
                assert(rest.contains(rest[k - head.len()]) ==> rest[k - head.len()] != '\t');
            }
        }
    }
}

/// Tab expansion leaves no tab behind.
pub proof fn law_expanded_has_no_tabs(t: Seq<char>)
    ensures
        !shown_text(t).contains('\t'),
{
    if t.contains('\t') {
        lemma_expand_from_tab_free(t, TAB_WIDTH as nat, 0);
    }
}

proof fn lemma_hunks_rows_len_mono(hs: Seq<SpecHunk>, width: nat, left: bool, j: int, k: int)
    requires
        0 <= j <= k <= hs.len(),
    ensures
        hunks_rows(hs.take(j), width, left).len() <= hunks_rows(hs.take(k), width, left).len(),
    decreases k - j,
{
    if j < k {
        lemma_hunks_rows_len_mono(hs, width, left, j, k - 1);
        assert(hs.take(k).drop_last() =~= hs.take(k - 1));
    }
}

/// The hunks of a laid-out file start in order, each within the rows, and
/// the row count is that of the longer side.
pub proof fn law_hunk_starts_ordered(f: SpecFileDiff, left_width: nat, right_width: nat)
    requires
        !f.is_binary ==> hunks_rows(f.hunks, left_width, true).len() <= usize::MAX,
        !f.is_binary ==> hunks_rows(f.hunks, right_width, false).len() <= usize::MAX,
    ensures
        ({
            let v = build_rows_spec(f, left_width, right_width);
            &&& v.total_rows == max_nat(v.left_rows.len(), v.right_rows.len())
            &&& forall|k: int| 0 <= k < v.hunk_starts.len() ==> #[trigger] v.hunk_starts[k] <= v.total_rows
            &&& forall|j: int, k: int|
                0 <= j <= k < v.hunk_starts.len() ==> #[trigger] v.hunk_starts[j] <= #[trigger] v.hunk_starts[k]
        }),
{
    if !f.is_binary {
        let hs = f.hunks;
        let v = build_rows_spec(f, left_width, right_width);
        assert(hs.take(hs.len() as int) =~= hs);
        assert forall|k: int| 0 <= k < v.hunk_starts.len() implies #[trigger] v.hunk_starts[k]
            <= v.total_rows by {
            lemma_hunks_rows_len_mono(hs, left_width, true, k, hs.len() as int);
            lemma_hunks_rows_len_mono(hs, right_width, false, k, hs.len() as int);
        }
        assert forall|j: int, k: int| 0 <= j <= k < v.hunk_starts.len() implies #[trigger] v.hunk_starts[j]
            <= #[trigger] v.hunk_starts[k] by {
            lemma_hunks_rows_len_mono(hs, left_width, true, j, k);
            lemma_hunks_rows_len_mono(hs, right_width, false, j, k);
            lemma_hunks_rows_len_mono(hs, left_width, true, k, hs.len() as int);
            lemma_hunks_rows_len_mono(hs, right_width, false, k, hs.len() as int);
        }
    }
}

proof fn lemma_lines_rows_at(ls: Seq<SpecDiffLine>, width: nat, left: bool, i: int, m: int)
    requires
        0 <= i < ls.len(),
        0 <= m < line_rows(ls[i], width, left).len(),
    ensures
        lines_rows(ls.take(i), width, left).len() + line_rows(ls[i], width, left).len()
            <= lines_rows(ls, width, left).len(),
        lines_rows(ls, width, left)[lines_rows(ls.take(i), width, left).len() + m] == line_rows(
            ls[i],
            width,
            left,
        )[m],
    decreases ls.len(),
{
    let front = ls.drop_last();
    if i == ls.len() - 1 {
        assert(ls.take(i) =~= front);
    } else {
        lemma_lines_rows_at(front, width, left, i, m);
        assert(front.take(i) =~= ls.take(i));
        assert(front[i] == ls[i]);
    }
}

proof fn lemma_hunks_rows_at(hs: Seq<SpecHunk>, width: nat, left: bool, j: int, p: int)
    requires
        0 <= j < hs.len(),
        0 <= p < lines_rows(hs[j].lines, width, left).len(),
    ensures
        hunks_rows(hs.take(j), width, left).len() + lines_rows(hs[j].lines, width, left).len()
            <= hunks_rows(hs, width, left).len(),
        hunks_rows(hs, width, left)[hunks_rows(hs.take(j), width, left).len() + p] == lines_rows(
            hs[j].lines,
            width,
            left,
        )[p],
    decreases hs.len(),
{
    let front = hs.drop_last();
    if j == hs.len() - 1 {
        assert(hs.take(j) =~= front);
    } else {
        lemma_hunks_rows_at(front, width, left, j, p);
        assert(front.take(j) =~= hs.take(j));
        assert(front[j] == hs[j]);
    }
}

/// Where the rows of line `i` of hunk `j` begin on one side (`left` for the
/// old side), `width` columns wide: after the rows of the hunks before and
/// of the lines before it in its hunk.
pub open spec fn line_row_offset(hs: Seq<SpecHunk>, width: nat, left: bool, j: int, i: int) -> int {
    (hunks_rows(hs.take(j), width, left).len() + lines_rows(hs[j].lines.take(i), width, left).len()) as int
}

/// The rows of a laid-out file show its lines: line `i` of hunk `j` gives,
/// from its offset on, one row per segment of its text on that side, the
/// first with its line number and the others with none; a context line's
/// rows are context rows, an added line's added rows, a deleted line's
/// deleted rows and a no-newline marker's no-newline rows. A binary file
/// is one binary row on each side.
pub proof fn law_rows_follow_lines(
    f: SpecFileDiff,
    left_width: nat,
    right_width: nat,
    left: bool,
    j: int,
    i: int,
    m: int,
)
    requires
        !f.is_binary,
        0 <= j < f.hunks.len(),
        0 <= i < f.hunks[j].lines.len(),
        0 <= m < wrap_spec(
            side_text(f.hunks[j].lines[i], left),
            if left { left_width } else { right_width },
        ).len(),
    ensures
        ({
            let v = build_rows_spec(f, left_width, right_width);
            let width = if left { left_width } else { right_width };
            let rows = if left { v.left_rows } else { v.right_rows };
            let l = f.hunks[j].lines[i];
            let k = line_row_offset(f.hunks, width, left, j, i) + m;
            &&& 0 <= k < rows.len()
            &&& rows[k].text == wrap_spec(side_text(l, left), width)[m]
            &&& rows[k].line == if m == 0 {
                if left { l.old_line } else { l.new_line }
            } else {
                None
            }
            &&& l.kind == DiffLineKind::Context ==> rows[k].kind == RowKind::Context
            &&& l.kind == DiffLineKind::Add ==> rows[k].kind == RowKind::Add
            &&& l.kind == DiffLineKind::Del ==> rows[k].kind == RowKind::Del
            &&& l.kind == DiffLineKind::NoNewline ==> rows[k].kind == RowKind::NoNewline
        }),
{
    let width = if left { left_width } else { right_width };
    let hs = f.hunks;
    let ls = hs[j].lines;
    lemma_lines_rows_at(ls, width, left, i, m);
    let p = lines_rows(ls.take(i), width, left).len() + m;
    lemma_hunks_rows_at(hs, width, left, j, p);
}

/// Every row of a binary file is the binary row.
pub proof fn law_binary_rows(f: SpecFileDiff, left_width: nat, right_width: nat)
    requires
        f.is_binary,
    ensures
        ({
            let v = build_rows_spec(f, left_width, right_width);
            &&& v.left_rows.len() == 1 && v.right_rows.len() == 1
            &&& v.left_rows[0].kind == RowKind::Binary && v.right_rows[0].kind == RowKind::Binary
            &&& v.left_rows[0].line is None && v.right_rows[0].line is None
            &&& v.left_rows[0].text == "Binary file"@ && v.right_rows[0].text == "Binary file"@
            &&& v.hunk_starts == seq![0usize]
        }),
{
}

} // verus!
