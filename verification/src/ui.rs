//! What the screen shows: the header, the numbered rows of the two columns,
//! their colours, the footer, and the sizes the layout leaves for the rows.

use vstd::prelude::*;
use crate::app::{decimal_digits, digits_spec, lemma_decimal_digits_bound};
use crate::render::{RowKind, SideRow, SpecSideRow};
use crate::text::{chars_of, decimal_chars, decimal_chars_spec, string_from};
use crate::theme::{Rgb, Theme};

verus! {

broadcast use vstd::string::group_string_axioms;

/// `n` spaces.
pub open spec fn spaces(n: nat) -> Seq<char> {
    Seq::new(n, |i: int| ' ')
}

/// `s` right-aligned in `width` columns, as `{:>width$}` pads it.
pub open spec fn pad_left(s: Seq<char>, width: nat) -> Seq<char> {
    if s.len() < width {
        spaces((width - s.len()) as nat) + s
    } else {
        s
    }
}

/// The title of the header: the position among the files, or the program's
/// name when there is no file.
pub open spec fn header_title_spec(empty: bool, index: nat, count: nat) -> Seq<char> {
    if empty {
        "diffview"@
    } else {
        decimal_chars_spec(index + 1) + "/"@ + decimal_chars_spec(count)
    }
}

/// The gutter text of a row: its line number right-aligned in `digits`
/// columns, or blanks.
pub open spec fn line_number_spec(line: Option<u32>, digits: nat) -> Seq<char> {
    match line {
        Some(v) => pad_left(decimal_chars_spec(v as nat), digits),
        None => spaces(digits),
    }
}

/// A row as shown: gutter, a space, then its text.
pub open spec fn row_text_spec(row: SpecSideRow, digits: nat) -> Seq<char> {
    line_number_spec(row.line, digits) + " "@ + row.text
}

/// The colours of a row.
#[derive(Debug, Clone, Copy, PartialEq, Eq, Structural)]
pub struct RowStyle {
    pub fg: Rgb,
    pub bg: Option<Rgb>,
}

/// Added, deleted and no-newline rows on their own background; binary and
/// context rows on the pane's.
pub open spec fn row_style_spec(kind: RowKind, theme: Theme) -> RowStyle {
    match kind {
        RowKind::Add => RowStyle { fg: theme.add_fg, bg: Some(theme.add_bg) },
        RowKind::Del => RowStyle { fg: theme.del_fg, bg: Some(theme.del_bg) },
        RowKind::NoNewline => RowStyle { fg: theme.warn_fg, bg: Some(theme.warn_bg) },
        RowKind::Binary => RowStyle { fg: theme.meta_fg, bg: None },
        RowKind::Context => RowStyle { fg: theme.base_fg, bg: None },
    }
}

/// The colours of a row of `kind`.
pub fn row_style(kind: RowKind, theme: &Theme) -> (r: RowStyle)
    ensures
        r == row_style_spec(kind, *theme),
{
    match kind {
        RowKind::Add => RowStyle { fg: theme.add_fg, bg: Some(theme.add_bg) },
        RowKind::Del => RowStyle { fg: theme.del_fg, bg: Some(theme.del_bg) },
        RowKind::NoNewline => RowStyle { fg: theme.warn_fg, bg: Some(theme.warn_bg) },
        RowKind::Binary => RowStyle { fg: theme.meta_fg, bg: None },
        RowKind::Context => RowStyle { fg: theme.base_fg, bg: None },
    }
}

fn push_spaces(v: &mut Vec<char>, n: usize)
    ensures
        final(v)@ == old(v)@ + spaces(n as nat),
{
    let ghost start = v@;
    let mut i: usize = 0;
    while i < n
        invariant
            i <= n,
            v@ == start + spaces(i as nat),
        decreases n - i,
    {
        v.push(' ');
        i = i + 1;
        assert(v@ =~= start + spaces(i as nat));
    }
}

fn push_chars(v: &mut Vec<char>, s: &[char])
    ensures
        final(v)@ == old(v)@ + s@,
{
    let ghost start = v@;
    let mut i: usize = 0;
    while i < s.len()
        invariant
            i <= s@.len(),
            v@ == start + s@.take(i as int),
        decreases s@.len() - i,
    {
        v.push(s[i]);
        i = i + 1;
        assert(v@ =~= start + s@.take(i as int));
    }
    assert(s@.take(i as int) =~= s@);
}

/// The title of the header, for the viewer at `file_index` of
/// `file_count` files.
pub fn header_title(is_empty: bool, file_index: usize, file_count: usize) -> (r: String)
    requires
        is_empty || file_index < usize::MAX,
    ensures
        r@ == header_title_spec(is_empty, file_index as nat, file_count as nat),
{
    if is_empty {
        return String::from_str("diffview");
    }
    let mut out = decimal_chars((file_index + 1) as u64);
    push_chars(&mut out, &chars_of("/"));
    push_chars(&mut out, &decimal_chars(file_count as u64));
    string_from(&out)
}

/// How a piece of the header is drawn: in the header's own colours, as the
/// title chip, or as the file's name.
#[derive(Debug, Clone, Copy, PartialEq, Eq, Structural)]
pub enum HeaderStyle {
    Plain,
    Title,
    Name,
}

/// One piece of the header line.
pub struct HeaderPart {
    pub text: String,
    pub style: HeaderStyle,
}

/// The header's pieces: the title alone while no file is shown; otherwise
/// the title padded by a space on each side, two spaces, and the file's name.
pub open spec fn header_spec(title: Seq<char>, file_name: Seq<char>) -> Seq<(Seq<char>, HeaderStyle)> {
    if file_name.len() == 0 {
        seq![(title, HeaderStyle::Plain)]
    } else {
        seq![
            (seq![' '] + title + seq![' '], HeaderStyle::Title),
            ("  "@, HeaderStyle::Plain),
            (file_name, HeaderStyle::Name),
        ]
    }
}

pub open spec fn header_view(parts: Seq<HeaderPart>) -> Seq<(Seq<char>, HeaderStyle)> {
    parts.map_values(|p: HeaderPart| (p.text@, p.style))
}

/// The look of a piece of text: its colours, where it sets them (where it
/// does not, the line's show through), and whether it is bold.
#[derive(Debug, Clone, Copy, PartialEq, Eq, Structural)]
pub struct TextStyle {
    pub fg: Option<Rgb>,
    pub bg: Option<Rgb>,
    pub bold: bool,
}

/// The header line is drawn in the chip's colours.
pub open spec fn header_line_style_spec(theme: Theme) -> TextStyle {
    TextStyle { fg: Some(theme.header_chip_fg), bg: Some(theme.header_chip_bg), bold: false }
}

/// The title chip is bold in the left border's colour, the file's name in
/// the chip's foreground colour; plain pieces take the line's colours.
pub open spec fn header_style_spec(style: HeaderStyle, theme: Theme) -> TextStyle {
    match style {
        HeaderStyle::Plain => TextStyle { fg: None, bg: None, bold: false },
        HeaderStyle::Title => TextStyle { fg: Some(theme.border_left), bg: None, bold: true },
        HeaderStyle::Name => TextStyle { fg: Some(theme.header_chip_fg), bg: None, bold: false },
    }
}

/// The colours of the whole header line.
pub fn header_line_style(theme: &Theme) -> (r: TextStyle)
    ensures
        r == header_line_style_spec(*theme),
{
    TextStyle { fg: Some(theme.header_chip_fg), bg: Some(theme.header_chip_bg), bold: false }
}

/// The look of a piece of the header.
pub fn header_style(style: HeaderStyle, theme: &Theme) -> (r: TextStyle)
    ensures
        r == header_style_spec(style, *theme),
{
    match style {
        HeaderStyle::Plain => TextStyle { fg: None, bg: None, bold: false },
        HeaderStyle::Title => TextStyle { fg: Some(theme.border_left), bg: None, bold: true },
        HeaderStyle::Name => TextStyle { fg: Some(theme.header_chip_fg), bg: None, bold: false },
    }
}

/// The pieces of the header line for `title` and the shown file's name
/// (empty when no file is shown).
pub fn header_parts(title: &str, file_name: &str) -> (r: Vec<HeaderPart>)
    ensures
        header_view(r@) == header_spec(title@, file_name@),
{
    let title_chars = chars_of(title);
    let name_chars = chars_of(file_name);
    let mut parts: Vec<HeaderPart> = Vec::new();
    if name_chars.len() == 0 {
        parts.push(HeaderPart { text: string_from(&title_chars), style: HeaderStyle::Plain });
        assert(header_view(parts@) =~= header_spec(title@, file_name@));
        return parts;
    }
    let mut chip: Vec<char> = Vec::new();
    chip.push(' ');
    push_chars(&mut chip, &title_chars);
    chip.push(' ');
    assert(chip@ =~= seq![' '] + title@ + seq![' ']);
    parts.push(HeaderPart { text: string_from(&chip), style: HeaderStyle::Title });
    parts.push(HeaderPart { text: String::from_str("  "), style: HeaderStyle::Plain });
    parts.push(HeaderPart { text: string_from(&name_chars), style: HeaderStyle::Name });
    assert(header_view(parts@) =~= header_spec(title@, file_name@));
    parts
}

/// The gutter text of a row with `line`, `digits` columns wide.
pub fn line_number_text(line: Option<u32>, digits: usize) -> (r: String)
    ensures
        r@ == line_number_spec(line, digits as nat),
{
    let mut out: Vec<char> = Vec::new();
    match line {
        Some(value) => {
            let number = decimal_chars(value as u64);
            if number.len() < digits {
                push_spaces(&mut out, digits - number.len());
            }
            push_chars(&mut out, &number);
            assert(out@ =~= pad_left(decimal_chars_spec(value as nat), digits as nat));
        },
        None => {
            push_spaces(&mut out, digits);
            assert(out@ =~= spaces(digits as nat));
        },
    }
    string_from(&out)
}

/// A row as shown, its gutter `digits` columns wide.
pub fn row_text(row: &SideRow, digits: usize) -> (r: String)
    ensures
        r@ == row_text_spec(row@, digits as nat),
{
    let mut out = chars_of(line_number_text(row.line, digits).as_str());
    push_chars(&mut out, &chars_of(" "));
    push_chars(&mut out, &chars_of(row.text.as_str()));
    string_from(&out)
}

/// The rows from `start` to `end`, cut at the end of `rows`; none when
/// `start` is past the end.
pub fn slice_rows(rows: &[SideRow], start: usize, end: usize) -> (r: &[SideRow])
    requires
        start >= rows@.len() || start <= end,
    ensures
        r@ == if start >= rows@.len() {
            Seq::empty()
        } else {
            rows@.subrange(
                start as int,
                if end <= rows@.len() {
                    end as int
                } else {
                    rows@.len() as int
                },
            )
        },
{
    if start >= rows.len() {
        return &[];
    }
    let clamped_end = if end <= rows.len() {
        end
    } else {
        rows.len()
    };
    &rows[start..clamped_end]
}

/// The rows on screen: from the scroll position (at most the row count) for
/// `height` rows, cut at the row count.
pub fn visible_window(scroll: usize, height: usize, total_rows: usize) -> (r: (usize, usize))
    requires
        (if scroll <= total_rows {
            scroll
        } else {
            total_rows
        }) + height <= usize::MAX,
    ensures
        r.0 == if scroll <= total_rows {
            scroll
        } else {
            total_rows
        },
        r.1 == if r.0 + height <= total_rows {
            r.0 + height
        } else {
            total_rows as int
        },
{
    let start = if scroll <= total_rows {
        scroll
    } else {
        total_rows
    };
    let end = if start + height <= total_rows {
        start + height
    } else {
        total_rows
    };
    (start, end)
}

/// The columns left for text beside a gutter of `digits` digits and a
/// space, in a pane `inner_width` columns wide.
pub open spec fn content_width_spec(inner_width: u16, digits: usize) -> usize {
    let gutter = ((digits + 1) as u16) as int;
    if inner_width >= gutter {
        (inner_width - gutter) as usize
    } else {
        0
    }
}

/// The columns left for text beside the gutter.
pub fn content_width(inner_width: u16, digits: usize) -> (r: usize)
    requires
        digits < usize::MAX,
    ensures
        r == content_width_spec(inner_width, digits),
{
    let gutter = (digits + 1) as u16;
    let w = if inner_width >= gutter {
        inner_width - gutter
    } else {
        0
    };
    w as usize
}

/// One piece of the footer: its text, and whether it is in the warning
/// colour.
pub struct FooterItem {
    pub text: String,
    pub highlight: bool,
}

/// The footer's pieces: the key help, with ` [on]` in the warning colour
/// after the untracked key while untracked files are shown.
pub open spec fn footer_spec(show_untracked: bool) -> Seq<(Seq<char>, bool)> {
    let head = seq![
        ("1-9 jump"@, false),
        ("  "@, false),
        ("g/G top/bottom"@, false),
        ("  "@, false),
        ("ctrl+u/d page"@, false),
        ("  "@, false),
        ("f/b file"@, false),
        ("  "@, false),
        ("n/p hunk"@, false),
        ("  "@, false),
        ("u untracked"@, false),
    ];
    let tail = seq![("  "@, false), ("q quit"@, false)];
    if show_untracked {
        head + seq![(" [on]"@, true)] + tail
    } else {
        head + tail
    }
}

pub open spec fn footer_view(items: Seq<FooterItem>) -> Seq<(Seq<char>, bool)> {
    items.map_values(|f: FooterItem| (f.text@, f.highlight))
}

fn push_item(items: &mut Vec<FooterItem>, text: &str, highlight: bool)
    ensures
        footer_view(final(items)@) == footer_view(old(items)@).push((text@, highlight)),
{
    let ghost before = footer_view(items@);
    items.push(FooterItem { text: String::from_str(text), highlight });
    assert(footer_view(items@) =~= before.push((text@, highlight)));
}

/// A highlighted piece of the footer is in the warning colour, the rest in
/// the footer's colour.
pub open spec fn footer_style_spec(highlight: bool, theme: Theme) -> TextStyle {
    TextStyle {
        fg: Some(if highlight { theme.warn_fg } else { theme.footer_fg }),
        bg: None,
        bold: false,
    }
}

/// The look of a piece of the footer.
pub fn footer_style(highlight: bool, theme: &Theme) -> (r: TextStyle)
    ensures
        r == footer_style_spec(highlight, *theme),
{
    let fg = if highlight {
        theme.warn_fg
    } else {
        theme.footer_fg
    };
    TextStyle { fg: Some(fg), bg: None, bold: false }
}

/// The footer's pieces.
pub fn footer_items(show_untracked: bool) -> (r: Vec<FooterItem>)
    ensures
        footer_view(r@) == footer_spec(show_untracked),
{
    let mut items: Vec<FooterItem> = Vec::new();
    assert(footer_view(items@) =~= Seq::<(Seq<char>, bool)>::empty());
    push_item(&mut items, "1-9 jump", false);
    push_item(&mut items, "  ", false);
    push_item(&mut items, "g/G top/bottom", false);
    push_item(&mut items, "  ", false);
    push_item(&mut items, "ctrl+u/d page", false);
    push_item(&mut items, "  ", false);
    push_item(&mut items, "f/b file", false);
    push_item(&mut items, "  ", false);
    push_item(&mut items, "n/p hunk", false);
    push_item(&mut items, "  ", false);
    push_item(&mut items, "u untracked", false);
    if show_untracked {
        push_item(&mut items, " [on]", true);
    }
    push_item(&mut items, "  ", false);
    push_item(&mut items, "q quit", false);
    assert(footer_view(items@) =~= footer_spec(show_untracked));
    items
}


proof fn lemma_decimal_len(n: nat)
    ensures
        decimal_chars_spec(n).len() == decimal_digits(n),
    decreases n,
{
    if n >= 10 {
        lemma_decimal_len(n / 10);
    }
}

proof fn lemma_decimal_digits_mono(a: nat, b: nat)
    requires
        a <= b,
    ensures
        decimal_digits(a) <= decimal_digits(b),
    decreases b,
{
    if a >= 10 {
        assert(a / 10 <= b / 10) by (nonlinear_arith)
            requires
                a <= b,
        ;
        lemma_decimal_digits_mono(a / 10, b / 10);
    }
}

/// The gutter is as wide as the widest line number of the file: for any
/// line number up to the file's largest, and for a row without a number,
/// the gutter text takes exactly the digits that `line_digits` gives.
pub proof fn law_gutter_width(line: Option<u32>, max_line: u32)
    requires
        line matches Some(n) ==> n <= max_line,
    ensures
        line_number_spec(line, digits_spec(max_line) as nat).len() == digits_spec(max_line),
{
    let m: nat = if max_line >= 1 {
        max_line as nat
    } else {
        1
    };
    lemma_decimal_digits_bound(m);
    if let Some(n) = line {
        lemma_decimal_len(n as nat);
        lemma_decimal_digits_mono(n as nat, m);
    }
}

} // verus!
