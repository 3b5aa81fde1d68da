use diffview::app::App;
use diffview::diff::parse_diff;
use diffview::keys::{key_action, page_rows, Action, Key};
use diffview::layout::{layout_from, screen_layout, view_metrics, view_metrics_for, Area};
use diffview::render::{RowKind, SideRow};
use diffview::theme::Theme;
use diffview::ui::{
    content_width, footer_items, footer_style, header_line_style, header_parts, header_style,
    header_title, line_number_text, row_style, row_text, slice_rows, visible_window, HeaderStyle,
    TextStyle,
};
use ratatui::layout::{Constraint, Direction, Layout, Rect};
use ratatui::widgets::{Block, Borders};

#[test]
fn header_titles() {
    assert_eq!(header_title(true, 0, 0), "diffview");
    assert_eq!(header_title(false, 0, 3), "1/3");
    assert_eq!(header_title(false, 11, 12), "12/12");
}

#[test]
fn line_numbers_are_right_aligned() {
    assert_eq!(line_number_text(Some(7), 3), "  7");
    assert_eq!(line_number_text(Some(1234), 2), "1234");
    assert_eq!(line_number_text(None, 3), "   ");
    assert_eq!(line_number_text(Some(0), 1), "0");
    for (v, w) in [(5u32, 4usize), (99, 2), (100, 5)] {
        assert_eq!(line_number_text(Some(v), w), format!("{:>width$}", v, width = w));
    }
}

#[test]
fn law_gutter_width_on_samples() {
    let mut app = App::new(
        parse_diff("diff --git a/x b/x\n@@ -98 +998 @@\n a\n b\n c\n").unwrap(),
    );
    let (old_digits, new_digits) = app.line_digits();
    assert_eq!((old_digits, new_digits), (3, 4));
    let view = app.view(10, 10).unwrap();
    for row in &view.left_rows {
        assert_eq!(line_number_text(row.line, old_digits).chars().count(), old_digits);
    }
    for row in &view.right_rows {
        assert_eq!(line_number_text(row.line, new_digits).chars().count(), new_digits);
    }
}

#[test]
fn rows_are_shown_with_their_gutter() {
    let row = SideRow { line: Some(12), text: "let x = 1;".to_string(), kind: RowKind::Add };
    assert_eq!(row_text(&row, 3), " 12 let x = 1;");
    let row = SideRow { line: None, text: "cont".to_string(), kind: RowKind::Add };
    assert_eq!(row_text(&row, 2), "   cont");
}

#[test]
fn row_colours() {
    let t = Theme::github_dark();
    let s = row_style(RowKind::Add, &t);
    assert_eq!((s.fg, s.bg), (t.add_fg, Some(t.add_bg)));
    let s = row_style(RowKind::Del, &t);
    assert_eq!((s.fg, s.bg), (t.del_fg, Some(t.del_bg)));
    let s = row_style(RowKind::NoNewline, &t);
    assert_eq!((s.fg, s.bg), (t.warn_fg, Some(t.warn_bg)));
    let s = row_style(RowKind::Binary, &t);
    assert_eq!((s.fg, s.bg), (t.meta_fg, None));
    let s = row_style(RowKind::Context, &t);
    assert_eq!((s.fg, s.bg), (t.base_fg, None));
}

#[test]
fn slicing_and_windows() {
    let rows: Vec<SideRow> = (0..5)
        .map(|i| SideRow { line: Some(i), text: i.to_string(), kind: RowKind::Context })
        .collect();
    assert_eq!(slice_rows(&rows, 1, 3).len(), 2);
    assert_eq!(slice_rows(&rows, 3, 10).len(), 2);
    assert_eq!(slice_rows(&rows, 5, 10).len(), 0);
    assert_eq!(slice_rows(&rows, 9, 2).len(), 0);
    assert_eq!(slice_rows(&rows, 2, 4)[0].text, "2");
    assert_eq!(visible_window(3, 4, 10), (3, 7));
    assert_eq!(visible_window(8, 4, 10), (8, 10));
    assert_eq!(visible_window(20, 4, 10), (10, 10));
}

#[test]
fn content_widths() {
    assert_eq!(content_width(40, 3), 36);
    assert_eq!(content_width(2, 3), 0);
    assert_eq!(content_width(4, 3), 0);
}

#[test]
fn footer_lists_the_keys() {
    let off: Vec<(String, bool)> = footer_items(false).into_iter().map(|f| (f.text, f.highlight)).collect();
    let text: String = off.iter().map(|(t, _)| t.as_str()).collect();
    assert_eq!(text, "1-9 jump  g/G top/bottom  ctrl+u/d page  f/b file  n/p hunk  u untracked  q quit");
    assert!(off.iter().all(|(_, h)| !h));
    let on: Vec<(String, bool)> = footer_items(true).into_iter().map(|f| (f.text, f.highlight)).collect();
    assert_eq!(on.len(), off.len() + 1);
    assert_eq!(on[11], (" [on]".to_string(), true));
}

#[test]
fn keys() {
    assert_eq!(key_action(Key::Char('q'), false, 10), Action::Quit);
    assert_eq!(key_action(Key::Char('j'), false, 10), Action::ScrollBy(1));
    assert_eq!(key_action(Key::Down, false, 10), Action::ScrollBy(1));
    assert_eq!(key_action(Key::Char('k'), false, 10), Action::ScrollBy(-1));
    assert_eq!(key_action(Key::Up, false, 10), Action::ScrollBy(-1));
    assert_eq!(key_action(Key::Char('g'), false, 10), Action::Top);
    assert_eq!(key_action(Key::Char('G'), false, 10), Action::Bottom);
    assert_eq!(key_action(Key::Char('n'), false, 10), Action::NextHunk);
    assert_eq!(key_action(Key::Char('p'), false, 10), Action::PrevHunk);
    assert_eq!(key_action(Key::Char('f'), false, 10), Action::NextFile);
    assert_eq!(key_action(Key::Char('b'), false, 10), Action::PrevFile);
    assert_eq!(key_action(Key::Char('u'), false, 10), Action::ToggleUntracked);
    assert_eq!(key_action(Key::Char('1'), false, 10), Action::JumpToFile(0));
    assert_eq!(key_action(Key::Char('9'), false, 10), Action::JumpToFile(8));
    assert_eq!(key_action(Key::Char('0'), false, 10), Action::Stay);
    assert_eq!(key_action(Key::Char('x'), false, 10), Action::Stay);
    assert_eq!(key_action(Key::Other, false, 10), Action::Stay);
    assert_eq!(key_action(Key::Char('u'), true, 10), Action::ScrollBy(-10));
    assert_eq!(key_action(Key::Char('d'), true, 10), Action::ScrollBy(10));
    assert_eq!(key_action(Key::Char('q'), true, 10), Action::Stay);
    assert_eq!(page_rows(0), 1);
    assert_eq!(page_rows(25), 25);
}

fn reference_layout(area: Rect) -> (Rect, Rect, Rect, Rect, Rect, Rect) {
    let vertical = Layout::default()
        .direction(Direction::Vertical)
        .constraints([Constraint::Length(1), Constraint::Min(1), Constraint::Length(1)])
        .split(area);
    let panes = Layout::default()
        .direction(Direction::Horizontal)
        .constraints([Constraint::Percentage(50), Constraint::Percentage(50)])
        .split(vertical[1]);
    let inner_l = Block::default().borders(Borders::ALL).inner(panes[0]);
    let inner_r = Block::default().borders(Borders::ALL).inner(panes[1]);
    (vertical[0], vertical[1], vertical[2], panes[0], inner_l, inner_r)
}

fn area_of(r: Rect) -> Area {
    Area { x: r.x, y: r.y, width: r.width, height: r.height }
}

#[test]
fn screen_layout_matches_ratatui() {
    for (w, h) in [(80u16, 24u16), (81, 5), (1, 1), (0, 0), (200, 60)] {
        let area = Rect { x: 0, y: 0, width: w, height: h };
        let lay = screen_layout(area_of(area));
        let (top, body, footer, left, inner_l, inner_r) = reference_layout(area);
        assert_eq!(lay.header, area_of(top));
        assert_eq!(lay.body, area_of(body));
        assert_eq!(lay.footer, area_of(footer));
        assert_eq!(lay.left_pane, area_of(left));
        assert_eq!(lay.left_inner, area_of(inner_l));
        assert_eq!(lay.right_inner, area_of(inner_r));
    }
    let lay = screen_layout(Area { x: 0, y: 0, width: 80, height: 24 });
    assert_eq!(lay.header, Area { x: 0, y: 0, width: 80, height: 1 });
    assert_eq!(lay.left_inner, Area { x: 1, y: 2, width: 38, height: 20 });
}

#[test]
fn metrics_of_a_screen() {
    let mut app = App::new(parse_diff("").unwrap());
    assert_eq!(view_metrics(Area { x: 0, y: 0, width: 80, height: 24 }, &mut app), (0, 0, 0, 0));
    let mut app = App::new(
        parse_diff("diff --git a/x b/x\n@@ -9 +99 @@\n-a\n+b\n").unwrap(),
    );
    let m = view_metrics(Area { x: 0, y: 0, width: 80, height: 24 }, &mut app);
    assert_eq!(m, (36, 35, 20, 1));
}

#[test]
fn header_line_pieces() {
    let parts = header_parts("diffview", "");
    assert_eq!(parts.len(), 1);
    assert_eq!((parts[0].text.as_str(), parts[0].style), ("diffview", HeaderStyle::Plain));
    let parts = header_parts("2/3", "src/a.rs -> src/b.rs");
    let got: Vec<(&str, HeaderStyle)> = parts.iter().map(|p| (p.text.as_str(), p.style)).collect();
    assert_eq!(
        got,
        vec![
            (" 2/3 ", HeaderStyle::Title),
            ("  ", HeaderStyle::Plain),
            ("src/a.rs -> src/b.rs", HeaderStyle::Name),
        ]
    );
}

#[test]
fn a_layout_from_its_rows_and_panes() {
    let rows = [
        Area { x: 0, y: 0, width: 80, height: 1 },
        Area { x: 0, y: 1, width: 80, height: 22 },
        Area { x: 0, y: 23, width: 80, height: 1 },
    ];
    let panes = [Area { x: 0, y: 1, width: 40, height: 22 }, Area { x: 40, y: 1, width: 40, height: 22 }];
    let lay = layout_from(&rows, &panes);
    assert_eq!(lay.header, rows[0]);
    assert_eq!(lay.body, rows[1]);
    assert_eq!(lay.footer, rows[2]);
    assert_eq!(lay.right_pane, panes[1]);
    assert_eq!(lay.left_inner, Area { x: 1, y: 2, width: 38, height: 20 });
    assert_eq!(lay.right_inner, Area { x: 41, y: 2, width: 38, height: 20 });
    // A pane too small for its border keeps no inside.
    let lay = layout_from(&rows, &[Area { x: 3, y: 1, width: 1, height: 1 }, panes[1]]);
    assert_eq!(lay.left_inner, Area { x: 4, y: 2, width: 0, height: 0 });
    assert_eq!(screen_layout(Area { x: 0, y: 0, width: 80, height: 24 }), layout_from(&rows, &panes));
}

#[test]
fn metrics_for_a_given_layout() {
    let rows = [
        Area { x: 0, y: 0, width: 30, height: 1 },
        Area { x: 0, y: 1, width: 30, height: 10 },
        Area { x: 0, y: 11, width: 30, height: 1 },
    ];
    let panes = [Area { x: 0, y: 1, width: 12, height: 10 }, Area { x: 12, y: 1, width: 18, height: 6 }];
    let lay = layout_from(&rows, &panes);
    let mut app = App::new(parse_diff("").unwrap());
    assert_eq!(view_metrics_for(&lay, &mut app), (0, 0, 0, 0));
    let mut app = App::new(
        parse_diff("diff --git a/x b/x\n@@ -9 +99 @@\n-abcdefghijkl\n+b\n").unwrap(),
    );
    // Inner widths 10 and 16, less the gutters of 1 and 2 digits and a space.
    let m = view_metrics_for(&lay, &mut app);
    assert_eq!(m, (8, 13, 4, 2));
}

#[test]
fn header_and_footer_colours() {
    let t = Theme::github_dark();
    assert_eq!(
        header_line_style(&t),
        TextStyle { fg: Some(t.header_chip_fg), bg: Some(t.header_chip_bg), bold: false }
    );
    let looks: Vec<TextStyle> =
        header_parts("2/5", "src/x.rs").iter().map(|p| header_style(p.style, &t)).collect();
    assert_eq!(
        looks,
        vec![
            TextStyle { fg: Some(t.border_left), bg: None, bold: true },
            TextStyle { fg: None, bg: None, bold: false },
            TextStyle { fg: Some(t.header_chip_fg), bg: None, bold: false },
        ]
    );
    let items = footer_items(true);
    let warm: Vec<&str> = items
        .iter()
        .filter(|i| footer_style(i.highlight, &t).fg == Some(t.warn_fg))
        .map(|i| i.text.as_str())
        .collect();
    assert_eq!(warm, vec![" [on]"]);
    assert_eq!(footer_style(false, &t), TextStyle { fg: Some(t.footer_fg), bg: None, bold: false });
    let line: String = items.iter().map(|i| i.text.as_str()).collect();
    assert_eq!(line, "1-9 jump  g/G top/bottom  ctrl+u/d page  f/b file  n/p hunk  u untracked [on]  q quit");
}

#[test]
fn layout_parts_lie_within_the_screen() {
    for (x, y, w, h) in [(0u16, 0u16, 80u16, 24u16), (3, 2, 10, 2), (0, 0, 5, 1), (7, 9, 0, 0), (0, 65530, 9, 10)] {
        let area = Area { x, y, width: w, height: h };
        let lay = screen_layout(area);
        let bottom = y.saturating_add(h);
        for row in [lay.header, lay.body, lay.footer] {
            assert_eq!((row.x, row.width), (x, w));
            assert!(y <= row.y && row.y as u32 + row.height as u32 <= bottom as u32);
        }
        let right = lay.body.x.saturating_add(lay.body.width);
        for pane in [lay.left_pane, lay.right_pane] {
            assert_eq!((pane.y, pane.height), (lay.body.y, lay.body.height));
            assert!(lay.body.x <= pane.x && pane.x as u32 + pane.width as u32 <= right as u32);
        }
    }
}
