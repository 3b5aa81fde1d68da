use diffview::app::App;
use diffview::diff::parse_diff;
use diffview::theme::{Rgb, Theme};

fn two_files() -> &'static str {
    "diff --git a/one b/one\n@@ -1,2 +1,3 @@\n a\n+b\n c\n@@ -50 +51 @@\n-x\n+y\ndiff --git a/two b/renamed\n@@ -100 +100 @@\n-p\n+q\n"
}

fn untracked() -> &'static str {
    "diff --git /dev/null new.txt\nnew file mode 100644\n--- /dev/null\n+++ new.txt\n@@ -0,0 +1 @@\n+hello\n"
}

#[test]
fn a_new_viewer_starts_at_the_top_of_the_first_file() {
    let app = App::new(parse_diff(two_files()).unwrap());
    assert_eq!(app.file_index, 0);
    assert_eq!(app.scroll, 0);
    assert!(!app.show_untracked);
    assert!(!app.is_empty());
    assert_eq!(app.file_count(), 2);
    assert!(!app.has_untracked());
    assert_eq!(app.theme.base_fg, Rgb { r: 201, g: 209, b: 217 });
}

#[test]
fn theme_colours() {
    let t = Theme::github_dark();
    assert_eq!(t.add_bg, Rgb { r: 14, g: 68, b: 41 });
    assert_eq!(t.del_bg, Rgb { r: 76, g: 30, b: 30 });
    assert_eq!(t.warn_fg, Rgb { r: 255, g: 193, b: 7 });
    assert_eq!(t.border_right, Rgb { r: 34, g: 197, b: 94 });
    assert_eq!(t.dim_fg, Rgb { r: 139, g: 148, b: 158 });
}

#[test]
fn empty_viewer() {
    let mut app = App::new(parse_diff("").unwrap());
    assert!(app.is_empty());
    assert_eq!(app.current_file_name(), "");
    assert_eq!(app.line_digits(), (1, 1));
    assert!(app.view(10, 10).is_none());
    app.next_file();
    app.prev_file();
    app.jump_to_file(3);
    assert_eq!(app.file_index, 0);
    app.scroll_by(5, 10, 0);
    assert_eq!(app.scroll, 0);
}

#[test]
fn file_names_and_digits() {
    let mut app = App::new(parse_diff(two_files()).unwrap());
    assert_eq!(app.current_file_name(), "one");
    assert_eq!(app.line_digits(), (2, 2));
    app.next_file();
    assert_eq!(app.current_file_name(), "two -> renamed");
    assert_eq!(app.line_digits(), (3, 3));
}

#[test]
fn file_navigation_clamps() {
    let mut app = App::new(parse_diff(two_files()).unwrap());
    app.scroll = 3;
    app.next_file();
    assert_eq!((app.file_index, app.scroll), (1, 0));
    app.next_file();
    assert_eq!(app.file_index, 1);
    app.prev_file();
    assert_eq!(app.file_index, 0);
    app.prev_file();
    assert_eq!(app.file_index, 0);
    app.jump_to_file(8);
    assert_eq!(app.file_index, 1);
    app.jump_to_file(0);
    assert_eq!(app.file_index, 0);
}

#[test]
fn scrolling_stays_within_the_rows() {
    let mut app = App::new(parse_diff(two_files()).unwrap());
    app.scroll_by(3, 4, 10);
    assert_eq!(app.scroll, 3);
    app.scroll_by(100, 4, 10);
    assert_eq!(app.scroll, 6);
    app.scroll_by(-2, 4, 10);
    assert_eq!(app.scroll, 4);
    app.scroll_by(-100, 4, 10);
    assert_eq!(app.scroll, 0);
    app.scroll_by(5, 20, 10);
    assert_eq!(app.scroll, 0);
    app.jump_to_end(4, 10);
    assert_eq!(app.scroll, 6);
    app.jump_to_start();
    assert_eq!(app.scroll, 0);
    app.jump_to_end(20, 10);
    assert_eq!(app.scroll, 0);
    app.scroll = 9;
    app.jump_to_end(3, 0);
    assert_eq!(app.scroll, 0);
}

#[test]
fn views_are_cached_and_rebuilt() {
    let mut app = App::new(parse_diff(two_files()).unwrap());
    let total = app.view(20, 20).unwrap().total_rows;
    assert_eq!(total, 4);
    assert_eq!(app.view(20, 20).unwrap().hunk_starts, vec![0, 3]);
    let narrow = app.view(1, 1).unwrap().total_rows;
    assert_eq!(narrow, 4);
    app.next_file();
    assert_eq!(app.view(20, 20).unwrap().total_rows, 1);
}

#[test]
fn hunk_navigation() {
    let mut app = App::new(parse_diff(two_files()).unwrap());
    app.next_hunk(20, 20);
    assert_eq!(app.scroll, 3);
    app.next_hunk(20, 20);
    assert_eq!(app.scroll, 3);
    app.prev_hunk(20, 20);
    assert_eq!(app.scroll, 0);
    app.prev_hunk(20, 20);
    assert_eq!(app.scroll, 0);
    app.scroll = 2;
    app.next_hunk(20, 20);
    assert_eq!(app.scroll, 3);
    app.scroll = 4;
    app.prev_hunk(20, 20);
    assert_eq!(app.scroll, 3);
}

#[test]
fn untracked_files_follow_the_tracked_ones() {
    let mut app = App::new(parse_diff(two_files()).unwrap());
    app.toggle_untracked();
    assert!(!app.show_untracked);
    app.set_untracked(parse_diff("").unwrap());
    assert!(!app.has_untracked());
    app.set_untracked(parse_diff(untracked()).unwrap());
    assert!(app.has_untracked());
    app.toggle_untracked();
    assert!(app.show_untracked);
    assert_eq!(app.file_count(), 3);
    app.jump_to_file(2);
    assert_eq!(app.current_file_name(), "/dev/null -> new.txt");
    app.jump_to_file(0);
    assert_eq!(app.current_file_name(), "one");
}

#[test]
fn law_toggle_twice_restores_the_choice() {
    let mut app = App::new(parse_diff(two_files()).unwrap());
    app.set_untracked(parse_diff(untracked()).unwrap());
    app.toggle_untracked();
    app.jump_to_file(2);
    app.scroll = 4;
    app.toggle_untracked();
    assert!(!app.show_untracked);
    assert_eq!(app.file_index, 1);
    assert_eq!(app.scroll, 0);
    assert_eq!(app.file_count(), 2);
    app.toggle_untracked();
    app.toggle_untracked();
    assert!(!app.show_untracked);
    assert_eq!(app.file_count(), 2);
}

#[test]
fn toggling_onto_an_empty_diff_keeps_the_index_valid() {
    let mut app = App::new(parse_diff("").unwrap());
    app.set_untracked(parse_diff(untracked()).unwrap());
    app.toggle_untracked();
    assert_eq!(app.file_count(), 1);
    app.toggle_untracked();
    assert_eq!(app.file_index, 0);
    assert!(app.is_empty());
}

#[test]
fn the_untracked_key_reads_once_then_toggles() {
    let mut app = App::new(parse_diff(two_files()).unwrap());
    app.jump_to_file(1);
    app.scroll = 3;
    app.apply_untracked(Some(parse_diff(untracked()).unwrap()));
    assert!(app.has_untracked());
    assert!(app.show_untracked);
    assert_eq!(app.file_count(), 3);
    assert_eq!((app.file_index, app.scroll), (1, 0));
    app.jump_to_file(2);
    app.apply_untracked(None);
    assert!(!app.show_untracked);
    assert_eq!((app.file_index, app.file_count()), (1, 2));
    // Nothing untracked: nothing to show, and the viewer stays as it was.
    let mut app = App::new(parse_diff(two_files()).unwrap());
    app.scroll = 2;
    app.apply_untracked(Some(parse_diff("").unwrap()));
    assert!(!app.has_untracked());
    assert!(!app.show_untracked);
    assert_eq!(app.scroll, 2);
}
