//! What each key does.

use vstd::prelude::*;

verus! {

/// A key press, as far as the viewer tells keys apart.
#[derive(Debug, Clone, Copy, PartialEq, Eq, Structural)]
pub enum Key {
    Char(char),
    Up,
    Down,
    Other,
}

/// What the viewer does for a key.
#[derive(Debug, Clone, Copy, PartialEq, Eq, Structural)]
pub enum Action {
    /// Nothing.
    Stay,
    Quit,
    /// Scroll by this many rows.
    ScrollBy(i32),
    Top,
    Bottom,
    NextHunk,
    PrevHunk,
    NextFile,
    PrevFile,
    /// Show or hide the untracked files, reading them first if need be.
    ToggleUntracked,
    /// Show the file at this position.
    JumpToFile(usize),
}

/// The rows that one page scrolls: the view's height, at least 1, as an
/// `i32`.
pub open spec fn page_rows_spec(height: usize) -> i32 {
    (if height >= 1 {
        height
    } else {
        1
    }) as i32
}

/// The rows that one page scrolls.
pub fn page_rows(height: usize) -> (r: i32)
    ensures
        r == page_rows_spec(height),
{
    let h = if height >= 1 {
        height
    } else {
        1
    };
    h as i32
}

/// The action of a key: with Control only `u` and `d`, a page up and down,
/// do anything; without it `q` quits, `j`/Down and `k`/Up scroll a row,
/// `g` and `G` go to the top and bottom, `n`/`p` to the next and previous
/// hunk, `f`/`b` to the next and previous file, `u` shows or hides the
/// untracked files, and a digit from 1 to 9 goes to that file.
pub open spec fn key_action_spec(key: Key, control: bool, page: i32) -> Action {
    if control {
        match key {
            Key::Char('u') => Action::ScrollBy((-page) as i32),
            Key::Char('d') => Action::ScrollBy(page),
            _ => Action::Stay,
        }
    } else {
        match key {
            Key::Char('q') => Action::Quit,
            Key::Char('j') | Key::Down => Action::ScrollBy(1),
            Key::Char('k') | Key::Up => Action::ScrollBy(-1i32),
            Key::Char('g') => Action::Top,
            Key::Char('G') => Action::Bottom,
            Key::Char('n') => Action::NextHunk,
            Key::Char('p') => Action::PrevHunk,
            Key::Char('f') => Action::NextFile,
            Key::Char('b') => Action::PrevFile,
            Key::Char('u') => Action::ToggleUntracked,
            Key::Char(c) => if '1' <= c && c <= '9' {
                Action::JumpToFile(((c as int) - ('1' as int)) as usize)
            } else {
                Action::Stay
            },
            _ => Action::Stay,
        }
    }
}

/// The action of a key, with `page` rows to a page.
pub fn key_action(key: Key, control: bool, page: i32) -> (r: Action)
    requires
        control && key == Key::Char('u') ==> page > i32::MIN,
    ensures
        r == key_action_spec(key, control, page),
{
    if control {
        return match key {
            Key::Char('u') => Action::ScrollBy(-page),
            Key::Char('d') => Action::ScrollBy(page),
            _ => Action::Stay,
        };
    }
    match key {
        Key::Char('q') => Action::Quit,
        Key::Char('j') | Key::Down => Action::ScrollBy(1),
        Key::Char('k') | Key::Up => Action::ScrollBy(-1),
        Key::Char('g') => Action::Top,
        Key::Char('G') => Action::Bottom,
        Key::Char('n') => Action::NextHunk,
        Key::Char('p') => Action::PrevHunk,
        Key::Char('f') => Action::NextFile,
        Key::Char('b') => Action::PrevFile,
        Key::Char('u') => Action::ToggleUntracked,
        Key::Char(c) => if '1' <= c && c <= '9' {
            Action::JumpToFile((c as u32 - '1' as u32) as usize)
        } else {
            Action::Stay
        },
        _ => Action::Stay,
    }
}

} // verus!
