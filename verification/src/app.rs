//! The state of the viewer: which diff and file are shown, where the view is
//! scrolled to, and a cached layout of the shown file.

use vstd::prelude::*;
use crate::diff::{Diff, SpecFileDiff};
use crate::render::{build_rows, build_rows_spec, law_hunk_starts_ordered, FileView, SpecFileView};
use crate::text::string_from;
use crate::theme::{github_dark_spec, Theme};

verus! {

pub struct App {
    base_diff: Diff,
    combined_diff: Option<Diff>,
    pub show_untracked: bool,
    pub file_index: usize,
    pub scroll: usize,
    pub theme: Theme,
    view_cache: Option<ViewCache>,
}

/// The layout of one file at one pair of widths.
struct ViewCache {
    file_index: usize,
    show_untracked: bool,
    left_width: usize,
    right_width: usize,
    view: FileView,
    /// The file that `view` was laid out from.
    source: Ghost<SpecFileDiff>,
}

impl ViewCache {
    #[verifier::type_invariant]
    spec fn laid_out(self) -> bool {
        self.view@ == build_rows_spec(
            self.source@,
            self.left_width as nat,
            self.right_width as nat,
        )
    }
}

/// What the layout cache holds: the position and widths it was made for,
/// and the file it was laid out from.
pub struct CacheEntry {
    pub file_index: usize,
    pub show_untracked: bool,
    pub left_width: usize,
    pub right_width: usize,
    pub file: SpecFileDiff,
}

/// The number of decimal digits of `v`.
pub open spec fn decimal_digits(v: nat) -> nat
    decreases v,
{
    if v < 10 {
        1
    } else {
        1 + decimal_digits(v / 10)
    }
}

/// The width of the widest line number up to `value` (at least one digit).
pub open spec fn digits_spec(value: u32) -> usize {
    decimal_digits(if value >= 1 {
        value as nat
    } else {
        1
    }) as usize
}

/// `a - b`, or 0 when `b` is larger.
pub open spec fn saturating_sub(a: usize, b: usize) -> usize {
    if a >= b {
        (a - b) as usize
    } else {
        0
    }
}

pub open spec fn min_usize(a: usize, b: usize) -> usize {
    if a <= b {
        a
    } else {
        b
    }
}

/// The furthest the view can scroll: the last `max_height` rows fill it.
pub open spec fn max_scroll(max_height: usize, total_rows: usize) -> usize {
    saturating_sub(total_rows, max_height)
}

/// Moving by `delta` stays within reach of `scroll` (as `i32`) and the
/// furthest scroll fits in an `i32`.
pub open spec fn scroll_by_ok(scroll: usize, delta: i32, max_height: usize, total_rows: usize) -> bool {
    total_rows == 0 || {
        &&& i32::MIN <= (scroll as i32) + delta <= i32::MAX
        &&& (max_scroll(max_height, total_rows) as i32) >= 0
    }
}

/// Where `scroll_by` moves the view: `delta` rows on, clamped to
/// `0..=max_scroll`; to the top when there are no rows.
pub open spec fn scroll_by_target(scroll: usize, delta: i32, max_height: usize, total_rows: usize) -> usize {
    if total_rows == 0 {
        0
    } else {
        let v = (scroll as i32) + delta;
        let hi = max_scroll(max_height, total_rows) as i32;
        if v < 0 {
            0
        } else if v > hi {
            hi as usize
        } else {
            v as usize
        }
    }
}

/// The first element of `starts` greater than `x`.
pub open spec fn first_above(starts: Seq<usize>, x: usize) -> Option<usize>
    decreases starts.len(),
{
    if starts.len() == 0 {
        None
    } else if starts[0] > x {
        Some(starts[0])
    } else {
        first_above(starts.drop_first(), x)
    }
}

/// The last element of `starts` smaller than `x`.
pub open spec fn last_below(starts: Seq<usize>, x: usize) -> Option<usize>
    decreases starts.len(),
{
    if starts.len() == 0 {
        None
    } else if starts.last() < x {
        Some(starts.last())
    } else {
        last_below(starts.drop_last(), x)
    }
}

/// `starts` never goes down.
pub open spec fn ascending(starts: Seq<usize>) -> bool {
    forall|j: int, k: int| 0 <= j <= k < starts.len() ==> #[trigger] starts[j] <= #[trigger] starts[k]
}

/// `s` is the nearest of `starts` after `x`: one of them, past `x`, and no
/// other one lies between `x` and it.
pub open spec fn nearest_above(starts: Seq<usize>, x: usize, s: usize) -> bool {
    &&& starts.contains(s)
    &&& s > x
    &&& forall|k: int| 0 <= k < starts.len() && starts[k] > x ==> s <= #[trigger] starts[k]
}

/// `s` is the nearest of `starts` before `x`: one of them, short of `x`,
/// and no other one lies between it and `x`.
pub open spec fn nearest_below(starts: Seq<usize>, x: usize, s: usize) -> bool {
    &&& starts.contains(s)
    &&& s < x
    &&& forall|k: int| 0 <= k < starts.len() && starts[k] < x ==> #[trigger] starts[k] <= s
}

/// Some element of `starts` is past `x`.
pub open spec fn any_above(starts: Seq<usize>, x: usize) -> bool {
    exists|k: int| 0 <= k < starts.len() && #[trigger] starts[k] > x
}

/// Some element of `starts` is short of `x`.
pub open spec fn any_below(starts: Seq<usize>, x: usize) -> bool {
    exists|k: int| 0 <= k < starts.len() && #[trigger] starts[k] < x
}

/// In starts that never go down, the first start past `x` is the nearest
/// one after `x`, and there is none exactly when no start is past `x`.
pub proof fn law_first_above_is_nearest(starts: Seq<usize>, x: usize)
    requires
        ascending(starts),
    ensures
        any_above(starts, x) ==> (first_above(starts, x) matches Some(s) && nearest_above(starts, x, s)),
        !any_above(starts, x) ==> first_above(starts, x) is None,
    decreases starts.len(),
{
    if starts.len() > 0 {
        if starts[0] > x {
            assert(starts.contains(starts[0]));
            assert forall|k: int| 0 <= k < starts.len() && starts[k] > x implies starts[0]
                <= #[trigger] starts[k] by {
                assert(starts[0] <= starts[k]);
            }
        } else {
            let rest = starts.drop_first();
            assert(ascending(rest)) by {
                assert forall|j: int, k: int| 0 <= j <= k < rest.len() implies #[trigger] rest[j]
                    <= #[trigger] rest[k] by {
                    assert(starts[j + 1] <= starts[k + 1]);
                }
            }
            law_first_above_is_nearest(rest, x);
            if any_above(starts, x) {
                let k0 = choose|k: int| 0 <= k < starts.len() && #[trigger] starts[k] > x;
                assert(rest[k0 - 1] > x);
                let s = first_above(rest, x)->Some_0;
                let k1 = choose|k: int| 0 <= k < rest.len() && rest[k] == s;
                assert(starts[k1 + 1] == s);
                assert forall|k: int| 0 <= k < starts.len() && starts[k] > x implies s
                    <= #[trigger] starts[k] by {
                    assert(rest[k - 1] == starts[k]);
                }
            } else {
                assert forall|k: int| 0 <= k < rest.len() implies !(#[trigger] rest[k] > x) by {
                    assert(rest[k] == starts[k + 1]);
                }
            }
        }
    }
}

/// In starts that never go down, the last start short of `x` is the nearest
/// one before `x`, and there is none exactly when no start is short of `x`.
pub proof fn law_last_below_is_nearest(starts: Seq<usize>, x: usize)
    requires
        ascending(starts),
    ensures
        any_below(starts, x) ==> (last_below(starts, x) matches Some(s) && nearest_below(starts, x, s)),
        !any_below(starts, x) ==> last_below(starts, x) is None,
    decreases starts.len(),
{
    if starts.len() > 0 {
        let n = starts.len() - 1;
        if starts.last() < x {
            assert(starts.contains(starts[n]));
            assert forall|k: int| 0 <= k < starts.len() && starts[k] < x implies #[trigger] starts[k]
                <= starts.last() by {
                assert(starts[k] <= starts[n]);
            }
        } else {
            let rest = starts.drop_last();
            assert(ascending(rest)) by {
                assert forall|j: int, k: int| 0 <= j <= k < rest.len() implies #[trigger] rest[j]
                    <= #[trigger] rest[k] by {
                    assert(starts[j] <= starts[k]);
                }
            }
            law_last_below_is_nearest(rest, x);
            if any_below(starts, x) {
                let k0 = choose|k: int| 0 <= k < starts.len() && #[trigger] starts[k] < x;
                assert(k0 < n);
                assert(rest[k0] < x);
                let s = last_below(rest, x)->Some_0;
                let k1 = choose|k: int| 0 <= k < rest.len() && rest[k] == s;
                assert(starts[k1] == s);
                assert forall|k: int| 0 <= k < starts.len() && starts[k] < x implies #[trigger] starts[k]
                    <= s by {
                    if k < n {
                        assert(rest[k] == starts[k]);
                    }
                }
            } else {
                assert forall|k: int| 0 <= k < rest.len() implies !(#[trigger] rest[k] < x) by {
                    assert(rest[k] == starts[k]);
                }
            }
        }
    }
}

/// The name shown for a file: its path, or `old -> new` when it was renamed.
pub open spec fn file_name_spec(f: SpecFileDiff) -> Seq<char> {
    if f.old_path == f.new_path {
        f.new_path
    } else {
        f.old_path + " -> "@ + f.new_path
    }
}

/// A number has at least one digit and no more digits than its value.
pub proof fn lemma_decimal_digits_bound(v: nat)
    requires
        v >= 1,
    ensures
        1 <= decimal_digits(v) <= v,
        v >= 10 ==> decimal_digits(v) >= 2 && decimal_digits(v) < v,
    decreases v,
{
    if v >= 10 {
        assert(v / 10 >= 1 && 1 + v / 10 <= v) by (nonlinear_arith)
            requires
                v >= 10,
        ;
        lemma_decimal_digits_bound(v / 10);
    }
}

fn digits(value: u32) -> (r: usize)
    ensures
        r == digits_spec(value),
{
    let mut n: u32 = if value >= 1 {
        value
    } else {
        1
    };
    let ghost start = n as nat;
    let mut count: usize = 1;
    proof {
        lemma_decimal_digits_bound(start);
    }
    while n >= 10
        invariant
            n >= 1,
            count >= 1,
            1 <= start <= u32::MAX,
            decimal_digits(start) <= start,
            count + decimal_digits(n as nat) == decimal_digits(start) + 1,
        decreases n,
    {
        proof {
            lemma_decimal_digits_bound(n as nat);
        }
        n = n / 10;
        count = count + 1;
    }
    count
}

fn merge_diffs(base: Diff, extra: Diff) -> (r: Diff)
    ensures
        r@ == base@ + extra@,
{
    let mut base = base;
    let mut extra = extra;
    let ghost b = base@;
    let ghost e = extra@;
    base.files.append(&mut extra.files);
    assert(base@ =~= b + e);
    base
}

impl App {
    /// `show_untracked`: whether the untracked files are shown.
    pub closed spec fn shows_untracked(&self) -> bool {
        self.show_untracked
    }

    /// `file_index`: the position of the file shown.
    pub closed spec fn index(&self) -> usize {
        self.file_index
    }

    /// `scroll`: the first row shown.
    pub closed spec fn scroll_pos(&self) -> usize {
        self.scroll
    }

    /// `theme`: the colours.
    pub closed spec fn theme_of(&self) -> Theme {
        self.theme
    }

    /// The files of the diff that the viewer was opened with.
    pub closed spec fn base_files(&self) -> Seq<SpecFileDiff> {
        self.base_diff@
    }

    /// The files of that diff followed by the untracked files, once they are
    /// known.
    pub closed spec fn combined_files(&self) -> Option<Seq<SpecFileDiff>> {
        match self.combined_diff {
            Some(d) => Some(d@),
            None => None,
        }
    }

    /// The files shown when untracked files are or are not shown.
    pub open spec fn files_for(&self, untracked: bool) -> Seq<SpecFileDiff> {
        if untracked && self.combined_files() is Some {
            self.combined_files()->Some_0
        } else {
            self.base_files()
        }
    }

    /// The files shown now.
    pub open spec fn current_files(&self) -> Seq<SpecFileDiff> {
        self.files_for(self.shows_untracked())
    }

    /// `file_index` names a shown file, or there is none.
    pub open spec fn index_ok(&self) -> bool {
        self.current_files().len() == 0 || self.index() < self.current_files().len()
    }

    /// The file shown now.
    pub open spec fn current_file(&self) -> SpecFileDiff {
        self.current_files()[self.index() as int]
    }

    /// What the layout cache holds.
    pub closed spec fn cache(&self) -> Option<CacheEntry> {
        match self.view_cache {
            Some(c) => Some(
                CacheEntry {
                    file_index: c.file_index,
                    show_untracked: c.show_untracked,
                    left_width: c.left_width,
                    right_width: c.right_width,
                    file: c.source@,
                },
            ),
            None => None,
        }
    }

    /// The cache was made for the current position and these widths.
    pub open spec fn cache_hit(&self, left_width: usize, right_width: usize) -> bool {
        self.cache() matches Some(c) && c.file_index == self.index() && c.show_untracked
            == self.shows_untracked() && c.left_width == left_width && c.right_width == right_width
    }

    /// The cache, if any, holds the layout of the file at the position it
    /// was made for.
    pub open spec fn cache_fresh(&self) -> bool {
        self.cache() matches Some(c) ==> {
            &&& c.file_index < self.files_for(c.show_untracked).len()
            &&& c.file == self.files_for(c.show_untracked)[c.file_index as int]
        }
    }

    /// Everything but the scroll position and the cache is as in `other`.
    pub open spec fn same_files(&self, other: &App) -> bool {
        &&& self.base_files() == other.base_files()
        &&& self.combined_files() == other.combined_files()
        &&& self.shows_untracked() == other.shows_untracked()
        &&& self.index() == other.index()
        &&& self.theme_of() == other.theme_of()
    }

    /// Opens a viewer on `base_diff`, at its first file, scrolled to the top.
    pub fn new(base_diff: Diff) -> (app: Self)
        ensures
            app.base_files() == base_diff@,
            app.combined_files() is None,
            !app.shows_untracked(),
            app.index() == 0,
            app.scroll_pos() == 0,
            app.theme_of() == github_dark_spec(),
            app.cache() is None,
    {
        App {
            base_diff,
            combined_diff: None,
            show_untracked: false,
            file_index: 0,
            scroll: 0,
            theme: Theme::github_dark(),
            view_cache: None,
        }
    }

    fn current_diff(&self) -> (r: &Diff)
        ensures
            r@ == self.current_files(),
    {
        if self.show_untracked {
            if let Some(combined) = &self.combined_diff {
                return combined;
            }
        }
        &self.base_diff
    }

    /// Whether there is no file to show.
    pub fn is_empty(&self) -> (r: bool)
        ensures
            r == (self.current_files().len() == 0),
    {
        self.current_diff().files.len() == 0
    }

    /// The number of files shown.
    pub fn file_count(&self) -> (r: usize)
        ensures
            r == self.current_files().len(),
    {
        self.current_diff().files.len()
    }

    /// The name of the file shown: its path, or `old -> new` for a rename;
    /// empty when there is no file.
    pub fn current_file_name(&self) -> (r: String)
        requires
            self.index_ok(),
        ensures
            r@ == if self.current_files().len() == 0 {
                Seq::empty()
            } else {
                file_name_spec(self.current_file())
            },
    {
        if self.is_empty() {
            return String::new();
        }
        let file = &self.current_diff().files[self.file_index];
        if file.old_path == file.new_path {
            file.new_path.clone()
        } else {
            let mut cs = crate::text::chars_of(file.old_path.as_str());
            let arrow = crate::text::chars_of(" -> ");
            let new = crate::text::chars_of(file.new_path.as_str());
            let ghost start = cs@;
            let mut i: usize = 0;
            while i < arrow.len()
                invariant
                    i <= arrow@.len(),
                    cs@ == start + arrow@.take(i as int),
                decreases arrow@.len() - i,
            {
                cs.push(arrow[i]);
                i = i + 1;
                assert(cs@ =~= start + arrow@.take(i as int));
            }
            assert(arrow@.take(arrow@.len() as int) =~= arrow@);
            let ghost mid = cs@;
            let mut j: usize = 0;
            while j < new.len()
                invariant
                    j <= new@.len(),
                    cs@ == mid + new@.take(j as int),
                decreases new@.len() - j,
            {
                cs.push(new[j]);
                j = j + 1;
                assert(cs@ =~= mid + new@.take(j as int));
            }
            assert(new@.take(new@.len() as int) =~= new@);
            string_from(&cs)
        }
    }

    /// The digits of the widest old and new line numbers of the file shown;
    /// one each when there is no file.
    pub fn line_digits(&self) -> (r: (usize, usize))
        requires
            self.index_ok(),
        ensures
            r == if self.current_files().len() == 0 {
                (1usize, 1usize)
            } else {
                (
                    digits_spec(self.current_file().max_old_line),
                    digits_spec(self.current_file().max_new_line),
                )
            },
    {
        if self.is_empty() {
            return (1, 1);
        }
        let file = &self.current_diff().files[self.file_index];
        (digits(file.max_old_line), digits(file.max_new_line))
    }

    /// The layout of the file shown at these widths, made anew unless the
    /// cache was made for the same position and widths; `None` when there is
    /// no file.
    pub fn view(&mut self, left_width: usize, right_width: usize) -> (r: Option<&FileView>)
        requires
            old(self).current_files().len() == 0 || old(self).cache_hit(left_width, right_width)
                || old(self).index() < old(self).current_files().len(),
        ensures
            old(self).index_ok() ==> final(self).index_ok(),
            final(self).same_files(old(self)),
            final(self).scroll_pos() == old(self).scroll_pos(),
            old(self).current_files().len() == 0 ==> (r is None && *final(self) == *old(self)),
            old(self).current_files().len() != 0 ==> {
                &&& final(self).cache() == if old(self).cache_hit(left_width, right_width) {
                    old(self).cache()
                } else {
                    Some(
                        CacheEntry {
                            file_index: old(self).index(),
                            show_untracked: old(self).shows_untracked(),
                            left_width,
                            right_width,
                            file: old(self).current_file(),
                        },
                    )
                }
                &&& r matches Some(v) && v@ == build_rows_spec(
                    final(self).cache()->Some_0.file,
                    left_width as nat,
                    right_width as nat,
                )
            },
            old(self).cache_fresh() ==> final(self).cache_fresh(),
            old(self).cache_fresh() && old(self).current_files().len() != 0 ==> (r matches Some(v)
                && v@ == build_rows_spec(
                old(self).current_file(),
                left_width as nat,
                right_width as nat,
            )),
    {
        if self.is_empty() {
            return None;
        }
        let needs_rebuild = match &self.view_cache {
            Some(cache) => {
                cache.file_index != self.file_index || cache.show_untracked != self.show_untracked
                    || cache.left_width != left_width || cache.right_width != right_width
            },
            None => true,
        };
        if needs_rebuild {
            let file = &self.current_diff().files[self.file_index];
            let ghost source = file@;
            let view = build_rows(file, left_width, right_width);
            self.view_cache = Some(
                ViewCache {
                    file_index: self.file_index,
                    show_untracked: self.show_untracked,
                    left_width,
                    right_width,
                    view,
                    source: Ghost(source),
                },
            );
        }
        let cache = self.view_cache.as_ref().expect("view cache");
        proof {
            use_type_invariant(cache);
        }
        Some(&cache.view)
    }

    /// Moves the view `delta` rows, keeping it within `0..=max_scroll`.
    pub fn scroll_by(&mut self, delta: i32, max_height: usize, total_rows: usize)
        requires
            scroll_by_ok(old(self).scroll_pos(), delta, max_height, total_rows),
        ensures
            old(self).cache_fresh() ==> final(self).cache_fresh(),
            final(self).same_files(old(self)),
            final(self).cache() == old(self).cache(),
            final(self).scroll_pos() == scroll_by_target(old(self).scroll_pos(), delta, max_height, total_rows),
            final(self).scroll_pos() <= max_scroll(max_height, total_rows),
    {
        if total_rows == 0 {
            self.scroll = 0;
            return;
        }
        let max_scroll = if total_rows >= max_height {
            total_rows - max_height
        } else {
            0
        };
        let hi = max_scroll as i32;
        assert(hi >= 0 ==> (hi as usize) <= max_scroll) by (bit_vector)
            requires
                hi == max_scroll as i32,
        ;
        let v = self.scroll as i32 + delta;
        let next = if v < 0 {
            0
        } else if v > hi {
            hi
        } else {
            v
        };
        self.scroll = next as usize;
    }

    /// Scrolls to the top.
    pub fn jump_to_start(&mut self)
        ensures
            old(self).cache_fresh() ==> final(self).cache_fresh(),
            final(self).same_files(old(self)),
            final(self).cache() == old(self).cache(),
            final(self).scroll_pos() == 0,
    {
        self.scroll = 0;
    }

    /// Scrolls to the bottom: the last `max_height` rows fill the view.
    pub fn jump_to_end(&mut self, max_height: usize, total_rows: usize)
        ensures
            old(self).cache_fresh() ==> final(self).cache_fresh(),
            final(self).scroll_pos() <= total_rows,
            final(self).same_files(old(self)),
            final(self).cache() == old(self).cache(),
            final(self).scroll_pos() == max_scroll(max_height, total_rows),
    {
        if total_rows == 0 {
            self.scroll = 0;
            return;
        }
        self.scroll = if total_rows >= max_height {
            total_rows - max_height
        } else {
            0
        };
    }

    /// Shows the next file, if there is one, from its top.
    pub fn next_file(&mut self)
        requires
            old(self).current_files().len() == 0 || old(self).index() < usize::MAX,
        ensures
            final(self).index_ok(),
            old(self).cache_fresh() ==> final(self).cache_fresh(),
            old(self).current_files().len() == 0 ==> *final(self) == *old(self),
            old(self).current_files().len() != 0 ==> {
                &&& final(self).index() == min_usize(
                    (old(self).index() + 1) as usize,
                    (old(self).current_files().len() - 1) as usize,
                )
                &&& final(self).scroll_pos() == 0
                &&& final(self).cache() is None
                &&& final(self).base_files() == old(self).base_files()
                &&& final(self).combined_files() == old(self).combined_files()
                &&& final(self).shows_untracked() == old(self).shows_untracked()
                &&& final(self).theme_of() == old(self).theme_of()
            },
    {
        if self.file_count() == 0 {
            return;
        }
        let next = self.file_index + 1;
        let last = self.file_count() - 1;
        self.file_index = if next <= last {
            next
        } else {
            last
        };
        self.scroll = 0;
        self.view_cache = None;
    }

    /// Shows the previous file, if there is one, from its top.
    pub fn prev_file(&mut self)
        ensures
            old(self).index_ok() ==> final(self).index_ok(),
            old(self).cache_fresh() ==> final(self).cache_fresh(),
            old(self).current_files().len() == 0 ==> *final(self) == *old(self),
            old(self).current_files().len() != 0 ==> {
                &&& final(self).index() == if old(self).index() > 0 {
                    (old(self).index() - 1) as usize
                } else {
                    old(self).index()
                }
                &&& final(self).scroll_pos() == 0
                &&& final(self).cache() is None
                &&& final(self).base_files() == old(self).base_files()
                &&& final(self).combined_files() == old(self).combined_files()
                &&& final(self).shows_untracked() == old(self).shows_untracked()
                &&& final(self).theme_of() == old(self).theme_of()
            },
    {
        if self.file_count() == 0 {
            return;
        }
        if self.file_index > 0 {
            self.file_index = self.file_index - 1;
        }
        self.scroll = 0;
        self.view_cache = None;
    }

    /// Shows the file at `index`, or the last one, from its top.
    pub fn jump_to_file(&mut self, index: usize)
        ensures
            final(self).index_ok(),
            old(self).cache_fresh() ==> final(self).cache_fresh(),
            old(self).current_files().len() == 0 ==> *final(self) == *old(self),
            old(self).current_files().len() != 0 ==> {
                &&& final(self).index() == min_usize(
                    index,
                    (old(self).current_files().len() - 1) as usize,
                )
                &&& final(self).scroll_pos() == 0
                &&& final(self).cache() is None
                &&& final(self).base_files() == old(self).base_files()
                &&& final(self).combined_files() == old(self).combined_files()
                &&& final(self).shows_untracked() == old(self).shows_untracked()
                &&& final(self).theme_of() == old(self).theme_of()
            },
    {
        if self.file_count() == 0 {
            return;
        }
        let last = self.file_count() - 1;
        self.file_index = if index <= last {
            index
        } else {
            last
        };
        self.scroll = 0;
        self.view_cache = None;
    }

    /// Scrolls to the first hunk that starts below the current scroll
    /// position, if any.
    pub fn next_hunk(&mut self, left_width: usize, right_width: usize)
        requires
            old(self).current_files().len() == 0 || old(self).cache_hit(left_width, right_width)
                || old(self).index() < old(self).current_files().len(),
        ensures
            old(self).index_ok() ==> final(self).index_ok(),
            final(self).same_files(old(self)),
            old(self).current_files().len() == 0 ==> *final(self) == *old(self),
            old(self).current_files().len() != 0 ==> {
                let c = final(self).cache()->Some_0;
                let starts = build_rows_spec(c.file, left_width as nat, right_width as nat).hunk_starts;
                &&& final(self).cache() == if old(self).cache_hit(left_width, right_width) {
                    old(self).cache()
                } else {
                    Some(
                        CacheEntry {
                            file_index: old(self).index(),
                            show_untracked: old(self).shows_untracked(),
                            left_width,
                            right_width,
                            file: old(self).current_file(),
                        },
                    )
                }
                &&& final(self).scroll_pos() == match first_above(starts, old(self).scroll_pos()) {
                    Some(s) => s,
                    None => old(self).scroll_pos(),
                }
                &&& any_above(starts, old(self).scroll_pos()) ==> nearest_above(
                    starts,
                    old(self).scroll_pos(),
                    final(self).scroll_pos(),
                )
                &&& !any_above(starts, old(self).scroll_pos()) ==> final(self).scroll_pos() == old(
                    self,
                ).scroll_pos()
            },
            old(self).cache_fresh() ==> final(self).cache_fresh(),
    {
        let current_scroll = self.scroll;
        let view = match self.view(left_width, right_width) {
            Some(v) => v,
            None => return,
        };
        let ghost laid_out = view@;
        let left_count = view.left_rows.len();
        let right_count = view.right_rows.len();
        assert(laid_out.left_rows.len() == left_count && laid_out.right_rows.len() == right_count);
        if view.hunk_starts.len() == 0 {
            return;
        }
        let ghost starts = view.hunk_starts@;
        let mut next: Option<usize> = None;
        let mut i: usize = 0;
        assert(starts.skip(0) =~= starts);
        while i < view.hunk_starts.len() && next.is_none()
            invariant
                starts == view.hunk_starts@,
                i <= starts.len(),
                next is None ==> first_above(starts, current_scroll) == first_above(
                    starts.skip(i as int),
                    current_scroll,
                ),
                next matches Some(s) ==> first_above(starts, current_scroll) == Some(s),
            decreases starts.len() - i, (if next is None { 1int } else { 0int }),
        {
            let start = view.hunk_starts[i];
            assert(starts.skip(i as int)[0] == start);
            assert(starts.skip(i as int).drop_first() =~= starts.skip(i + 1));
            if start > current_scroll {
                next = Some(start);
            } else {
                i = i + 1;
            }
        }
        assert(next is None ==> starts.skip(i as int) =~= Seq::<usize>::empty());
        proof {
            law_hunk_starts_ordered(self.cache()->Some_0.file, left_width as nat, right_width as nat);
            law_first_above_is_nearest(laid_out.hunk_starts, current_scroll);
        }
        if let Some(start) = next {
            self.scroll = start;
        }
    }

    /// Scrolls to the last hunk that starts above the current scroll
    /// position, if any.
    pub fn prev_hunk(&mut self, left_width: usize, right_width: usize)
        requires
            old(self).current_files().len() == 0 || old(self).cache_hit(left_width, right_width)
                || old(self).index() < old(self).current_files().len(),
        ensures
            old(self).index_ok() ==> final(self).index_ok(),
            final(self).same_files(old(self)),
            old(self).current_files().len() == 0 ==> *final(self) == *old(self),
            old(self).current_files().len() != 0 ==> {
                let c = final(self).cache()->Some_0;
                let starts = build_rows_spec(c.file, left_width as nat, right_width as nat).hunk_starts;
                &&& final(self).cache() == if old(self).cache_hit(left_width, right_width) {
                    old(self).cache()
                } else {
                    Some(
                        CacheEntry {
                            file_index: old(self).index(),
                            show_untracked: old(self).shows_untracked(),
                            left_width,
                            right_width,
                            file: old(self).current_file(),
                        },
                    )
                }
                &&& final(self).scroll_pos() == match last_below(starts, old(self).scroll_pos()) {
                    Some(s) => s,
                    None => old(self).scroll_pos(),
                }
                &&& any_below(starts, old(self).scroll_pos()) ==> nearest_below(
                    starts,
                    old(self).scroll_pos(),
                    final(self).scroll_pos(),
                )
                &&& !any_below(starts, old(self).scroll_pos()) ==> final(self).scroll_pos() == old(
                    self,
                ).scroll_pos()
            },
            old(self).cache_fresh() ==> final(self).cache_fresh(),
    {
        let current_scroll = self.scroll;
        let view = match self.view(left_width, right_width) {
            Some(v) => v,
            None => return,
        };
        let ghost laid_out = view@;
        let left_count = view.left_rows.len();
        let right_count = view.right_rows.len();
        assert(laid_out.left_rows.len() == left_count && laid_out.right_rows.len() == right_count);
        if view.hunk_starts.len() == 0 {
            return;
        }
        let ghost starts = view.hunk_starts@;
        let mut prev: Option<usize> = None;
        let mut i: usize = 0;
        proof {
            assert(starts.take(0) =~= Seq::<usize>::empty());
        }
        while i < view.hunk_starts.len()
            invariant
                starts == view.hunk_starts@,
                i <= starts.len(),
                prev == last_below(starts.take(i as int), current_scroll),
            decreases starts.len() - i,
        {
            let start = view.hunk_starts[i];
            assert(starts.take(i + 1).drop_last() =~= starts.take(i as int));
            assert(starts.take(i + 1).last() == start);
            if start < current_scroll {
                prev = Some(start);
            }
            i = i + 1;
        }
        assert(starts.take(i as int) =~= starts);
        proof {
            law_hunk_starts_ordered(self.cache()->Some_0.file, left_width as nat, right_width as nat);
            law_last_below_is_nearest(laid_out.hunk_starts, current_scroll);
        }
        if let Some(start) = prev {
            self.scroll = start;
        }
    }

    /// Switches between showing and hiding the untracked files, once they are
    /// known; the file position is kept when it still names a file, and the
    /// view goes to the top.
    pub fn toggle_untracked(&mut self)
        ensures
            old(self).index_ok() ==> final(self).index_ok(),
            old(self).combined_files() is Some ==> final(self).index_ok(),
            old(self).cache_fresh() ==> final(self).cache_fresh(),
            old(self).combined_files() is None ==> *final(self) == *old(self),
            old(self).combined_files() is Some ==> {
                let count = old(self).files_for(!old(self).shows_untracked()).len();
                &&& final(self).shows_untracked() == !old(self).shows_untracked()
                &&& final(self).index() == if old(self).index() >= count {
                    saturating_sub(count as usize, 1)
                } else {
                    old(self).index()
                }
                &&& final(self).scroll_pos() == 0
                &&& final(self).cache() is None
                &&& final(self).base_files() == old(self).base_files()
                &&& final(self).combined_files() == old(self).combined_files()
                &&& final(self).theme_of() == old(self).theme_of()
            },
    {
        if self.combined_diff.is_none() {
            return;
        }
        self.show_untracked = !self.show_untracked;
        let count = self.file_count();
        if self.file_index >= count {
            self.file_index = if count >= 1 {
                count - 1
            } else {
                0
            };
        }
        self.scroll = 0;
        self.view_cache = None;
    }

    /// Whether the untracked files are known.
    pub fn has_untracked(&self) -> (r: bool)
        ensures
            r == self.combined_files() is Some,
    {
        self.combined_diff.is_some()
    }

    /// Records the untracked files: the combined diff is the viewer's diff
    /// followed by them, or nothing when there are none.
    pub fn set_untracked(&mut self, untracked: Diff)
        ensures
            old(self).cache_fresh() && !(old(self).cache() matches Some(c) && c.show_untracked)
                ==> final(self).cache_fresh(),
            final(self).base_files() == old(self).base_files(),
            final(self).combined_files() == if untracked@.len() == 0 {
                None
            } else {
                Some(old(self).base_files() + untracked@)
            },
            final(self).shows_untracked() == old(self).shows_untracked(),
            final(self).index() == old(self).index(),
            final(self).scroll_pos() == old(self).scroll_pos(),
            final(self).theme_of() == old(self).theme_of(),
            final(self).cache() == old(self).cache(),
    {
        if untracked.files.len() == 0 {
            self.combined_diff = None;
            return;
        }
        self.combined_diff = Some(merge_diffs(self.base_diff.clone(), untracked));
    }

    /// The combined files once `loaded` untracked files, if any were read,
    /// are recorded.
    pub open spec fn combined_with(&self, loaded: Option<Seq<SpecFileDiff>>) -> Option<
        Seq<SpecFileDiff>,
    > {
        match loaded {
            Some(u) => if u.len() == 0 {
                None
            } else {
                Some(self.base_files() + u)
            },
            None => self.combined_files(),
        }
    }

    /// The untracked key: records the untracked files, when they were read
    /// (`loaded`; they are read only while `has_untracked` is false), and
    /// then switches between showing and hiding them.
    pub fn apply_untracked(&mut self, loaded: Option<Diff>)
        ensures
            ({
                let combined = old(self).combined_with(
                    match loaded {
                        Some(d) => Some(d@),
                        None => None,
                    },
                );
                &&& final(self).base_files() == old(self).base_files()
                &&& final(self).combined_files() == combined
                &&& final(self).theme_of() == old(self).theme_of()
                &&& combined is None ==> {
                    &&& final(self).shows_untracked() == old(self).shows_untracked()
                    &&& final(self).index() == old(self).index()
                    &&& final(self).scroll_pos() == old(self).scroll_pos()
                    &&& final(self).cache() == old(self).cache()
                }
                &&& combined is Some ==> {
                    let count = final(self).files_for(!old(self).shows_untracked()).len();
                    &&& final(self).shows_untracked() == !old(self).shows_untracked()
                    &&& final(self).index() == if old(self).index() >= count {
                        saturating_sub(count as usize, 1)
                    } else {
                        old(self).index()
                    }
                    &&& final(self).scroll_pos() == 0
                    &&& final(self).cache() is None
                    &&& final(self).index_ok()
                }
            }),
    {
        match loaded {
            Some(d) => self.set_untracked(d),
            None => {},
        }
        self.toggle_untracked();
    }
}


/// Showing the untracked files and hiding them again shows what was shown
/// before: toggling twice restores the choice, and the files it selects.
pub proof fn law_toggle_untracked_twice(a: App, b: App, c: App)
    requires
        a.combined_files() is Some,
        b.shows_untracked() == !a.shows_untracked(),
        b.base_files() == a.base_files(),
        b.combined_files() == a.combined_files(),
        c.shows_untracked() == !b.shows_untracked(),
        c.base_files() == b.base_files(),
        c.combined_files() == b.combined_files(),
    ensures
        c.shows_untracked() == a.shows_untracked(),
        c.current_files() == a.current_files(),
{
}

/// With the untracked files known, the files shown with them are the
/// tracked ones, in order, followed by the untracked ones.
pub proof fn law_untracked_follow_tracked(app: App, untracked: Seq<SpecFileDiff>)
    requires
        untracked.len() > 0,
        app.combined_files() == Some(app.base_files() + untracked),
    ensures
        app.files_for(true) == app.base_files() + untracked,
        app.files_for(false) == app.base_files(),
        app.files_for(true).len() == app.base_files().len() + untracked.len(),
{
}

} // verus!
