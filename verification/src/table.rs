//! A text table that fits a terminal: fixed columns keep their width, the other
//! columns share what is left, and cells too wide for their column wrap onto
//! further lines.
use crate::fuzzy::byte_len;
use crate::multifuzz::opt_int;
use crate::text::{blen, from_chars, push_all, to_chars};
use crate::util::{count_false, lemma_count_false_mono, lemma_count_false_set};
use crate::word_wrap::{
    char_index_of_bytes, char_pos, check_wrap, check_wrap_lines, find_char_pos, split_chars, wrap_lines,
    wrap_lines_ok, wrap_ok, wrap_split,
};
use vstd::prelude::*;

verus! {

/// Displayed width of a text in terminal columns, as the `unicode-width` crate
/// measures it.
pub uninterp spec fn display_width(s: Seq<char>) -> usize;

/// `UnicodeWidthStr::width` of the `unicode-width` crate: the displayed width of
/// `s` in columns. Claimed: the result is `display_width(s@)`, a function of the
/// text alone; nothing more is stated of it.
#[verifier::external_body]
pub(crate) fn str_width(s: &str) -> (r: usize)
    ensures
        r == display_width(s@),
{
    unicode_width::UnicodeWidthStr::width(s)
}

/// Spaces between columns.
pub open spec fn padding() -> usize {
    2
}

/// A cell: its text and the width it is laid out with.
#[derive(Debug)]
pub struct Cell {
    content: String,
    len: usize,
}

impl View for Cell {
    type V = (Seq<char>, usize);

    closed spec fn view(&self) -> (Seq<char>, usize) {
        (self.content@, self.len)
    }
}

impl Cell {
    /// A cell as wide as its text is displayed.
    pub fn new(content: String) -> (r: Cell)
        ensures
            r@ == (content@, display_width(content@)),
    {
        let len = str_width(content.as_str());
        Cell { len, content }
    }

    /// A cell laid out with the given width.
    pub fn new_with_len(content: String, len: usize) -> (r: Cell)
        ensures
            r@ == (content@, len),
    {
        Cell { content, len }
    }
}

/// What a column holds: its title, whether its width is fixed, the widest of its
/// title (in bytes) and cells, and where the last layout put it.
pub struct ColumnView {
    pub name: Seq<char>,
    pub fixed: bool,
    pub max_len: usize,
    pub fixed_now: bool,
    pub start: usize,
}

/// A column of a table.
#[derive(Debug)]
pub struct Collumn {
    name: &'static str,
    fixed: bool,
    max_len: usize,
    is_fixed_this_time: bool,
    start_pos_this_time: usize,
}

impl View for Collumn {
    type V = ColumnView;

    closed spec fn view(&self) -> ColumnView {
        ColumnView {
            name: self.name@,
            fixed: self.fixed,
            max_len: self.max_len,
            fixed_now: self.is_fixed_this_time,
            start: self.start_pos_this_time,
        }
    }
}

impl Collumn {
    /// A column whose width follows the room left.
    pub fn new(name: &'static str) -> (r: Collumn)
        ensures
            r@ == (ColumnView {
                name: name@,
                fixed: false,
                max_len: byte_len(name@),
                fixed_now: false,
                start: 0,
            }),
    {
        Collumn {
            name,
            max_len: name.len(),
            fixed: false,
            is_fixed_this_time: false,
            start_pos_this_time: 0,
        }
    }

    /// A column as wide as its widest content.
    pub fn new_fixed(name: &'static str) -> (r: Collumn)
        ensures
            r@ == (ColumnView {
                name: name@,
                fixed: true,
                max_len: byte_len(name@),
                fixed_now: true,
                start: 0,
            }),
    {
        Collumn {
            name,
            max_len: name.len(),
            fixed: true,
            is_fixed_this_time: true,
            start_pos_this_time: 0,
        }
    }
}

/// What a table holds: its rows of cells, its columns and the screen width.
pub struct TableView {
    pub rows: Seq<Seq<(Seq<char>, usize)>>,
    pub cols: Seq<ColumnView>,
    pub width: u16,
}

/// A table of cells under titled columns.
#[derive(Debug)]
pub struct Table {
    rows: Vec<Vec<Cell>>,
    cols: Vec<Collumn>,
    width: u16,
}

impl View for Table {
    type V = TableView;

    closed spec fn view(&self) -> TableView {
        TableView {
            rows: self.rows@.map_values(|r: Vec<Cell>| r@.map_values(|c: Cell| c@)),
            cols: self.cols@.map_values(|c: Collumn| c@),
            width: self.width,
        }
    }
}

/// `cols` after a row of cells of the given widths widened them.
pub open spec fn widen(cols: Seq<ColumnView>, row: Seq<(Seq<char>, usize)>) -> Seq<ColumnView> {
    Seq::new(
        cols.len(),
        |i: int|
            if i < row.len() && cols[i].max_len < row[i].1 {
                ColumnView { max_len: row[i].1, ..cols[i] }
            } else {
                cols[i]
            },
    )
}

impl Table {
    /// An empty table with the given columns and no width.
    pub fn new(cols: Vec<Collumn>) -> (r: Table)
        ensures
            r@ == (TableView {
                rows: Seq::empty(),
                cols: cols@.map_values(|c: Collumn| c@),
                width: 0,
            }),
    {
        let r = Table { rows: Vec::new(), cols, width: 0 };
        assert(r@.rows =~= Seq::<Seq<(Seq<char>, usize)>>::empty());
        r
    }

    /// Adds a row; each column becomes as wide as its cell when that is wider.
    pub fn add_row(&mut self, row: Vec<Cell>)
        requires
            row@.len() <= old(self)@.cols.len(),
        ensures
            final(self)@ == (TableView {
                rows: old(self)@.rows.push(row@.map_values(|c: Cell| c@)),
                cols: widen(old(self)@.cols, row@.map_values(|c: Cell| c@)),
                width: old(self)@.width,
            }),
    {
        let ghost rv = row@.map_values(|c: Cell| c@);
        let ghost c0 = self@.cols;
        let mut i: usize = 0;
        while i < row.len()
            invariant
                i <= row@.len() <= self.cols@.len(),
                rv == row@.map_values(|c: Cell| c@),
                c0.len() == self.cols@.len(),
                self.rows == old(self).rows,
                self.width == old(self).width,
                c0 == old(self)@.cols,
                forall|j: int|
                    0 <= j < c0.len() ==> (#[trigger] self.cols@[j])@ == if j < i {
                        widen(c0, rv)[j]
                    } else {
                        c0[j]
                    },
            decreases row@.len() - i,
        {
            let len = row[i].len;
            if self.cols[i].max_len < len {
                let c = &self.cols[i];
                let nc = Collumn {
                    name: c.name,
                    fixed: c.fixed,
                    max_len: len,
                    is_fixed_this_time: c.is_fixed_this_time,
                    start_pos_this_time: c.start_pos_this_time,
                };
                self.cols.set(i, nc);
            }
            i = i + 1;
        }
        self.rows.push(row);
        assert(self@.cols =~= widen(c0, rv));
        assert(self@.rows =~= old(self)@.rows.push(rv));
    }

    /// Sets the screen width.
    pub fn set_width(&mut self, width: u16)
        ensures
            final(self)@ == (TableView { width, ..old(self)@ }),
    {
        self.width = width;
    }
}

/// The titles' `fixed` flags.
pub open spec fn fixed_flags(cols: Seq<ColumnView>) -> Seq<bool> {
    cols.map_values(|c: ColumnView| c.fixed)
}

/// The flags telling which columns are fixed in the current layout.
pub open spec fn fixed_now_flags(cols: Seq<ColumnView>) -> Seq<bool> {
    cols.map_values(|c: ColumnView| c.fixed_now)
}

/// The widths of the columns.
pub open spec fn max_lens(cols: Seq<ColumnView>) -> Seq<usize> {
    cols.map_values(|c: ColumnView| c.max_len)
}

/// The number of columns whose width is not fixed.
pub open spec fn dyn_count(cols: Seq<ColumnView>) -> nat {
    count_false(fixed_flags(cols))
}

/// The room left, in `i32` arithmetic, once the fixed columns among the first `k`
/// are taken out of `width`.
pub open spec fn room_after(cols: Seq<ColumnView>, k: int, width: int) -> int
    decreases k,
{
    if k <= 0 {
        width
    } else {
        let r = room_after(cols, k - 1, width);
        if cols[k - 1].fixed {
            r - (cols[k - 1].max_len as i32)
        } else {
            r
        }
    }
}

/// The room computation neither overflows nor underflows.
pub open spec fn room_ok(cols: Seq<ColumnView>, width: int) -> bool {
    &&& cols.len() > 0
    &&& forall|k: int| 0 <= k <= cols.len() ==> i32::MIN <= #[trigger] room_after(cols, k, width) <= i32::MAX
    &&& (cols.len() - 1) * padding() <= i32::MAX
    &&& i32::MIN <= room_after(cols, cols.len() as int, width) - (cols.len() - 1) * padding()
}

/// The room that the columns of unfixed width share (0 when there is none).
pub open spec fn init_room(cols: Seq<ColumnView>, width: int) -> int {
    let r = room_after(cols, cols.len() as int, width) - (cols.len() - 1) * padding();
    if r <= 0 {
        0
    } else {
        r
    }
}

/// The columns before a layout: columns of unfixed width are unfixed again.
pub open spec fn reset_fixed(cols: Seq<ColumnView>) -> Seq<ColumnView> {
    Seq::new(
        cols.len(),
        |i: int|
            if cols[i].fixed {
                cols[i]
            } else {
                ColumnView { fixed_now: false, ..cols[i] }
            },
    )
}

/// The state of the sharing of room: which columns are fixed, the room and the
/// number of columns left to share it, the share of each, whether a pass fixed a
/// column, and the first column a pass left unfixed.
pub struct FixState {
    pub fixed: Seq<bool>,
    pub remaining: int,
    pub total: int,
    pub avg: int,
    pub changed: bool,
    pub first: Option<int>,
}

/// One pass over the columns from `i` on: a column narrower than the share is
/// fixed at its own width and the share is computed again; the pass stops when no
/// column is left to share.
pub open spec fn fix_pass(lens: Seq<usize>, i: int, st: FixState) -> FixState
    decreases lens.len() - i,
{
    if i < 0 || i >= lens.len() {
        st
    } else if st.fixed[i] {
        fix_pass(lens, i + 1, st)
    } else if st.avg > lens[i] {
        let tot = st.total - 1;
        let rem = st.remaining - lens[i];
        let st2 = FixState { fixed: st.fixed.update(i, true), remaining: rem, total: tot, changed: true, ..st };
        if tot == 0 {
            st2
        } else {
            fix_pass(lens, i + 1, FixState { avg: rem / tot, ..st2 })
        }
    } else {
        fix_pass(
            lens,
            i + 1,
            FixState {
                first: if st.first is None {
                    Some(i)
                } else {
                    st.first
                },
                ..st
            },
        )
    }
}

/// Passes are made, each from the first column the previous one left unfixed,
/// until one fixes nothing. Each further pass fixes a column, so the fuel (the
/// number of columns) never runs out.
pub open spec fn fix_loop(lens: Seq<usize>, fuel: nat, start: int, st: FixState) -> FixState
    decreases fuel,
{
    let r = fix_pass(lens, start, FixState { changed: false, first: None, ..st });
    if r.changed && r.first is Some && fuel > 0 {
        fix_loop(lens, (fuel - 1) as nat, r.first->0, r)
    } else {
        r
    }
}

proof fn lemma_fix_pass(lens: Seq<usize>, i: int, st: FixState)
    requires
        0 <= i <= lens.len(),
        st.fixed.len() == lens.len(),
        st.total == count_false(st.fixed),
    ensures
        ({
            let r = fix_pass(lens, i, st);
            &&& r.fixed.len() == lens.len()
            &&& r.total == count_false(r.fixed)
            &&& r.total <= st.total
            &&& forall|j: int| 0 <= j < lens.len() && st.fixed[j] ==> #[trigger] r.fixed[j]
            &&& r.changed == (st.changed || r.total < st.total)
            &&& r.total == st.total ==> (r.fixed == st.fixed && r.avg == st.avg && forall|j: int|
                i <= j < lens.len() && !(#[trigger] st.fixed[j]) ==> st.avg <= lens[j])
            &&& st.first is Some ==> r.first == st.first
            &&& st.first is None ==> match r.first {
                Some(f) => i <= f < lens.len() && forall|j: int| i <= j < f ==> #[trigger] r.fixed[j],
                None => forall|j: int| i <= j < lens.len() ==> #[trigger] r.fixed[j],
            }
        }),
    decreases lens.len() - i,
{
    if i < lens.len() {
        if st.fixed[i] {
            lemma_fix_pass(lens, i + 1, st);
        } else if st.avg > lens[i] {
            let tot = st.total - 1;
            let rem = st.remaining - lens[i];
            let st2 = FixState { fixed: st.fixed.update(i, true), remaining: rem, total: tot, changed: true, ..st };
            crate::util::lemma_count_false_set(st.fixed, i);
            if tot == 0 {
                crate::util::lemma_count_false_zero(st2.fixed);
            } else {
                let st3 = FixState { avg: rem / tot, ..st2 };
                lemma_fix_pass(lens, i + 1, st3);
            }
        } else {
            let st4 = FixState {
                first: if st.first is None {
                    Some(i)
                } else {
                    st.first
                },
                ..st
            };
            lemma_fix_pass(lens, i + 1, st4);
        }
    }
}

proof fn lemma_fix_loop(lens: Seq<usize>, fuel: nat, start: int, st: FixState)
    requires
        0 <= start <= lens.len(),
        st.fixed.len() == lens.len(),
        st.total == count_false(st.fixed),
        count_false(st.fixed) <= fuel,
        forall|j: int| 0 <= j < start ==> #[trigger] st.fixed[j],
    ensures
        ({
            let r = fix_loop(lens, fuel, start, st);
            &&& r.fixed.len() == lens.len()
            &&& forall|j: int| 0 <= j < lens.len() && !(#[trigger] r.fixed[j]) ==> r.avg <= lens[j]
        }),
    decreases fuel,
{
    let st1 = FixState { changed: false, first: None, ..st };
    lemma_fix_pass(lens, start, st1);
    let r = fix_pass(lens, start, st1);
    if r.changed && r.first is Some && fuel > 0 {
        let f = r.first->0;
        assert forall|j: int| 0 <= j < f implies #[trigger] r.fixed[j] by {
            if j < start {
                assert(st1.fixed[j]);
            }
        }
        lemma_fix_loop(lens, (fuel - 1) as nat, f, r);
    } else {
        assert forall|j: int| 0 <= j < lens.len() && !(#[trigger] r.fixed[j]) implies r.avg <= lens[j] by {
            if j < start {
                assert(st1.fixed[j]);
            }
        }
    }
}

/// Every column left to share the room is at least as wide as its share: a
/// column narrower than the share ends up fixed at its own width.
pub proof fn law_unfixed_columns_fill_their_share(t: TableView)
    requires
        fixed_kept(t.cols),
    ensures
        layout_fix(t).fixed.len() == t.cols.len(),
        forall|j: int|
            0 <= j < t.cols.len() && !(#[trigger] layout_fix(t).fixed[j]) ==> layout_fix(t).avg <= t.cols[j].max_len,
{
    let cols = reset_fixed(t.cols);
    assert(fixed_now_flags(cols) =~= fixed_flags(t.cols)) by {
        assert forall|j: int| 0 <= j < t.cols.len() implies fixed_now_flags(cols)[j] == fixed_flags(t.cols)[j] by {
            assert(t.cols[j].fixed ==> t.cols[j].fixed_now);
        }
    }
    assert(max_lens(cols) =~= max_lens(t.cols));
    crate::util::lemma_count_false_bound(fixed_flags(t.cols));
    let rem = init_room(t.cols, t.width as int);
    let tot = dyn_count(t.cols) as int;
    if rem > 0 && tot > 0 {
        let st0 = FixState {
            fixed: fixed_now_flags(cols),
            remaining: rem,
            total: tot,
            avg: rem / tot,
            changed: false,
            first: None,
        };
        lemma_fix_loop(max_lens(cols), cols.len(), 0, st0);
    }
}

/// How the room is shared among the columns of `t`: the columns fixed in the end
/// and the width `avg` of the others (0 when nothing fits).
pub open spec fn layout_fix(t: TableView) -> FixState {
    let cols = reset_fixed(t.cols);
    let rem = init_room(t.cols, t.width as int);
    let tot = dyn_count(t.cols) as int;
    let st0 = FixState {
        fixed: fixed_now_flags(cols),
        remaining: rem,
        total: tot,
        avg: 0,
        changed: false,
        first: None,
    };
    if rem > 0 && tot > 0 {
        fix_loop(max_lens(cols), cols.len(), 0, FixState { avg: rem / tot, ..st0 })
    } else {
        st0
    }
}

/// The width given to a column.
pub open spec fn col_advance(max_len: usize, fixed_now: bool, avg: int) -> int {
    if fixed_now || avg == 0 {
        max_len as int
    } else {
        avg
    }
}

/// Where column `k` starts.
pub open spec fn start_of(lens: Seq<usize>, fixed: Seq<bool>, avg: int, k: int) -> int
    decreases k,
{
    if k <= 0 {
        0
    } else {
        start_of(lens, fixed, avg, k - 1) + col_advance(lens[k - 1], fixed[k - 1], avg) + padding()
    }
}

/// The table after a layout: which columns are fixed and where each starts.
pub open spec fn laid_out(t: TableView) -> TableView {
    let st = layout_fix(t);
    let cols = reset_fixed(t.cols);
    TableView {
        cols: Seq::new(
            cols.len(),
            |i: int|
                ColumnView {
                    fixed_now: st.fixed[i],
                    start: start_of(max_lens(cols), st.fixed, st.avg, i) as usize,
                    ..cols[i]
                },
        ),
        ..t
    }
}

/// The positions of the columns fit in `usize`.
pub open spec fn starts_fit(t: TableView) -> bool {
    let st = layout_fix(t);
    start_of(max_lens(t.cols), st.fixed, st.avg, t.cols.len() as int) <= usize::MAX
}

/// A fixed column stays fixed in every layout.
pub open spec fn fixed_kept(cols: Seq<ColumnView>) -> bool {
    forall|i: int| 0 <= i < cols.len() && (#[trigger] cols[i]).fixed ==> cols[i].fixed_now
}

/// A table laid out for display, with the width of the unfixed columns.
#[derive(Clone, Copy, Debug)]
pub struct DisplayTable<'a> {
    table: &'a Table,
    avg: usize,
}

impl<'a> DisplayTable<'a> {
    /// The table shown and the width of its unfixed columns.
    pub closed spec fn spec_table(&self) -> TableView {
        self.table@
    }

    pub closed spec fn spec_avg(&self) -> usize {
        self.avg
    }
}

impl Table {
    fn set_fixed_now(&mut self, i: usize, v: bool)
        requires
            i < old(self)@.cols.len(),
        ensures
            final(self)@ == (TableView {
                cols: old(self)@.cols.update(i as int, ColumnView { fixed_now: v, ..old(self)@.cols[i as int] }),
                ..old(self)@
            }),
    {
        let c = &self.cols[i];
        let nc = Collumn {
            name: c.name,
            fixed: c.fixed,
            max_len: c.max_len,
            is_fixed_this_time: v,
            start_pos_this_time: c.start_pos_this_time,
        };
        self.cols.set(i, nc);
        assert(self@.cols =~= old(self)@.cols.update(i as int, ColumnView { fixed_now: v, ..old(self)@.cols[i as int] }));
    }

    fn set_start(&mut self, i: usize, v: usize)
        requires
            i < old(self)@.cols.len(),
        ensures
            final(self)@ == (TableView {
                cols: old(self)@.cols.update(i as int, ColumnView { start: v, ..old(self)@.cols[i as int] }),
                ..old(self)@
            }),
    {
        let c = &self.cols[i];
        let nc = Collumn {
            name: c.name,
            fixed: c.fixed,
            max_len: c.max_len,
            is_fixed_this_time: c.is_fixed_this_time,
            start_pos_this_time: v,
        };
        self.cols.set(i, nc);
        assert(self@.cols =~= old(self)@.cols.update(i as int, ColumnView { start: v, ..old(self)@.cols[i as int] }));
    }

    /// The room shared by the unfixed columns and their number; unfixes them.
    fn compute_init_remaining(&mut self) -> (r: (usize, usize))
        requires
            room_ok(old(self)@.cols, old(self)@.width as int),
        ensures
            final(self)@ == (TableView { cols: reset_fixed(old(self)@.cols), ..old(self)@ }),
            r.0 == init_room(old(self)@.cols, old(self)@.width as int),
            r.1 == dyn_count(old(self)@.cols),
    {
        let ghost c0 = self@.cols;
        let ghost w = self.width as int;
        let mut remaining: i32 = self.width as i32;
        let mut total_non_fixed: usize = 0;
        let n = self.cols.len();
        let mut i: usize = 0;
        assert(fixed_flags(c0).take(0) =~= Seq::<bool>::empty());
        while i < n
            invariant
                n == c0.len(),
                room_ok(c0, w),
                self@.cols.len() == n,
                self@.rows == old(self)@.rows,
                self@.width == old(self)@.width,
                w == old(self)@.width as int,
                c0 == old(self)@.cols,
                i <= n,
                remaining == room_after(c0, i as int, w),
                total_non_fixed == count_false(fixed_flags(c0).take(i as int)),
                total_non_fixed <= i,
                forall|j: int| 0 <= j < n ==> (#[trigger] self@.cols[j]) == if j < i {
                    reset_fixed(c0)[j]
                } else {
                    c0[j]
                },
            decreases n - i,
        {
            assert(fixed_flags(c0).take(i + 1).drop_last() =~= fixed_flags(c0).take(i as int));
            assert(self@.cols[i as int] == c0[i as int]);
            assert(i32::MIN <= room_after(c0, i + 1, w) <= i32::MAX);
            if self.cols[i].fixed {
                remaining = remaining - (#[verifier::truncate] (self.cols[i].max_len as i32));
            } else {
                total_non_fixed = total_non_fixed + 1;
                self.set_fixed_now(i, false);
            }
            i = i + 1;
        }
        assert(fixed_flags(c0).take(n as int) =~= fixed_flags(c0));
        assert(self@.cols =~= reset_fixed(c0));
        remaining = remaining - (#[verifier::truncate] (((n - 1) * 2) as i32));
        if remaining <= 0 {
            (0, total_non_fixed)
        } else {
            (remaining as usize, total_non_fixed)
        }
    }
}

/// The columns with the given flags telling which are fixed now.
pub open spec fn with_fixed_now(cols: Seq<ColumnView>, fixed: Seq<bool>) -> Seq<ColumnView> {
    Seq::new(cols.len(), |i: int| ColumnView { fixed_now: fixed[i], ..cols[i] })
}

proof fn lemma_fix_pass_len(lens: Seq<usize>, i: int, st: FixState)
    requires
        st.fixed.len() == lens.len(),
    ensures
        fix_pass(lens, i, st).fixed.len() == st.fixed.len(),
    decreases lens.len() - i,
{
    if 0 <= i < lens.len() {
        let tot = st.total - 1;
        let rem = st.remaining - lens[i];
        let st2 = FixState { fixed: st.fixed.update(i, true), remaining: rem, total: tot, changed: true, ..st };
        lemma_fix_pass_len(lens, i + 1, st);
        lemma_fix_pass_len(lens, i + 1, FixState { avg: rem / tot, ..st2 });
        lemma_fix_pass_len(
            lens,
            i + 1,
            FixState {
                first: if st.first is None {
                    Some(i)
                } else {
                    st.first
                },
                ..st
            },
        );
    }
}

proof fn lemma_fix_loop_len(lens: Seq<usize>, fuel: nat, start: int, st: FixState)
    requires
        st.fixed.len() == lens.len(),
    ensures
        fix_loop(lens, fuel, start, st).fixed.len() == st.fixed.len(),
    decreases fuel,
{
    let st1 = FixState { changed: false, first: None, ..st };
    lemma_fix_pass_len(lens, start, st1);
    let r = fix_pass(lens, start, st1);
    if r.changed && r.first is Some && fuel > 0 {
        lemma_fix_loop_len(lens, (fuel - 1) as nat, r.first->0, r);
    }
}

proof fn lemma_fix_loop_reset(lens: Seq<usize>, fuel: nat, start: int, a: FixState, b: FixState)
    requires
        a.fixed == b.fixed,
        a.remaining == b.remaining,
        a.total == b.total,
        a.avg == b.avg,
    ensures
        fix_loop(lens, fuel, start, a) == fix_loop(lens, fuel, start, b),
{
    assert(FixState { changed: false, first: None, ..a } == FixState { changed: false, first: None, ..b });
}

proof fn lemma_start_mono(lens: Seq<usize>, fixed: Seq<bool>, avg: int, j: int, k: int)
    requires
        0 <= j <= k,
        avg >= 0,
    ensures
        start_of(lens, fixed, avg, j) <= start_of(lens, fixed, avg, k),
    decreases k - j,
{
    if j < k {
        lemma_start_mono(lens, fixed, avg, j, k - 1);
    }
}

impl Table {
    /// One pass of `fix_pass` from column `start`. Returns where the next pass
    /// starts and whether the sharing is done.
    fn compute_fix_once(
        &mut self,
        start: usize,
        remaining: &mut usize,
        total_dyn: &mut usize,
        avg: &mut usize,
    ) -> (r: (usize, bool))
        requires
            start <= old(self)@.cols.len(),
            *old(total_dyn) as int == count_false(fixed_now_flags(old(self)@.cols)),
            *old(total_dyn) > 0,
            *old(avg) <= *old(remaining),
        ensures
            ({
                let st = fix_pass(
                    max_lens(old(self)@.cols),
                    start as int,
                    FixState {
                        fixed: fixed_now_flags(old(self)@.cols),
                        remaining: *old(remaining) as int,
                        total: *old(total_dyn) as int,
                        avg: *old(avg) as int,
                        changed: false,
                        first: None,
                    },
                );
                &&& final(self)@ == (TableView { cols: with_fixed_now(old(self)@.cols, st.fixed), ..old(self)@ })
                &&& *final(remaining) == st.remaining
                &&& *final(total_dyn) == st.total
                &&& *final(avg) == st.avg
                &&& r.1 == !(st.changed && st.first is Some)
                &&& !r.1 ==> r.0 == st.first->0
            }),
            *final(total_dyn) as int == count_false(fixed_now_flags(final(self)@.cols)),
            !r.1 ==> *final(avg) <= *final(remaining),
            *final(total_dyn) <= *old(total_dyn),
            !r.1 ==> *final(total_dyn) < *old(total_dyn) && *final(total_dyn) > 0 && r.0 <= final(self)@.cols.len(),
    {
        let ghost c0 = self@.cols;
        let ghost lens = max_lens(c0);
        let ghost goal = fix_pass(
            lens,
            start as int,
            FixState {
                fixed: fixed_now_flags(c0),
                remaining: *remaining as int,
                total: *total_dyn as int,
                avg: *avg as int,
                changed: false,
                first: None,
            },
        );
        let ghost tot0 = *total_dyn;
        let n = self.cols.len();
        let mut first: Option<usize> = None;
        let mut changed = false;
        let mut stop = false;
        let mut i: usize = start;
        while i < n && !stop
            invariant
                n == c0.len(),
                self@.cols.len() == n,
                self@.rows == old(self)@.rows,
                self@.width == old(self)@.width,
                lens == max_lens(c0),
                self@.cols == with_fixed_now(c0, fixed_now_flags(self@.cols)),
                start <= i <= n,
                *total_dyn as int == count_false(fixed_now_flags(self@.cols)),
                !stop ==> *avg <= *remaining,
                *total_dyn <= tot0,
                changed ==> *total_dyn < tot0,
                !stop ==> *total_dyn > 0,
                stop ==> *total_dyn == 0,
                first matches Some(f) ==> start <= f < i && !self@.cols[f as int].fixed_now,
                !stop ==> fix_pass(
                    lens,
                    i as int,
                    FixState {
                        fixed: fixed_now_flags(self@.cols),
                        remaining: *remaining as int,
                        total: *total_dyn as int,
                        avg: *avg as int,
                        changed,
                        first: opt_int(first),
                    },
                ) == goal,
                stop ==> goal == (FixState {
                    fixed: fixed_now_flags(self@.cols),
                    remaining: *remaining as int,
                    total: *total_dyn as int,
                    avg: *avg as int,
                    changed,
                    first: opt_int(first),
                }),
            decreases n - i,
        {
            assert(self@.cols[i as int].max_len == lens[i as int]);
            if self.cols[i].is_fixed_this_time {
            } else if *avg > self.cols[i].max_len {
                let ghost before = fixed_now_flags(self@.cols);
                proof {
                    lemma_count_false_set(before, i as int);
                }
                *total_dyn = *total_dyn - 1;
                *remaining = *remaining - self.cols[i].max_len;
                self.set_fixed_now(i, true);
                assert(fixed_now_flags(self@.cols) =~= before.update(i as int, true));
                assert(self@.cols =~= with_fixed_now(c0, fixed_now_flags(self@.cols)));
                changed = true;
                if *total_dyn == 0 {
                    stop = true;
                } else {
                    *avg = *remaining / *total_dyn;
                    assert(*avg <= *remaining) by (nonlinear_arith)
                        requires
                            *avg == *remaining / *total_dyn,
                            *total_dyn > 0,
                    ;
                }
            } else {
                if first.is_none() {
                    first = Some(i);
                }
            }
            i = i + 1;
        }
        if let Some(f) = first {
            proof {
                lemma_count_false_set(fixed_now_flags(self@.cols), f as int);
            }
        }
        if !changed {
            (start, true)
        } else {
            match first {
                Some(f) => (f, false),
                None => (start, true),
            }
        }
    }

    /// Shares `remaining` among the `total_dyn` unfixed columns, as `fix_loop`, and
    /// returns the width of each column left unfixed (0 when there is none).
    fn compute_fix_this_time(&mut self, remaining: usize, total_dyn: usize) -> (r: usize)
        requires
            total_dyn as int == count_false(fixed_now_flags(old(self)@.cols)),
        ensures
            total_dyn == 0 ==> r == 0 && final(self)@ == old(self)@,
            total_dyn > 0 ==> ({
                let st = fix_loop(
                    max_lens(old(self)@.cols),
                    old(self)@.cols.len(),
                    0,
                    FixState {
                        fixed: fixed_now_flags(old(self)@.cols),
                        remaining: remaining as int,
                        total: total_dyn as int,
                        avg: remaining as int / total_dyn as int,
                        changed: false,
                        first: None,
                    },
                );
                &&& final(self)@ == (TableView { cols: with_fixed_now(old(self)@.cols, st.fixed), ..old(self)@ })
                &&& r == st.avg
            }),
    {
        if total_dyn == 0 {
            return 0;
        }
        let ghost c0 = self@.cols;
        let ghost lens = max_lens(c0);
        let ghost goal = fix_loop(
            lens,
            c0.len(),
            0,
            FixState {
                fixed: fixed_now_flags(c0),
                remaining: remaining as int,
                total: total_dyn as int,
                avg: remaining as int / total_dyn as int,
                changed: false,
                first: None,
            },
        );
        let mut rem = remaining;
        let mut tot = total_dyn;
        let mut avg = remaining / total_dyn;
        assert(avg <= rem) by (nonlinear_arith)
            requires
                avg == rem / tot,
                tot > 0,
        ;
        let mut start: usize = 0;
        let ghost mut fuel: nat = c0.len();
        proof {
            crate::util::lemma_count_false_bound(fixed_now_flags(c0));
        }
        let mut ok = false;
        while !ok
            invariant
                self@.cols.len() == c0.len(),
                self@.rows == old(self)@.rows,
                self@.width == old(self)@.width,
                lens == max_lens(c0),
                self@.cols == with_fixed_now(c0, fixed_now_flags(self@.cols)),
                start <= c0.len(),
                tot as int == count_false(fixed_now_flags(self@.cols)),
                !ok ==> avg <= rem,
                !ok ==> tot > 0 && tot <= fuel,
                !ok ==> fix_loop(
                    lens,
                    fuel,
                    start as int,
                    FixState {
                        fixed: fixed_now_flags(self@.cols),
                        remaining: rem as int,
                        total: tot as int,
                        avg: avg as int,
                        changed: false,
                        first: None,
                    },
                ) == goal,
                ok ==> goal.fixed == fixed_now_flags(self@.cols) && goal.avg == avg as int,
            decreases tot + if ok {
                0int
            } else {
                1int
            },
        {
            assert(max_lens(self@.cols) =~= lens);
            let ghost cur = FixState {
                fixed: fixed_now_flags(self@.cols),
                remaining: rem as int,
                total: tot as int,
                avg: avg as int,
                changed: false,
                first: None,
            };
            let ghost old_cols = self@.cols;
            proof {
                lemma_fix_pass_len(lens, start as int, cur);
            }
            let (next, done) = self.compute_fix_once(start, &mut rem, &mut tot, &mut avg);
            let ghost r = fix_pass(lens, start as int, cur);
            assert(fixed_now_flags(self@.cols) =~= r.fixed);
            assert(self@.cols =~= with_fixed_now(c0, fixed_now_flags(self@.cols)));
            assert(FixState { changed: false, first: None, ..r } == (FixState {
                fixed: fixed_now_flags(self@.cols),
                remaining: rem as int,
                total: tot as int,
                avg: avg as int,
                changed: false,
                first: None,
            }));
            if done {
                ok = true;
            } else {
                proof {
                    assert(fix_loop(lens, fuel, start as int, cur) == fix_loop(lens, (fuel - 1) as nat, next as int, r));
                    lemma_fix_loop_reset(
                        lens,
                        (fuel - 1) as nat,
                        next as int,
                        r,
                        FixState {
                            fixed: fixed_now_flags(self@.cols),
                            remaining: rem as int,
                            total: tot as int,
                            avg: avg as int,
                            changed: false,
                            first: None,
                        },
                    );
                    fuel = (fuel - 1) as nat;
                }
                start = next;
            }
        }
        assert(self@.cols =~= with_fixed_now(c0, goal.fixed));
        avg
    }

    /// Places the columns one after the other, each as wide as `col_advance` says,
    /// with padding between them.
    fn compute_start_pos(&mut self, avg: usize)
        requires
            start_of(max_lens(old(self)@.cols), fixed_now_flags(old(self)@.cols), avg as int, old(self)@.cols.len() as int)
                <= usize::MAX,
        ensures
            final(self)@ == (TableView {
                cols: Seq::new(
                    old(self)@.cols.len(),
                    |i: int|
                        ColumnView {
                            start: start_of(max_lens(old(self)@.cols), fixed_now_flags(old(self)@.cols), avg as int, i) as usize,
                            ..old(self)@.cols[i]
                        },
                ),
                ..old(self)@
            }),
    {
        let ghost c0 = self@.cols;
        let ghost lens = max_lens(c0);
        let ghost fl = fixed_now_flags(c0);
        let n = self.cols.len();
        let mut cur_pos: usize = 0;
        let mut i: usize = 0;
        while i < n
            invariant
                n == c0.len(),
                self@.cols.len() == n,
                self@.rows == old(self)@.rows,
                self@.width == old(self)@.width,
                c0 == old(self)@.cols,
                lens == max_lens(c0),
                fl == fixed_now_flags(c0),
                start_of(lens, fl, avg as int, n as int) <= usize::MAX,
                i <= n,
                cur_pos == start_of(lens, fl, avg as int, i as int),
                forall|j: int| 0 <= j < n ==> (#[trigger] self@.cols[j]) == if j < i {
                    ColumnView { start: start_of(lens, fl, avg as int, j) as usize, ..c0[j] }
                } else {
                    c0[j]
                },
            decreases n - i,
        {
            proof {
                lemma_start_mono(lens, fl, avg as int, i + 1, n as int);
            }
            assert(self@.cols[i as int] == c0[i as int]);
            let adv = if self.cols[i].is_fixed_this_time || avg == 0 {
                self.cols[i].max_len
            } else {
                avg
            };
            self.set_start(i, cur_pos);
            cur_pos = cur_pos + adv;
            cur_pos = cur_pos + 2;
            i = i + 1;
        }
        assert(self@.cols =~= Seq::new(
            n as nat,
            |j: int| ColumnView { start: start_of(lens, fl, avg as int, j) as usize, ..c0[j] },
        ));
    }

    /// Lays the table out for the screen width: the fixed columns keep their width,
    /// a column narrower than its share of the rest keeps its own, and the others
    /// share what is left equally.
    pub fn display(&mut self) -> (r: DisplayTable<'_>)
        requires
            room_ok(old(self)@.cols, old(self)@.width as int),
            fixed_kept(old(self)@.cols),
            starts_fit(old(self)@),
        ensures
            final(self)@ == laid_out(old(self)@),
            r.spec_table() == final(self)@,
            r.spec_avg() == layout_fix(old(self)@).avg,
    {
        let ghost t0 = self@;
        let (remaining, total_dyn) = self.compute_init_remaining();
        let ghost c1 = self@.cols;
        assert(fixed_now_flags(c1) =~= fixed_flags(t0.cols));
        assert(max_lens(c1) =~= max_lens(t0.cols));
        let mut avg: usize = 0;
        if remaining > 0 {
            avg = self.compute_fix_this_time(remaining, total_dyn);
        }
        let ghost st = layout_fix(t0);
        assert(fixed_now_flags(self@.cols) == st.fixed && avg == st.avg) by {
            if !(remaining > 0 && total_dyn > 0) {
                assert(self@.cols =~= c1);
            } else {
                lemma_fix_loop_len(
                    max_lens(c1),
                    c1.len(),
                    0,
                    FixState {
                        fixed: fixed_now_flags(c1),
                        remaining: remaining as int,
                        total: total_dyn as int,
                        avg: remaining as int / total_dyn as int,
                        changed: false,
                        first: None,
                    },
                );
                assert(fixed_now_flags(with_fixed_now(c1, st.fixed)) =~= st.fixed);
            }
        }
        assert(max_lens(self@.cols) =~= max_lens(t0.cols));
        self.compute_start_pos(avg);
        assert(self@.cols =~= laid_out(t0).cols);
        DisplayTable { table: self, avg }
    }
}

/// `n` spaces.
pub open spec fn spaces(n: int) -> Seq<char> {
    Seq::new(n as nat, |i: int| ' ')
}

/// A line made of pieces, each a starting column, a text and how far the text
/// moves the cursor; spaces fill the gap from the cursor to each start.
pub open spec fn place(pieces: Seq<(int, Seq<char>, int)>, cur: int) -> Seq<char>
    decreases pieces.len(),
{
    if pieces.len() == 0 {
        Seq::empty()
    } else {
        spaces(pieces[0].0 - cur) + pieces[0].1 + place(pieces.drop_first(), pieces[0].0 + pieces[0].2)
    }
}

/// No piece starts left of the cursor, and the cursor fits in `usize`.
pub open spec fn place_ok(pieces: Seq<(int, Seq<char>, int)>, cur: int) -> bool
    decreases pieces.len(),
{
    pieces.len() == 0 || (cur <= pieces[0].0 && pieces[0].0 + pieces[0].2 <= usize::MAX && place_ok(
        pieces.drop_first(),
        pieces[0].0 + pieces[0].2,
    ))
}

/// The cursor before piece `i`.
pub open spec fn place_cur(pieces: Seq<(int, Seq<char>, int)>, cur: int, i: int) -> int {
    if i == 0 {
        cur
    } else {
        pieces[i - 1].0 + pieces[i - 1].2
    }
}

/// The title of a column: cut to the shared width when it is wider and the column
/// is not fixed.
pub open spec fn header_piece(c: ColumnView, avg: int) -> (int, Seq<char>, int) {
    let w = display_width(c.name) as int;
    if avg != 0 && !c.fixed_now && avg < w {
        (c.start as int, c.name.take(char_pos(c.name, avg)->0), avg)
    } else {
        (c.start as int, c.name, w)
    }
}

/// The cut of a title falls between two characters.
pub open spec fn header_ok(c: ColumnView, avg: int) -> bool {
    (avg != 0 && !c.fixed_now && avg < display_width(c.name)) ==> char_pos(c.name, avg) is Some
}

/// A cell wider than its unfixed column wraps.
pub open spec fn wraps(c: ColumnView, cell: (Seq<char>, usize), avg: int) -> bool {
    avg != 0 && !c.fixed_now && avg < cell.1
}

/// The first line of a cell.
pub open spec fn cell_piece(c: ColumnView, cell: (Seq<char>, usize), avg: int) -> (int, Seq<char>, int) {
    if wraps(c, cell, avg) {
        let s1 = wrap_split(cell.0, avg).0;
        (c.start as int, s1, display_width(s1) as int)
    } else {
        (c.start as int, cell.0, cell.1 as int)
    }
}

/// The further lines of a cell.
pub open spec fn cell_rest(c: ColumnView, cell: (Seq<char>, usize), avg: int) -> Seq<Seq<char>> {
    if wraps(c, cell, avg) {
        wrap_lines(wrap_split(cell.0, avg).1, avg)
    } else {
        Seq::empty()
    }
}

/// A wrapping cell can be cut as wrapping requires.
pub open spec fn cell_ok(c: ColumnView, cell: (Seq<char>, usize), avg: int) -> bool {
    wraps(c, cell, avg) ==> wrap_ok(cell.0, avg) && blen(cell.0) <= usize::MAX && wrap_lines_ok(
        wrap_split(cell.0, avg).1,
        avg,
    )
}

/// Lines of `(column, text)` items after the further lines `chunks` of the cell of
/// column `idx` are added, line by line.
pub open spec fn add_chunks(lines: Seq<Seq<(int, Seq<char>)>>, idx: int, chunks: Seq<Seq<char>>) -> Seq<
    Seq<(int, Seq<char>)>,
> {
    let n = if lines.len() >= chunks.len() {
        lines.len()
    } else {
        chunks.len()
    };
    Seq::new(
        n,
        |k: int|
            (if k < lines.len() {
                lines[k]
            } else {
                Seq::empty()
            }) + (if k < chunks.len() {
                seq![(idx, chunks[k])]
            } else {
                Seq::empty()
            }),
    )
}

/// The further lines of a row, from its first `k` cells.
pub open spec fn row_lines(cols: Seq<ColumnView>, row: Seq<(Seq<char>, usize)>, avg: int, k: int) -> Seq<
    Seq<(int, Seq<char>)>,
>
    decreases k,
{
    if k <= 0 {
        Seq::empty()
    } else {
        add_chunks(row_lines(cols, row, avg, k - 1), k - 1, cell_rest(cols[k - 1], row[k - 1], avg))
    }
}

/// The pieces of a further line.
pub open spec fn line_pieces(cols: Seq<ColumnView>, line: Seq<(int, Seq<char>)>) -> Seq<(int, Seq<char>, int)> {
    line.map_values(
        |p: (int, Seq<char>)| (cols[p.0].start as int, p.1, display_width(p.1) as int),
    )
}

/// The pieces of the first line of a row.
pub open spec fn first_pieces(cols: Seq<ColumnView>, row: Seq<(Seq<char>, usize)>, avg: int) -> Seq<
    (int, Seq<char>, int),
> {
    Seq::new(row.len(), |i: int| cell_piece(cols[i], row[i], avg))
}

/// The pieces of the title line.
pub open spec fn header_pieces(cols: Seq<ColumnView>, avg: int) -> Seq<(int, Seq<char>, int)> {
    cols.map_values(|c: ColumnView| header_piece(c, avg))
}

/// Each line preceded by a line break.
pub open spec fn on_new_lines(lines: Seq<Seq<char>>) -> Seq<char>
    decreases lines.len(),
{
    if lines.len() == 0 {
        Seq::empty()
    } else {
        seq!['\n'] + lines[0] + on_new_lines(lines.drop_first())
    }
}

/// A row: its first line, then its further lines.
pub open spec fn row_text(cols: Seq<ColumnView>, row: Seq<(Seq<char>, usize)>, avg: int) -> Seq<char> {
    let lines = row_lines(cols, row, avg, row.len() as int);
    seq!['\n'] + place(first_pieces(cols, row, avg), 0) + on_new_lines(
        lines.map_values(|l: Seq<(int, Seq<char>)>| place(line_pieces(cols, l), 0)),
    )
}

/// The rows from the `k`-th on.
pub open spec fn rows_text(t: TableView, avg: int, k: int) -> Seq<char>
    decreases t.rows.len() - k,
{
    if k < 0 || k >= t.rows.len() {
        Seq::empty()
    } else {
        row_text(t.cols, t.rows[k], avg) + rows_text(t, avg, k + 1)
    }
}

/// The text of a laid-out table: the titles, then the rows.
pub open spec fn render(t: TableView, avg: int) -> Seq<char> {
    place(header_pieces(t.cols, avg), 0) + rows_text(t, avg, 0)
}

/// A row can be shown: it has no more cells than there are columns, its cells
/// can be cut, and its lines fit.
pub open spec fn row_ok(cols: Seq<ColumnView>, row: Seq<(Seq<char>, usize)>, avg: int) -> bool {
    &&& row.len() <= cols.len()
    &&& forall|i: int| 0 <= i < row.len() ==> cell_ok(cols[i], #[trigger] row[i], avg)
    &&& place_ok(first_pieces(cols, row, avg), 0)
    &&& forall|k: int|
        0 <= k < row_lines(cols, row, avg, row.len() as int).len() ==> place_ok(
            line_pieces(cols, #[trigger] row_lines(cols, row, avg, row.len() as int)[k]),
            0,
        )
}

/// The table can be shown: its titles can be cut, and its lines fit.
pub open spec fn render_ok(t: TableView, avg: int) -> bool {
    &&& forall|i: int| 0 <= i < t.cols.len() ==> header_ok(#[trigger] t.cols[i], avg)
    &&& place_ok(header_pieces(t.cols, avg), 0)
    &&& forall|k: int| 0 <= k < t.rows.len() ==> row_ok(t.cols, #[trigger] t.rows[k], avg)
}

proof fn lemma_row_lines_idx(cols: Seq<ColumnView>, row: Seq<(Seq<char>, usize)>, avg: int, i: int)
    requires
        0 <= i,
    ensures
        forall|k: int, q: int|
            0 <= k < row_lines(cols, row, avg, i).len() && 0 <= q < row_lines(cols, row, avg, i)[k].len()
                ==> 0 <= (#[trigger] row_lines(cols, row, avg, i)[k][q]).0 < i,
    decreases i,
{
    if i > 0 {
        lemma_row_lines_idx(cols, row, avg, i - 1);
        let prev = row_lines(cols, row, avg, i - 1);
        let cur = row_lines(cols, row, avg, i);
        assert forall|k: int, q: int| 0 <= k < cur.len() && 0 <= q < cur[k].len() implies 0 <= (#[trigger] cur[k][q]).0 < i by {
            let a = if k < prev.len() {
                prev[k]
            } else {
                Seq::empty()
            };
            if q < a.len() {
                assert(cur[k][q] == a[q]);
                if k < prev.len() {
                    assert(prev[k][q] == a[q]);
                }
            }
        }
    }
}

/// Moves the cursor from `cur` to `start` with spaces, then writes `text`, which
/// moves it `len` further.
fn emit(out: &mut Vec<char>, cur: usize, start: usize, text: &[char], len: usize) -> (r: usize)
    requires
        cur <= start,
        start + len <= usize::MAX,
    ensures
        final(out)@ == old(out)@ + spaces(start - cur) + text@,
        r == start + len,
{
    let mut k: usize = cur;
    while k < start
        invariant
            cur <= k <= start,
            out@ == old(out)@ + spaces(k - cur),
        decreases start - k,
    {
        out.push(' ');
        k = k + 1;
        assert(out@ =~= old(out)@ + spaces(k - cur));
    }
    push_all(out, text);
    start + len
}

/// The further lines of a row as they are gathered: each holds, for the cells
/// that reach it, the column and the text.
struct MultiLineManager {
    content: Vec<Vec<(usize, Vec<char>)>>,
}

/// The lines held, as columns and texts.
spec fn lines_view(c: Seq<Vec<(usize, Vec<char>)>>) -> Seq<Seq<(int, Seq<char>)>> {
    c.map_values(|l: Vec<(usize, Vec<char>)>| l@.map_values(|p: (usize, Vec<char>)| (p.0 as int, p.1@)))
}

impl MultiLineManager {
    /// Adds the lines of `s` wrapped to `max_len` bytes, one to each line from the
    /// first on, for the cell of column `idx`.
    fn process(&mut self, idx: usize, s: Vec<char>, max_len: usize)
        requires
            wrap_lines_ok(s@, max_len as int),
        ensures
            lines_view(final(self).content@) == add_chunks(
                lines_view(old(self).content@),
                idx as int,
                wrap_lines(s@, max_len as int),
            ),
    {
        let ghost l0 = lines_view(self.content@);
        let ghost all = wrap_lines(s@, max_len as int);
        let ghost mut produced: Seq<Seq<char>> = Seq::empty();
        let mut rest = s;
        let mut line_num: usize = 0;
        assert(lines_view(self.content@) =~= add_chunks(l0, idx as int, produced));
        assert(all =~= produced + wrap_lines(rest@, max_len as int));
        while rest.len() > 0
            invariant
                wrap_lines_ok(rest@, max_len as int),
                all == produced + wrap_lines(rest@, max_len as int),
                produced.len() == line_num,
                lines_view(self.content@) == add_chunks(l0, idx as int, produced),
                line_num <= self.content@.len(),
            decreases rest@.len(),
        {
            let ghost prev = lines_view(self.content@);
            let ghost pushed = line_num == self.content@.len();
            if line_num == self.content.len() {
                let e: Vec<(usize, Vec<char>)> = Vec::new();
                assert(e@.map_values(|p: (usize, Vec<char>)| (p.0 as int, p.1@)) =~= Seq::<(int, Seq<char>)>::empty());
                self.content.push(e);
                assert(lines_view(self.content@) =~= prev.push(Seq::empty()));
            }
            let ghost before = lines_view(self.content@);
            assert(before.len() == self.content@.len());
            let n = self.content.len();
            assert(line_num < n);
            let (s1, s2) = split_chars(rest.as_slice(), max_len);
            let mut line = self.content.remove(line_num);
            let ghost lv = line@.map_values(|p: (usize, Vec<char>)| (p.0 as int, p.1@));
            assert(lv == before[line_num as int]);
            line.push((idx, s1));
            assert(line@.map_values(|p: (usize, Vec<char>)| (p.0 as int, p.1@)) =~= lv.push((idx as int, s1@)));
            self.content.insert(line_num, line);
            proof {
                let np = produced.push(s1@);
                let goal = add_chunks(l0, idx as int, np);
                let now = lines_view(self.content@);
                assert(now.len() == before.len());
                assert(now.len() == goal.len());
                assert forall|k: int| 0 <= k < now.len() implies now[k] == goal[k] by {
                    if k != line_num {
                        assert(now[k] == before[k]);
                        if k < prev.len() {
                            assert(before[k] == prev[k]);
                        }
                        assert(now[k] =~= goal[k]);
                    } else {
                        let a: Seq<(int, Seq<char>)> = if k < l0.len() {
                            l0[k]
                        } else {
                            Seq::empty()
                        };
                        if !pushed {
                            assert(prev[k] =~= a);
                        } else {
                            assert(before[k] == Seq::<(int, Seq<char>)>::empty());
                            assert(a =~= Seq::<(int, Seq<char>)>::empty());
                        }
                        assert(now[k] =~= goal[k]);
                    }
                }
                assert(now =~= goal);
                assert(wrap_lines(rest@, max_len as int) =~= seq![s1@] + wrap_lines(s2@, max_len as int));
                assert(all =~= np + wrap_lines(s2@, max_len as int));
                produced = np;
            }
            line_num = line_num + 1;
            rest = s2;
        }
        assert(produced =~= all);
    }
}

impl<'a> DisplayTable<'a> {
    /// Writes the line of titles.
    fn write_header(&self, out: &mut Vec<char>)
        requires
            render_ok(self.table@, self.avg as int),
        ensures
            final(out)@ == old(out)@ + place(header_pieces(self.table@.cols, self.avg as int), 0),
    {
        let ghost cols = self.table@.cols;
        let ghost pieces = header_pieces(cols, self.avg as int);
        let ghost goal = old(out)@ + place(pieces, 0);
        let n = self.table.cols.len();
        let avg = self.avg;
        let mut cur: usize = 0;
        let mut i: usize = 0;
        assert(pieces.skip(0) =~= pieces);
        while i < n
            invariant
                n == cols.len(),
                cols == self.table@.cols,
                pieces == header_pieces(cols, avg as int),
                avg == self.avg,
                forall|j: int| 0 <= j < cols.len() ==> header_ok(#[trigger] cols[j], avg as int),
                i <= n,
                place_ok(pieces.skip(i as int), cur as int),
                out@ + place(pieces.skip(i as int), cur as int) == goal,
            decreases n - i,
        {
            let col = &self.table.cols[i];
            assert(col@ == cols[i as int]);
            let ghost p = pieces[i as int];
            assert(pieces.skip(i as int).drop_first() =~= pieces.skip(i + 1));
            assert(pieces.skip(i as int)[0] == p);
            let name = to_chars(col.name);
            let w = str_width(col.name);
            if avg != 0 && !col.is_fixed_this_time && avg < w {
                let k = char_index_of_bytes(name.as_slice(), avg);
                let content = crate::text::sub_chars(name.as_slice(), 0, k);
                assert(content@ =~= p.1);
                cur = emit(out, cur, col.start_pos_this_time, content.as_slice(), avg);
            } else {
                cur = emit(out, cur, col.start_pos_this_time, name.as_slice(), w);
            }
            assert(out@ + place(pieces.skip(i + 1), cur as int) =~= goal);
            i = i + 1;
        }
    }

    /// Writes a row: a line break and its first line, then its further lines.
    fn write_row(&self, row: &Vec<Cell>, out: &mut Vec<char>)
        requires
            row_ok(self.table@.cols, row@.map_values(|c: Cell| c@), self.avg as int),
        ensures
            final(out)@ == old(out)@ + row_text(self.table@.cols, row@.map_values(|c: Cell| c@), self.avg as int),
    {
        let ghost cols = self.table@.cols;
        let ghost rv = row@.map_values(|c: Cell| c@);
        let avg = self.avg;
        let ghost pieces = first_pieces(cols, rv, avg as int);
        let ghost lines = row_lines(cols, rv, avg as int, rv.len() as int);
        let ghost texts = lines.map_values(|l: Seq<(int, Seq<char>)>| place(line_pieces(cols, l), 0));
        let ghost goal = old(out)@ + row_text(cols, rv, avg as int);
        out.push('\n');
        let mut cur: usize = 0;
        let mut multi = MultiLineManager { content: Vec::new() };
        let n = row.len();
        let mut i: usize = 0;
        assert(lines_view(multi.content@) =~= row_lines(cols, rv, avg as int, 0));
        assert(pieces.skip(0) =~= pieces);
        assert(out@ + place(pieces.skip(0), 0) + on_new_lines(texts) =~= goal);
        proof {
            lemma_row_lines_idx(cols, rv, avg as int, rv.len() as int);
        }
        while i < n
            invariant
                n == rv.len(),
                rv == row@.map_values(|c: Cell| c@),
                cols == self.table@.cols,
                avg == self.avg,
                row_ok(cols, rv, avg as int),
                pieces == first_pieces(cols, rv, avg as int),
                i <= n,
                place_ok(pieces.skip(i as int), cur as int),
                lines_view(multi.content@) == row_lines(cols, rv, avg as int, i as int),
                out@ + place(pieces.skip(i as int), cur as int) + on_new_lines(texts) == goal,
                lines == row_lines(cols, rv, avg as int, rv.len() as int),
                texts == lines.map_values(|l: Seq<(int, Seq<char>)>| place(line_pieces(cols, l), 0)),
            decreases n - i,
        {
            let col = &self.table.cols[i];
            let cell = &row[i];
            assert(col@ == cols[i as int]);
            assert(cell@ == rv[i as int]);
            assert(cell_ok(cols[i as int], rv[i as int], avg as int));
            let ghost p = pieces[i as int];
            assert(pieces.skip(i as int).drop_first() =~= pieces.skip(i + 1));
            assert(pieces.skip(i as int)[0] == p);
            let chars = to_chars(cell.content.as_str());
            if avg != 0 && !col.is_fixed_this_time && avg < cell.len {
                let (s1, s2) = split_chars(chars.as_slice(), avg);
                multi.process(i, s2, avg);
                let t1 = from_chars(s1.as_slice());
                let w = str_width(t1.as_str());
                cur = emit(out, cur, col.start_pos_this_time, s1.as_slice(), w);
            } else {
                let ghost l = lines_view(multi.content@);
                assert(add_chunks(l, i as int, Seq::empty()) =~= l) by {
                    assert forall|k: int| 0 <= k < l.len() implies add_chunks(l, i as int, Seq::empty())[k] == l[k] by {
                        assert(add_chunks(l, i as int, Seq::empty())[k] =~= l[k]);
                    }
                }
                cur = emit(out, cur, col.start_pos_this_time, chars.as_slice(), cell.len);
            }
            assert(out@ + place(pieces.skip(i + 1), cur as int) + on_new_lines(texts) =~= goal);
            i = i + 1;
        }
        assert(lines_view(multi.content@) == lines);
        let m = multi.content.len();
        let mut k: usize = 0;
        assert(pieces.skip(n as int) =~= Seq::<(int, Seq<char>, int)>::empty());
        assert(texts.skip(0) =~= texts);
        assert(out@ + on_new_lines(texts.skip(0)) =~= goal);
        while k < m
            invariant
                m == lines.len(),
                lines_view(multi.content@) == lines,
                cols == self.table@.cols,
                rv == row@.map_values(|c: Cell| c@),
                row_ok(cols, rv, avg as int),
                lines == row_lines(cols, rv, avg as int, rv.len() as int),
                texts == lines.map_values(|l: Seq<(int, Seq<char>)>| place(line_pieces(cols, l), 0)),
                k <= m,
                out@ + on_new_lines(texts.skip(k as int)) == goal,
                rv.len() <= cols.len(),
                forall|a: int, q: int|
                    0 <= a < lines.len() && 0 <= q < lines[a].len() ==> 0 <= (#[trigger] lines[a][q]).0 < rv.len(),
            decreases m - k,
        {
            assert(texts.skip(k as int).drop_first() =~= texts.skip(k + 1));
            let ghost lp = line_pieces(cols, lines[k as int]);
            assert(place_ok(lp, 0));
            let ghost before = out@;
            out.push('\n');
            let line = &multi.content[k];
            let ghost lv = line@.map_values(|p: (usize, Vec<char>)| (p.0 as int, p.1@));
            assert(lv == lines[k as int]);
            let ln = line.len();
            let mut cur: usize = 0;
            let mut j: usize = 0;
            assert(lp.skip(0) =~= lp);
            assert(texts[k as int] == place(lp, 0));
            assert(out@ + place(lp.skip(0), 0) =~= before + seq!['\n'] + texts[k as int]);
            while j < ln
                invariant
                    ln == lv.len(),
                    k < m,
                    texts.len() == m,
                    lv == line@.map_values(|p: (usize, Vec<char>)| (p.0 as int, p.1@)),
                    cols == self.table@.cols,
                    lp == line_pieces(cols, lv),
                    j <= ln,
                    place_ok(lp.skip(j as int), cur as int),
                    out@ + place(lp.skip(j as int), cur as int) == before + seq!['\n'] + texts[k as int],
                    forall|q: int| 0 <= q < ln ==> 0 <= (#[trigger] lv[q]).0 < cols.len(),
                decreases ln - j,
            {
                assert(lp.skip(j as int).drop_first() =~= lp.skip(j + 1));
                let (idx, text) = (line[j].0, &line[j].1);
                assert(lv[j as int] == (idx as int, text@));
                let col = &self.table.cols[idx];
                assert(col@ == cols[idx as int]);
                let t = from_chars(text.as_slice());
                let w = str_width(t.as_str());
                cur = emit(out, cur, col.start_pos_this_time, text.as_slice(), w);
                assert(out@ + place(lp.skip(j + 1), cur as int) =~= before + seq!['\n'] + texts[k as int]);
                j = j + 1;
            }
            assert(out@ + on_new_lines(texts.skip(k + 1)) =~= goal);
            k = k + 1;
        }
    }

    /// Whether the titles can be cut and their line fits.
    fn header_fits(&self) -> (r: bool)
        ensures
            r == ((forall|i: int|
                0 <= i < self.table@.cols.len() ==> header_ok(#[trigger] self.table@.cols[i], self.avg as int))
                && place_ok(header_pieces(self.table@.cols, self.avg as int), 0)),
    {
        let ghost cols = self.table@.cols;
        let ghost pieces = header_pieces(cols, self.avg as int);
        let n = self.table.cols.len();
        let avg = self.avg;
        let mut cur: usize = 0;
        let mut i: usize = 0;
        assert(pieces.skip(0) =~= pieces);
        while i < n
            invariant
                n == cols.len(),
                cols == self.table@.cols,
                pieces == header_pieces(cols, avg as int),
                avg == self.avg,
                i <= n,
                forall|j: int| 0 <= j < i ==> header_ok(#[trigger] cols[j], avg as int),
                place_ok(pieces, 0) == place_ok(pieces.skip(i as int), cur as int),
            decreases n - i,
        {
            let col = &self.table.cols[i];
            assert(col@ == cols[i as int]);
            let ghost p = pieces[i as int];
            assert(pieces.skip(i as int).drop_first() =~= pieces.skip(i + 1));
            assert(pieces.skip(i as int)[0] == p);
            let w = str_width(col.name);
            let len: usize = if avg != 0 && !col.is_fixed_this_time && avg < w {
                let name = to_chars(col.name);
                if find_char_pos(name.as_slice(), avg).is_none() {
                    assert(!header_ok(cols[i as int], avg as int));
                    return false;
                }
                avg
            } else {
                w
            };
            assert(header_ok(cols[i as int], avg as int));
            assert(p.0 == col.start_pos_this_time as int && p.2 == len as int);
            if cur > col.start_pos_this_time || col.start_pos_this_time > usize::MAX - len {
                return false;
            }
            cur = col.start_pos_this_time + len;
            i = i + 1;
        }
        true
    }

    /// Whether the cells of `row` can be cut and its lines fit.
    fn row_fits(&self, row: &Vec<Cell>) -> (r: bool)
        ensures
            r == row_ok(self.table@.cols, row@.map_values(|c: Cell| c@), self.avg as int),
    {
        let ghost cols = self.table@.cols;
        let ghost rv = row@.map_values(|c: Cell| c@);
        let avg = self.avg;
        let ghost pieces = first_pieces(cols, rv, avg as int);
        if row.len() > self.table.cols.len() {
            return false;
        }
        let mut cur: usize = 0;
        let mut multi = MultiLineManager { content: Vec::new() };
        let n = row.len();
        let mut i: usize = 0;
        assert(lines_view(multi.content@) =~= row_lines(cols, rv, avg as int, 0));
        assert(pieces.skip(0) =~= pieces);
        while i < n
            invariant
                n == rv.len(),
                rv.len() <= cols.len(),
                rv == row@.map_values(|c: Cell| c@),
                cols == self.table@.cols,
                avg == self.avg,
                pieces == first_pieces(cols, rv, avg as int),
                i <= n,
                forall|j: int| 0 <= j < i ==> cell_ok(cols[j], #[trigger] rv[j], avg as int),
                place_ok(pieces, 0) == place_ok(pieces.skip(i as int), cur as int),
                lines_view(multi.content@) == row_lines(cols, rv, avg as int, i as int),
            decreases n - i,
        {
            let col = &self.table.cols[i];
            let cell = &row[i];
            assert(col@ == cols[i as int]);
            assert(cell@ == rv[i as int]);
            let ghost p = pieces[i as int];
            assert(pieces.skip(i as int).drop_first() =~= pieces.skip(i + 1));
            assert(pieces.skip(i as int)[0] == p);
            let len: usize = if avg != 0 && !col.is_fixed_this_time && avg < cell.len {
                let chars = to_chars(cell.content.as_str());
                if !check_wrap(chars.as_slice(), avg) {
                    return false;
                }
                let (s1, s2) = split_chars(chars.as_slice(), avg);
                let s2c = s2.clone();
                assert(s2c@ == s2@);
                if !check_wrap_lines(s2c, avg) {
                    return false;
                }
                multi.process(i, s2, avg);
                let t1 = from_chars(s1.as_slice());
                str_width(t1.as_str())
            } else {
                let ghost l = lines_view(multi.content@);
                assert(add_chunks(l, i as int, Seq::empty()) =~= l) by {
                    assert forall|k: int| 0 <= k < l.len() implies add_chunks(l, i as int, Seq::empty())[k] == l[k] by {
                        assert(add_chunks(l, i as int, Seq::empty())[k] =~= l[k]);
                    }
                }
                cell.len
            };
            assert(cell_ok(cols[i as int], rv[i as int], avg as int));
            assert(p.0 == col.start_pos_this_time as int && p.2 == len as int);
            if cur > col.start_pos_this_time || col.start_pos_this_time > usize::MAX - len {
                return false;
            }
            cur = col.start_pos_this_time + len;
            i = i + 1;
        }
        assert(place_ok(pieces.skip(n as int), cur as int));
        let ghost lines = row_lines(cols, rv, avg as int, rv.len() as int);
        assert(lines_view(multi.content@) == lines);
        proof {
            lemma_row_lines_idx(cols, rv, avg as int, rv.len() as int);
        }
        let m = multi.content.len();
        let mut k: usize = 0;
        while k < m
            invariant
                m == lines.len(),
                lines_view(multi.content@) == lines,
                cols == self.table@.cols,
                rv == row@.map_values(|c: Cell| c@),
                lines == row_lines(cols, rv, avg as int, rv.len() as int),
                k <= m,
                rv.len() <= cols.len(),
                forall|a: int, q: int|
                    0 <= a < lines.len() && 0 <= q < lines[a].len() ==> 0 <= (#[trigger] lines[a][q]).0 < rv.len(),
                forall|a: int| 0 <= a < k ==> place_ok(line_pieces(cols, #[trigger] lines[a]), 0),
                avg == self.avg,
            decreases m - k,
        {
            let ghost lp = line_pieces(cols, lines[k as int]);
            let line = &multi.content[k];
            let ghost lv = line@.map_values(|p: (usize, Vec<char>)| (p.0 as int, p.1@));
            assert(lv == lines[k as int]);
            let ln = line.len();
            let mut lcur: usize = 0;
            let mut j: usize = 0;
            assert(lp.skip(0) =~= lp);
            while j < ln
                invariant
                    ln == lv.len(),
                    lv == line@.map_values(|p: (usize, Vec<char>)| (p.0 as int, p.1@)),
                    cols == self.table@.cols,
                    lp == line_pieces(cols, lv),
                    j <= ln,
                    place_ok(lp, 0) == place_ok(lp.skip(j as int), lcur as int),
                    k < m,
                    m == lines.len(),
                    lv == lines[k as int],
                    lines == row_lines(cols, rv, avg as int, rv.len() as int),
                    rv == row@.map_values(|c: Cell| c@),
                    avg == self.avg,
                    forall|q: int| 0 <= q < ln ==> 0 <= (#[trigger] lv[q]).0 < cols.len(),
                decreases ln - j,
            {
                assert(lp.skip(j as int).drop_first() =~= lp.skip(j + 1));
                assert(lp.skip(j as int)[0] == lp[j as int]);
                let (idx, text) = (line[j].0, &line[j].1);
                assert(lv[j as int] == (idx as int, text@));
                let col = &self.table.cols[idx];
                assert(col@ == cols[idx as int]);
                let t = from_chars(text.as_slice());
                let w = str_width(t.as_str());
                if lcur > col.start_pos_this_time || col.start_pos_this_time > usize::MAX - w {
                    assert(!place_ok(line_pieces(cols, lines[k as int]), 0));
                    return false;
                }
                lcur = col.start_pos_this_time + w;
                j = j + 1;
            }
            assert(place_ok(lp.skip(ln as int), lcur as int));
            k = k + 1;
        }
        true
    }

    /// Whether the table can be shown as it was laid out.
    pub fn fits(&self) -> (r: bool)
        ensures
            r == render_ok(self.spec_table(), self.spec_avg() as int),
    {
        let ghost t = self.table@;
        let ghost avg = self.avg as int;
        if !self.header_fits() {
            return false;
        }
        let n = self.table.rows.len();
        let mut k: usize = 0;
        while k < n
            invariant
                n == t.rows.len(),
                t == self.table@,
                avg == self.avg as int,
                k <= n,
                forall|j: int| 0 <= j < k ==> row_ok(t.cols, #[trigger] t.rows[j], avg),
            decreases n - k,
        {
            let row = &self.table.rows[k];
            assert(row@.map_values(|c: Cell| c@) == t.rows[k as int]);
            if !self.row_fits(row) {
                return false;
            }
            k = k + 1;
        }
        true
    }

    /// The table as text, or `None` when a title or a cell cannot be cut where
    /// the layout asks, or a line would not fit.
    pub fn try_to_string(&self) -> (r: Option<String>)
        ensures
            match r {
                Some(s) => render_ok(self.spec_table(), self.spec_avg() as int) && s@ == render(
                    self.spec_table(),
                    self.spec_avg() as int,
                ),
                None => !render_ok(self.spec_table(), self.spec_avg() as int),
            },
    {
        if self.fits() {
            Some(self.to_string())
        } else {
            None
        }
    }

    /// The table as text.
    pub fn to_string(&self) -> (r: String)
        requires
            render_ok(self.spec_table(), self.spec_avg() as int),
        ensures
            r@ == render(self.spec_table(), self.spec_avg() as int),
    {
        let ghost t = self.table@;
        let ghost avg = self.avg as int;
        let mut out: Vec<char> = Vec::new();
        self.write_header(&mut out);
        let n = self.table.rows.len();
        let mut k: usize = 0;
        assert(out@ + rows_text(t, avg, 0) =~= render(t, avg));
        while k < n
            invariant
                n == t.rows.len(),
                t == self.table@,
                avg == self.avg as int,
                render_ok(t, avg),
                k <= n,
                out@ + rows_text(t, avg, k as int) == render(t, avg),
            decreases n - k,
        {
            let row = &self.table.rows[k];
            assert(row@.map_values(|c: Cell| c@) == t.rows[k as int]);
            assert(row_ok(t.cols, t.rows[k as int], avg));
            self.write_row(row, &mut out);
            assert(out@ + rows_text(t, avg, k + 1) =~= render(t, avg));
            k = k + 1;
        }
        from_chars(out.as_slice())
    }
}

} // verus!
