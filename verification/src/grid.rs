//! Short listings laid out as a grid of names, column after column, packed into
//! the width of the screen by the `term_grid` crate.
use vstd::prelude::*;

verus! {

#[verifier::external_type_specification]
#[verifier::external_body]
pub struct ExTermGrid(term_grid::Grid);

/// The cells a `term_grid::Grid` holds, in the order they were added: each its
/// text and its width in columns.
pub uninterp spec fn grid_cells(g: term_grid::Grid) -> Seq<(Seq<char>, usize)>;

/// The text `term_grid` shows for `cells`, laid out from top to bottom with two
/// spaces between columns, in the fewest lines that fit `width` columns; `None`
/// when no layout fits.
pub uninterp spec fn grid_fitted(cells: Seq<(Seq<char>, usize)>, width: usize) -> Option<Seq<char>>;

/// The text `term_grid` shows for `cells` in a single column.
pub uninterp spec fn grid_one_column(cells: Seq<(Seq<char>, usize)>) -> Seq<char>;

/// The widths of `cells` added up.
pub open spec fn widths_sum(cells: Seq<(Seq<char>, usize)>) -> nat
    decreases cells.len(),
{
    if cells.len() == 0 {
        0
    } else {
        widths_sum(cells.drop_last()) + cells.last().1 as nat
    }
}

/// The sums that laying `cells` out computes fit in `usize`.
pub open spec fn grid_fits_usize(cells: Seq<(Seq<char>, usize)>) -> bool {
    widths_sum(cells) + 2 * cells.len() <= usize::MAX
}

/// `term_grid::Grid::new` with cells laid out from top to bottom and two spaces
/// between columns. Claimed: the grid holds no cell.
#[verifier::external_body]
fn term_grid_new() -> (r: term_grid::Grid)
    ensures
        grid_cells(r) == Seq::<(Seq<char>, usize)>::empty(),
{
    term_grid::Grid::new(
        term_grid::GridOptions {
            direction: term_grid::Direction::TopToBottom,
            filling: term_grid::Filling::Spaces(2),
        },
    )
}

/// `term_grid::Grid::reserve`, which reserves room in its vector of cells.
/// Claimed: the cells are unchanged. The vector's reserve panics past
/// `isize::MAX` bytes, and a cell takes at most 32 bytes, so the room asked for
/// is bounded.
#[verifier::external_body]
fn term_grid_reserve(g: &mut term_grid::Grid, additional: usize)
    requires
        (grid_cells(*old(g)).len() + additional) * 32 <= isize::MAX,
    ensures
        grid_cells(*final(g)) == grid_cells(*old(g)),
{
    g.reserve(additional)
}

/// `term_grid::Grid::add`, which pushes a cell. Claimed: the cell is added last.
#[verifier::external_body]
fn term_grid_add(g: &mut term_grid::Grid, contents: String, width: usize)
    ensures
        grid_cells(*final(g)) == grid_cells(*old(g)).push((contents@, width)),
{
    g.add(term_grid::Cell { contents, width })
}

/// `term_grid::Grid::fit_into_width`, shown as text. Claimed: the result is
/// `grid_fitted` of the cells and the width, a function of them alone.
#[verifier::external_body]
fn term_grid_fit_into_width(g: &term_grid::Grid, width: usize) -> (r: Option<String>)
    requires
        grid_fits_usize(grid_cells(*g)),
    ensures
        match r {
            Some(s) => grid_fitted(grid_cells(*g), width) == Some(s@),
            None => grid_fitted(grid_cells(*g), width) is None,
        },
{
    match g.fit_into_width(width) {
        Some(d) => Some(d.to_string()),
        None => None,
    }
}

/// `term_grid::Grid::fit_into_columns` with one column, shown as text. Claimed:
/// the result is `grid_one_column` of the cells, a function of them alone.
#[verifier::external_body]
fn term_grid_one_column(g: &term_grid::Grid) -> (r: String)
    requires
        grid_fits_usize(grid_cells(*g)),
    ensures
        r@ == grid_one_column(grid_cells(*g)),
{
    g.fit_into_columns(1).to_string()
}

/// The text of a short listing for a screen `width` columns wide: packed into the
/// width when the width is known (not 0) and the cells fit, else one per line.
pub open spec fn screen_text(cells: Seq<(Seq<char>, usize)>, width: usize) -> Seq<char> {
    if width > 0 && grid_fitted(cells, width) is Some {
        grid_fitted(cells, width)->0
    } else {
        grid_one_column(cells)
    }
}

/// A grid of names for a short listing.
pub struct ListGrid {
    capacity: usize,
    grid: term_grid::Grid,
    term_width: Option<usize>,
}

impl ListGrid {
    /// The cells added so far.
    pub closed spec fn cells(&self) -> Seq<(Seq<char>, usize)> {
        grid_cells(self.grid)
    }

    /// The width of the screen, once it was measured.
    pub closed spec fn spec_term_width(&self) -> Option<usize> {
        self.term_width
    }

    /// The room the grid was made with.
    pub closed spec fn spec_capacity(&self) -> usize {
        self.capacity
    }

    /// An empty grid with room for `capacity` cells.
    pub fn new(capacity: usize) -> (r: ListGrid)
        requires
            capacity * 32 <= isize::MAX,
        ensures
            r.cells() == Seq::<(Seq<char>, usize)>::empty(),
            r.spec_term_width() is None,
            r.spec_capacity() == capacity,
    {
        let mut grid = term_grid_new();
        term_grid_reserve(&mut grid, capacity);
        ListGrid { grid, capacity, term_width: None }
    }

    /// Adds a cell of the given width.
    pub fn add(&mut self, contents: String, width: usize)
        ensures
            final(self).cells() == old(self).cells().push((contents@, width)),
            final(self).spec_term_width() == old(self).spec_term_width(),
            final(self).spec_capacity() == old(self).spec_capacity(),
    {
        term_grid_add(&mut self.grid, contents, width);
    }

    /// Empties the grid, as a new one with the same room.
    pub fn clear(&mut self)
        requires
            old(self).spec_capacity() * 32 <= isize::MAX,
        ensures
            final(self).cells() == Seq::<(Seq<char>, usize)>::empty(),
            final(self).spec_term_width() is None,
            final(self).spec_capacity() == old(self).spec_capacity(),
    {
        *self = ListGrid::new(self.capacity);
    }

    /// The grid as text for the screen. The width of the screen is measured once:
    /// `measured` is taken only when no width is known yet.
    pub fn fit_into_screen(&mut self, measured: usize) -> (r: String)
        requires
            grid_fits_usize(old(self).cells()),
        ensures
            final(self).cells() == old(self).cells(),
            final(self).spec_capacity() == old(self).spec_capacity(),
            final(self).spec_term_width() == Some(
                match old(self).spec_term_width() {
                    Some(w) => w,
                    None => measured,
                },
            ),
            r@ == screen_text(old(self).cells(), final(self).spec_term_width()->0),
    {
        let width = match self.term_width {
            Some(w) => w,
            None => measured,
        };
        self.term_width = Some(width);
        if width > 0 {
            match term_grid_fit_into_width(&self.grid, width) {
                Some(s) => {
                    return s;
                },
                None => {},
            }
        }
        term_grid_one_column(&self.grid)
    }
}

} // verus!
