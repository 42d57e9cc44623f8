//! The mathematical model of a rectangular grid of cells.

use vstd::prelude::*;

verus! {

/// The largest width or height of a grid. Grid coordinates, their world
/// positions in `i32` units and the cell count all fit comfortably below it.
pub const MAX_GRID_DIM: usize = 4096;

/// The rows of a nested vector as a sequence of sequences.
pub open spec fn rows_of<T>(v: Seq<Vec<T>>) -> Seq<Seq<T>> {
    v.map_values(|r: Vec<T>| r@)
}

pub open spec fn height_of<T>(g: Seq<Seq<T>>) -> int {
    g.len() as int
}

pub open spec fn width_of<T>(g: Seq<Seq<T>>) -> int {
    if g.len() > 0 {
        g[0].len() as int
    } else {
        0
    }
}

/// A non-empty rectangle of cells, no larger than `MAX_GRID_DIM` each way;
/// row `y` holds the cells `(0, y) .. (width - 1, y)`.
pub open spec fn is_grid<T>(g: Seq<Seq<T>>) -> bool {
    &&& 0 < g.len() <= MAX_GRID_DIM
    &&& 0 < g[0].len() <= MAX_GRID_DIM
    &&& forall|y: int| 0 <= y < g.len() ==> #[trigger] g[y].len() == g[0].len()
}

/// A grid of exactly `w` by `h` cells.
pub open spec fn has_dims<T>(g: Seq<Seq<T>>, w: int, h: int) -> bool {
    is_grid(g) && width_of(g) == w && height_of(g) == h
}

pub open spec fn in_grid<T>(g: Seq<Seq<T>>, x: int, y: int) -> bool {
    0 <= x < width_of(g) && 0 <= y < height_of(g)
}

/// The `w` by `h` grid whose cell `(x, y)` is `f(x, y)`.
pub open spec fn grid_from<T>(w: int, h: int, f: spec_fn(int, int) -> T) -> Seq<Seq<T>> {
    Seq::new(h as nat, |y: int| Seq::new(w as nat, |x: int| f(x, y)))
}

pub proof fn lemma_grid_from_dims<T>(w: int, h: int, f: spec_fn(int, int) -> T)
    requires
        0 < w <= MAX_GRID_DIM,
        0 < h <= MAX_GRID_DIM,
    ensures
        has_dims(grid_from(w, h, f), w, h),
        forall|x: int, y: int|
            0 <= x < w && 0 <= y < h ==> #[trigger] grid_from(w, h, f)[y][x] == f(x, y),
{
}

} // verus!
