use vstd::prelude::*;
use crate::geometry::{in_bounds, COLS, ROWS};

verus! {

/// One pixel to draw: a coordinate, with the origin at the top-left corner,
/// and whether the pixel is lit.
#[derive(Clone, Copy, Debug, PartialEq, Eq)]
pub struct Pixel {
    pub x: i32,
    pub y: i32,
    pub on: bool,
}

/// Whether a grid has the panel's shape: `ROWS` rows of `COLS` pixels.
/// Row `y` of a grid is `grid[y]`, and its pixel in column `x` is
/// `grid[y][x]`.
pub open spec fn is_grid(grid: Seq<Seq<bool>>) -> bool {
    &&& grid.len() == ROWS
    &&& forall|y: int| 0 <= y < ROWS ==> (#[trigger] grid[y]).len() == COLS
}

/// The grid with every pixel off.
pub open spec fn blank() -> Seq<Seq<bool>> {
    Seq::new(ROWS as nat, |y: int| Seq::new(COLS as nat, |x: int| false))
}

/// A grid after one pixel is drawn. A coordinate outside the panel is
/// clipped: the grid stays as it is.
pub open spec fn put(grid: Seq<Seq<bool>>, x: int, y: int, on: bool) -> Seq<Seq<bool>> {
    if in_bounds(x, y) {
        grid.update(y, grid[y].update(x, on))
    } else {
        grid
    }
}

/// A grid after a batch of pixels is drawn, first to last.
pub open spec fn put_all(grid: Seq<Seq<bool>>, pixels: Seq<Pixel>) -> Seq<Seq<bool>>
    decreases pixels.len(),
{
    if pixels.len() == 0 {
        grid
    } else {
        let p = pixels.last();
        put(put_all(grid, pixels.drop_last()), p.x as int, p.y as int, p.on)
    }
}

/// Drawing keeps the shape of the grid.
pub proof fn lemma_put_is_grid(grid: Seq<Seq<bool>>, x: int, y: int, on: bool)
    requires
        is_grid(grid),
    ensures
        is_grid(put(grid, x, y, on)),
{
}

/// A pixel drawn inside the panel reads back as drawn, and no other pixel
/// changes.
pub proof fn lemma_put_reads_back(grid: Seq<Seq<bool>>, x: int, y: int, on: bool)
    requires
        is_grid(grid),
        in_bounds(x, y),
    ensures
        put(grid, x, y, on)[y][x] == on,
        forall|x2: int, y2: int|
            in_bounds(x2, y2) && !(x2 == x && y2 == y) ==> #[trigger] put(grid, x, y, on)[y2][x2]
                == grid[y2][x2],
{
}

/// A pixel drawn outside the panel changes nothing.
pub proof fn lemma_put_clips(grid: Seq<Seq<bool>>, x: int, y: int, on: bool)
    requires
        !in_bounds(x, y),
    ensures
        put(grid, x, y, on) == grid,
{
}

/// Of two writes to one coordinate the later one wins: the grid is as if
/// the earlier had not been made.
pub proof fn lemma_put_overrides(grid: Seq<Seq<bool>>, x: int, y: int, first: bool, second: bool)
    requires
        is_grid(grid),
    ensures
        put(put(grid, x, y, first), x, y, second) == put(grid, x, y, second),
{
    if in_bounds(x, y) {
        let once = put(grid, x, y, first);
        assert(once[y].update(x, second) =~= grid[y].update(x, second));
        assert(put(once, x, y, second) =~= put(grid, x, y, second));
    }
}

/// Every pixel of the blank grid is off.
pub proof fn lemma_blank_is_off()
    ensures
        is_grid(blank()),
        forall|x: int, y: int| in_bounds(x, y) ==> !(#[trigger] blank()[y][x]),
{
}

/// Drawing a batch keeps the shape of the grid.
pub proof fn lemma_put_all_is_grid(grid: Seq<Seq<bool>>, pixels: Seq<Pixel>)
    requires
        is_grid(grid),
    ensures
        is_grid(put_all(grid, pixels)),
    decreases pixels.len(),
{
    if pixels.len() > 0 {
        lemma_put_all_is_grid(grid, pixels.drop_last());
    }
}

/// Within a batch the last write to a coordinate wins: if pixel `i` of the
/// batch lies inside the panel and no later pixel of the batch has its
/// coordinate, the grid holds what pixel `i` says.
pub proof fn lemma_last_write_wins(grid: Seq<Seq<bool>>, pixels: Seq<Pixel>, i: int)
    requires
        is_grid(grid),
        0 <= i < pixels.len(),
        in_bounds(pixels[i].x as int, pixels[i].y as int),
        forall|j: int|
            #![trigger pixels[j]]
            i < j < pixels.len() ==> !(pixels[j].x == pixels[i].x && pixels[j].y == pixels[i].y),
    ensures
        put_all(grid, pixels)[pixels[i].y as int][pixels[i].x as int] == pixels[i].on,
    decreases pixels.len(),
{
    let before = put_all(grid, pixels.drop_last());
    let p = pixels.last();
    lemma_put_all_is_grid(grid, pixels.drop_last());
    if i < pixels.len() - 1 {
        lemma_last_write_wins(grid, pixels.drop_last(), i);
        if in_bounds(p.x as int, p.y as int) {
            lemma_put_reads_back(before, p.x as int, p.y as int, p.on);
        }
    } else {
        lemma_put_reads_back(before, p.x as int, p.y as int, p.on);
    }
}

/// A coordinate that no pixel of a batch names keeps its value.
pub proof fn lemma_untouched_pixel_stays(grid: Seq<Seq<bool>>, pixels: Seq<Pixel>, x: int, y: int)
    requires
        is_grid(grid),
        in_bounds(x, y),
        forall|j: int|
            #![trigger pixels[j]]
            0 <= j < pixels.len() ==> !(pixels[j].x == x && pixels[j].y == y),
    ensures
        put_all(grid, pixels)[y][x] == grid[y][x],
    decreases pixels.len(),
{
    if pixels.len() > 0 {
        let before = put_all(grid, pixels.drop_last());
        let p = pixels.last();
        lemma_put_all_is_grid(grid, pixels.drop_last());
        lemma_untouched_pixel_stays(grid, pixels.drop_last(), x, y);
        if in_bounds(p.x as int, p.y as int) {
            lemma_put_reads_back(before, p.x as int, p.y as int, p.on);
        }
    }
}

} // verus!
