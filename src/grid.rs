//! Assembly of independently computed pixels into a row-major grid.

use vstd::prelude::*;

verus! {

/// The position of pixel `(x, y)` in a row-major grid `width` pixels wide.
pub open spec fn cell_index(width: int, x: int, y: int) -> int {
    y * width + x
}

/// The value that pixel `(x, y)` ends up with after writing `pixels` in order
/// over a grid filled with `fill`: the last entry for that pixel, or `fill`.
pub open spec fn cell_value<C>(pixels: Seq<(u32, u32, C)>, x: u32, y: u32, fill: C) -> C
    decreases pixels.len(),
{
    if pixels.len() == 0 {
        fill
    } else {
        let p = pixels.last();
        if p.0 == x && p.1 == y {
            p.2
        } else {
            cell_value(pixels.drop_last(), x, y, fill)
        }
    }
}

/// Every entry names a pixel inside a `width` by `height` image.
pub open spec fn in_frame<C>(pixels: Seq<(u32, u32, C)>, width: u32, height: u32) -> bool {
    forall|i: int| 0 <= i < pixels.len() ==> pixels[i].0 < width && pixels[i].1 < height
}

/// No two entries name the same pixel.
pub open spec fn distinct_pixels<C>(pixels: Seq<(u32, u32, C)>) -> bool {
    forall|i: int, j: int|
        0 <= i < pixels.len() && 0 <= j < pixels.len() && i != j ==> !(pixels[i].0 == pixels[j].0
            && pixels[i].1 == pixels[j].1)
}

proof fn lemma_cell_index_injective(width: int, x1: int, y1: int, x2: int, y2: int)
    requires
        0 <= x1 < width,
        0 <= x2 < width,
        0 <= y1,
        0 <= y2,
        cell_index(width, x1, y1) == cell_index(width, x2, y2),
    ensures
        x1 == x2 && y1 == y2,
{
    assert(y1 == y2) by (nonlinear_arith)
        requires
            0 <= x1 < width,
            0 <= x2 < width,
            0 <= y1,
            0 <= y2,
            y1 * width + x1 == y2 * width + x2,
    ;
}

proof fn lemma_cell_index_bound(width: int, height: int, x: int, y: int)
    requires
        0 <= x < width,
        0 <= y < height,
    ensures
        0 <= cell_index(width, x, y) < width * height,
{
    assert(0 <= y * width + x < width * height) by (nonlinear_arith)
        requires
            0 <= x < width,
            0 <= y < height,
    ;
}

/// Scatters per-pixel results, computed in any order, into a row-major grid
/// of `width * height` cells. Pixel `(x, y)` lands at `y * width + x`; a
/// pixel that no entry names keeps `fill`, and where entries repeat a pixel
/// the last one wins.
pub fn assemble_grid<C: Copy>(width: u32, height: u32, pixels: &Vec<(u32, u32, C)>, fill: C) -> (r:
    Vec<C>)
    requires
        width as int * height as int <= usize::MAX,
        in_frame(pixels@, width, height),
    ensures
        r@.len() == width as int * height as int,
        forall|x: u32, y: u32|
            x < width && y < height ==> #[trigger] r@[cell_index(width as int, x as int, y as int)]
                == cell_value(pixels@, x, y, fill),
{
    let cells: usize = width as usize * height as usize;
    let mut grid: Vec<C> = Vec::new();
    let mut n: usize = 0;
    while n < cells
        invariant
            n <= cells,
            cells == width as int * height as int,
            grid@.len() == n,
            forall|m: int| 0 <= m < n ==> grid@[m] == fill,
        decreases cells - n,
    {
        grid.push(fill);
        n = n + 1;
    }
    proof {
        assert forall|x: u32, y: u32| x < width && y < height implies #[trigger] grid@[cell_index(
            width as int,
            x as int,
            y as int,
        )] == cell_value(pixels@.take(0), x, y, fill) by {
            lemma_cell_index_bound(width as int, height as int, x as int, y as int);
        }
    }
    let mut k: usize = 0;
    while k < pixels.len()
        invariant
            k <= pixels.len(),
            cells == width as int * height as int,
            cells <= usize::MAX,
            in_frame(pixels@, width, height),
            grid@.len() == cells,
            forall|x: u32, y: u32|
                x < width && y < height ==> #[trigger] grid@[cell_index(
                    width as int,
                    x as int,
                    y as int,
                )] == cell_value(pixels@.take(k as int), x, y, fill),
        decreases pixels.len() - k,
    {
        let (px, py, c) = pixels[k];
        proof {
            lemma_cell_index_bound(width as int, height as int, px as int, py as int);
        }
        let at: usize = py as usize * width as usize + px as usize;
        let ghost before = grid@;
        grid.set(at, c);
        proof {
            let done = pixels@.take(k + 1);
            assert(done.drop_last() =~= pixels@.take(k as int));
            assert forall|x: u32, y: u32| x < width && y < height implies #[trigger] grid@[cell_index(
                width as int,
                x as int,
                y as int,
            )] == cell_value(done, x, y, fill) by {
                lemma_cell_index_bound(width as int, height as int, x as int, y as int);
                if !(x == px && y == py) {
                    if cell_index(width as int, x as int, y as int) == at as int {
                        lemma_cell_index_injective(
                            width as int,
                            x as int,
                            y as int,
                            px as int,
                            py as int,
                        );
                    }
                }
            }
        }
        k = k + 1;
    }
    assert(pixels@.take(pixels.len() as int) =~= pixels@);
    grid
}

/// With no repeated pixel, an entry's value is what its pixel ends up with.
pub proof fn lemma_cell_value_of_entry<C>(pixels: Seq<(u32, u32, C)>, i: int, fill: C)
    requires
        distinct_pixels(pixels),
        0 <= i < pixels.len(),
    ensures
        cell_value(pixels, pixels[i].0, pixels[i].1, fill) == pixels[i].2,
    decreases pixels.len(),
{
    if i != pixels.len() - 1 {
        let rest = pixels.drop_last();
        assert(rest[i] == pixels[i]);
        lemma_cell_value_of_entry(rest, i, fill);
    }
}

/// A pixel that no entry names keeps the fill value.
pub proof fn lemma_cell_value_unnamed<C>(pixels: Seq<(u32, u32, C)>, x: u32, y: u32, fill: C)
    requires
        forall|i: int| 0 <= i < pixels.len() ==> !(pixels[i].0 == x && pixels[i].1 == y),
    ensures
        cell_value(pixels, x, y, fill) == fill,
    decreases pixels.len(),
{
    if pixels.len() > 0 {
        let rest = pixels.drop_last();
        assert(pixels.last() == pixels[pixels.len() - 1]);
        assert forall|i: int| 0 <= i < rest.len() implies !(rest[i].0 == x && rest[i].1 == y) by {
            assert(rest[i] == pixels[i]);
        }
        lemma_cell_value_unnamed(rest, x, y, fill);
    }
}

/// The grid does not depend on the order in which pixels were completed: two
/// lists that hold the same entries, each naming every pixel at most once,
/// give every pixel the same value.
pub proof fn lemma_grid_order_independent<C>(
    a: Seq<(u32, u32, C)>,
    b: Seq<(u32, u32, C)>,
    x: u32,
    y: u32,
    fill: C,
)
    requires
        distinct_pixels(a),
        distinct_pixels(b),
        a.to_set() == b.to_set(),
    ensures
        cell_value(a, x, y, fill) == cell_value(b, x, y, fill),
{
    if exists|i: int| 0 <= i < a.len() && a[i].0 == x && a[i].1 == y {
        let i = choose|i: int| 0 <= i < a.len() && a[i].0 == x && a[i].1 == y;
        lemma_cell_value_of_entry(a, i, fill);
        assert(a.to_set().contains(a[i]));
        assert(b.to_set().contains(a[i]));
        let j = choose|j: int| 0 <= j < b.len() && b[j] == a[i];
        lemma_cell_value_of_entry(b, j, fill);
    } else {
        lemma_cell_value_unnamed(a, x, y, fill);
        assert forall|j: int| 0 <= j < b.len() implies !(b[j].0 == x && b[j].1 == y) by {
            assert(b.to_set().contains(b[j]));
            assert(a.to_set().contains(b[j]));
            let i = choose|i: int| 0 <= i < a.len() && a[i] == b[j];
        }
        lemma_cell_value_unnamed(b, x, y, fill);
    }
}

} // verus!
