use vstd::prelude::*;
use crate::cell::Cell;

verus! {

/// Terrain for a noise sample given in thousandths (the noise lies in -1 .. 1).
pub open spec fn terrain_of(sample: i32) -> Cell {
    if sample < -300 {
        Cell::Obstacle
    } else if sample < 0 {
        Cell::Energy
    } else if sample < 200 {
        Cell::Mineral
    } else {
        Cell::Empty
    }
}

/// The fixed places where a science sample is laid, when the cell is empty.
pub open spec fn is_science_site(x: int, y: int) -> bool {
    ||| (x == 6 && y == 5)
    ||| (x == 3 && y == 13)
    ||| (x == 20 && y == 6)
    ||| (x == 26 && y == 1)
    ||| (x == 30 && y == 13)
}

pub open spec fn on_border(w: int, h: int, x: int, y: int) -> bool {
    x == 0 || y == 0 || x == w - 1 || y == h - 1
}

/// The cell that `generate_noise` lays at `(x, y)`.
pub open spec fn generated_cell(w: int, h: int, samples: Seq<Vec<i32>>, x: int, y: int) -> Cell {
    let c = if on_border(w, h, x, y) {
        Cell::Wall
    } else {
        terrain_of(samples[y]@[x])
    };
    if is_science_site(x, y) && c == Cell::Empty {
        Cell::Science
    } else {
        c
    }
}

fn classify(sample: i32) -> (c: Cell)
    ensures
        c == terrain_of(sample),
{
    if sample < -300 {
        Cell::Obstacle
    } else if sample < 0 {
        Cell::Energy
    } else if sample < 200 {
        Cell::Mineral
    } else {
        Cell::Empty
    }
}

fn science_site(x: usize, y: usize) -> (r: bool)
    ensures
        r == is_science_site(x as int, y as int),
{
    (x == 6 && y == 5) || (x == 3 && y == 13) || (x == 20 && y == 6) || (x == 26 && y == 1) || (x == 30
        && y == 13)
}

/// Lays out a `width` by `height` grid: a wall around the edge, terrain from
/// each inner cell's noise sample (`samples[y][x]`, in thousandths), and a
/// science sample on each fixed site that came out empty.
pub fn generate_noise(width: usize, height: usize, samples: &Vec<Vec<i32>>) -> (grid: Vec<Vec<Cell>>)
    requires
        samples@.len() == height,
        forall|y: int| 0 <= y < height ==> #[trigger] samples@[y]@.len() == width,
    ensures
        grid@.len() == height,
        forall|y: int| 0 <= y < height ==> #[trigger] grid@[y]@.len() == width,
        forall|x: int, y: int|
            0 <= x < width && 0 <= y < height ==> #[trigger] grid@[y]@[x] == generated_cell(
                width as int,
                height as int,
                samples@,
                x,
                y,
            ),
{
    let mut grid: Vec<Vec<Cell>> = Vec::new();
    let mut y: usize = 0;
    while y < height
        invariant
            y <= height,
            samples@.len() == height,
            forall|j: int| 0 <= j < height ==> #[trigger] samples@[j]@.len() == width,
            grid@.len() == y,
            forall|j: int| 0 <= j < y ==> #[trigger] grid@[j]@.len() == width,
            forall|a: int, b: int|
                0 <= a < width && 0 <= b < y ==> #[trigger] grid@[b]@[a] == generated_cell(
                    width as int,
                    height as int,
                    samples@,
                    a,
                    b,
                ),
        decreases height - y,
    {
        let mut row: Vec<Cell> = Vec::new();
        let mut x: usize = 0;
        while x < width
            invariant
                x <= width,
                y < height,
                samples@.len() == height,
                forall|j: int| 0 <= j < height ==> #[trigger] samples@[j]@.len() == width,
                row@.len() == x,
                forall|a: int|
                    0 <= a < x ==> #[trigger] row@[a] == generated_cell(
                        width as int,
                        height as int,
                        samples@,
                        a,
                        y as int,
                    ),
            decreases width - x,
        {
            let c = if y == 0 || x == 0 || y == height - 1 || x == width - 1 {
                Cell::Wall
            } else {
                classify(samples[y][x])
            };
            let c = if science_site(x, y) && c == Cell::Empty {
                Cell::Science
            } else {
                c
            };
            row.push(c);
            x = x + 1;
        }
        grid.push(row);
        y = y + 1;
    }
    grid
}

} // verus!
