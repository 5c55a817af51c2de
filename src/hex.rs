use vstd::prelude::*;

verus! {

/// A cube coordinate of a hex cell.
#[derive(Debug, Clone, Copy, PartialEq, Eq, Structural)]
pub struct Cube {
    pub x: isize,
    pub y: isize,
    pub z: isize,
}

/// Every coordinate lies strictly within half the range of `isize`, so that
/// the sum of two such cubes stays in range.
pub open spec fn small(c: Cube) -> bool {
    &&& -(isize::MAX / 2) < c.x < isize::MAX / 2
    &&& -(isize::MAX / 2) < c.y < isize::MAX / 2
    &&& -(isize::MAX / 2) < c.z < isize::MAX / 2
}

/// A row or column that `oddr_to_cube` takes: within an eighth of the range
/// of `isize`, so that all three cube coordinates stay in range.
pub open spec fn offset_in_range(n: int) -> bool {
    -(isize::MAX / 8) <= n <= isize::MAX / 8
}

pub open spec fn cube_sum(a: Cube, b: Cube) -> (int, int, int) {
    (a.x + b.x, a.y + b.y, a.z + b.z)
}

pub open spec fn coords(c: Cube) -> (int, int, int) {
    (c.x as int, c.y as int, c.z as int)
}

/// The cube coordinate of the cell in row `row` and column `col` of an
/// odd-row offset layout, where odd rows are shifted right by half a cell.
pub open spec fn oddr_spec(row: int, col: int) -> (int, int, int) {
    let x = col - (row - row % 2) / 2;
    let z = row;
    (x, -x - z, z)
}

impl Cube {
    pub fn new(x: isize, y: isize, z: isize) -> (r: Cube)
        ensures
            r.x == x && r.y == y && r.z == z,
    {
        Cube { x, y, z }
    }

    /// The component-wise sum of two cubes.
    pub fn plus(&self, other: &Cube) -> (r: Cube)
        requires
            small(*self),
            small(*other),
        ensures
            coords(r) == cube_sum(*self, *other),
    {
        Cube::new(self.x + other.x, self.y + other.y, self.z + other.z)
    }
}

/// A cell of a generated grid; its id is its index in the grid.
#[derive(Debug)]
pub struct Hex {
    pub id: usize,
    pub cube: Cube,
    pub offset: (usize, usize),
    pub neighbors: Vec<usize>,
}

#[derive(Debug, Clone, Copy, PartialEq, Eq, Structural)]
pub enum CubeDirection {
    TopLeft,
    TopRight,
    Left,
    Right,
    BottomLeft,
    BottomRight,
}

/// The unit vector of each direction.
pub open spec fn direction_vector(d: CubeDirection) -> (int, int, int) {
    match d {
        CubeDirection::TopLeft => (0, 1, -1),
        CubeDirection::TopRight => (1, 0, -1),
        CubeDirection::Left => (-1, 1, 0),
        CubeDirection::Right => (1, -1, 0),
        CubeDirection::BottomLeft => (0, -1, 1),
        CubeDirection::BottomRight => (-1, 0, 1),
    }
}

/// The six directions, in the order `CubeDirection::all` lists them.
pub open spec fn direction_at(k: int) -> CubeDirection {
    if k == 0 {
        CubeDirection::TopLeft
    } else if k == 1 {
        CubeDirection::TopRight
    } else if k == 2 {
        CubeDirection::Left
    } else if k == 3 {
        CubeDirection::Right
    } else if k == 4 {
        CubeDirection::BottomLeft
    } else {
        CubeDirection::BottomRight
    }
}

/// `b` is one step from `a` in one of the six directions.
pub open spec fn adjacent(a: Cube, b: Cube) -> bool {
    let (dx, dy, dz) = (b.x - a.x, b.y - a.y, b.z - a.z);
    ||| (dx, dy, dz) == (0int, 1int, -1int)
    ||| (dx, dy, dz) == (1int, 0int, -1int)
    ||| (dx, dy, dz) == (-1int, 1int, 0int)
    ||| (dx, dy, dz) == (1int, -1int, 0int)
    ||| (dx, dy, dz) == (0int, -1int, 1int)
    ||| (dx, dy, dz) == (-1int, 0int, 1int)
}

/// Adjacency of cubes goes both ways.
pub proof fn lemma_adjacent_symmetric(a: Cube, b: Cube)
    ensures
        adjacent(a, b) == adjacent(b, a),
{
}

/// `b` is one step from `a` in one of the first `n` directions.
pub open spec fn reached_within(a: Cube, b: Cube, n: int) -> bool {
    exists|k: int| 0 <= k < n && coords(b) == #[trigger] step(a, k)
}

pub open spec fn step(a: Cube, k: int) -> (int, int, int) {
    let v = direction_vector(direction_at(k));
    (a.x + v.0, a.y + v.1, a.z + v.2)
}

proof fn lemma_reached_all(a: Cube, b: Cube)
    ensures
        reached_within(a, b, 6) == adjacent(a, b),
{
    if adjacent(a, b) {
        let (dx, dy, dz) = (b.x - a.x, b.y - a.y, b.z - a.z);
        if (dx, dy, dz) == (0int, 1int, -1int) {
            assert(coords(b) == step(a, 0));
        } else if (dx, dy, dz) == (1int, 0int, -1int) {
            assert(coords(b) == step(a, 1));
        } else if (dx, dy, dz) == (-1int, 1int, 0int) {
            assert(coords(b) == step(a, 2));
        } else if (dx, dy, dz) == (1int, -1int, 0int) {
            assert(coords(b) == step(a, 3));
        } else if (dx, dy, dz) == (0int, -1int, 1int) {
            assert(coords(b) == step(a, 4));
        } else {
            assert(coords(b) == step(a, 5));
        }
    }
}

impl CubeDirection {
    pub fn value(&self) -> (r: Cube)
        ensures
            coords(r) == direction_vector(*self),
    {
        match self {
            CubeDirection::TopLeft => Cube::new(0, 1, -1),
            CubeDirection::TopRight => Cube::new(1, 0, -1),
            CubeDirection::Left => Cube::new(-1, 1, 0),
            CubeDirection::Right => Cube::new(1, -1, 0),
            CubeDirection::BottomLeft => Cube::new(0, -1, 1),
            CubeDirection::BottomRight => Cube::new(-1, 0, 1),
        }
    }

    pub fn all() -> (r: Vec<CubeDirection>)
        ensures
            r@.len() == 6,
            forall|k: int| 0 <= k < 6 ==> r@[k] == direction_at(k),
    {
        vec![
            CubeDirection::TopLeft,
            CubeDirection::TopRight,
            CubeDirection::Left,
            CubeDirection::Right,
            CubeDirection::BottomLeft,
            CubeDirection::BottomRight,
        ]
    }
}

pub fn cube_neighbor(cube: &Cube, direction: CubeDirection) -> (r: Cube)
    requires
        small(*cube),
    ensures
        coords(r) == step_towards(*cube, direction),
{
    cube.plus(&direction.value())
}

pub open spec fn step_towards(a: Cube, d: CubeDirection) -> (int, int, int) {
    let v = direction_vector(d);
    (a.x + v.0, a.y + v.1, a.z + v.2)
}

/// The six cubes one step away, in the order of `CubeDirection::all`.
pub fn cube_neighbors(cube: &Cube) -> (r: Vec<Cube>)
    requires
        small(*cube),
    ensures
        r@.len() == 6,
        forall|k: int| 0 <= k < 6 ==> coords(#[trigger] r@[k]) == step(*cube, k),
{
    let mut neighbors: Vec<Cube> = vec![];
    let directions = CubeDirection::all();
    let mut k: usize = 0;
    while k < 6
        invariant
            0 <= k <= 6,
            directions@.len() == 6,
            forall|m: int| 0 <= m < 6 ==> directions@[m] == direction_at(m),
            small(*cube),
            neighbors@.len() == k,
            forall|m: int| 0 <= m < k ==> coords(#[trigger] neighbors@[m]) == step(*cube, m),
        decreases 6 - k,
    {
        neighbors.push(cube_neighbor(cube, directions[k]));
        k = k + 1;
    }
    neighbors
}

pub fn oddr_to_cube(row: isize, col: isize) -> (r: Cube)
    requires
        offset_in_range(row as int),
        offset_in_range(col as int),
    ensures
        coords(r) == oddr_spec(row as int, col as int),
        small(r),
{
    assert(row & 1 == row % 2) by (bit_vector);
    let x = col - (row - (row & 1)) / 2;
    let z = row;
    let y = -x - z;
    Cube::new(x, y, z)
}


/// The cube coordinate of the cell in row `row` and column `col` of a grid.
pub open spec fn cell_cube(row: int, col: int) -> (int, int, int) {
    oddr_spec(row, col)
}

/// In a grid of `cols` columns, cell `i` sits at row `i / cols`, column `i % cols`.
pub open spec fn cell_of(cols: int, i: int) -> (int, int, int) {
    cell_cube(i / cols, i % cols)
}

/// Cells `i` and `j` of a `rows` by `cols` grid are neighbours.
pub open spec fn grid_adjacent(rows: int, cols: int, i: int, j: int) -> bool {
    let a = cell_of(cols, i);
    let b = cell_of(cols, j);
    &&& 0 <= i < rows * cols
    &&& 0 <= j < rows * cols
    &&& adjacent(
        Cube { x: a.0 as isize, y: a.1 as isize, z: a.2 as isize },
        Cube { x: b.0 as isize, y: b.1 as isize, z: b.2 as isize },
    )
}

/// A cell as `hexes` lays it out: id, offset and cube coordinate agree.
pub open spec fn laid_out(h: Hex, rows: int, cols: int, i: int) -> bool {
    &&& h.id == i
    &&& h.offset.0 < cols
    &&& h.offset.1 < rows
    &&& i == h.offset.1 * cols + h.offset.0
    &&& coords(h.cube) == cell_cube(h.offset.1 as int, h.offset.0 as int)
    &&& small(h.cube)
}

proof fn lemma_cell_position(cols: int, row: int, col: int)
    requires
        0 <= col < cols,
        0 <= row,
    ensures
        (row * cols + col) / cols == row,
        (row * cols + col) % cols == col,
{
    vstd::arithmetic::div_mod::lemma_fundamental_div_mod_converse(row * cols + col, cols, row, col);
}

/// The cell beside cell `i` in its row: to its right where there is one, else to its left.
pub open spec fn beside(cols: int, i: int) -> int {
    if i % cols + 1 < cols {
        i + 1
    } else {
        i - 1
    }
}

/// The cell in the same column of the next row where there is one, else of the previous row.
pub open spec fn above_or_below(rows: int, cols: int, i: int) -> int {
    if i / cols + 1 < rows {
        i + cols
    } else {
        i - cols
    }
}

/// In a grid of at least two rows and two columns, every cell has a
/// neighbour in its own row and one in the same column of another row.
pub proof fn lemma_two_neighbours(rows: int, cols: int, i: int)
    requires
        2 <= rows <= isize::MAX / 8,
        2 <= cols <= isize::MAX / 8,
        0 <= i < rows * cols,
    ensures
        grid_adjacent(rows, cols, i, beside(cols, i)),
        grid_adjacent(rows, cols, i, above_or_below(rows, cols, i)),
        beside(cols, i) != above_or_below(rows, cols, i),
{
    let row = i / cols;
    let col = i % cols;
    vstd::arithmetic::div_mod::lemma_fundamental_div_mod(i, cols);
    assert(0 <= col < cols);
    assert(0 <= row < rows) by (nonlinear_arith)
        requires
            i == cols * row + col,
            0 <= col < cols,
            0 <= i < rows * cols,
            cols >= 2,
    {
        if row >= rows {
            assert(cols * row >= cols * rows);
        }
        if row < 0 {
            assert(cols * row <= -cols);
        }
    }
    let h = beside(cols, i);
    let hc = if col + 1 < cols { col + 1 } else { col - 1 };
    assert(h == row * cols + hc) by (nonlinear_arith)
        requires
            i == cols * row + col,
            h == if col + 1 < cols { i + 1 } else { i - 1 },
            hc == if col + 1 < cols { col + 1 } else { col - 1 },
    {
    }
    lemma_cell_position(cols, row, hc);
    assert(0 <= h < rows * cols) by (nonlinear_arith)
        requires
            h == row * cols + hc,
            0 <= hc < cols,
            0 <= row < rows,
    {
        assert(row * cols <= (rows - 1) * cols);
    }
    let vr = if row + 1 < rows { row + 1 } else { row - 1 };
    let v = above_or_below(rows, cols, i);
    assert(v == vr * cols + col) by (nonlinear_arith)
        requires
            i == cols * row + col,
            row == i / cols,
            v == if row + 1 < rows { i + cols } else { i - cols },
            vr == if row + 1 < rows { row + 1 } else { row - 1 },
    {
    }
    lemma_cell_position(cols, vr, col);
    assert(0 <= v < rows * cols) by (nonlinear_arith)
        requires
            v == vr * cols + col,
            0 <= col < cols,
            0 <= vr < rows,
    {
        assert(vr * cols <= (rows - 1) * cols);
    }
    assert(h / cols != v / cols);
    let f = (row - row % 2) / 2;
    let fv = (vr - vr % 2) / 2;
    assert(0 <= f <= row && 0 <= fv <= vr);
    if vr == row + 1 {
        if row % 2 == 0 {
            assert(vr % 2 == 1);
            assert(fv == f);
        } else {
            assert(vr % 2 == 0);
            assert(fv == f + 1);
        }
    } else {
        if row % 2 == 0 {
            assert(vr % 2 == 1);
            assert(fv == f - 1);
        } else {
            assert(vr % 2 == 0);
            assert(fv == f);
        }
    }
    let a = cell_of(cols, i);
    let b = cell_of(cols, h);
    let c = cell_of(cols, v);
    assert(a == cell_cube(row, col));
    assert(b == cell_cube(row, hc));
    assert(c == cell_cube(vr, col));
    assert(a.0 == col - f && a.2 == row);
    assert(b.0 == hc - f && b.2 == row);
    assert(c.0 == col - fv && c.2 == vr);
}

/// The six directions lead to six different cubes.
proof fn lemma_steps_distinct(a: Cube, k: int, d: int)
    requires
        0 <= k < d < 6,
    ensures
        step(a, k) != step(a, d),
{
}

/// Neighbourhood in a grid goes both ways: if cell `j` is among the neighbours
/// of cell `i`, then `i` is among those of `j`.
pub proof fn lemma_grid_adjacent_symmetric(rows: int, cols: int, i: int, j: int)
    ensures
        grid_adjacent(rows, cols, i, j) == grid_adjacent(rows, cols, j, i),
{
}

/// Lays out a `rows` by `cols` grid of hex cells, row by row, and links each
/// cell to the cells one step away from it.
pub fn hexes(rows: usize, cols: usize) -> (r: Vec<Hex>)
    requires
        rows as int <= isize::MAX / 8,
        cols as int <= isize::MAX / 8,
        rows * cols <= usize::MAX,
    ensures
        r@.len() == rows * cols,
        forall|i: int| 0 <= i < r@.len() ==> laid_out(#[trigger] r@[i], rows as int, cols as int, i),
        forall|i: int| 0 <= i < r@.len() ==> coords(#[trigger] r@[i].cube) == cell_of(cols as int, i),
        forall|i: int|
            0 <= i < r@.len() ==> (#[trigger] r@[i].offset).0 == i % (cols as int) && r@[i].offset.1 == i / (cols as int),
        forall|i: int, j: usize|
            0 <= i < r@.len() ==> (#[trigger] r@[i].neighbors@.contains(j) <==> grid_adjacent(
                rows as int,
                cols as int,
                i,
                j as int,
            )),
        forall|i: int| 0 <= i < r@.len() ==> (#[trigger] r@[i].neighbors@).no_duplicates(),
        forall|i: int| 0 <= i < r@.len() ==> (#[trigger] r@[i].neighbors@).len() <= 6,
        rows >= 2 && cols >= 2 ==> forall|i: int| 0 <= i < r@.len() ==> (#[trigger] r@[i].neighbors@).len() >= 2,
{
    let mut cells: Vec<Hex> = vec![];
    let mut id: usize = 0;
    let mut row: usize = 0;
    while row < rows
        invariant
            rows as int <= isize::MAX / 8,
            cols as int <= isize::MAX / 8,
            rows * cols <= usize::MAX,
            row <= rows,
            id == row * cols,
            cells@.len() == id,
            forall|i: int| 0 <= i < cells@.len() ==> laid_out(#[trigger] cells@[i], rows as int, cols as int, i),
        decreases rows - row,
    {
        let mut col: usize = 0;
        while col < cols
            invariant
                rows as int <= isize::MAX / 8,
                cols as int <= isize::MAX / 8,
                rows * cols <= usize::MAX,
                row < rows,
                col <= cols,
                id == row * cols + col,
                cells@.len() == id,
                forall|i: int| 0 <= i < cells@.len() ==> laid_out(#[trigger] cells@[i], rows as int, cols as int, i),
            decreases cols - col,
        {
            let cube = oddr_to_cube(row as isize, col as isize);
            cells.push(Hex { id, cube, offset: (col, row), neighbors: vec![] });
            proof {
                assert(row * cols + col < rows * cols) by (nonlinear_arith)
                    requires row < rows, col < cols;
            }
            id = id + 1;
            col = col + 1;
        }
        proof {
            assert(row * cols + cols == (row + 1) * cols) by (nonlinear_arith);
        }
        row = row + 1;
    }
    assert forall|i: int| 0 <= i < cells@.len() implies coords(#[trigger] cells@[i].cube) == cell_of(cols as int, i) by {
        lemma_cell_position(cols as int, cells@[i].offset.1 as int, cells@[i].offset.0 as int);
    }
    let n = cells.len();
    let mut hexes: Vec<Hex> = vec![];
    let mut i: usize = 0;
    while i < n
        invariant
            n == cells@.len(),
            n == rows * cols,
            forall|k: int| 0 <= k < n ==> laid_out(#[trigger] cells@[k], rows as int, cols as int, k),
            forall|k: int| 0 <= k < n ==> coords(#[trigger] cells@[k].cube) == cell_of(cols as int, k),
            i <= n,
            hexes@.len() == i,
            forall|k: int| 0 <= k < i ==> laid_out(#[trigger] hexes@[k], rows as int, cols as int, k),
            forall|k: int| 0 <= k < i ==> coords(#[trigger] hexes@[k].cube) == cell_of(cols as int, k),
            forall|k: int, j: usize|
                0 <= k < i ==> (#[trigger] hexes@[k].neighbors@.contains(j) <==> grid_adjacent(
                    rows as int,
                    cols as int,
                    k,
                    j as int,
                )),
            forall|k: int| 0 <= k < i ==> (#[trigger] hexes@[k].neighbors@).no_duplicates(),
            forall|k: int| 0 <= k < i ==> (#[trigger] hexes@[k].neighbors@).len() <= 6,
        decreases n - i,
    {
        let cube = cells[i].cube;
        let candidates = cube_neighbors(&cube);
        let mut neighbors: Vec<usize> = vec![];
        let mut d: usize = 0;
        while d < 6
            invariant
                n == cells@.len(),
                forall|k: int| 0 <= k < n ==> laid_out(#[trigger] cells@[k], rows as int, cols as int, k),
                i < n,
                cube == cells@[i as int].cube,
                candidates@.len() == 6,
                forall|k: int| 0 <= k < 6 ==> coords(#[trigger] candidates@[k]) == step(cube, k),
                d <= 6,
                neighbors@.len() <= d,
                neighbors@.no_duplicates(),
                forall|m: usize|
                    #![trigger neighbors@.contains(m)]
                    neighbors@.contains(m) <==> m < n && reached_within(cube, cells@[m as int].cube, d as int),
            decreases 6 - d,
        {
            let mut j: usize = 0;
            let ghost mut seen: int = -1;
            while j < n
                invariant
                    n == cells@.len(),
                    forall|k: int| 0 <= k < n ==> laid_out(#[trigger] cells@[k], rows as int, cols as int, k),
                    i < n,
                    d < 6,
                    seen < j,
                    seen >= 0 ==> coords(cells@[seen].cube) == step(cube, d as int),
                    neighbors@.len() <= d + if seen >= 0 { 1int } else { 0int },
                    candidates@.len() == 6,
                    forall|k: int| 0 <= k < 6 ==> coords(#[trigger] candidates@[k]) == step(cube, k),
                    j <= n,
                    neighbors@.no_duplicates(),
                    forall|m: usize|
                        #![trigger neighbors@.contains(m)]
                        neighbors@.contains(m) <==> m < n && (reached_within(cube, cells@[m as int].cube, d as int)
                            || (m < j && coords(cells@[m as int].cube) == step(cube, d as int))),
                decreases n - j,
            {
                let ghost before = neighbors@;
                if cells[j].cube == candidates[d] {
                    proof {
                        if seen >= 0 {
                            let a = cells@[seen];
                            let b = cells@[j as int];
                            assert(cell_cube(a.offset.1 as int, a.offset.0 as int) == cell_cube(b.offset.1 as int, b.offset.0 as int));
                            assert(a.offset.1 == b.offset.1);
                            assert(a.offset.0 == b.offset.0);
                        }
                        seen = j as int;
                        if before.contains(j) {
                            let k = choose|k: int| 0 <= k < d && coords(cells@[j as int].cube) == #[trigger] step(cube, k);
                            lemma_steps_distinct(cube, k, d as int);
                        }
                    }
                    neighbors.push(j);
                    proof {
                        assert forall|m: usize| #[trigger] neighbors@.contains(m) <==> (before.contains(m) || m == j) by {
                            if neighbors@.contains(m) {
                                let q = neighbors@.index_of(m);
                                if q < before.len() {
                                    assert(before[q] == m);
                                }
                            }
                            if before.contains(m) {
                                let q = before.index_of(m);
                                assert(neighbors@[q] == m);
                            }
                            if m == j {
                                assert(neighbors@[before.len() as int] == m);
                            }
                        }
                    }
                }
                j = j + 1;
            }
            proof {
                assert forall|m: int| 0 <= m < n implies (reached_within(cube, cells@[m].cube, d + 1) <==> (
                reached_within(cube, cells@[m].cube, d as int) || coords(cells@[m].cube) == step(cube, d as int))) by {
                    if reached_within(cube, cells@[m].cube, d + 1) {
                        let k = choose|k: int| 0 <= k < d + 1 && coords(cells@[m].cube) == #[trigger] step(cube, k);
                        if k < d {
                            assert(reached_within(cube, cells@[m].cube, d as int));
                        }
                    }
                    if coords(cells@[m].cube) == step(cube, d as int) {
                        assert(reached_within(cube, cells@[m].cube, d + 1));
                    }
                }
            }
            d = d + 1;
        }
        proof {
            assert forall|m: usize| #![trigger neighbors@.contains(m)]
                neighbors@.contains(m) <==> grid_adjacent(rows as int, cols as int, i as int, m as int) by {
                if m < n {
                    lemma_reached_all(cube, cells@[m as int].cube);
                }
            }
        }
        hexes.push(Hex { id: i, cube, offset: cells[i].offset, neighbors });
        i = i + 1;
    }
    assert forall|i: int| 0 <= i < hexes@.len() implies (#[trigger] hexes@[i].offset).0 == i % (cols as int)
        && hexes@[i].offset.1 == i / (cols as int) by {
        lemma_cell_position(cols as int, hexes@[i].offset.1 as int, hexes@[i].offset.0 as int);
    }
    assert forall|i: int| rows >= 2 && cols >= 2 && 0 <= i < hexes@.len() implies (#[trigger] hexes@[i].neighbors@).len() >= 2 by {
        lemma_two_neighbours(rows as int, cols as int, i);
        let a = beside(cols as int, i);
        let b = above_or_below(rows as int, cols as int, i);
        let nb = hexes@[i].neighbors@;
        assert(nb.contains(a as usize));
        assert(nb.contains(b as usize));
        let p = nb.index_of(a as usize);
        let q = nb.index_of(b as usize);
        assert(p != q);
    }
    hexes
}

} // verus!
