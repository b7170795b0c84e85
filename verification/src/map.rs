use vstd::prelude::*;

verus! {

/// The contents of one grid cell.
#[derive(Debug, Clone, Copy, PartialEq, Eq, Hash, Structural)]
pub enum Tile {
    Empty,
    Obstacle,
    Energy,
    Mineral,
    Scientific,
    Station,
}

/// Modulus of the integer hash behind the terrain field.
pub const FIELD_MODULUS: u64 = 1048573;

/// Lattice-point multipliers for the obstacle noise field.
pub const NOISE_MULT_X: u64 = 131071;
pub const NOISE_MULT_Y: u64 = 299993;

/// Per-cell multipliers for the resource draw.
pub const DRAW_MULT_X: u64 = 524287;
pub const DRAW_MULT_Y: u64 = 193939;

/// Spacing of the noise lattice: cells in the same 5x5 block share
/// corner values, which makes obstacles form smooth clusters.
pub const LATTICE_STEP: u64 = 5;

/// Interpolated noise strictly above this marks a cell as an obstacle.
/// The scale is 25 * 1000 (bilinear weights times the corner range).
pub const OBSTACLE_THRESHOLD: u64 = 16500;

/// Integer scrambling of a lattice point: a seeded linear combination
/// followed by a quadratic pass, all below `FIELD_MODULUS`.
pub open spec fn mix(seed: u32, i: int, j: int, a: int, b: int) -> int {
    let t = ((i % (FIELD_MODULUS as int)) * a + (j % (FIELD_MODULUS as int)) * b + seed)
        % (FIELD_MODULUS as int);
    ((t * t) % (FIELD_MODULUS as int) + t) % (FIELD_MODULUS as int)
}

/// Value of the noise field at a lattice corner, in 0..=1000.
pub open spec fn corner_value(seed: u32, i: int, j: int) -> int {
    mix(seed, i, j, NOISE_MULT_X as int, NOISE_MULT_Y as int) % 1001
}

/// Bilinear interpolation of the four corner values around (x, y),
/// in 0..=25000.
pub open spec fn noise_value(seed: u32, x: int, y: int) -> int {
    let x0 = x / (LATTICE_STEP as int);
    let fx = x % (LATTICE_STEP as int);
    let y0 = y / (LATTICE_STEP as int);
    let fy = y % (LATTICE_STEP as int);
    let v00 = corner_value(seed, x0, y0);
    let v10 = corner_value(seed, x0 + 1, y0);
    let v01 = corner_value(seed, x0, y0 + 1);
    let v11 = corner_value(seed, x0 + 1, y0 + 1);
    let top = v00 * (5 - fx) + v10 * fx;
    let bot = v01 * (5 - fx) + v11 * fx;
    top * (5 - fy) + bot * fy
}

/// Per-cell resource draw, in 0..=99.
pub open spec fn resource_draw(seed: u32, x: int, y: int) -> int {
    mix(seed, x, y, DRAW_MULT_X as int, DRAW_MULT_Y as int) % 100
}

/// The tile a freshly generated world holds at (x, y), given the
/// station coordinates: the station cell itself, an obstacle where the
/// noise field is high, otherwise a sparse resource by the draw bands.
pub open spec fn cell_spec(seed: u32, x: int, y: int, sx: int, sy: int) -> Tile {
    if x == sx && y == sy {
        Tile::Station
    } else if noise_value(seed, x, y) > OBSTACLE_THRESHOLD {
        Tile::Obstacle
    } else {
        let d = resource_draw(seed, x, y);
        if d < 3 {
            Tile::Energy
        } else if d < 6 {
            Tile::Mineral
        } else if d < 9 {
            Tile::Scientific
        } else {
            Tile::Empty
        }
    }
}

/// The full grid a generation run produces: station in column 0 at the
/// middle row, every other cell by `cell_spec`.
pub open spec fn map_gen_spec(seed: u32, width: int, height: int) -> Seq<Seq<Tile>> {
    Seq::new(height as nat, |y: int| Seq::new(width as nat, |x: int|
        cell_spec(seed, x, y, 0, height / 2)))
}

/// Terrain determinism: two worlds generated from the same seed and
/// the same dimensions hold the same tiles, cell for cell.
pub proof fn lemma_terrain_deterministic(
    a: Seq<Seq<Tile>>,
    b: Seq<Seq<Tile>>,
    seed: u32,
    width: int,
    height: int,
)
    requires
        a == map_gen_spec(seed, width, height),
        b == map_gen_spec(seed, width, height),
    ensures
        a == b,
        forall|x: int, y: int| 0 <= x < width && 0 <= y < height ==> a[y][x] == b[y][x],
{
}

fn mix_exec(seed: u32, i: u64, j: u64, a: u64, b: u64) -> (r: u64)
    requires
        a < FIELD_MODULUS,
        b < FIELD_MODULUS,
    ensures
        r as int == mix(seed, i as int, j as int, a as int, b as int),
        r < FIELD_MODULUS,
{
    let im = i % FIELD_MODULUS;
    let jm = j % FIELD_MODULUS;
    assert(im * a <= (FIELD_MODULUS - 1) * (FIELD_MODULUS - 1)) by (nonlinear_arith)
        requires im < FIELD_MODULUS, a < FIELD_MODULUS;
    assert(jm * b <= (FIELD_MODULUS - 1) * (FIELD_MODULUS - 1)) by (nonlinear_arith)
        requires jm < FIELD_MODULUS, b < FIELD_MODULUS;
    let t = (im * a + jm * b + (seed as u64)) % FIELD_MODULUS;
    assert(t * t <= (FIELD_MODULUS - 1) * (FIELD_MODULUS - 1)) by (nonlinear_arith)
        requires t < FIELD_MODULUS;
    ((t * t) % FIELD_MODULUS + t) % FIELD_MODULUS
}

fn corner_exec(seed: u32, i: u64, j: u64) -> (r: u64)
    ensures
        r as int == corner_value(seed, i as int, j as int),
        r <= 1000,
{
    mix_exec(seed, i, j, NOISE_MULT_X, NOISE_MULT_Y) % 1001
}

fn noise_exec(seed: u32, x: u64, y: u64) -> (r: u64)
    requires
        x < u64::MAX,
        y < u64::MAX,
    ensures
        r as int == noise_value(seed, x as int, y as int),
        r <= 25000,
{
    let x0 = x / LATTICE_STEP;
    let fx = x % LATTICE_STEP;
    let y0 = y / LATTICE_STEP;
    let fy = y % LATTICE_STEP;
    let v00 = corner_exec(seed, x0, y0);
    let v10 = corner_exec(seed, x0 + 1, y0);
    let v01 = corner_exec(seed, x0, y0 + 1);
    let v11 = corner_exec(seed, x0 + 1, y0 + 1);
    assert(v00 * (5 - fx) + v10 * fx <= 5000) by (nonlinear_arith)
        requires v00 <= 1000, v10 <= 1000, fx < 5;
    assert(v01 * (5 - fx) + v11 * fx <= 5000) by (nonlinear_arith)
        requires v01 <= 1000, v11 <= 1000, fx < 5;
    let top = v00 * (5 - fx) + v10 * fx;
    let bot = v01 * (5 - fx) + v11 * fx;
    assert(top * (5 - fy) + bot * fy <= 25000) by (nonlinear_arith)
        requires top <= 5000, bot <= 5000, fy < 5;
    top * (5 - fy) + bot * fy
}

fn draw_exec(seed: u32, x: u64, y: u64) -> (r: u64)
    ensures
        r as int == resource_draw(seed, x as int, y as int),
        r <= 99,
{
    mix_exec(seed, x, y, DRAW_MULT_X, DRAW_MULT_Y) % 100
}

fn cell_exec(seed: u32, x: u64, y: u64, sx: u64, sy: u64) -> (t: Tile)
    requires
        x < u64::MAX,
        y < u64::MAX,
    ensures
        t == cell_spec(seed, x as int, y as int, sx as int, sy as int),
{
    if x == sx && y == sy {
        Tile::Station
    } else if noise_exec(seed, x, y) > OBSTACLE_THRESHOLD {
        Tile::Obstacle
    } else {
        let d = draw_exec(seed, x, y);
        if d < 3 {
            Tile::Energy
        } else if d < 6 {
            Tile::Mineral
        } else if d < 9 {
            Tile::Scientific
        } else {
            Tile::Empty
        }
    }
}

/// A rectangular world of tiles, generated once from a seed and then
/// mutated only by resource collection.
pub struct WorldMap {
    pub grid: Vec<Vec<Tile>>,
    pub width: usize,
    pub height: usize,
}

impl View for WorldMap {
    type V = Seq<Seq<Tile>>;

    open spec fn view(&self) -> Seq<Seq<Tile>> {
        Seq::new(self.grid@.len() as nat, |y: int| self.grid@[y]@)
    }
}

impl WorldMap {
    /// Dimensions are positive and every row has the stated width.
    pub open spec fn wf(self) -> bool {
        &&& self.grid@.len() == self.height
        &&& forall|y: int| 0 <= y < self.height ==> (#[trigger] self.grid@[y])@.len() == self.width
        &&& self.width >= 1
        &&& self.height >= 1
    }

    pub open spec fn in_bounds(self, x: int, y: int) -> bool {
        0 <= x < self.width && 0 <= y < self.height
    }

    /// Generate a world: deterministic in the seed and the dimensions,
    /// the whole grid is pinned to `map_gen_spec`.
    pub fn new(seed: u32, width: usize, height: usize) -> (m: WorldMap)
        requires
            1 <= width,
            1 <= height,
        ensures
            m.wf(),
            m.width == width,
            m.height == height,
            m@ == map_gen_spec(seed, width as int, height as int),
            m@[height as int / 2][0] == Tile::Station,
    {
        let sx: usize = 0;
        let sy: usize = height / 2;
        let mut grid: Vec<Vec<Tile>> = Vec::new();
        let mut y: usize = 0;
        while y < height
            invariant
                y <= height,
                grid@.len() == y,
                sx == 0,
                sy == height as int / 2,
                forall|r: int| 0 <= r < y ==> (#[trigger] grid@[r])@
                    == map_gen_spec(seed, width as int, height as int)[r],
            decreases height - y,
        {
            let mut row: Vec<Tile> = Vec::new();
            let mut x: usize = 0;
            while x < width
                invariant
                    x <= width,
                    row@.len() == x,
                    sx == 0,
                    sy == height as int / 2,
                    y < height,
                    forall|c: int| 0 <= c < x ==> #[trigger] row@[c]
                        == cell_spec(seed, c, y as int, sx as int, sy as int),
                decreases width - x,
            {
                row.push(cell_exec(seed, x as u64, y as u64, sx as u64, sy as u64));
                x += 1;
            }
            assert(row@ =~= map_gen_spec(seed, width as int, height as int)[y as int]);
            grid.push(row);
            y += 1;
        }
        let m = WorldMap { grid, width, height };
        assert(m@ =~= map_gen_spec(seed, width as int, height as int));
        m
    }
}

} // verus!
