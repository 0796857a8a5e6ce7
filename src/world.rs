use vstd::arithmetic::div_mod::{
    lemma_fundamental_div_mod, lemma_fundamental_div_mod_converse, lemma_mod_bound,
};
use vstd::prelude::*;

verus! {

/// The color of a solid cell: red, green and blue channels.
#[derive(Debug, Clone, Copy, PartialEq, Eq, Structural)]
pub struct SolidBlock(pub u8, pub u8, pub u8);

/// One cell of the grid.
#[derive(Debug, Clone, Copy, PartialEq, Eq, Structural)]
pub enum Block {
    Empty,
    Solid(SolidBlock),
}

impl Default for Block {
    fn default() -> (r: Self)
        ensures
            r == Block::Empty,
    {
        Block::Empty
    }
}

/// Red channel of a packed palette entry.
pub open spec fn red_of(c: u32) -> u8 {
    (c & 0xff) as u8
}

/// Green channel of a packed palette entry.
pub open spec fn green_of(c: u32) -> u8 {
    ((c >> 8u32) & 0xff) as u8
}

/// Blue channel of a packed palette entry.
pub open spec fn blue_of(c: u32) -> u8 {
    ((c >> 16u32) & 0xff) as u8
}

/// The solid block whose color is the packed palette entry `c`.
pub open spec fn block_of_color(c: u32) -> Block {
    Block::Solid(SolidBlock(red_of(c), green_of(c), blue_of(c)))
}

impl Block {
    pub fn solid(r: u8, g: u8, b: u8) -> (res: Self)
        ensures
            res == Block::Solid(SolidBlock(r, g, b)),
    {
        Block::Solid(SolidBlock(r, g, b))
    }

    /// Unpacks a palette entry: red in the low byte, then green, then blue.
    pub fn from_color(color: u32) -> (res: Self)
        ensures
            res == block_of_color(color),
    {
        let b = (color >> 16u32) & 0xff;
        let g = (color >> 8u32) & 0xff;
        let r = color & 0xff;
        assert(r <= 0xff && g <= 0xff && b <= 0xff) by (bit_vector)
            requires
                r == color & 0xff,
                g == (color >> 8u32) & 0xff,
                b == (color >> 16u32) & 0xff,
        ;
        Self::solid(r as u8, g as u8, b as u8)
    }
}

/// A cell coordinate `(x, y, z)`.
#[derive(Debug, Clone, Copy, PartialEq, Eq, Structural)]
pub struct WorldPosition(pub u32, pub u32, pub u32);

/// The extents of a grid along x, y and z.
#[derive(Debug, Clone, Copy, PartialEq, Eq, Structural)]
pub struct WorldDimension(pub u32, pub u32, pub u32);

impl WorldDimension {
    /// Number of cells.
    pub open spec fn volume(&self) -> nat {
        (self.0 as nat) * (self.1 as nat) * (self.2 as nat)
    }

    pub open spec fn contains(&self, p: WorldPosition) -> bool {
        p.0 < self.0 && p.1 < self.1 && p.2 < self.2
    }

    /// Linear index of a position: x varies fastest, then y, then z.
    pub open spec fn spec_idx(&self, p: WorldPosition) -> int {
        p.0 + self.0 * (p.1 + self.1 * p.2)
    }

    /// Position of a linear index; the inverse of `spec_idx`.
    pub open spec fn spec_pos(&self, i: int) -> WorldPosition {
        WorldPosition(
            (i % (self.0 as int)) as u32,
            ((i / (self.0 as int)) % (self.1 as int)) as u32,
            ((i / (self.0 as int)) / (self.1 as int)) as u32,
        )
    }

    /// Largest number of visible faces a grid of these extents can have.
    pub open spec fn spec_max_faces(&self) -> int {
        let (x, y, z) = (self.0 as int, self.1 as int, self.2 as int);
        x * y * z * 3 + x * y + x * z + y * z
    }

    pub proof fn lemma_idx_bounds(&self, p: WorldPosition)
        requires
            self.contains(p),
        ensures
            0 <= self.spec_idx(p) < self.volume(),
    {
        let (x, y, z) = (self.0 as int, self.1 as int, self.2 as int);
        let (a, b, c) = (p.0 as int, p.1 as int, p.2 as int);
        assert(0 <= b + y * c <= y * z - 1) by (nonlinear_arith)
            requires
                0 <= b < y,
                0 <= c < z,
        ;
        let m = b + y * c;
        assert(0 <= a + x * m <= x * (y * z) - 1) by (nonlinear_arith)
            requires
                0 <= a < x,
                0 <= m <= y * z - 1,
        ;
        assert(x * (y * z) == x * y * z) by (nonlinear_arith);
    }

    pub proof fn lemma_pos_in_range(&self, i: int)
        requires
            0 <= i < self.volume(),
        ensures
            self.contains(self.spec_pos(i)),
            self.spec_idx(self.spec_pos(i)) == i,
    {
        let (x, y, z) = (self.0 as int, self.1 as int, self.2 as int);
        assert(x > 0 && y > 0 && z > 0) by (nonlinear_arith)
            requires
                0 <= i < x * y * z,
                x >= 0,
                y >= 0,
                z >= 0,
        ;
        let q = i / x;
        let r = i % x;
        lemma_fundamental_div_mod(i, x);
        lemma_mod_bound(i, x);
        let q2 = q / y;
        let r2 = q % y;
        lemma_fundamental_div_mod(q, y);
        lemma_mod_bound(q, y);
        assert(0 <= q < y * z) by (nonlinear_arith)
            requires
                i == x * q + r,
                0 <= r < x,
                0 <= i < x * y * z,
        ;
        assert(0 <= q2 < z) by (nonlinear_arith)
            requires
                q == y * q2 + r2,
                0 <= r2 < y,
                0 <= q < y * z,
        ;
        assert(self.spec_idx(self.spec_pos(i)) == r + x * (r2 + y * q2));
    }

    pub proof fn lemma_idx_pos(&self, p: WorldPosition)
        requires
            self.contains(p),
        ensures
            self.spec_pos(self.spec_idx(p)) == p,
    {
        let (x, y) = (self.0 as int, self.1 as int);
        let m = p.1 + y * p.2;
        let i = self.spec_idx(p);
        assert(i == m * x + p.0) by (nonlinear_arith)
            requires
                i == p.0 + x * m,
        ;
        lemma_fundamental_div_mod_converse(i, x, m, p.0 as int);
        assert(m == (p.2 as int) * y + p.1) by (nonlinear_arith)
            requires
                m == p.1 + y * p.2,
        ;
        lemma_fundamental_div_mod_converse(m, y, p.2 as int, p.1 as int);
    }

    /// Linear index of an in-range position.
    pub fn idx(&self, index: WorldPosition) -> (r: usize)
        requires
            self.contains(index),
            self.volume() <= usize::MAX,
        ensures
            r == self.spec_idx(index),
    {
        proof {
            self.lemma_idx_bounds(index);
            let (x, y, z) = (self.0 as int, self.1 as int, self.2 as int);
            let (b, c) = (index.1 as int, index.2 as int);
            assert(y * c <= b + y * c) by (nonlinear_arith)
                requires
                    b >= 0,
            ;
            assert(b + y * c <= x * (b + y * c)) by (nonlinear_arith)
                requires
                    x >= 1,
                    b + y * c >= 0,
            ;
        }
        let (x, y) = (self.0 as usize, self.1 as usize);
        let m = (index.1 as usize) + y * (index.2 as usize);
        (index.0 as usize) + x * m
    }

    /// Position of an in-range linear index.
    pub fn pos(&self, index: usize) -> (r: WorldPosition)
        requires
            index < self.volume(),
        ensures
            r == self.spec_pos(index as int),
            self.contains(r),
    {
        proof {
            self.lemma_pos_in_range(index as int);
        }
        let (width, height) = (self.0 as usize, self.1 as usize);
        WorldPosition(
            (index % width) as u32,
            (index / width % height) as u32,
            (index / width / height) as u32,
        )
    }

    /// Capacity that suffices for the faces of any grid of these extents.
    pub fn max_faces(&self) -> (r: usize)
        requires
            self.spec_max_faces() <= usize::MAX,
        ensures
            r == self.spec_max_faces(),
    {
        let (x, y, z) = (self.0 as usize, self.1 as usize, self.2 as usize);
        proof {
            let (a, b, c) = (x as int, y as int, z as int);
            assert(0 <= a * b && 0 <= a * c && 0 <= b * c && 0 <= a * b * c) by (nonlinear_arith)
                requires
                    a >= 0,
                    b >= 0,
                    c >= 0,
            ;
            assert(a * b <= a * b * c * 3 + a * b + a * c + b * c) by (nonlinear_arith)
                requires
                    0 <= a * b * c,
                    0 <= a * c,
                    0 <= b * c,
            ;
            assert(a * b * c <= a * b * c * 3 + a * b + a * c + b * c) by (nonlinear_arith)
                requires
                    0 <= a * b * c,
                    0 <= a * b,
                    0 <= a * c,
                    0 <= b * c,
            ;
        }
        let xy = x * y;
        let count = xy * z;
        count * 3 + xy + x * z + y * z
    }
}

/// Converting between positions and linear indices is a bijection on a
/// grid: each in-range index comes back from its position, and each
/// in-range position comes back from its index.
pub proof fn lemma_index_bijection(dims: WorldDimension)
    ensures
        forall|i: int| 0 <= i < dims.volume() ==> #[trigger] dims.spec_idx(dims.spec_pos(i)) == i,
        forall|p: WorldPosition| dims.contains(p) ==> #[trigger] dims.spec_pos(dims.spec_idx(p)) == p,
{
    assert forall|i: int| 0 <= i < dims.volume() implies #[trigger] dims.spec_idx(dims.spec_pos(i)) == i by {
        dims.lemma_pos_in_range(i);
    }
    assert forall|p: WorldPosition| dims.contains(p) implies #[trigger] dims.spec_pos(dims.spec_idx(p)) == p by {
        dims.lemma_idx_pos(p);
    }
}

/// One of the six axis directions a cube face can point to.
#[derive(Debug, Clone, Copy, PartialEq, Eq, Structural)]
pub enum Direction {
    North,
    South,
    East,
    West,
    Up,
    Down,
}

/// The directions in the order faces of one cell are emitted.
pub open spec fn all_directions() -> Seq<Direction> {
    seq![
        Direction::North,
        Direction::South,
        Direction::East,
        Direction::West,
        Direction::Up,
        Direction::Down,
    ]
}

impl Direction {
    /// Unit step of this direction along x, y and z.
    pub open spec fn offset(self) -> (int, int, int) {
        match self {
            Direction::North => (0, 0, -1),
            Direction::South => (0, 0, 1),
            Direction::East => (1, 0, 0),
            Direction::West => (-1, 0, 0),
            Direction::Up => (0, 1, 0),
            Direction::Down => (0, -1, 0),
        }
    }

    /// Small integer identifying the direction, in enumeration order.
    pub open spec fn spec_id(self) -> u32 {
        match self {
            Direction::North => 0,
            Direction::South => 1,
            Direction::East => 2,
            Direction::West => 3,
            Direction::Up => 4,
            Direction::Down => 5,
        }
    }

    /// The neighbor of `p` one step in this direction, if it lies in the grid.
    pub open spec fn spec_apply(self, dims: WorldDimension, p: WorldPosition) -> Option<WorldPosition> {
        let (dx, dy, dz) = self.offset();
        let (x, y, z) = (p.0 + dx, p.1 + dy, p.2 + dz);
        if 0 <= x < dims.0 && 0 <= y < dims.1 && 0 <= z < dims.2 {
            Some(WorldPosition(x as u32, y as u32, z as u32))
        } else {
            None
        }
    }

    #[verifier::when_used_as_spec(spec_id)]
    pub fn id(self) -> (r: u32)
        ensures
            r == self.spec_id(),
    {
        match self {
            Direction::North => 0,
            Direction::South => 1,
            Direction::East => 2,
            Direction::West => 3,
            Direction::Up => 4,
            Direction::Down => 5,
        }
    }

    /// The direction with the given identifier.
    pub fn from_id(val: u32) -> (r: Direction)
        requires
            val < 6,
        ensures
            r.spec_id() == val,
            r == all_directions()[val as int],
    {
        match val {
            0 => Direction::North,
            1 => Direction::South,
            2 => Direction::East,
            3 => Direction::West,
            4 => Direction::Up,
            _ => Direction::Down,
        }
    }

    /// All six directions, in enumeration order.
    pub fn iter() -> (r: Vec<Direction>)
        ensures
            r@ == all_directions(),
    {
        let r = vec![
            Direction::North,
            Direction::South,
            Direction::East,
            Direction::West,
            Direction::Up,
            Direction::Down,
        ];
        assert(r@ =~= all_directions());
        r
    }

    /// The neighbor of an in-range position one step in this direction, or
    /// `None` where the step would leave the grid.
    pub fn apply(self, dims: WorldDimension, pos: WorldPosition) -> (r: Option<WorldPosition>)
        requires
            dims.contains(pos),
        ensures
            r == self.spec_apply(dims, pos),
    {
        let WorldDimension(mx, my, mz) = dims;
        let WorldPosition(x, y, z) = pos;
        match self {
            Direction::North => {
                if z == 0 {
                    None
                } else {
                    Some(WorldPosition(x, y, z - 1))
                }
            },
            Direction::South => {
                if z == mz - 1 {
                    None
                } else {
                    Some(WorldPosition(x, y, z + 1))
                }
            },
            Direction::East => {
                if x == mx - 1 {
                    None
                } else {
                    Some(WorldPosition(x + 1, y, z))
                }
            },
            Direction::West => {
                if x == 0 {
                    None
                } else {
                    Some(WorldPosition(x - 1, y, z))
                }
            },
            Direction::Up => {
                if y == my - 1 {
                    None
                } else {
                    Some(WorldPosition(x, y + 1, z))
                }
            },
            Direction::Down => {
                if y == 0 {
                    None
                } else {
                    Some(WorldPosition(x, y - 1, z))
                }
            },
        }
    }
}

/// A step off any face of the grid has no neighbor: west of the first
/// column, east of the last, and likewise on the other two axes.
pub proof fn lemma_apply_at_boundary(dims: WorldDimension, p: WorldPosition)
    requires
        dims.contains(p),
    ensures
        p.0 == 0 ==> Direction::West.spec_apply(dims, p) is None,
        p.0 == dims.0 - 1 ==> Direction::East.spec_apply(dims, p) is None,
        p.1 == 0 ==> Direction::Down.spec_apply(dims, p) is None,
        p.1 == dims.1 - 1 ==> Direction::Up.spec_apply(dims, p) is None,
        p.2 == 0 ==> Direction::North.spec_apply(dims, p) is None,
        p.2 == dims.2 - 1 ==> Direction::South.spec_apply(dims, p) is None,
{
}

/// The solid cells of `cells[0..n]`, in increasing index order, each with
/// its position and color.
pub open spec fn solids_upto(dims: WorldDimension, cells: Seq<Block>, n: nat) -> Seq<(WorldPosition, SolidBlock)>
    decreases n,
{
    if n == 0 {
        seq![]
    } else {
        let prev = solids_upto(dims, cells, (n - 1) as nat);
        match cells[n - 1] {
            Block::Empty => prev,
            Block::Solid(b) => prev.push((dims.spec_pos(n - 1), b)),
        }
    }
}

/// A dense grid of blocks with fixed extents.
#[derive(Debug)]
pub struct World {
    data: Vec<Block>,
    dims: WorldDimension,
}

impl View for World {
    type V = Seq<Block>;

    /// The cells, by linear index.
    closed spec fn view(&self) -> Seq<Block> {
        self.data@
    }
}

impl World {
    pub closed spec fn spec_dims(&self) -> WorldDimension {
        self.dims
    }

    /// One cell per position of the extents.
    pub open spec fn wf(&self) -> bool {
        &&& self@.len() == self.spec_dims().volume()
        &&& self.spec_dims().volume() <= usize::MAX
    }

    /// The cell at an in-range position.
    pub open spec fn cell(&self, p: WorldPosition) -> Block {
        self@[self.spec_dims().spec_idx(p)]
    }

    /// Whether `p` lies in the grid and holds a solid block.
    pub open spec fn spec_test(&self, p: WorldPosition) -> bool {
        self.cell(p) is Solid
    }

    /// The solid cells in increasing index order.
    pub open spec fn solids(&self) -> Seq<(WorldPosition, SolidBlock)> {
        solids_upto(self.spec_dims(), self@, self@.len())
    }

    #[verifier::when_used_as_spec(spec_dims)]
    pub fn dims(&self) -> (r: WorldDimension)
        ensures
            r == self.spec_dims(),
    {
        self.dims
    }

    /// An all-empty grid of the given extents.
    pub fn new(dims: WorldDimension) -> (r: Self)
        requires
            dims.volume() <= usize::MAX,
        ensures
            r.wf(),
            r.spec_dims() == dims,
            r@ == Seq::new(dims.volume(), |i: int| Block::Empty),
    {
        let size: usize = if dims.2 == 0 {
            0
        } else {
            proof {
                let (a, b, c) = (dims.0 as int, dims.1 as int, dims.2 as int);
                assert(a * b <= a * b * c) by (nonlinear_arith)
                    requires
                        a >= 0,
                        b >= 0,
                        c >= 1,
                ;
            }
            (dims.0 as usize) * (dims.1 as usize) * (dims.2 as usize)
        };
        proof {
            if dims.2 == 0 {
                assert(dims.volume() == 0) by (nonlinear_arith)
                    requires
                        dims.2 == 0,
                ;
            }
        }
        let mut data: Vec<Block> = Vec::with_capacity(size);
        let mut i: usize = 0;
        while i < size
            invariant
                size == dims.volume(),
                i <= size,
                data@ == Seq::new(i as nat, |k: int| Block::Empty),
            decreases size - i,
        {
            data.push(Block::default());
            i = i + 1;
        }
        proof {
            assert(data@ =~= Seq::new(dims.volume(), |k: int| Block::Empty));
        }
        World { data, dims }
    }

    /// The block at an in-range position.
    pub fn get(&self, index: WorldPosition) -> (r: Block)
        requires
            self.wf(),
            self.spec_dims().contains(index),
        ensures
            r == self.cell(index),
    {
        proof {
            self.dims.lemma_idx_bounds(index);
        }
        self.data[self.dims.idx(index)]
    }

    /// Replaces the block at an in-range position.
    pub fn set(&mut self, index: WorldPosition, blk: Block)
        requires
            old(self).wf(),
            old(self).spec_dims().contains(index),
        ensures
            final(self).wf(),
            final(self).spec_dims() == old(self).spec_dims(),
            final(self)@ == old(self)@.update(old(self).spec_dims().spec_idx(index), blk),
    {
        proof {
            self.dims.lemma_idx_bounds(index);
        }
        let idx = self.dims.idx(index);
        self.data.set(idx, blk);
    }

    /// Whether the cell at an in-range position is solid.
    pub fn test(&self, index: WorldPosition) -> (r: bool)
        requires
            self.wf(),
            self.spec_dims().contains(index),
        ensures
            r == self.spec_test(index),
    {
        match self.get(index) {
            Block::Empty => false,
            Block::Solid(_) => true,
        }
    }

    /// Every solid cell with its position and color, in increasing
    /// linear-index order.
    pub fn iter(&self) -> (r: Vec<(WorldPosition, SolidBlock)>)
        requires
            self.wf(),
        ensures
            r@ == self.solids(),
    {
        let dims = self.dims;
        let mut out: Vec<(WorldPosition, SolidBlock)> = Vec::new();
        let mut i: usize = 0;
        while i < self.data.len()
            invariant
                self.wf(),
                dims == self.spec_dims(),
                i <= self.data@.len(),
                out@ == solids_upto(dims, self@, i as nat),
            decreases self.data@.len() - i,
        {
            match self.data[i] {
                Block::Empty => {},
                Block::Solid(b) => {
                    out.push((dims.pos(i), b));
                },
            }
            i = i + 1;
        }
        out
    }
}

} // verus!
