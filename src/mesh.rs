use crate::world::{
    all_directions, solids_upto, Block, Direction, SolidBlock, World, WorldDimension, WorldPosition,
};
use crate::bound::lemma_mesh_within_max_faces;
use vstd::prelude::*;

verus! {

/// One visible unit face of a solid cell: the cell's position, its color
/// and the identifier of the direction the face points to.
#[derive(Debug, Clone, Copy, PartialEq, Eq, Structural)]
pub struct Face {
    pub position: WorldPosition,
    pub color: SolidBlock,
    pub direction: u32,
}

/// A face is visible when it points off the grid or at an empty cell.
pub open spec fn face_visible(w: &World, p: WorldPosition, d: Direction) -> bool {
    match d.spec_apply(w.spec_dims(), p) {
        None => true,
        Some(q) => !w.spec_test(q),
    }
}

/// The visible faces of the cell at `p` among the first `k` directions.
pub open spec fn cell_faces_upto(w: &World, p: WorldPosition, c: SolidBlock, k: nat) -> Seq<Face>
    decreases k,
{
    if k == 0 {
        seq![]
    } else {
        let prev = cell_faces_upto(w, p, c, (k - 1) as nat);
        let d = all_directions()[k - 1];
        if face_visible(w, p, d) {
            prev.push(Face { position: p, color: c, direction: d.spec_id() })
        } else {
            prev
        }
    }
}

/// The visible faces of one solid cell, in direction order.
pub open spec fn cell_faces(w: &World, p: WorldPosition, c: SolidBlock) -> Seq<Face> {
    cell_faces_upto(w, p, c, 6)
}

/// The visible faces of the listed solid cells, cell after cell.
pub open spec fn faces_of_cells(w: &World, s: Seq<(WorldPosition, SolidBlock)>) -> Seq<Face>
    decreases s.len(),
{
    if s.len() == 0 {
        seq![]
    } else {
        faces_of_cells(w, s.drop_last()) + cell_faces(w, s.last().0, s.last().1)
    }
}

/// Every visible face of the world: cells in increasing index order and,
/// within a cell, directions in enumeration order.
pub open spec fn mesh_of(w: &World) -> Seq<Face> {
    faces_of_cells(w, w.solids())
}

proof fn lemma_solids_in_range(dims: WorldDimension, cells: Seq<Block>, n: nat)
    requires
        n <= cells.len(),
        cells.len() == dims.volume(),
    ensures
        forall|k: int|
            0 <= k < solids_upto(dims, cells, n).len() ==> dims.contains(
                #[trigger] solids_upto(dims, cells, n)[k].0,
            ),
    decreases n,
{
    if n > 0 {
        lemma_solids_in_range(dims, cells, (n - 1) as nat);
        dims.lemma_pos_in_range(n - 1);
        let prev = solids_upto(dims, cells, (n - 1) as nat);
        let cur = solids_upto(dims, cells, n);
        assert forall|k: int| 0 <= k < cur.len() implies dims.contains(#[trigger] cur[k].0) by {
            if k < prev.len() {
                assert(cur[k] == prev[k]);
            }
        }
    }
}

/// Appends the face of `pos` in `direction` when it is visible.
fn gen_face(
    world: &World,
    out: &mut Vec<Face>,
    pos: WorldPosition,
    blk: SolidBlock,
    direction: Direction,
)
    requires
        world.wf(),
        world.spec_dims().contains(pos),
    ensures
        final(out)@ == if face_visible(world, pos, direction) {
            old(out)@.push(Face { position: pos, color: blk, direction: direction.spec_id() })
        } else {
            old(out)@
        },
{
    if let Some(target_pos) = direction.apply(world.dims(), pos) {
        if world.test(target_pos) {
            return ;
        }
    }
    out.push(Face { position: pos, color: blk, direction: direction.id() });
}

/// Extracts the visible faces of every solid cell.
pub fn build_faces(world: &World) -> (r: Vec<Face>)
    requires
        world.wf(),
    ensures
        r@ == mesh_of(world),
        r@.len() <= world.spec_dims().spec_max_faces(),
{
    proof {
        lemma_mesh_within_max_faces(world);
    }
    let solids = world.iter();
    let directions = Direction::iter();
    proof {
        lemma_solids_in_range(world.spec_dims(), world@, world@.len());
    }
    let mut out: Vec<Face> = Vec::new();
    let mut j: usize = 0;
    while j < solids.len()
        invariant
            world.wf(),
            solids@ == world.solids(),
            directions@ == all_directions(),
            j <= solids@.len(),
            forall|k: int| 0 <= k < solids@.len() ==> world.spec_dims().contains(#[trigger] solids@[k].0),
            out@ == faces_of_cells(world, solids@.subrange(0, j as int)),
        decreases solids@.len() - j,
    {
        let (pos, blk) = solids[j];
        let ghost before = out@;
        let mut k: usize = 0;
        while k < directions.len()
            invariant
                world.wf(),
                world.spec_dims().contains(pos),
                directions@ == all_directions(),
                k <= 6,
                out@ == before + cell_faces_upto(world, pos, blk, k as nat),
            decreases 6 - k,
        {
            gen_face(world, &mut out, pos, blk, directions[k]);
            proof {
                assert(out@ =~= before + cell_faces_upto(world, pos, blk, (k + 1) as nat));
            }
            k = k + 1;
        }
        proof {
            let s = solids@.subrange(0, j + 1);
            assert(s.drop_last() =~= solids@.subrange(0, j as int));
            assert(s.last() == (pos, blk));
        }
        j = j + 1;
    }
    proof {
        assert(solids@.subrange(0, solids@.len() as int) =~= solids@);
    }
    out
}

/// Length the face buffer must have before a mesh of `dims` is written into
/// it: unchanged when it already holds the largest possible mesh, else
/// exactly that size. The buffer never shrinks.
pub fn required_capacity(current: usize, dims: WorldDimension) -> (r: usize)
    requires
        dims.spec_max_faces() <= usize::MAX,
    ensures
        r == if current < dims.spec_max_faces() {
            dims.spec_max_faces()
        } else {
            current as int
        },
        r >= current,
        r >= dims.spec_max_faces(),
{
    let needed = dims.max_faces();
    if current < needed {
        needed
    } else {
        current
    }
}

/// Extraction depends on the world alone: two worlds with the same extents
/// and the same cells have the same faces, in the same order. In particular
/// extracting twice from an unchanged world gives the same sequence.
pub proof fn lemma_mesh_deterministic(a: &World, b: &World)
    requires
        a.spec_dims() == b.spec_dims(),
        a@ == b@,
    ensures
        mesh_of(a) == mesh_of(b),
{
    assert(a.solids() == b.solids());
    lemma_faces_congruent(a, b, a.solids());
}

proof fn lemma_faces_congruent(a: &World, b: &World, s: Seq<(WorldPosition, SolidBlock)>)
    requires
        a.spec_dims() == b.spec_dims(),
        a@ == b@,
    ensures
        faces_of_cells(a, s) == faces_of_cells(b, s),
    decreases s.len(),
{
    if s.len() > 0 {
        lemma_faces_congruent(a, b, s.drop_last());
        lemma_cell_faces_congruent(a, b, s.last().0, s.last().1, 6);
    }
}

proof fn lemma_cell_faces_congruent(a: &World, b: &World, p: WorldPosition, c: SolidBlock, k: nat)
    requires
        a.spec_dims() == b.spec_dims(),
        a@ == b@,
    ensures
        cell_faces_upto(a, p, c, k) == cell_faces_upto(b, p, c, k),
    decreases k,
{
    if k > 0 {
        lemma_cell_faces_congruent(a, b, p, c, (k - 1) as nat);
    }
}

} // verus!
