use crate::framing::{vox_file_fits, vox_fits};
use crate::world::{block_of_color, Block, World, WorldDimension, WorldPosition};
use vstd::prelude::*;

verus! {

/// One model of a decoded voxel file: its extents along the file's own x, y
/// and z axes, and its voxels as `(x, y, z, palette index)`.
#[derive(Debug)]
pub struct VoxModel {
    pub size: (u32, u32, u32),
    pub voxels: Vec<(u8, u8, u8, u8)>,
}

/// A decoded voxel file: its models and its palette of packed colors.
#[derive(Debug)]
pub struct VoxData {
    pub models: Vec<VoxModel>,
    pub palette: Vec<u32>,
}

/// Why a voxel file could not become a world.
#[derive(Debug, Clone, Copy, PartialEq, Eq, Structural)]
pub enum ImportError {
    /// The bytes are not a voxel file.
    Malformed,
    /// The file holds no model.
    NoModel,
    /// The first model has more cells than memory can index.
    TooLarge,
    /// A voxel lies outside the model's extents or names a missing palette entry.
    BadVoxel,
}

/// What the voxel-file decoder makes of the given bytes.
pub uninterp spec fn parse_vox(b: Seq<u8>) -> Option<VoxData>;

/// Relies on dot_vox::load_bytes to decode a MagicaVoxel file; each model,
/// voxel and palette entry is copied over field for field. The decoder reads
/// length words without checking that they lie inside its input, and sizes
/// its voxel and property lists by counts read from the file: `vox_fits`
/// leaves out every input on which it would read past the end or reserve
/// more entries than the bytes hold.
#[verifier::external_body]
fn load_vox(bytes: &[u8]) -> (r: Option<VoxData>)
    requires
        vox_fits(bytes@),
    ensures
        r == parse_vox(bytes@),
{
    let d = dot_vox::load_bytes(bytes).ok()?;
    let models = d.models.iter().map(|m| VoxModel {
        size: (m.size.x, m.size.y, m.size.z),
        voxels: m.voxels.iter().map(|v| (v.x, v.y, v.z, v.i)).collect(),
    }).collect();
    Some(VoxData { models, palette: d.palette })
}

/// World extents of a model: the model's y and z axes are swapped.
pub open spec fn model_dims(size: (u32, u32, u32)) -> WorldDimension {
    WorldDimension(size.0, size.2, size.1)
}

/// World position of a voxel, with the same axis swap.
pub open spec fn voxel_pos(v: (u8, u8, u8, u8)) -> WorldPosition {
    WorldPosition(v.0 as u32, v.2 as u32, v.1 as u32)
}

/// A voxel lands in the grid and names an existing palette entry.
pub open spec fn voxel_ok(dims: WorldDimension, palette: Seq<u32>, v: (u8, u8, u8, u8)) -> bool {
    dims.contains(voxel_pos(v)) && (v.3 as int) < palette.len()
}

/// The cells after writing the first `n` voxels into an empty grid, each
/// as a solid block of its palette color; a later voxel overwrites an
/// earlier one at the same place.
pub open spec fn painted(
    dims: WorldDimension,
    palette: Seq<u32>,
    voxels: Seq<(u8, u8, u8, u8)>,
    n: nat,
) -> Seq<Block>
    decreases n,
{
    if n == 0 {
        Seq::new(dims.volume(), |i: int| Block::Empty)
    } else {
        let v = voxels[n - 1];
        painted(dims, palette, voxels, (n - 1) as nat).update(
            dims.spec_idx(voxel_pos(v)),
            block_of_color(palette[v.3 as int]),
        )
    }
}

/// The extents and cells of the world that a decoded file gives, or why it
/// gives none. Only the first model is used.
pub open spec fn import_outcome(d: VoxData) -> Result<(WorldDimension, Seq<Block>), ImportError> {
    if d.models@.len() == 0 {
        Err(ImportError::NoModel)
    } else {
        let m = d.models@[0];
        let dims = model_dims(m.size);
        if dims.volume() > usize::MAX {
            Err(ImportError::TooLarge)
        } else if exists|k: int| 0 <= k < m.voxels@.len() && !voxel_ok(dims, d.palette@, #[trigger] m.voxels@[k]) {
            Err(ImportError::BadVoxel)
        } else {
            Ok((dims, painted(dims, d.palette@, m.voxels@, m.voxels@.len())))
        }
    }
}

/// `r` is the world, or the error, that `o` describes.
pub open spec fn import_matches(
    r: Result<World, ImportError>,
    o: Result<(WorldDimension, Seq<Block>), ImportError>,
) -> bool {
    match (r, o) {
        (Ok(w), Ok((dims, cells))) => w.wf() && w.spec_dims() == dims && w@ == cells,
        (Err(e), Err(f)) => e == f,
        _ => false,
    }
}

impl World {
    /// Builds a world from the first model of a decoded voxel file.
    pub fn from_vox_data(data: &VoxData) -> (r: Result<World, ImportError>)
        ensures
            import_matches(r, import_outcome(*data)),
    {
        if data.models.len() == 0 {
            return Err(ImportError::NoModel);
        }
        let model = &data.models[0];
        let (sx, sy, sz) = model.size;
        let dims = WorldDimension(sx, sz, sy);
        let size = match (sx as usize).checked_mul(sz as usize) {
            Some(xy) => xy.checked_mul(sy as usize),
            None => {
                proof {
                    let (a, b, c) = (sx as int, sz as int, sy as int);
                    if c == 0 {
                        assert(a * b * c == 0) by (nonlinear_arith)
                            requires
                                c == 0,
                        ;
                    } else {
                        assert(a * b <= a * b * c) by (nonlinear_arith)
                            requires
                                a >= 0,
                                b >= 0,
                                c >= 1,
                        ;
                    }
                }
                if sy == 0 {
                    Some(0)
                } else {
                    None
                }
            },
        };
        if size.is_none() {
            return Err(ImportError::TooLarge);
        }
        assert(dims.volume() <= usize::MAX);
        let voxels = &model.voxels;
        let mut k: usize = 0;
        while k < voxels.len()
            invariant
                data.models@.len() > 0,
                *model == data.models@[0],
                voxels == &model.voxels,
                dims == model_dims(model.size),
                dims.volume() <= usize::MAX,
                k <= voxels@.len(),
                forall|j: int| 0 <= j < k ==> voxel_ok(dims, data.palette@, #[trigger] voxels@[j]),
            decreases voxels@.len() - k,
        {
            let (x, y, z, i) = voxels[k];
            if !((x as u32) < dims.0 && (z as u32) < dims.1 && (y as u32) < dims.2
                && (i as usize) < data.palette.len()) {
                assert(!voxel_ok(dims, data.palette@, voxels@[k as int]));
                return Err(ImportError::BadVoxel);
            }
            k = k + 1;
        }
        let mut res = World::new(dims);
        let mut k: usize = 0;
        while k < voxels.len()
            invariant
                data.models@.len() > 0,
                *model == data.models@[0],
                voxels == &model.voxels,
                dims == model_dims(model.size),
                dims.volume() <= usize::MAX,
                k <= voxels@.len(),
                forall|j: int| 0 <= j < voxels@.len() ==> voxel_ok(dims, data.palette@, #[trigger] voxels@[j]),
                res.wf(),
                res.spec_dims() == dims,
                res@ == painted(dims, data.palette@, voxels@, k as nat),
            decreases voxels@.len() - k,
        {
            let (x, y, z, i) = voxels[k];
            assert(voxel_ok(dims, data.palette@, voxels@[k as int]));
            let pos = WorldPosition(x as u32, z as u32, y as u32);
            let blk = Block::from_color(data.palette[i as usize]);
            res.set(pos, blk);
            k = k + 1;
        }
        Ok(res)
    }

    /// Decodes a voxel file and builds a world from its first model. A file
    /// whose chunk framing does not fit is malformed and is not decoded.
    pub fn from_vox(bytes: &[u8]) -> (r: Result<World, ImportError>)
        ensures
            !vox_fits(bytes@) ==> r == Err::<World, ImportError>(ImportError::Malformed),
            vox_fits(bytes@) ==> match parse_vox(bytes@) {
                None => r == Err::<World, ImportError>(ImportError::Malformed),
                Some(d) => import_matches(r, import_outcome(d)),
            },
    {
        if !vox_file_fits(bytes) {
            return Err(ImportError::Malformed);
        }
        match load_vox(bytes) {
            None => Err(ImportError::Malformed),
            Some(d) => World::from_vox_data(&d),
        }
    }
}

} // verus!
