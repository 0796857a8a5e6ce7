use vstd::prelude::*;

verus! {

/// Vertex of the full-surface quad drawn by post-process stages: only the
/// number of its corner, from which the program derives its position.
#[derive(Debug, Clone, Copy, PartialEq, Eq, Structural)]
pub struct PostProcessVertex {
    pub id: u32,
}

impl PostProcessVertex {
    /// The four corners of the quad, numbered in strip order.
    pub fn get() -> (r: [PostProcessVertex; 4])
        ensures
            forall|i: int| 0 <= i < 4 ==> #[trigger] r@[i].id == i,
    {
        [
            PostProcessVertex { id: 0 },
            PostProcessVertex { id: 1 },
            PostProcessVertex { id: 2 },
            PostProcessVertex { id: 3 },
        ]
    }
}

/// The directional blur effect; `DIR` selects which diagonal it blurs along.
pub struct BlurPass<const DIR: bool>;

impl<const DIR: bool> BlurPass<DIR> {
    /// The blur direction handed to the program: `(1, 1)` along one
    /// diagonal, `(1, -1)` along the other.
    pub fn direction() -> (r: (i8, i8))
        ensures
            r == if DIR {
                (1i8, 1i8)
            } else {
                (1i8, -1i8)
            },
    {
        if DIR {
            (1, 1)
        } else {
            (1, -1)
        }
    }
}

/// The edge-strengthening effect.
pub struct StrengthenPass;

/// Depth below which edges are drawn at full strength.
pub const STRENGTHEN_NEAR: i32 = -10;

/// Depth beyond which edges fade out completely.
pub const STRENGTHEN_FAR: i32 = 38;

impl StrengthenPass {
    /// The near and far thresholds handed to the program.
    pub fn thresholds() -> (r: (i32, i32))
        ensures
            r == (STRENGTHEN_NEAR, STRENGTHEN_FAR),
    {
        (STRENGTHEN_NEAR, STRENGTHEN_FAR)
    }
}

} // verus!
