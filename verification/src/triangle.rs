//! The triangle value type shared by extraction, intersection and the
//! acceleration structure.

use vstd::prelude::*;

use crate::math::{bounded3, Vec3i};
use crate::COORD_LIMIT;

verus! {

/// One mesh triangle: a stable index into the original mesh, three vertex
/// positions, and optional per-vertex normals matched slot for slot.
#[derive(Clone, Debug)]
pub struct Triangle {
    pub triangle_index: usize,
    pub positions: [Vec3i; 3],
    pub normals: Option<[Vec3i; 3]>,
}

impl Triangle {
    /// All coordinates quantised into the supported range.
    pub open spec fn wf(self) -> bool {
        &&& bounded3(self.positions[0]@, COORD_LIMIT as int)
        &&& bounded3(self.positions[1]@, COORD_LIMIT as int)
        &&& bounded3(self.positions[2]@, COORD_LIMIT as int)
        &&& match self.normals {
            Some(ns) => {
                &&& bounded3(ns[0]@, COORD_LIMIT as int)
                &&& bounded3(ns[1]@, COORD_LIMIT as int)
                &&& bounded3(ns[2]@, COORD_LIMIT as int)
            },
            None => true,
        }
    }

    pub fn new(triangle_index: usize, positions: [Vec3i; 3], normals: Option<[Vec3i; 3]>) -> (r:
        Triangle)
        ensures
            r.triangle_index == triangle_index,
            r.positions == positions,
            r.normals == normals,
    {
        Triangle { triangle_index, positions, normals }
    }
}

} // verus!
