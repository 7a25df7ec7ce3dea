//! Mesh data as handed over by the host, and extraction of a stable
//! triangle list from its buffers.

use vstd::prelude::*;

use crate::math::{bounded3, Vec3i};
use crate::triangle::Triangle;
use crate::COORD_LIMIT;

verus! {

/// The topology tag of a mesh; only triangle lists feed this pipeline.
#[derive(Clone, Copy, Debug, PartialEq, Eq, Structural)]
pub enum PrimitiveTopology {
    TriangleList,
    Other,
}

/// An index buffer of either width.
#[derive(Clone, Debug)]
pub enum MeshIndices {
    U16(Vec<u16>),
    U32(Vec<u32>),
}

/// A mesh snapshot: quantised positions, optional normals matched by slot,
/// an optional index buffer, and the topology tag.
#[derive(Clone, Debug)]
pub struct MeshData {
    pub topology: PrimitiveTopology,
    pub positions: Option<Vec<Vec3i>>,
    pub normals: Option<Vec<Vec3i>>,
    pub indices: Option<MeshIndices>,
}

impl MeshData {
    /// Every coordinate the mesh holds is quantised into range.
    pub open spec fn wf(self) -> bool {
        &&& match self.positions {
            Some(ps) => forall|i: int|
                0 <= i < ps@.len() ==> bounded3(#[trigger] ps@[i]@, COORD_LIMIT as int),
            None => true,
        }
        &&& match self.normals {
            Some(ns) => forall|i: int|
                0 <= i < ns@.len() ==> bounded3(#[trigger] ns@[i]@, COORD_LIMIT as int),
            None => true,
        }
    }
}

/// The index buffer as one sequence of integers, whatever its width.
pub open spec fn indices_view(ix: MeshIndices) -> Seq<int> {
    match ix {
        MeshIndices::U16(v) => v@.map_values(|x: u16| x as int),
        MeshIndices::U32(v) => v@.map_values(|x: u32| x as int),
    }
}

/// The triangle that run `k` of an index buffer describes, if its three
/// indices address the position buffer; a run with an out-of-range index
/// describes nothing and is dropped.
pub open spec fn indexed_triangle(
    positions: Seq<Vec3i>,
    normals: Option<Seq<Vec3i>>,
    idx: Seq<int>,
    k: int,
) -> Option<Triangle> {
    let a = idx[3 * k];
    let b = idx[3 * k + 1];
    let c = idx[3 * k + 2];
    if 0 <= a < positions.len() && 0 <= b < positions.len() && 0 <= c < positions.len() {
        Some(
            Triangle {
                triangle_index: a as usize,
                positions: [positions[a], positions[b], positions[c]],
                normals: match normals {
                    Some(ns) => if 0 <= a < ns.len() && 0 <= b < ns.len() && 0 <= c < ns.len() {
                        Some([ns[a], ns[b], ns[c]])
                    } else {
                        None
                    },
                    None => None,
                },
            },
        )
    } else {
        None
    }
}

/// The sequence of triangles an indexed mesh yields: one per complete run of
/// three indices, skipping runs that address out of range.
pub open spec fn indexed_triangles(
    positions: Seq<Vec3i>,
    normals: Option<Seq<Vec3i>>,
    idx: Seq<int>,
    n: int,
) -> Seq<Triangle>
    decreases n,
{
    if n <= 0 {
        Seq::empty()
    } else {
        let prev = indexed_triangles(positions, normals, idx, n - 1);
        match indexed_triangle(positions, normals, idx, n - 1) {
            Some(t) => prev.push(t),
            None => prev,
        }
    }
}

/// The triangle that run `k` of a non-indexed position buffer describes.
pub open spec fn ordinal_triangle(
    positions: Seq<Vec3i>,
    normals: Option<Seq<Vec3i>>,
    k: int,
) -> Triangle {
    Triangle {
        triangle_index: k as usize,
        positions: [positions[3 * k], positions[3 * k + 1], positions[3 * k + 2]],
        normals: match normals {
            Some(ns) => if 3 * k + 2 < ns.len() {
                Some([ns[3 * k], ns[3 * k + 1], ns[3 * k + 2]])
            } else {
                None
            },
            None => None,
        },
    }
}

pub open spec fn ordinal_triangles(
    positions: Seq<Vec3i>,
    normals: Option<Seq<Vec3i>>,
    n: int,
) -> Seq<Triangle>
    decreases n,
{
    if n <= 0 {
        Seq::empty()
    } else {
        ordinal_triangles(positions, normals, n - 1).push(
            ordinal_triangle(positions, normals, n - 1),
        )
    }
}

/// What extraction yields for given buffers: indexed runs of three when an
/// index buffer is present, ordinal runs of three otherwise.
pub open spec fn extracted_triangles(
    positions: Seq<Vec3i>,
    normals: Option<Seq<Vec3i>>,
    indices: Option<MeshIndices>,
) -> Seq<Triangle> {
    match indices {
        Some(ix) => indexed_triangles(
            positions,
            normals,
            indices_view(ix),
            indices_view(ix).len() as int / 3,
        ),
        None => ordinal_triangles(positions, normals, positions.len() as int / 3),
    }
}

/// All triangles of an extraction are well-formed when the buffers are.
pub open spec fn tris_wf(tris: Seq<Triangle>) -> bool {
    forall|i: int| 0 <= i < tris.len() ==> (#[trigger] tris[i]).wf()
}

pub open spec fn normals_view(normals: Option<&Vec<Vec3i>>) -> Option<Seq<Vec3i>> {
    match normals {
        Some(ns) => Some(ns@),
        None => None,
    }
}

fn index_at(ix: &MeshIndices, j: usize) -> (r: usize)
    requires
        j < indices_view(*ix).len(),
    ensures
        r as int == indices_view(*ix)[j as int],
{
    match ix {
        MeshIndices::U16(v) => v[j] as usize,
        MeshIndices::U32(v) => {
            let x = v[j];
            x as usize
        },
    }
}

fn indices_len(ix: &MeshIndices) -> (r: usize)
    ensures
        r as int == indices_view(*ix).len(),
{
    match ix {
        MeshIndices::U16(v) => v.len(),
        MeshIndices::U32(v) => v.len(),
    }
}

/// Turns raw vertex and index buffers into a stable triangle list: index
/// runs of three (the run's first index is the stable triangle index), or
/// ordinal runs of three when no index buffer is present. A run whose index
/// does not address the position buffer is dropped silently.
pub fn get_triangles(
    positions: &Vec<Vec3i>,
    vertex_normals: Option<&Vec<Vec3i>>,
    indices: Option<&MeshIndices>,
) -> (r: Vec<Triangle>)
    ensures
        r@ == extracted_triangles(
            positions@,
            normals_view(vertex_normals),
            match indices {
                Some(ix) => Some(*ix),
                None => None,
            },
        ),
{
    let mut out: Vec<Triangle> = Vec::new();
    match indices {
        Some(ix) => {
            let total = indices_len(ix) / 3;
            let ghost iv = indices_view(*ix);
            for k in 0..total
                invariant
                    iv == indices_view(*ix),
                    3 * total <= iv.len(),
                    3 * (total as int) <= usize::MAX as int,
                    out@ == indexed_triangles(positions@, normals_view(vertex_normals), iv, k as int),
            {
                let a = index_at(ix, 3 * k);
                let b = index_at(ix, 3 * k + 1);
                let c = index_at(ix, 3 * k + 2);
                if a < positions.len() && b < positions.len() && c < positions.len() {
                    let tri_normals = match vertex_normals {
                        Some(ns) => {
                            if a < ns.len() && b < ns.len() && c < ns.len() {
                                Some([ns[a], ns[b], ns[c]])
                            } else {
                                None
                            }
                        },
                        None => None,
                    };
                    out.push(
                        Triangle {
                            triangle_index: a,
                            positions: [positions[a], positions[b], positions[c]],
                            normals: tri_normals,
                        },
                    );
                }
            }
            out
        },
        None => {
            let total = positions.len() / 3;
            for k in 0..total
                invariant
                    3 * total <= positions@.len(),
                    3 * (total as int) <= usize::MAX as int,
                    out@ == ordinal_triangles(
                        positions@,
                        normals_view(vertex_normals),
                        k as int,
                    ),
            {
                let tri_normals = match vertex_normals {
                    Some(ns) => {
                        if 3 * k + 2 < ns.len() {
                            Some([ns[3 * k], ns[3 * k + 1], ns[3 * k + 2]])
                        } else {
                            None
                        }
                    },
                    None => None,
                };
                out.push(
                    Triangle {
                        triangle_index: k,
                        positions: [positions[3 * k], positions[3 * k + 1], positions[3 * k + 2]],
                        normals: tri_normals,
                    },
                );
            }
            out
        },
    }
}

/// Extraction preserves well-formedness of every triangle.
pub proof fn lemma_extracted_wf(
    positions: Seq<Vec3i>,
    normals: Option<Seq<Vec3i>>,
    idx: Option<MeshIndices>,
)
    requires
        forall|i: int| 0 <= i < positions.len() ==> bounded3(#[trigger] positions[i]@, COORD_LIMIT as int),
        match normals {
            Some(ns) => forall|i: int|
                0 <= i < ns.len() ==> bounded3(#[trigger] ns[i]@, COORD_LIMIT as int),
            None => true,
        },
    ensures
        tris_wf(extracted_triangles(positions, normals, idx)),
{
    match idx {
        Some(ix) => {
            lemma_indexed_wf(positions, normals, indices_view(ix), indices_view(ix).len() as int / 3);
        },
        None => {
            lemma_ordinal_wf(positions, normals, positions.len() as int / 3);
        },
    }
}

proof fn lemma_indexed_wf(
    positions: Seq<Vec3i>,
    normals: Option<Seq<Vec3i>>,
    idx: Seq<int>,
    n: int,
)
    requires
        forall|i: int| 0 <= i < positions.len() ==> bounded3(#[trigger] positions[i]@, COORD_LIMIT as int),
        match normals {
            Some(ns) => forall|i: int|
                0 <= i < ns.len() ==> bounded3(#[trigger] ns[i]@, COORD_LIMIT as int),
            None => true,
        },
    ensures
        tris_wf(indexed_triangles(positions, normals, idx, n)),
    decreases n,
{
    if n > 0 {
        lemma_indexed_wf(positions, normals, idx, n - 1);
    }
}

proof fn lemma_ordinal_wf(positions: Seq<Vec3i>, normals: Option<Seq<Vec3i>>, n: int)
    requires
        forall|i: int| 0 <= i < positions.len() ==> bounded3(#[trigger] positions[i]@, COORD_LIMIT as int),
        match normals {
            Some(ns) => forall|i: int|
                0 <= i < ns.len() ==> bounded3(#[trigger] ns[i]@, COORD_LIMIT as int),
            None => true,
        },
        3 * n <= positions.len(),
    ensures
        tris_wf(ordinal_triangles(positions, normals, n)),
    decreases n,
{
    if n > 0 {
        lemma_ordinal_wf(positions, normals, n - 1);
    }
}

} // verus!
