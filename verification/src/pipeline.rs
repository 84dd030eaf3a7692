use vstd::prelude::*;
use crate::point::Point3;
use crate::point::Vertex;
use crate::lattice::generate_lattice_conc;
use crate::lattice::lattice_for_level;
use crate::lattice::lemma_lattice_level_bounded;
use crate::vertex::generate_vertices;
use crate::vertex::is_corner_of;

verus! {

/// Runs the whole pipeline at level `n`: the Lattice Generator first, and —
/// only once its full output stands — the Vertex Expander over it. Returns
/// the kept points and the deduplicated vertex set.
pub fn generate_fractal(n: u32) -> (r: (Vec<Point3>, Vec<Vertex>))
    requires
        n <= 39,
    ensures
        r.0@ == lattice_for_level(n as nat),
        r.1@.no_duplicates(),
        forall|v: Vertex| #[trigger] r.1@.contains(v) <==> is_corner_of(r.0@, v),
{
    let lattice = generate_lattice_conc(n);
    proof {
        lemma_lattice_level_bounded(n as nat);
    }
    let vertices = generate_vertices(&lattice);
    (lattice, vertices)
}

} // verus!
