use vstd::prelude::*;
use vstd::seq_lib::lemma_seq_contains_after_push;
use vstd::set_lib::lemma_len_subset;
use vstd::arithmetic::div_mod::lemma_fundamental_div_mod_converse;
use crate::point::Point3;
use crate::point::Vertex;

verus! {

/// The sign, `+1` or `-1`, selected by one bit of a corner index.
pub open spec fn corner_sign(b: int) -> int {
    if b == 1 {
        1
    } else {
        -1
    }
}

/// Corner `s` (one of eight) of the unit cell centred on `p`, in half-unit
/// coordinates: each doubled coordinate is offset by an odd `±1`, which is
/// the exact image of a geometric offset of `±0.5`.
pub open spec fn corner(p: Point3, s: int) -> Vertex {
    Vertex {
        x: (2 * p.x + corner_sign(s % 2)) as i64,
        y: (2 * p.y + corner_sign((s / 2) % 2)) as i64,
        z: (2 * p.z + corner_sign((s / 4) % 2)) as i64,
    }
}

/// Whether `v` is a corner of some point held by `lattice`. The statement
/// goes through `contains`, so it depends only on the set of points, not on
/// their order or multiplicity.
pub open spec fn is_corner_of(lattice: Seq<Point3>, v: Vertex) -> bool {
    exists|p: Point3, s: int| lattice.contains(p) && 0 <= s < 8 && v == #[trigger] corner(p, s)
}

/// Whether `v` is a corner of one of the first `t` points of `lattice`.
spec fn corner_of_prefix(lattice: Seq<Point3>, t: int, v: Vertex) -> bool {
    exists|i: int, s: int| 0 <= i < t && 0 <= s < 8 && v == #[trigger] corner(lattice[i], s)
}

/// Whether `v` is one of the first `sc` corners of `p`.
spec fn corner_in_range(p: Point3, sc: int, v: Vertex) -> bool {
    exists|s: int| 0 <= s < sc && v == #[trigger] corner(p, s)
}

/// Computes corner `s` of the cell centred on `p`.
fn corner_exec(p: &Point3, s: u8) -> (v: Vertex)
    requires
        p.bounded(),
        s < 8,
    ensures
        v == corner(*p, s as int),
{
    let dx: i64 = if s % 2 == 1 {
        1
    } else {
        -1
    };
    let dy: i64 = if (s / 2) % 2 == 1 {
        1
    } else {
        -1
    };
    let dz: i64 = if (s / 4) % 2 == 1 {
        1
    } else {
        -1
    };
    Vertex { x: 2 * p.x + dx, y: 2 * p.y + dy, z: 2 * p.z + dz }
}

/// Linear membership scan over the vertices collected so far.
fn vertex_contained(vs: &Vec<Vertex>, v: Vertex) -> (b: bool)
    ensures
        b == vs@.contains(v),
{
    let mut idx: usize = 0;
    while idx < vs.len()
        invariant
            0 <= idx <= vs@.len(),
            forall|t: int| 0 <= t < idx ==> vs@[t] != v,
        decreases vs@.len() - idx,
    {
        if vs[idx] == v {
            return true;
        }
        idx = idx + 1;
    }
    false
}

/// The Vertex Expander: maps every lattice point to its eight corner
/// vertices and deduplicates, returning a sequence without duplicates that
/// holds exactly the corners of the input points.
pub fn generate_vertices(lattice: &Vec<Point3>) -> (r: Vec<Vertex>)
    requires
        forall|i: int| 0 <= i < lattice@.len() ==> (#[trigger] lattice@[i]).bounded(),
    ensures
        r@.no_duplicates(),
        forall|v: Vertex| #[trigger] r@.contains(v) <==> is_corner_of(lattice@, v),
{
    let mut r: Vec<Vertex> = Vec::new();
    let mut ip: usize = 0;
    while ip < lattice.len()
        invariant
            0 <= ip <= lattice@.len(),
            forall|i: int| 0 <= i < lattice@.len() ==> (#[trigger] lattice@[i]).bounded(),
            r@.no_duplicates(),
            forall|v: Vertex| #[trigger] r@.contains(v) <==> corner_of_prefix(
                lattice@,
                ip as int,
                v,
            ),
        decreases lattice@.len() - ip,
    {
        let p = lattice[ip];
        let mut s: u8 = 0;
        while s < 8
            invariant
                0 <= s <= 8,
                0 <= ip < lattice@.len(),
                p == lattice@[ip as int],
                p.bounded(),
                r@.no_duplicates(),
                forall|v: Vertex| #[trigger] r@.contains(v) <==> (corner_of_prefix(
                    lattice@,
                    ip as int,
                    v,
                ) || corner_in_range(p, s as int, v)),
            decreases 8 - s,
        {
            let ghost r_old = r@;
            let c = corner_exec(&p, s);
            let present = vertex_contained(&r, c);
            if !present {
                r.push(c);
                proof {
                    assert forall|a: int, b: int|
                        0 <= a < b < r@.len() implies r@[a] != r@[b] by {
                        if b == r@.len() - 1 {
                            assert(r_old[a] == r@[a]);
                        }
                    }
                }
            }
            proof {
                assert forall|v: Vertex| #[trigger] r@.contains(v) <==> (corner_of_prefix(
                    lattice@,
                    ip as int,
                    v,
                ) || corner_in_range(p, s as int + 1, v)) by {
                    if !present {
                        lemma_seq_contains_after_push(r_old, c, v);
                    }
                    if r@.contains(v) {
                        if v == c {
                            assert(v == corner(p, s as int));
                        } else {
                            assert(r_old.contains(v));
                            if corner_in_range(p, s as int, v) {
                                let w = choose|w: int| 0 <= w < s as int && v == corner(p, w);
                                assert(0 <= w < s as int + 1 && v == corner(p, w));
                            }
                        }
                    }
                    if corner_of_prefix(lattice@, ip as int, v) || corner_in_range(
                        p,
                        s as int + 1,
                        v,
                    ) {
                        if corner_in_range(p, s as int + 1, v) {
                            let w = choose|w: int| 0 <= w < s as int + 1 && v == corner(p, w);
                            if w < s as int {
                                assert(corner_in_range(p, s as int, v));
                                assert(r_old.contains(v));
                            } else {
                                assert(v == c);
                                if present {
                                    assert(r_old.contains(v));
                                }
                            }
                        } else {
                            assert(r_old.contains(v));
                        }
                        if !present {
                            assert(r@ == r_old.push(c));
                        }
                    }
                }
            }
            s = s + 1;
        }
        proof {
            assert forall|v: Vertex| corner_of_prefix(lattice@, ip as int + 1, v) <==> (
            corner_of_prefix(lattice@, ip as int, v) || corner_in_range(p, 8, v)) by {
                if corner_of_prefix(lattice@, ip as int + 1, v) {
                    let (i, w) = choose|i: int, w: int|
                        0 <= i < ip as int + 1 && 0 <= w < 8 && v == corner(lattice@[i], w);
                    if i < ip as int {
                        assert(corner_of_prefix(lattice@, ip as int, v));
                    } else {
                        assert(v == corner(p, w));
                    }
                }
                if corner_of_prefix(lattice@, ip as int, v) {
                    let (i, w) = choose|i: int, w: int|
                        0 <= i < ip as int && 0 <= w < 8 && v == corner(lattice@[i], w);
                    assert(0 <= i < ip as int + 1 && v == corner(lattice@[i], w));
                }
                if corner_in_range(p, 8, v) {
                    let w = choose|w: int| 0 <= w < 8 && v == corner(p, w);
                    assert(v == corner(lattice@[ip as int], w));
                }
            }
        }
        ip = ip + 1;
    }
    proof {
        assert forall|v: Vertex| corner_of_prefix(lattice@, lattice@.len() as int, v)
            <==> is_corner_of(lattice@, v) by {
            if corner_of_prefix(lattice@, lattice@.len() as int, v) {
                let (i, w) = choose|i: int, w: int|
                    0 <= i < lattice@.len() && 0 <= w < 8 && v == corner(lattice@[i], w);
                assert(lattice@.contains(lattice@[i]));
                assert(v == corner(lattice@[i], w));
            }
            if is_corner_of(lattice@, v) {
                let (q, w) = choose|q: Point3, w: int|
                    lattice@.contains(q) && 0 <= w < 8 && v == #[trigger] corner(q, w);
                let i = choose|i: int| 0 <= i < lattice@.len() && lattice@[i] == q;
                assert(v == corner(lattice@[i], w));
            }
        }
    }
    r
}

/// The eight corners of one bounded point are pairwise distinct: the corner
/// index can be read back off the vertex.
proof fn lemma_corner_injective(p: Point3, s1: int, s2: int)
    requires
        p.bounded(),
        0 <= s1 < 8,
        0 <= s2 < 8,
        corner(p, s1) == corner(p, s2),
    ensures
        s1 == s2,
{
    assert(corner_sign(s1 % 2) == corner_sign(s2 % 2));
    assert(corner_sign((s1 / 2) % 2) == corner_sign((s2 / 2) % 2));
    assert(corner_sign((s1 / 4) % 2) == corner_sign((s2 / 4) % 2));
}

/// The output of the Vertex Expander for a single input point holds exactly
/// eight vertices.
pub proof fn lemma_vertices_of_single_point(p: Point3, r: Seq<Vertex>)
    requires
        p.bounded(),
        r.no_duplicates(),
        forall|v: Vertex| #[trigger] r.contains(v) <==> is_corner_of(seq![p], v),
    ensures
        r.len() == 8,
{
    broadcast use vstd::set::group_set_axioms;

    let c = Seq::new(8, |s: int| corner(p, s));
    assert forall|a: int, b: int| 0 <= a < b < 8 implies c[a] != c[b] by {
        if c[a] == c[b] {
            lemma_corner_injective(p, a, b);
        }
    }
    assert forall|v: Vertex| r.contains(v) <==> c.contains(v) by {
        if is_corner_of(seq![p], v) {
            let (pt, s) = choose|pt: Point3, s: int|
                seq![p].contains(pt) && 0 <= s < 8 && v == #[trigger] corner(pt, s);
            assert(pt == seq![p][0]);
            assert(c[s] == v);
        }
        if c.contains(v) {
            let s = choose|s: int| 0 <= s < c.len() && c[s] == v;
            assert(seq![p][0] == p);
            assert(seq![p].contains(p));
            assert(v == corner(p, s));
        }
    }
    assert(r.to_set() =~= c.to_set());
    r.unique_seq_to_set();
    c.unique_seq_to_set();
}

/// The Vertex Expander's output never exceeds eight vertices per input
/// point: shared corners can only shrink the set.
pub proof fn lemma_vertices_at_most_eight_per_point(lattice: Seq<Point3>, r: Seq<Vertex>)
    requires
        r.no_duplicates(),
        forall|v: Vertex| #[trigger] r.contains(v) <==> is_corner_of(lattice, v),
    ensures
        r.len() <= 8 * lattice.len(),
{
    broadcast use vstd::set::group_set_axioms;
    broadcast use vstd::seq_lib::seq_to_set_is_finite;

    let c = Seq::new(8 * lattice.len(), |t: int| corner(lattice[t / 8], t % 8));
    assert forall|v: Vertex| r.contains(v) implies c.to_set().contains(v) by {
        let (pt, s) = choose|pt: Point3, s: int|
            lattice.contains(pt) && 0 <= s < 8 && v == #[trigger] corner(pt, s);
        let i = choose|i: int| 0 <= i < lattice.len() && lattice[i] == pt;
        let t = 8 * i + s;
        lemma_fundamental_div_mod_converse(t, 8, i, s);
        assert(c[t] == v);
        assert(c.contains(v));
    }
    assert(r.to_set().subset_of(c.to_set()));
    r.unique_seq_to_set();
    lemma_len_subset(r.to_set(), c.to_set());
    c.lemma_cardinality_of_set();
}

/// Two points of the lattice standing one unit apart along a single axis.
pub open spec fn axis_adjacent(p: Point3, q: Point3) -> bool {
    (q.x == p.x + 1 && q.y == p.y && q.z == p.z) || (q.x == p.x && q.y == p.y + 1 && q.z == p.z)
        || (q.x == p.x && q.y == p.y && q.z == p.z + 1)
}

/// Core of the adjacency count: `c` lists, without duplicates, exactly the
/// vertices that `r` holds, so both have twelve entries.
proof fn lemma_adjacent_count_common(p: Point3, q: Point3, r: Seq<Vertex>, c: Seq<Vertex>)
    requires
        r.no_duplicates(),
        c.no_duplicates(),
        c.len() == 12,
        forall|v: Vertex| #[trigger] r.contains(v) <==> c.contains(v),
    ensures
        r.len() == 12,
{
    broadcast use vstd::set::group_set_axioms;

    assert(r.to_set() =~= c.to_set());
    r.unique_seq_to_set();
    c.unique_seq_to_set();
}

/// Adjacency along the first axis: the corners of `q` whose offset points
/// back towards `p` land on the shared face and coincide with corners of
/// `p`; the other four are new.
proof fn lemma_adjacent_x(p: Point3, q: Point3, r: Seq<Vertex>)
    requires
        p.bounded(),
        q.bounded(),
        q.x == p.x + 1 && q.y == p.y && q.z == p.z,
        r.no_duplicates(),
        forall|v: Vertex| #[trigger] r.contains(v) <==> is_corner_of(seq![p, q], v),
    ensures
        r.len() == 12,
{
    let c = Seq::new(
        12,
        |t: int|
            if t < 8 {
                corner(p, t)
            } else {
                corner(q, 2 * (t - 8) + 1)
            },
    );
    assert forall|s: int| 0 <= s < 8 && s % 2 == 0 implies corner(q, s) == corner(p, s + 1) by {
        assert((s + 1) / 2 == s / 2 && (s + 1) / 4 == s / 4);
    }
    assert forall|a: int, b: int| 0 <= a < b < 12 implies c[a] != c[b] by {
        if b < 8 {
            if c[a] == c[b] {
                lemma_corner_injective(p, a, b);
            }
        } else if a >= 8 {
            assert(c[a] == corner(q, 2 * (a - 8) + 1) && c[b] == corner(q, 2 * (b - 8) + 1));
            if c[a] == c[b] {
                lemma_corner_injective(q, 2 * (a - 8) + 1, 2 * (b - 8) + 1);
            }
        } else {
            assert(c[a].x == (2 * p.x + corner_sign(a % 2)) as i64);
            assert(c[b].x == (2 * q.x + 1) as i64);
        }
    }
    assert forall|v: Vertex| r.contains(v) <==> c.contains(v) by {
        if is_corner_of(seq![p, q], v) {
            let (pt, s) = choose|pt: Point3, s: int|
                seq![p, q].contains(pt) && 0 <= s < 8 && v == #[trigger] corner(pt, s);
            assert(pt == seq![p, q][0] || pt == seq![p, q][1]);
            if pt == p {
                assert(c[s] == v);
            } else if s % 2 == 0 {
                assert(c[s + 1] == v);
            } else {
                assert(c[8 + (s - 1) / 2] == corner(q, 2 * ((s - 1) / 2) + 1));
                assert(2 * ((s - 1) / 2) + 1 == s);
                assert(c[8 + (s - 1) / 2] == v);
            }
            assert(c.contains(v));
        }
        if c.contains(v) {
            let t = choose|t: int| 0 <= t < c.len() && c[t] == v;
            assert(seq![p, q][0] == p && seq![p, q][1] == q);
            assert(seq![p, q].contains(p) && seq![p, q].contains(q));
            if t < 8 {
                assert(v == corner(p, t));
            } else {
                assert(v == corner(q, 2 * (t - 8) + 1) && 0 <= 2 * (t - 8) + 1 < 8);
            }
        }
    }
    lemma_adjacent_count_common(p, q, r, c);
}

/// Adjacency along the second axis.
proof fn lemma_adjacent_y(p: Point3, q: Point3, r: Seq<Vertex>)
    requires
        p.bounded(),
        q.bounded(),
        q.x == p.x && q.y == p.y + 1 && q.z == p.z,
        r.no_duplicates(),
        forall|v: Vertex| #[trigger] r.contains(v) <==> is_corner_of(seq![p, q], v),
    ensures
        r.len() == 12,
{
    let c = Seq::new(
        12,
        |t: int|
            if t < 8 {
                corner(p, t)
            } else {
                corner(q, (t - 8) % 2 + 4 * ((t - 8) / 2) + 2)
            },
    );
    assert forall|s: int| 0 <= s < 8 && (s / 2) % 2 == 0 implies corner(q, s) == corner(
        p,
        s + 2,
    ) by {
        assert((s + 2) % 2 == s % 2 && (s + 2) / 4 == s / 4 && ((s + 2) / 2) % 2 == 1);
    }
    assert forall|a: int, b: int| 0 <= a < b < 12 implies c[a] != c[b] by {
        if b < 8 {
            if c[a] == c[b] {
                lemma_corner_injective(p, a, b);
            }
        } else if a >= 8 {
            if c[a] == c[b] {
                lemma_corner_injective(
                    q,
                    (a - 8) % 2 + 4 * ((a - 8) / 2) + 2,
                    (b - 8) % 2 + 4 * ((b - 8) / 2) + 2,
                );
            }
        } else {
            assert(c[a].y == (2 * p.y + corner_sign((a / 2) % 2)) as i64);
            assert(c[b].y == (2 * q.y + 1) as i64);
        }
    }
    assert forall|v: Vertex| r.contains(v) <==> c.contains(v) by {
        if is_corner_of(seq![p, q], v) {
            let (pt, s) = choose|pt: Point3, s: int|
                seq![p, q].contains(pt) && 0 <= s < 8 && v == #[trigger] corner(pt, s);
            assert(pt == seq![p, q][0] || pt == seq![p, q][1]);
            if pt == p {
                assert(c[s] == v);
            } else if (s / 2) % 2 == 0 {
                assert(c[s + 2] == v);
            } else {
                let u = s % 2 + 2 * (s / 4);
                assert(c[8 + u] == corner(q, u % 2 + 4 * (u / 2) + 2));
                assert(u % 2 + 4 * (u / 2) + 2 == s);
                assert(c[8 + u] == v);
            }
            assert(c.contains(v));
        }
        if c.contains(v) {
            let t = choose|t: int| 0 <= t < c.len() && c[t] == v;
            assert(seq![p, q][0] == p && seq![p, q][1] == q);
            assert(seq![p, q].contains(p) && seq![p, q].contains(q));
            if t < 8 {
                assert(v == corner(p, t));
            } else {
                assert(v == corner(q, (t - 8) % 2 + 4 * ((t - 8) / 2) + 2));
                assert(0 <= (t - 8) % 2 + 4 * ((t - 8) / 2) + 2 < 8);
            }
        }
    }
    lemma_adjacent_count_common(p, q, r, c);
}

/// Adjacency along the third axis.
proof fn lemma_adjacent_z(p: Point3, q: Point3, r: Seq<Vertex>)
    requires
        p.bounded(),
        q.bounded(),
        q.x == p.x && q.y == p.y && q.z == p.z + 1,
        r.no_duplicates(),
        forall|v: Vertex| #[trigger] r.contains(v) <==> is_corner_of(seq![p, q], v),
    ensures
        r.len() == 12,
{
    let c = Seq::new(
        12,
        |t: int|
            if t < 8 {
                corner(p, t)
            } else {
                corner(q, t - 8 + 4)
            },
    );
    assert forall|s: int| 0 <= s < 8 && s / 4 == 0 implies corner(q, s) == corner(p, s + 4) by {
        assert((s + 4) % 2 == s % 2 && ((s + 4) / 2) % 2 == (s / 2) % 2 && (s + 4) / 4 == 1);
    }
    assert forall|a: int, b: int| 0 <= a < b < 12 implies c[a] != c[b] by {
        if b < 8 {
            if c[a] == c[b] {
                lemma_corner_injective(p, a, b);
            }
        } else if a >= 8 {
            if c[a] == c[b] {
                lemma_corner_injective(q, a - 4, b - 4);
            }
        } else {
            assert(c[a].z == (2 * p.z + corner_sign((a / 4) % 2)) as i64);
            assert(c[b].z == (2 * q.z + 1) as i64);
        }
    }
    assert forall|v: Vertex| r.contains(v) <==> c.contains(v) by {
        if is_corner_of(seq![p, q], v) {
            let (pt, s) = choose|pt: Point3, s: int|
                seq![p, q].contains(pt) && 0 <= s < 8 && v == #[trigger] corner(pt, s);
            assert(pt == seq![p, q][0] || pt == seq![p, q][1]);
            if pt == p {
                assert(c[s] == v);
            } else if s / 4 == 0 {
                assert(c[s + 4] == v);
            } else {
                assert(c[8 + s - 4] == v);
            }
            assert(c.contains(v));
        }
        if c.contains(v) {
            let t = choose|t: int| 0 <= t < c.len() && c[t] == v;
            assert(seq![p, q][0] == p && seq![p, q][1] == q);
            assert(seq![p, q].contains(p) && seq![p, q].contains(q));
            if t < 8 {
                assert(v == corner(p, t));
            } else {
                assert(v == corner(q, t - 8 + 4) && 0 <= t - 8 + 4 < 8);
            }
        }
    }
    lemma_adjacent_count_common(p, q, r, c);
}

/// The output of the Vertex Expander for two axis-adjacent input points
/// holds exactly twelve vertices — strictly fewer than sixteen, because the
/// four corners of the shared face deduplicate.
pub proof fn lemma_vertices_of_adjacent_points(p: Point3, q: Point3, r: Seq<Vertex>)
    requires
        p.bounded(),
        q.bounded(),
        axis_adjacent(p, q),
        r.no_duplicates(),
        forall|v: Vertex| #[trigger] r.contains(v) <==> is_corner_of(seq![p, q], v),
    ensures
        r.len() == 12,
        r.len() < 16,
{
    if q.x == p.x + 1 {
        lemma_adjacent_x(p, q, r);
    } else if q.y == p.y + 1 {
        lemma_adjacent_y(p, q, r);
    } else {
        lemma_adjacent_z(p, q, r);
    }
}

/// The vertex set is invariant to the order (and multiplicity) in which the
/// lattice points arrive: it depends on the set of input points alone.
pub proof fn lemma_vertices_order_invariant(l1: Seq<Point3>, l2: Seq<Point3>)
    requires
        l1.to_set() == l2.to_set(),
    ensures
        forall|v: Vertex| is_corner_of(l1, v) == is_corner_of(l2, v),
{
    broadcast use vstd::set::group_set_axioms;

    assert forall|v: Vertex| is_corner_of(l1, v) == is_corner_of(l2, v) by {
        if is_corner_of(l1, v) {
            let (pt, s) = choose|pt: Point3, s: int|
                l1.contains(pt) && 0 <= s < 8 && v == #[trigger] corner(pt, s);
            assert(l1.to_set().contains(pt));
            assert(l2.contains(pt));
        }
        if is_corner_of(l2, v) {
            let (pt, s) = choose|pt: Point3, s: int|
                l2.contains(pt) && 0 <= s < 8 && v == #[trigger] corner(pt, s);
            assert(l2.to_set().contains(pt));
            assert(l1.contains(pt));
        }
    }
}

} // verus!
