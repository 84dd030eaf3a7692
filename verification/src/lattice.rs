use vstd::prelude::*;
use vstd::arithmetic::div_mod::lemma_fundamental_div_mod;
use vstd::arithmetic::div_mod::lemma_fundamental_div_mod_converse;
use vstd::arithmetic::div_mod::lemma_multiply_divide_lt;
use vstd::arithmetic::div_mod::lemma_mod_bound;
use vstd::arithmetic::div_mod::lemma_div_pos_is_pos;
use vstd::seq_lib::lemma_seq_concat_contains_all_elements;
use vstd::seq_lib::lemma_no_dup_in_concat;
use rayon::iter::IntoParallelIterator;
use rayon::iter::ParallelIterator;
use crate::point::Point3;
use crate::point::MAX_COORD;
use crate::membership::keep_point;
use crate::membership::keep_point_spec;

verus! {

/// The power `3^n`: the side length of the candidate cube at level `n`.
pub open spec fn pow3(n: nat) -> nat
    decreases n,
{
    if n == 0 {
        1
    } else {
        3 * pow3((n - 1) as nat)
    }
}

/// Membership of a point, as a predicate on `Point3`.
pub open spec fn keeps(p: Point3) -> bool {
    keep_point_spec(p.x as nat, p.y as nat, p.z as nat)
}

/// `keeps` as a first-class function, for `filter`.
pub open spec fn keeps_fn() -> spec_fn(Point3) -> bool {
    |p: Point3| keeps(p)
}

/// All candidate points with first coordinate `x`, in scan order over `y`
/// then `z`.
pub open spec fn plane_points(max: i64, x: i64) -> Seq<Point3> {
    Seq::new(
        (max * max) as nat,
        |i: int|
            Point3 {
                x: x,
                y: (i / (max as int)) as i64,
                z: (i % (max as int)) as i64,
            },
    )
}

/// The kept points with first coordinate `x`, in scan order.
pub open spec fn slice_kept(max: i64, x: i64) -> Seq<Point3> {
    plane_points(max, x).filter(keeps_fn())
}

/// `slice_kept` as a first-class function of `x`, for `flat_map`.
pub open spec fn slice_fn(max: i64) -> spec_fn(i64) -> Seq<Point3> {
    |x: i64| slice_kept(max, x)
}

/// The first-coordinate axis `0, 1, ..., max - 1`.
pub open spec fn axis(max: i64) -> Seq<i64> {
    Seq::new(max as nat, |i: int| i as i64)
}

/// All kept points of the cube `[0, max)^3`, in scan order over `x`, then
/// `y`, then `z`.
pub open spec fn lattice_kept(max: i64) -> Seq<Point3> {
    axis(max).flat_map(slice_fn(max))
}

/// All kept points of the cube at level `n`, whose side is `3^n`.
pub open spec fn lattice_for_level(n: nat) -> Seq<Point3> {
    lattice_kept(pow3(n) as i64)
}

/// Enumerates the plane of candidates with first coordinate `x` and keeps
/// the points that pass the membership test: one unit of the parallel
/// decomposition by outer coordinate.
pub fn lattice_slice(max: i64, x: i64) -> (r: Vec<Point3>)
    requires
        0 <= x < max,
    ensures
        r@ == slice_kept(max, x),
{
    let mut r: Vec<Point3> = Vec::new();
    let ghost plane = plane_points(max, x);
    let mut y: i64 = 0;
    while y < max
        invariant
            0 <= y <= max,
            0 <= x < max,
            plane == plane_points(max, x),
            r@ == plane.take(y as int * max as int).filter(keeps_fn()),
        decreases max - y,
    {
        let mut z: i64 = 0;
        while z < max
            invariant
                0 <= z <= max,
                0 <= y < max,
                0 <= x < max,
                plane == plane_points(max, x),
                r@ == plane.take(y as int * max as int + z as int).filter(keeps_fn()),
            decreases max - z,
        {
            let p = Point3 { x: x, y: y, z: z };
            proof {
                let i = y as int * max as int + z as int;
                assert(0 <= i && i + 1 <= (max as int) * (max as int)) by (nonlinear_arith)
                    requires
                        0 <= y < max,
                        0 <= z < max,
                        i == y as int * max as int + z as int,
                ;
                lemma_fundamental_div_mod_converse(i, max as int, y as int, z as int);
                assert(plane[i] == p);
                plane.lemma_take_succ_push(i);
                plane.take(i).lemma_filter_push(p, keeps_fn());
                assert(keeps_fn()(p) == keeps(p));
            }
            if keep_point(&p) {
                r.push(p);
            }
            z = z + 1;
        }
        proof {
            assert(y as int * max as int + max as int == (y as int + 1) * max as int)
                by (nonlinear_arith);
        }
        y = y + 1;
    }
    proof {
        assert(plane.take(max as int * max as int) =~= plane);
    }
    r
}

/// Fans the per-`x` slices out over a thread pool and concatenates the
/// surviving points in axis order.
///
/// Relies on rayon's `into_par_iter`, `flat_map_iter` and `collect`: the
/// parallel iterator yields, for each `x` of the range in order, exactly the
/// points of `lattice_slice(max, x)`, and collecting into a `Vec` keeps the
/// items in the same order as the equivalent sequential iterator.
#[verifier::external_body]
fn collect_slices(max: i64) -> (r: Vec<Point3>)
    requires
        0 < max,
    ensures
        r@ == lattice_kept(max),
{
    (0..max).into_par_iter().flat_map_iter(|x| lattice_slice(max, x)).collect()
}

/// `pow3` grows monotonically.
proof fn lemma_pow3_increases(a: nat, b: nat)
    requires
        a <= b,
    ensures
        pow3(a) <= pow3(b),
    decreases b,
{
    if a < b {
        lemma_pow3_increases(a, (b - 1) as nat);
    }
}

/// The numeric value of `pow3(39)`, the largest admissible cube side:
/// every coordinate below it leaves its corner vertices representable.
proof fn lemma_pow3_39()
    ensures
        pow3(39) == 4052555153018976267,
        pow3(39) <= MAX_COORD as int,
{
    reveal_with_fuel(pow3, 40);
}

/// Computes `3^n` exactly.
fn pow3_exec(n: u32) -> (r: i64)
    requires
        n <= 39,
    ensures
        r == pow3(n as nat),
        0 < r <= MAX_COORD,
{
    proof {
        lemma_pow3_39();
    }
    let mut m: i64 = 1;
    let mut i: u32 = 0;
    while i < n
        invariant
            i <= n <= 39,
            1 <= m,
            m == pow3(i as nat),
            pow3(39) <= MAX_COORD as int,
        decreases n - i,
    {
        proof {
            lemma_pow3_increases((i + 1) as nat, 39);
        }
        m = m * 3;
        i = i + 1;
    }
    proof {
        lemma_pow3_increases(n as nat, 39);
    }
    m
}

/// The Lattice Generator: enumerates the cube `[0, 3^n)^3` across parallel
/// workers partitioned by the outer coordinate, and returns exactly the
/// points that the membership test keeps, in scan order over `x`, `y`, `z`.
///
/// The bound on `n` is a machine limit: it keeps `3^n`, and the corner
/// vertices of every kept point, inside `i64`.
pub fn generate_lattice_conc(n: u32) -> (r: Vec<Point3>)
    requires
        n <= 39,
    ensures
        r@ == lattice_for_level(n as nat),
{
    let max = pow3_exec(n);
    collect_slices(max)
}

/// A point stands in the candidate plane of first coordinate `x` exactly
/// when its other two coordinates lie in `[0, max)`.
proof fn lemma_plane_points_membership(max: i64, x: i64, p: Point3)
    requires
        0 < max,
    ensures
        plane_points(max, x).contains(p) <==> (p.x == x && 0 <= p.y < max && 0 <= p.z < max),
{
    let plane = plane_points(max, x);
    let m = max as int;
    assert(plane.len() == m * m) by (nonlinear_arith)
        requires
            0 < m,
            plane.len() == (m * m) as nat,
    ;
    if plane.contains(p) {
        let i = choose|i: int| 0 <= i < plane.len() && plane[i] == p;
        lemma_multiply_divide_lt(i, m, m);
        lemma_div_pos_is_pos(i, m);
        lemma_mod_bound(i, m);
    }
    if p.x == x && 0 <= p.y < max && 0 <= p.z < max {
        let i = p.y as int * m + p.z as int;
        assert(0 <= i && i < m * m) by (nonlinear_arith)
            requires
                0 < m,
                0 <= p.y < m,
                0 <= p.z < m,
                i == p.y as int * m + p.z as int,
        ;
        lemma_fundamental_div_mod_converse(i, m, p.y as int, p.z as int);
        assert(plane[i] == p);
    }
}

/// A point stands in the kept slice of first coordinate `x` exactly when it
/// stands in that plane and the membership test keeps it.
pub proof fn lemma_slice_kept_membership(max: i64, x: i64, p: Point3)
    requires
        0 < max,
    ensures
        slice_kept(max, x).contains(p) <==> (p.x == x && 0 <= p.y < max && 0 <= p.z < max
            && keeps(p)),
{
    let plane = plane_points(max, x);
    lemma_plane_points_membership(max, x, p);
    if slice_kept(max, x).contains(p) {
        plane.lemma_filter_contains_rev(keeps_fn(), p);
        let i = choose|i: int|
            0 <= i < plane.filter(keeps_fn()).len() && plane.filter(keeps_fn())[i] == p;
        plane.lemma_filter_pred(keeps_fn(), i);
    }
    if plane.contains(p) && keeps(p) {
        let i = choose|i: int| 0 <= i < plane.len() && plane[i] == p;
        plane.lemma_filter_contains(keeps_fn(), i);
    }
}

/// A point stands in the flat-mapped prefix of the first `t` slices exactly
/// when it stands in one of those slices.
proof fn lemma_prefix_membership(max: i64, t: int, p: Point3)
    requires
        0 < max,
        0 <= t <= max,
    ensures
        axis(max).take(t).flat_map(slice_fn(max)).contains(p) <==> (0 <= p.x < t && 0 <= p.y < max
            && 0 <= p.z < max && keeps(p)),
    decreases t,
{
    let f = slice_fn(max);
    let ax = axis(max);
    if t == 0 {
        assert(ax.take(0).flat_map(f) =~= Seq::<Point3>::empty());
        assert(ax.take(0).flat_map(f).len() == 0);
    } else {
        lemma_prefix_membership(max, t - 1, p);
        ax.lemma_flat_map_take_append(f, t - 1);
        lemma_seq_concat_contains_all_elements(
            ax.take(t - 1).flat_map(f),
            f(ax[t - 1]),
            p,
        );
        assert(f(ax[t - 1]) == slice_kept(max, (t - 1) as i64));
        lemma_slice_kept_membership(max, (t - 1) as i64, p);
    }
}

/// Which points the Generator's output holds: exactly the points of the
/// cube `[0, max)^3` that the membership test keeps.
pub proof fn lemma_lattice_kept_membership(max: i64, p: Point3)
    requires
        0 < max,
    ensures
        lattice_kept(max).contains(p) <==> (0 <= p.x < max && 0 <= p.y < max && 0 <= p.z < max
            && keeps(p)),
{
    let ax = axis(max);
    assert(ax.take(max as int) =~= ax);
    lemma_prefix_membership(max, max as int, p);
}

/// Every point of the Generator's output at an admissible level is bounded:
/// its coordinates lie in `[0, 3^n)`, and its corner vertices fit in `i64`.
pub proof fn lemma_lattice_level_bounded(n: nat)
    requires
        n <= 39,
    ensures
        0 < pow3(n) <= MAX_COORD as int,
        forall|i: int|
            0 <= i < lattice_for_level(n).len() ==> (#[trigger] lattice_for_level(n)[i]).bounded(),
{
    lemma_pow3_increases(n, 39);
    lemma_pow3_39();
    lemma_pow3_increases(0, n);
    let max = pow3(n) as i64;
    assert forall|i: int|
        0 <= i < lattice_for_level(n).len() implies (#[trigger] lattice_for_level(
        n,
    )[i]).bounded() by {
        let p = lattice_for_level(n)[i];
        assert(lattice_kept(max).contains(p));
        lemma_lattice_kept_membership(max, p);
    }
}

/// `filter` keeps a duplicate-free sequence duplicate-free.
proof fn lemma_filter_preserves_no_duplicates(s: Seq<Point3>, pred: spec_fn(Point3) -> bool)
    requires
        s.no_duplicates(),
    ensures
        s.filter(pred).no_duplicates(),
    decreases s.len(),
{
    reveal(Seq::filter);
    if s.len() > 0 {
        let rest = s.drop_last();
        let last = s.last();
        lemma_filter_preserves_no_duplicates(rest, pred);
        if pred(last) {
            assert(!rest.filter(pred).contains(last)) by {
                if rest.filter(pred).contains(last) {
                    rest.lemma_filter_contains_rev(pred, last);
                    let i = choose|i: int| 0 <= i < rest.len() && rest[i] == last;
                    assert(s[i] == s[s.len() - 1]);
                }
            }
            let out = rest.filter(pred).push(last);
            assert forall|a: int, b: int| 0 <= a < b < out.len() implies out[a] != out[b] by {
                if b == out.len() - 1 {
                    assert(out[a] == rest.filter(pred)[a]);
                }
            }
        }
    }
}

/// The candidate plane lists each of its points once.
proof fn lemma_plane_points_no_duplicates(max: i64, x: i64)
    requires
        0 < max,
    ensures
        plane_points(max, x).no_duplicates(),
{
    let plane = plane_points(max, x);
    let m = max as int;
    assert forall|a: int, b: int| 0 <= a < b < plane.len() implies plane[a] != plane[b] by {
        lemma_multiply_divide_lt(a, m, m);
        lemma_multiply_divide_lt(b, m, m);
        lemma_div_pos_is_pos(a, m);
        lemma_div_pos_is_pos(b, m);
        lemma_mod_bound(a, m);
        lemma_mod_bound(b, m);
        if plane[a] == plane[b] {
            assert(a / m == b / m && a % m == b % m);
            lemma_fundamental_div_mod(a, m);
            lemma_fundamental_div_mod(b, m);
        }
    }
}

/// Each slice lists each kept point once.
proof fn lemma_slice_kept_no_duplicates(max: i64, x: i64)
    requires
        0 < max,
    ensures
        slice_kept(max, x).no_duplicates(),
{
    lemma_plane_points_no_duplicates(max, x);
    lemma_filter_preserves_no_duplicates(plane_points(max, x), keeps_fn());
}

/// The flat-mapped prefix of the first `t` slices holds no duplicates:
/// slices of distinct first coordinates are disjoint.
proof fn lemma_prefix_no_duplicates(max: i64, t: int)
    requires
        0 < max,
        0 <= t <= max,
    ensures
        axis(max).take(t).flat_map(slice_fn(max)).no_duplicates(),
    decreases t,
{
    let f = slice_fn(max);
    let ax = axis(max);
    if t == 0 {
        assert(ax.take(0).flat_map(f) =~= Seq::<Point3>::empty());
    } else {
        lemma_prefix_no_duplicates(max, t - 1);
        ax.lemma_flat_map_take_append(f, t - 1);
        let a = ax.take(t - 1).flat_map(f);
        let b = slice_kept(max, (t - 1) as i64);
        assert(f(ax[t - 1]) == b);
        lemma_slice_kept_no_duplicates(max, (t - 1) as i64);
        assert forall|i: int, j: int|
            0 <= i < a.len() && 0 <= j < b.len() implies a[i] != b[j] by {
            assert(a.contains(a[i]));
            lemma_prefix_membership(max, t - 1, a[i]);
            assert(b.contains(b[j]));
            lemma_slice_kept_membership(max, (t - 1) as i64, b[j]);
        }
        lemma_no_dup_in_concat(a, b);
    }
}

/// The Generator's output is a set: no point appears twice in the scan.
pub proof fn lemma_lattice_kept_no_duplicates(max: i64)
    requires
        0 < max,
    ensures
        lattice_kept(max).no_duplicates(),
        lattice_kept(max).to_set().len() == lattice_kept(max).len(),
{
    assert(axis(max).take(max as int) =~= axis(max));
    lemma_prefix_no_duplicates(max, max as int);
    lattice_kept(max).unique_seq_to_set();
}

/// Determinism of the Generator: its output at a level is a single, fixed
/// sequence, so two runs with the same level — whatever the worker count —
/// return the same points, and in particular the same set of kept points.
pub proof fn lemma_generator_deterministic(a: Seq<Point3>, b: Seq<Point3>, n: nat)
    requires
        a == lattice_for_level(n),
        b == lattice_for_level(n),
    ensures
        a == b,
        a.to_set() == b.to_set(),
{
}

} // verus!
