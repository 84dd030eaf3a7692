use vstd::prelude::*;
use crate::point::Point3;

verus! {

/// Both members of a pair carry the base-3 digit 1 (the "middle third")
/// at the current recursion level.
pub open spec fn pair_mid_digit(a: nat, b: nat) -> bool {
    a % 3 == 1 && b % 3 == 1
}

/// The exclusion predicate: some pair among the three coordinates shows the
/// middle-third digit simultaneously at the current recursion level.
pub open spec fn excluded_triple(i: nat, j: nat, k: nat) -> bool {
    pair_mid_digit(i, j) || pair_mid_digit(i, k) || pair_mid_digit(j, k)
}

/// How many of the three values are strictly positive.
pub open spec fn pos_count(i: int, j: int, k: int) -> int {
    (if i > 0 {
        1int
    } else {
        0int
    }) + (if j > 0 {
        1int
    } else {
        0int
    }) + (if k > 0 {
        1int
    } else {
        0int
    })
}

/// Membership of a lattice point in the fractal set: walk down the base-3
/// digit expansions of the three coordinates, rejecting the point as soon as
/// the exclusion predicate holds, and accepting once fewer than two
/// coordinates remain positive (no further exclusion is then possible, since
/// exclusion needs two co-occurring middle-third digits).
pub open spec fn keep_point_spec(i: nat, j: nat, k: nat) -> bool
    decreases i + j + k,
{
    if pos_count(i as int, j as int, k as int) >= 2 {
        if excluded_triple(i, j, k) {
            false
        } else {
            keep_point_spec(i / 3, j / 3, k / 3)
        }
    } else {
        true
    }
}

/// True when some pair among the three coordinates has remainder 1 modulo 3:
/// the exclusion test for one recursion level.
pub fn is_condition_met(i: i64, j: i64, k: i64) -> (r: bool)
    requires
        0 <= i,
        0 <= j,
        0 <= k,
    ensures
        r == excluded_triple(i as nat, j as nat, k as nat),
{
    (i % 3 == 1 && j % 3 == 1) || (i % 3 == 1 && k % 3 == 1) || (j % 3 == 1 && k % 3 == 1)
}

/// True if and only if at least two of the three inputs are strictly
/// positive: the guard that bounds the digit recursion.
pub fn are_at_least_two_positive(i: i64, j: i64, k: i64) -> (r: bool)
    ensures
        r == (pos_count(i as int, j as int, k as int) >= 2),
{
    (i > 0 && j > 0) || (i > 0 && k > 0) || (j > 0 && k > 0)
}

/// The membership test: returns whether `point` belongs to the fractal set,
/// examining one base-3 digit of each coordinate per iteration.
pub fn keep_point(point: &Point3) -> (r: bool)
    requires
        point.nonneg(),
    ensures
        r == keep_point_spec(point.x as nat, point.y as nat, point.z as nat),
{
    let mut i: i64 = point.x;
    let mut j: i64 = point.y;
    let mut k: i64 = point.z;

    while are_at_least_two_positive(i, j, k)
        invariant
            0 <= i && 0 <= j && 0 <= k,
            keep_point_spec(point.x as nat, point.y as nat, point.z as nat)
                == keep_point_spec(i as nat, j as nat, k as nat),
        decreases i + j + k,
    {
        if is_condition_met(i, j, k) {
            return false;
        }
        i = i / 3;
        j = j / 3;
        k = k / 3;
    }
    true
}

} // verus!
