use fractal_slicer::are_at_least_two_positive;
use fractal_slicer::generate_lattice_conc;
use fractal_slicer::keep_point;
use fractal_slicer::Point3;

#[test]
fn lattice_size() {
    let c: u16 = 20;
    let max_val = 3;
    for n in 1..max_val {
        assert_eq!(generate_lattice_conc(n).len(), c.pow(n).into());
    }
}

#[test]
fn main_lattice_size() {
    let c: u16 = 20;
    let max_val = 3;
    for n in 1..max_val {
        assert_eq!(generate_lattice_conc(n).len(), c.pow(n).into());
    }
}

#[test]
fn keep_point_true() {
    let test_point = Point3 { x: 2, y: 2, z: 2 };
    assert!(keep_point(&test_point));
}

#[test]
fn main_keep_point_true() {
    let test_point = Point3 { x: 2, y: 2, z: 2 };
    assert!(keep_point(&test_point));
}

#[test]
fn keep_point_false() {
    let test_point = Point3 { x: 4, y: 5, z: 3 };
    assert!(!keep_point(&test_point));
}

#[test]
fn main_keep_point_false() {
    let test_point = Point3 { x: 4, y: 5, z: 3 };
    assert!(!keep_point(&test_point));
}

#[test]
fn are_at_least_two_positive_true() {
    assert!(are_at_least_two_positive(1, 3, 4));
    assert!(are_at_least_two_positive(0, 3, 4));
    assert!(are_at_least_two_positive(-1, 3, 4));
    assert!(are_at_least_two_positive(1, -3, 4));
    assert!(are_at_least_two_positive(1, 3, -4));
}

#[test]
fn are_at_least_two_positive_false() {
    assert!(!are_at_least_two_positive(0, 0, 0));
    assert!(!are_at_least_two_positive(-1, -4, 7));
    assert!(!are_at_least_two_positive(1, -4, -7));
    assert!(!are_at_least_two_positive(-1, 4, -7));
}

#[test]
fn are_at_least_two_positive_pairings() {
    assert!(are_at_least_two_positive(1, 1, 0));
    assert!(are_at_least_two_positive(1, 0, 1));
    assert!(are_at_least_two_positive(0, 1, 1));
    assert!(!are_at_least_two_positive(1, 0, 0));
    assert!(!are_at_least_two_positive(0, 1, 0));
    assert!(!are_at_least_two_positive(0, 0, 1));
}

#[test]
fn keep_point_first_level_exclusion() {
    // Digits (1, 1, 0) at the lowest level: two middle-third digits.
    assert!(!keep_point(&Point3 { x: 1, y: 1, z: 0 }));
    // A single positive coordinate never reaches an exclusion.
    assert!(keep_point(&Point3 { x: 1, y: 0, z: 0 }));
}

#[test]
fn keep_point_second_level_exclusion() {
    // 3 = 10 in base 3: the exclusion appears one recursion level down.
    assert!(!keep_point(&Point3 { x: 3, y: 3, z: 3 }));
}

#[test]
fn end_to_end_level_one() {
    // The candidate cube at level 1 is [0,3)^3 = 27 points; 20 survive.
    let lattice = generate_lattice_conc(1);
    assert_eq!(lattice.len(), 20);
    let mut kept: usize = 0;
    for x in 0..3 {
        for y in 0..3 {
            for z in 0..3 {
                let p = Point3 { x, y, z };
                if keep_point(&p) {
                    kept += 1;
                    assert!(lattice.contains(&p));
                } else {
                    assert!(!lattice.contains(&p));
                }
            }
        }
    }
    assert_eq!(kept, 20);
}

#[test]
fn level_zero_single_point() {
    let lattice = generate_lattice_conc(0);
    assert_eq!(lattice.len(), 1);
    assert_eq!(lattice[0], Point3 { x: 0, y: 0, z: 0 });
}

#[test]
fn determinism_across_worker_counts() {
    let single = rayon::ThreadPoolBuilder::new()
        .num_threads(1)
        .build()
        .unwrap();
    let several = rayon::ThreadPoolBuilder::new()
        .num_threads(4)
        .build()
        .unwrap();
    let a = single.install(|| generate_lattice_conc(2));
    let b = several.install(|| generate_lattice_conc(2));
    let set_a: std::collections::HashSet<Point3> = a.iter().copied().collect();
    let set_b: std::collections::HashSet<Point3> = b.iter().copied().collect();
    assert_eq!(set_a, set_b);
    assert_eq!(a.len(), b.len());
}
