use softraster::geometry::Vec2D;
use softraster::geometry::Vec3D;

#[test]
fn add_then_subtract_gives_the_vector_back() {
    let a = Vec3D { x: 3, y: -7, z: 11 };
    let b = Vec3D { x: -20, y: 5, z: 8 };
    let c = (a + b) - b;
    assert_eq!((c.x, c.y, c.z), (3, -7, 11));
    let p = Vec2D { x: 1u32, y: 2u32 };
    let q = Vec2D { x: 10u32, y: 20u32 };
    let r = (p + q) - q;
    assert_eq!((r.x, r.y), (1, 2));
}

#[test]
fn dot_product_is_the_sum_of_products() {
    let a = Vec3D { x: 1, y: 2, z: 3 };
    let b = Vec3D { x: 4, y: -5, z: 6 };
    assert_eq!(a * b, 4 - 10 + 18);
}

#[test]
fn cross_product_is_right_handed_and_perpendicular() {
    let x = Vec3D { x: 1, y: 0, z: 0 };
    let y = Vec3D { x: 0, y: 1, z: 0 };
    let z = x.cross(y);
    assert_eq!((z.x, z.y, z.z), (0, 0, 1));
    let a = Vec3D { x: 2, y: -3, z: 5 };
    let b = Vec3D { x: 7, y: 11, z: -13 };
    let c = a.cross(b);
    assert_eq!((c.x, c.y, c.z), (39 - 55, 35 + 26, 22 + 21));
    assert_eq!(c * a, 0);
    assert_eq!(c * b, 0);
}

#[test]
fn bounds_accumulate_component_wise_and_chain() {
    let mut lo = Vec3D { x: 1, y: 5, z: 3 };
    let mut hi = lo;
    lo.min_bound(Vec3D { x: 2, y: 4, z: 3 }).min_bound(Vec3D { x: 0, y: 9, z: 9 });
    hi.max_bound(Vec3D { x: 2, y: 4, z: 3 }).max_bound(Vec3D { x: 0, y: 9, z: 9 });
    assert_eq!((lo.x, lo.y, lo.z), (0, 4, 3));
    assert_eq!((hi.x, hi.y, hi.z), (2, 9, 9));
}

#[test]
fn bounds_work_on_floating_point_elements() {
    let mut lo = Vec3D { x: 0.5f64, y: 0.25, z: -1.0 };
    lo.min_bound(Vec3D { x: 0.75, y: -0.25, z: -1.0 });
    assert_eq!((lo.x, lo.y, lo.z), (0.5, -0.25, -1.0));
}

#[test]
fn scale_multiplies_each_component() {
    let a = Vec3D { x: 2, y: -3, z: 5 };
    let b = a.scale(4);
    assert_eq!((b.x, b.y, b.z), (8, -12, 20));
    let c = Vec3D { x: 0.5f64, y: 1.0, z: -2.0 }.scale(3.0);
    assert_eq!((c.x, c.y, c.z), (1.5, 3.0, -6.0));
}

#[test]
fn normalized_vector_has_length_one() {
    let vectors = [
        Vec3D { x: 3.0f64, y: 0.0, z: 4.0 },
        Vec3D { x: 0.0, y: 0.0, z: -1.0 },
        Vec3D { x: 1.0, y: 2.0, z: 3.0 },
        Vec3D { x: -1e-3, y: 5e4, z: 0.25 },
    ];
    for v in vectors {
        let n = v.normalized((v * v).sqrt(), 0.0);
        assert!(((n * n).sqrt() - 1.0).abs() < 1e-12);
    }
    let n = Vec3D { x: 3.0f64, y: 0.0, z: 4.0 }.normalized(5.0, 0.0);
    assert_eq!((n.x, n.y, n.z), (0.6, 0.0, 0.8));
}

#[test]
fn normalized_zero_vector_is_the_zero_vector() {
    let zero = Vec3D { x: 0.0f64, y: 0.0, z: 0.0 };
    let n = zero.normalized((zero * zero).sqrt(), 0.0);
    assert_eq!((n.x, n.y, n.z), (0.0, 0.0, 0.0));
    let whole = Vec3D { x: 0, y: 0, z: 0 }.normalized(0, 0);
    assert_eq!((whole.x, whole.y, whole.z), (0, 0, 0));
    let halved = Vec3D { x: 4, y: -6, z: 9 }.normalized(2, 0);
    assert_eq!((halved.x, halved.y, halved.z), (2, -3, 4));
}

#[test]
fn float_vectors_obey_the_laws_within_tolerance() {
    let a = Vec3D { x: 0.1f64, y: -2.5, z: 7.75 };
    let b = Vec3D { x: 3.3f64, y: 0.7, z: -1.2 };
    let c = (a + b) - b;
    assert!((c.x - a.x).abs() < 1e-12 && (c.y - a.y).abs() < 1e-12 && (c.z - a.z).abs() < 1e-12);
    let n = a.cross(b);
    assert!((n * a).abs() < 1e-12);
    assert!((n * b).abs() < 1e-12);
}
