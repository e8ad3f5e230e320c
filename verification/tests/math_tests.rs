use character_controller::fixed::{fx_mul, isqrt, mul_div, ONE};
use character_controller::vec3::Vec3;

#[test]
fn isqrt_small_values() {
    assert_eq!(isqrt(0), 0);
    assert_eq!(isqrt(1), 1);
    assert_eq!(isqrt(3), 1);
    assert_eq!(isqrt(4), 2);
    assert_eq!(isqrt(999_999), 999);
    assert_eq!(isqrt(1_000_000), 1000);
}

#[test]
fn isqrt_scale_values() {
    assert_eq!(isqrt(1_000_000_000_000), 1_000_000);
    assert_eq!(isqrt(999_999_300_625), 999_999);
    assert_eq!(isqrt(2 * 83_335 * 83_335), 117_853);
}

#[test]
fn fx_mul_rounds_toward_zero() {
    assert_eq!(fx_mul(5_000_000, 16_667), 83_335);
    assert_eq!(fx_mul(-5_000_000, 16_667), -83_335);
    assert_eq!(fx_mul(9_810_000, 16_667), 163_503);
    assert_eq!(fx_mul(1, 999_999), 0);
    assert_eq!(fx_mul(-1, 999_999), 0);
}

#[test]
fn mul_div_exact_ratio() {
    assert_eq!(mul_div(3_000_000, 4_499_990, 5_000_000), 2_699_994);
    assert_eq!(mul_div(4_000_000, 4_499_990, 5_000_000), 3_599_992);
    assert_eq!(mul_div(-83_335, 50_100, 83_335), -50_100);
}

#[test]
fn vector_length_and_components() {
    let v = Vec3 { x: 3_000_000, y: 4_000_000, z: 0 };
    assert_eq!(v.length(), 5_000_000);
    let d = Vec3 { x: -83_335, y: 0, z: -83_335 };
    assert_eq!(d.length(), 117_853);
    assert_eq!(Vec3 { x: 0, y: 0, z: 0 }.length(), 0);
}

#[test]
fn vector_add_sub_scale() {
    let a = Vec3 { x: 1, y: -2, z: 3 };
    let b = Vec3 { x: 10, y: 20, z: -30 };
    assert_eq!(a.plus(b), Vec3 { x: 11, y: 18, z: -27 });
    assert_eq!(a.minus(b), Vec3 { x: -9, y: -22, z: 33 });
    let v = Vec3 { x: 5_000_000, y: -2_000_000, z: 1_000_000 };
    let s = v.scale_fx(16_667);
    assert_eq!(s, Vec3 { x: 83_335, y: -33_334, z: 16_667 });
}

#[test]
fn rejection_drops_normal_component_exactly() {
    let v = Vec3 { x: 3_000_000, y: -1_234_567, z: 42 };
    let up = Vec3 { x: 0, y: ONE, z: 0 };
    let r = v.reject_from(up);
    assert_eq!(r, Vec3 { x: 3_000_000, y: 0, z: 42 });
    assert_eq!(r.dot(up), 0);
}

#[test]
fn rejection_head_on_yields_zero() {
    let v = Vec3 { x: -33_335, y: 0, z: 0 };
    let n = Vec3 { x: ONE, y: 0, z: 0 };
    assert_eq!(v.reject_from(n), Vec3 { x: 0, y: 0, z: 0 });
}

#[test]
fn rejection_on_tilted_normal_is_nearly_orthogonal() {
    // A sixty-degree slope normal; the residual along the normal stays
    // below the sum of the normal's component magnitudes.
    let v = Vec3 { x: 1_000_000, y: -2_000_000, z: 500_000 };
    let n = Vec3 { x: 866_025, y: 500_000, z: 0 };
    let r = v.reject_from(n);
    let residual = r.dot(n);
    assert!(residual.abs() < 866_025 + 500_000);
}

#[test]
fn clamp_length_rescales_exactly() {
    let v = Vec3 { x: 3_000_000, y: 4_000_000, z: 0 };
    let c = v.clamp_length(2_500_000);
    assert_eq!(c, Vec3 { x: 1_500_000, y: 2_000_000, z: 0 });
    let short = Vec3 { x: 10, y: 20, z: 30 };
    assert_eq!(short.clamp_length(1_000_000), short);
}
