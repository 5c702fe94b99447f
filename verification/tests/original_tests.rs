use mathematical_engine::exp::exp_fixed;
use mathematical_engine::muldiv::mul_div;
use mathematical_engine::sqrt::sqrt_fixed;
use mathematical_engine::SCALE_18;

#[test]
fn test_sqrt() {
    assert_eq!(sqrt_fixed(0), 0);
    assert_eq!(sqrt_fixed(1), 1);
    assert_eq!(sqrt_fixed(4), 2);
    assert_eq!(sqrt_fixed(9), 3);
    assert_eq!(sqrt_fixed(16), 4);
    assert_eq!(sqrt_fixed(625), 25);
    assert_eq!(sqrt_fixed(1000000), 1000);
}

#[test]
fn test_mul_div() {
    // basic multiplication and division
    assert_eq!(mul_div(100, 200, 50), 400);
    assert_eq!(mul_div(1000, 1000, 1000), 1000);

    // with scaling
    let result = mul_div(SCALE_18, 2, SCALE_18);
    assert_eq!(result, 2);
}

#[test]
fn test_exp_approximation() {
    // e^0 = 1
    assert_eq!(exp_fixed(0), SCALE_18);

    // e^1 = 2.718...
    let e1 = exp_fixed(SCALE_18);
    assert!(e1 > 2 * SCALE_18);
    assert!(e1 < 3 * SCALE_18);
}
