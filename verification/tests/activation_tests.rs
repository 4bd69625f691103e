use prime_net::activation::{leaky_relu, relu, sigmoid};

#[test]
fn test_sigmoid() {
    let approx = f32::from_bits(sigmoid(0.0f32.to_bits()));
    assert!((approx - 0.5).abs() < 1e-5);
}

#[test]
fn test_relu() {
    assert_eq!(f32::from_bits(relu(0.0f32.to_bits())), 0.0);
    assert_eq!(f32::from_bits(relu(1.5f32.to_bits())), 1.5);
    assert_eq!(f32::from_bits(relu((-2.0f32).to_bits())), 0.0);
}

#[test]
fn relu_is_the_maximum_with_zero() {
    for v in [-7.5f32, -0.0, 0.0, 0.25, 3.0, 100.0] {
        assert_eq!(f32::from_bits(relu(v.to_bits())), v.max(0.0));
    }
}

#[test]
fn sigmoid_increases_with_its_argument() {
    let xs = [-6.0f32, -2.0, -0.5, 0.0, 0.5, 2.0, 6.0];
    for w in xs.windows(2) {
        let lo = f32::from_bits(sigmoid(w[0].to_bits()));
        let hi = f32::from_bits(sigmoid(w[1].to_bits()));
        assert!(lo < hi);
    }
}

#[test]
fn sigmoid_matches_the_logistic_formula() {
    for v in [-3.0f32, -1.0, 0.5, 2.0] {
        let got = f32::from_bits(sigmoid(v.to_bits()));
        let want = 1.0f32 / (1.0 + (-v).exp());
        assert!((got - want).abs() < 1e-6, "{} vs {}", got, want);
    }
}

#[test]
fn leaky_relu_keeps_a_hundredth_below_zero() {
    assert_eq!(f32::from_bits(leaky_relu(3.0f32.to_bits())), 3.0);
    assert_eq!(f32::from_bits(leaky_relu((-2.0f32).to_bits())), 0.01f32 * -2.0);
    assert_eq!(f32::from_bits(leaky_relu(0.0f32.to_bits())), 0.01f32 * 0.0);
}
