use prime_net::dataset::{generate_dataset, is_prime, number_to_input, u16_to_bin_vector};

#[test]
fn test_u16_to_bin_vector() {
    assert_eq!(u16_to_bin_vector(0), vec![0, 0, 0, 0, 0, 0, 0, 0, 0, 0]);
    assert_eq!(u16_to_bin_vector(1), vec![0, 0, 0, 0, 0, 0, 0, 0, 0, 1]);
    assert_eq!(u16_to_bin_vector(1023), vec![1, 1, 1, 1, 1, 1, 1, 1, 1, 1]);
    assert_eq!(u16_to_bin_vector(5), vec![0, 0, 0, 0, 0, 0, 0, 1, 0, 1]);
}

#[test]
fn test_is_prime() {
    let primes = [2, 3, 5, 7, 11, 13, 17, 19, 23, 29];
    let non_primes = [0, 1, 4, 6, 8, 9, 10, 12, 14, 15];

    for &p in primes.iter() {
        assert!(is_prime(p), "{} should be prime", p);
    }
    for &n in non_primes.iter() {
        assert!(!is_prime(n), "{} should not be prime", n);
    }
}

#[test]
fn test_generate_dataset_size() {
    let data = generate_dataset();
    assert_eq!(data.len(), 1024);
}

#[test]
fn dataset_encodings_and_labels() {
    let data = generate_dataset();
    assert_eq!(data[0].0, vec![0, 0, 0, 0, 0, 0, 0, 0, 0, 0]);
    assert_eq!(data[5].0, vec![0, 0, 0, 0, 0, 0, 0, 1, 0, 1]);
    assert_eq!(data[1023].0, vec![1, 1, 1, 1, 1, 1, 1, 1, 1, 1]);
    assert_eq!(data[0].1, 0);
    assert_eq!(data[1].1, 0);
    assert_eq!(data[2].1, 1);
    assert_eq!(data[3].1, 1);
    assert_eq!(data[5].1, 1);
    assert_eq!(data[7].1, 1);
    assert_eq!(data[9].1, 0);
}

#[test]
fn number_to_input_matches_encoder() {
    for n in [0u16, 1, 5, 511, 1023] {
        assert_eq!(number_to_input(n), u16_to_bin_vector(n));
    }
}
