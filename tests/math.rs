use capsule_memory::numeric::{simple_hash, SCALE};
use capsule_memory::text::{bytes_less, find_bytes, push_decimal};
use capsule_memory::vector_math::{
    cosine_similarity, dot_product, euclidean_distance, int_sqrt, normalize_vector,
};

#[test]
fn hash_of_short_strings() {
    assert_eq!(simple_hash(""), 0);
    assert_eq!(simple_hash("a"), 97);
    assert_eq!(simple_hash("ab"), 97 * 31 + 98);
}

#[test]
fn integer_square_roots() {
    assert_eq!(int_sqrt(0), 0);
    assert_eq!(int_sqrt(15), 3);
    assert_eq!(int_sqrt(16), 4);
    assert_eq!(int_sqrt(1_000_000_000_000), 1_000_000);
}

#[test]
fn cosine_and_distance_values() {
    let a = vec![SCALE, 0];
    let b = vec![0, SCALE];
    let c = vec![3 * SCALE, 4 * SCALE];
    assert_eq!(cosine_similarity(&a, &a), SCALE);
    assert_eq!(cosine_similarity(&a, &b), 0);
    assert_eq!(cosine_similarity(&a, &c), 600_000);
    assert_eq!(cosine_similarity(&a, &vec![0, 0]), 0);
    assert_eq!(euclidean_distance(&a, &b), 1_414_213);
    assert_eq!(dot_product(&a, &c), 3 * SCALE as i128 * SCALE as i128);
}

#[test]
fn normalization_to_unit_length() {
    let mut v = vec![3 * SCALE, -4 * SCALE];
    normalize_vector(&mut v);
    assert_eq!(v, vec![600_000, -800_000]);
    let mut z = vec![0, 0];
    normalize_vector(&mut z);
    assert_eq!(z, vec![0, 0]);
}

#[test]
fn byte_order_and_search() {
    assert!(bytes_less(b"ab", b"b"));
    assert!(bytes_less(b"a", b"ab"));
    assert!(!bytes_less(b"b", b"b"));
    assert!(find_bytes(b"sleep_pattern", b"pattern"));
    assert!(!find_bytes(b"patter", b"pattern"));
}

#[test]
fn decimal_rendering() {
    let mut s = String::from("x_");
    push_decimal(&mut s, 0);
    assert_eq!(s, "x_0");
    let mut t = String::new();
    push_decimal(&mut t, 1_234_567);
    assert_eq!(t, "1234567");
}
