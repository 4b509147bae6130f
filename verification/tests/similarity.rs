use perf_tools::cosine;
use perf_tools::hash_ngrams;
use perf_tools::similarity::{squared_norm, Cosine};
use perf_tools::wide::Wide;

fn small(n: u128) -> Wide {
    Wide { high: 0, low: n }
}

fn number(w: Wide) -> f64 {
    (w.high as f64) * 2f64.powi(128) + (w.low as f64)
}

fn value(c: Cosine) -> f64 {
    match c {
        Cosine::Zero => 0.0,
        Cosine::Ratio { dot, norm_a_sq, norm_b_sq } => {
            number(dot) / (number(norm_a_sq).sqrt() * number(norm_b_sq).sqrt())
        }
    }
}

#[test]
fn cosine_of_orthogonal_vectors_is_zero() {
    let c = cosine(&[1, 0], &[0, 1]);
    assert_eq!(c, Cosine::Ratio { dot: small(0), norm_a_sq: small(1), norm_b_sq: small(1) });
    assert!(c.is_zero());
    assert_eq!(value(c), 0.0);
}

#[test]
fn cosine_of_empty_vectors_is_zero() {
    let c = cosine(&[], &[]);
    assert_eq!(c, Cosine::Zero);
    assert!(c.is_zero());
    assert_eq!(value(c), 0.0);
}

#[test]
fn cosine_with_an_empty_side_is_zero() {
    assert_eq!(cosine(&[], &[1, 2, 3]), Cosine::Zero);
    assert_eq!(cosine(&[1, 2, 3], &[]), Cosine::Zero);
}

#[test]
fn cosine_of_a_vector_with_itself_is_one() {
    let c = cosine(&[3, 4], &[3, 4]);
    assert_eq!(c, Cosine::Ratio { dot: small(25), norm_a_sq: small(25), norm_b_sq: small(25) });
    assert!(!c.is_zero());
    assert!((value(c) - 1.0).abs() < 1e-12);
    let counts = hash_ngrams("hello world");
    assert!((value(cosine(&counts, &counts)) - 1.0).abs() < 1e-12);
}

#[test]
fn cosine_of_a_zero_vector_with_itself_is_zero() {
    assert_eq!(cosine(&[0, 0, 0], &[0, 0, 0]), Cosine::Zero);
}

#[test]
fn cosine_over_a_zero_prefix_is_zero() {
    assert_eq!(cosine(&[0, 0, 5], &[1, 2]), Cosine::Zero);
    assert_eq!(cosine(&[1, 2], &[0, 0, 5]), Cosine::Zero);
    assert_eq!(cosine(&[0, 0], &[0, 0]), Cosine::Zero);
}

#[test]
fn cosine_cuts_to_the_shorter_vector() {
    assert_eq!(cosine(&[1, 0, 0], &[1, 0]), cosine(&[1, 0], &[1, 0]));
    assert_eq!(cosine(&[1, 0], &[1, 0, 0]), cosine(&[1, 0], &[1, 0]));
    assert_eq!(cosine(&[1, 2, 9, 9], &[3, 4]), cosine(&[1, 2], &[3, 4]));
    assert_eq!(
        cosine(&[1, 2, 9, 9], &[3, 4]),
        Cosine::Ratio { dot: small(11), norm_a_sq: small(5), norm_b_sq: small(25) }
    );
}

#[test]
fn cosine_holds_the_three_sums() {
    let c = cosine(&[1, 2, 3], &[4, 5, 6]);
    assert_eq!(c, Cosine::Ratio { dot: small(32), norm_a_sq: small(14), norm_b_sq: small(77) });
    assert!((value(c) - 0.9746318461970762).abs() < 1e-12);
}

#[test]
fn cosine_does_not_change_with_scale() {
    let c = cosine(&[1, 2, 3], &[4, 5, 6]);
    let d = cosine(&[10, 20, 30], &[4, 5, 6]);
    assert!((value(c) - value(d)).abs() < 1e-12);
}

#[test]
fn cosine_of_two_texts() {
    let a = hash_ngrams("hello world");
    let b = hash_ngrams("hello there");
    let c = cosine(&a, &b);
    assert_eq!(c, Cosine::Ratio { dot: small(4), norm_a_sq: small(8), norm_b_sq: small(10) });
    assert!((value(c) - 0.4472135954999579).abs() < 1e-12);
    let d = cosine(&hash_ngrams("abcabcabc"), &hash_ngrams("ABCABC"));
    assert_eq!(d, Cosine::Ratio { dot: small(6), norm_a_sq: small(12), norm_b_sq: small(3) });
    assert!((value(d) - 1.0).abs() < 1e-12);
}

#[test]
fn cosine_of_texts_without_common_grams_is_zero() {
    let c = cosine(&hash_ngrams("test"), &hash_ngrams("abcd"));
    assert!(c.is_zero());
    assert_eq!(value(c), 0.0);
    assert_eq!(cosine(&hash_ngrams("test"), &hash_ngrams("abc")), Cosine::Zero);
}

#[test]
fn cosine_carries_into_the_high_part() {
    let m = u64::MAX;
    let sum = Wide { high: 1, low: 340282366920938463389587631136930004994 };
    assert_eq!(cosine(&[m, m], &[m, m]), Cosine::Ratio { dot: sum, norm_a_sq: sum, norm_b_sq: sum });
    assert_eq!(squared_norm(&[m, m]), sum);
    assert!((value(cosine(&[m, m], &[m, m])) - 1.0).abs() < 1e-12);
}

#[test]
fn squared_norm_is_the_sum_of_squares() {
    assert_eq!(squared_norm(&[]), small(0));
    assert_eq!(squared_norm(&[0, 0]), small(0));
    assert_eq!(squared_norm(&[3, 4]), small(25));
    assert_eq!(squared_norm(&[u64::MAX]), small(340282366920938463426481119284349108225));
}

#[test]
fn wide_starts_at_zero() {
    assert_eq!(Wide::zero(), Wide { high: 0, low: 0 });
    assert!(Wide::zero().is_zero());
    assert!(!small(1).is_zero());
    assert!(!(Wide { high: 1, low: 0 }).is_zero());
}

#[test]
fn wide_plus_adds_and_carries() {
    assert_eq!(small(2).plus(3), Wide { high: 0, low: 5 });
    assert_eq!(small(u128::MAX).plus(0), Wide { high: 0, low: u128::MAX });
    assert_eq!(small(u128::MAX).plus(1), Wide { high: 1, low: 0 });
    assert_eq!(small(u128::MAX).plus(u128::MAX), Wide { high: 1, low: u128::MAX - 1 });
    assert_eq!((Wide { high: 4, low: 10 }).plus(u128::MAX), Wide { high: 5, low: 9 });
}
