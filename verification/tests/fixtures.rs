use xlstream::fixtures::{formula_for_row, Rng, Tier};

#[test]
fn lcg_sequence() {
    let mut r = Rng::new(0);
    assert_eq!(r.next_u64(), 1_442_695_040_888_963_407);
    let expected = 1_442_695_040_888_963_407u64
        .wrapping_mul(6_364_136_223_846_793_005)
        .wrapping_add(1_442_695_040_888_963_407);
    assert_eq!(r.next_u64(), expected);
}

#[test]
fn int_range_stays_in_bounds() {
    let mut r = Rng::new(42);
    for _ in 0..1000 {
        let v = r.int_range(3, 8);
        assert!((3..=8).contains(&v));
    }
    let mut a = Rng::new(7);
    let mut b = Rng::new(7);
    let x = b.next_u64();
    assert_eq!(a.int_range(10, 19), 10 + x % 10);
}

#[test]
fn text_uses_alphabet_and_length() {
    let mut r = Rng::new(1);
    for _ in 0..100 {
        let t = r.text(b"abcdefghij", 3, 8);
        assert!((3..=8).contains(&t.len()));
        assert!(t.bytes().all(|c| (b'a'..=b'j').contains(&c)));
    }
    let mut a = Rng::new(99);
    let t = a.text(b"xy", 2, 2);
    let mut b = Rng::new(99);
    b.next_u64();
    let c0 = if b.next_u64() % 2 == 0 { 'x' } else { 'y' };
    let c1 = if b.next_u64() % 2 == 0 { 'x' } else { 'y' };
    assert_eq!(t, format!("{c0}{c1}"));
}

#[test]
fn tiers() {
    assert_eq!(Tier::Small.rows(), 10_000);
    assert_eq!(Tier::Medium.rows(), 100_000);
    assert_eq!(Tier::Large.rows(), 1_000_000);
    assert_eq!(Tier::Small.name(), "small");
    assert_eq!(Tier::Medium.name(), "medium");
    assert_eq!(Tier::Large.name(), "large");
}

#[test]
fn formula_template_takes_the_row_number() {
    assert_eq!(formula_for_row(&["=A", "+B", ""], 7), "=A7+B7");
    assert_eq!(formula_for_row(&["=IF(A", ">5000,B", ",C", ")"], 12), "=IF(A12>5000,B12,C12)");
    assert_eq!(formula_for_row(&["=AVERAGE(C:C)"], 3), "=AVERAGE(C:C)");
    assert_eq!(formula_for_row(&[], 3), "");
}
