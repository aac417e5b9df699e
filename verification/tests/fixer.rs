use unslop::fixer::apply_fixes;
use unslop::rule::Fix;

fn fix(range: std::ops::Range<usize>, replacement: &str) -> Fix {
    Fix { range, replacement: replacement.to_string() }
}

#[test]
fn applies_single_fix() {
    let (s, a, d) = apply_fixes("hello world", &[fix(6..11, "rust")]);
    assert_eq!(s, "hello rust");
    assert_eq!(a.len(), 1);
    assert!(d.is_empty());
}

#[test]
fn applies_non_overlapping_descending() {
    let (s, a, d) = apply_fixes("aXbXc", &[fix(1..2, "1"), fix(3..4, "2")]);
    assert_eq!(s, "a1b2c");
    assert_eq!(a.len(), 2);
    assert!(d.is_empty());
}

#[test]
fn replacement_changes_length_safely() {
    let (s, _, _) = apply_fixes("AAA BBB CCC", &[fix(0..3, "x"), fix(8..11, "yyyyy")]);
    assert_eq!(s, "x BBB yyyyy");
}

#[test]
fn overlap_drops_both() {
    let (s, a, d) = apply_fixes("abcdef", &[fix(0..3, "X"), fix(2..5, "Y")]);
    assert_eq!(s, "abcdef");
    assert!(a.is_empty());
    assert_eq!(d.len(), 2);
}

#[test]
fn duplicate_range_drops_both() {
    let (s, a, d) = apply_fixes("abc", &[fix(0..1, "X"), fix(0..1, "Y")]);
    assert_eq!(s, "abc");
    assert!(a.is_empty());
    assert_eq!(d.len(), 2);
}

#[test]
fn empty_fixes_returns_source() {
    let (s, a, d) = apply_fixes("hello", &[]);
    assert_eq!(s, "hello");
    assert!(a.is_empty());
    assert!(d.is_empty());
}

#[test]
fn adjacent_ranges_both_apply() {
    let (s, a, _) = apply_fixes("abcdef", &[fix(0..2, "X"), fix(2..4, "Y")]);
    assert_eq!(s, "XYef");
    assert_eq!(a.len(), 2);
}

#[test]
fn fixes_given_out_of_order_are_sorted_by_start() {
    let (s, a, d) = apply_fixes("abcdef", &[fix(4..6, "Z"), fix(0..1, "A")]);
    assert_eq!(s, "AbcdZ");
    assert_eq!(a.len(), 2);
    assert_eq!(a[0].range, 0..1);
    assert_eq!(a[1].range, 4..6);
    assert!(d.is_empty());
}

#[test]
fn overlap_keeps_unrelated_fix() {
    let (s, a, d) = apply_fixes("abcdefgh", &[fix(0..3, "X"), fix(2..4, "Y"), fix(6..7, "Z")]);
    assert_eq!(s, "abcdefZh");
    assert_eq!(a.len(), 1);
    assert_eq!(d.len(), 2);
}

#[test]
fn multibyte_replacement_in_multibyte_source() {
    let src = "あいう";
    let (s, a, _) = apply_fixes(src, &[fix(3..6, "イイ")]);
    assert_eq!(s, "あイイう");
    assert_eq!(a.len(), 1);
}

#[test]
fn out_of_range_fixes_are_clamped_to_the_text() {
    let (s, a, d) = apply_fixes("ab", &[fix(5..6, "X"), fix(3..4, "Y")]);
    assert_eq!(s, "abXY");
    assert_eq!(a.len(), 2);
    assert!(d.is_empty());
}

#[test]
fn reversed_range_inserts_at_its_end() {
    let (s, a, _) = apply_fixes("abc", &[fix(2..1, "X")]);
    assert_eq!(s, "aXbc");
    assert_eq!(a.len(), 1);
}

#[test]
fn order_of_fixes_does_not_matter() {
    let fs = vec![fix(0..1, "X"), fix(4..5, "Y"), fix(2..4, "Z"), fix(3..5, "W")];
    let mut rev = fs.clone();
    rev.reverse();
    let (s1, a1, d1) = apply_fixes("abcdef", &fs);
    let (s2, a2, d2) = apply_fixes("abcdef", &rev);
    assert_eq!(s1, "Xbcdef");
    assert_eq!(s1, s2);
    let ranges = |v: &Vec<unslop::rule::Fix>| v.iter().map(|f| (f.range.clone(), f.replacement.clone())).collect::<Vec<_>>();
    assert_eq!(ranges(&a1), ranges(&a2));
    assert_eq!(ranges(&a1), vec![(0..1, "X".to_string())]);
    assert_eq!(d1.len(), 3);
    assert_eq!(d2.len(), 3);
}
