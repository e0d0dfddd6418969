use depot::ident::PackageIdent;
use depot::version::{compare_idents, segments_of, Segment};

fn v(version: &str, release: &str) -> PackageIdent {
    PackageIdent::new("a".to_string(), "b".to_string(), Some(version.to_string()), Some(release.to_string()))
}

#[test]
fn numeric_parts_compare_by_value() {
    assert_eq!(compare_idents(&v("1.10.0", "1"), &v("1.9.0", "1")), 1);
    assert_eq!(compare_idents(&v("1.2.0", "1"), &v("1.1.5", "1")), 1);
    assert_eq!(compare_idents(&v("01.2", "1"), &v("1.2", "1")), 0);
    assert_eq!(compare_idents(&v("1.0", "1"), &v("1.0.0", "1")), -1);
}

#[test]
fn release_decides_equal_versions() {
    assert_eq!(compare_idents(&v("1.0.0", "20230101"), &v("1.0.0", "20220101")), 1);
    assert_eq!(compare_idents(&v("1.0.0", "20230101"), &v("1.0.0", "20230101")), 0);
}

#[test]
fn text_parts_come_after_numbers() {
    assert_eq!(compare_idents(&v("1.rc1", "1"), &v("1.9", "1")), 1);
    assert_eq!(compare_idents(&v("1.alpha", "1"), &v("1.beta", "1")), -1);
}

#[test]
fn parts_of_a_version() {
    let parts = segments_of("1.x.18446744073709551616.");
    assert_eq!(parts.len(), 4);
    assert!(matches!(parts[0], Segment::Num(1)));
    assert!(matches!(&parts[1], Segment::Text(t) if t == &vec!['x']));
    assert!(matches!(&parts[2], Segment::Text(t) if t.len() == 20));
    assert!(matches!(&parts[3], Segment::Text(t) if t.is_empty()));
    assert!(matches!(segments_of("18446744073709551615")[0], Segment::Num(18446744073709551615)));
}

#[test]
fn ident_text_and_satisfies() {
    let full = v("1.0.0", "2");
    assert_eq!(full.text(), "a/b/1.0.0/2".to_string());
    let partial = PackageIdent::new("a".to_string(), "b".to_string(), None, None);
    assert_eq!(partial.text(), "a/b".to_string());
    assert!(partial.satisfies(&full));
    assert!(!full.satisfies(&partial));
    assert!(full.fully_qualified());
    assert!(!partial.fully_qualified());
}
