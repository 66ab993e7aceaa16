// Unit tests for the output buffer, its origin map, and the macro table.

use sv_parser_pp::defines::Defines;
use sv_parser_pp::range::Range;
use sv_parser_pp::text::PreprocessedText;

#[test]
fn push_records_origin() {
    let mut t = PreprocessedText::new();
    t.push(&b"abc".to_vec(), &b"f.sv".to_vec(), Range::new(5, 8));
    t.push(&b"xy".to_vec(), &b"g.sv".to_vec(), Range::new(0, 2));
    assert_eq!(t.text().as_slice(), b"abcxy".as_slice());
    assert_eq!(t.origin(0), Some((b"f.sv".to_vec(), 5)));
    assert_eq!(t.origin(2), Some((b"f.sv".to_vec(), 7)));
    assert_eq!(t.origin(3), Some((b"g.sv".to_vec(), 0)));
    assert_eq!(t.origin(4), Some((b"g.sv".to_vec(), 1)));
    assert_eq!(t.origin(5), None);
}

#[test]
fn merge_rebases_origins() {
    let mut a = PreprocessedText::new();
    a.push(&b"head".to_vec(), &b"a.sv".to_vec(), Range::new(0, 4));
    let mut b = PreprocessedText::new();
    b.push(&b"tail".to_vec(), &b"b.sv".to_vec(), Range::new(10, 14));
    a.merge(b);
    assert_eq!(a.text().as_slice(), b"headtail".as_slice());
    assert_eq!(a.origin(3), Some((b"a.sv".to_vec(), 3)));
    assert_eq!(a.origin(4), Some((b"b.sv".to_vec(), 10)));
    assert_eq!(a.origin(7), Some((b"b.sv".to_vec(), 13)));
    assert_eq!(a.origin(8), None);
}

#[test]
fn empty_buffer_has_no_origins() {
    let t = PreprocessedText::new();
    assert_eq!(t.text().len(), 0);
    assert_eq!(t.origin(0), None);
}

#[test]
fn range_contains_is_half_open() {
    let r = Range::new(2, 5);
    assert!(!r.contains(1));
    assert!(r.contains(2));
    assert!(r.contains(4));
    assert!(!r.contains(5));
}

#[test]
fn range_offset_shifts_both_ends() {
    let mut r = Range::new(2, 5);
    r.offset(10);
    assert_eq!(r.begin, 12);
    assert_eq!(r.end, 15);
}

#[test]
fn defines_insert_remove_clear() {
    let mut d = Defines::new();
    assert!(!d.contains(&b"A".to_vec()));
    d.insert(b"A".to_vec());
    d.insert(b"B".to_vec());
    assert!(d.contains(&b"A".to_vec()));
    assert!(d.contains(&b"B".to_vec()));
    d.remove(&b"A".to_vec());
    assert!(!d.contains(&b"A".to_vec()));
    assert!(d.contains(&b"B".to_vec()));
    d.remove(&b"C".to_vec());
    assert!(d.contains(&b"B".to_vec()));
    d.clear();
    assert!(!d.contains(&b"B".to_vec()));
}

#[test]
fn defines_duplicate_is_independent() {
    let mut d = Defines::new();
    d.insert(b"A".to_vec());
    let mut copy = d.duplicate();
    copy.insert(b"B".to_vec());
    copy.remove(&b"A".to_vec());
    assert!(d.contains(&b"A".to_vec()));
    assert!(!d.contains(&b"B".to_vec()));
    assert!(copy.contains(&b"B".to_vec()));
    assert!(!copy.contains(&b"A".to_vec()));
}

#[test]
fn defines_names_are_case_sensitive() {
    let mut d = Defines::new();
    d.insert(b"Macro".to_vec());
    assert!(d.contains(&b"Macro".to_vec()));
    assert!(!d.contains(&b"macro".to_vec()));
    assert!(!d.contains(&b"MACRO".to_vec()));
}
