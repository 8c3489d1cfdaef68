use std::cmp::Ordering;

use niamc::source_file::Id;
use niamc::span::Span;
use niamc::text::{can_slice, decimal, slice, slice_from};
use regex::Regex;

// want to test for the ranges being correct especially for length
#[test]
fn test_combine() {
    let s = "0123456789";
    let r1 = Regex::new("3").unwrap();
    let r2 = Regex::new("7").unwrap();

    let range1 = r1.find(s).unwrap().range();

    assert_eq!(range1.start, 3);
    assert_eq!(range1.end, 4);

    let range2 = r2.find(s).unwrap().range();

    assert_eq!(range2.start, 7);
    assert_eq!(range2.end, 8);

    let span = Span::combine_ranges(range1, range2);

    assert_eq!(span.start, 3);
    assert_eq!(span.len, 5);
}

#[test]
fn test_range() {
    let span1 = Span::new(0, 2);

    assert_eq!(span1.range(), 0..2);
}

#[test]
fn combine_covers_both_ranges_and_the_gap_between_them() {
    assert_eq!(Span::combine_ranges(0..2, 10..12), Span::new(0, 12));
    assert_eq!(Span::combine_ranges(10..12, 0..2), Span::new(0, 12));
    assert_eq!(Span::combine_ranges(3..4, 4..6), Span::new(3, 3));
    assert_eq!(Span::combine_ranges(3..5, 4..6), Span::new(3, 3));
    // one range inside the other
    assert_eq!(Span::combine_ranges(3..10, 4..6), Span::new(3, 7));
    assert_eq!(Span::combine_ranges(4..6, 3..10), Span::new(3, 7));
    // equal starts
    assert_eq!(Span::combine_ranges(5..9, 5..6), Span::new(5, 4));
    assert_eq!(Span::combine_ranges(5..6, 5..9), Span::new(5, 4));
    assert_eq!(Span::combine_ranges(5..5, 5..5), Span::new(5, 0));
    assert_eq!(*Span::combine_ranges(1..2, 3..4).source(), Id::Main);
}

#[test]
fn span_parts() {
    let span = Span::new_with_unit(4, 6, Id::Unit("u".to_string()));
    assert_eq!(span.start(), 4);
    assert_eq!(span.len(), 6);
    assert_eq!(span.end(), 10);
    assert_eq!(span.range(), 4..10);
    assert_eq!(*span.source(), Id::Unit("u".to_string()));
    assert_eq!(*Span::new(1, 1).source(), Id::Main);
    assert_eq!(Span::new(usize::MAX, 5).end(), usize::MAX);
    assert_eq!(span.clone(), span);
}

#[test]
fn expand_lengthens_at_the_end() {
    let mut span = Span::new(7, 1);
    span.expand(3);
    assert_eq!(span, Span::new(7, 4));
    span.expand(0);
    assert_eq!(span, Span::new(7, 4));
}

#[test]
fn span_from_range() {
    assert_eq!(Span::from(3..8), Span::new(3, 5));
    assert_eq!(Span::from(3..3), Span::new(3, 0));
    assert_eq!(Span::from(0..usize::MAX), Span::new(0, usize::MAX));
}

#[test]
fn spans_compare_by_start_alone() {
    assert_eq!(Span::new(1, 9).partial_cmp(&Span::new(2, 1)), Some(Ordering::Less));
    assert_eq!(Span::new(2, 9).partial_cmp(&Span::new(2, 1)), Some(Ordering::Equal));
    assert_eq!(Span::new(3, 0).partial_cmp(&Span::new(2, 1)), Some(Ordering::Greater));
    assert!(Span::new(1, 9) < Span::new(2, 1));
    assert!(Span::new(5, 0) > Span::new(2, 100));

    let mut spans = vec![Span::new(9, 1), Span::new(2, 5), Span::new(4, 1)];
    spans.sort_by(|a, b| a.partial_cmp(b).unwrap());
    assert_eq!(spans, vec![Span::new(2, 5), Span::new(4, 1), Span::new(9, 1)]);
}

#[test]
fn span_text() {
    assert_eq!(Span::new(0, 0).to_text(), "[0..0]");
    assert_eq!(Span::new(3, 5).to_text(), "[3..8]");
    assert_eq!(Span::new(120, 3456).to_text(), "[120..3576]");
}

#[test]
fn decimal_digits() {
    assert_eq!(decimal(0), "0");
    assert_eq!(decimal(9), "9");
    assert_eq!(decimal(10), "10");
    assert_eq!(decimal(1234567890), "1234567890");
    assert_eq!(decimal(usize::MAX), usize::MAX.to_string());
}

#[test]
fn slicing_goes_by_bytes_between_characters() {
    let text = "aé b";
    assert!(can_slice(text, 0, 1));
    assert!(can_slice(text, 1, 3));
    assert!(can_slice(text, 5, 5));
    assert!(!can_slice(text, 1, 2));
    assert!(!can_slice(text, 2, 3));
    assert!(!can_slice(text, 3, 1));
    assert!(!can_slice(text, 0, 6));
    assert_eq!(slice(text, 1, 3), "é");
    assert_eq!(slice(text, 0, 5), text);
    assert_eq!(slice_from(text, 3, 2), " b");
    assert_eq!(slice_from(text, 5, 0), "");
}
