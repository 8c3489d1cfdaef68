use niamc::mapped_file::SourceFile;
use niamc::process::{extract, map_original_to_slimmed_chars, map_slimmed_to_original_chars, Preprocessor};
use niamc::span::Span;

#[test]
fn simple_ascii_mapping() {
    // Original: abcdefghi
    // Removed: [2..4) => "cd", [6..7) => "g"
    let removed = vec![Span::new(2, 2), Span::new(6, 1)];

    // Slimmed: abefhi (6 chars)
    assert_eq!(map_slimmed_to_original_chars(0, &removed), Some(0));
    assert_eq!(map_slimmed_to_original_chars(1, &removed), Some(1));
    assert_eq!(map_slimmed_to_original_chars(2, &removed), Some(4));
    assert_eq!(map_slimmed_to_original_chars(3, &removed), Some(5));
    assert_eq!(map_slimmed_to_original_chars(4, &removed), Some(7));
    assert_eq!(map_slimmed_to_original_chars(5, &removed), Some(8));
    assert_eq!(map_slimmed_to_original_chars(6, &removed), Some(9));

    // Reverse direction (original → slimmed)
    assert_eq!(map_original_to_slimmed_chars(0, &removed), Some(0));
    assert_eq!(map_original_to_slimmed_chars(1, &removed), Some(1));
    assert_eq!(map_original_to_slimmed_chars(2, &removed), None); // inside "cd"
    assert_eq!(map_original_to_slimmed_chars(3, &removed), None);
    assert_eq!(map_original_to_slimmed_chars(4, &removed), Some(2));
    assert_eq!(map_original_to_slimmed_chars(5, &removed), Some(3));
    assert_eq!(map_original_to_slimmed_chars(6, &removed), None); // inside "g"
    assert_eq!(map_original_to_slimmed_chars(7, &removed), Some(4));
    assert_eq!(map_original_to_slimmed_chars(8, &removed), Some(5));
    assert_eq!(map_original_to_slimmed_chars(9, &removed), Some(6));
}

#[test]
fn utf8_multibyte_characters() {
    // Original: aβcδεfgh
    // Removed (by char index): [1..3) => "βc", [4..5) => "ε"
    let removed = vec![Span::new(1, 2), Span::new(4, 1)];

    // Slimmed: aδfgh
    assert_eq!(map_slimmed_to_original_chars(0, &removed), Some(0)); // a
    assert_eq!(map_slimmed_to_original_chars(1, &removed), Some(3)); // δ
    assert_eq!(map_slimmed_to_original_chars(2, &removed), Some(5)); // f
    assert_eq!(map_slimmed_to_original_chars(3, &removed), Some(6)); // g
    assert_eq!(map_slimmed_to_original_chars(4, &removed), Some(7)); // h
    assert_eq!(map_slimmed_to_original_chars(5, &removed), Some(8)); // end

    assert_eq!(map_original_to_slimmed_chars(0, &removed), Some(0)); // a
    assert_eq!(map_original_to_slimmed_chars(1, &removed), None); // β
    assert_eq!(map_original_to_slimmed_chars(2, &removed), None); // c
    assert_eq!(map_original_to_slimmed_chars(3, &removed), Some(1)); // δ
    assert_eq!(map_original_to_slimmed_chars(4, &removed), None); // ε
    assert_eq!(map_original_to_slimmed_chars(5, &removed), Some(2)); // f
    assert_eq!(map_original_to_slimmed_chars(6, &removed), Some(3)); // g
    assert_eq!(map_original_to_slimmed_chars(7, &removed), Some(4)); // h
    assert_eq!(map_original_to_slimmed_chars(8, &removed), Some(5)); // end
}

#[test]
fn empty_removals() {
    let removed: Vec<Span> = vec![];

    for i in 0..5 {
        assert_eq!(map_slimmed_to_original_chars(i, &removed), Some(i));
        assert_eq!(map_original_to_slimmed_chars(i, &removed), Some(i));
    }
}

#[test]
fn removal_at_start() {
    // Removed first 3 characters
    let removed = vec![Span::new(0, 3)];

    assert_eq!(map_slimmed_to_original_chars(0, &removed), Some(3));
    assert_eq!(map_slimmed_to_original_chars(5, &removed), Some(8));

    assert_eq!(map_original_to_slimmed_chars(0, &removed), None);
    assert_eq!(map_original_to_slimmed_chars(3, &removed), Some(0));
}

#[test]
fn removal_at_end() {
    // Removed last 2 characters
    let removed = vec![Span::new(5, 2)];

    assert_eq!(map_slimmed_to_original_chars(0, &removed), Some(0));
    assert_eq!(map_slimmed_to_original_chars(5, &removed), Some(7));

    assert_eq!(map_original_to_slimmed_chars(5, &removed), None);
    assert_eq!(map_original_to_slimmed_chars(4, &removed), Some(4));
}

#[test]
fn offset_past_end_returns_some() {
    // Ensure mapping past end just accumulates shift
    let removed = vec![Span::new(2, 2)];
    assert_eq!(map_slimmed_to_original_chars(10, &removed), Some(12));
}

#[test]
fn mapping_there_and_back() {
    let removed = vec![Span::new(0, 2), Span::new(2, 0), Span::new(3, 4), Span::new(7, 1), Span::new(20, 5)];
    for slimmed in 0..40 {
        let original = map_slimmed_to_original_chars(slimmed, &removed).unwrap();
        assert_eq!(map_original_to_slimmed_chars(original, &removed), Some(slimmed));
    }
    let mut kept = 0;
    for original in 0..40 {
        match map_original_to_slimmed_chars(original, &removed) {
            Some(slimmed) => {
                assert_eq!(slimmed, kept);
                assert_eq!(map_slimmed_to_original_chars(slimmed, &removed), Some(original));
                kept += 1;
            }
            None => assert!(removed.iter().any(|s| s.start <= original && original < s.start + s.len)),
        }
    }
    assert_eq!(kept, 28);
}

fn process(start: &str, end: &str, text: &str) -> String {
    let preprocessor = Preprocessor::try_new(start, end).unwrap();
    preprocessor.process(&SourceFile::from_string(None, text))
}

#[test]
fn process_collects_what_stands_between_the_markers() {
    assert_eq!(process(r"/\*", r"\*/", "a /* b */ c /* d */ e"), "/* b *//* d */");
    assert_eq!(process(r"/\*", r"\*/", "no comment"), "");
    assert_eq!(process(r"/\*", r"\*/", ""), "");
    assert_eq!(process(r"/\*", r"\*/", "a /* open"), "");
    assert_eq!(process(r"/\*", r"\*/", "é /* ü */ ß"), "/* ü */");
    assert_eq!(process("<", ">+", "x<a>>>y<b>"), "<a>>><b>");
}

#[test]
fn process_searches_on_behind_the_opening_marker() {
    // the second opening marker lies inside the first stretch and is found too
    assert_eq!(process(r"/\*", r"\*/", "/* a /* b */"), "/* a /* b *//* b */");
    // a closing marker is looked for behind the opening one only
    assert_eq!(process("ab", "b", "ab b"), "ab b");
}

#[test]
fn process_stops_at_an_empty_match_that_does_not_move() {
    assert_eq!(process("", "x", "axbx"), "");
    assert_eq!(process("a*", "x", "xx"), "");
    // an empty match further on is no standstill: the search moves up to it
    assert_eq!(process("b*", "x", "bbx"), "bbx");
}

#[test]
fn removals_are_spans_of_the_text() {
    let preprocessor = Preprocessor::new("<", ">");
    let removals = preprocessor.removals("a<b>c<d>");
    assert_eq!(removals, vec![Span::new(1, 3), Span::new(5, 3)]);
    assert_eq!(extract("a<b>c<d>", &removals), "<b><d>");
    assert_eq!(extract("a<b>c<d>", &vec![]), "");
    assert_eq!(extract("héllo", &vec![Span::new(1, 2), Span::new(0, 1), Span::new(5, 0)]), "éh");
}

#[test]
fn a_pattern_that_does_not_compile_gives_no_preprocessor() {
    assert!(Preprocessor::try_new("(", "x").is_none());
    assert!(Preprocessor::try_new("x", "[").is_none());
    assert!(Preprocessor::try_new("(", "[").is_none());
    assert!(Preprocessor::try_new("x", "y").is_some());
}
