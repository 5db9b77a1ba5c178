use illpad::surface::TextBuffer;
use illpad::text::{Tag, TextWithTags};

fn tag(start: i32, end: i32, name: &str) -> Tag {
    Tag { start, end, name: String::from(name) }
}

fn summary(t: &TextWithTags) -> Vec<(i32, i32, String)> {
    t.tags.iter().map(|x| (x.start, x.end, x.name.clone())).collect()
}

#[test]
fn projection_then_extraction_gives_the_text_back() {
    let t = TextWithTags {
        text: String::from("Bold and highlighted"),
        tags: vec![tag(0, 4, "bold"), tag(9, 20, "highlight")],
    };
    let b = t.as_text_buffer();
    assert_eq!(b.char_count(), 20);
    let back = TextWithTags::from(&b, 0, b.char_count());
    assert_eq!(back.text, t.text);
    assert_eq!(summary(&back), summary(&t));
}

#[test]
fn round_trip_over_multibyte_text() {
    let t = TextWithTags {
        text: String::from("한글 텍스트"),
        tags: vec![tag(1, 2, "bold"), tag(3, 6, "highlight")],
    };
    let b = t.as_text_buffer();
    let back = TextWithTags::from(&b, 0, b.char_count());
    assert_eq!(back.text, "한글 텍스트");
    assert_eq!(summary(&back), summary(&t));
    assert_eq!(back.clipboard_text(), "한**글** ==텍스트==");
}

#[test]
fn touching_ranges_of_one_kind_merge() {
    let t = TextWithTags {
        text: String::from("abcdef"),
        tags: vec![tag(0, 2, "bold"), tag(2, 4, "bold")],
    };
    let b = t.as_text_buffer();
    let back = TextWithTags::from(&b, 0, 6);
    assert_eq!(summary(&back), vec![(0, 4, String::from("bold"))]);
}

#[test]
fn touching_ranges_of_two_kinds_stay_apart() {
    let t = TextWithTags {
        text: String::from("abcdef"),
        tags: vec![tag(0, 2, "bold"), tag(2, 4, "highlight")],
    };
    let b = t.as_text_buffer();
    let back = TextWithTags::from(&b, 0, 6);
    assert_eq!(summary(&back), summary(&t));
}

#[test]
fn overlapping_ranges_come_back_by_position_then_tag() {
    let t = TextWithTags {
        text: String::from("Overlapping tags"),
        tags: vec![tag(0, 10, "bold"), tag(0, 15, "highlight")],
    };
    let b = t.as_text_buffer();
    let back = TextWithTags::from(&b, 0, 16);
    assert_eq!(
        summary(&back),
        vec![(0, 15, String::from("highlight")), (0, 10, String::from("bold"))]
    );
}

#[test]
fn extraction_of_a_selection_is_relative() {
    let t = TextWithTags {
        text: String::from("Some highlighted text."),
        tags: vec![tag(5, 16, "highlight")],
    };
    let b = t.as_text_buffer();
    let sel = TextWithTags::from(&b, 3, 10);
    assert_eq!(sel.text, "e highl");
    assert_eq!(summary(&sel), vec![(2, 7, String::from("highlight"))]);
    assert_eq!(sel.clipboard_text(), "e ==highl==");
}

#[test]
fn selection_starting_inside_a_tag_drops_it() {
    let t = TextWithTags { text: String::from("abcdef"), tags: vec![tag(0, 4, "bold")] };
    let b = t.as_text_buffer();
    let sel = TextWithTags::from(&b, 2, 6);
    assert_eq!(sel.text, "cdef");
    assert!(sel.tags.is_empty());
}

#[test]
fn empty_and_inverted_ranges_give_empty_text() {
    let t = TextWithTags { text: String::from("abcdef"), tags: vec![tag(0, 4, "bold")] };
    let b = t.as_text_buffer();
    for p in 0..7 {
        let e = TextWithTags::from(&b, p, p);
        assert_eq!(e.text, "");
        assert!(e.tags.is_empty());
    }
    let e = TextWithTags::from(&b, 4, 2);
    assert_eq!(e.text, "");
    assert!(e.tags.is_empty());
    let e = TextWithTags::from(&b, 2, 9);
    assert_eq!(e.text, "");
    assert!(e.tags.is_empty());
}

#[test]
fn unknown_names_are_not_applied() {
    let t = TextWithTags { text: String::from("abc"), tags: vec![tag(0, 2, "italic")] };
    let b = t.as_text_buffer();
    let back = TextWithTags::from(&b, 0, 3);
    assert!(back.tags.is_empty());
}

#[test]
fn out_of_range_offsets_stand_for_the_end() {
    let t = TextWithTags { text: String::from("abcd"), tags: vec![tag(2, 99, "bold")] };
    let b = t.as_text_buffer();
    let back = TextWithTags::from(&b, 0, 4);
    assert_eq!(summary(&back), vec![(2, 4, String::from("bold"))]);
    let t = TextWithTags { text: String::from("abcd"), tags: vec![tag(3, 1, "bold")] };
    let back = TextWithTags::from(&t.as_text_buffer(), 0, 4);
    assert_eq!(summary(&back), vec![(1, 3, String::from("bold"))]);
}

#[test]
fn find_tag_runs_to_the_first_uncovered_character() {
    let mut b = TextBuffer::new();
    b.create_tag("bold");
    b.set_text("abcdef");
    b.apply_tag_by_name("bold", 1, 4);
    assert_eq!(b.tag_index("bold"), Some(0));
    assert_eq!(b.tag_index("highlight"), None);
    assert!(TextWithTags::find_tag(&b, 0, 0, 6).is_none());
    assert!(TextWithTags::find_tag(&b, 0, 2, 6).is_none());
    let found = TextWithTags::find_tag(&b, 0, 1, 6).unwrap();
    assert_eq!((found.start, found.end, found.name.as_str()), (1, 4, "bold"));
    let found = TextWithTags::find_tag(&b, 0, 1, 3).unwrap();
    assert_eq!((found.start, found.end), (1, 3));
}

#[test]
fn buffer_queries() {
    let mut b = TextBuffer::new();
    b.create_tag("highlight");
    b.create_tag("highlight");
    assert_eq!(b.tag_count(), 1);
    b.set_text("héllo");
    assert_eq!(b.char_count(), 5);
    assert_eq!(b.text_range(1, 3), "él");
    b.apply_tag_by_name("highlight", 1, 2);
    b.apply_tag_by_name("nothing", 0, 5);
    assert!(!b.has_tag(0, 0));
    assert!(b.has_tag(0, 1));
    assert!(!b.has_tag(0, 2));
    assert!(!b.has_tag(0, 5));
    assert!(b.starts_tag(0, 1));
    assert!(!b.starts_tag(0, 2));
    assert_eq!(b.tag_name(0), "highlight");
}
