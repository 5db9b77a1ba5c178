use illpad::text::{Tag, TagKind, TextWithTags};

fn tag(start: i32, end: i32, name: &str) -> Tag {
    Tag { start, end, name: String::from(name) }
}

#[test]
fn test_clipboard_text() {
    let text_with_tags = TextWithTags {
        text: String::from("Bold text here"),
        tags: vec![Tag {
            start: 0,
            end: 4,
            name: String::from("bold"),
        }],
    };
    assert_eq!(text_with_tags.clipboard_text(), "**Bold** text here");

    let text_with_tags = TextWithTags {
        text: String::from("Some highlighted text."),
        tags: vec![Tag {
            start: 5,
            end: 16,
            name: String::from("highlight"),
        }],
    };
    assert_eq!(
        text_with_tags.clipboard_text(),
        "Some ==highlighted== text."
    );

    let text_with_tags = TextWithTags {
        text: String::from("Bold and highlighted"),
        tags: vec![
            Tag {
                start: 0,
                end: 4,
                name: String::from("bold"),
            },
            Tag {
                start: 9,
                end: 20,
                name: String::from("highlight"),
            },
        ],
    };
    assert_eq!(
        text_with_tags.clipboard_text(),
        "**Bold** and ==highlighted=="
    );

    let text_with_tags = TextWithTags {
        text: String::from("Overlapping tags"),
        tags: vec![
            Tag {
                start: 0,
                end: 10,
                name: String::from("bold"),
            },
            Tag {
                start: 5,
                end: 15,
                name: String::from("highlight"),
            },
        ],
    };
    assert_eq!(text_with_tags.clipboard_text(), "**Overl==appin**g tag==s");

    let text_with_tags = TextWithTags {
        text: String::from("한글 텍스트"),
        tags: vec![Tag {
            start: 1,
            end: 2,
            name: String::from("bold"),
        }],
    };
    assert_eq!(text_with_tags.clipboard_text(), "한**글** 텍스트");
}

#[test]
fn clipboard_text_twice_is_the_same() {
    let t = TextWithTags {
        text: String::from("Overlapping tags"),
        tags: vec![tag(0, 10, "bold"), tag(5, 15, "highlight")],
    };
    assert_eq!(t.clipboard_text(), t.clipboard_text());
}

#[test]
fn unknown_tag_name_writes_nothing() {
    let t = TextWithTags {
        text: String::from("Bold text here"),
        tags: vec![tag(2, 7, "italic"), tag(0, 4, "bold"), tag(4, 4, "underline")],
    };
    assert_eq!(t.clipboard_text(), "**Bold** text here");
}

#[test]
fn zero_width_tag_writes_its_marker_once() {
    let t = TextWithTags { text: String::from("abc"), tags: vec![tag(1, 1, "bold")] };
    assert_eq!(t.clipboard_text(), "a**bc");
}

#[test]
fn markers_at_one_position_follow_tag_order() {
    let t = TextWithTags {
        text: String::from("ab"),
        tags: vec![tag(0, 1, "highlight"), tag(1, 2, "bold")],
    };
    assert_eq!(t.clipboard_text(), "==a==**b**");
    let t = TextWithTags {
        text: String::from("ab"),
        tags: vec![tag(1, 2, "bold"), tag(0, 1, "highlight")],
    };
    assert_eq!(t.clipboard_text(), "==a**==b**");
}

#[test]
fn markers_at_the_end_of_the_text() {
    let t = TextWithTags { text: String::from("ab"), tags: vec![tag(2, 2, "highlight")] };
    assert_eq!(t.clipboard_text(), "ab==");
}

#[test]
fn empty_text_exports_empty() {
    assert_eq!(TextWithTags::default().clipboard_text(), "");
    let t = TextWithTags { text: String::new(), tags: vec![tag(0, 0, "bold")] };
    assert_eq!(t.clipboard_text(), "**");
}

#[test]
fn negative_offsets_write_nothing() {
    let t = TextWithTags { text: String::from("ab"), tags: vec![tag(-1, 1, "bold")] };
    assert_eq!(t.clipboard_text(), "a**b");
}

#[test]
fn from_str_has_no_tags() {
    let t = TextWithTags::from_str("hello");
    assert_eq!(t.text, "hello");
    assert!(t.tags.is_empty());
    assert_eq!(t.clipboard_text(), "hello");
}

#[test]
fn tag_kinds_by_name() {
    assert_eq!(TagKind::from_name(&String::from("bold")), Some(TagKind::Bold));
    assert_eq!(TagKind::from_name(&String::from("highlight")), Some(TagKind::Highlight));
    assert_eq!(TagKind::from_name(&String::from("Bold")), None);
    assert_eq!(TagKind::Bold.marker(), "**");
    assert_eq!(TagKind::Highlight.marker(), "==");
}
