use illpad::editor::{EditorBox, EditorMsg, EditorOutcome};
use illpad::session::{App, AppAction, FileWriterMsg, RootMsg};
use illpad::text::{Tag, TextWithTags};

#[test]
fn tick_saves_only_after_a_change() {
    let mut app = App::new();
    assert_eq!(app.update(RootMsg::AutoSaveTickTriggered), AppAction::Idle);
    assert_eq!(app.update(RootMsg::TextChanged), AppAction::Idle);
    assert!(app.text_changed);
    assert_eq!(app.update(RootMsg::AutoSaveTickTriggered), AppAction::Save);
    assert!(!app.text_changed && !app.editor_changed);
    assert_eq!(app.update(RootMsg::AutoSaveTickTriggered), AppAction::Idle);
    assert_eq!(app.update(RootMsg::EditorChanged), AppAction::Idle);
    assert_eq!(app.update(RootMsg::SaveComplete), AppAction::Idle);
    assert_eq!(app.update(RootMsg::AutoSaveTickTriggered), AppAction::Save);
}

#[test]
fn exit_saves_only_what_changed() {
    let mut app = App::new();
    assert_eq!(app.update(RootMsg::ExitTriggered), AppAction::Quit { save: false });
    app.update(RootMsg::EditorChanged);
    assert_eq!(app.update(RootMsg::ExitTriggered), AppAction::Quit { save: true });
}

#[test]
fn writer_report_becomes_save_complete() {
    assert_eq!(FileWriterMsg::SaveComplete.to_root(), RootMsg::SaveComplete);
}

#[test]
fn no_notes_seed_the_welcome_block() {
    let b = EditorBox::new(vec![]);
    let notes = b.get_text_with_tags();
    assert_eq!(notes.len(), 1);
    assert!(notes[0].text.starts_with("Welcome to the illpad!\nCtrl + Enter"));
    assert!(notes[0].tags.is_empty());
}

#[test]
fn notes_come_back_from_their_blocks() {
    let first = TextWithTags {
        text: String::from("one"),
        tags: vec![Tag { start: 0, end: 3, name: String::from("bold") }],
    };
    let b = EditorBox::new(vec![first, TextWithTags::from_str("two")]);
    let notes = b.get_text_with_tags();
    assert_eq!(notes.len(), 2);
    assert_eq!(notes[0].clipboard_text(), "**one**");
    assert_eq!(notes[1].text, "two");
}

#[test]
fn adding_and_deleting_blocks() {
    let mut b = EditorBox::new(vec![TextWithTags::from_str("a"), TextWithTags::from_str("b")]);
    let out = b.update(EditorMsg::RequestAddNoteFrom(0));
    assert_eq!(out, EditorOutcome { focus: None, notify: Some(RootMsg::EditorChanged) });
    let texts: Vec<String> = b.get_text_with_tags().into_iter().map(|t| t.text).collect();
    assert_eq!(texts, vec!["a", "", "b"]);
    let out = b.update(EditorMsg::RequestDeleteNoteFrom(2));
    assert_eq!(out, EditorOutcome { focus: Some(1), notify: Some(RootMsg::EditorChanged) });
    let out = b.update(EditorMsg::RequestDeleteNoteFrom(0));
    assert_eq!(out, EditorOutcome { focus: None, notify: Some(RootMsg::EditorChanged) });
    assert_eq!(b.editors.len(), 1);
    let out = b.update(EditorMsg::RequestDeleteNoteFrom(0));
    assert_eq!(out, EditorOutcome { focus: None, notify: None });
    assert_eq!(b.editors.len(), 1);
}

#[test]
fn moving_the_focus() {
    let mut b = EditorBox::new(vec![
        TextWithTags::from_str("a"),
        TextWithTags::from_str("b"),
        TextWithTags::from_str("c"),
    ]);
    assert_eq!(b.update(EditorMsg::ReuestFocusUpFrom(0)).focus, None);
    assert_eq!(b.update(EditorMsg::ReuestFocusUpFrom(2)).focus, Some(1));
    assert_eq!(b.update(EditorMsg::ReuestFocusDownFrom(2)).focus, None);
    assert_eq!(b.update(EditorMsg::ReuestFocusDownFrom(0)).focus, Some(1));
    let out = b.update(EditorMsg::TextChanged);
    assert_eq!(out, EditorOutcome { focus: None, notify: Some(RootMsg::TextChanged) });
}

#[test]
fn a_block_shows_its_note() {
    let note = TextWithTags {
        text: String::from("abc"),
        tags: vec![Tag { start: 1, end: 2, name: String::from("highlight") }],
    };
    let e = illpad::editor::Editor::init_model(note);
    assert_eq!(e.content.char_count(), 3);
    assert!(e.content.has_tag(0, 1));
    assert!(!e.content.has_tag(1, 1));
    assert_eq!(e.content.tag_name(0), "highlight");
    assert_eq!(e.content.tag_name(1), "bold");
}
