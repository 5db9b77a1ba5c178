use vstd::prelude::*;

use crate::session::RootMsg;
use crate::surface::{extract, with_tag, BufferModel, TextBuffer, MAX_OFFSET, project};
use crate::text::{export, TextWithTags};

verus! {

/// Requests that one block of the editor makes; each carries the block's index.
#[derive(Clone, Copy, Debug, PartialEq, Eq, Structural)]
pub enum EditorMsg {
    RequestAddNoteFrom(usize),
    RequestDeleteNoteFrom(usize),
    ReuestFocusUpFrom(usize),
    ReuestFocusDownFrom(usize),
    TextChanged,
}

/// What handling a request leads to: the block to give the focus to, and the
/// event to pass on to the root.
#[derive(Clone, Copy, Debug, PartialEq, Eq, Structural)]
pub struct EditorOutcome {
    pub focus: Option<usize>,
    pub notify: Option<RootMsg>,
}

/// The welcome note shown when there are no notes.
pub open spec fn welcome_text() -> Seq<char> {
    "Welcome to the illpad!\nCtrl + Enter           Add new block below the current block"@
}

/// One block of the editor: the buffer that a note is edited in.
pub struct Editor {
    pub content: TextBuffer,
}

impl Editor {
    /// A block showing `content`.
    pub fn init_model(content: TextWithTags) -> (r: Editor)
        requires
            content.text@.len() <= MAX_OFFSET,
        ensures
            r.content.wf(),
            r.content.view() == project(content@),
    {
        Editor { content: content.as_text_buffer() }
    }
}

/// The ordered blocks of the editor.
pub struct EditorBox {
    pub editors: Vec<Editor>,
}

impl EditorBox {
    /// The models of the blocks' buffers.
    pub open spec fn blocks(&self) -> Seq<BufferModel> {
        self.editors@.map_values(|e: Editor| e.content.view())
    }

    pub open spec fn wf(&self) -> bool {
        forall|i: int| 0 <= i < self.editors@.len() ==> #[trigger] self.editors@[i].content.wf()
    }

    /// One block per note, each showing its note; a single welcome note when
    /// there are none.
    pub fn new(notes: Vec<TextWithTags>) -> (r: EditorBox)
        requires
            forall|i: int| 0 <= i < notes@.len() ==> #[trigger] notes@[i].text@.len() <= MAX_OFFSET,
        ensures
            r.wf(),
            notes@.len() == 0 ==> r.blocks().len() == 1 && r.blocks()[0] == project(
                TextWithTags::from_str_spec(welcome_text()),
            ),
            notes@.len() > 0 ==> r.blocks().len() == notes@.len() && forall|i: int|
                0 <= i < notes@.len() ==> #[trigger] r.blocks()[i] == project(notes@[i]@),
    {
        let mut editors: Vec<Editor> = Vec::new();
        if notes.len() == 0 {
            let welcome = TextWithTags::from_str(
                "Welcome to the illpad!\nCtrl + Enter           Add new block below the current block",
            );
            proof {
                reveal_strlit("Welcome to the illpad!\nCtrl + Enter           Add new block below the current block");
            }
            assert(welcome@ == TextWithTags::from_str_spec(welcome_text()));
            let b = Editor::init_model(welcome);
            editors.push(b);
            let r = EditorBox { editors };
            assert(r.blocks()[0] == b.content.view());
            return r;
        }
        let mut i: usize = 0;
        while i < notes.len()
            invariant
                i <= notes@.len(),
                editors@.len() == i,
                forall|j: int| 0 <= j < notes@.len() ==> #[trigger] notes@[j].text@.len() <= MAX_OFFSET,
                forall|j: int| 0 <= j < i ==> #[trigger] editors@[j].content.wf() && editors@[j].content.view() == project(notes@[j]@),
            decreases notes@.len() - i,
        {
            let b = Editor { content: notes[i].as_text_buffer() };
            editors.push(b);
            i = i + 1;
        }
        let r = EditorBox { editors };
        assert forall|j: int| 0 <= j < notes@.len() implies #[trigger] r.blocks()[j] == project(notes@[j]@) by {
            assert(r.editors@[j].content.wf());
            assert(r.editors@[j].content.view() == project(notes@[j]@));
        }
        r
    }

    /// A snapshot of every block, read over its whole text.
    pub fn get_text_with_tags(&self) -> (r: Vec<TextWithTags>)
        requires
            self.wf(),
        ensures
            r@.len() == self.editors@.len(),
            forall|i: int| 0 <= i < r@.len() ==> #[trigger] r@[i]@ == extract(
                self.blocks()[i],
                0,
                self.blocks()[i].text.len() as int,
            ),
    {
        let mut r: Vec<TextWithTags> = Vec::new();
        let mut i: usize = 0;
        while i < self.editors.len()
            invariant
                self.wf(),
                i <= self.editors@.len(),
                r@.len() == i,
                forall|j: int| 0 <= j < i ==> #[trigger] r@[j]@ == extract(
                    self.blocks()[j],
                    0,
                    self.blocks()[j].text.len() as int,
                ),
            decreases self.editors@.len() - i,
        {
            let b = &self.editors[i].content;
            let n = b.char_count();
            r.push(TextWithTags::from(b, 0, n));
            i = i + 1;
        }
        r
    }

    /// Handles a request: adding puts an empty block after the requesting
    /// one; deleting removes it unless it is the only block, and focuses the
    /// block before it if any; moving the focus up or down goes to the
    /// neighbouring block when there is one.
    pub fn update(&mut self, msg: EditorMsg) -> (r: EditorOutcome)
        requires
            old(self).wf(),
            match msg {
                EditorMsg::RequestAddNoteFrom(i) => i < old(self).editors@.len(),
                EditorMsg::RequestDeleteNoteFrom(i) => i < old(self).editors@.len(),
                EditorMsg::ReuestFocusUpFrom(i) => i < old(self).editors@.len(),
                EditorMsg::ReuestFocusDownFrom(i) => i < old(self).editors@.len(),
                EditorMsg::TextChanged => true,
            },
        ensures
            final(self).wf(),
            match msg {
                EditorMsg::TextChanged => final(self).blocks() == old(self).blocks() && r == (
                EditorOutcome { focus: None, notify: Some(RootMsg::TextChanged) }),
                EditorMsg::RequestAddNoteFrom(i) => final(self).blocks() == old(self).blocks().insert(
                    i + 1,
                    project(TextWithTags::from_str_spec(Seq::empty())),
                ) && r == (EditorOutcome { focus: None, notify: Some(RootMsg::EditorChanged) }),
                EditorMsg::RequestDeleteNoteFrom(i) => if old(self).editors@.len() == 1 {
                    final(self).blocks() == old(self).blocks() && r == (EditorOutcome {
                        focus: None,
                        notify: None,
                    })
                } else {
                    final(self).blocks() == old(self).blocks().remove(i as int) && r == (
                    EditorOutcome {
                        focus: if i > 0 {
                            Some((i - 1) as usize)
                        } else {
                            None
                        },
                        notify: Some(RootMsg::EditorChanged),
                    })
                },
                EditorMsg::ReuestFocusUpFrom(i) => final(self).blocks() == old(self).blocks() && r
                    == (EditorOutcome {
                    focus: if i == 0 {
                        None
                    } else {
                        Some((i - 1) as usize)
                    },
                    notify: None,
                }),
                EditorMsg::ReuestFocusDownFrom(i) => final(self).blocks() == old(self).blocks()
                    && r == (EditorOutcome {
                    focus: if i + 1 == old(self).editors@.len() {
                        None
                    } else {
                        Some((i + 1) as usize)
                    },
                    notify: None,
                }),
            },
    {
        match msg {
            EditorMsg::TextChanged => EditorOutcome { focus: None, notify: Some(RootMsg::TextChanged) },
            EditorMsg::RequestAddNoteFrom(i) => {
                let n = self.editors.len();
                assert(i < n);
                let empty = TextWithTags::default();
                proof {
                    assert(empty@ == TextWithTags::from_str_spec(Seq::empty()));
                }
                let b = Editor::init_model(empty);
                self.editors.insert(i + 1, b);
                proof {
                    assert(self.blocks() =~= old(self).blocks().insert(i + 1, b.content.view()));
                    assert forall|j: int| 0 <= j < self.editors@.len() implies #[trigger] self.editors@[j].content.wf() by {
                        if j > i + 1 {
                            assert(self.editors@[j] == old(self).editors@[j - 1]);
                        }
                    }
                }
                EditorOutcome { focus: None, notify: Some(RootMsg::EditorChanged) }
            },
            EditorMsg::RequestDeleteNoteFrom(i) => {
                if self.editors.len() == 1 {
                    return EditorOutcome { focus: None, notify: None };
                }
                self.editors.remove(i);
                proof {
                    assert(self.blocks() =~= old(self).blocks().remove(i as int));
                    assert forall|j: int| 0 <= j < self.editors@.len() implies #[trigger] self.editors@[j].content.wf() by {
                        if j >= i {
                            assert(self.editors@[j] == old(self).editors@[j + 1]);
                        }
                    }
                }
                let focus = if i > 0 { Some(i - 1) } else { None };
                EditorOutcome { focus, notify: Some(RootMsg::EditorChanged) }
            },
            EditorMsg::ReuestFocusUpFrom(i) => {
                let focus = if i == 0 { None } else { Some(i - 1) };
                EditorOutcome { focus, notify: None }
            },
            EditorMsg::ReuestFocusDownFrom(i) => {
                let n = self.editors.len();
                assert(i < n);
                let focus = if i + 1 == n { None } else { Some(i + 1) };
                EditorOutcome { focus, notify: None }
            },
        }
    }
}

/// The keys that the editor reacts to.
#[derive(Clone, Copy, Debug, PartialEq, Eq, Structural)]
pub enum Key {
    BackSpace,
    Return,
    C,
    H,
    B,
    J,
    K,
    Escape,
    Other,
}

/// What a key press in a block leads to: a request of the block, text to
/// put on the clipboard, and whether the key stops there instead of reaching
/// the text view.
#[derive(Debug)]
pub struct KeyOutcome {
    pub request: Option<EditorMsg>,
    pub clipboard: Option<String>,
    pub stop: bool,
}

/// The outcome that lets a key through with nothing else done.
pub open spec fn passes(r: &KeyOutcome) -> bool {
    r.request is None && r.clipboard is None && !r.stop
}

/// The outcome that makes a request of the block and stops the key.
pub open spec fn requests(r: &KeyOutcome, msg: EditorMsg) -> bool {
    r.request == Some(msg) && r.clipboard is None && r.stop
}

/// Handles a key pressed in block `index`, whose buffer is `buffer` and
/// whose selection, when there is one, is `selection`. With Ctrl: Return
/// asks for a new block below, J and K move the focus down and up, C copies
/// the export of the selection, and H and B highlight or embolden it.
/// BackSpace asks to delete the block when Ctrl is held or the block is
/// empty. Keys that ask for something or copy stop there; the others,
/// styling included, reach the text view.
pub fn handle_key_pressed(
    buffer: &mut TextBuffer,
    index: usize,
    key: Key,
    ctrl: bool,
    selection: Option<(usize, usize)>,
) -> (r: KeyOutcome)
    requires
        old(buffer).wf(),
        selection matches Some((s, e)) ==> s <= e <= old(buffer).view().text.len(),
    ensures
        final(buffer).wf(),
        match key {
            Key::BackSpace => *final(buffer) == *old(buffer) && if old(buffer).view().text.len()
                == 0 || ctrl {
                requests(&r, EditorMsg::RequestDeleteNoteFrom(index))
            } else {
                passes(&r)
            },
            Key::Return => *final(buffer) == *old(buffer) && if ctrl {
                requests(&r, EditorMsg::RequestAddNoteFrom(index))
            } else {
                passes(&r)
            },
            Key::J => *final(buffer) == *old(buffer) && if ctrl {
                requests(&r, EditorMsg::ReuestFocusDownFrom(index))
            } else {
                passes(&r)
            },
            Key::K => *final(buffer) == *old(buffer) && if ctrl {
                requests(&r, EditorMsg::ReuestFocusUpFrom(index))
            } else {
                passes(&r)
            },
            Key::C => *final(buffer) == *old(buffer) && if ctrl && selection is Some {
                r.request is None && r.stop && r.clipboard is Some && r.clipboard.unwrap()@
                    == export(
                    extract(
                        old(buffer).view(),
                        selection.unwrap().0 as int,
                        selection.unwrap().1 as int,
                    ),
                )
            } else {
                passes(&r)
            },
            Key::H => passes(&r) && if ctrl && selection is Some {
                final(buffer).view() == with_tag(
                    old(buffer).view(),
                    "highlight"@,
                    selection.unwrap().0 as int,
                    selection.unwrap().1 as int,
                )
            } else {
                *final(buffer) == *old(buffer)
            },
            Key::B => passes(&r) && if ctrl && selection is Some {
                final(buffer).view() == with_tag(
                    old(buffer).view(),
                    "bold"@,
                    selection.unwrap().0 as int,
                    selection.unwrap().1 as int,
                )
            } else {
                *final(buffer) == *old(buffer)
            },
            Key::Escape | Key::Other => *final(buffer) == *old(buffer) && passes(&r),
        },
{
    let pass = KeyOutcome { request: None, clipboard: None, stop: false };
    match key {
        Key::BackSpace => {
            if buffer.char_count() == 0 || ctrl {
                KeyOutcome {
                    request: Some(EditorMsg::RequestDeleteNoteFrom(index)),
                    clipboard: None,
                    stop: true,
                }
            } else {
                pass
            }
        },
        Key::Return => {
            if ctrl {
                KeyOutcome {
                    request: Some(EditorMsg::RequestAddNoteFrom(index)),
                    clipboard: None,
                    stop: true,
                }
            } else {
                pass
            }
        },
        Key::J => {
            if ctrl {
                KeyOutcome {
                    request: Some(EditorMsg::ReuestFocusDownFrom(index)),
                    clipboard: None,
                    stop: true,
                }
            } else {
                pass
            }
        },
        Key::K => {
            if ctrl {
                KeyOutcome {
                    request: Some(EditorMsg::ReuestFocusUpFrom(index)),
                    clipboard: None,
                    stop: true,
                }
            } else {
                pass
            }
        },
        Key::C => {
            match selection {
                Some((s, e)) => {
                    if ctrl {
                        let text = TextWithTags::from(buffer, s, e).clipboard_text();
                        KeyOutcome { request: None, clipboard: Some(text), stop: true }
                    } else {
                        pass
                    }
                },
                None => pass,
            }
        },
        Key::H => {
            match selection {
                Some((s, e)) => {
                    if ctrl {
                        buffer.apply_tag_by_name("highlight", s, e);
                    }
                    pass
                },
                None => pass,
            }
        },
        Key::B => {
            match selection {
                Some((s, e)) => {
                    if ctrl {
                        buffer.apply_tag_by_name("bold", s, e);
                    }
                    pass
                },
                None => pass,
            }
        },
        Key::Escape | Key::Other => pass,
    }
}

/// The root event that a key pressed in the window raises: Escape asks to quit.
pub fn window_key_pressed(key: Key) -> (r: Option<RootMsg>)
    ensures
        r == if key == Key::Escape {
            Some(RootMsg::ExitTriggered)
        } else {
            None
        },
{
    match key {
        Key::Escape => Some(RootMsg::ExitTriggered),
        _ => None,
    }
}

/// The style class that a text view drops and the one it takes when its
/// focus changes.
pub fn focus_classes(has_focus: bool) -> (r: (&'static str, &'static str))
    ensures
        has_focus ==> r.0@ == "editor-normal-text-view"@ && r.1@ == "editor-focused-text-view"@,
        !has_focus ==> r.0@ == "editor-focused-text-view"@ && r.1@ == "editor-normal-text-view"@,
{
    if has_focus {
        ("editor-normal-text-view", "editor-focused-text-view")
    } else {
        ("editor-focused-text-view", "editor-normal-text-view")
    }
}

} // verus!
