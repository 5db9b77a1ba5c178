use vstd::prelude::*;

verus! {

/// Events that reach the root of the application.
#[derive(Clone, Copy, Debug, PartialEq, Eq, Structural)]
pub enum RootMsg {
    TextChanged,
    EditorChanged,
    SaveComplete,
    AutoSaveTickTriggered,
    ExitTriggered,
}

/// What the file writer reports back.
#[derive(Clone, Copy, Debug, PartialEq, Eq, Structural)]
pub enum FileWriterMsg {
    SaveComplete,
}

impl FileWriterMsg {
    /// The root event that a report of the file writer becomes.
    pub fn to_root(self) -> (r: RootMsg)
        ensures
            r == RootMsg::SaveComplete,
    {
        match self {
            FileWriterMsg::SaveComplete => RootMsg::SaveComplete,
        }
    }
}

/// What the application does after an event.
#[derive(Clone, Copy, Debug, PartialEq, Eq, Structural)]
pub enum AppAction {
    /// Nothing to do.
    Idle,
    /// Hand a snapshot of the notes to the background writer.
    Save,
    /// Write the notes at once when `save` holds, then quit.
    Quit { save: bool },
}

/// Whether the notes changed since they were last handed to the writer.
#[derive(Clone, Copy, Debug, PartialEq, Eq, Structural)]
pub struct App {
    pub text_changed: bool,
    pub editor_changed: bool,
}

impl App {
    /// Nothing changed yet.
    pub fn new() -> (r: App)
        ensures
            !r.text_changed,
            !r.editor_changed,
    {
        App { text_changed: false, editor_changed: false }
    }

    /// Records an event and says what to do: a tick saves when something
    /// changed and marks the notes clean at once, before the write is done;
    /// exit writes what changed and quits.
    pub fn update(&mut self, msg: RootMsg) -> (r: AppAction)
        ensures
            ({
                let dirty = old(self).text_changed || old(self).editor_changed;
                match msg {
                    RootMsg::TextChanged => r == AppAction::Idle && *final(self) == (App {
                        text_changed: true,
                        ..*old(self)
                    }),
                    RootMsg::EditorChanged => r == AppAction::Idle && *final(self) == (App {
                        editor_changed: true,
                        ..*old(self)
                    }),
                    RootMsg::SaveComplete => r == AppAction::Idle && *final(self) == *old(self),
                    RootMsg::ExitTriggered => r == (AppAction::Quit { save: dirty }) && *final(self) == *old(self),
                    RootMsg::AutoSaveTickTriggered => if dirty {
                        r == AppAction::Save && !final(self).text_changed
                            && !final(self).editor_changed
                    } else {
                        r == AppAction::Idle && *final(self) == *old(self)
                    },
                }
            }),
    {
        match msg {
            RootMsg::TextChanged => {
                self.text_changed = true;
                AppAction::Idle
            },
            RootMsg::EditorChanged => {
                self.editor_changed = true;
                AppAction::Idle
            },
            RootMsg::SaveComplete => AppAction::Idle,
            RootMsg::ExitTriggered => AppAction::Quit { save: self.text_changed || self.editor_changed },
            RootMsg::AutoSaveTickTriggered => {
                if self.text_changed || self.editor_changed {
                    self.text_changed = false;
                    self.editor_changed = false;
                    AppAction::Save
                } else {
                    AppAction::Idle
                }
            },
        }
    }
}

} // verus!
