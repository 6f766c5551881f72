//! The config-profile picker.
//!
//! The renderer is the single source of truth: every change goes out as an
//! intent and the row is filled again from what the renderer says back.
//! Nothing is applied optimistically: the picker shows what the renderer last
//! said, not what was asked for. Drawing is the caller's; this is the
//! panel's own state and the intents its controls lead to.

use vstd::prelude::*;

verus! {

/// What the name field is open for.
#[derive(Clone, Debug, PartialEq, Eq)]
pub enum NameEditor {
    Create,
    Rename(String),
}

/// A user intent, checked against the current state before it is sent.
#[derive(Clone, Debug, PartialEq, Eq)]
pub enum ProfileAction {
    Switch(String),
    Submit { editor: NameEditor, name: String },
    Delete(String),
}

/// What the renderer last said: the active profile and all the profiles.
#[derive(Clone, Debug, Default)]
pub struct Snapshot {
    pub active: Option<String>,
    pub names: Vec<String>,
}

/// The panel's own state, independent of the application and the renderer.
#[derive(Debug, Default)]
pub struct ProfilePanel {
    pub editor: Option<NameEditor>,
    /// The name field.
    pub name: String,
    /// The name field takes the focus on the next frame.
    pub focus_name: bool,
    /// The profile whose deletion is being confirmed.
    pub delete_confirm: Option<String>,
}

/// There is an active profile (an empty name is none).
pub open spec fn has_active(s: Snapshot) -> bool {
    s.active matches Some(a) && a@.len() > 0
}

/// The first name of `names` other than `name`, if any.
pub open spec fn first_other(names: Seq<String>, name: Seq<char>) -> Option<Seq<char>>
    decreases names.len(),
{
    if names.len() == 0 {
        None
    } else if names[0]@ != name {
        Some(names[0]@)
    } else {
        first_other(names.skip(1), name)
    }
}

pub open spec fn lists(names: Seq<String>, name: Seq<char>) -> bool {
    exists|i: int| 0 <= i < names.len() && #[trigger] names[i]@ == name
}

fn active_is_set(s: &Snapshot) -> (r: bool)
    ensures
        r == has_active(*s),
{
    match &s.active {
        Some(a) => !a.as_str().is_empty(),
        None => false,
    }
}

/// Whether `name` is one of `names`, and the first other name.
fn find_other(names: &Vec<String>, name: &String) -> (r: (bool, Option<String>))
    ensures
        r.0 == lists(names@, name@),
        match r.1 {
            Some(k) => first_other(names@, name@) == Some(k@),
            None => first_other(names@, name@) is None,
        },
{
    let mut listed = false;
    let mut other: Option<String> = None;
    let mut i: usize = 0;
    assert(names@.skip(0) =~= names@);
    while i < names.len()
        invariant
            i <= names@.len(),
            listed == exists|j: int| 0 <= j < i && #[trigger] names@[j]@ == name@,
            match other {
                Some(k) => first_other(names@, name@) == Some(k@),
                None => first_other(names@, name@) == first_other(names@.skip(i as int), name@),
            },
        decreases names@.len() - i,
    {
        let same = names[i] == *name;
        if same {
            listed = true;
        }
        match other {
            Some(_) => {},
            None => {
                assert(names@.skip(i as int)[0] == names@[i as int]);
                assert(names@.skip(i as int).skip(1) =~= names@.skip(i + 1));
                if !same {
                    other = Some(names[i].clone());
                }
            },
        }
        i = i + 1;
    }
    (listed, other)
}

impl ProfilePanel {
    pub fn new() -> (p: ProfilePanel)
        ensures
            p.editor is None,
            p.name@.len() == 0,
            !p.focus_name,
            p.delete_confirm is None,
    {
        ProfilePanel { editor: None, name: String::new(), focus_name: false, delete_confirm: None }
    }

    /// Rename is offered when there is an active profile.
    pub fn can_rename(snapshot: &Snapshot) -> (r: bool)
        ensures
            r == has_active(*snapshot),
    {
        active_is_set(snapshot)
    }

    /// Delete is offered when there is an active profile and another one:
    /// the renderer refuses to delete the last profile.
    pub fn can_delete(snapshot: &Snapshot) -> (r: bool)
        ensures
            r == (has_active(*snapshot) && snapshot.names@.len() > 1),
    {
        active_is_set(snapshot) && snapshot.names.len() > 1
    }

    /// The delete button: ask to confirm deleting the active profile.
    pub fn press_delete(&mut self, snapshot: &Snapshot)
        ensures
            has_active(*snapshot) && snapshot.names@.len() > 1 ==> final(self).delete_confirm
                == snapshot.active,
            !(has_active(*snapshot) && snapshot.names@.len() > 1) ==> final(self).delete_confirm
                == old(self).delete_confirm,
            final(self).editor == old(self).editor,
            final(self).name == old(self).name,
            final(self).focus_name == old(self).focus_name,
    {
        if Self::can_delete(snapshot) {
            self.delete_confirm = snapshot.active.clone();
        }
    }

    /// The rename button: open the name field on the active profile's name.
    pub fn press_rename(&mut self, snapshot: &Snapshot)
        ensures
            has_active(*snapshot) ==> {
                &&& final(self).editor matches Some(NameEditor::Rename(n)) && Some(n) == snapshot.active
                &&& Some(final(self).name) == snapshot.active
                &&& final(self).focus_name
            },
            !has_active(*snapshot) ==> final(self).editor == old(self).editor && final(self).name
                == old(self).name && final(self).focus_name == old(self).focus_name,
            final(self).delete_confirm == old(self).delete_confirm,
    {
        if !active_is_set(snapshot) {
            return;
        }
        match &snapshot.active {
            Some(name) => {
                self.editor = Some(NameEditor::Rename(name.clone()));
                self.name = name.clone();
                self.focus_name = true;
            },
            None => {},
        }
    }

    /// The create button: open an empty name field.
    pub fn press_create(&mut self)
        ensures
            final(self).editor == Some(NameEditor::Create),
            final(self).name@.len() == 0,
            final(self).focus_name,
            final(self).delete_confirm == old(self).delete_confirm,
    {
        self.editor = Some(NameEditor::Create);
        self.name = String::new();
        self.focus_name = true;
    }

    /// A profile picked in the list: switching to it, unless it is already
    /// the active one.
    pub fn pick(snapshot: &Snapshot, name: String) -> (r: Option<ProfileAction>)
        ensures
            (snapshot.active matches Some(a) && a@ == name@) ==> r is None,
            !(snapshot.active matches Some(a) && a@ == name@) ==> r == Some(ProfileAction::Switch(name)),
    {
        let selected = match &snapshot.active {
            Some(a) => *a == name,
            None => false,
        };
        if selected {
            None
        } else {
            Some(ProfileAction::Switch(name))
        }
    }

    /// Whether the name field is to take the focus now; asked once.
    pub fn take_focus(&mut self) -> (r: bool)
        ensures
            r == old(self).focus_name,
            !final(self).focus_name,
            final(self).editor == old(self).editor,
            final(self).name == old(self).name,
            final(self).delete_confirm == old(self).delete_confirm,
    {
        let r = self.focus_name;
        self.focus_name = false;
        r
    }

    /// The name field's frame: `cancel` (Escape, or the cancel button) closes
    /// it with no intent; `submit` (Enter on leaving the field, or the
    /// confirm button) closes it and submits the name once.
    pub fn finish_name(&mut self, submit: bool, cancel: bool) -> (r: Option<ProfileAction>)
        ensures
            match old(self).editor {
                None => r is None && final(self).editor is None,
                Some(editor) => if cancel {
                    r is None && final(self).editor is None
                } else if submit {
                    r == Some(ProfileAction::Submit { editor, name: old(self).name })
                        && final(self).editor is None
                } else {
                    r is None && final(self).editor == old(self).editor
                },
            },
            final(self).name == old(self).name,
            final(self).focus_name == old(self).focus_name,
            final(self).delete_confirm == old(self).delete_confirm,
    {
        let editor = match self.editor.take() {
            None => return None,
            Some(e) => e,
        };
        if cancel {
            return None;
        }
        if !submit {
            self.editor = Some(editor);
            return None;
        }
        Some(ProfileAction::Submit { editor, name: self.name.clone() })
    }

    /// What the confirmation asks: the profile to delete and the one to keep
    /// (the first other profile). A confirmation for a profile that is no
    /// longer listed, or the last one, closes instead.
    pub fn delete_prompt(&mut self, names: &Vec<String>) -> (r: Option<(String, String)>)
        ensures
            match old(self).delete_confirm {
                None => r is None && final(self).delete_confirm is None,
                Some(name) => if lists(names@, name@) && first_other(names@, name@) is Some {
                    &&& r matches Some((n, keep)) && n == name && Some(keep@) == first_other(
                        names@,
                        name@,
                    )
                    &&& final(self).delete_confirm == old(self).delete_confirm
                } else {
                    r is None && final(self).delete_confirm is None
                },
            },
            final(self).editor == old(self).editor,
            final(self).name == old(self).name,
            final(self).focus_name == old(self).focus_name,
    {
        let name = match &self.delete_confirm {
            None => return None,
            Some(n) => n.clone(),
        };
        let (listed, other) = find_other(names, &name);
        if !listed {
            self.delete_confirm = None;
            return None;
        }
        match other {
            None => {
                self.delete_confirm = None;
                None
            },
            Some(keep) => Some((name, keep)),
        }
    }

    /// The confirmation's answer: `delete` asks the renderer to delete the
    /// profile; `cancel`, or the dialog closing, drops the question.
    pub fn answer_delete(&mut self, delete: bool, cancel: bool, closed: bool) -> (r: Option<ProfileAction>)
        ensures
            match old(self).delete_confirm {
                None => r is None && final(self).delete_confirm is None,
                Some(name) => if delete {
                    r == Some(ProfileAction::Delete(name)) && final(self).delete_confirm is None
                } else if cancel || closed {
                    r is None && final(self).delete_confirm is None
                } else {
                    r is None && final(self).delete_confirm == old(self).delete_confirm
                },
            },
            final(self).editor == old(self).editor,
            final(self).name == old(self).name,
            final(self).focus_name == old(self).focus_name,
    {
        let name = match self.delete_confirm.take() {
            None => return None,
            Some(n) => n,
        };
        if delete {
            return Some(ProfileAction::Delete(name));
        }
        if !(cancel || closed) {
            self.delete_confirm = Some(name);
        }
        None
    }
}

} // verus!
