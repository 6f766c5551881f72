//! The backend file editor's state.
//!
//! The file being edited lives on the renderer: the editor asks for its
//! content and saves it over the wire, so editing a scriptable backend works
//! when the renderer runs on another machine. What is here decides what is
//! asked for, what is saved, and which answer the editor adopts; sending and
//! receiving are the caller's. Status texts are catalogue keys, translated
//! where they are shown.

use vstd::prelude::*;
use crate::text::{extend_str, string_of, trim, trim_exec};

verus! {

/// What the editor is editing: the param whose file it is, and what the
/// renderer says that file is.
pub struct ScriptEditor {
    pub backend: String,
    pub key: String,
    pub language: Option<String>,
    pub extensions: Vec<String>,
    /// The renderer is this machine, so a local path is meaningful and Browse
    /// is worth offering.
    pub renderer_is_local: bool,
    /// The name field: what a save writes under.
    pub name: String,
    /// The buffer.
    pub text: String,
    /// The status line: a catalogue key, and whether it is an error.
    pub status: Option<(String, bool)>,
    /// A `get` is out and its answer has not arrived.
    pub awaiting: bool,
}

/// A request for content: a name previews a managed file, none reads the
/// param's current handle.
pub struct FileRequest {
    pub backend: String,
    pub key: String,
    pub name: Option<String>,
}

/// A save: the buffer, under a name, for one backend file param.
pub struct FilePut {
    pub backend: String,
    pub key: String,
    pub name: String,
    pub content: String,
}

/// Content the renderer sent for a backend file param.
pub struct FileContent {
    pub backend: String,
    pub key: String,
    pub name: String,
    pub content: String,
}

pub open spec fn key_status(status: Option<(String, bool)>) -> Option<(Seq<char>, bool)> {
    match status {
        Some((t, e)) => Some((t@, e)),
        None => None,
    }
}

pub open spec fn opt_view(o: Option<String>) -> Option<Seq<char>> {
    match o {
        Some(s) => Some(s@),
        None => None,
    }
}

impl ScriptEditor {
    /// The same param, and the same file state, in `self` and `other`.
    pub open spec fn same_target(&self, other: &ScriptEditor) -> bool {
        &&& self.backend == other.backend
        &&& self.key == other.key
        &&& self.language == other.language
        &&& self.extensions == other.extensions
        &&& self.renderer_is_local == other.renderer_is_local
    }

    /// Ask the renderer for content: the editor says it is loading and waits
    /// for the answer.
    pub fn request(&mut self, name: Option<String>) -> (r: FileRequest)
        ensures
            final(self).awaiting,
            key_status(final(self).status) == Some(("backend.file.editor.loading"@, false)),
            r.backend@ == old(self).backend@,
            r.key@ == old(self).key@,
            r.name == name,
            final(self).same_target(old(self)),
            final(self).name == old(self).name,
            final(self).text == old(self).text,
    {
        self.status = Some(("backend.file.editor.loading".to_owned(), false));
        self.awaiting = true;
        FileRequest { backend: self.backend.clone(), key: self.key.clone(), name }
    }

    /// The editor opened for one backend file param, and its first request:
    /// the param's current file.
    pub fn open(
        backend: &str,
        key: &str,
        language: Option<String>,
        extensions: Vec<String>,
        renderer_is_local: bool,
    ) -> (r: (ScriptEditor, FileRequest))
        ensures
            r.0.backend@ == backend@,
            r.0.key@ == key@,
            r.0.language == language,
            r.0.extensions == extensions,
            r.0.renderer_is_local == renderer_is_local,
            r.0.name@.len() == 0,
            r.0.text@.len() == 0,
            r.0.awaiting,
            key_status(r.0.status) == Some(("backend.file.editor.loading"@, false)),
            r.1.backend@ == backend@,
            r.1.key@ == key@,
            r.1.name is None,
    {
        let mut editor = ScriptEditor {
            backend: backend.to_owned(),
            key: key.to_owned(),
            language,
            extensions,
            renderer_is_local,
            name: String::new(),
            text: String::new(),
            status: None,
            awaiting: false,
        };
        let request = editor.request(None);
        (editor, request)
    }

    /// A file picked, from the managed list or with Browse: it becomes the
    /// name field, and its content is asked for.
    pub fn pick(&mut self, name: String) -> (r: FileRequest)
        ensures
            final(self).name == name,
            r.name == Some(name),
            r.backend@ == old(self).backend@,
            r.key@ == old(self).key@,
            final(self).awaiting,
            key_status(final(self).status) == Some(("backend.file.editor.loading"@, false)),
            final(self).same_target(old(self)),
            final(self).text == old(self).text,
    {
        self.name = name.clone();
        self.request(Some(name))
    }

    /// Save the buffer under the trimmed name; an empty name is refused with
    /// an error status and nothing is sent.
    pub fn save(&mut self) -> (r: Option<FilePut>)
        ensures
            trim(old(self).name@).len() == 0 ==> r is None && key_status(final(self).status)
                == Some(("backend.file.editor.nameRequired"@, true)),
            trim(old(self).name@).len() > 0 ==> (r matches Some(put) && put.backend@ == old(
                self,
            ).backend@ && put.key@ == old(self).key@ && put.name@ == trim(old(self).name@)
                && put.content@ == old(self).text@ && key_status(final(self).status) == Some(
                ("backend.file.editor.saving"@, false),
            )),
            final(self).same_target(old(self)),
            final(self).name == old(self).name,
            final(self).text == old(self).text,
            final(self).awaiting == old(self).awaiting,
    {
        let name = trim_exec(self.name.as_str());
        if name.len() == 0 {
            self.status = Some(("backend.file.editor.nameRequired".to_owned(), true));
            return None;
        }
        self.status = Some(("backend.file.editor.saving".to_owned(), false));
        Some(
            FilePut {
                backend: self.backend.clone(),
                key: self.key.clone(),
                name: string_of(&name),
                content: self.text.clone(),
            },
        )
    }

    /// Whether a content message is the answer to this editor's request:
    /// one is out, and the message is for this editor's param.
    pub fn accepts(&self, file: &FileContent) -> (r: bool)
        ensures
            r == (self.awaiting && file.backend@ == self.backend@ && file.key@ == self.key@),
    {
        self.awaiting && file.backend == self.backend && file.key == self.key
    }

    /// Adopt the answer: its content becomes the buffer, its name (when it
    /// has one) the name field, and the editor stops waiting.
    pub fn adopt(&mut self, file: FileContent)
        ensures
            final(self).text@ == file.content@,
            file.name@.len() > 0 ==> final(self).name@ == file.name@,
            file.name@.len() == 0 ==> final(self).name == old(self).name,
            !final(self).awaiting,
            key_status(final(self).status) == Some(("backend.file.editor.loaded"@, false)),
            final(self).same_target(old(self)),
    {
        self.text = file.content;
        if !file.name.as_str().is_empty() {
            self.name = file.name;
        }
        self.awaiting = false;
        self.status = Some(("backend.file.editor.loaded".to_owned(), false));
    }

    /// A new file: named `untitled.` and the param's first extension (`txt`
    /// when it declares none), an empty buffer, and no request waited for.
    pub fn start_new(&mut self)
        ensures
            final(self).name@ == "untitled."@ + (if old(self).extensions@.len() > 0 {
                old(self).extensions@[0]@
            } else {
                "txt"@
            }),
            final(self).text@.len() == 0,
            !final(self).awaiting,
            key_status(final(self).status) == Some(("backend.file.editor.new"@, false)),
            final(self).same_target(old(self)),
    {
        let mut name: Vec<char> = Vec::new();
        extend_str(&mut name, "untitled.");
        if self.extensions.len() > 0 {
            extend_str(&mut name, self.extensions[0].as_str());
        } else {
            extend_str(&mut name, "txt");
        }
        self.name = string_of(&name);
        self.text = String::new();
        self.awaiting = false;
        self.status = Some(("backend.file.editor.new".to_owned(), false));
    }

    /// What a reload asks for: the trimmed name, when there is one.
    pub fn reload_name(&self) -> (r: Option<String>)
        ensures
            trim(self.name@).len() == 0 ==> r is None,
            trim(self.name@).len() > 0 ==> (r matches Some(n) && n@ == trim(self.name@)),
    {
        let name = trim_exec(self.name.as_str());
        if name.len() == 0 {
            None
        } else {
            Some(string_of(&name))
        }
    }
}

} // verus!
