//! Layout import and export: which step of a transfer is under way, and what
//! each report of the workers and the native dialog leads to. The workers,
//! the dialog's future, the layout and the import request are the caller's;
//! they are polled each frame and their reports handed to `poll`.

use vstd::prelude::*;

verus! {

/// What a transfer does.
#[derive(Clone, Copy, Debug, PartialEq, Eq, Structural)]
pub enum Task {
    /// Import a layout file; `remember` keeps its folder for next time.
    Import { remember: bool },
    /// Export the selected layout.
    Export,
}

/// What a transfer is waiting for.
#[derive(Debug)]
pub enum Pending {
    /// The folder to open the import dialog in.
    Directory(Task),
    /// The native file dialog.
    Picker(Task),
    /// The worker reading and importing `path`.
    Read { path: String },
    /// The worker writing `path`.
    Write { path: String },
}

/// What this frame's poll of the awaited worker or dialog found.
#[derive(Debug)]
pub enum Report {
    /// Nothing yet.
    NotYet,
    /// The worker went away without answering.
    Lost,
    /// The import folder, if one is remembered.
    Directory(Option<String>),
    /// The file chosen, or `None` when the dialog was closed.
    Picked(Option<String>),
    /// The layout was read and the core asked to apply it.
    Read(Result<(), String>),
    /// The layout was written.
    Written(Result<(), String>),
}

/// Why a transfer failed.
#[derive(Debug, PartialEq, Eq)]
pub enum TransferError {
    /// A worker went away (`Layout worker disconnected`).
    WorkerLost,
    /// `log.layoutImportFailed`, with the error.
    ImportFailed(String),
    /// `log.layoutExportFailed`, with the error.
    ExportFailed(String),
}

/// What the caller does next.
#[derive(Debug, PartialEq, Eq)]
pub enum TransferAction {
    Nothing,
    /// Open the import dialog (filters json, yaml, yml), in `directory`.
    OpenPicker { directory: Option<String> },
    /// Read and import `path`.
    StartRead { path: String, remember: bool },
    /// Write the layout to `path`.
    StartWrite { path: String },
    /// Log at info level the catalogue message `key` with `path`.
    Done { key: &'static str, path: String },
    /// Log the failure at error level; it is also shown under the controls.
    Failed(TransferError),
}

/// The state of the layout transfer controls.
#[derive(Debug)]
pub struct LayoutTransfer {
    pub pending: Option<Pending>,
    pub error: Option<TransferError>,
}

impl LayoutTransfer {
    pub fn new() -> (t: LayoutTransfer)
        ensures
            t.pending is None,
            t.error is None,
    {
        LayoutTransfer { pending: None, error: None }
    }

    /// A transfer is under way.
    pub fn busy(&self) -> (r: bool)
        ensures
            r == (self.pending is Some),
    {
        self.pending.is_some()
    }

    /// Start an import (of a preset when `presets`): the caller asks the
    /// worker for the folder to open. Nothing happens while busy.
    pub fn import(&mut self, presets: bool) -> (started: bool)
        ensures
            started == (old(self).pending is None),
            started ==> final(self).pending == Some(Pending::Directory(Task::Import { remember: !presets }))
                && final(self).error is None,
            !started ==> *final(self) == *old(self),
    {
        if self.busy() {
            return false;
        }
        self.error = None;
        self.pending = Some(Pending::Directory(Task::Import { remember: !presets }));
        true
    }

    /// Start exporting the selected layout, if there is one: the caller opens
    /// the save dialog. Nothing happens while busy.
    pub fn export(&mut self, has_layout: bool) -> (started: bool)
        ensures
            started == (old(self).pending is None && has_layout),
            started ==> final(self).pending == Some(Pending::Picker(Task::Export)) && final(self).error is None,
            !started ==> *final(self) == *old(self),
    {
        if self.busy() || !has_layout {
            return false;
        }
        self.error = None;
        self.pending = Some(Pending::Picker(Task::Export));
        true
    }

    fn fail(&mut self, error: TransferError, shown: TransferError) -> (step: TransferAction)
        requires
            error == shown,
        ensures
            final(self).pending is None,
            final(self).error == Some(error),
            step == TransferAction::Failed(error),
    {
        self.pending = None;
        self.error = Some(error);
        TransferAction::Failed(shown)
    }

    /// Hand over this frame's report; returns the next step, and whether the
    /// core accepted an import (only then may the caller reset the speaker
    /// selection and draft).
    pub fn poll(&mut self, report: Report) -> (r: (TransferAction, bool))
        ensures
            r.1 <==> (old(self).pending matches Some(Pending::Read { .. }) && report matches Report::Read(Ok(_))),
            match old(self).pending {
                None => r == (TransferAction::Nothing, false) && *final(self) == *old(self),
                Some(Pending::Directory(task)) => match report {
                    Report::Directory(directory) => {
                        &&& final(self).pending == Some(Pending::Picker(task))
                        &&& final(self).error == old(self).error
                        &&& r == (TransferAction::OpenPicker { directory }, false)
                    },
                    Report::Lost => {
                        &&& final(self).pending is None
                        &&& final(self).error == Some(TransferError::WorkerLost)
                        &&& r == (TransferAction::Failed(TransferError::WorkerLost), false)
                    },
                    _ => r == (TransferAction::Nothing, false) && *final(self) == *old(self),
                },
                Some(Pending::Picker(task)) => match report {
                    Report::Picked(None) => {
                        &&& final(self).pending is None
                        &&& final(self).error == old(self).error
                        &&& r == (TransferAction::Nothing, false)
                    },
                    Report::Picked(Some(path)) => {
                        &&& final(self).error == old(self).error
                        &&& match task {
                            Task::Import { remember } => {
                                &&& final(self).pending == Some(Pending::Read { path })
                                &&& r == (TransferAction::StartRead { path, remember }, false)
                            },
                            Task::Export => {
                                &&& final(self).pending == Some(Pending::Write { path })
                                &&& r == (TransferAction::StartWrite { path }, false)
                            },
                        }
                    },
                    _ => r == (TransferAction::Nothing, false) && *final(self) == *old(self),
                },
                Some(Pending::Read { path }) => match report {
                    Report::Read(Ok(())) => {
                        &&& final(self).pending is None
                        &&& final(self).error == old(self).error
                        &&& r == (TransferAction::Done { key: "log.layoutImported", path }, true)
                    },
                    Report::Read(Err(e)) => {
                        &&& final(self).pending is None
                        &&& final(self).error == Some(TransferError::ImportFailed(e))
                        &&& r == (TransferAction::Failed(TransferError::ImportFailed(e)), false)
                    },
                    Report::Lost => {
                        &&& final(self).pending is None
                        &&& final(self).error == Some(TransferError::WorkerLost)
                        &&& r == (TransferAction::Failed(TransferError::WorkerLost), false)
                    },
                    _ => r == (TransferAction::Nothing, false) && *final(self) == *old(self),
                },
                Some(Pending::Write { path }) => match report {
                    Report::Written(Ok(())) => {
                        &&& final(self).pending is None
                        &&& final(self).error == old(self).error
                        &&& r == (TransferAction::Done { key: "log.layoutExported", path }, false)
                    },
                    Report::Written(Err(e)) => {
                        &&& final(self).pending is None
                        &&& final(self).error == Some(TransferError::ExportFailed(e))
                        &&& r == (TransferAction::Failed(TransferError::ExportFailed(e)), false)
                    },
                    Report::Lost => {
                        &&& final(self).pending is None
                        &&& final(self).error == Some(TransferError::WorkerLost)
                        &&& r == (TransferAction::Failed(TransferError::WorkerLost), false)
                    },
                    _ => r == (TransferAction::Nothing, false) && *final(self) == *old(self),
                },
            },
    {
        let pending = match self.pending.take() {
            None => return (TransferAction::Nothing, false),
            Some(p) => p,
        };
        match pending {
            Pending::Directory(task) => match report {
                Report::Directory(directory) => {
                    self.pending = Some(Pending::Picker(task));
                    (TransferAction::OpenPicker { directory }, false)
                },
                Report::Lost => (self.fail(TransferError::WorkerLost, TransferError::WorkerLost), false),
                _ => {
                    self.pending = Some(Pending::Directory(task));
                    (TransferAction::Nothing, false)
                },
            },
            Pending::Picker(task) => match report {
                Report::Picked(None) => (TransferAction::Nothing, false),
                Report::Picked(Some(path)) => match task {
                    Task::Import { remember } => {
                        let step = TransferAction::StartRead { path: path.clone(), remember };
                        self.pending = Some(Pending::Read { path });
                        (step, false)
                    },
                    Task::Export => {
                        let step = TransferAction::StartWrite { path: path.clone() };
                        self.pending = Some(Pending::Write { path });
                        (step, false)
                    },
                },
                _ => {
                    self.pending = Some(Pending::Picker(task));
                    (TransferAction::Nothing, false)
                },
            },
            Pending::Read { path } => match report {
                Report::Read(Ok(())) => (TransferAction::Done { key: "log.layoutImported", path }, true),
                Report::Read(Err(e)) => {
                    let shown = e.clone();
                    (self.fail(TransferError::ImportFailed(e), TransferError::ImportFailed(shown)), false)
                },
                Report::Lost => (self.fail(TransferError::WorkerLost, TransferError::WorkerLost), false),
                _ => {
                    self.pending = Some(Pending::Read { path });
                    (TransferAction::Nothing, false)
                },
            },
            Pending::Write { path } => match report {
                Report::Written(Ok(())) => (TransferAction::Done { key: "log.layoutExported", path }, false),
                Report::Written(Err(e)) => {
                    let shown = e.clone();
                    (self.fail(TransferError::ExportFailed(e), TransferError::ExportFailed(shown)), false)
                },
                Report::Lost => (self.fail(TransferError::WorkerLost, TransferError::WorkerLost), false),
                _ => {
                    self.pending = Some(Pending::Write { path });
                    (TransferAction::Nothing, false)
                },
            },
        }
    }
}

} // verus!
