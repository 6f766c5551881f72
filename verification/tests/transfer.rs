use omniphony_studio_egui::{LayoutTransfer, Pending, Report, Task, TransferAction, TransferError};

#[test]
fn an_import_asks_for_the_folder_then_the_file_then_reads_it() {
    let mut t = LayoutTransfer::new();
    assert!(!t.busy());
    assert!(t.import(false));
    assert!(t.busy());
    // Only one transfer at a time.
    assert!(!t.import(true));
    assert!(!t.export(true));
    assert_eq!(t.poll(Report::NotYet), (TransferAction::Nothing, false));
    assert_eq!(
        t.poll(Report::Directory(Some("/layouts".to_owned()))),
        (TransferAction::OpenPicker { directory: Some("/layouts".to_owned()) }, false)
    );
    assert!(matches!(t.pending, Some(Pending::Picker(Task::Import { remember: true }))));
    assert_eq!(
        t.poll(Report::Picked(Some("/layouts/7.1.4.yaml".to_owned()))),
        (TransferAction::StartRead { path: "/layouts/7.1.4.yaml".to_owned(), remember: true }, false)
    );
    assert_eq!(
        t.poll(Report::Read(Ok(()))),
        (TransferAction::Done { key: "log.layoutImported", path: "/layouts/7.1.4.yaml".to_owned() }, true)
    );
    assert!(!t.busy());
    assert_eq!(t.error, None);
}

#[test]
fn a_preset_import_does_not_remember_its_folder_and_a_failure_is_shown() {
    let mut t = LayoutTransfer::new();
    t.import(true);
    t.poll(Report::Directory(None));
    assert_eq!(
        t.poll(Report::Picked(Some("p.json".to_owned()))),
        (TransferAction::StartRead { path: "p.json".to_owned(), remember: false }, false)
    );
    assert_eq!(
        t.poll(Report::Read(Err("bad yaml".to_owned()))),
        (TransferAction::Failed(TransferError::ImportFailed("bad yaml".to_owned())), false)
    );
    assert_eq!(t.error, Some(TransferError::ImportFailed("bad yaml".to_owned())));
    // A new transfer clears the error.
    assert!(t.import(true));
    assert_eq!(t.error, None);
    assert_eq!(t.poll(Report::Lost), (TransferAction::Failed(TransferError::WorkerLost), false));
    assert!(!t.busy());
}

#[test]
fn closing_the_dialog_changes_nothing_and_exports_need_a_layout() {
    let mut t = LayoutTransfer::new();
    assert!(!t.export(false));
    assert!(t.export(true));
    assert_eq!(t.poll(Report::Picked(None)), (TransferAction::Nothing, false));
    assert!(!t.busy());
    assert_eq!(t.error, None);
    t.export(true);
    assert_eq!(
        t.poll(Report::Picked(Some("out.yaml".to_owned()))),
        (TransferAction::StartWrite { path: "out.yaml".to_owned() }, false)
    );
    assert_eq!(t.poll(Report::NotYet), (TransferAction::Nothing, false));
    assert_eq!(
        t.poll(Report::Written(Ok(()))),
        (TransferAction::Done { key: "log.layoutExported", path: "out.yaml".to_owned() }, false)
    );
    t.export(true);
    t.poll(Report::Picked(Some("ro.yaml".to_owned())));
    assert_eq!(
        t.poll(Report::Written(Err("read-only".to_owned()))),
        (TransferAction::Failed(TransferError::ExportFailed("read-only".to_owned())), false)
    );
    // Polling an idle transfer does nothing.
    assert_eq!(t.poll(Report::Written(Ok(()))), (TransferAction::Nothing, false));
}
