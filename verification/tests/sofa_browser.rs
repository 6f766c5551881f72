use omniphony_studio_egui::sofa::hrir_source;
use omniphony_studio_egui::{BrowserView, Job, SofaAction, SofaBrowser, SofaEntry, SofaMeta};

fn meta(license: &str) -> SofaMeta {
    SofaMeta { license: license.to_owned(), organization: String::new(), author: String::new() }
}

#[test]
fn the_dialog_opens_on_the_local_cache_and_asks_before_going_online() {
    let mut b = SofaBrowser::open(false);
    assert_eq!(b.view, BrowserView::Local);
    assert_eq!(b.path, "database/");
    assert_eq!(b.toggle_source(), SofaAction::Nothing);
    assert_eq!(b.view, BrowserView::OnlineConfirm);
    // Once agreed to, the source button goes straight online.
    let mut b = SofaBrowser::open(true);
    assert_eq!(b.toggle_source(), SofaAction::Browse("database/".to_owned()));
    assert_eq!(b.view, BrowserView::Remote);
    assert_eq!(b.status, Some(("Loading…".to_owned(), false)));
    assert_eq!(b.toggle_source(), SofaAction::ListLocal);
    assert_eq!(b.view, BrowserView::Local);
    assert_eq!(b.status, None);
}

#[test]
fn a_busy_dialog_refuses_the_source_button() {
    let mut b = SofaBrowser::open(true);
    b.start_job();
    assert_eq!(b.toggle_source(), SofaAction::Nothing);
    assert_eq!(b.view, BrowserView::Local);
    assert_eq!(b.finish_job(Job::Listed(Ok(Vec::new()))), SofaAction::Nothing);
    assert!(!b.busy);
}

#[test]
fn a_download_activates_and_says_its_licence() {
    let mut b = SofaBrowser::open(true);
    b.start_job();
    let action = b.finish_job(Job::Downloaded {
        name: "h1.sofa".to_owned(),
        remote: "database/h1.sofa".to_owned(),
        result: Ok(("/cache/h1.sofa".to_owned(), meta("CC BY-NC 4.0"))),
    });
    assert_eq!(action, SofaAction::Activate("/cache/h1.sofa".to_owned()));
    assert_eq!(b.active_remote, "database/h1.sofa");
    assert_eq!(
        b.status,
        Some(("✓ Active: h1.sofa — ⚖ CC BY-NC (non-commercial)".to_owned(), true))
    );
    let action = b.finish_job(Job::Downloaded {
        name: "h2.sofa".to_owned(),
        remote: "database/h2.sofa".to_owned(),
        result: Err("download cancelled by user".to_owned()),
    });
    assert_eq!(action, SofaAction::Nothing);
    assert_eq!(b.status, Some(("Download cancelled.".to_owned(), false)));
    assert_eq!(b.active_remote, "database/h1.sofa");
    b.finish_job(Job::Browsed(Err("timed out".to_owned())));
    assert_eq!(b.status, Some(("timed out".to_owned(), true)));
}

#[test]
fn uploads_and_imports_report_their_counts() {
    let mut b = SofaBrowser::open(false);
    b.finish_job(Job::Uploaded { name: "h.sofa".to_owned(), result: Ok(12) });
    assert_eq!(
        b.status,
        Some((
            "✓ Sent h.sofa (12 chunks) — the renderer stores and activates it (see the HRTF file line)."
                .to_owned(),
            false
        ))
    );
    assert_eq!(b.finish_job(Job::Imported(Ok(1))), SofaAction::ListLocal);
    assert_eq!(b.status, Some(("✓ Imported 1 file.".to_owned(), false)));
    b.finish_job(Job::Imported(Ok(3)));
    assert_eq!(b.status, Some(("✓ Imported 3 files.".to_owned(), false)));
    b.finish_job(Job::Imported(Err("disk full".to_owned())));
    assert_eq!(b.status, Some(("disk full".to_owned(), true)));
    b.status(String::new(), true);
    assert_eq!(b.status, None);
}

#[test]
fn downloads_uploads_and_deletions_say_what_they_do() {
    let mut b = SofaBrowser::open(true);
    let entry = SofaEntry {
        name: "H1".to_owned(),
        href: "H1_48K.sofa".to_owned(),
        size: "1.6M".to_owned(),
        dir: false,
    };
    b.browse("database/hutubs/".to_owned());
    assert_eq!(b.start_download(&entry), "database/hutubs/H1_48K.sofa");
    assert_eq!(b.status, Some(("Downloading H1 (1.6M)…".to_owned(), false)));
    assert!(!b.entry_is_active(&entry));
    b.active_remote = "database/hutubs/H1_48K.sofa".to_owned();
    assert!(b.entry_is_active(&entry));
    b.start_upload("H1_48K.sofa");
    assert_eq!(b.status, Some(("Uploading H1_48K.sofa to the renderer…".to_owned(), false)));
    assert_eq!(b.finish_delete(Ok(()), "Deleted H1.".to_owned()), SofaAction::ListLocal);
    assert_eq!(b.view, BrowserView::Local);
    assert_eq!(b.status, Some(("Deleted H1.".to_owned(), false)));
    assert_eq!(b.finish_delete(Err("locked".to_owned()), "x".to_owned()), SofaAction::Nothing);
    assert_eq!(b.status, Some(("locked".to_owned(), true)));
    assert_eq!(hrir_source("/cache/h.sofa"), "sofa:/cache/h.sofa");
}

#[test]
fn a_finished_job_touches_only_what_it_brings_and_a_lost_job_only_frees_the_dialog() {
    let mut b = SofaBrowser::open(true);
    b.browse("database/a/".to_owned());
    b.start_job();
    b.finish_job(Job::Browsed(Ok(vec![SofaEntry {
        name: "x".to_owned(),
        href: "x.sofa".to_owned(),
        size: "1M".to_owned(),
        dir: false,
    }])));
    assert_eq!(b.path, "database/a/");
    assert_eq!(b.view, BrowserView::Remote);
    assert!(b.local.is_empty());
    assert_eq!(b.entries.len(), 1);
    b.start_job();
    b.status("Working".to_owned(), false);
    b.lose_job();
    assert!(!b.busy);
    assert_eq!(b.status, Some(("Working".to_owned(), false)));
    assert_eq!(b.entries.len(), 1);
}
